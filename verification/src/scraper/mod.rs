//! The crawl of the channels of one account, as a machine that is fed the
//! service's answers and says what to do next. A caller sends the requests,
//! waits and writes; every decision is taken here.

use vstd::prelude::*;

use crate::decimal::decimal_text;
use crate::discord_api::{
    rate_limit_info, rate_limit_wait, text_view, DiscordApi, DiscordApiError, HttpResponse,
};

pub mod backup;
pub mod channel_info;
pub mod convert;
pub mod crawl;

pub use backup::{after_channel, backup_entry, BackupEntry, BackupNext, BackupStep};
pub use channel_info::{Resolution, ResolveStep, ResolvedChannel};
pub use convert::{
    convert_jsonl_file_into_json, json_file_name, FileConversionError, InvalidPathError,
};
pub use crawl::{Crawl, CrawlNext, CrawlPlan, CrawlStep};

verus! {

/// The seconds to wait before a fetch that met HTTP 503 is tried again.
pub const SECONDS_TO_WAIT_IN_CASE_OF_HTTP_503: u8 = 20;

/// Why a crawl failed.
#[derive(Debug)]
pub enum ScraperError {
    DiscordApiError(DiscordApiError),
    /// The sink could not be opened or written; the text says why.
    SaveError(String),
}

/// A wait that a caller owes before it goes on.
#[derive(Debug, Clone, Copy, PartialEq, Eq, Structural)]
pub enum Pause {
    /// The milliseconds until the service admits the next call.
    RateLimit(u16),
    /// The seconds before a fetch that met HTTP 503 is tried again.
    ServiceUnavailable(u8),
}

impl Pause {
    /// The length of the wait in milliseconds.
    pub open spec fn spec_millis(self) -> u64 {
        match self {
            Pause::RateLimit(ms) => ms as u64,
            Pause::ServiceUnavailable(seconds) => (seconds * 1000) as u64,
        }
    }

    /// The length of the wait in milliseconds.
    #[verifier::when_used_as_spec(spec_millis)]
    pub fn millis(self) -> (r: u64)
        ensures
            r == self.spec_millis(),
    {
        match self {
            Pause::RateLimit(ms) => ms as u64,
            Pause::ServiceUnavailable(seconds) => seconds as u64 * 1000,
        }
    }
}

/// The wait that a declared pacing of `wait` milliseconds asks for.
pub open spec fn rate_limit_pause(wait: u16) -> Option<Pause> {
    if wait == 0 {
        None
    } else {
        Some(Pause::RateLimit(wait))
    }
}

/// The milliseconds of pacing that an answer asks for: what its headers
/// declare where the status is 200, and none for any other answer and
/// where no answer came.
pub open spec fn reply_wait(reply: Result<HttpResponse, String>) -> u16 {
    match reply {
        Ok(response) => if response.status == 200 {
            rate_limit_wait(
                rate_limit_info(
                    text_view(response.ratelimit_remaining),
                    text_view(response.ratelimit_reset_after),
                ),
            )
        } else {
            0
        },
        Err(_) => 0,
    }
}

/// The wait that an answer's headers ask for.
fn reply_pacing(response: &HttpResponse) -> (r: u16)
    ensures
        r == reply_wait(Ok(*response)),
{
    if response.status == 200 {
        DiscordApi::handle_rate_limit_wait(response)
    } else {
        0
    }
}

/// The wait that a declared pacing of `wait` milliseconds asks for.
fn pause_for(wait: u16) -> (r: Option<Pause>)
    ensures
        r == rate_limit_pause(wait),
{
    if wait == 0 {
        None
    } else {
        Some(Pause::RateLimit(wait))
    }
}

/// Whether a channel's name is one that was made up for a channel without
/// a name of its own.
pub open spec fn is_dm_name(name: Seq<char>) -> bool {
    "dm_"@.is_prefix_of(name)
}

/// The name that is made up for channel `channel_id` where the service gives
/// none.
pub open spec fn dm_name(channel_id: u64) -> Seq<char> {
    "dm_"@ + decimal_text(channel_id as nat)
}

/// A name that was made up is recognised as such.
pub proof fn lemma_dm_name_is_dm_name(channel_id: u64)
    ensures
        is_dm_name(dm_name(channel_id)),
{
    assert(dm_name(channel_id).subrange(0, "dm_"@.len() as int) =~= "dm_"@);
}

/// Whether `name` begins with the three characters that a made-up name
/// begins with.
pub fn has_dm_name(name: &str) -> (r: bool)
    ensures
        r == is_dm_name(name@),
{
    proof {
        reveal_strlit("dm_");
    }
    if name.unicode_len() < 3 {
        return false;
    }
    let r = name.get_char(0) == 'd' && name.get_char(1) == 'm' && name.get_char(2) == '_';
    proof {
        if r {
            assert(name@.subrange(0, 3) =~= "dm_"@);
        } else {
            if is_dm_name(name@) {
                assert(name@.subrange(0, 3)[0] == 'd');
                assert(name@.subrange(0, 3)[1] == 'm');
                assert(name@.subrange(0, 3)[2] == '_');
            }
        }
    }
    r
}

/// A channel as a crawl knows it: its id, its name or the name made up for
/// it, and the id of its newest message.
#[derive(Debug)]
pub struct ChannelDescriptor {
    pub id: u64,
    pub name: String,
    pub last_message_id: u64,
}

/// The whole minutes from `started_at` to `ended_at`, two times in seconds;
/// none where the second is not after the first.
pub open spec fn minutes_between(started_at: i64, ended_at: i64) -> u64 {
    if ended_at <= started_at {
        0
    } else {
        ((ended_at - started_at) / 60) as u64
    }
}

/// The whole minutes that a crawl took, from two times in seconds.
pub fn elapsed_minutes(started_at: i64, ended_at: i64) -> (r: u64)
    ensures
        r == minutes_between(started_at, ended_at),
{
    if ended_at <= started_at {
        0
    } else {
        let seconds: i128 = ended_at as i128 - started_at as i128;
        (seconds / 60) as u64
    }
}

/// The crawler of one account.
pub struct Scraper {
    discord_api_client: DiscordApi,
    personal: bool,
}

impl Scraper {
    /// The token that the crawler authenticates with.
    pub closed spec fn token(&self) -> Seq<char> {
        self.discord_api_client.token()
    }

    /// Whether the account is a person's and not a bot's.
    pub closed spec fn is_personal(&self) -> bool {
        self.personal
    }

    /// A crawler that authenticates with `bot_token`.
    pub fn new(bot_token: &str, personal: bool) -> (r: Scraper)
        ensures
            r.token() == bot_token@,
            r.is_personal() == personal,
    {
        Scraper { discord_api_client: DiscordApi::new(bot_token), personal }
    }

    /// Whether a run is a backup of the account's direct messages: it is
    /// where the account is a person's and a backup was asked for.
    pub fn wants_backup(&self, backup: bool) -> (r: bool)
        ensures
            r == (self.is_personal() && backup),
    {
        self.personal && backup
    }
}

} // verus!
