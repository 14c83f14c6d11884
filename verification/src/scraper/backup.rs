//! The backup of an account's direct messages: which channels are crawled
//! and which snapshots of users are written.

use vstd::prelude::*;
use vstd::string::StringExecFns;

use super::{pause_for, rate_limit_pause, reply_pacing, reply_wait, Pause, Scraper, ScraperError};
use crate::discord_api::get_channel_messages::record_id;
use crate::discord_api::{
    text_view, DiscordApi, DiscordApiError, HttpRequest, HttpResponse, DISCORD_API_BASE_URL,
};
use crate::json::{
    items_view, json_from_value, json_pretty, json_text_value, value_as_array, value_contents,
    value_to_pretty_text, values_contents, Json, JsonView,
};
use crate::utils::message_saver::{user_path, SaveTarget};

verus! {

/// One channel of a backup: the name and id of its first recipient, the
/// channel's id where the list gives one that reads as a number, the
/// channel's own metadata as indented text, and the file that this text is
/// written to; the file is `None` for a database. The work on an entry is
/// to write the snapshot where a file is named, and then to crawl the
/// channel where it has an id; [`after_channel`] says whether the backup
/// goes on after it.
#[derive(Debug)]
pub struct BackupEntry {
    pub username: String,
    pub user_id: String,
    pub channel_id: Option<u64>,
    pub metadata: String,
    pub snapshot_path: Option<String>,
}

/// The mathematical value of a [`BackupEntry`].
pub struct BackupEntryView {
    pub username: Seq<char>,
    pub user_id: Seq<char>,
    pub channel_id: Option<u64>,
    pub metadata: Seq<char>,
    pub snapshot_path: Option<Seq<char>>,
}

impl View for BackupEntry {
    type V = BackupEntryView;

    open spec fn view(&self) -> BackupEntryView {
        BackupEntryView {
            username: self.username@,
            user_id: self.user_id@,
            channel_id: self.channel_id,
            metadata: self.metadata@,
            snapshot_path: text_view(self.snapshot_path),
        }
    }
}

/// The entries of a plan, one by one.
pub open spec fn plan_view(plan: Seq<BackupEntry>) -> Seq<BackupEntryView> {
    Seq::new(plan.len(), |i: int| plan[i]@)
}

/// A text, or the word `unknown` in its place.
pub open spec fn text_or_unknown(text: Option<Seq<char>>) -> Seq<char> {
    match text {
        Some(t) => t,
        None => "unknown"@,
    }
}

/// The name and the id of the first recipient of a channel, each `unknown`
/// where the recipient has none. A channel whose `recipients` is no array,
/// or an empty one, has no recipient.
pub open spec fn channel_recipient(channel: JsonView) -> Option<(Seq<char>, Seq<char>)> {
    match channel.get("recipients"@) {
        Some(JsonView::Array(recipients)) => if recipients.len() > 0 {
            Some(
                (
                    text_or_unknown(recipients[0].get_str("username"@)),
                    text_or_unknown(recipients[0].get_str("id"@)),
                ),
            )
        } else {
            None
        },
        _ => None,
    }
}

/// The directory of a sink that writes files.
pub open spec fn target_dir(save_target: SaveTarget) -> Option<Seq<char>> {
    match save_target {
        SaveTarget::Jsonl(dir) => Some(dir@),
        SaveTarget::Sql(_) => None,
    }
}

/// The entry of a channel whose metadata is written as `metadata`, for a
/// sink that writes its files under `dir`; `None` for a channel without a
/// recipient.
pub open spec fn channel_backup_entry(
    channel: JsonView,
    dir: Option<Seq<char>>,
    metadata: Seq<char>,
) -> Option<BackupEntryView> {
    match channel_recipient(channel) {
        Some((username, user_id)) => Some(
            BackupEntryView {
                username,
                user_id,
                channel_id: record_id(channel, "id"@),
                metadata,
                snapshot_path: match dir {
                    Some(d) => Some(user_path(d, username, user_id)),
                    None => None,
                },
            },
        ),
        None => None,
    }
}

/// The entries of the channels `channels`, in the list's order: one for
/// each channel with a recipient, with the channel's metadata as indented
/// text.
pub open spec fn backup_entries(channels: Seq<JsonView>, dir: Option<Seq<char>>) -> Seq<
    BackupEntryView,
>
    decreases channels.len(),
{
    if channels.len() == 0 {
        Seq::empty()
    } else {
        let before = backup_entries(channels.drop_last(), dir);
        match channel_backup_entry(channels.last(), dir, json_pretty(channels.last())) {
            Some(entry) => before.push(entry),
            None => before,
        }
    }
}

/// Reads the name and the id of the first recipient of a channel.
fn read_recipient(channel: &Json) -> (r: Option<(String, String)>)
    ensures
        match r {
            Some((username, user_id)) => channel_recipient(channel@) == Some(
                (username@, user_id@),
            ),
            None => channel_recipient(channel@) is None,
        },
{
    let recipients = match channel.get("recipients") {
        Some(value) => match value.as_array() {
            Some(items) => items,
            None => {
                return None;
            },
        },
        None => {
            return None;
        },
    };
    if recipients.len() == 0 {
        return None;
    }
    let first = &recipients[0];
    assert(items_view(recipients@)[0] == first@);
    let username = match first.get_str("username") {
        Some(text) => String::from_str(text),
        None => String::from_str("unknown"),
    };
    let user_id = match first.get_str("id") {
        Some(text) => String::from_str(text),
        None => String::from_str("unknown"),
    };
    Some((username, user_id))
}

/// The entry of a channel of the list of direct-message channels, where
/// `metadata` is the channel's own metadata as indented text; `None` for a
/// channel without a recipient.
pub fn backup_entry(channel: &Json, save_target: &SaveTarget, metadata: String) -> (r: Option<
    BackupEntry,
>)
    ensures
        match r {
            Some(entry) => channel_backup_entry(channel@, target_dir(*save_target), metadata@)
                == Some(entry@),
            None => channel_backup_entry(channel@, target_dir(*save_target), metadata@) is None,
        },
{
    match read_recipient(channel) {
        Some((username, user_id)) => {
            let channel_id = match channel.get_str("id") {
                Some(text) => crate::decimal::parse_u64(text),
                None => None,
            };
            let snapshot_path = save_target.user_path(username.as_str(), user_id.as_str());
            Some(BackupEntry { username, user_id, channel_id, metadata, snapshot_path })
        },
        None => None,
    }
}

/// Plans a backup from the list of direct-message channels. A list that is
/// no array is taken for a failure of the service, with status 500 and no
/// answer.
fn plan_backup(channels: &serde_json::Value, save_target: &SaveTarget) -> (r: Result<
    Vec<BackupEntry>,
    ScraperError,
>)
    ensures
        match r {
            Ok(plan) => value_contents(*channels) matches JsonView::Array(list) && plan_view(
                plan@,
            ) == backup_entries(list, target_dir(*save_target)),
            Err(error) => !(value_contents(*channels) is Array) && error
                == ScraperError::DiscordApiError(
                DiscordApiError::UnexpectedResponseStatusCode(500, None),
            ),
        },
{
    let list = match value_as_array(channels) {
        Some(list) => list,
        None => {
            return Err(
                ScraperError::DiscordApiError(
                    DiscordApiError::UnexpectedResponseStatusCode(500, None),
                ),
            );
        },
    };
    let ghost all = values_contents(list@);
    let ghost dir = target_dir(*save_target);
    let mut plan: Vec<BackupEntry> = Vec::new();
    let mut i: usize = 0;
    while i < list.len()
        invariant
            i <= list.len(),
            all == values_contents(list@),
            dir == target_dir(*save_target),
            plan_view(plan@) == backup_entries(all.take(i as int), dir),
        decreases list.len() - i,
    {
        proof {
            assert(all.take(i + 1).drop_last() =~= all.take(i as int));
            assert(all.take(i + 1).last() == value_contents(list[i as int]));
        }
        let ghost before = plan@;
        let channel = json_from_value(&list[i]);
        if read_recipient(&channel).is_some() {
            let metadata = match value_to_pretty_text(&list[i]) {
                Ok(text) => text,
                Err(_) => {
                    // The call does not fail: this arm is never taken.
                    assert(false);
                    String::new()
                },
            };
            match backup_entry(&channel, save_target, metadata) {
                Some(entry) => {
                    plan.push(entry);
                    assert(plan_view(plan@) =~= plan_view(before).push(entry@));
                },
                None => {},
            }
        }
        i = i + 1;
    }
    proof {
        assert(all.take(list.len() as int) =~= all);
    }
    Ok(plan)
}

/// What a caller does after the answer to the request for the list of
/// direct-message channels: wait for `pause`, and work through the plan or
/// fail.
#[derive(Debug)]
pub struct BackupStep {
    pub pause: Option<Pause>,
    pub plan: Result<Vec<BackupEntry>, ScraperError>,
}

/// The plan that the answer `reply` to a request for the list of
/// direct-message channels leads to, for a sink that writes its files under
/// `dir`; `None` where it leads to a failure.
pub open spec fn reply_backup(reply: Result<HttpResponse, String>, dir: Option<Seq<char>>) -> Option<
    Seq<BackupEntryView>,
> {
    match reply {
        Ok(response) => if response.status == 200 {
            match json_text_value(response.body@) {
                Some(JsonView::Array(list)) => Some(backup_entries(list, dir)),
                _ => None,
            }
        } else {
            None
        },
        Err(_) => None,
    }
}

/// Whether `error` is the failure that the answer `reply` to a request for
/// the list of direct-message channels stands for. A list that is no array
/// counts as a failure of the service, with status 500 and no answer.
pub open spec fn is_backup_error(error: ScraperError, reply: Result<HttpResponse, String>) -> bool {
    match reply {
        Ok(response) => if response.status == 200 {
            match json_text_value(response.body@) {
                Some(JsonView::Array(_)) => false,
                Some(_) => error == ScraperError::DiscordApiError(
                    DiscordApiError::UnexpectedResponseStatusCode(500, None),
                ),
                None => error matches ScraperError::DiscordApiError(
                    DiscordApiError::ParseResponse(_),
                ),
            }
        } else {
            error == ScraperError::DiscordApiError(
                DiscordApiError::UnexpectedResponseStatusCode(response.status, Some(response)),
            )
        },
        Err(reason) => error == ScraperError::DiscordApiError(
            DiscordApiError::SendingRequest(reason),
        ),
    }
}

/// Where a backup stands after the work on one entry of its plan.
#[derive(Debug)]
pub enum BackupNext {
    /// The backup goes on with the next entry, or is done where none is
    /// left.
    GoOn,
    /// The backup ends with this error; the entries that follow are left
    /// alone.
    Stop(ScraperError),
}

/// What a backup does after an entry whose work came to `outcome`.
pub open spec fn backup_next(outcome: Result<(), ScraperError>) -> BackupNext {
    match outcome {
        Ok(_) => BackupNext::GoOn,
        Err(error) => BackupNext::Stop(error),
    }
}

/// How many entries of its plan a backup works on, where the work on the
/// entries comes to `outcomes`, one after the other: all up to the first
/// that fails, and that one.
pub open spec fn entries_worked(outcomes: Seq<Result<(), ScraperError>>) -> nat
    decreases outcomes.len(),
{
    if outcomes.len() == 0 {
        0
    } else {
        match backup_next(outcomes[0]) {
            BackupNext::GoOn => 1 + entries_worked(outcomes.skip(1)),
            BackupNext::Stop(_) => 1,
        }
    }
}

/// What a backup comes to, where the work on the entries of its plan comes
/// to `outcomes`: the error of the first entry that fails, and success
/// where none does.
pub open spec fn backup_result(outcomes: Seq<Result<(), ScraperError>>) -> Result<(), ScraperError>
    decreases outcomes.len(),
{
    if outcomes.len() == 0 {
        Ok(())
    } else {
        match backup_next(outcomes[0]) {
            BackupNext::GoOn => backup_result(outcomes.skip(1)),
            BackupNext::Stop(error) => Err(error),
        }
    }
}

/// Decides what a backup does after the work on one entry of its plan, the
/// snapshot and the crawl, came to `outcome`: a failure ends the backup
/// with its error, and anything else lets it go on.
pub fn after_channel(outcome: Result<(), ScraperError>) -> (r: BackupNext)
    ensures
        r == backup_next(outcome),
{
    match outcome {
        Ok(_) => BackupNext::GoOn,
        Err(error) => BackupNext::Stop(error),
    }
}

/// Where the work on entry `k` is the first to fail, with `error`, the
/// backup ends with that error after entry `k`: it has worked on the
/// entries up to `k`, and the entries that follow are not begun.
pub proof fn lemma_first_failure_ends_the_backup(
    outcomes: Seq<Result<(), ScraperError>>,
    k: int,
    error: ScraperError,
)
    requires
        0 <= k < outcomes.len(),
        outcomes[k] == Err::<(), ScraperError>(error),
        forall|i: int| 0 <= i < k ==> (#[trigger] outcomes[i]) is Ok,
    ensures
        entries_worked(outcomes) == k + 1,
        backup_result(outcomes) == Err::<(), ScraperError>(error),
    decreases k,
{
    if k > 0 {
        let rest = outcomes.skip(1);
        assert(outcomes[0] is Ok);
        assert(rest[k - 1] == outcomes[k]);
        assert forall|i: int| 0 <= i < k - 1 implies (#[trigger] rest[i]) is Ok by {
            assert(rest[i] == outcomes[i + 1]);
        }
        lemma_first_failure_ends_the_backup(rest, k - 1, error);
    }
}

/// Where the work on no entry fails, the backup works on all of them and
/// succeeds.
pub proof fn lemma_backup_without_failure(outcomes: Seq<Result<(), ScraperError>>)
    requires
        forall|i: int| 0 <= i < outcomes.len() ==> (#[trigger] outcomes[i]) is Ok,
    ensures
        entries_worked(outcomes) == outcomes.len(),
        backup_result(outcomes) is Ok,
    decreases outcomes.len(),
{
    if outcomes.len() > 0 {
        let rest = outcomes.skip(1);
        assert(outcomes[0] is Ok);
        assert forall|i: int| 0 <= i < rest.len() implies (#[trigger] rest[i]) is Ok by {
            assert(rest[i] == outcomes[i + 1]);
        }
        lemma_backup_without_failure(rest);
    }
}

impl Scraper {
    /// The request for the list of the account's direct-message channels,
    /// with which a backup begins.
    pub fn backup_channels_request(&self) -> (r: HttpRequest)
        ensures
            r.url@ == DISCORD_API_BASE_URL@ + "/"@ + "users/@me/channels"@,
            r.authorization@ == "Bot "@ + self.token(),
    {
        self.discord_api_client.get_dm_channels()
    }

    /// Plans a backup into `save_target` from the answer `reply` to
    /// [`Scraper::backup_channels_request`]; an `Err` says why no answer
    /// came. The pacing that an answer with status 200 declares is kept.
    pub fn backup_channels(&self, reply: Result<HttpResponse, String>, save_target: &SaveTarget) -> (r:
        BackupStep)
        ensures
            r.pause == rate_limit_pause(reply_wait(reply)),
            match r.plan {
                Ok(plan) => reply_backup(reply, target_dir(*save_target)) == Some(
                    plan_view(plan@),
                ),
                Err(error) => reply_backup(reply, target_dir(*save_target)) is None
                    && is_backup_error(error, reply),
            },
    {
        match reply {
            Ok(response) => {
                let pause = pause_for(reply_pacing(&response));
                let plan = match DiscordApi::read_dm_channels_value(response) {
                    Ok(channels) => plan_backup(&channels, save_target),
                    Err(error) => Err(ScraperError::DiscordApiError(error)),
                };
                BackupStep { pause, plan }
            },
            Err(reason) => BackupStep {
                pause: None,
                plan: Err(ScraperError::DiscordApiError(DiscordApiError::SendingRequest(reason))),
            },
        }
    }
}

} // verus!
