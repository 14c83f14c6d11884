//! The chat service's HTTP interface: what is asked of it and how its
//! answers are read. Nothing here sends a request; a caller performs the
//! [`HttpRequest`] and hands back the [`HttpResponse`].

use vstd::prelude::*;
use vstd::string::StringExecFns;

use crate::decimal::{parse_u8, parse_u8_spec};
use crate::seconds::{parse_seconds_as_millis, seconds_as_millis};

pub mod get_channel_messages;
pub mod get_dm_channels;
pub mod get_last_message_id_in_channel;

pub use get_channel_messages::Message;

verus! {

/// The address that every relative URL is resolved against.
pub const DISCORD_API_BASE_URL: &'static str = "https://discord.com/api/v9";

/// The header that says how many calls are left in the current window.
pub const RATELIMIT_REMAINING_HEADER: &'static str = "X-RateLimit-Remaining";

/// The header that says in how many seconds the window is renewed.
pub const RATELIMIT_RESET_AFTER_HEADER: &'static str = "X-RateLimit-Reset-After";

/// The credential of a bot account.
pub struct DiscordAuth {
    token: String,
}

impl View for DiscordAuth {
    type V = Seq<char>;

    /// The token.
    closed spec fn view(&self) -> Seq<char> {
        self.token@
    }
}

impl DiscordAuth {
    /// The credential with the given token.
    pub fn new(token: &str) -> (r: DiscordAuth)
        ensures
            r@ == token@,
    {
        DiscordAuth { token: String::from_str(token) }
    }

    /// The value of the `Authorization` header: the word `Bot`, a space and
    /// the token.
    pub fn to_string(&self) -> (r: String)
        ensures
            r@ == "Bot "@ + self@,
    {
        let mut out = String::from_str("Bot ");
        out.append(self.token.as_str());
        out
    }
}

/// A `GET` request, ready to be sent.
#[derive(Debug)]
pub struct HttpRequest {
    pub url: String,
    pub authorization: String,
}

/// What the service answered: the status, the values of the headers
/// [`RATELIMIT_REMAINING_HEADER`] and [`RATELIMIT_RESET_AFTER_HEADER`] where
/// the answer carried them as text, and the body.
#[derive(Debug)]
pub struct HttpResponse {
    pub status: u16,
    pub ratelimit_remaining: Option<String>,
    pub ratelimit_reset_after: Option<String>,
    pub body: Vec<u8>,
}

/// What an answer of the service may lack.
#[derive(Debug)]
pub enum FoundableStuff {
    Channel(Option<u64>),
    ChannelName,
    Message(Option<u64>),
}

/// Why a body could not be read.
#[derive(Debug)]
pub enum ParseError {
    /// The body is no JSON document; the text says where it breaks.
    DeserializeBodyIntoJson(String),
}

/// Why a call to the service failed.
#[derive(Debug)]
pub enum DiscordApiError {
    NotFound(FoundableStuff),
    /// The request did not reach the service; the text says why.
    SendingRequest(String),
    ParseResponse(ParseError),
    /// Any status but 200, with the answer where there was one.
    UnexpectedResponseStatusCode(u16, Option<HttpResponse>),
}

/// The pacing that an answer declares: the calls that are left in the
/// current window, and the milliseconds until the window is renewed.
#[derive(Debug, Clone, Copy, PartialEq, Eq, Structural)]
pub struct RateLimitInfo {
    pub remaining: u8,
    pub reset_after_ms: u16,
}

/// The characters of a text that may be absent.
pub open spec fn text_view(text: Option<String>) -> Option<Seq<char>> {
    match text {
        Some(t) => Some(t@),
        None => None,
    }
}

/// The pacing that two header values declare. Both must be there and must
/// read as numbers; otherwise the answer says nothing of pacing.
pub open spec fn rate_limit_info(
    remaining: Option<Seq<char>>,
    reset_after: Option<Seq<char>>,
) -> Option<RateLimitInfo> {
    match (remaining, reset_after) {
        (Some(left), Some(seconds)) => match (parse_u8_spec(left), seconds_as_millis(seconds)) {
            (Some(n), Some(ms)) => Some(RateLimitInfo { remaining: n, reset_after_ms: ms }),
            _ => None,
        },
        _ => None,
    }
}

/// The milliseconds to wait before the next call: the declared time where
/// no call is left in the window, and none otherwise.
pub open spec fn rate_limit_wait(info: Option<RateLimitInfo>) -> u16 {
    match info {
        Some(i) => if i.remaining == 0 {
            i.reset_after_ms
        } else {
            0
        },
        None => 0,
    }
}

/// While a call is left in the window, no wait is asked for, whatever the
/// time until the window is renewed.
pub proof fn lemma_no_wait_while_calls_are_left(info: RateLimitInfo)
    requires
        info.remaining > 0,
    ensures
        rate_limit_wait(Some(info)) == 0,
{
}

/// With no call left in the window, the wait is the time until the window
/// is renewed.
pub proof fn lemma_wait_when_no_call_is_left(info: RateLimitInfo)
    requires
        info.remaining == 0,
    ensures
        rate_limit_wait(Some(info)) == info.reset_after_ms,
{
}

/// Where both headers read as numbers, the wait is the declared seconds in
/// milliseconds, rounded up, while no call is left in the window, and none
/// while a call is left.
pub proof fn lemma_wait_is_the_declared_time(remaining: Seq<char>, reset_after: Seq<char>)
    requires
        parse_u8_spec(remaining) is Some,
        seconds_as_millis(reset_after) is Some,
    ensures
        rate_limit_wait(rate_limit_info(Some(remaining), Some(reset_after))) == (
        if parse_u8_spec(remaining) == Some(0u8) {
            seconds_as_millis(reset_after)->0
        } else {
            0u16
        }),
{
}

/// The client's side of the service: it writes requests and reads answers.
pub struct DiscordApi {
    auth: DiscordAuth,
}

impl DiscordApi {
    /// The token that the client authenticates with.
    pub closed spec fn token(&self) -> Seq<char> {
        self.auth@
    }

    /// A client that authenticates with `token`.
    pub fn new(token: &str) -> (r: DiscordApi)
        ensures
            r.token() == token@,
    {
        DiscordApi { auth: DiscordAuth::new(token) }
    }

    /// The request for `relative_url` under the base address, with the
    /// credential in its `Authorization` header.
    pub fn request_with_relative_url_and_auth_header(&self, relative_url: &str) -> (r: HttpRequest)
        ensures
            r.url@ == DISCORD_API_BASE_URL@ + "/"@ + relative_url@,
            r.authorization@ == "Bot "@ + self.token(),
    {
        let mut url = String::from_str(DISCORD_API_BASE_URL);
        url.append("/");
        url.append(relative_url);
        HttpRequest { url, authorization: self.auth.to_string() }
    }

    /// Reads the pacing that an answer declares in its headers.
    pub fn get_ratelimit_info_from_response_header_map(response: &HttpResponse) -> (r: Option<
        RateLimitInfo,
    >)
        ensures
            r == rate_limit_info(
                text_view(response.ratelimit_remaining),
                text_view(response.ratelimit_reset_after),
            ),
    {
        let remaining = match &response.ratelimit_remaining {
            Some(text) => parse_u8(text.as_str()),
            None => None,
        };
        let reset_after = match &response.ratelimit_reset_after {
            Some(text) => parse_seconds_as_millis(text.as_str()),
            None => None,
        };
        match (remaining, reset_after) {
            (Some(n), Some(ms)) => Some(RateLimitInfo { remaining: n, reset_after_ms: ms }),
            _ => None,
        }
    }

    /// The milliseconds that the caller has to wait after `response` before
    /// it sends its next request.
    pub fn handle_rate_limit_wait(response: &HttpResponse) -> (r: u16)
        ensures
            r == rate_limit_wait(
                rate_limit_info(
                    text_view(response.ratelimit_remaining),
                    text_view(response.ratelimit_reset_after),
                ),
            ),
    {
        match DiscordApi::get_ratelimit_info_from_response_header_map(response) {
            Some(info) => if info.remaining == 0 {
                info.reset_after_ms
            } else {
                0
            },
            None => 0,
        }
    }
}

} // verus!
