//! The resolution of a channel: its name and its newest message, or a
//! made-up name where the service gives none.

use vstd::prelude::*;
use vstd::string::StringExecFns;

use super::{
    dm_name, is_dm_name, lemma_dm_name_is_dm_name, pause_for, rate_limit_pause, reply_pacing,
    reply_wait, ChannelDescriptor, Pause, Scraper, ScraperError,
};
use crate::decimal::push_decimal;
use crate::discord_api::get_last_message_id_in_channel::{
    channel_last_msg, channel_url, reply_last_message_id,
};
use crate::discord_api::{
    DiscordApi, DiscordApiError, FoundableStuff, HttpRequest, HttpResponse, DISCORD_API_BASE_URL,
};
use crate::json::json_text_value;

verus! {

/// What the answer to the first request for a channel's metadata comes to.
pub enum ResolutionKind {
    /// The id of the newest message, and the channel's name.
    Named(u64, Seq<char>),
    /// The metadata has a newest message and no name.
    Unnamed,
    Failed,
}

/// What the answer `reply` to the first request for the metadata of channel
/// `channel_id` comes to. Only metadata that lacks nothing but the name
/// leads to a second request.
pub open spec fn reply_resolution(reply: Result<HttpResponse, String>, channel_id: u64) -> ResolutionKind {
    match reply {
        Ok(response) => if response.status == 200 {
            match json_text_value(response.body@) {
                Some(body) => match channel_last_msg(body, channel_id) {
                    Ok((last_message_id, name)) => ResolutionKind::Named(last_message_id, name),
                    Err(FoundableStuff::ChannelName) => ResolutionKind::Unnamed,
                    Err(_) => ResolutionKind::Failed,
                },
                None => ResolutionKind::Failed,
            }
        } else {
            ResolutionKind::Failed
        },
        Err(_) => ResolutionKind::Failed,
    }
}

/// Whether `error` is the failure that the answer `reply` to a request for
/// the metadata of channel `channel_id` stands for.
pub open spec fn is_resolution_error(
    error: ScraperError,
    reply: Result<HttpResponse, String>,
    channel_id: u64,
) -> bool {
    match reply {
        Ok(response) => if response.status == 200 {
            match json_text_value(response.body@) {
                Some(body) => match channel_last_msg(body, channel_id) {
                    Ok(_) => false,
                    Err(missing) => error == ScraperError::DiscordApiError(
                        DiscordApiError::NotFound(missing),
                    ),
                },
                None => error matches ScraperError::DiscordApiError(
                    DiscordApiError::ParseResponse(_),
                ),
            }
        } else {
            error == ScraperError::DiscordApiError(
                DiscordApiError::UnexpectedResponseStatusCode(response.status, Some(response)),
            )
        },
        Err(reason) => error == ScraperError::DiscordApiError(
            DiscordApiError::SendingRequest(reason),
        ),
    }
}

/// Where the resolution of a channel stands after the first answer.
#[derive(Debug)]
pub enum Resolution {
    Resolved(ChannelDescriptor),
    /// The metadata named no channel: ask once more with this request, and
    /// hand the answer to [`Scraper::get_dm_channel_info`].
    AskAgain(HttpRequest),
    Failed(ScraperError),
}

/// What a caller does after the second answer to a request for the metadata
/// of a channel without a name of its own: wait for `pause`, and crawl
/// `channel`.
#[derive(Debug)]
pub struct ResolvedChannel {
    pub pause: Option<Pause>,
    pub channel: ChannelDescriptor,
}

/// What a caller does after the first answer to a request for a channel's
/// metadata: wait for `pause`, and go where `next` says.
#[derive(Debug)]
pub struct ResolveStep {
    pub pause: Option<Pause>,
    pub next: Resolution,
}

impl Scraper {
    /// The request for the metadata of channel `channel_id`, with which the
    /// resolution of the channel begins.
    pub fn channel_info_request(&self, channel_id: u64) -> (r: HttpRequest)
        ensures
            r.url@ == DISCORD_API_BASE_URL@ + "/"@ + channel_url(channel_id),
            r.authorization@ == "Bot "@ + self.token(),
    {
        self.discord_api_client.get_last_msg_in_channel(channel_id)
    }

    /// Resolves channel `channel_id` from the answer `reply` to
    /// [`Scraper::channel_info_request`]; an `Err` says why no answer came.
    ///
    /// Metadata with a newest message and a name resolves the channel.
    /// Metadata that lacks the name and nothing else asks for the same
    /// request again. Every other answer fails the resolution. The pacing
    /// that an answer with status 200 declares is kept in each case.
    pub fn get_channel_info(&self, channel_id: u64, reply: Result<HttpResponse, String>) -> (r:
        ResolveStep)
        ensures
            r.pause == rate_limit_pause(reply_wait(reply)),
            match reply_resolution(reply, channel_id) {
                ResolutionKind::Named(last_message_id, name) => r.next matches Resolution::Resolved(
                    channel,
                ) && channel.id == channel_id && channel.name@ == name && channel.last_message_id
                    == last_message_id,
                ResolutionKind::Unnamed => r.next matches Resolution::AskAgain(request)
                    && request.url@ == DISCORD_API_BASE_URL@ + "/"@ + channel_url(channel_id)
                    && request.authorization@ == "Bot "@ + self.token(),
                ResolutionKind::Failed => r.next matches Resolution::Failed(error)
                    && is_resolution_error(error, reply, channel_id),
            },
    {
        match reply {
            Ok(response) => {
                let pause = pause_for(reply_pacing(&response));
                let next = match DiscordApi::read_last_msg_in_channel(response, channel_id) {
                    Ok((last_message_id, name)) => Resolution::Resolved(
                        ChannelDescriptor { id: channel_id, name, last_message_id },
                    ),
                    Err(DiscordApiError::NotFound(FoundableStuff::ChannelName)) => {
                        Resolution::AskAgain(self.channel_info_request(channel_id))
                    },
                    Err(error) => Resolution::Failed(ScraperError::DiscordApiError(error)),
                };
                ResolveStep { pause, next }
            },
            Err(reason) => ResolveStep {
                pause: None,
                next: Resolution::Failed(
                    ScraperError::DiscordApiError(DiscordApiError::SendingRequest(reason)),
                ),
            },
        }
    }

    /// Resolves a channel without a name of its own from the answer `reply`
    /// to the second request for its metadata; an `Err` says why no answer
    /// came. The channel gets a made-up name. Its newest message is the one
    /// that the answer names, and 0 where it names none or no answer came.
    /// The pacing that an answer with status 200 declares is kept.
    pub fn get_dm_channel_info(channel_id: u64, reply: &Result<HttpResponse, String>) -> (r:
        ResolvedChannel)
        ensures
            r.pause == rate_limit_pause(reply_wait(*reply)),
            r.channel.id == channel_id,
            r.channel.name@ == dm_name(channel_id),
            is_dm_name(r.channel.name@),
            r.channel.last_message_id == match reply_last_message_id(*reply) {
                Some(last_message_id) => last_message_id,
                None => 0,
            },
    {
        let pause = match reply {
            Ok(response) => pause_for(reply_pacing(response)),
            Err(_) => None,
        };
        let last_message_id = match DiscordApi::read_last_message_id(reply) {
            Some(last_message_id) => last_message_id,
            None => 0,
        };
        let mut name = String::from_str("dm_");
        push_decimal(&mut name, channel_id);
        proof {
            lemma_dm_name_is_dm_name(channel_id);
        }
        ResolvedChannel { pause, channel: ChannelDescriptor { id: channel_id, name, last_message_id } }
    }
}

} // verus!
