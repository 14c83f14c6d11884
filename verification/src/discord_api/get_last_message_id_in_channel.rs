//! The metadata of a channel: the request for it and the reading of the
//! answer.

use vstd::prelude::*;
use vstd::string::StringExecFns;

use super::get_channel_messages::record_id;
use super::{DiscordApi, DiscordApiError, FoundableStuff, HttpRequest, HttpResponse, ParseError};
use crate::decimal::{decimal_text, parse_u64, push_decimal};
use crate::json::{json_text_value, Json, JsonView};

verus! {

/// The relative URL of a channel's metadata.
pub open spec fn channel_url(channel_id: u64) -> Seq<char> {
    "channels/"@ + decimal_text(channel_id as nat)
}

/// What the metadata of channel `channel_id` says of its newest message and
/// of its name, or what it lacks.
///
/// Metadata that is no object lacks the channel. An object without a
/// `last_message_id` that reads as a number lacks the message, whatever
/// else it holds. One with it and without a `name` lacks the name.
pub open spec fn channel_last_msg(body: JsonView, channel_id: u64) -> Result<
    (u64, Seq<char>),
    FoundableStuff,
> {
    if body is Object {
        match record_id(body, "last_message_id"@) {
            Some(last_message_id) => match body.get_str("name"@) {
                Some(name) => Ok((last_message_id, name)),
                None => Err(FoundableStuff::ChannelName),
            },
            None => Err(FoundableStuff::Message(None)),
        }
    } else {
        Err(FoundableStuff::Channel(Some(channel_id)))
    }
}

/// The id of the newest message that an answer to a request for metadata
/// names, whether or not it names the channel.
pub open spec fn reply_last_message_id(reply: Result<HttpResponse, String>) -> Option<u64> {
    match reply {
        Ok(response) => if response.status == 200 {
            match json_text_value(response.body@) {
                Some(body) => record_id(body, "last_message_id"@),
                None => None,
            }
        } else {
            None
        },
        Err(_) => None,
    }
}

impl DiscordApi {
    /// The request for the metadata of channel `channel_id`.
    pub fn get_last_msg_in_channel(&self, channel_id: u64) -> (r: HttpRequest)
        ensures
            r.url@ == super::DISCORD_API_BASE_URL@ + "/"@ + channel_url(channel_id),
            r.authorization@ == "Bot "@ + self.token(),
    {
        let mut url = String::from_str("channels/");
        push_decimal(&mut url, channel_id);
        self.request_with_relative_url_and_auth_header(url.as_str())
    }

    /// Reads the id of the newest message and the name of channel
    /// `channel_id` from its metadata.
    pub fn last_msg_in_channel(body: &Json, channel_id: u64) -> (r: Result<
        (u64, String),
        DiscordApiError,
    >)
        ensures
            match r {
                Ok((last_message_id, name)) => channel_last_msg(body@, channel_id) == Ok::<
                    (u64, Seq<char>),
                    FoundableStuff,
                >((last_message_id, name@)),
                Err(DiscordApiError::NotFound(missing)) => channel_last_msg(body@, channel_id)
                    == Err::<(u64, Seq<char>), FoundableStuff>(missing),
                Err(_) => false,
            },
    {
        match body {
            Json::Object(_) => {},
            _ => {
                return Err(DiscordApiError::NotFound(FoundableStuff::Channel(Some(channel_id))));
            },
        }
        let last_message_id = match body.get_str("last_message_id") {
            Some(text) => parse_u64(text),
            None => None,
        };
        match last_message_id {
            Some(last_message_id) => match body.get_str("name") {
                Some(name) => Ok((last_message_id, String::from_str(name))),
                None => Err(DiscordApiError::NotFound(FoundableStuff::ChannelName)),
            },
            None => Err(DiscordApiError::NotFound(FoundableStuff::Message(None))),
        }
    }

    /// Reads the answer to a request for the metadata of channel
    /// `channel_id`.
    ///
    /// Any status but 200 is an error that carries the answer. A body that
    /// is no JSON is an error too. Otherwise the result is what
    /// [`DiscordApi::last_msg_in_channel`] reads from the body.
    pub fn read_last_msg_in_channel(response: HttpResponse, channel_id: u64) -> (r: Result<
        (u64, String),
        DiscordApiError,
    >)
        ensures
            match r {
                Ok((last_message_id, name)) => response.status == 200 && match json_text_value(
                    response.body@,
                ) {
                    Some(body) => channel_last_msg(body, channel_id) == Ok::<
                        (u64, Seq<char>),
                        FoundableStuff,
                    >((last_message_id, name@)),
                    None => false,
                },
                Err(DiscordApiError::NotFound(missing)) => response.status == 200
                    && match json_text_value(response.body@) {
                    Some(body) => channel_last_msg(body, channel_id) == Err::<
                        (u64, Seq<char>),
                        FoundableStuff,
                    >(missing),
                    None => false,
                },
                Err(DiscordApiError::UnexpectedResponseStatusCode(status, answer)) => status
                    != 200 && status == response.status && answer == Some(response),
                Err(DiscordApiError::ParseResponse(_)) => response.status == 200 && json_text_value(
                    response.body@,
                ) is None,
                Err(DiscordApiError::SendingRequest(_)) => false,
            },
    {
        if response.status != 200 {
            let status = response.status;
            return Err(DiscordApiError::UnexpectedResponseStatusCode(status, Some(response)));
        }
        match Json::parse(response.body.as_slice()) {
            Ok(body) => DiscordApi::last_msg_in_channel(&body, channel_id),
            Err(reason) => Err(
                DiscordApiError::ParseResponse(ParseError::DeserializeBodyIntoJson(reason)),
            ),
        }
    }

    /// Reads the id of the newest message from an answer to a request for
    /// metadata, without asking for the channel's name.
    pub fn read_last_message_id(reply: &Result<HttpResponse, String>) -> (r: Option<u64>)
        ensures
            r == reply_last_message_id(*reply),
    {
        match reply {
            Ok(response) => {
                if response.status != 200 {
                    return None;
                }
                match Json::parse(response.body.as_slice()) {
                    Ok(body) => match body.get_str("last_message_id") {
                        Some(text) => parse_u64(text),
                        None => None,
                    },
                    Err(_) => None,
                }
            },
            Err(_) => None,
        }
    }
}

} // verus!
