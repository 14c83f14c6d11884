//! The list of the account's direct-message channels.

use vstd::prelude::*;

use super::{DiscordApi, DiscordApiError, HttpRequest, HttpResponse, ParseError};
use crate::json::{
    json_error_text, json_from_value, json_text_value, value_contents, value_from_slice, Json,
};

verus! {

impl DiscordApi {
    /// The request for the account's direct-message channels.
    pub fn get_dm_channels(&self) -> (r: HttpRequest)
        ensures
            r.url@ == super::DISCORD_API_BASE_URL@ + "/"@ + "users/@me/channels"@,
            r.authorization@ == "Bot "@ + self.token(),
    {
        self.request_with_relative_url_and_auth_header("users/@me/channels")
    }

    /// Reads the answer to a request for the direct-message channels: its
    /// body as the tree that the parser builds.
    pub(crate) fn read_dm_channels_value(response: HttpResponse) -> (r: Result<
        serde_json::Value,
        DiscordApiError,
    >)
        ensures
            match r {
                Ok(body) => response.status == 200 && json_text_value(response.body@) == Some(
                    value_contents(body),
                ),
                Err(DiscordApiError::UnexpectedResponseStatusCode(status, answer)) => status
                    != 200 && status == response.status && answer == Some(response),
                Err(DiscordApiError::ParseResponse(_)) => response.status == 200 && json_text_value(
                    response.body@,
                ) is None,
                Err(_) => false,
            },
    {
        if response.status != 200 {
            let status = response.status;
            return Err(DiscordApiError::UnexpectedResponseStatusCode(status, Some(response)));
        }
        match value_from_slice(response.body.as_slice()) {
            Ok(body) => Ok(body),
            Err(error) => Err(
                DiscordApiError::ParseResponse(
                    ParseError::DeserializeBodyIntoJson(json_error_text(&error)),
                ),
            ),
        }
    }

    /// Reads the answer to a request for the direct-message channels: its
    /// body as a document.
    ///
    /// Any status but 200 is an error that carries the answer, and a body
    /// that is no JSON is an error too.
    pub fn read_dm_channels(response: HttpResponse) -> (r: Result<Json, DiscordApiError>)
        ensures
            match r {
                Ok(body) => response.status == 200 && json_text_value(response.body@) == Some(
                    body@,
                ),
                Err(DiscordApiError::UnexpectedResponseStatusCode(status, answer)) => status
                    != 200 && status == response.status && answer == Some(response),
                Err(DiscordApiError::ParseResponse(_)) => response.status == 200 && json_text_value(
                    response.body@,
                ) is None,
                Err(_) => false,
            },
    {
        match DiscordApi::read_dm_channels_value(response) {
            Ok(body) => Ok(json_from_value(&body)),
            Err(error) => Err(error),
        }
    }
}

} // verus!
