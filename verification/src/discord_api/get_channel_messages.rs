//! Pages of messages: the requests for them and the reading of the answers.

use vstd::prelude::*;
use vstd::string::StringExecFns;

use super::{DiscordApi, DiscordApiError, HttpRequest, HttpResponse, ParseError};
use crate::decimal::{decimal_text, parse_u64, parse_u64_spec, push_decimal};
use crate::json::{items_view, json_text_value, Json, JsonView};

verus! {

/// One message of a channel, as it was when it was fetched.
#[derive(Debug)]
pub struct Message {
    pub channel_id: u64,
    pub author_id: u64,
    pub message_id: u64,
    pub text: String,
    pub has_media: bool,
}

/// The mathematical value of a [`Message`].
pub struct MessageView {
    pub channel_id: u64,
    pub author_id: u64,
    pub message_id: u64,
    pub text: Seq<char>,
    pub has_media: bool,
}

impl View for Message {
    type V = MessageView;

    open spec fn view(&self) -> MessageView {
        MessageView {
            channel_id: self.channel_id,
            author_id: self.author_id,
            message_id: self.message_id,
            text: self.text@,
            has_media: self.has_media,
        }
    }
}

impl Clone for Message {
    fn clone(&self) -> (r: Message)
        ensures
            r@ == self@,
    {
        Message {
            channel_id: self.channel_id,
            author_id: self.author_id,
            message_id: self.message_id,
            text: self.text.clone(),
            has_media: self.has_media,
        }
    }
}

impl PartialEq for Message {
    fn eq(&self, other: &Message) -> (r: bool) {
        self.channel_id == other.channel_id && self.author_id == other.author_id
            && self.message_id == other.message_id && self.text == other.text
            && self.has_media == other.has_media
    }
}

impl vstd::std_specs::cmp::PartialEqSpecImpl for Message {
    open spec fn obeys_eq_spec() -> bool {
        true
    }

    open spec fn eq_spec(&self, other: &Message) -> bool {
        self@ == other@
    }
}

/// The messages of a page, one by one.
pub open spec fn page_view(page: Seq<Message>) -> Seq<MessageView> {
    Seq::new(page.len(), |i: int| page[i]@)
}

/// The number that member `key` of a record writes as a string.
pub open spec fn record_id(record: JsonView, key: Seq<char>) -> Option<u64> {
    match record.get_str(key) {
        Some(text) => parse_u64_spec(text),
        None => None,
    }
}

/// The id of a record's author: the `id` of its member `author`.
pub open spec fn record_author_id(record: JsonView) -> Option<u64> {
    match record.get("author"@) {
        Some(author) => record_id(author, "id"@),
        None => None,
    }
}

/// Whether a record carries an attachment: its member `attachments` is an
/// array with an item in it.
pub open spec fn record_has_media(record: JsonView) -> bool {
    match record.get("attachments"@) {
        Some(JsonView::Array(items)) => items.len() > 0,
        _ => false,
    }
}

/// The message that a record of a page holds. A record that lacks its id,
/// its author's id or its content holds none.
pub open spec fn record_message(record: JsonView, channel_id: u64) -> Option<MessageView> {
    match (record_id(record, "id"@), record_author_id(record), record.get_str("content"@)) {
        (Some(message_id), Some(author_id), Some(text)) => Some(
            MessageView {
                channel_id,
                author_id,
                message_id,
                text,
                has_media: record_has_media(record),
            },
        ),
        _ => None,
    }
}

/// The messages that a sequence of records holds, in the records' order.
pub open spec fn records_messages(records: Seq<JsonView>, channel_id: u64) -> Seq<MessageView>
    decreases records.len(),
{
    if records.len() == 0 {
        Seq::empty()
    } else {
        let before = records_messages(records.drop_last(), channel_id);
        match record_message(records.last(), channel_id) {
            Some(message) => before.push(message),
            None => before,
        }
    }
}

/// A record without an author's id, or without content, adds nothing to a
/// page: the page is that of the other records.
pub proof fn lemma_incomplete_record_is_left_out(records: Seq<JsonView>, i: int, channel_id: u64)
    requires
        0 <= i < records.len(),
        record_author_id(records[i]) is None || records[i].get_str("content"@) is None,
    ensures
        records_messages(records, channel_id) == records_messages(records.remove(i), channel_id),
    decreases records.len(),
{
    if i == records.len() - 1 {
        assert(records.remove(i) =~= records.drop_last());
    } else {
        lemma_incomplete_record_is_left_out(records.drop_last(), i, channel_id);
        assert(records.remove(i).drop_last() =~= records.drop_last().remove(i));
        assert(records.remove(i).last() == records.last());
    }
}

/// The messages of a page's body: those of its records where the body is
/// an array, and none where it is anything else.
pub open spec fn body_messages(body: JsonView, channel_id: u64) -> Seq<MessageView> {
    match body {
        JsonView::Array(records) => records_messages(records, channel_id),
        _ => Seq::empty(),
    }
}

/// The relative URL of the newest page of a channel.
pub open spec fn channel_msgs_url(channel_id: u64) -> Seq<char> {
    "channels/"@ + decimal_text(channel_id as nat) + "/messages?limit=100"@
}

/// The relative URL of the page that precedes message `message_id`.
pub open spec fn channel_msgs_before_msg_url(channel_id: u64, message_id: u64) -> Seq<char> {
    "channels/"@ + decimal_text(channel_id as nat) + "/messages?before="@ + decimal_text(
        message_id as nat,
    ) + "&limit=100"@
}

/// Reads the number that member `key` of a record writes as a string.
fn read_record_id(record: &Json, key: &str) -> (r: Option<u64>)
    ensures
        r == record_id(record@, key@),
{
    match record.get_str(key) {
        Some(text) => parse_u64(text),
        None => None,
    }
}

/// Reads one record of a page.
fn read_record(record: &Json, channel_id: u64) -> (r: Option<Message>)
    ensures
        match r {
            Some(message) => record_message(record@, channel_id) == Some(message@),
            None => record_message(record@, channel_id) is None,
        },
{
    let message_id = read_record_id(record, "id");
    let author_id = match record.get("author") {
        Some(author) => read_record_id(author, "id"),
        None => None,
    };
    let content = record.get_str("content");
    let has_media = match record.get("attachments") {
        Some(attachments) => match attachments.as_array() {
            Some(items) => items.len() > 0,
            None => false,
        },
        None => false,
    };
    match (message_id, author_id, content) {
        (Some(message_id), Some(author_id), Some(text)) => Some(
            Message { channel_id, author_id, message_id, text: String::from_str(text), has_media },
        ),
        _ => None,
    }
}

impl DiscordApi {
    /// Reads the messages of a page's body, which belongs to channel
    /// `channel_id`. The records that hold no message are left out.
    pub fn process_messages(body: &Json, channel_id: u64) -> (r: Vec<Message>)
        ensures
            page_view(r@) == body_messages(body@, channel_id),
    {
        let mut messages: Vec<Message> = Vec::new();
        match body.as_array() {
            Some(records) => {
                let ghost all = items_view(records@);
                let mut i: usize = 0;
                while i < records.len()
                    invariant
                        i <= records.len(),
                        all == items_view(records@),
                        page_view(messages@) == records_messages(all.take(i as int), channel_id),
                    decreases records.len() - i,
                {
                    proof {
                        assert(all.take(i + 1).drop_last() =~= all.take(i as int));
                        assert(all.take(i + 1).last() == records[i as int]@);
                    }
                    let ghost before = messages@;
                    match read_record(&records[i], channel_id) {
                        Some(message) => {
                            messages.push(message);
                            assert(page_view(messages@) =~= page_view(before).push(message@));
                        },
                        None => {},
                    }
                    i = i + 1;
                }
                proof {
                    assert(all.take(records.len() as int) =~= all);
                }
            },
            None => {
                assert(page_view(messages@) =~= Seq::<MessageView>::empty());
            },
        }
        messages
    }

    /// The request for the newest page of channel `channel_id`.
    pub fn get_channel_msgs(&self, channel_id: u64) -> (r: HttpRequest)
        ensures
            r.url@ == super::DISCORD_API_BASE_URL@ + "/"@ + channel_msgs_url(channel_id),
            r.authorization@ == "Bot "@ + self.token(),
    {
        let mut url = String::from_str("channels/");
        push_decimal(&mut url, channel_id);
        url.append("/messages?limit=100");
        self.request_with_relative_url_and_auth_header(url.as_str())
    }

    /// The request for the page of channel `channel_id` that precedes
    /// message `message_id`.
    pub fn get_channel_msgs_before_msg(&self, channel_id: u64, message_id: u64) -> (r: HttpRequest)
        ensures
            r.url@ == super::DISCORD_API_BASE_URL@ + "/"@ + channel_msgs_before_msg_url(
                channel_id,
                message_id,
            ),
            r.authorization@ == "Bot "@ + self.token(),
    {
        let mut url = String::from_str("channels/");
        push_decimal(&mut url, channel_id);
        url.append("/messages?before=");
        push_decimal(&mut url, message_id);
        url.append("&limit=100");
        self.request_with_relative_url_and_auth_header(url.as_str())
    }

    /// Reads the answer to a request for a page of channel `channel_id`.
    ///
    /// Any status but 200 is an error that carries the answer. A body that
    /// is no JSON is an error too. Otherwise the page is what
    /// [`DiscordApi::process_messages`] reads from the body.
    pub fn read_channel_msgs(response: HttpResponse, channel_id: u64) -> (r: Result<
        Vec<Message>,
        DiscordApiError,
    >)
        ensures
            match r {
                Ok(page) => response.status == 200 && match json_text_value(response.body@) {
                    Some(body) => page_view(page@) == body_messages(body, channel_id),
                    None => false,
                },
                Err(DiscordApiError::UnexpectedResponseStatusCode(status, answer)) => status
                    != 200 && status == response.status && answer == Some(response),
                Err(DiscordApiError::ParseResponse(_)) => response.status == 200 && json_text_value(
                    response.body@,
                ) is None,
                Err(_) => false,
            },
    {
        if response.status != 200 {
            let status = response.status;
            return Err(DiscordApiError::UnexpectedResponseStatusCode(status, Some(response)));
        }
        match Json::parse(response.body.as_slice()) {
            Ok(body) => Ok(DiscordApi::process_messages(&body, channel_id)),
            Err(reason) => Err(
                DiscordApiError::ParseResponse(ParseError::DeserializeBodyIntoJson(reason)),
            ),
        }
    }
}

} // verus!
