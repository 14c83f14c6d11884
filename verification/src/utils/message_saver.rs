//! Where the pages of a crawl are kept, and how a message is written to a
//! line-delimited file.

use vstd::prelude::*;
use vstd::string::StringExecFns;

use crate::decimal::{decimal_text, push_decimal};
use crate::discord_api::get_channel_messages::{page_view, Message, MessageView};
use crate::json::{json_string_text, quote};

verus! {

/// The directory that the line-delimited files are kept under where no
/// other is named.
pub const STORAGE_DIR: &'static str = "storage";

/// The statement that adds one message to the table of a relational sink.
/// Its five parameters are the message's fields in the order of
/// [`Message`]. One statement is run for each message of a page, in the
/// page's order, and the first that fails ends the page: the messages
/// before it stay, those after it are not tried.
pub const INSERT_MESSAGE_SQL: &'static str =
    "INSERT INTO messages (channel_id, author_id, message_id, text, has_media) VALUES (?, ?, ?, ?, ?)";

/// The sink that a crawl writes to: line-delimited files under the
/// directory that is named, or the table `messages` of the relational
/// database whose connection string is given.
#[derive(Debug)]
pub enum SaveTarget {
    Jsonl(String),
    Sql(String),
}

/// The file that the messages of channel `name` are written to under the
/// directory `dir`; a backup keeps them apart from the other crawls.
pub open spec fn jsonl_path(dir: Seq<char>, name: Seq<char>, backup: bool) -> Seq<char> {
    dir + (if backup {
        "/backup/messages/"@
    } else {
        "/"@
    }) + name + ".jsonl"@
}

/// The directory that [`jsonl_path`] lies in.
pub open spec fn jsonl_dir(dir: Seq<char>, backup: bool) -> Seq<char> {
    if backup {
        dir + "/backup/messages"@
    } else {
        dir
    }
}

/// The directory that a backup keeps its snapshots of users in.
pub open spec fn users_dir(dir: Seq<char>) -> Seq<char> {
    dir + "/backup/users"@
}

/// The file that a backup writes the snapshot of a user to.
pub open spec fn user_path(dir: Seq<char>, username: Seq<char>, user_id: Seq<char>) -> Seq<char> {
    dir + "/backup/users/"@ + username + "-"@ + user_id + ".json"@
}

impl SaveTarget {
    /// The sink for a run: the database where a connection string is
    /// given, and files under [`STORAGE_DIR`] where none is.
    pub fn select(database_url: Option<String>) -> (r: SaveTarget)
        ensures
            match database_url {
                Some(url) => r == SaveTarget::Sql(url),
                None => r matches SaveTarget::Jsonl(dir) && dir@ == STORAGE_DIR@,
            },
    {
        match database_url {
            Some(url) => SaveTarget::Sql(url),
            None => SaveTarget::Jsonl(String::from_str(STORAGE_DIR)),
        }
    }

    /// The directory that has to exist before the messages of a channel
    /// are written; `None` for a database.
    pub fn messages_dir(&self, backup: bool) -> (r: Option<String>)
        ensures
            match *self {
                SaveTarget::Jsonl(dir) => r matches Some(path) && path@ == jsonl_dir(dir@, backup),
                SaveTarget::Sql(_) => r is None,
            },
    {
        match self {
            SaveTarget::Jsonl(dir) => {
                let mut path = dir.clone();
                if backup {
                    path.append("/backup/messages");
                }
                Some(path)
            },
            SaveTarget::Sql(_) => None,
        }
    }

    /// The file that the messages of channel `channel_name` are written
    /// to; `None` for a database.
    pub fn output_path(&self, channel_name: &str, backup: bool) -> (r: Option<String>)
        ensures
            match *self {
                SaveTarget::Jsonl(dir) => r matches Some(path) && path@ == jsonl_path(
                    dir@,
                    channel_name@,
                    backup,
                ),
                SaveTarget::Sql(_) => r is None,
            },
    {
        match self {
            SaveTarget::Jsonl(dir) => {
                let mut path = dir.clone();
                if backup {
                    path.append("/backup/messages/");
                } else {
                    path.append("/");
                }
                path.append(channel_name);
                path.append(".jsonl");
                Some(path)
            },
            SaveTarget::Sql(_) => None,
        }
    }

    /// The directory that has to exist before a backup writes its
    /// snapshots of users; `None` for a database.
    pub fn users_dir(&self) -> (r: Option<String>)
        ensures
            match *self {
                SaveTarget::Jsonl(dir) => r matches Some(path) && path@ == users_dir(dir@),
                SaveTarget::Sql(_) => r is None,
            },
    {
        match self {
            SaveTarget::Jsonl(dir) => {
                let mut path = dir.clone();
                path.append("/backup/users");
                Some(path)
            },
            SaveTarget::Sql(_) => None,
        }
    }

    /// The file that a backup writes the snapshot of a user to; `None` for
    /// a database.
    pub fn user_path(&self, username: &str, user_id: &str) -> (r: Option<String>)
        ensures
            match *self {
                SaveTarget::Jsonl(dir) => r matches Some(path) && path@ == user_path(
                    dir@,
                    username@,
                    user_id@,
                ),
                SaveTarget::Sql(_) => r is None,
            },
    {
        match self {
            SaveTarget::Jsonl(dir) => {
                let mut path = dir.clone();
                path.append("/backup/users/");
                path.append(username);
                path.append("-");
                path.append(user_id);
                path.append(".json");
                Some(path)
            },
            SaveTarget::Sql(_) => None,
        }
    }
}

/// How a truth value is written.
pub open spec fn bool_text(b: bool) -> Seq<char> {
    if b {
        "true"@
    } else {
        "false"@
    }
}

/// The JSON object that a message is written as: its five fields in
/// their order, the numbers as numerals and the text as a string literal.
pub open spec fn message_object(message: MessageView) -> Seq<char> {
    "{\"channel_id\":"@ + decimal_text(message.channel_id as nat) + ",\"author_id\":"@
        + decimal_text(message.author_id as nat) + ",\"message_id\":"@ + decimal_text(
        message.message_id as nat,
    ) + ",\"text\":"@ + json_string_text(message.text) + ",\"has_media\":"@ + bool_text(
        message.has_media,
    ) + "}"@
}

/// The line that a message is written as: its object and a line feed.
pub open spec fn message_line(message: MessageView) -> Seq<char> {
    message_object(message).push('\n')
}

/// The lines that a page is written as, one after the other.
pub open spec fn page_lines(page: Seq<MessageView>) -> Seq<char>
    decreases page.len(),
{
    if page.len() == 0 {
        Seq::empty()
    } else {
        page_lines(page.drop_last()) + message_line(page.last())
    }
}

/// Whether a text holds no line feed.
pub open spec fn is_on_one_line(text: Seq<char>) -> bool {
    forall|i: int| 0 <= i < text.len() ==> text[i] != '\n'
}

/// The line feeds that a text holds.
pub open spec fn line_feeds(text: Seq<char>) -> nat
    decreases text.len(),
{
    if text.len() == 0 {
        0
    } else {
        line_feeds(text.drop_last()) + if text.last() == '\n' {
            1nat
        } else {
            0nat
        }
    }
}

/// A numeral holds no line feed.
proof fn lemma_numeral_is_on_one_line(n: nat)
    ensures
        is_on_one_line(decimal_text(n)),
{
    crate::decimal::lemma_decimal_text_digits(n);
}

/// A message is written on one line: the object that it is written as
/// holds no line feed, whatever the message's text holds.
pub proof fn lemma_message_is_on_one_line(message: MessageView)
    ensures
        is_on_one_line(message_object(message)),
        line_feeds(message_line(message)) == 1,
{
    reveal_strlit("{\"channel_id\":");
    reveal_strlit(",\"author_id\":");
    reveal_strlit(",\"message_id\":");
    reveal_strlit(",\"text\":");
    reveal_strlit(",\"has_media\":");
    reveal_strlit("true");
    reveal_strlit("false");
    reveal_strlit("}");
    lemma_numeral_is_on_one_line(message.channel_id as nat);
    lemma_numeral_is_on_one_line(message.author_id as nat);
    lemma_numeral_is_on_one_line(message.message_id as nat);
    crate::json::lemma_literal_is_on_one_line(message.text);
    let object = message_object(message);
    assert(is_on_one_line(object));
    lemma_line_feeds_of_one_line(object);
    assert(message_line(message).drop_last() =~= object);
}

/// A text on one line holds no line feed to count.
pub proof fn lemma_line_feeds_of_one_line(text: Seq<char>)
    requires
        is_on_one_line(text),
    ensures
        line_feeds(text) == 0,
    decreases text.len(),
{
    if text.len() > 0 {
        assert forall|i: int| 0 <= i < text.drop_last().len() implies text.drop_last()[i]
            != '\n' by {
            assert(text.drop_last()[i] == text[i]);
        }
        lemma_line_feeds_of_one_line(text.drop_last());
    }
}

/// The line feeds of two texts add up.
pub proof fn lemma_line_feeds_add(a: Seq<char>, b: Seq<char>)
    ensures
        line_feeds(a + b) == line_feeds(a) + line_feeds(b),
    decreases b.len(),
{
    if b.len() == 0 {
        assert(a + b =~= a);
    } else {
        assert((a + b).drop_last() =~= a + b.drop_last());
        lemma_line_feeds_add(a, b.drop_last());
    }
}

/// A page is written as one line for each of its messages.
pub proof fn lemma_page_is_one_line_each(page: Seq<MessageView>)
    ensures
        line_feeds(page_lines(page)) == page.len(),
    decreases page.len(),
{
    if page.len() > 0 {
        lemma_page_is_one_line_each(page.drop_last());
        lemma_message_is_on_one_line(page.last());
        lemma_line_feeds_add(page_lines(page.drop_last()), message_line(page.last()));
    }
}

impl Message {
    /// Writes the message as a JSON object.
    pub fn to_json_object(&self) -> (r: String)
        ensures
            r@ == message_object(self@),
    {
        let literal = quote(self.text.as_str());
        let mut object = String::from_str("{\"channel_id\":");
        push_decimal(&mut object, self.channel_id);
        object.append(",\"author_id\":");
        push_decimal(&mut object, self.author_id);
        object.append(",\"message_id\":");
        push_decimal(&mut object, self.message_id);
        object.append(",\"text\":");
        object.append(literal.as_str());
        object.append(",\"has_media\":");
        if self.has_media {
            object.append("true");
        } else {
            object.append("false");
        }
        object.append("}");
        object
    }

    /// Writes the message as one line of a line-delimited file.
    pub fn to_jsonl_line(&self) -> (r: String)
        ensures
            r@ == message_line(self@),
    {
        let mut line = self.to_json_object();
        line.append("\n");
        proof {
            reveal_strlit("\n");
            assert("\n"@ =~= seq!['\n']);
            assert(line@ =~= message_line(self@));
        }
        line
    }
}

/// Writes a page as the lines that are appended to a line-delimited file,
/// one for each message, in the page's order.
pub fn jsonl_lines(page: &Vec<Message>) -> (r: String)
    ensures
        r@ == page_lines(page_view(page@)),
{
    let ghost all = page_view(page@);
    let mut lines = String::new();
    let mut i: usize = 0;
    while i < page.len()
        invariant
            i <= page.len(),
            all == page_view(page@),
            lines@ == page_lines(all.take(i as int)),
        decreases page.len() - i,
    {
        proof {
            assert(all.take(i + 1).drop_last() =~= all.take(i as int));
            assert(all.take(i + 1).last() == page[i as int]@);
        }
        let line = page[i].to_jsonl_line();
        lines.append(line.as_str());
        i = i + 1;
    }
    proof {
        assert(all.take(page.len() as int) =~= all);
    }
    lines
}

} // verus!
