//! Reading a message back from the line that it was written as.

use vstd::prelude::*;

use super::message_saver::{
    bool_text, is_on_one_line, lemma_message_is_on_one_line, message_line, message_object,
    page_lines,
};
use crate::decimal::{
    all_digits, chars_of, decimal_text, digit_run, digit_value, digits_up_to, digits_value,
    is_digit, lemma_decimal_text_digits, lemma_digit_run,
};
use crate::discord_api::get_channel_messages::{page_view, Message, MessageView};
use crate::json::{escaped_char, escaped_text, hex_digit, json_string_text};

verus! {

/// What is left of `input` after `prefix`; `None` where `input` does not
/// begin with `prefix`.
pub open spec fn after_prefix(input: Seq<char>, prefix: Seq<char>) -> Option<Seq<char>> {
    if prefix.is_prefix_of(input) {
        Some(input.skip(prefix.len() as int))
    } else {
        None
    }
}

/// The number that the digits at the front of `input` write, and what is
/// left after them; `None` where no digit stands there or the number is out
/// of the range of a `u64`.
pub open spec fn read_number(input: Seq<char>) -> Option<(u64, Seq<char>)> {
    let k = digit_run(input) as int;
    match digits_up_to(input.take(k), u64::MAX as nat) {
        Some(n) => Some((n as u64, input.skip(k))),
        None => None,
    }
}

/// The number that a lower-case hexadecimal digit stands for.
pub open spec fn hex_value(c: char) -> Option<nat> {
    if is_digit(c) {
        Some(digit_value(c))
    } else if 'a' <= c <= 'f' {
        Some((c as u32 - 'a' as u32 + 10) as nat)
    } else {
        None
    }
}

/// The character that the escape at the front of `input` stands for, and
/// how many characters the escape takes; `input` is what follows the
/// backslash.
pub open spec fn read_escape(input: Seq<char>) -> Option<(char, nat)> {
    if input.len() == 0 {
        None
    } else if input[0] == '"' {
        Some(('"', 1nat))
    } else if input[0] == '\\' {
        Some(('\\', 1nat))
    } else if input[0] == 'b' {
        Some(('\u{8}', 1nat))
    } else if input[0] == 't' {
        Some(('\t', 1nat))
    } else if input[0] == 'n' {
        Some(('\n', 1nat))
    } else if input[0] == 'f' {
        Some(('\u{c}', 1nat))
    } else if input[0] == 'r' {
        Some(('\r', 1nat))
    } else if input[0] == 'u' && input.len() >= 5 && input[1] == '0' && input[2] == '0' {
        match (hex_value(input[3]), hex_value(input[4])) {
            (Some(high), Some(low)) => Some((((high * 16 + low) as u32) as char, 5nat)),
            _ => None,
        }
    } else {
        None
    }
}

/// The text of the string literal whose inside begins `input`, and what is
/// left after its closing quote; `None` where the literal is not closed or
/// holds an escape that is not read.
pub open spec fn read_literal_body(input: Seq<char>) -> Option<(Seq<char>, Seq<char>)>
    decreases input.len(),
{
    if input.len() == 0 {
        None
    } else if input[0] == '"' {
        Some((Seq::empty(), input.skip(1)))
    } else if input[0] == '\\' {
        match read_escape(input.skip(1)) {
            Some((c, used)) => if 1 + used <= input.len() {
                match read_literal_body(input.skip(1 + used as int)) {
                    Some((text, rest)) => Some((seq![c] + text, rest)),
                    None => None,
                }
            } else {
                None
            },
            None => None,
        }
    } else {
        match read_literal_body(input.skip(1)) {
            Some((text, rest)) => Some((seq![input[0]] + text, rest)),
            None => None,
        }
    }
}

/// The truth value that stands at the front of `input`, and what is left
/// after it.
pub open spec fn read_bool(input: Seq<char>) -> Option<(bool, Seq<char>)> {
    match after_prefix(input, "true"@) {
        Some(rest) => Some((true, rest)),
        None => match after_prefix(input, "false"@) {
            Some(rest) => Some((false, rest)),
            None => None,
        },
    }
}

/// The three numbers at the front of the object of a message, and what is
/// left after them.
pub open spec fn read_ids(line: Seq<char>) -> Option<(u64, u64, u64, Seq<char>)> {
    match after_prefix(line, "{\"channel_id\":"@) {
        Some(a) => match read_number(a) {
            Some((channel_id, b)) => match after_prefix(b, ",\"author_id\":"@) {
                Some(c) => match read_number(c) {
                    Some((author_id, d)) => match after_prefix(d, ",\"message_id\":"@) {
                        Some(e) => match read_number(e) {
                            Some((message_id, f)) => Some((channel_id, author_id, message_id, f)),
                            None => None,
                        },
                        None => None,
                    },
                    None => None,
                },
                None => None,
            },
            None => None,
        },
        None => None,
    }
}

/// The text and the truth value that follow the numbers in the object of a
/// message, up to the end of the object.
pub open spec fn read_text_and_media(input: Seq<char>) -> Option<(Seq<char>, bool)> {
    match after_prefix(input, ",\"text\":\""@) {
        Some(a) => match read_literal_body(a) {
            Some((text, b)) => match after_prefix(b, ",\"has_media\":"@) {
                Some(c) => match read_bool(c) {
                    Some((has_media, d)) => if d == "}"@ {
                        Some((text, has_media))
                    } else {
                        None
                    },
                    None => None,
                },
                None => None,
            },
            None => None,
        },
        None => None,
    }
}

/// The message that a line holds, read field by field in the order in
/// which a message is written.
pub open spec fn read_object(line: Seq<char>) -> Option<MessageView> {
    match read_ids(line) {
        Some((channel_id, author_id, message_id, rest)) => match read_text_and_media(rest) {
            Some((text, has_media)) => Some(
                MessageView { channel_id, author_id, message_id, text, has_media },
            ),
            None => None,
        },
        None => None,
    }
}

/// The message that a line holds: the one that is written as this line,
/// and none where no message is.
#[verifier::opaque]
pub open spec fn read_line(line: Seq<char>) -> Option<MessageView> {
    match read_object(line) {
        Some(message) => if message_object(message) == line {
            Some(message)
        } else {
            None
        },
        None => None,
    }
}

/// How many characters stand in front of the first line feed of `text`, or
/// in all of it where it holds none.
pub open spec fn line_length(text: Seq<char>) -> nat
    decreases text.len(),
{
    if text.len() > 0 && text[0] != '\n' {
        1 + line_length(text.skip(1))
    } else {
        0
    }
}

/// The messages that a text holds, one on each of its lines, in the order
/// of the lines; `None` where a line holds no message or the last line does
/// not end in a line feed.
pub open spec fn read_lines(text: Seq<char>) -> Option<Seq<MessageView>>
    decreases text.len(),
{
    if text.len() == 0 {
        Some(Seq::empty())
    } else {
        let k = line_length(text) as int;
        if k < text.len() {
            match (read_line(text.take(k)), read_lines(text.skip(k + 1))) {
                (Some(message), Some(more)) => Some(seq![message] + more),
                _ => None,
            }
        } else {
            None
        }
    }
}

/// What stands after a prefix is what was put after it.
pub proof fn lemma_after_prefix(prefix: Seq<char>, rest: Seq<char>)
    ensures
        after_prefix(prefix + rest, prefix) == Some(rest),
{
    assert((prefix + rest).subrange(0, prefix.len() as int) =~= prefix);
    assert((prefix + rest).skip(prefix.len() as int) =~= rest);
}

/// A numeral that something else follows reads back as its number.
pub proof fn lemma_read_number(n: u64, rest: Seq<char>)
    requires
        rest.len() == 0 || !is_digit(rest[0]),
    ensures
        read_number(decimal_text(n as nat) + rest) == Some((n, rest)),
{
    let digits = decimal_text(n as nat);
    lemma_decimal_text_digits(n as nat);
    lemma_digit_run(digits, rest);
    assert((digits + rest).take(digits.len() as int) =~= digits);
    assert((digits + rest).skip(digits.len() as int) =~= rest);
}

/// A hexadecimal digit reads back as its number.
pub proof fn lemma_hex_value(d: nat)
    requires
        d < 16,
    ensures
        hex_value(hex_digit(d)) == Some(d),
{
}

/// The characters of a text as they stand inside a literal begin with what
/// stands for the first character.
pub proof fn lemma_escaped_text_front(text: Seq<char>)
    requires
        text.len() > 0,
    ensures
        escaped_text(text) == escaped_char(text[0]) + escaped_text(text.skip(1)),
    decreases text.len(),
{
    if text.len() == 1 {
        assert(text.drop_last() =~= Seq::<char>::empty());
        assert(text.skip(1) =~= Seq::<char>::empty());
        assert(escaped_text(text) =~= escaped_char(text[0]) + escaped_text(text.skip(1)));
    } else {
        let front = text.drop_last();
        lemma_escaped_text_front(front);
        assert(text.skip(1).drop_last() =~= front.skip(1));
        assert(text.skip(1).last() == text.last());
        assert(front[0] == text[0]);
        assert(escaped_text(text) =~= escaped_char(text[0]) + escaped_text(text.skip(1)));
    }
}

/// The inside of a literal and its closing quote read back as the text.
pub proof fn lemma_read_literal_body(text: Seq<char>, rest: Seq<char>)
    ensures
        read_literal_body(escaped_text(text) + seq!['"'] + rest) == Some((text, rest)),
    decreases text.len(),
{
    let input = escaped_text(text) + seq!['"'] + rest;
    if text.len() == 0 {
        assert(input[0] == '"');
        assert(input.skip(1) =~= rest);
    } else {
        let c = text[0];
        let escape = escaped_char(c);
        let tail = escaped_text(text.skip(1)) + seq!['"'] + rest;
        lemma_escaped_text_front(text);
        lemma_read_literal_body(text.skip(1), rest);
        assert(input =~= escape + tail);
        assert(input.skip(escape.len() as int) =~= tail);
        assert(seq![c] + text.skip(1) =~= text);
        if escape.len() == 1 {
            assert(input[0] == c);
        } else {
            assert(input[0] == '\\');
            assert(input.skip(1)[0] == escape[1]);
            if escape.len() == 2 {
                assert(read_escape(input.skip(1)) == Some((c, 1nat)));
            } else {
                let code = c as u32;
                lemma_hex_value((code / 16) as nat);
                lemma_hex_value((code % 16) as nat);
                assert(input.skip(1).len() >= 5);
                assert(input.skip(1)[1] == '0');
                assert(input.skip(1)[2] == '0');
                assert(input.skip(1)[3] == escape[4]);
                assert(input.skip(1)[4] == escape[5]);
                assert((code / 16) * 16 + code % 16 == code);
                vstd::utf8::char_u32_cast(c, code);
                assert(read_escape(input.skip(1)) == Some((c, 5nat)));
            }
        }
    }
}

/// A truth value that a closing brace follows reads back.
pub proof fn lemma_read_bool(b: bool, rest: Seq<char>)
    requires
        rest.len() > 0,
        rest[0] == '}',
    ensures
        read_bool(bool_text(b) + rest) == Some((b, rest)),
{
    reveal_strlit("true");
    reveal_strlit("false");
    lemma_after_prefix(bool_text(b), rest);
    if !b {
        assert(("false"@ + rest)[0] == 'f');
        assert("true"@.subrange(0, 4)[0] == 't');
        if "true"@.is_prefix_of("false"@ + rest) {
            assert(("false"@ + rest).subrange(0, 4)[0] == 'f');
        }
    }
}

/// What follows the numbers in the object of a message.
pub open spec fn text_and_media_part(message: MessageView) -> Seq<char> {
    ",\"text\":"@ + json_string_text(message.text) + ",\"has_media\":"@ + bool_text(
        message.has_media,
    ) + "}"@
}

/// The numbers of a message read back from the front of its object.
pub proof fn lemma_ids_read_back(message: MessageView, rest: Seq<char>)
    requires
        rest.len() > 0,
        rest[0] == ',',
    ensures
        read_ids(
            "{\"channel_id\":"@ + decimal_text(message.channel_id as nat) + ",\"author_id\":"@
                + decimal_text(message.author_id as nat) + ",\"message_id\":"@ + decimal_text(
                message.message_id as nat,
            ) + rest,
        ) == Some((message.channel_id, message.author_id, message.message_id, rest)),
{
    reveal_strlit("{\"channel_id\":");
    reveal_strlit(",\"author_id\":");
    reveal_strlit(",\"message_id\":");
    let p1 = "{\"channel_id\":"@;
    let p2 = ",\"author_id\":"@;
    let p3 = ",\"message_id\":"@;
    let d1 = decimal_text(message.channel_id as nat);
    let d2 = decimal_text(message.author_id as nat);
    let d3 = decimal_text(message.message_id as nat);
    let t3 = d3 + rest;
    let e3 = p3 + t3;
    let t2 = d2 + e3;
    let e2 = p2 + t2;
    let t1 = d1 + e2;
    assert(p1 + d1 + p2 + d2 + p3 + d3 + rest =~= p1 + t1);
    lemma_after_prefix(p1, t1);
    assert(e2[0] == ',');
    lemma_read_number(message.channel_id, e2);
    lemma_after_prefix(p2, t2);
    assert(e3[0] == ',');
    lemma_read_number(message.author_id, e3);
    lemma_after_prefix(p3, t3);
    lemma_read_number(message.message_id, rest);
}

/// The text and the truth value of a message read back from the end of
/// its object.
pub proof fn lemma_text_and_media_read_back(message: MessageView)
    ensures
        read_text_and_media(text_and_media_part(message)) == Some(
            (message.text, message.has_media),
        ),
        text_and_media_part(message).len() > 0,
        text_and_media_part(message)[0] == ',',
{
    reveal_strlit(",\"text\":");
    reveal_strlit(",\"text\":\"");
    reveal_strlit(",\"has_media\":");
    reveal_strlit("}");
    let p4 = ",\"text\":\""@;
    let p5 = ",\"has_media\":"@;
    let t7 = "}"@;
    let t6 = bool_text(message.has_media) + t7;
    let t5 = p5 + t6;
    let body = escaped_text(message.text) + seq!['"'] + t5;
    assert(text_and_media_part(message) =~= p4 + body);
    lemma_after_prefix(p4, body);
    lemma_read_literal_body(message.text, t5);
    lemma_after_prefix(p5, t6);
    lemma_read_bool(message.has_media, t7);
}

/// A message reads back from the object that it is written as.
pub proof fn lemma_message_reads_back(message: MessageView)
    ensures
        read_object(message_object(message)) == Some(message),
{
    let rest = text_and_media_part(message);
    lemma_text_and_media_read_back(message);
    lemma_ids_read_back(message, rest);
    assert(message_object(message) =~= "{\"channel_id\":"@ + decimal_text(
        message.channel_id as nat,
    ) + ",\"author_id\":"@ + decimal_text(message.author_id as nat) + ",\"message_id\":"@
        + decimal_text(message.message_id as nat) + rest);
}

/// A line that a line feed follows ends at that line feed.
pub proof fn lemma_line_length(line: Seq<char>, rest: Seq<char>)
    requires
        is_on_one_line(line),
        rest.len() == 0 || rest[0] == '\n',
    ensures
        line_length(line + rest) == line.len(),
    decreases line.len(),
{
    if line.len() == 0 {
        assert(line + rest =~= rest);
    } else {
        assert((line + rest)[0] == line[0]);
        assert((line + rest).skip(1) =~= line.skip(1) + rest);
        assert forall|i: int| 0 <= i < line.skip(1).len() implies line.skip(1)[i] != '\n' by {
            assert(line.skip(1)[i] == line[i + 1]);
        }
        lemma_line_length(line.skip(1), rest);
    }
}

/// The lines of a page begin with the line of its first message.
pub proof fn lemma_page_lines_front(page: Seq<MessageView>)
    requires
        page.len() > 0,
    ensures
        page_lines(page) == message_line(page[0]) + page_lines(page.skip(1)),
    decreases page.len(),
{
    if page.len() == 1 {
        assert(page.drop_last() =~= Seq::<MessageView>::empty());
        assert(page.skip(1) =~= Seq::<MessageView>::empty());
        assert(page_lines(page) =~= message_line(page[0]) + page_lines(page.skip(1)));
    } else {
        let front = page.drop_last();
        lemma_page_lines_front(front);
        assert(page.skip(1).drop_last() =~= front.skip(1));
        assert(page.skip(1).last() == page.last());
        assert(front[0] == page[0]);
        assert(page_lines(page) =~= message_line(page[0]) + page_lines(page.skip(1)));
    }
}

/// The messages of a page read back from the lines that the page is
/// written as: the same messages, in the same order, with every field as it
/// was.
pub proof fn lemma_page_reads_back(page: Seq<MessageView>)
    ensures
        read_lines(page_lines(page)) == Some(page),
    decreases page.len(),
{
    if page.len() > 0 {
        let first = page[0];
        let object = message_object(first);
        let rest = page_lines(page.skip(1));
        let text = page_lines(page);
        lemma_page_lines_front(page);
        lemma_message_is_on_one_line(first);
        lemma_object_reads_as_line(first);
        lemma_page_reads_back(page.skip(1));
        assert(text =~= object + (seq!['\n'] + rest));
        lemma_line_length(object, seq!['\n'] + rest);
        let k = object.len() as int;
        assert(text.take(k) =~= object);
        assert(text.skip(k + 1) =~= rest);
        assert(seq![first] + page.skip(1) =~= page);
    }
}

/// What reads as a page is what the page is written as.
pub proof fn lemma_read_lines_are_page_lines(text: Seq<char>, page: Seq<MessageView>)
    requires
        read_lines(text) == Some(page),
    ensures
        page_lines(page) == text,
    decreases text.len(),
{
    if text.len() == 0 {
        assert(page =~= Seq::<MessageView>::empty());
    } else {
        let k = line_length(text) as int;
        lemma_line_length_is_within(text);
        let line = text.take(k);
        let rest = text.skip(k + 1);
        assert(read_line(line) is Some && read_lines(rest) is Some);
        let first = read_line(line)->0;
        let more = read_lines(rest)->0;
        assert(page == seq![first] + more);
        lemma_read_lines_are_page_lines(rest, more);
        lemma_read_line_is_object(line, first);
        assert(page[0] == first);
        assert(page.skip(1) =~= more);
        lemma_page_lines_front(page);
        assert(message_line(first) =~= line.push('\n'));
        assert(text =~= line.push('\n') + rest);
    }
}

/// The line that reads as a message is the object of that message.
pub proof fn lemma_read_line_is_object(line: Seq<char>, message: MessageView)
    requires
        read_line(line) == Some(message),
    ensures
        message_object(message) == line,
{
    reveal(read_line);
}

/// The object of a message reads as that message.
pub proof fn lemma_object_reads_as_line(message: MessageView)
    ensures
        read_line(message_object(message)) == Some(message),
{
    reveal(read_line);
    lemma_message_reads_back(message);
}

/// A line is no longer than its text, and a line feed ends it where the
/// text goes on.
pub proof fn lemma_line_length_is_within(text: Seq<char>)
    ensures
        line_length(text) <= text.len(),
        line_length(text) < text.len() ==> text[line_length(text) as int] == '\n',
        forall|i: int| 0 <= i < line_length(text) ==> text[i] != '\n',
    decreases text.len(),
{
    if text.len() > 0 && text[0] != '\n' {
        lemma_line_length_is_within(text.skip(1));
        assert forall|i: int| 0 <= i < line_length(text) implies text[i] != '\n' by {
            if i > 0 {
                assert(text.skip(1)[i - 1] == text[i]);
            }
        }
        if line_length(text) < text.len() {
            assert(text.skip(1)[line_length(text) - 1] == text[line_length(text) as int]);
        }
    }
}

/// Calls `String::push` of std, which appends one character to the text.
#[verifier::external_body]
fn push_char(text: &mut String, c: char)
    ensures
        final(text)@ == old(text)@.push(c),
{
    text.push(c)
}

/// Passes over `prefix` at `pos`, and gives the position after it.
fn skip_prefix(chars: &Vec<char>, pos: usize, prefix: &str) -> (r: Option<usize>)
    requires
        pos <= chars.len(),
    ensures
        match r {
            Some(next) => pos <= next <= chars.len() && after_prefix(
                chars@.skip(pos as int),
                prefix@,
            ) == Some(chars@.skip(next as int)),
            None => after_prefix(chars@.skip(pos as int), prefix@) is None,
        },
{
    let ghost input = chars@.skip(pos as int);
    let mut i: usize = pos;
    for c in it: prefix.chars()
        invariant
            it.seq() == prefix@,
            input == chars@.skip(pos as int),
            pos <= chars.len(),
            i == pos + it.index(),
            i <= chars.len(),
            forall|j: int| 0 <= j < it.index() ==> input[j] == prefix@[j],
    {
        let ghost k = it.index() as int;
        if i >= chars.len() {
            return None;
        }
        if chars[i] != c {
            proof {
                if prefix@.is_prefix_of(input) {
                    assert(input.subrange(0, prefix@.len() as int)[k] == input[k]);
                }
            }
            return None;
        }
        i = i + 1;
    }
    proof {
        assert(input.subrange(0, prefix@.len() as int) =~= prefix@);
        assert(input.skip(prefix@.len() as int) =~= chars@.skip(i as int));
    }
    Some(i)
}

/// Reads the number that the digits at `pos` write, and gives the position
/// after them.
fn take_number(chars: &Vec<char>, pos: usize) -> (r: Option<(u64, usize)>)
    requires
        pos <= chars.len(),
    ensures
        match r {
            Some((n, next)) => pos <= next <= chars.len() && read_number(chars@.skip(pos as int))
                == Some((n, chars@.skip(next as int))),
            None => read_number(chars@.skip(pos as int)) is None,
        },
{
    let ghost input = chars@.skip(pos as int);
    let mut i: usize = pos;
    let mut value: u64 = 0;
    let mut in_range = true;
    loop
        invariant
            pos <= i <= chars.len(),
            input == chars@.skip(pos as int),
            all_digits(input.take(i - pos)),
            in_range ==> value == digits_value(input.take(i - pos)),
            !in_range ==> digits_value(input.take(i - pos)) > u64::MAX,
        ensures
            pos <= i <= chars.len(),
            all_digits(input.take(i - pos)),
            in_range ==> value == digits_value(input.take(i - pos)),
            !in_range ==> digits_value(input.take(i - pos)) > u64::MAX,
            i == chars.len() || !is_digit(chars@[i as int]),
        decreases chars.len() - i,
    {
        if i >= chars.len() {
            break;
        }
        let c = chars[i];
        if c < '0' || c > '9' {
            break;
        }
        proof {
            let k = i - pos;
            assert(input.take(k + 1).drop_last() =~= input.take(k));
            assert(input.take(k + 1).last() == c);
            assert forall|j: int| 0 <= j < k + 1 implies is_digit(#[trigger] input.take(k + 1)[j]) by {
                if j < k {
                    assert(input.take(k)[j] == input[j]);
                }
            }
        }
        if in_range {
            let digit: u64 = (c as u32 - '0' as u32) as u64;
            let wide: u128 = value as u128 * 10 + digit as u128;
            if wide > u64::MAX as u128 {
                in_range = false;
            } else {
                value = wide as u64;
            }
        }
        i = i + 1;
    }
    proof {
        let k = i - pos;
        assert(input.take(k) + input.skip(k) =~= input);
        if input.skip(k).len() > 0 {
            assert(input.skip(k)[0] == chars@[i as int]);
        }
        lemma_digit_run(input.take(k), input.skip(k));
        assert(input.skip(k) =~= chars@.skip(i as int));
    }
    if i > pos && in_range {
        Some((value, i))
    } else {
        None
    }
}

/// Reads the number that a lower-case hexadecimal digit stands for.
fn take_hex(c: char) -> (r: Option<u8>)
    ensures
        match r {
            Some(d) => hex_value(c) == Some(d as nat),
            None => hex_value(c) is None,
        },
{
    if '0' <= c && c <= '9' {
        Some((c as u32 - '0' as u32) as u8)
    } else if 'a' <= c && c <= 'f' {
        Some((c as u32 - 'a' as u32 + 10) as u8)
    } else {
        None
    }
}

/// Reads the escape that follows a backslash at `pos`: the character that
/// it stands for, and how many characters it takes.
fn take_escape(chars: &Vec<char>, pos: usize) -> (r: Option<(char, usize)>)
    requires
        pos <= chars.len(),
    ensures
        match r {
            Some((c, used)) => pos + used <= chars.len() && read_escape(chars@.skip(pos as int))
                == Some((c, used as nat)),
            None => read_escape(chars@.skip(pos as int)) is None,
        },
{
    let ghost input = chars@.skip(pos as int);
    if pos >= chars.len() {
        return None;
    }
    let c = chars[pos];
    assert(input[0] == c);
    if c == '"' {
        Some(('"', 1))
    } else if c == '\\' {
        Some(('\\', 1))
    } else if c == 'b' {
        Some(('\u{8}', 1))
    } else if c == 't' {
        Some(('\t', 1))
    } else if c == 'n' {
        Some(('\n', 1))
    } else if c == 'f' {
        Some(('\u{c}', 1))
    } else if c == 'r' {
        Some(('\r', 1))
    } else if c == 'u' && chars.len() - pos >= 5 {
        assert(input[1] == chars@[pos + 1]);
        assert(input[2] == chars@[pos + 2]);
        assert(input[3] == chars@[pos + 3]);
        assert(input[4] == chars@[pos + 4]);
        if chars[pos + 1] != '0' || chars[pos + 2] != '0' {
            return None;
        }
        match (take_hex(chars[pos + 3]), take_hex(chars[pos + 4])) {
            (Some(high), Some(low)) => {
                let code: u8 = high * 16 + low;
                Some((code as char, 5))
            },
            _ => None,
        }
    } else {
        None
    }
}

/// Reads the inside of a string literal from `pos` up to its closing
/// quote: the text, and the position after the quote.
fn take_literal_body(chars: &Vec<char>, pos: usize) -> (r: Option<(String, usize)>)
    requires
        pos <= chars.len(),
    ensures
        match r {
            Some((text, next)) => pos <= next <= chars.len() && read_literal_body(
                chars@.skip(pos as int),
            ) == Some((text@, chars@.skip(next as int))),
            None => read_literal_body(chars@.skip(pos as int)) is None,
        },
{
    let mut text = String::new();
    let mut i: usize = pos;
    loop
        invariant
            pos <= i <= chars.len(),
            read_literal_body(chars@.skip(pos as int)) == (match read_literal_body(
                chars@.skip(i as int),
            ) {
                Some((more, rest)) => Some((text@ + more, rest)),
                None => None,
            }),
        decreases chars.len() - i,
    {
        let ghost input = chars@.skip(i as int);
        if i >= chars.len() {
            return None;
        }
        let c = chars[i];
        assert(input[0] == c);
        if c == '"' {
            proof {
                assert(input.skip(1) =~= chars@.skip(i + 1));
                assert(text@ + Seq::<char>::empty() =~= text@);
            }
            return Some((text, i + 1));
        }
        let ghost before = text@;
        if c == '\\' {
            assert(input.skip(1) =~= chars@.skip(i + 1));
            match take_escape(chars, i + 1) {
                Some((escaped, used)) => {
                    push_char(&mut text, escaped);
                    proof {
                        assert(input.skip(1 + used as int) =~= chars@.skip(i + 1 + used));
                        assert forall|more: Seq<char>| #[trigger] (text@ + more) == before + (
                        seq![escaped] + more) by {
                            assert(text@ + more =~= before + (seq![escaped] + more));
                        }
                    }
                    i = i + 1 + used;
                },
                None => {
                    return None;
                },
            }
        } else {
            push_char(&mut text, c);
            proof {
                assert(input.skip(1) =~= chars@.skip(i + 1));
                assert forall|more: Seq<char>| #[trigger] (text@ + more) == before + (seq![c]
                    + more) by {
                    assert(text@ + more =~= before + (seq![c] + more));
                }
            }
            i = i + 1;
        }
    }
}

/// Reads the truth value at `pos`, and gives the position after it.
fn take_bool(chars: &Vec<char>, pos: usize) -> (r: Option<(bool, usize)>)
    requires
        pos <= chars.len(),
    ensures
        match r {
            Some((b, next)) => pos <= next <= chars.len() && read_bool(chars@.skip(pos as int))
                == Some((b, chars@.skip(next as int))),
            None => read_bool(chars@.skip(pos as int)) is None,
        },
{
    match skip_prefix(chars, pos, "true") {
        Some(next) => Some((true, next)),
        None => match skip_prefix(chars, pos, "false") {
            Some(next) => Some((false, next)),
            None => None,
        },
    }
}

/// Reads the three numbers at the front of the object of a message.
fn take_ids(chars: &Vec<char>) -> (r: Option<(u64, u64, u64, usize)>)
    ensures
        match r {
            Some((channel_id, author_id, message_id, next)) => next <= chars.len() && read_ids(
                chars@,
            ) == Some((channel_id, author_id, message_id, chars@.skip(next as int))),
            None => read_ids(chars@) is None,
        },
{
    assert(chars@.skip(0) =~= chars@);
    let a = match skip_prefix(chars, 0, "{\"channel_id\":") {
        Some(next) => next,
        None => {
            return None;
        },
    };
    let (channel_id, b) = match take_number(chars, a) {
        Some(read) => read,
        None => {
            return None;
        },
    };
    let c = match skip_prefix(chars, b, ",\"author_id\":") {
        Some(next) => next,
        None => {
            return None;
        },
    };
    let (author_id, d) = match take_number(chars, c) {
        Some(read) => read,
        None => {
            return None;
        },
    };
    let e = match skip_prefix(chars, d, ",\"message_id\":") {
        Some(next) => next,
        None => {
            return None;
        },
    };
    match take_number(chars, e) {
        Some((message_id, f)) => Some((channel_id, author_id, message_id, f)),
        None => None,
    }
}

/// Reads the text and the truth value that follow the numbers, from `pos`
/// to the end of the object.
fn take_text_and_media(chars: &Vec<char>, pos: usize) -> (r: Option<(String, bool)>)
    requires
        pos <= chars.len(),
    ensures
        match r {
            Some((text, has_media)) => read_text_and_media(chars@.skip(pos as int)) == Some(
                (text@, has_media),
            ),
            None => read_text_and_media(chars@.skip(pos as int)) is None,
        },
{
    let a = match skip_prefix(chars, pos, ",\"text\":\"") {
        Some(next) => next,
        None => {
            return None;
        },
    };
    let (text, b) = match take_literal_body(chars, a) {
        Some(read) => read,
        None => {
            return None;
        },
    };
    let c = match skip_prefix(chars, b, ",\"has_media\":") {
        Some(next) => next,
        None => {
            return None;
        },
    };
    let (has_media, d) = match take_bool(chars, c) {
        Some(read) => read,
        None => {
            return None;
        },
    };
    proof {
        reveal_strlit("}");
        let rest = chars@.skip(d as int);
        if d + 1 == chars.len() && chars@[d as int] == '}' {
            assert(rest =~= "}"@);
        } else if rest == "}"@ {
            assert(rest[0] == chars@[d as int]);
        }
    }
    if d < chars.len() && d + 1 == chars.len() && chars[d] == '}' {
        Some((text, has_media))
    } else {
        None
    }
}

/// Whether two sequences of characters are the same.
fn same_chars(a: &Vec<char>, b: &Vec<char>) -> (r: bool)
    ensures
        r == (a@ == b@),
{
    if a.len() != b.len() {
        return false;
    }
    let mut i: usize = 0;
    while i < a.len()
        invariant
            i <= a.len(),
            a.len() == b.len(),
            forall|j: int| 0 <= j < i ==> a@[j] == b@[j],
        decreases a.len() - i,
    {
        if a[i] != b[i] {
            return false;
        }
        i = i + 1;
    }
    assert(a@ =~= b@);
    true
}

/// Reads the message that the characters of a line hold.
fn read_chars(chars: &Vec<char>) -> (r: Option<Message>)
    ensures
        match r {
            Some(message) => read_line(chars@) == Some(message@),
            None => read_line(chars@) is None,
        },
{
    proof {
        reveal(read_line);
    }
    let read = match take_ids(chars) {
        Some((channel_id, author_id, message_id, next)) => {
            match take_text_and_media(chars, next) {
                Some((text, has_media)) => Some(
                    Message { channel_id, author_id, message_id, text, has_media },
                ),
                None => None,
            }
        },
        None => None,
    };
    match read {
        Some(message) => {
            let object = message.to_json_object();
            if same_chars(&chars_of(object.as_str()), chars) {
                Some(message)
            } else {
                None
            }
        },
        None => None,
    }
}

impl Message {
    /// Reads a message back from the object that it is written as, that
    /// is, from its line without the line feed. The line holds a message
    /// exactly where it is the object of one, and then it holds that one.
    pub fn from_jsonl_line(line: &str) -> (r: Option<Message>)
        ensures
            match r {
                Some(message) => line@ == message_object(message@),
                None => forall|message: MessageView| message_object(message) != line@,
            },
    {
        let r = read_chars(&chars_of(line));
        proof {
            assert forall|message: MessageView| message_object(message) == line@ implies r
                is Some by {
                lemma_object_reads_as_line(message);
            }
            if r is Some {
                lemma_read_line_is_object(line@, r->0@);
            }
        }
        r
    }
}

/// Reads back the messages that a text holds, one on each of its lines.
/// The text holds a page exactly where it is the lines that the page is
/// written as, and then it holds that page.
pub fn read_jsonl(text: &str) -> (r: Option<Vec<Message>>)
    ensures
        match r {
            Some(page) => text@ == page_lines(page_view(page@)),
            None => forall|page: Seq<MessageView>| page_lines(page) != text@,
        },
{
    let chars = chars_of(text);
    let mut page: Vec<Message> = Vec::new();
    let mut pos: usize = 0;
    proof {
        assert(chars@.skip(0) =~= chars@);
        if read_lines(chars@) is Some {
            assert(page_view(page@) + read_lines(chars@)->0 =~= read_lines(chars@)->0);
        }
    }
    loop
        invariant
            pos <= chars.len(),
            chars@ == text@,
            read_lines(chars@) == (match read_lines(chars@.skip(pos as int)) {
                Some(more) => Some(page_view(page@) + more),
                None => None,
            }),
        ensures
            read_lines(text@) == Some(page_view(page@)),
        decreases chars.len() - pos,
    {
        let ghost input = chars@.skip(pos as int);
        if pos >= chars.len() {
            assert(page_view(page@) + Seq::<MessageView>::empty() =~= page_view(page@));
            break;
        }
        let mut line: Vec<char> = Vec::new();
        let mut end: usize = pos;
        while end < chars.len() && chars[end] != '\n'
            invariant
                pos <= end <= chars.len(),
                input == chars@.skip(pos as int),
                line@ == input.take(end - pos),
                is_on_one_line(line@),
            decreases chars.len() - end,
        {
            line.push(chars[end]);
            end = end + 1;
            assert(line@ =~= input.take(end - pos));
        }
        proof {
            let k = end - pos;
            assert(input =~= line@ + input.skip(k));
            if input.skip(k).len() > 0 {
                assert(input.skip(k)[0] == chars@[end as int]);
            }
            lemma_line_length(line@, input.skip(k));
        }
        if end >= chars.len() {
            proof {
                lemma_no_page_without_lines(text@);
            }
            return None;
        }
        let ghost before = page@;
        match read_chars(&line) {
            Some(message) => {
                page.push(message);
                proof {
                    assert(input.skip(end - pos + 1) =~= chars@.skip(end + 1));
                    assert(page_view(page@) =~= page_view(before).push(message@));
                    assert forall|more: Seq<MessageView>| #[trigger] (page_view(page@) + more)
                        == page_view(before) + (seq![message@] + more) by {
                        assert(page_view(page@) + more =~= page_view(before) + (seq![message@]
                            + more));
                    }
                }
                pos = end + 1;
            },
            None => {
                proof {
                    lemma_no_page_without_lines(text@);
                }
                return None;
            },
        }
    }
    proof {
        lemma_read_lines_are_page_lines(text@, page_view(page@));
    }
    Some(page)
}

/// A text that does not read as a page is not what any page is written
/// as.
pub proof fn lemma_no_page_without_lines(text: Seq<char>)
    requires
        read_lines(text) is None,
    ensures
        forall|page: Seq<MessageView>| page_lines(page) != text,
{
    assert forall|page: Seq<MessageView>| page_lines(page) != text by {
        lemma_page_reads_back(page);
    }
}

/// Two pages that are written as the same lines are one page.
pub proof fn lemma_one_page_for_its_lines(a: Seq<MessageView>, b: Seq<MessageView>)
    requires
        page_lines(a) == page_lines(b),
    ensures
        a == b,
{
    lemma_page_reads_back(a);
    lemma_page_reads_back(b);
}

/// Two messages that are written as one object are one message.
pub proof fn lemma_one_message_for_an_object(a: MessageView, b: MessageView)
    requires
        message_object(a) == message_object(b),
    ensures
        a == b,
{
    lemma_message_reads_back(a);
    lemma_message_reads_back(b);
}

} // verus!
