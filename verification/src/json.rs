//! A JSON document as plain data, and the calls that read one from text.

use vstd::prelude::*;
use vstd::string::StringExecFns;
use vstd::utf8::encode_utf8;

verus! {

/// A JSON document. A number is kept as its numeral, and an object as the
/// sequence of its members, each a key and a value.
#[derive(Debug)]
pub enum Json {
    Null,
    Bool(bool),
    Number(String),
    Str(String),
    Array(Vec<Json>),
    Object(Vec<(String, Json)>),
}

/// The mathematical value of a [`Json`].
pub enum JsonView {
    Null,
    Bool(bool),
    Number(Seq<char>),
    Str(Seq<char>),
    Array(Seq<JsonView>),
    Object(Seq<(Seq<char>, JsonView)>),
}

/// The documents of a sequence of [`Json`], one by one.
pub open spec fn items_view(items: Seq<Json>) -> Seq<JsonView> {
    Seq::new(items.len(), |i: int| items[i]@)
}

impl View for Json {
    type V = JsonView;

    open spec fn view(&self) -> JsonView
        decreases self,
    {
        match self {
            Json::Null => JsonView::Null,
            Json::Bool(b) => JsonView::Bool(*b),
            Json::Number(text) => JsonView::Number(text@),
            Json::Str(text) => JsonView::Str(text@),
            Json::Array(items) => JsonView::Array(
                Seq::new(
                    items.len() as nat,
                    |i: int|
                        if 0 <= i < items.len() {
                            items[i]@
                        } else {
                            JsonView::Null
                        },
                ),
            ),
            Json::Object(members) => JsonView::Object(
                Seq::new(
                    members.len() as nat,
                    |i: int|
                        if 0 <= i < members.len() {
                            member_view(members[i])
                        } else {
                            (Seq::empty(), JsonView::Null)
                        },
                ),
            ),
        }
    }
}

/// The view of one member of an object.
pub open spec fn member_view(member: (String, Json)) -> (Seq<char>, JsonView)
    decreases member,
{
    (member.0@, member.1@)
}

/// `serde_json::Value`, the document tree that the parser builds.
#[verifier::external_type_specification]
#[verifier::external_body]
pub struct ExValue(serde_json::Value);

/// `serde_json::Error`, the reason a text was not read or written as JSON.
#[verifier::external_type_specification]
#[verifier::external_body]
pub struct ExJsonError(serde_json::Error);

/// The document that a `serde_json::Value` holds: a number as the numeral
/// that its `Display` writes, and an object as its members in the order in
/// which the map yields them.
pub uninterp spec fn value_contents(value: serde_json::Value) -> JsonView;

/// The document that `serde_json::from_slice` reads from `text`, or `None`
/// where it rejects the text.
pub uninterp spec fn json_text_value(text: Seq<u8>) -> Option<JsonView>;

/// Calls `serde_json::from_slice` for a `serde_json::Value`. The call
/// succeeds exactly on the texts that [`json_text_value`] is defined on, and
/// the tree it returns holds that document.
#[verifier::external_body]
pub(crate) fn value_from_slice(text: &[u8]) -> (r: Result<serde_json::Value, serde_json::Error>)
    ensures
        match r {
            Ok(value) => json_text_value(text@) == Some(value_contents(value)),
            Err(_) => json_text_value(text@) is None,
        },
{
    serde_json::from_slice::<serde_json::Value>(text)
}

/// Calls `serde_json::Value::as_bool`: the truth value of a tree that holds
/// one, and `None` for a tree that holds anything else.
#[verifier::external_body]
fn value_as_bool(value: &serde_json::Value) -> (r: Option<bool>)
    ensures
        match r {
            Some(b) => value_contents(*value) == JsonView::Bool(b),
            None => !(value_contents(*value) is Bool),
        },
{
    value.as_bool()
}

/// Calls `serde_json::Value::as_number` and writes the number out by its
/// `Display`: the numeral of a tree that holds a number, and `None` for a
/// tree that holds anything else.
#[verifier::external_body]
fn value_number_text(value: &serde_json::Value) -> (r: Option<String>)
    ensures
        match r {
            Some(numeral) => value_contents(*value) == JsonView::Number(numeral@),
            None => !(value_contents(*value) is Number),
        },
{
    value.as_number().map(|number| number.to_string())
}

/// Calls `serde_json::Value::as_str`: the text of a tree that holds a
/// string, and `None` for a tree that holds anything else.
#[verifier::external_body]
fn value_as_str(value: &serde_json::Value) -> (r: Option<&str>)
    ensures
        match r {
            Some(text) => value_contents(*value) == JsonView::Str(text@),
            None => !(value_contents(*value) is Str),
        },
{
    value.as_str()
}

/// The members that a sequence of keys and trees stands for, one by one.
pub open spec fn members_contents(members: Seq<(&String, &serde_json::Value)>) -> Seq<
    (Seq<char>, JsonView),
> {
    Seq::new(members.len(), |i: int| (members[i].0@, value_contents(*members[i].1)))
}

/// Calls `serde_json::Value::as_object` and walks the map with its `iter`:
/// the members of a tree that holds an object, in the order in which the
/// map yields them, and `None` for a tree that holds anything else.
#[verifier::external_body]
fn value_members(value: &serde_json::Value) -> (r: Option<Vec<(&String, &serde_json::Value)>>)
    ensures
        match r {
            Some(members) => value_contents(*value) == JsonView::Object(
                members_contents(members@),
            ),
            None => !(value_contents(*value) is Object),
        },
{
    value.as_object().map(|members| members.iter().collect())
}

/// The lower-case hexadecimal digit of `d`, for `d` below sixteen.
pub open spec fn hex_digit(d: nat) -> char
    recommends
        d < 16,
{
    if d < 10 {
        crate::decimal::digit_char(d)
    } else if d == 10 {
        'a'
    } else if d == 11 {
        'b'
    } else if d == 12 {
        'c'
    } else if d == 13 {
        'd'
    } else if d == 14 {
        'e'
    } else {
        'f'
    }
}

/// What stands for the character `c` inside a JSON string literal. The
/// quote and the backslash get a backslash in front. The control
/// characters below U+0020 are written as `\b`, `\t`, `\n`, `\f` and `\r`
/// where JSON has such a short form, and as `\u00` with two hexadecimal
/// digits otherwise. Every other character stands for itself.
pub open spec fn escaped_char(c: char) -> Seq<char> {
    if c == '"' {
        seq!['\\', '"']
    } else if c == '\\' {
        seq!['\\', '\\']
    } else if c == '\u{8}' {
        seq!['\\', 'b']
    } else if c == '\t' {
        seq!['\\', 't']
    } else if c == '\n' {
        seq!['\\', 'n']
    } else if c == '\u{c}' {
        seq!['\\', 'f']
    } else if c == '\r' {
        seq!['\\', 'r']
    } else if (c as u32) < 0x20 {
        seq![
            '\\',
            'u',
            '0',
            '0',
            hex_digit((c as u32 / 16) as nat),
            hex_digit((c as u32 % 16) as nat),
        ]
    } else {
        seq![c]
    }
}

/// The characters of `text`, each as it stands inside a JSON string
/// literal.
pub open spec fn escaped_text(text: Seq<char>) -> Seq<char>
    decreases text.len(),
{
    if text.len() == 0 {
        Seq::empty()
    } else {
        escaped_text(text.drop_last()) + escaped_char(text.last())
    }
}

/// The JSON string literal of the text `text`: its characters as they
/// stand inside a literal, between two quotes.
pub open spec fn json_string_text(text: Seq<char>) -> Seq<char> {
    seq!['"'] + escaped_text(text) + seq!['"']
}

/// Calls `serde_json::to_string` on a `str`. The call succeeds: it writes
/// into a vector, and a `str` has neither a serializer of its own that
/// could fail nor a map key. What it writes is the literal that
/// [`json_string_text`] states: a quote, the text with the escapes of the
/// crate's table, and a quote.
#[verifier::external_body]
fn str_to_json_text(text: &str) -> (r: Result<String, serde_json::Error>)
    ensures
        match r {
            Ok(literal) => literal@ == json_string_text(text@),
            Err(_) => false,
        },
{
    serde_json::to_string(text)
}

/// The documents that a sequence of `serde_json::Value` holds, one by one.
pub open spec fn values_contents(values: Seq<serde_json::Value>) -> Seq<JsonView> {
    Seq::new(values.len(), |i: int| value_contents(values[i]))
}

/// Calls `serde_json::Value::as_array`: the items of a tree that holds an
/// array, and `None` for a tree that holds anything else.
#[verifier::external_body]
pub(crate) fn value_as_array(value: &serde_json::Value) -> (r: Option<&Vec<serde_json::Value>>)
    ensures
        match r {
            Some(items) => value_contents(*value) == JsonView::Array(values_contents(items@)),
            None => !(value_contents(*value) is Array),
        },
{
    value.as_array()
}

/// Builds the `serde_json::Value` that holds the array of `items`, by its
/// variant `Array`.
#[verifier::external_body]
pub(crate) fn value_array(items: Vec<serde_json::Value>) -> (r: serde_json::Value)
    ensures
        value_contents(r) == JsonView::Array(values_contents(items@)),
{
    serde_json::Value::Array(items)
}

/// The indented text that `serde_json::to_string_pretty` writes for the
/// document `document`.
pub uninterp spec fn json_pretty(document: JsonView) -> Seq<char>;

/// Calls `serde_json::to_string_pretty` on a `serde_json::Value`. The call
/// succeeds: it writes into a vector, the keys of an object are strings,
/// and the serializer of a `Value` fails only where the writer does. What
/// it writes is the text that [`json_pretty`] names for the document that
/// the tree holds.
#[verifier::external_body]
pub(crate) fn value_to_pretty_text(value: &serde_json::Value) -> (r: Result<
    String,
    serde_json::Error,
>)
    ensures
        match r {
            Ok(text) => text@ == json_pretty(value_contents(*value)),
            Err(_) => false,
        },
{
    serde_json::to_string_pretty(value)
}

/// Calls the `Display` of a `serde_json::Error` for its message. Nothing is
/// claimed of the text.
#[verifier::external_body]
pub(crate) fn json_error_text(error: &serde_json::Error) -> (r: String) {
    error.to_string()
}

/// The value of the first of `members` whose key is `key`.
pub open spec fn member_value(members: Seq<(Seq<char>, JsonView)>, key: Seq<char>) -> Option<
    JsonView,
>
    decreases members.len(),
{
    if members.len() == 0 {
        None
    } else if members[0].0 == key {
        Some(members[0].1)
    } else {
        member_value(members.skip(1), key)
    }
}

impl JsonView {
    /// The member `key` of an object; `None` for a document that is no
    /// object or has no such member.
    pub open spec fn get(self, key: Seq<char>) -> Option<JsonView> {
        match self {
            JsonView::Object(members) => member_value(members, key),
            _ => None,
        }
    }

    /// The text of a string.
    pub open spec fn as_str(self) -> Option<Seq<char>> {
        match self {
            JsonView::Str(text) => Some(text),
            _ => None,
        }
    }

    /// The items of an array.
    pub open spec fn as_array(self) -> Option<Seq<JsonView>> {
        match self {
            JsonView::Array(items) => Some(items),
            _ => None,
        }
    }

    /// The text of the string that is member `key` of an object.
    pub open spec fn get_str(self, key: Seq<char>) -> Option<Seq<char>> {
        match self.get(key) {
            Some(value) => value.as_str(),
            None => None,
        }
    }
}

/// The members of an object's view are the views of its members.
pub proof fn lemma_object_view(json: Json)
    requires
        json is Object,
    ensures
        json@ is Object,
        json@->Object_0.len() == json->Object_0.len(),
        forall|j: int|
            0 <= j < json->Object_0.len() ==> #[trigger] json@->Object_0[j] == (
                json->Object_0[j].0@,
                json->Object_0[j].1@,
            ),
{
    let members = json->Object_0;
    let all = json@->Object_0;
    assert(all.len() == members.len());
    assert forall|j: int| 0 <= j < members.len() implies #[trigger] all[j] == (
        members[j].0@,
        members[j].1@,
    ) by {
        assert(all[j] == member_view(members[j]));
    }
}

/// The items of an array's view are the views of its items.
pub proof fn lemma_array_view(json: Json)
    requires
        json is Array,
    ensures
        json@ == JsonView::Array(items_view(json->Array_0@)),
{
    assert(json@->Array_0 =~= items_view(json->Array_0@));
}

/// Whether two texts hold the same characters.
pub fn str_eq(a: &str, b: &str) -> (r: bool)
    ensures
        r == (a@ == b@),
{
    let x = a.as_bytes();
    let y = b.as_bytes();
    proof {
        vstd::utf8::encode_utf8_decode_utf8(a@);
        vstd::utf8::encode_utf8_decode_utf8(b@);
    }
    if x.len() != y.len() {
        return false;
    }
    let mut i: usize = 0;
    while i < x.len()
        invariant
            i <= x.len(),
            x.len() == y.len(),
            (a@ == b@) <==> (x@ == y@),
            forall|j: int| 0 <= j < i ==> x@[j] == y@[j],
        decreases x.len() - i,
    {
        if x[i] != y[i] {
            return false;
        }
        i = i + 1;
    }
    assert(x@ =~= y@);
    true
}

/// Copies the document that a tree holds into a [`Json`].
pub(crate) fn json_from_value(value: &serde_json::Value) -> (r: Json)
    ensures
        r@ == value_contents(*value),
    decreases value_contents(*value),
{
    if let Some(b) = value_as_bool(value) {
        return Json::Bool(b);
    }
    if let Some(numeral) = value_number_text(value) {
        return Json::Number(numeral);
    }
    if let Some(text) = value_as_str(value) {
        return Json::Str(String::from_str(text));
    }
    if let Some(list) = value_as_array(value) {
        let mut items: Vec<Json> = Vec::new();
        let mut i: usize = 0;
        while i < list.len()
            invariant
                i <= list.len(),
                value_contents(*value) == JsonView::Array(values_contents(list@)),
                items.len() == i,
                forall|j: int| 0 <= j < i ==> (#[trigger] items[j])@ == value_contents(list[j]),
            decreases list.len() - i,
        {
            proof {
                let whole = value_contents(*value);
                assert(whole->Array_0[i as int] == value_contents(list[i as int]));
                assert(decreases_to!(whole => whole->Array_0));
                assert(decreases_to!(whole->Array_0 => whole->Array_0[i as int]));
            }
            let item = json_from_value(&list[i]);
            items.push(item);
            i = i + 1;
        }
        let r = Json::Array(items);
        proof {
            lemma_array_view(r);
            assert(items_view(items@) =~= values_contents(list@));
        }
        return r;
    }
    if let Some(list) = value_members(value) {
        let mut members: Vec<(String, Json)> = Vec::new();
        let mut i: usize = 0;
        while i < list.len()
            invariant
                i <= list.len(),
                value_contents(*value) == JsonView::Object(members_contents(list@)),
                members.len() == i,
                forall|j: int|
                    0 <= j < i ==> member_view(#[trigger] members[j]) == members_contents(
                        list@,
                    )[j],
            decreases list.len() - i,
        {
            let key = list[i].0.clone();
            proof {
                let whole = value_contents(*value);
                assert(whole->Object_0[i as int].1 == value_contents(*list[i as int].1));
                assert(decreases_to!(whole => whole->Object_0));
                assert(decreases_to!(whole->Object_0 => whole->Object_0[i as int]));
                assert(decreases_to!(whole->Object_0[i as int] => whole->Object_0[i as int].1));
            }
            let member = json_from_value(list[i].1);
            members.push((key, member));
            i = i + 1;
        }
        let r = Json::Object(members);
        proof {
            lemma_object_view(r);
            assert(r@->Object_0 =~= members_contents(list@));
        }
        return r;
    }
    Json::Null
}

/// The documents that the lines `lines` hold, in the lines' order. A line
/// that is no JSON holds none.
pub open spec fn lines_documents(lines: Seq<String>) -> Seq<JsonView>
    decreases lines.len(),
{
    if lines.len() == 0 {
        Seq::empty()
    } else {
        let before = lines_documents(lines.drop_last());
        match json_text_value(encode_utf8(lines.last()@)) {
            Some(document) => before.push(document),
            None => before,
        }
    }
}

/// Writes the text `text` as a JSON string literal.
pub fn quote(text: &str) -> (r: String)
    ensures
        r@ == json_string_text(text@),
{
    match str_to_json_text(text) {
        Ok(literal) => literal,
        Err(_) => {
            // The call does not fail: this arm is never taken.
            assert(false);
            String::new()
        },
    }
}

/// A character as it stands inside a JSON string literal holds no line
/// feed.
pub proof fn lemma_escaped_char_is_on_one_line(c: char)
    ensures
        forall|i: int| 0 <= i < escaped_char(c).len() ==> escaped_char(c)[i] != '\n',
{
}

/// A JSON string literal holds no line feed, whatever the text holds.
pub proof fn lemma_literal_is_on_one_line(text: Seq<char>)
    ensures
        forall|i: int| 0 <= i < json_string_text(text).len() ==> json_string_text(text)[i] != '\n',
{
    lemma_escaped_text_is_on_one_line(text);
}

/// The characters of a text as they stand inside a literal hold no line
/// feed.
pub proof fn lemma_escaped_text_is_on_one_line(text: Seq<char>)
    ensures
        forall|i: int| 0 <= i < escaped_text(text).len() ==> escaped_text(text)[i] != '\n',
    decreases text.len(),
{
    if text.len() > 0 {
        lemma_escaped_text_is_on_one_line(text.drop_last());
        lemma_escaped_char_is_on_one_line(text.last());
        let before = escaped_text(text.drop_last());
        let last = escaped_char(text.last());
        assert forall|i: int| 0 <= i < escaped_text(text).len() implies escaped_text(text)[i]
            != '\n' by {
            if i < before.len() {
                assert(escaped_text(text)[i] == before[i]);
            } else {
                assert(escaped_text(text)[i] == last[i - before.len()]);
            }
        }
    }
}

/// Writes the documents that `lines` hold as one indented JSON array. The
/// lines that are no JSON are passed over.
pub fn pretty_array_of_lines(lines: &Vec<String>) -> (r: String)
    ensures
        r@ == json_pretty(JsonView::Array(lines_documents(lines@))),
{
    let mut values: Vec<serde_json::Value> = Vec::new();
    let mut i: usize = 0;
    while i < lines.len()
        invariant
            i <= lines.len(),
            values_contents(values@) == lines_documents(lines@.take(i as int)),
        decreases lines.len() - i,
    {
        proof {
            assert(lines@.take(i + 1).drop_last() =~= lines@.take(i as int));
            assert(lines@.take(i + 1).last() == lines[i as int]);
        }
        let ghost before = values@;
        match value_from_slice(lines[i].as_str().as_bytes()) {
            Ok(value) => {
                values.push(value);
                assert(values_contents(values@) =~= values_contents(before).push(
                    value_contents(value),
                ));
            },
            Err(_) => {},
        }
        i = i + 1;
    }
    proof {
        assert(lines@.take(lines.len() as int) =~= lines@);
    }
    let array = value_array(values);
    match value_to_pretty_text(&array) {
        Ok(text) => text,
        Err(_) => {
            // The call does not fail: this arm is never taken.
            assert(false);
            String::new()
        },
    }
}

impl Json {
    /// The member `key` of an object.
    pub fn get(&self, key: &str) -> (r: Option<&Json>)
        ensures
            match r {
                Some(value) => self@.get(key@) == Some(value@),
                None => self@.get(key@) is None,
            },
    {
        match self {
            Json::Object(members) => {
                let ghost all = self@->Object_0;
                proof {
                    lemma_object_view(*self);
                    assert(all.skip(0) =~= all);
                }
                let mut i: usize = 0;
                while i < members.len()
                    invariant
                        i <= members.len(),
                        self@ == JsonView::Object(all),
                        all.len() == members.len(),
                        forall|j: int|
                            0 <= j < members.len() ==> #[trigger] all[j] == (
                                members[j].0@,
                                members[j].1@,
                            ),
                        member_value(all, key@) == member_value(all.skip(i as int), key@),
                    decreases members.len() - i,
                {
                    proof {
                        assert(all.skip(i as int)[0] == all[i as int]);
                        assert(all.skip(i as int).skip(1) =~= all.skip(i + 1));
                    }
                    if str_eq(members[i].0.as_str(), key) {
                        return Some(&members[i].1);
                    }
                    i = i + 1;
                }
                None
            },
            _ => None,
        }
    }

    /// The text of a string.
    pub fn as_str(&self) -> (r: Option<&str>)
        ensures
            match r {
                Some(text) => self@.as_str() == Some(text@),
                None => self@.as_str() is None,
            },
    {
        match self {
            Json::Str(text) => Some(text.as_str()),
            _ => None,
        }
    }

    /// The items of an array.
    pub fn as_array(&self) -> (r: Option<&Vec<Json>>)
        ensures
            match r {
                Some(items) => self@.as_array() == Some(items_view(items@)),
                None => self@.as_array() is None,
            },
    {
        match self {
            Json::Array(items) => {
                proof {
                    lemma_array_view(*self);
                }
                Some(items)
            },
            _ => None,
        }
    }

    /// The text of the string that is member `key` of an object.
    pub fn get_str(&self, key: &str) -> (r: Option<&str>)
        ensures
            match r {
                Some(text) => self@.get_str(key@) == Some(text@),
                None => self@.get_str(key@) is None,
            },
    {
        match self.get(key) {
            Some(value) => value.as_str(),
            None => None,
        }
    }

    /// Reads a JSON document from `text`.
    pub fn parse(text: &[u8]) -> (r: Result<Json, String>)
        ensures
            match r {
                Ok(json) => json_text_value(text@) == Some(json@),
                Err(_) => json_text_value(text@) is None,
            },
    {
        match value_from_slice(text) {
            Ok(value) => Ok(json_from_value(&value)),
            Err(error) => Err(json_error_text(&error)),
        }
    }
}

} // verus!
