//! JSON values as the protocol and the cache file read them.
//!
//! Parsing and string quoting are `serde_json`'s work. What the parser reads
//! is held in a plain tree of this crate's own, and the rules that pick
//! fields out of a record work on that tree.

use vstd::prelude::*;
use crate::hexcode::hex_digits;
use crate::text::str_equal;

verus! {

#[verifier::external_type_specification]
#[verifier::external_body]
pub struct ExValue(serde_json::Value);

/// A JSON value.
///
/// A number carries its value as `i64`, where it is an integer that fits,
/// and its text as `serde_json` writes it. An object carries its members in
/// the order in which the parser hands them out.
#[derive(Debug)]
pub enum Json {
    Null,
    Bool(bool),
    Number(Option<i64>, String),
    Str(String),
    Array(Vec<Json>),
    Object(Vec<(String, Json)>),
}

/// The first member of `fields` under `key`, looking from position `from` on.
pub open spec fn find_member(fields: Seq<(String, Json)>, key: Seq<char>, from: int) -> Option<
    Json,
>
    decreases fields.len() - from,
{
    if from < 0 || from >= fields.len() {
        None
    } else if fields[from].0@ == key {
        Some(fields[from].1)
    } else {
        find_member(fields, key, from + 1)
    }
}

impl Json {
    /// The member of an object under `key`; `None` where the value is no
    /// object or has no such member.
    pub open spec fn member(self, key: Seq<char>) -> Option<Json> {
        match self {
            Json::Object(fields) => find_member(fields@, key, 0),
            _ => None,
        }
    }

    /// The text of a string value.
    pub open spec fn text(self) -> Option<Seq<char>> {
        match self {
            Json::Str(s) => Some(s@),
            _ => None,
        }
    }

    /// The value of a number that is an integer within `i64`.
    pub open spec fn integer(self) -> Option<i64> {
        match self {
            Json::Number(value, _) => value,
            _ => None,
        }
    }

    /// Looks a member of an object up by its key.
    pub fn get(&self, key: &str) -> (found: Option<&Json>)
        ensures
            match found {
                Some(value) => self.member(key@) == Some(*value),
                None => self.member(key@) is None,
            },
    {
        match self {
            Json::Object(fields) => {
                let mut i: usize = 0;
                while i < fields.len()
                    invariant
                        i <= fields.len(),
                        self.member(key@) == find_member(fields@, key@, i as int),
                    decreases fields.len() - i,
                {
                    if str_equal(fields[i].0.as_str(), key) {
                        assert(find_member(fields@, key@, i as int) == Some(fields@[i as int].1));
                        return Some(&fields[i].1);
                    }
                    i += 1;
                }
                None
            },
            _ => None,
        }
    }

    /// The text of a string value, `None` for any other value.
    pub fn as_str(&self) -> (found: Option<&str>)
        ensures
            match found {
                Some(s) => self.text() == Some(s@),
                None => self.text() is None,
            },
    {
        match self {
            Json::Str(s) => Some(s.as_str()),
            _ => None,
        }
    }

    /// The value of an integer that fits `i64`, `None` for any other value.
    pub fn as_i64(&self) -> (found: Option<i64>)
        ensures
            found == self.integer(),
    {
        match self {
            Json::Number(value, _) => *value,
            _ => None,
        }
    }
}

/// What parsing makes of a text: the value that `serde_json::from_str` reads
/// from it, carried over into a `Json` variant by variant, a number by what
/// `Number::as_i64` and its `Display` say of it. `None` where the parser
/// reports an error.
pub uninterp spec fn json_parse(text: Seq<char>) -> Option<Json>;

/// How one character stands inside a JSON string literal. A double quote and
/// a backslash get a backslash before them. A control character below the
/// space has its short escape, where JSON has one, and else its code as four
/// hexadecimal digits. Every other character stands for itself.
pub open spec fn json_escape(c: char) -> Seq<char> {
    let code = c as int;
    if code == 0x22 {
        seq!['\\', '"']
    } else if code == 0x5c {
        seq!['\\', '\\']
    } else if code == 0x08 {
        seq!['\\', 'b']
    } else if code == 0x09 {
        seq!['\\', 't']
    } else if code == 0x0a {
        seq!['\\', 'n']
    } else if code == 0x0c {
        seq!['\\', 'f']
    } else if code == 0x0d {
        seq!['\\', 'r']
    } else if code < 0x20 {
        seq!['\\', 'u', '0', '0', hex_digits()[code / 16], hex_digits()[code % 16]]
    } else {
        seq![c]
    }
}

/// A text with each of its characters as it stands inside a JSON string
/// literal.
pub open spec fn json_escaped(text: Seq<char>) -> Seq<char>
    decreases text.len(),
{
    if text.len() == 0 {
        Seq::empty()
    } else {
        json_escaped(text.drop_last()) + json_escape(text.last())
    }
}

/// The JSON string literal for a text: the escaped text between double
/// quotes.
pub open spec fn json_quote(text: Seq<char>) -> Seq<char> {
    seq!['"'] + json_escaped(text) + seq!['"']
}

/// Whether a text is free of line feeds.
pub open spec fn no_line_feed(text: Seq<char>) -> bool {
    forall|i: int| 0 <= i < text.len() ==> text[i] != '\n'
}

/// Whether a text is one line: it ends in a line feed and holds no other.
pub open spec fn one_line(text: Seq<char>) -> bool {
    text.len() > 0 && text.last() == '\n' && no_line_feed(text.drop_last())
}

/// A character inside a string literal never is a line feed.
pub proof fn lemma_escape_has_no_line_feed(c: char)
    ensures
        no_line_feed(json_escape(c)),
{
    let code = c as int;
    if 0 <= code < 0x20 {
        let high = hex_digits()[code / 16];
        let low = hex_digits()[code % 16];
        assert(high != '\n' && low != '\n') by {
            assert(forall|k: int| 0 <= k < 16 ==> hex_digits()[k] != '\n');
        }
    }
}

/// A string literal is free of line feeds, whatever the text holds.
pub proof fn lemma_quote_has_no_line_feed(text: Seq<char>)
    ensures
        no_line_feed(json_escaped(text)),
        no_line_feed(json_quote(text)),
    decreases text.len(),
{
    if text.len() > 0 {
        lemma_quote_has_no_line_feed(text.drop_last());
        lemma_escape_has_no_line_feed(text.last());
    }
}

/// The compact JSON text that `serde_json` writes for a value, as its
/// `Display` gives it.
pub uninterp spec fn value_text(value: serde_json::Value) -> Seq<char>;

/// Carries a `serde_json::Value` over into a `Json`, variant by variant. A
/// number gives what `Number::as_i64` and its `Display` say of it; an object
/// gives its members in the order of the map's iterator.
#[verifier::external_body]
fn json_of_value(value: serde_json::Value) -> Json {
    match value {
        serde_json::Value::Null => Json::Null,
        serde_json::Value::Bool(b) => Json::Bool(b),
        serde_json::Value::Number(n) => Json::Number(n.as_i64(), n.to_string()),
        serde_json::Value::String(s) => Json::Str(s),
        serde_json::Value::Array(items) => Json::Array(
            items.into_iter().map(json_of_value).collect(),
        ),
        serde_json::Value::Object(map) => Json::Object(
            map.into_iter().map(|(k, v)| (k, json_of_value(v))).collect(),
        ),
    }
}

/// `serde_json::from_str` for a `serde_json::Value`, carried over into a
/// `Json`. What it reads depends on the text alone, so the result has a name;
/// the outside error is dropped.
#[verifier::external_body]
pub(crate) fn parse_json(text: &str) -> (parsed: Option<Json>)
    ensures
        parsed == json_parse(text@),
{
    serde_json::from_str::<serde_json::Value>(text).ok().map(json_of_value)
}

/// `serde_json::to_string` on a `str`. It writes into a byte vector, which
/// takes whatever is written, so it always succeeds; the text is the JSON
/// string literal that `json_quote` spells out.
#[verifier::external_body]
pub(crate) fn quote_json(text: &str) -> (quoted: Result<String, serde_json::Error>)
    ensures
        quoted is Ok,
        quoted matches Ok(q) ==> q@ == json_quote(text@),
{
    serde_json::to_string(text)
}

/// `to_string` on a `serde_json::Value`, which goes through its `Display`:
/// the compact JSON text of the value. The text depends on the value alone,
/// so it has a name. The compact form puts no white space between tokens and
/// escapes every control character inside a string, so it holds no line feed.
#[verifier::external_body]
pub(crate) fn text_of_value(value: &serde_json::Value) -> (text: String)
    ensures
        text@ == value_text(*value),
        no_line_feed(text@),
{
    value.to_string()
}

} // verus!
