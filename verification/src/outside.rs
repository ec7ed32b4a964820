//! What the manager takes from outside: the text of raw bytes, shell words
//! and JSON. Each contract here states what the called function does and is
//! not proved.
use vstd::prelude::*;
use vstd::utf8::{decode_utf8, is_ascii_chars, valid_utf8};

use crate::text::{prefix_len, texts};

verus! {

/// The text that `String::from_utf8_lossy` reads from `bytes`.
pub uninterp spec fn lossy_text(bytes: Seq<u8>) -> Seq<char>;

/// Calls `String::from_utf8_lossy`. The text depends on the bytes alone, and
/// bytes that are valid UTF-8 are read as the text that they encode. Which
/// replacement characters stand for invalid bytes is left unsaid.
#[verifier::external_body]
pub(crate) fn text_from_bytes(bytes: &Vec<u8>) -> (r: String)
    ensures
        r@ == lossy_text(bytes@),
        valid_utf8(bytes@) ==> r@ == decode_utf8(bytes@),
{
    String::from_utf8_lossy(bytes).into_owned()
}

/// Calls `std::str::from_utf8`: the text that the bytes encode if they are
/// valid UTF-8, and nothing otherwise.
#[verifier::external_body]
pub(crate) fn utf8_text(bytes: &Vec<u8>) -> (r: Option<String>)
    ensures
        match r {
            Some(s) => valid_utf8(bytes@) && s@ == decode_utf8(bytes@),
            None => !valid_utf8(bytes@),
        },
{
    std::str::from_utf8(bytes).ok().map(String::from)
}

/// The lower case of an ASCII letter; any other character unchanged.
pub open spec fn ascii_lower(c: char) -> char {
    if 'A' <= c <= 'Z' {
        (c as int + 32) as char
    } else {
        c
    }
}

/// The text that `str::to_lowercase` returns for `s`.
pub uninterp spec fn lowercase(s: Seq<char>) -> Seq<char>;

/// Calls `str::to_lowercase`. The result depends on the text alone; of an
/// ASCII text every letter is lowered and the rest kept.
#[verifier::external_body]
pub(crate) fn lowercase_text(s: &str) -> (r: String)
    ensures
        r@ == lowercase(s@),
        is_ascii_chars(s@) ==> r@ == s@.map_values(|c: char| ascii_lower(c)),
{
    s.to_lowercase()
}

/// Whether a character separates shell words.
pub open spec fn is_shell_blank(c: char) -> bool {
    c == ' ' || c == '\t' || c == '\n'
}

/// Whether no character of `s` quotes, escapes or starts a comment.
pub open spec fn is_shell_plain(s: Seq<char>) -> bool {
    forall|i: int|
        0 <= i < s.len() ==> #[trigger] s[i] != '\'' && s[i] != '"' && s[i] != '\\' && s[i] != '#'
}

/// The words of `s` between blanks.
pub open spec fn blank_words(s: Seq<char>) -> Seq<Seq<char>>
    decreases s.len(),
{
    let t = s.skip(prefix_len(s, |c: char| is_shell_blank(c)) as int);
    let n = prefix_len(t, |c: char| !is_shell_blank(c));
    if 0 < n <= t.len() && t.len() <= s.len() {
        seq![t.take(n as int)] + blank_words(t.skip(n as int))
    } else {
        Seq::empty()
    }
}

/// The words that `shell_words::split` finds in `s`, or nothing where it
/// returns an error.
pub uninterp spec fn shell_split(s: Seq<char>) -> Option<Seq<Seq<char>>>;

/// Calls `shell_words::split`. The result depends on the text alone; a text
/// without quotes, backslashes and number signs is split at its blanks. How
/// the others are split, and which of them is an error, is left unsaid.
#[verifier::external_body]
pub(crate) fn shell_words_of(s: &str) -> (r: Option<Vec<String>>)
    ensures
        match r {
            Some(words) => shell_split(s@) == Some(texts(words@)),
            None => shell_split(s@) is None,
        },
        is_shell_plain(s@) ==> r is Some && texts(r->0@) == blank_words(s@),
{
    shell_words::split(s).ok()
}

/// A JSON document.
#[verifier::external_type_specification]
#[verifier::external_body]
pub struct ExValue(serde_json::Value);

/// What a JSON document holds. Of a number that is not held as an integer the
/// value is left out.
pub enum JsonModel {
    Null,
    Bool(bool),
    Integer(int),
    Real,
    Text(Seq<char>),
    List(Seq<JsonModel>),
    Object(Map<Seq<char>, JsonModel>),
}

/// What a JSON document holds.
pub uninterp spec fn json_content(v: serde_json::Value) -> JsonModel;

/// What `serde_json::to_string` returns for a document: its text, or the
/// message of the error.
pub uninterp spec fn json_rendering(v: serde_json::Value) -> Result<Seq<char>, Seq<char>>;

/// The document that `serde_json::from_str` reads from `s`, as what it holds
/// and its rendering, or nothing where it returns an error.
pub uninterp spec fn json_document(s: Seq<char>) -> Option<
    (JsonModel, Result<Seq<char>, Seq<char>>),
>;

/// Calls `serde_json::from_str`. Whether the text is read, and what the
/// document holds, depends on the text alone. The grammar is left unsaid.
#[verifier::external_body]
pub(crate) fn json_parse(s: &str) -> (r: Option<serde_json::Value>)
    ensures
        match r {
            Some(v) => json_document(s@) == Some((json_content(v), json_rendering(v))),
            None => json_document(s@) is None,
        },
{
    serde_json::from_str(s).ok()
}

/// The string under `key` in an object, if there is one.
pub open spec fn string_member(c: JsonModel, key: Seq<char>) -> Option<Seq<char>> {
    match c {
        JsonModel::Object(members) => if members.contains_key(key) {
            match members[key] {
                JsonModel::Text(s) => Some(s),
                _ => None,
            }
        } else {
            None
        },
        _ => None,
    }
}

/// Calls `serde_json::Value::get` and, on the member it finds,
/// `serde_json::Value::as_str`: the string under `key` in an object, and
/// nothing where there is no such member or it is no string.
#[verifier::external_body]
pub(crate) fn json_string(v: &serde_json::Value, key: &str) -> (r: Option<String>)
    ensures
        match r {
            Some(s) => string_member(json_content(*v), key@) == Some(s@),
            None => string_member(json_content(*v), key@) is None,
        },
{
    v.get(key).and_then(|m| m.as_str()).map(String::from)
}

/// How many lists and objects `serde_json::from_str` reads inside each other.
pub const JSON_LEVELS: u8 = 127;

/// Whether serde_json keeps a key for itself: it reads an object that starts
/// with such a key as something else.
pub open spec fn is_private_key(key: Seq<char>) -> bool {
    key == "$serde_json::private::RawValue"@ || key == "$serde_json::private::Number"@
}

/// Whether a document has at most `levels` lists and objects inside each
/// other, no key that serde_json keeps for itself, and, unless `reals`, no
/// number that is not held as an integer.
pub open spec fn is_plain_json(c: JsonModel, levels: nat, reals: bool) -> bool
    decreases levels,
{
    match c {
        JsonModel::Real => reals,
        JsonModel::List(items) => levels > 0 && forall|i: int|
            0 <= i < items.len() ==> is_plain_json(
                #[trigger] items[i],
                (levels - 1) as nat,
                reals,
            ),
        JsonModel::Object(members) => levels > 0 && forall|key: Seq<char>| #[trigger]
            members.contains_key(key) ==> !is_private_key(key) && is_plain_json(
                members[key],
                (levels - 1) as nat,
                reals,
            ),
        _ => true,
    }
}

/// Whether `s`, if it can be read at all, is read as a document that holds `c`.
pub open spec fn reads_at_most_as(s: Seq<char>, c: JsonModel) -> bool {
    match json_document(s) {
        Some((content, _)) => content == c,
        None => true,
    }
}

/// Calls `serde_json::to_string`. The text depends on the document alone and
/// holds no line feed and no carriage return: the compact form puts none
/// between tokens and escapes those inside strings. Of a document whose
/// numbers are held as integers, whose nesting `serde_json::from_str` takes, and which
/// has no key that serde_json keeps for itself, the text is read back as the
/// same document. If there are other numbers, too, then the text, if it can be
/// read, is read as a document that holds the same but for their values. What
/// is read from the text of any other document is left unsaid. An error is
/// handed on as its message.
#[verifier::external_body]
pub(crate) fn json_text(v: &serde_json::Value) -> (r: Result<String, String>)
    ensures
        match r {
            Ok(s) => {
                &&& json_rendering(*v) == Ok::<Seq<char>, Seq<char>>(s@)
                &&& !s@.contains('\n')
                &&& !s@.contains('\r')
                &&& is_plain_json(json_content(*v), JSON_LEVELS as nat, false) ==> json_document(s@)
                    == Some((json_content(*v), json_rendering(*v)))
                &&& is_plain_json(json_content(*v), JSON_LEVELS as nat, true) ==> reads_at_most_as(
                    s@,
                    json_content(*v),
                )
            },
            Err(e) => json_rendering(*v) == Err::<Seq<char>, Seq<char>>(e@),
        },
{
    serde_json::to_string(v).map_err(|e| e.to_string())
}

} // verus!
