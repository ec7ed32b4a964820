//! Notifications: those that the notification module prints, and how they
//! are shown.
use vstd::prelude::*;
use vstd::string::*;

use crate::outside::{json_document, json_parse, json_string, string_member, JsonModel};
use crate::text::{chars_of, law_lines, lemma_prefix_len_unique, lines, starts_with, strip_cr};

verus! {

/// A notification.
#[derive(Debug)]
pub struct Notification {
    pub title: String,
    pub message: String,
}

/// A notification as contracts speak of it.
pub open spec fn notification_model(n: Option<Notification>) -> Option<(Seq<char>, Seq<char>)> {
    match n {
        Some(n) => Some((n.title@, n.message@)),
        None => None,
    }
}

/// An optional text as contracts speak of it.
pub open spec fn opt_text(s: Option<String>) -> Option<Seq<char>> {
    match s {
        Some(s) => Some(s@),
        None => None,
    }
}

/// The notification with a title and a message, if there are both.
pub open spec fn both(title: Option<Seq<char>>, message: Option<Seq<char>>) -> Option<
    (Seq<char>, Seq<char>),
> {
    match (title, message) {
        (Some(t), Some(m)) => Some((t, m)),
        _ => None,
    }
}

/// The notification in a line of output: a JSON document that starts with
/// the line and whose title and message are strings.
pub open spec fn notification_in(line: Seq<char>) -> Option<(Seq<char>, Seq<char>)> {
    if !"{"@.is_prefix_of(line) {
        None
    } else {
        match json_document(line) {
            Some((content, _)) => both(
                string_member(content, "title"@),
                string_member(content, "message"@),
            ),
            None => None,
        }
    }
}

/// The notification with a title and a message, if there are both.
pub fn notification_from(title: Option<String>, message: Option<String>) -> (r: Option<
    Notification,
>)
    ensures
        notification_model(r) == both(opt_text(title), opt_text(message)),
{
    match title {
        Some(title) => match message {
            Some(message) => Some(Notification { title, message }),
            None => None,
        },
        None => None,
    }
}

/// Reads a line that the notification module printed.
pub fn handle_notify_output_line(line: &str) -> (r: Option<Notification>)
    ensures
        notification_model(r) == notification_in(line@),
{
    if !starts_with(line, "{") {
        return None;
    }
    match json_parse(line) {
        Some(document) => notification_from(
            json_string(&document, "title"),
            json_string(&document, "message"),
        ),
        None => None,
    }
}

/// The first line of a text, or nothing of an empty one.
pub open spec fn first_line(s: Seq<char>) -> Seq<char> {
    if lines(s).len() > 0 {
        lines(s)[0]
    } else {
        Seq::empty()
    }
}

/// The first line of a text.
pub fn first_line_text(s: &str) -> (r: &str)
    ensures
        r@ == first_line(s@),
{
    let v: Vec<char> = chars_of(s);
    let ghost p = |c: char| c != '\n';
    let mut i: usize = 0;
    while i < v.len() && v[i] != '\n'
        invariant
            i <= v.len(),
            v@ == s@,
            p == (|c: char| c != '\n'),
            forall|j: int| 0 <= j < i ==> #[trigger] v@[j] != '\n',
        decreases v.len() - i,
    {
        i = i + 1;
    }
    proof {
        lemma_prefix_len_unique(s@, p, i as int);
    }
    if i == v.len() {
        assert(s@.subrange(0, i as int) =~= s@);
        assert(s@.len() == 0 ==> s@ =~= Seq::empty());
        return s.substring_char(0, i);
    }
    let end: usize = if i > 0 && v[i - 1] == '\r' {
        i - 1
    } else {
        i
    };
    assert(s@.subrange(0, end as int) =~= strip_cr(s@.take(i as int)));
    s.substring_char(0, end)
}

/// A notification to show.
#[derive(Debug)]
pub struct NotificationRequest {
    pub title: String,
    pub body: String,
    /// What the log says of the body.
    pub preview: String,
}

/// Decides on showing a notification: nothing is shown while the application
/// cannot be reached.
pub fn send_notification(reachable: bool, title: &str, message: &str) -> (r: Option<
    NotificationRequest,
>)
    ensures
        match r {
            Some(n) => {
                &&& reachable
                &&& n.title@ == title@
                &&& n.body@ == message@
                &&& n.preview@ == first_line(message@)
            },
            None => !reachable,
        },
        match r {
            Some(n) => shown(reachable, title@, message@) == Some(
                (n.title@, n.body@, n.preview@),
            ),
            None => shown(reachable, title@, message@) is None,
        },
{
    if !reachable {
        return None;
    }
    Some(
        NotificationRequest {
            title: title.to_owned(),
            body: message.to_owned(),
            preview: first_line_text(message).to_owned(),
        },
    )
}

/// A line is a notification exactly if it starts with a brace and is read as an
/// object whose title and message are strings; these are what it shows.
pub proof fn law_notification(line: Seq<char>, title: Seq<char>, message: Seq<char>)
    ensures
        notification_in(line) == Some((title, message)) <==> {
            &&& line.len() > 0 && line[0] == '{'
            &&& json_document(line) matches Some((content, _))
            &&& content matches JsonModel::Object(members)
            &&& members.contains_key("title"@) && members["title"@] == JsonModel::Text(title)
            &&& members.contains_key("message"@) && members["message"@] == JsonModel::Text(message)
        },
{
    lemma_brace(line);
}

/// A text starts with a brace exactly if its first character is one.
pub proof fn lemma_brace(s: Seq<char>)
    ensures
        "{"@.is_prefix_of(s) <==> s.len() > 0 && s[0] == '{',
{
    reveal_strlit("{");
    if s.len() > 0 && s[0] == '{' {
        assert(s.subrange(0, 1) =~= "{"@);
    }
    if "{"@.is_prefix_of(s) {
        assert(s.subrange(0, 1) == "{"@);
        assert(s[0] == s.subrange(0, 1)[0]);
    }
}

/// The first line of a text is what stands before its first line feed, without
/// a carriage return there, or the whole text if there is no line feed.
pub proof fn law_first_line(line: Seq<char>, rest: Seq<char>)
    requires
        !line.contains('\n'),
    ensures
        first_line(line.push('\n') + rest) == strip_cr(line),
        first_line(line) == line,
{
    law_lines(line, rest);
    if line.len() == 0 {
        assert(line =~= Seq::empty());
    }
}

/// A notification stands as its title and its message, a text as itself.
pub proof fn law_notification_views(n: Notification, s: String)
    ensures
        notification_model(Some(n)) == Some((n.title@, n.message@)),
        notification_model(None) is None,
        opt_text(Some(s)) == Some(s@),
        opt_text(None) is None,
{
}

/// There is a notification exactly where there are a title and a message.
pub proof fn law_both(title: Seq<char>, message: Seq<char>)
    ensures
        both(Some(title), Some(message)) == Some((title, message)),
        both(None, Some(message)) is None,
        both(Some(title), None) is None,
        both(None, None) is None,
{
}

/// What is shown of a notification, and its preview in the log.
pub open spec fn shown(reachable: bool, title: Seq<char>, message: Seq<char>) -> Option<
    (Seq<char>, Seq<char>, Seq<char>),
> {
    if reachable {
        Some((title, message, first_line(message)))
    } else {
        None
    }
}

/// A notification is shown whole whenever the application can be reached, with
/// the first line of its message as the preview, and never otherwise.
pub proof fn law_notification_shown(title: Seq<char>, line: Seq<char>, rest: Seq<char>)
    requires
        !line.contains('\n'),
    ensures
        shown(true, title, line) == Some((title, line, line)),
        shown(true, title, line.push('\n') + rest) == Some(
            (title, line.push('\n') + rest, strip_cr(line)),
        ),
        shown(false, title, line) is None,
{
    law_first_line(line, rest);
}

} // verus!
