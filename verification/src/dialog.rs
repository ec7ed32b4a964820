//! The synchronisation module's side of the manager: the events it prints,
//! the commands it takes, and the dialog on idle time that both are about.
use vstd::prelude::*;
use vstd::string::*;

use crate::notify::{lemma_brace, opt_text};
use crate::outside::{
    is_plain_json, json_content, json_document, json_parse, json_rendering, json_string, json_text,
    reads_at_most_as, string_member, JsonModel, JSON_LEVELS,
};
use crate::text::{
    is_space, law_trim, lemma_prefix_len_unique, lines, same_text, starts_with, strip_cr, trim,
    trim_text,
};

verus! {

/// What an event asks for.
#[derive(Clone, Copy, Debug, PartialEq, Eq, Structural)]
pub enum OdooEvent {
    /// Showing the dialog, or bringing it up to date.
    Show,
    /// Closing the dialog.
    Close,
    /// Nothing that concerns the manager.
    Other,
}

/// What an event of a kind asks for.
pub open spec fn event_of(kind: Option<Seq<char>>) -> OdooEvent {
    match kind {
        Some(k) => if k == "aw-odoo-sync.idle-dialog.show"@ || k
            == "aw-odoo-sync.idle-dialog.update"@ {
            OdooEvent::Show
        } else if k == "aw-odoo-sync.idle-dialog.closed"@ {
            OdooEvent::Close
        } else {
            OdooEvent::Other
        },
        None => OdooEvent::Other,
    }
}

/// Tells what an event of a kind asks for.
pub fn odoo_event(kind: &Option<String>) -> (r: OdooEvent)
    ensures
        r == event_of(opt_text(*kind)),
{
    match kind {
        Some(k) => if same_text(k.as_str(), "aw-odoo-sync.idle-dialog.show") || same_text(
            k.as_str(),
            "aw-odoo-sync.idle-dialog.update",
        ) {
            OdooEvent::Show
        } else if same_text(k.as_str(), "aw-odoo-sync.idle-dialog.closed") {
            OdooEvent::Close
        } else {
            OdooEvent::Other
        },
        None => OdooEvent::Other,
    }
}

/// What a line of output leads to.
#[derive(Debug)]
pub enum OdooAction {
    Ignore,
    /// The dialog is shown with this document.
    ShowDialog(serde_json::Value),
    CloseDialog,
}

/// What a line of output leads to, as contracts speak of it: a document
/// stands as what it holds and its rendering.
pub enum OdooModel {
    Ignore,
    ShowDialog(JsonModel, Result<Seq<char>, Seq<char>>),
    CloseDialog,
}

impl View for OdooAction {
    type V = OdooModel;

    open spec fn view(&self) -> OdooModel {
        match *self {
            OdooAction::Ignore => OdooModel::Ignore,
            OdooAction::ShowDialog(v) => OdooModel::ShowDialog(json_content(v), json_rendering(v)),
            OdooAction::CloseDialog => OdooModel::CloseDialog,
        }
    }
}

/// What a line of output leads to. White space around it is of no account;
/// a line that is not a JSON document in braces is ignored.
pub open spec fn odoo_action(line: Seq<char>) -> OdooModel {
    let text = trim(line);
    if !"{"@.is_prefix_of(text) {
        OdooModel::Ignore
    } else {
        match json_document(text) {
            Some((content, rendering)) => match event_of(string_member(content, "kind"@)) {
                OdooEvent::Show => OdooModel::ShowDialog(content, rendering),
                OdooEvent::Close => OdooModel::CloseDialog,
                OdooEvent::Other => OdooModel::Ignore,
            },
            None => OdooModel::Ignore,
        }
    }
}

/// Reads a line that the synchronisation module printed.
pub fn handle_odoo_sync_output_line(line: &str) -> (r: OdooAction)
    ensures
        r@ == odoo_action(line@),
{
    let trimmed = trim_text(line);
    if !starts_with(trimmed, "{") {
        return OdooAction::Ignore;
    }
    match json_parse(trimmed) {
        Some(payload) => {
            let kind: Option<String> = json_string(&payload, "kind");
            match odoo_event(&kind) {
                OdooEvent::Show => OdooAction::ShowDialog(payload),
                OdooEvent::Close => OdooAction::CloseDialog,
                OdooEvent::Other => OdooAction::Ignore,
            }
        },
        None => OdooAction::Ignore,
    }
}

/// The pipe to the synchronisation module.
#[derive(Clone, Copy, Debug, PartialEq, Eq, Structural)]
pub enum CommandPipe {
    /// It could not be locked.
    Unavailable,
    /// There is none: the module does not run.
    Absent,
    Open,
}

/// What is written for a command, the rendering of its document being given,
/// or why nothing is.
pub open spec fn command_line_of(
    pipe: CommandPipe,
    rendering: Result<Seq<char>, Seq<char>>,
) -> Result<Seq<char>, Seq<char>> {
    match pipe {
        CommandPipe::Unavailable => Err("Failed to lock aw-odoo-sync stdin"@),
        CommandPipe::Absent => Err("aw-odoo-sync is not running or has no command pipe"@),
        CommandPipe::Open => match rendering {
            Ok(text) => Ok(text.push('\n')),
            Err(e) => Err("Failed to serialize aw-odoo-sync command: "@ + e),
        },
    }
}

/// A result with texts as contracts speak of it.
pub open spec fn result_texts(r: Result<String, String>) -> Result<Seq<char>, Seq<char>> {
    match r {
        Ok(s) => Ok(s@),
        Err(e) => Err(e@),
    }
}

/// What is written for a command whose document has a given rendering, or
/// why nothing is.
pub fn command_line(pipe: CommandPipe, rendered: Result<String, String>) -> (r: Result<
    String,
    String,
>)
    ensures
        result_texts(r) == command_line_of(pipe, result_texts(rendered)),
{
    match pipe {
        CommandPipe::Unavailable => Err("Failed to lock aw-odoo-sync stdin".to_owned()),
        CommandPipe::Absent => Err("aw-odoo-sync is not running or has no command pipe".to_owned()),
        CommandPipe::Open => match rendered {
            Ok(text) => {
                let ghost before = text@;
                let line: String = text.concat("\n");
                proof {
                    reveal_strlit("\n");
                    assert(line@ =~= before.push('\n'));
                }
                Ok(line)
            },
            Err(e) => Err(
                "Failed to serialize aw-odoo-sync command: ".to_owned().concat(e.as_str()),
            ),
        },
    }
}

/// Makes the line to write to the synchronisation module for a command, or
/// tells why none is written. The line holds one line feed, at its end, and
/// no carriage return. Without it, the line is read back as the document, if
/// this has integers only, is not nested too deeply and has no key that the
/// reader keeps for itself; if it has other numbers, their values aside.
pub fn send_odoo_sync_command(payload: &serde_json::Value, pipe: CommandPipe) -> (r: Result<
    String,
    String,
>)
    ensures
        result_texts(r) == command_line_of(pipe, json_rendering(*payload)),
        r is Ok ==> r->Ok_0@.len() > 0 && r->Ok_0@.last() == '\n' && !r->Ok_0@.drop_last().contains(
            '\n',
        ) && !r->Ok_0@.contains('\r'),
        r is Ok ==> lines(r->Ok_0@) == seq![r->Ok_0@.drop_last()],
        r is Ok && is_plain_json(json_content(*payload), JSON_LEVELS as nat, false)
            ==> json_document(r->Ok_0@.drop_last()) == Some(
            (json_content(*payload), json_rendering(*payload)),
        ),
        r is Ok && is_plain_json(json_content(*payload), JSON_LEVELS as nat, true)
            ==> reads_at_most_as(r->Ok_0@.drop_last(), json_content(*payload)),
{
    let rendered: Result<String, String> = json_text(payload);
    let ghost text = result_texts(rendered);
    let r: Result<String, String> = command_line(pipe, rendered);
    proof {
        if r is Ok {
            let line = r->Ok_0@;
            assert(line.drop_last() =~= text->Ok_0);
            if line.contains('\r') {
                let i = line.index_of('\r');
                assert(text->Ok_0[i] == '\r');
            }
            law_command_is_one_line(text->Ok_0);
        }
    }
    r
}

/// What a command comes to, given how writing its line went.
pub fn command_result(written: Result<(), String>) -> (r: Result<(), String>)
    ensures
        match written {
            Ok(()) => r is Ok,
            Err(e) => r is Err && r->Err_0@ == "Failed to write aw-odoo-sync command: "@ + e@,
        },
        match r {
            Ok(()) => write_complaint(write_error(written)) is None,
            Err(e) => write_complaint(write_error(written)) == Some(e@),
        },
{
    match written {
        Ok(()) => Ok(()),
        Err(e) => Err("Failed to write aw-odoo-sync command: ".to_owned().concat(e.as_str())),
    }
}

/// A command is read as one line: what is written for it, split into lines,
/// is the rendering of its document alone.
pub proof fn law_command_is_one_line(text: Seq<char>)
    requires
        !text.contains('\n'),
        !text.contains('\r'),
    ensures
        command_line_of(CommandPipe::Open, Ok(text)) matches Ok(line) && lines(line) == seq![text],
{
    if text.len() > 0 && text.last() == '\r' {
        assert(text.contains('\r'));
    }
    let line = text.push('\n');
    let p = |c: char| c != '\n';
    assert forall|i: int| 0 <= i < text.len() implies p(#[trigger] line[i]) by {
        if line[i] == '\n' {
            assert(text[i] == '\n');
        }
    }
    lemma_prefix_len_unique(line, p, text.len() as int);
    assert(line.take(text.len() as int) =~= text);
    let rest = line.skip(text.len() as int + 1);
    assert(lines(rest) == Seq::<Seq<char>>::empty());
    assert(lines(line) == seq![strip_cr(text)] + lines(rest));
    assert(lines(line) =~= seq![text]);
}

/// No command reaches the module while the pipe is not open.
pub proof fn law_closed_pipe_refuses(pipe: CommandPipe, rendering: Result<Seq<char>, Seq<char>>)
    requires
        !(pipe is Open),
    ensures
        command_line_of(pipe, rendering) is Err,
{
}

/// What showing the dialog takes.
#[derive(Debug)]
pub enum DialogAction {
    /// Nothing: the application cannot be reached.
    Nothing,
    /// Running the script in the open window, if there is one to run, then
    /// raising the window.
    Refresh { script: Option<String> },
    /// Opening a window that runs the script first.
    Create { init_script: String },
}

/// An action on the dialog as contracts speak of it.
pub enum DialogModel {
    Nothing,
    Refresh { script: Option<Seq<char>> },
    Create { init_script: Seq<char> },
}

impl View for DialogAction {
    type V = DialogModel;

    open spec fn view(&self) -> DialogModel {
        match *self {
            DialogAction::Nothing => DialogModel::Nothing,
            DialogAction::Refresh { script } => DialogModel::Refresh { script: opt_text(script) },
            DialogAction::Create { init_script } => DialogModel::Create {
                init_script: init_script@,
            },
        }
    }
}

/// The script that hands a document to the open dialog.
pub open spec fn update_script(rendering: Result<Seq<char>, Seq<char>>) -> Option<Seq<char>> {
    match rendering {
        Ok(json) => Some(
            "if (window.__AW_IDLE_DIALOG_UPDATE__) window.__AW_IDLE_DIALOG_UPDATE__("@ + json
                + ");"@,
        ),
        Err(_) => None,
    }
}

/// The script that a new dialog starts with. A document that cannot be
/// rendered is replaced by an empty one.
pub open spec fn init_script(rendering: Result<Seq<char>, Seq<char>>) -> Seq<char> {
    let json = match rendering {
        Ok(json) => json,
        Err(_) => "{}"@,
    };
    "window.__AW_IDLE_DIALOG_PAYLOAD__ = "@ + json + ";"@
}

/// What showing the dialog with a document takes.
pub open spec fn dialog_action(
    reachable: bool,
    open: bool,
    rendering: Result<Seq<char>, Seq<char>>,
) -> DialogModel {
    if !reachable {
        DialogModel::Nothing
    } else if open {
        DialogModel::Refresh { script: update_script(rendering) }
    } else {
        DialogModel::Create { init_script: init_script(rendering) }
    }
}

/// The script that hands a document with a given rendering to the open
/// dialog.
pub fn update_idle_dialog_window(rendered: Result<String, String>) -> (r: Option<String>)
    ensures
        opt_text(r) == update_script(result_texts(rendered)),
{
    match rendered {
        Ok(json) => Some(
            "if (window.__AW_IDLE_DIALOG_UPDATE__) window.__AW_IDLE_DIALOG_UPDATE__(".to_owned().concat(
                json.as_str(),
            ).concat(");"),
        ),
        Err(_) => None,
    }
}

/// Tells what showing the dialog with a document of a given rendering takes.
pub fn idle_dialog_action(reachable: bool, open: bool, rendered: Result<String, String>) -> (r:
    DialogAction)
    ensures
        r@ == dialog_action(reachable, open, result_texts(rendered)),
{
    if !reachable {
        return DialogAction::Nothing;
    }
    if open {
        return DialogAction::Refresh { script: update_idle_dialog_window(rendered) };
    }
    let json: String = match rendered {
        Ok(json) => json,
        Err(_) => "{}".to_owned(),
    };
    DialogAction::Create {
        init_script: "window.__AW_IDLE_DIALOG_PAYLOAD__ = ".to_owned().concat(json.as_str()).concat(
            ";",
        ),
    }
}

/// Tells what showing the dialog with a document takes, `open` being whether
/// its window is there.
pub fn show_idle_dialog(reachable: bool, open: bool, payload: &serde_json::Value) -> (r:
    DialogAction)
    ensures
        r@ == dialog_action(reachable, open, json_rendering(*payload)),
{
    idle_dialog_action(reachable, open, json_text(payload))
}

/// Whether the window of the dialog is to be closed.
pub fn close_idle_dialog_window(reachable: bool, open: bool) -> (r: bool)
    ensures
        r == (reachable && open),
        r == closes_dialog(reachable, open),
{
    reachable && open
}

/// A line that, without the white space around it, starts with a brace and is
/// read as an object of the kind for showing or of the kind for updating the
/// dialog leads to showing the dialog with just this document.
pub proof fn law_show_and_update_show_the_dialog(
    before: Seq<char>,
    text: Seq<char>,
    after: Seq<char>,
    members: Map<Seq<char>, JsonModel>,
    rendering: Result<Seq<char>, Seq<char>>,
)
    requires
        forall|i: int| 0 <= i < before.len() ==> is_space(#[trigger] before[i]),
        forall|i: int| 0 <= i < after.len() ==> is_space(#[trigger] after[i]),
        text.len() > 0,
        text[0] == '{',
        !is_space(text.last()),
        json_document(text) == Some((JsonModel::Object(members), rendering)),
        members.contains_key("kind"@),
        members["kind"@] == JsonModel::Text("aw-odoo-sync.idle-dialog.show"@) || members["kind"@]
            == JsonModel::Text("aw-odoo-sync.idle-dialog.update"@),
    ensures
        odoo_action(before + text + after) == OdooModel::ShowDialog(
            JsonModel::Object(members),
            rendering,
        ),
{
    law_trim(before, text, after);
    lemma_brace(text);
}

/// A line that, without the white space around it, starts with a brace and is
/// read as an object of the kind for closing the dialog leads to closing it.
pub proof fn law_closed_closes_the_dialog(
    before: Seq<char>,
    text: Seq<char>,
    after: Seq<char>,
    members: Map<Seq<char>, JsonModel>,
    rendering: Result<Seq<char>, Seq<char>>,
)
    requires
        forall|i: int| 0 <= i < before.len() ==> is_space(#[trigger] before[i]),
        forall|i: int| 0 <= i < after.len() ==> is_space(#[trigger] after[i]),
        text.len() > 0,
        text[0] == '{',
        !is_space(text.last()),
        json_document(text) == Some((JsonModel::Object(members), rendering)),
        members.contains_key("kind"@),
        members["kind"@] == JsonModel::Text("aw-odoo-sync.idle-dialog.closed"@),
    ensures
        odoo_action(before + text + after) is CloseDialog,
{
    law_trim(before, text, after);
    lemma_brace(text);
    lemma_kinds();
}

proof fn lemma_kinds()
    ensures
        "aw-odoo-sync.idle-dialog.closed"@ != "aw-odoo-sync.idle-dialog.show"@,
        "aw-odoo-sync.idle-dialog.closed"@ != "aw-odoo-sync.idle-dialog.update"@,
{
    reveal_strlit("aw-odoo-sync.idle-dialog.closed");
    reveal_strlit("aw-odoo-sync.idle-dialog.show");
    reveal_strlit("aw-odoo-sync.idle-dialog.update");
    let closed = "aw-odoo-sync.idle-dialog.closed"@;
    assert(closed.len() != "aw-odoo-sync.idle-dialog.show"@.len());
    assert(closed[25] == 'c');
    assert("aw-odoo-sync.idle-dialog.update"@[25] == 'u');
}

/// Nothing else touches the dialog: a line that does is, without the white
/// space around it, an object in braces of one of the three kinds,
/// and what the dialog shows is what was read.
pub proof fn law_only_dialog_events_act(line: Seq<char>)
    ensures
        odoo_action(line) is ShowDialog ==> {
            let text = trim(line);
            &&& text.len() > 0 && text[0] == '{'
            &&& json_document(text) == Some(
                (odoo_action(line)->ShowDialog_0, odoo_action(line)->ShowDialog_1),
            )
            &&& odoo_action(line)->ShowDialog_0 matches JsonModel::Object(members)
            &&& members.contains_key("kind"@)
            &&& members["kind"@] == JsonModel::Text("aw-odoo-sync.idle-dialog.show"@)
                || members["kind"@] == JsonModel::Text("aw-odoo-sync.idle-dialog.update"@)
        },
        odoo_action(line) is CloseDialog ==> {
            let text = trim(line);
            &&& text.len() > 0 && text[0] == '{'
            &&& json_document(text) matches Some((content, _))
            &&& content matches JsonModel::Object(members)
            &&& members.contains_key("kind"@)
            &&& members["kind"@] == JsonModel::Text("aw-odoo-sync.idle-dialog.closed"@)
        },
{
    lemma_brace(trim(line));
}

/// What an event asks for rests on its kind: two kinds show the dialog, one
/// closes it.
pub proof fn law_event_kinds(kind: Seq<char>)
    ensures
        event_of(Some(kind)) is Show <==> kind == "aw-odoo-sync.idle-dialog.show"@ || kind
            == "aw-odoo-sync.idle-dialog.update"@,
        event_of(Some(kind)) is Close <==> kind == "aw-odoo-sync.idle-dialog.closed"@,
        event_of(None) is Other,
{
    lemma_kinds();
}

/// A command reaches the module exactly if the pipe is open and the document
/// can be rendered, and then as its rendering and a line feed; each reason
/// against it has its own words.
pub proof fn law_command(
    pipe: CommandPipe,
    text: Seq<char>,
    error: Seq<char>,
    rendering: Result<Seq<char>, Seq<char>>,
)
    ensures
        command_line_of(CommandPipe::Open, Ok(text)) == Ok::<Seq<char>, Seq<char>>(
            text + seq!['\n'],
        ),
        command_line_of(pipe, rendering) is Ok <==> pipe is Open && rendering is Ok,
        command_line_of(CommandPipe::Open, Err(error)) == Err::<Seq<char>, Seq<char>>(
            "Failed to serialize aw-odoo-sync command: "@ + error,
        ),
        command_line_of(CommandPipe::Absent, rendering) == Err::<Seq<char>, Seq<char>>(
            "aw-odoo-sync is not running or has no command pipe"@,
        ),
        command_line_of(CommandPipe::Unavailable, rendering) == Err::<Seq<char>, Seq<char>>(
            "Failed to lock aw-odoo-sync stdin"@,
        ),
{
    assert(text.push('\n') =~= text + seq!['\n']);
}

/// A dialog that is open is brought up to date and raised, one that is not is
/// opened, and either gets the whole text of the document, nothing taken away
/// and nothing put in; while the application cannot be reached nothing is done.
pub proof fn law_dialog(json: Seq<char>, error: Seq<char>, open: bool)
    ensures
        dialog_action(false, open, Ok(json)) is Nothing,
        dialog_action(false, open, Err(error)) is Nothing,
        dialog_action(true, true, Ok(json)) is Refresh,
        dialog_action(true, true, Ok(json))->script == Some(
            "if (window.__AW_IDLE_DIALOG_UPDATE__) window.__AW_IDLE_DIALOG_UPDATE__("@ + json
                + ");"@,
        ),
        dialog_action(true, true, Err(error)) is Refresh,
        dialog_action(true, true, Err(error))->script is None,
        dialog_action(true, false, Ok(json)) is Create,
        dialog_action(true, false, Ok(json))->init_script
            == "window.__AW_IDLE_DIALOG_PAYLOAD__ = "@ + json + ";"@,
        dialog_action(true, false, Err(error)) == dialog_action(true, false, Ok("{}"@)),
{
}

/// Actions and results stand as themselves, with what they hold.
pub proof fn law_dialog_views(v: serde_json::Value, s: String, script: Option<String>)
    ensures
        OdooAction::Ignore@ is Ignore,
        OdooAction::CloseDialog@ is CloseDialog,
        OdooAction::ShowDialog(v)@ == OdooModel::ShowDialog(json_content(v), json_rendering(v)),
        DialogAction::Nothing@ is Nothing,
        (DialogAction::Refresh { script })@ == (DialogModel::Refresh { script: opt_text(script) }),
        (DialogAction::Create { init_script: s })@ == (DialogModel::Create { init_script: s@ }),
        result_texts(Ok(s)) == Ok::<Seq<char>, Seq<char>>(s@),
        result_texts(Err(s)) == Err::<Seq<char>, Seq<char>>(s@),
{
}

/// Whether the window of the dialog is to be closed.
pub open spec fn closes_dialog(reachable: bool, open: bool) -> bool {
    reachable && open
}

/// The window of the dialog is closed whenever it is open and the application
/// can be reached, and never otherwise.
pub proof fn law_close_dialog(b: bool)
    ensures
        closes_dialog(true, true),
        !closes_dialog(false, b),
        !closes_dialog(b, false),
{
}

/// The error of writing a command, if there was one.
pub open spec fn write_error(written: Result<(), String>) -> Option<Seq<char>> {
    match written {
        Ok(()) => None,
        Err(e) => Some(e@),
    }
}

/// What is said of a command, given the error of writing it.
pub open spec fn write_complaint(error: Option<Seq<char>>) -> Option<Seq<char>> {
    match error {
        Some(e) => Some("Failed to write aw-odoo-sync command: "@ + e),
        None => None,
    }
}

/// A command that was written is a success, and one that was not fails with the
/// whole error of writing it.
pub proof fn law_written_command(error: String)
    ensures
        write_complaint(write_error(Ok(()))) is None,
        write_complaint(write_error(Err(error))) is Some,
        write_complaint(write_error(Err(error)))->0.len()
            == "Failed to write aw-odoo-sync command: "@.len() + error@.len(),
        write_complaint(write_error(Err(error)))->0.take(
            "Failed to write aw-odoo-sync command: "@.len() as int,
        ) == "Failed to write aw-odoo-sync command: "@,
        write_complaint(write_error(Err(error)))->0.skip(
            "Failed to write aw-odoo-sync command: "@.len() as int,
        ) == error@,
{
    let words = "Failed to write aw-odoo-sync command: "@;
    let all = words + error@;
    assert(all.take(words.len() as int) =~= words);
    assert(all.skip(words.len() as int) =~= error@);
}

} // verus!
