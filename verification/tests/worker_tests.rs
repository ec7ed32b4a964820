use aw_manager::dialog::{
    close_idle_dialog_window, command_line, command_result, handle_odoo_sync_output_line,
    idle_dialog_action, odoo_event, send_odoo_sync_command, show_idle_dialog,
    update_idle_dialog_window, CommandPipe, DialogAction, OdooAction, OdooEvent,
};
use aw_manager::launch::{
    after_exit, after_exit_text, after_spawn_error, apply_module_environment,
    apply_windows_module_environment, plan_launch, start_module_thread, ExitOutcome, LaunchRequest,
    LogDirectories, ModuleKind, ModuleMessage,
};
use aw_manager::names::NameMap;
use aw_manager::notify::{
    first_line_text, handle_notify_output_line, notification_from, send_notification,
};
use aw_manager::state::ManagerState;
use aw_manager::supervise::handle;
use aw_manager::worker::{Phase, Worker, WorkerAction, WorkerEvent};

const COMPLAINT: &str = "Error: No such option: --output-only\n";

fn words(v: &[&str]) -> Vec<String> {
    v.iter().map(|s| s.to_string()).collect()
}

fn request(name: &str, args: Option<&[&str]>) -> LaunchRequest {
    start_module_thread(name.to_string(), b"/opt/x".to_vec(), args.map(words))
}

#[test]
fn name_selects_the_handler() {
    assert_eq!(request("aw-notify", None).kind, ModuleKind::Notify);
    assert_eq!(request("aw-odoo-sync", None).kind, ModuleKind::OdooSync);
    assert_eq!(request("aw-watcher-afk", None).kind, ModuleKind::Generic);
    assert_eq!(request("aw-notify2", None).kind, ModuleKind::Generic);
}

#[test]
fn generic_arguments_replace_the_port() {
    let plan = plan_launch(&request("aw-a", None), 5600);
    assert!(plan.args.is_empty());
    assert_eq!(plan.reported_args, None);
    assert!(!plan.pipe_stdin);
    assert_eq!(plan_launch(&request("aw-a", None), 5601).args, words(&["--port", "5601"]));
    let plan = plan_launch(&request("aw-a", Some(&["-v"])), 5601);
    assert_eq!(plan.args, words(&["-v"]));
    assert_eq!(plan.reported_args, Some(words(&["-v"])));
    assert!(plan_launch(&request("aw-a", Some(&[])), 5601).args.is_empty());
    let plan = plan_launch(&request("aw-odoo-sync", None), 80);
    assert_eq!(plan.args, words(&["--port", "80"]));
    assert!(plan.pipe_stdin);
}

#[test]
fn notify_arguments_follow_the_port() {
    let plan = plan_launch(&request("aw-notify", Some(&["-v"])), 5666);
    let expected = words(&["--output-only", "--port", "5666", "-v"]);
    assert_eq!(plan.args, expected);
    assert_eq!(plan.reported_args, Some(expected));
    assert_eq!(plan_launch(&request("aw-notify", None), 5600).args, words(&["--output-only"]));
}

#[test]
fn reported_notify_arguments_are_repeated() {
    let first = plan_launch(&request("aw-notify", None), 5600);
    let mut again = request("aw-notify", None);
    again.args = first.reported_args;
    assert_eq!(plan_launch(&again, 5600).args, words(&["--output-only", "--output-only"]));
}

#[test]
fn environment_names_the_log_directories() {
    let vars = apply_module_environment(&Some(b"/var/log/aw".to_vec()), "aw-a");
    let all: Vec<(String, Vec<u8>)> = vars.into_iter().map(|v| (v.key, v.value)).collect();
    assert_eq!(
        all,
        vec![
            ("AW_LOG_ROOT".to_string(), b"/var/log/aw".to_vec()),
            ("AW_LOG_DIR".to_string(), b"/var/log/aw/aw-a".to_vec()),
        ]
    );
    assert!(apply_module_environment(&None, "aw-a").is_empty());
}

#[test]
fn windows_environment_keeps_the_joined_path() {
    let logs = LogDirectories { root: b"C:\\logs".to_vec(), own: b"C:\\logs\\aw-a".to_vec() };
    let all: Vec<(String, Vec<u8>)> = apply_windows_module_environment(&Some(logs))
        .into_iter()
        .map(|v| (v.key, v.value))
        .collect();
    assert_eq!(
        all,
        vec![
            ("AW_LOG_ROOT".to_string(), b"C:\\logs".to_vec()),
            ("AW_LOG_DIR".to_string(), b"C:\\logs\\aw-a".to_vec()),
        ]
    );
    assert!(apply_windows_module_environment(&None).is_empty());
}

#[test]
fn spawn_error_falls_back_once() {
    let next = after_spawn_error(&request("aw-notify", Some(&["-v"])), COMPLAINT).unwrap();
    assert_eq!(next.kind, ModuleKind::Generic);
    assert_eq!(next.name, "aw-notify");
    assert_eq!(next.args, Some(words(&["-v"])));
    assert!(after_spawn_error(&next, COMPLAINT).is_none());
    assert!(after_spawn_error(&request("aw-notify", None), "No such file").is_none());
    assert!(after_spawn_error(&request("aw-a", None), COMPLAINT).is_none());
}

#[test]
fn exit_is_reported_or_falls_back() {
    let notify = request("aw-notify", None);
    let stderr = COMPLAINT.as_bytes().to_vec();
    match after_exit(&notify, Some(2), &stderr) {
        ExitOutcome::Relaunch(r) => assert_eq!(r.kind, ModuleKind::Generic),
        _ => panic!("expected another launch"),
    }
    for (code, text, ok) in [
        (Some(1), COMPLAINT, false),
        (Some(2), "other", false),
        (None, COMPLAINT, false),
        (Some(0), "", true),
    ] {
        match after_exit_text(&notify, code, text) {
            ExitOutcome::Report(ModuleMessage::Stopped { name, success }) => {
                assert_eq!(name, "aw-notify");
                assert_eq!(success, ok);
            }
            _ => panic!("expected a report"),
        }
    }
    assert!(matches!(
        after_exit(&request("aw-a", None), Some(2), &stderr),
        ExitOutcome::Report(_)
    ));
}

#[test]
fn invalid_bytes_on_stderr_do_not_hide_the_complaint() {
    let mut stderr = vec![0xffu8, 0xfe];
    stderr.extend_from_slice(COMPLAINT.as_bytes());
    assert!(matches!(
        after_exit(&request("aw-notify", None), Some(2), &stderr),
        ExitOutcome::Relaunch(_)
    ));
}

#[test]
fn generic_process_lives_and_ends() {
    let (w, plan) = Worker::new(request("aw-a", Some(&["-v"])), 5600);
    assert_eq!(plan.args, words(&["-v"]));
    let (w, actions) = w.step(&WorkerEvent::Spawned { pid: 7 });
    assert_eq!(w.phase, Phase::Running);
    assert_eq!(actions.len(), 2);
    assert!(matches!(actions[0], WorkerAction::WatchParent(7)));
    match &actions[1] {
        WorkerAction::Tell(ModuleMessage::Started { name, pid, args }) => {
            assert_eq!((name.as_str(), *pid), ("aw-a", 7));
            assert_eq!(args, &Some(words(&["-v"])));
        }
        _ => panic!("expected a report"),
    }
    let (w, actions) = w.step(&WorkerEvent::Line { line: "{\"title\":\"t\",\"message\":\"m\"}".to_string() });
    assert!(actions.is_empty());
    let (w, actions) = w.step(&WorkerEvent::Exited { code: Some(1), stderr: vec![] });
    assert_eq!(w.phase, Phase::Ended);
    assert_eq!(actions.len(), 1);
    assert!(matches!(
        &actions[0],
        WorkerAction::Tell(ModuleMessage::Stopped { success: false, .. })
    ));
    let (_, actions) = w.step(&WorkerEvent::Exited { code: Some(1), stderr: vec![] });
    assert!(actions.is_empty());
}

#[test]
fn notify_process_shows_and_falls_back() {
    let (w, _) = Worker::new(request("aw-notify", None), 5601);
    let (w, _) = w.step(&WorkerEvent::Spawned { pid: 8 });
    let (w, actions) = w.step(&WorkerEvent::Line { line: "{\"title\":\"t\",\"message\":\"m\"}".to_string() });
    match &actions[0] {
        WorkerAction::Show(n) => assert_eq!((n.title.as_str(), n.message.as_str()), ("t", "m")),
        _ => panic!("expected a notification"),
    }
    let (w, actions) =
        w.step(&WorkerEvent::Exited { code: Some(2), stderr: COMPLAINT.as_bytes().to_vec() });
    assert_eq!(w.phase, Phase::Starting);
    assert_eq!(w.request.kind, ModuleKind::Generic);
    assert!(matches!(actions[0], WorkerAction::ReleasePipe));
    match &actions[1] {
        WorkerAction::Launch(plan) => assert_eq!(plan.args, words(&["--port", "5601"])),
        _ => panic!("expected a launch"),
    }
}

#[test]
fn sync_process_keeps_its_input() {
    let (w, _) = Worker::new(request("aw-odoo-sync", None), 5600);
    let (w, actions) = w.step(&WorkerEvent::Spawned { pid: 9 });
    assert!(matches!(actions[0], WorkerAction::KeepStdin));
    assert_eq!(actions.len(), 3);
    let line = "  {\"kind\":\"aw-odoo-sync.idle-dialog.closed\"}".to_string();
    let (w, actions) = w.step(&WorkerEvent::Line { line });
    assert!(matches!(actions[0], WorkerAction::Dialog(OdooAction::CloseDialog)));
    let (w, actions) = w.step(&WorkerEvent::Line { line: "noise".to_string() });
    assert!(actions.is_empty());
    let (_, actions) = w.step(&WorkerEvent::Exited { code: Some(0), stderr: vec![] });
    assert!(matches!(actions[0], WorkerAction::DropStdin));
    assert!(matches!(
        &actions[1],
        WorkerAction::Tell(ModuleMessage::Stopped { success: true, .. })
    ));
}

#[test]
fn failed_start_is_not_reported() {
    let (w, _) = Worker::new(request("aw-a", None), 5600);
    let (w, actions) = w.step(&WorkerEvent::SpawnFailed { error: "no".to_string() });
    assert_eq!(w.phase, Phase::Ended);
    assert_eq!(actions.len(), 1);
    assert!(matches!(actions[0], WorkerAction::ReleasePipe));
}

#[test]
fn notifications_need_title_and_message() {
    let n = handle_notify_output_line("{\"title\":\"T\",\"message\":\"a\\nb\",\"x\":1}").unwrap();
    assert_eq!((n.title.as_str(), n.message.as_str()), ("T", "a\nb"));
    assert!(handle_notify_output_line(" {\"title\":\"T\",\"message\":\"m\"}").is_none());
    assert!(handle_notify_output_line("{\"title\":\"T\"}").is_none());
    assert!(handle_notify_output_line("{\"title\":1,\"message\":\"m\"}").is_none());
    assert!(handle_notify_output_line("{not json").is_none());
    assert!(handle_notify_output_line("").is_none());
    assert!(notification_from(None, Some("m".to_string())).is_none());
    assert!(notification_from(Some("t".to_string()), None).is_none());
    assert_eq!(notification_from(Some("t".to_string()), Some("m".to_string())).unwrap().title, "t");
}

#[test]
fn notification_preview_is_the_first_line() {
    let n = send_notification(true, "T", "one\r\ntwo").unwrap();
    assert_eq!((n.title.as_str(), n.body.as_str(), n.preview.as_str()), ("T", "one\r\ntwo", "one"));
    assert!(send_notification(false, "T", "m").is_none());
    for s in ["", "a", "\n", "a\nb", "a\r\nb", "a\rb", "\r\n"] {
        assert_eq!(first_line_text(s), s.lines().next().unwrap_or(""));
    }
}

#[test]
fn sync_events_are_told_apart() {
    let kind = |k: &str| Some(k.to_string());
    assert_eq!(odoo_event(&kind("aw-odoo-sync.idle-dialog.show")), OdooEvent::Show);
    assert_eq!(odoo_event(&kind("aw-odoo-sync.idle-dialog.update")), OdooEvent::Show);
    assert_eq!(odoo_event(&kind("aw-odoo-sync.idle-dialog.closed")), OdooEvent::Close);
    assert_eq!(odoo_event(&kind("other")), OdooEvent::Other);
    assert_eq!(odoo_event(&None), OdooEvent::Other);
    match handle_odoo_sync_output_line(" {\"kind\":\"aw-odoo-sync.idle-dialog.show\",\"n\":1} ") {
        OdooAction::ShowDialog(v) => assert_eq!(v.get("n").and_then(|n| n.as_i64()), Some(1)),
        _ => panic!("expected the dialog"),
    }
    assert!(matches!(handle_odoo_sync_output_line("[1]"), OdooAction::Ignore));
    assert!(matches!(handle_odoo_sync_output_line("{broken"), OdooAction::Ignore));
    assert!(matches!(handle_odoo_sync_output_line("{\"kind\":5}"), OdooAction::Ignore));
}

fn payload(text: &str) -> serde_json::Value {
    serde_json::from_str(text).unwrap()
}

#[test]
fn commands_are_single_lines() {
    let p = payload("{ \"kind\": \"aw-tauri.idle-dialog.action\", \"text\": \"a\\nb\" }");
    let line = send_odoo_sync_command(&p, CommandPipe::Open).unwrap();
    assert_eq!(line, "{\"kind\":\"aw-tauri.idle-dialog.action\",\"text\":\"a\\nb\"}\n");
    assert_eq!(line.lines().count(), 1);
}

#[test]
fn commands_are_refused_without_a_pipe() {
    let p = payload("{}");
    assert_eq!(
        send_odoo_sync_command(&p, CommandPipe::Absent),
        Err("aw-odoo-sync is not running or has no command pipe".to_string())
    );
    assert_eq!(
        send_odoo_sync_command(&p, CommandPipe::Unavailable),
        Err("Failed to lock aw-odoo-sync stdin".to_string())
    );
    assert_eq!(
        command_line(CommandPipe::Open, Err("bad".to_string())),
        Err("Failed to serialize aw-odoo-sync command: bad".to_string())
    );
    assert_eq!(command_line(CommandPipe::Open, Ok("x".to_string())), Ok("x\n".to_string()));
    assert_eq!(
        command_result(Err("gone".to_string())),
        Err("Failed to write aw-odoo-sync command: gone".to_string())
    );
    assert_eq!(command_result(Ok(())), Ok(()));
}

#[test]
fn dialog_is_created_or_refreshed() {
    let p = payload("{\"state\": \"idle\"}");
    match show_idle_dialog(true, false, &p) {
        DialogAction::Create { init_script } => {
            assert_eq!(init_script, "window.__AW_IDLE_DIALOG_PAYLOAD__ = {\"state\":\"idle\"};")
        }
        _ => panic!("expected a window"),
    }
    match show_idle_dialog(true, true, &p) {
        DialogAction::Refresh { script } => assert_eq!(
            script.unwrap(),
            "if (window.__AW_IDLE_DIALOG_UPDATE__) window.__AW_IDLE_DIALOG_UPDATE__({\"state\":\"idle\"});"
        ),
        _ => panic!("expected a refresh"),
    }
    assert!(matches!(show_idle_dialog(false, true, &p), DialogAction::Nothing));
}

#[test]
fn unrenderable_document_is_replaced() {
    match idle_dialog_action(true, false, Err("bad".to_string())) {
        DialogAction::Create { init_script } => {
            assert_eq!(init_script, "window.__AW_IDLE_DIALOG_PAYLOAD__ = {};")
        }
        _ => panic!("expected a window"),
    }
    assert!(matches!(
        idle_dialog_action(true, true, Err("bad".to_string())),
        DialogAction::Refresh { script: None }
    ));
    assert_eq!(update_idle_dialog_window(Err("bad".to_string())), None);
}

#[test]
fn dialog_is_closed_if_open() {
    assert!(close_idle_dialog_window(true, true));
    assert!(!close_idle_dialog_window(true, false));
    assert!(!close_idle_dialog_window(false, true));
}

fn tell(state: &mut ManagerState, actions: Vec<WorkerAction>) {
    for action in actions {
        if let WorkerAction::Tell(message) = action {
            handle(state, message);
        }
    }
}

#[test]
fn manager_follows_the_process() {
    let mut state = ManagerState::new(NameMap::new());
    let (w, _) = Worker::new(request("aw-notify", Some(&["-v"])), 5600);
    let (w, actions) = w.step(&WorkerEvent::Spawned { pid: 30 });
    tell(&mut state, actions);
    assert_eq!(state.modules_pid.get("aw-notify"), Some(&30));
    let stderr = COMPLAINT.as_bytes().to_vec();
    let (w, actions) = w.step(&WorkerEvent::Exited { code: Some(2), stderr });
    tell(&mut state, actions);
    let (w, actions) = w.step(&WorkerEvent::Spawned { pid: 31 });
    tell(&mut state, actions);
    assert!(state.is_module_running("aw-notify"));
    assert_eq!(state.modules_pid.get("aw-notify"), Some(&31));
    assert_eq!(state.modules_args.get("aw-notify"), Some(&Some(words(&["-v"]))));
    let (_, actions) = w.step(&WorkerEvent::Exited { code: None, stderr: vec![] });
    tell(&mut state, actions);
    assert!(!state.is_module_running("aw-notify"));
    assert_eq!(state.stop_module("aw-notify"), None);
}

#[test]
fn commands_read_back() {
    let p = payload("{\"kind\":\"a\\r\\n\\u0001\",\"q\\\"\":\"é\",\"n\":[1,{}]}");
    let line = send_odoo_sync_command(&p, CommandPipe::Open).unwrap();
    assert!(!line.contains('\r'));
    assert_eq!(payload(line.lines().next().unwrap()), p);
}

#[test]
fn whole_commands_read_back() {
    let text = "{\"b\":[true,false,null,{}],\"n\":[0,-1,18446744073709551615,-9223372036854775808],\"o\":{\"s\":\"\"}}";
    let p = payload(text);
    let line = send_odoo_sync_command(&p, CommandPipe::Open).unwrap();
    assert_eq!(payload(line.strip_suffix('\n').unwrap()), p);
    let p = payload("[1.0,1e300,-0.0,2.5e-7]");
    let line = send_odoo_sync_command(&p, CommandPipe::Open).unwrap();
    assert!(payload(&line).as_array().unwrap().iter().all(|n| n.is_f64()));
}

#[test]
fn deep_commands_read_back_up_to_the_limit() {
    let nested = |levels: usize| {
        let mut v = serde_json::Value::Null;
        for _ in 0..levels {
            v = serde_json::Value::Array(vec![v]);
        }
        v
    };
    let line = send_odoo_sync_command(&nested(127), CommandPipe::Open).unwrap();
    assert_eq!(payload(&line), nested(127));
    let line = send_odoo_sync_command(&nested(128), CommandPipe::Open).unwrap();
    let read: Result<serde_json::Value, serde_json::Error> = serde_json::from_str(&line);
    assert!(read.is_err());
}
