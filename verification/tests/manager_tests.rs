use aw_manager::discovery::Platform;
use aw_manager::launch::{ModuleKind, ModuleMessage};
use aw_manager::menu::{update_tray_menu, MenuEntry};
use aw_manager::names::NameMap;
use aw_manager::process::CommandOutput;
use aw_manager::state::{ClickDecision, ManagerState, StartDecision};
use aw_manager::supervise::{
    args_from_words, autostart_args, give_up_notice, handle, start_manager, AutostartModule,
    CrashDecision, ProcessLook, StartStep, Starting,
};
use aw_manager::sweep::SweepAction;

fn known(names: &[&str]) -> NameMap<Vec<u8>> {
    let mut m = NameMap::new();
    for n in names {
        m.insert(n, format!("/opt/{}", n).into_bytes());
    }
    m
}

fn words(v: &[&str]) -> Vec<String> {
    v.iter().map(|s| s.to_string()).collect()
}

fn started(name: &str, pid: u32) -> ModuleMessage {
    ModuleMessage::Started { name: name.to_string(), pid, args: None }
}

fn stopped(name: &str, success: bool) -> ModuleMessage {
    ModuleMessage::Stopped { name: name.to_string(), success }
}

fn running_manager() -> ManagerState {
    let mut state = ManagerState::new(known(&["aw-a", "aw-b"]));
    state.started_module("aw-a", 11, Some(words(&["-v"])));
    state
}

#[test]
fn start_needs_a_known_module_that_is_idle() {
    let state = running_manager();
    assert!(matches!(state.start_module("aw-a", None), StartDecision::AlreadyRunning));
    assert!(matches!(state.start_module("aw-c", None), StartDecision::NotFound));
    let args = words(&["--x"]);
    match state.start_module("aw-b", Some(&args)) {
        StartDecision::Launch(r) => {
            assert_eq!(r.name, "aw-b");
            assert_eq!(r.path, b"/opt/aw-b".to_vec());
            assert_eq!(r.args, Some(args));
            assert_eq!(r.kind, ModuleKind::Generic);
        }
        _ => panic!("expected a launch"),
    }
}

#[test]
fn start_and_stop_are_noted() {
    let mut state = running_manager();
    assert!(state.is_module_running("aw-a"));
    assert!(!state.is_module_running("aw-b"));
    assert_eq!(state.modules_pid.get("aw-a"), Some(&11));
    assert_eq!(state.modules_args.get("aw-a"), Some(&Some(words(&["-v"]))));
    state.stopped_module("aw-a");
    assert!(!state.is_module_running("aw-a"));
    assert_eq!(state.modules_running.get("aw-a"), Some(&false));
    assert_eq!(state.modules_pid.get("aw-a"), None);
    assert_eq!(state.modules_args.get("aw-a"), Some(&Some(words(&["-v"]))));
}

#[test]
fn stopped_module_is_not_restarted() {
    let mut state = running_manager();
    assert_eq!(state.stop_module("aw-a"), Some(11));
    assert_eq!(state.modules_pending_shutdown.get("aw-a"), Some(&true));
    assert!(state.is_module_running("aw-a"));
    let handled = handle(&mut state, stopped("aw-a", false));
    assert_eq!(handled.crashed, Some("aw-a".to_string()));
    assert!(matches!(state.decide_restart("aw-a"), CrashDecision::Ignore));
    state.started_module("aw-a", 12, None);
    assert_eq!(state.modules_pending_shutdown.get("aw-a"), None);
    state.stopped_module("aw-a");
    assert!(matches!(state.decide_restart("aw-a"), CrashDecision::Restart(_)));
}

#[test]
fn stopping_an_idle_module_does_nothing() {
    let mut state = running_manager();
    assert_eq!(state.stop_module("aw-b"), None);
    assert_eq!(state.modules_pending_shutdown.len(), 0);
}

#[test]
fn all_modules_are_stopped() {
    let mut state = running_manager();
    state.started_module("aw-b", 22, None);
    let expected: Vec<(String, u32)> = vec![("aw-a".to_string(), 11), ("aw-b".to_string(), 22)];
    assert_eq!(state.stop_modules(), expected);
    assert_eq!(state.modules_pending_shutdown.keys(), words(&["aw-a", "aw-b"]));
    assert!(ManagerState::new(known(&[])).stop_modules().is_empty());
}

#[test]
fn click_toggles_a_module() {
    let mut state = running_manager();
    assert!(matches!(state.handle_system_click("aw-a"), ClickDecision::Stop(Some(11))));
    state.stopped_module("aw-a");
    match state.handle_system_click("aw-a") {
        ClickDecision::Start(StartDecision::Launch(r)) => assert_eq!(r.args, None),
        _ => panic!("expected a launch"),
    }
    assert!(matches!(
        state.handle_system_click("aw-none"),
        ClickDecision::Start(StartDecision::NotFound)
    ));
}

#[test]
fn crashes_are_restarted_three_times() {
    let mut state = running_manager();
    for (count, delay) in [(0u32, 2u64), (1, 4), (2, 8)] {
        handle(&mut state, stopped("aw-a", false));
        let decided = match state.decide_restart("aw-a") {
            CrashDecision::Restart(p) => p,
            _ => panic!("expected a restart"),
        };
        assert_eq!(decided.name(), "aw-a");
        assert_eq!(decided.restart_count(), count);
        assert_eq!(decided.delay_secs(), delay);
        assert_eq!(decided.notice(), "aw-a crashed. Restarting...");
        match state.restart(&decided, true) {
            Some(StartDecision::Launch(r)) => assert_eq!(r.args, Some(words(&["-v"]))),
            _ => panic!("expected a launch"),
        }
        assert_eq!(state.modules_restart_count.get("aw-a"), Some(&(count + 1)));
        state.started_module("aw-a", 50 + count, Some(words(&["-v"])));
    }
    handle(&mut state, stopped("aw-a", false));
    assert!(matches!(state.decide_restart("aw-a"), CrashDecision::GiveUp));
    state.give_up("aw-a");
    assert!(matches!(state.decide_restart("aw-a"), CrashDecision::Ignore));
    assert_eq!(give_up_notice("aw-a"), "aw-a keeps on crashing. Restart limit reached.");
}

#[test]
fn restart_the_user_declines_does_not_happen() {
    let mut state = running_manager();
    state.stopped_module("aw-a");
    let decided = match state.decide_restart("aw-a") {
        CrashDecision::Restart(p) => p,
        _ => panic!("expected a restart"),
    };
    assert!(state.restart(&decided, false).is_none());
    assert_eq!(state.modules_restart_count.get("aw-a"), None);
}

#[test]
fn restart_finds_a_module_started_meanwhile() {
    let mut state = running_manager();
    state.stopped_module("aw-a");
    let decided = match state.decide_restart("aw-a") {
        CrashDecision::Restart(p) => p,
        _ => panic!("expected a restart"),
    };
    state.started_module("aw-a", 60, None);
    assert!(matches!(state.restart(&decided, true), Some(StartDecision::AlreadyRunning)));
    assert_eq!(state.modules_restart_count.get("aw-a"), Some(&1));
}

#[test]
fn successful_end_is_no_crash() {
    let mut state = running_manager();
    assert_eq!(handle(&mut state, stopped("aw-a", true)).crashed, None);
    assert_eq!(handle(&mut state, ModuleMessage::Init).crashed, None);
    assert_eq!(handle(&mut state, started("aw-b", 9)).crashed, None);
    assert_eq!(state.modules_pid.get("aw-b"), Some(&9));
}

fn modules_of(menu: &Vec<MenuEntry>) -> Vec<(String, Option<bool>)> {
    match &menu[2] {
        MenuEntry::Modules { label, items } => {
            assert_eq!(label, "Modules");
            items.iter().map(|i| (i.name.clone(), i.checked)).collect()
        }
        _ => panic!("expected the modules"),
    }
}

#[test]
fn menu_lists_started_modules_first() {
    let mut running = NameMap::new();
    running.insert("aw-z", true);
    running.insert("aw-m", false);
    let menu = update_tray_menu(&running, &known(&["aw-z", "aw-b", "aw-a"]));
    let expected: Vec<(String, Option<bool>)> = vec![
        ("aw-m".to_string(), Some(false)),
        ("aw-z".to_string(), Some(true)),
        ("aw-a".to_string(), None),
        ("aw-b".to_string(), None),
    ];
    assert_eq!(modules_of(&menu), expected);
    let shape: Vec<String> = menu
        .iter()
        .map(|e| match e {
            MenuEntry::Item { id, label } => format!("{}={}", id, label),
            MenuEntry::Separator => "-".to_string(),
            MenuEntry::Modules { .. } => "modules".to_string(),
        })
        .collect();
    assert_eq!(
        shape,
        words(&[
            "open=Open Dashboard",
            "-",
            "modules",
            "-",
            "config_folder=Open config folder",
            "log_folder=Open log folder",
            "-",
            "quit=Quit ActivityWatch",
        ])
    );
}

#[test]
fn messages_refresh_the_menu() {
    let mut state = ManagerState::new(known(&["aw-a"]));
    let menu = handle(&mut state, ModuleMessage::Init).menu;
    assert_eq!(modules_of(&menu), vec![("aw-a".to_string(), None)]);
    let menu = handle(&mut state, started("aw-a", 1)).menu;
    assert_eq!(modules_of(&menu), vec![("aw-a".to_string(), Some(true))]);
    let menu = handle(&mut state, stopped("aw-a", true)).menu;
    assert_eq!(modules_of(&menu), vec![("aw-a".to_string(), Some(false))]);
}

#[test]
fn arguments_are_split_like_a_shell_does() {
    assert_eq!(autostart_args(""), None);
    assert_eq!(autostart_args("  "), Some(vec![]));
    assert_eq!(autostart_args("--port  5601\t-v"), Some(words(&["--port", "5601", "-v"])));
    assert_eq!(autostart_args("--name 'a b' \"c d\" e\\ f"), Some(words(&["--name", "a b", "c d", "e f"])));
    assert_eq!(autostart_args("'open"), Some(vec![]));
    assert_eq!(args_from_words("x", Some(words(&["y"]))), Some(words(&["y"])));
    assert_eq!(args_from_words("x", None), Some(vec![]));
    assert_eq!(args_from_words("", Some(words(&["y"]))), None);
}

fn look(listing: &[u8]) -> ProcessLook {
    let mut canonical = NameMap::new();
    canonical.insert("aw-b", b"/real/aw-b".to_vec());
    ProcessLook {
        listing: Some(CommandOutput { success: true, stdout: listing.to_vec() }),
        current_pid: 4,
        canonical,
    }
}

#[test]
fn left_over_processes_end_before_the_start() {
    let mut starting = Starting::new(Platform::Unix, known(&["aw-a", "aw-b"]), vec![]);
    let mut looks = 0;
    loop {
        let listing: &[u8] = if looks < 2 { b"9 1 /real/aw-b -v\n8 1 /opt/aw-a\n" } else { b"" };
        looks += 1;
        match start_manager(starting, &look(listing)) {
            StartStep::Sweep { action, starting: next } => {
                starting = next;
                match action {
                    SweepAction::TerminateAndWait(v) => {
                        assert_eq!(looks, 1);
                        assert_eq!(v, vec![("aw-a".to_string(), 8), ("aw-b".to_string(), 9)]);
                    }
                    SweepAction::Wait => assert_eq!(looks, 2),
                    _ => panic!("unexpected action"),
                }
            }
            StartStep::Start { action, startup } => {
                assert_eq!(looks, 3);
                assert!(matches!(action, SweepAction::Finish));
                assert!(startup.announce);
                break;
            }
        }
    }
}

#[test]
fn stubborn_processes_are_killed_before_the_start() {
    let mut starting = Starting::new(Platform::Unix, known(&["aw-a"]), vec![]);
    let mut looks = 0;
    loop {
        looks += 1;
        match start_manager(starting, &look(b"8 1 /opt/aw-a\n")) {
            StartStep::Sweep { starting: next, .. } => starting = next,
            StartStep::Start { action, .. } => {
                assert_eq!(looks, 22);
                match action {
                    SweepAction::Kill(v) => assert_eq!(v, vec![("aw-a".to_string(), 8)]),
                    _ => panic!("expected a kill"),
                }
                break;
            }
        }
    }
}

#[test]
fn nothing_is_swept_on_windows() {
    let starting = Starting::new(Platform::Windows, known(&["aw-a"]), vec![]);
    assert!(matches!(
        start_manager(starting, &look(b"8 1 /opt/aw-a\n")),
        StartStep::Start { action: SweepAction::Finish, .. }
    ));
}

#[test]
fn manager_starts_its_modules_in_order() {
    let module = |name: &str, args: &str| AutostartModule {
        name: name.to_string(),
        args: args.to_string(),
    };
    let autostart = vec![
        module("aw-notify", ""),
        module("aw-none", ""),
        module("aw-a", "-v 'x y'"),
        module("aw-a", ""),
    ];
    let starting = Starting::new(Platform::Unix, known(&["aw-a", "aw-notify"]), autostart);
    assert_eq!(starting.discovered().keys(), words(&["aw-a", "aw-notify"]));
    let startup = match start_manager(starting, &look(b"7 1 /bin/sh\n")) {
        StartStep::Start { action, startup } => {
            assert!(matches!(action, SweepAction::Finish));
            startup
        }
        StartStep::Sweep { .. } => panic!("expected the start"),
    };
    assert!(startup.announce);
    assert_eq!(startup.decisions.len(), 4);
    match &startup.decisions[0] {
        StartDecision::Launch(r) => {
            assert_eq!(r.kind, ModuleKind::Notify);
            assert_eq!(r.args, None);
        }
        _ => panic!("expected a launch"),
    }
    assert!(matches!(startup.decisions[1], StartDecision::NotFound));
    match &startup.decisions[2] {
        StartDecision::Launch(r) => assert_eq!(r.args, Some(words(&["-v", "x y"]))),
        _ => panic!("expected a launch"),
    }
    assert!(matches!(startup.decisions[3], StartDecision::Launch(_)));
    assert_eq!(startup.state.modules_running.len(), 0);
    assert!(!startup.state.modules_menu_set);
}

#[test]
fn other_modules_are_left_alone() {
    let mut state = running_manager();
    state.started_module("aw-b", 22, None);
    state.stop_module("aw-a");
    handle(&mut state, stopped("aw-a", false));
    state.give_up("aw-a");
    assert!(state.is_module_running("aw-b"));
    assert_eq!(state.modules_pid.get("aw-b"), Some(&22));
    assert_eq!(state.modules_pending_shutdown.get("aw-b"), None);
    assert_eq!(state.modules_restart_count.get("aw-b"), None);
    assert_eq!(state.modules_discovered.keys(), words(&["aw-a", "aw-b"]));
}

#[test]
fn module_given_up_is_given_up_again_after_a_start() {
    let mut state = running_manager();
    for _ in 0..3 {
        state.stopped_module("aw-a");
        if let CrashDecision::Restart(p) = state.decide_restart("aw-a") {
            state.restart(&p, true);
        }
        state.started_module("aw-a", 1, None);
    }
    state.stopped_module("aw-a");
    state.give_up("aw-a");
    assert!(matches!(state.start_module("aw-a", None), StartDecision::Launch(_)));
    state.started_module("aw-a", 2, None);
    state.stopped_module("aw-a");
    assert!(matches!(state.decide_restart("aw-a"), CrashDecision::GiveUp));
}

#[test]
fn running_modules_have_a_process() {
    let mut state = running_manager();
    for message in [started("aw-b", 3), stopped("aw-a", true), stopped("aw-b", false), started("aw-b", 4)] {
        handle(&mut state, message);
        for name in ["aw-a", "aw-b", "aw-c"] {
            assert_eq!(state.is_module_running(name), state.modules_pid.contains_key(name));
        }
    }
}
