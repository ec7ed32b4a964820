use aw_manager::names::NameMap;
use aw_manager::process::{
    command_runs_at, command_starts_with_path, find_orphaned_module_processes,
    list_running_processes, locate_module, orphans_among, parse_process,
    process_command_matches_path, CommandOutput, ModuleLocation, RunningProcess,
};
use aw_manager::sweep::{
    monitor_parent_process, terminate_orphaned_module_processes, MonitorAction, OrphanSweep,
    PipeRead, SweepAction, POLLS, POLL_MILLIS,
};

fn listing(text: &[u8]) -> Option<CommandOutput> {
    Some(CommandOutput { success: true, stdout: text.to_vec() })
}

fn location(path: &str, canonical: Option<&str>) -> ModuleLocation {
    let canonical = canonical.map(|c| c.as_bytes().to_vec());
    locate_module(&path.as_bytes().to_vec(), &canonical)
}

fn process(pid: u32, ppid: u32, command: &str) -> RunningProcess {
    RunningProcess { pid, ppid, command: command.to_string() }
}

#[test]
fn listing_lines_are_read() {
    let p = parse_process("  501     1 /opt/aw/aw-watcher-afk --port 5601").unwrap();
    assert_eq!((p.pid, p.ppid), (501, 1));
    assert_eq!(p.command, "/opt/aw/aw-watcher-afk --port 5601");
    assert!(parse_process("501 1").is_none());
    assert!(parse_process("x 1 cmd").is_none());
    assert!(parse_process("1 y cmd").is_none());
    assert!(parse_process("4294967296 1 cmd").is_none());
    assert!(parse_process("").is_none());
    assert_eq!(parse_process("7 1 ").unwrap().command, "");
}

#[test]
fn listing_passes_over_other_lines() {
    let all = list_running_processes(&listing(b"1 0 /sbin/init\n\njunk\n 20 1 a b \n30 20 c"));
    assert_eq!(all.len(), 3);
    assert_eq!(all[1].pid, 20);
    assert_eq!(all[1].command, "a b ");
    assert_eq!(all[2].ppid, 20);
}

#[test]
fn failed_listing_is_empty() {
    assert!(list_running_processes(&None).is_empty());
    let failed = Some(CommandOutput { success: false, stdout: b"1 0 init\n".to_vec() });
    assert!(list_running_processes(&failed).is_empty());
}

#[test]
fn invalid_bytes_in_listing_are_replaced() {
    let all = list_running_processes(&listing(b"9 1 a\xff\n"));
    assert_eq!(all[0].command, "a\u{fffd}");
}

#[test]
fn command_must_end_the_path_with_white_space() {
    assert!(command_starts_with_path("/a/aw-x", "/a/aw-x"));
    assert!(command_starts_with_path("/a/aw-x --y", "/a/aw-x"));
    assert!(command_starts_with_path("/a/aw-x\u{2003}z", "/a/aw-x"));
    assert!(!command_starts_with_path("/a/aw-xy", "/a/aw-x"));
    assert!(!command_starts_with_path("/a/aw", "/a/aw-x"));
    assert!(!command_starts_with_path("sh /a/aw-x", "/a/aw-x"));
    assert!(command_starts_with_path("", ""));
    assert!(command_starts_with_path(" x", ""));
}

#[test]
fn canonical_path_matches_too() {
    let link = b"/bin/aw-x".to_vec();
    let real = Some(b"/opt/aw/aw-x".to_vec());
    assert!(process_command_matches_path("/bin/aw-x", &link, &real));
    assert!(process_command_matches_path("/opt/aw/aw-x -v", &link, &real));
    assert!(!process_command_matches_path("/opt/aw/aw-x -v", &link, &None));
    assert!(command_runs_at("/opt/aw/aw-x", &location("/bin/aw-x", Some("/opt/aw/aw-x"))));
}

#[test]
fn path_bytes_are_read_lossily() {
    let path = b"/a/\xffaw".to_vec();
    assert_eq!(locate_module(&path, &None).path, "/a/\u{fffd}aw");
    assert!(process_command_matches_path("/a/\u{fffd}aw x", &path, &None));
}

#[test]
fn orphans_are_sorted_and_unique() {
    let mut modules: NameMap<ModuleLocation> = NameMap::new();
    modules.insert("aw-b", location("/m/aw-b", None));
    modules.insert("aw-a", location("/m/aw-a", None));
    let list = vec![
        process(30, 1, "/m/aw-b"),
        process(20, 1, "/m/aw-a -v"),
        process(10, 1, "/m/aw-b --port 1"),
        process(10, 1, "/m/aw-b --port 1"),
        process(11, 2, "/m/aw-a"),
        process(12, 1, "/m/aw-c"),
        process(99, 1, "/m/aw-a"),
    ];
    let found = orphans_among(&list, 99, &modules);
    let expected: Vec<(String, u32)> = vec![
        ("aw-a".to_string(), 20),
        ("aw-b".to_string(), 10),
        ("aw-b".to_string(), 30),
    ];
    assert_eq!(found, expected);
}

#[test]
fn first_module_in_order_claims_a_process() {
    let mut modules: NameMap<ModuleLocation> = NameMap::new();
    modules.insert("aw-z", location("/m/same", None));
    modules.insert("aw-k", location("/link", Some("/m/same")));
    let found = orphans_among(&vec![process(5, 1, "/m/same")], 1, &modules);
    assert_eq!(found, vec![("aw-k".to_string(), 5)]);
}

#[test]
fn orphans_are_found_in_a_listing() {
    let mut modules: NameMap<ModuleLocation> = NameMap::new();
    modules.insert("aw-watcher-afk", location("/opt/aw-watcher-afk", None));
    let text = b"  1 0 /sbin/init\n 77 1 /opt/aw-watcher-afk --port 5600\n 78 1 /bin/sh\n";
    let found = find_orphaned_module_processes(&listing(text), 4, &modules);
    assert_eq!(found, vec![("aw-watcher-afk".to_string(), 77)]);
    assert!(find_orphaned_module_processes(&listing(text), 77, &modules).is_empty());
}

fn some_orphan() -> Vec<(String, u32)> {
    vec![("aw-a".to_string(), 3)]
}

#[test]
fn sweep_without_orphans_does_nothing() {
    let (state, action) = terminate_orphaned_module_processes(OrphanSweep::Fresh, vec![]);
    assert_eq!(state, OrphanSweep::Done);
    assert!(matches!(action, SweepAction::Finish));
}

#[test]
fn sweep_kills_after_all_pauses() {
    assert_eq!((POLLS, POLL_MILLIS), (20, 100));
    let (mut state, action) = terminate_orphaned_module_processes(OrphanSweep::Fresh, some_orphan());
    match action {
        SweepAction::TerminateAndWait(v) => assert_eq!(v, some_orphan()),
        _ => panic!("expected a request to end"),
    }
    let mut pauses = 1;
    loop {
        let (next, action) = terminate_orphaned_module_processes(state, some_orphan());
        state = next;
        match action {
            SweepAction::Wait => pauses += 1,
            SweepAction::LookAgain => break,
            _ => panic!("unexpected action"),
        }
    }
    assert_eq!(pauses, 20);
    assert_eq!(state, OrphanSweep::Outlived);
    let late = vec![("aw-b".to_string(), 8)];
    let (state, action) = terminate_orphaned_module_processes(state, late);
    assert_eq!(state, OrphanSweep::Done);
    match action {
        SweepAction::Kill(v) => assert_eq!(v, vec![("aw-b".to_string(), 8)]),
        _ => panic!("expected a kill"),
    }
    let (state, action) = terminate_orphaned_module_processes(state, some_orphan());
    assert_eq!(state, OrphanSweep::Done);
    assert!(matches!(action, SweepAction::Finish));
}

#[test]
fn sweep_ends_when_the_orphans_do() {
    let (state, _) = terminate_orphaned_module_processes(OrphanSweep::Fresh, some_orphan());
    let (state, _) = terminate_orphaned_module_processes(state, some_orphan());
    assert_eq!(state, OrphanSweep::Polling { waits: 1 });
    let (state, action) = terminate_orphaned_module_processes(state, vec![]);
    assert_eq!(state, OrphanSweep::Done);
    assert!(matches!(action, SweepAction::Finish));
}

#[test]
fn parent_death_ends_the_child() {
    assert_eq!(monitor_parent_process(PipeRead::Bytes(0)), MonitorAction::TerminateChild);
    assert_eq!(monitor_parent_process(PipeRead::Bytes(1)), MonitorAction::KeepWatching);
    assert_eq!(monitor_parent_process(PipeRead::Failed), MonitorAction::TerminateChild);
}
