use std::path::Path;

use aw_manager::discovery::{
    classify, classify_windows, classify_windows_name, discover_modules, strip_exe,
    windows_search_order, Discovery, Entry, EntryMeta, Platform, Verdict,
};
use aw_manager::paths::{join_path, paths_equal, prepend_paths, search_directories, split_bytes};

fn bytes(s: &str) -> Vec<u8> {
    s.as_bytes().to_vec()
}

fn list(v: &[&str]) -> Vec<Vec<u8>> {
    v.iter().map(|s| bytes(s)).collect()
}

fn file(mode: u32) -> EntryMeta {
    EntryMeta { is_dir: false, is_file: true, is_symlink: false, mode }
}

fn dir() -> EntryMeta {
    EntryMeta { is_dir: true, is_file: false, is_symlink: false, mode: 0o755 }
}

fn entry(parent: &str, name: &str, meta: Option<EntryMeta>) -> Entry {
    Entry { path: bytes(&format!("{}/{}", parent, name)), file_name: bytes(name), meta }
}

fn is_module(v: Verdict, name: &str) -> bool {
    match v {
        Verdict::Module(n) => n == name,
        _ => false,
    }
}

#[test]
fn path_equality_agrees_with_std() {
    let all = [
        "", ".", "./", "/", "//", "/.", "a", "a/", "a/.", "./a", "a//b", "a/b", "a/./b", "/a/b",
        "/a/b/", "/a//b", "/./a/b", "..", "a/..", ".a", "a.", "./.", "/a/b/.", "b",
    ];
    for a in all {
        for b in all {
            assert_eq!(paths_equal(&bytes(a), &bytes(b)), Path::new(a) == Path::new(b), "{} {}", a, b);
        }
    }
}

#[test]
fn joining_agrees_with_std() {
    for a in ["", "/", "/log", "/log/", "log"] {
        for b in ["", "aw-x", "/abs", "x/y"] {
            let expected = Path::new(a).join(b);
            assert_eq!(join_path(&bytes(a), b.as_bytes()), bytes(expected.to_str().unwrap()));
        }
    }
}

#[test]
fn splitting_keeps_empty_parts() {
    assert_eq!(split_bytes(&bytes("a:b"), b':'), list(&["a", "b"]));
    assert_eq!(split_bytes(&bytes(""), b':'), list(&[""]));
    assert_eq!(split_bytes(&bytes(":a::"), b':'), list(&["", "a", "", ""]));
}

#[test]
fn configured_paths_come_first() {
    let found = search_directories(&bytes("/usr/bin:/bin"), &list(&["/opt/a", "/bin/", "/opt/b", "/opt/a"]));
    assert_eq!(found, list(&["/opt/b", "/opt/a", "/usr/bin", "/bin"]));
    assert_eq!(prepend_paths(list(&["x"]), &list(&["y", "./x"])), list(&["./x", "y", "x"]));
}

#[test]
fn unlistable_path_leaves_the_empty_path() {
    assert_eq!(search_directories(&bytes("/bin"), &list(&["/a:b"])), list(&[""]));
    assert_eq!(search_directories(&bytes(""), &list(&[])), list(&[""]));
}

#[test]
fn programs_are_told_apart() {
    assert!(is_module(classify(&entry("/b", "aw-watcher-afk", Some(file(0o755)))), "aw-watcher-afk"));
    assert!(is_module(classify(&entry("/b", "aw-x", Some(file(0o001)))), "aw-x"));
    assert!(matches!(classify(&entry("/b", "aw-x", Some(file(0o644)))), Verdict::Skip));
    assert!(matches!(classify(&entry("/b", "aw-x.py", Some(file(0o755)))), Verdict::Skip));
    assert!(matches!(classify(&entry("/b", "aw-x", None)), Verdict::Skip));
    assert!(matches!(classify(&entry("/b", "xaw-x", Some(file(0o755)))), Verdict::Skip));
    assert!(matches!(classify(&entry("/b", "aw-dir", Some(dir()))), Verdict::Descend));
    assert!(matches!(classify(&entry("/b", "aw-tauri", Some(dir()))), Verdict::Descend));
    assert!(matches!(classify(&entry("/b", "dir", Some(dir()))), Verdict::Skip));
    let link = EntryMeta { is_dir: false, is_file: false, is_symlink: true, mode: 0o777 };
    assert!(is_module(classify(&entry("/b", "aw-link", Some(link))), "aw-link"));
    let socket = EntryMeta { is_dir: false, is_file: false, is_symlink: false, mode: 0o777 };
    assert!(matches!(classify(&entry("/b", "aw-sock", Some(socket))), Verdict::Skip));
    for name in [
        "aw-tauri", "aw-client", "aw-cli", "aw-qt", "aw-server", "aw-server-rust",
        "aw-watcher-window-macos",
    ] {
        assert!(matches!(classify(&entry("/b", name, Some(file(0o755)))), Verdict::Skip));
    }
    let odd = Entry { path: b"/b/aw-\xff".to_vec(), file_name: b"aw-\xff".to_vec(), meta: Some(file(0o755)) };
    assert!(matches!(classify(&odd), Verdict::Skip));
}

#[test]
fn windows_programs_are_told_apart() {
    assert!(is_module(classify_windows(&entry("c", "aw-Watcher-AFK.exe", Some(file(0)))), "aw-watcher-afk"));
    assert!(is_module(classify_windows(&entry("c", "aw-ÄB.exe", Some(file(0)))), "aw-äb"));
    assert!(is_module(
        classify_windows(&entry("c", "aw-watcher-window-macos.exe", Some(file(0)))),
        "aw-watcher-window-macos"
    ));
    assert!(matches!(classify_windows(&entry("c", "aw-Server.exe", Some(file(0)))), Verdict::Skip));
    assert!(matches!(classify_windows(&entry("c", "aw-x.EXE", Some(file(0)))), Verdict::Skip));
    assert!(matches!(classify_windows(&entry("c", "aw-x", Some(file(0)))), Verdict::Skip));
    assert!(matches!(classify_windows(&entry("c", "AW-x.exe", Some(file(0)))), Verdict::Skip));
    assert!(matches!(classify_windows(&entry("c", "aw-dir", Some(dir()))), Verdict::Descend));
    assert!(matches!(classify_windows(&entry("c", "aw-qt", Some(dir()))), Verdict::Skip));
    assert!(matches!(classify_windows(&entry("c", "aw-x.exe", None)), Verdict::Skip));
    assert!(is_module(classify_windows_name("aw-x.exe", false, true, "lower".to_string()), "lower"));
    assert!(matches!(
        classify_windows_name("aw-x.exe", false, false, "lower".to_string()),
        Verdict::Skip
    ));
    assert_eq!(strip_exe("aw-x.exe"), Some("aw-x"));
    assert_eq!(strip_exe(".exe"), Some(""));
    assert_eq!(strip_exe("exe"), None);
    assert_eq!(strip_exe("aw-x.ex"), None);
}

#[test]
fn directories_are_searched_from_the_last() {
    let mut d = discover_modules(&bytes("/usr/bin:/bin"), &list(&["/opt/aw"]));
    assert_eq!(d.next_directory(), Some(bytes("/bin")));
    assert!(d.enter(Some((1, 10))));
    d.scan(&vec![
        entry("/bin", "aw-a", Some(file(0o755))),
        entry("/bin", "aw-sub", Some(dir())),
        entry("/bin", "ls", Some(file(0o755))),
    ]);
    assert_eq!(d.next_directory(), Some(bytes("/bin/aw-sub")));
    assert!(d.enter(Some((1, 11))));
    d.scan(&vec![entry("/bin/aw-sub", "aw-b", Some(file(0o755)))]);
    assert_eq!(d.next_directory(), Some(bytes("/usr/bin")));
    assert!(!d.enter(None));
    assert_eq!(d.next_directory(), Some(bytes("/opt/aw")));
    assert!(d.enter(Some((2, 10))));
    d.scan(&vec![entry("/opt/aw", "aw-a", Some(file(0o755)))]);
    assert_eq!(d.next_directory(), None);
    let found = d.finish();
    assert_eq!(found.keys(), vec!["aw-a".to_string(), "aw-b".to_string()]);
    assert_eq!(found.get("aw-a"), Some(&bytes("/opt/aw/aw-a")));
    assert_eq!(found.get("aw-b"), Some(&bytes("/bin/aw-sub/aw-b")));
}

#[test]
fn directory_is_entered_once() {
    let mut d = Discovery::new(Platform::Windows, list(&["c", "c"]));
    assert!(d.enter(Some((0, 0))));
    assert!(!d.enter(Some((0, 0))));
    assert!(d.enter(Some((0, 1))));
    d.look_at(&entry("c", "aw-X.exe", Some(file(0))));
    assert_eq!(d.finish().keys(), vec!["aw-x".to_string()]);
}

#[test]
fn windows_order_puts_the_configuration_first() {
    assert_eq!(windows_search_order(vec![1, 2], Some(9), &vec![3, 2, 4, 3]), vec![4, 3, 9, 1, 2]);
    assert_eq!(windows_search_order(vec![1, 2], Some(2), &vec![]), vec![1, 2]);
    assert_eq!(windows_search_order(vec![1, 1], None, &vec![1, 5]), vec![5, 1, 1]);
}

#[test]
fn last_program_of_a_name_is_taken() {
    let mut d = Discovery::new(Platform::Unix, list(&["/a"]));
    d.scan(&vec![
        entry("/a", "aw-x", Some(file(0o755))),
        entry("/b", "aw-x", Some(file(0o755))),
        entry("/c", "aw-x", Some(file(0o644))),
    ]);
    let found = d.finish();
    assert_eq!(found.len(), 1);
    assert_eq!(found.get("aw-x"), Some(&bytes("/b/aw-x")));
}

#[test]
fn search_list_reads_back() {
    for (variable, extra) in [
        ("/usr/bin:/bin", vec!["/opt"]),
        ("", vec![]),
        ("a::b", vec!["c", ""]),
        ("/bin", vec!["x:y"]),
    ] {
        let found = search_directories(&bytes(variable), &list(&extra));
        let joined = found.join(&b':');
        assert_eq!(split_bytes(&joined, b':'), found);
    }
}

/// Directories by path, with the names in them; names that end in a slash are
/// directories.
fn run(variable: &str, files: &[(&str, &[&str])]) -> Vec<(String, Vec<u8>)> {
    let mut d = discover_modules(&bytes(variable), &vec![]);
    while let Some(next) = d.next_directory() {
        let at = files.iter().position(|f| bytes(f.0) == next);
        if !d.enter(at.map(|i| (0, i as u64))) {
            continue;
        }
        let held = files[at.unwrap()];
        d.scan(
            &held
                .1
                .iter()
                .map(|n| match n.strip_suffix('/') {
                    Some(name) => entry(held.0, name, Some(dir())),
                    None => entry(held.0, n, Some(file(0o755))),
                })
                .collect(),
        );
    }
    let found = d.finish();
    found.keys().iter().map(|k| (k.clone(), found.get(k).unwrap().clone())).collect()
}

const TREE: &[(&str, &[&str])] = &[
    ("/a", &["aw-x", "aw-sub/", "other/"]),
    ("/a/aw-sub", &["aw-deep/", "aw-y"]),
    ("/a/aw-sub/aw-deep", &["aw-z"]),
    ("/a/other", &["aw-hidden"]),
    ("/b", &["aw-x", "aw-y"]),
];

#[test]
fn whole_search_finds_all_and_the_earliest_wins() {
    let expected = vec![
        ("aw-x".to_string(), bytes("/a/aw-x")),
        ("aw-y".to_string(), bytes("/a/aw-sub/aw-y")),
        ("aw-z".to_string(), bytes("/a/aw-sub/aw-deep/aw-z")),
    ];
    assert_eq!(run("/a:/b", TREE), expected);
    let swapped = run("/b:/a", TREE);
    assert_eq!(swapped[0].1, bytes("/b/aw-x"));
    assert_eq!(swapped[1].1, bytes("/b/aw-y"));
    assert_eq!(swapped[2], expected[2]);
}

#[test]
fn missing_directories_change_nothing() {
    for variable in ["/none:/a:/b", "/a:/none:/b", "/a:/b:/none", "/a:/b:"] {
        assert_eq!(run(variable, TREE), run("/a:/b", TREE));
    }
}
