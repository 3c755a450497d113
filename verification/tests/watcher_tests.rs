use std::sync::mpsc;

use text_search::config::{default_recursive, Config, WatchPath};
use text_search::glob::{glob_to_regex, is_indexable, matches_pattern};
use text_search::indexer::{
    calculate_md5, digest_unchanged, entry_action, hex_string, index_decision, reindex_targets,
    reindex_task_name, send_index_command, should_skip_directory, EntryAction, IndexCommand, IndexQueue,
    IndexDecision,
};
use text_search::watcher::{
    path_action, path_is_absolute, should_watch, EventLoop, PathAction, PathKind, PendingEvents,
    WatchEventKind, WatchPaths,
};

fn strings(v: &[&str]) -> Vec<String> {
    v.iter().map(|s| s.to_string()).collect()
}

#[test]
fn watch_paths_add_contains_remove() {
    let mut w = WatchPaths::new();
    assert!(!w.contains("/home/docs"));
    w.add("/home/docs");
    assert!(w.contains("/home/docs"));
    assert!(w.contains("/home/docs/"));
    assert!(w.contains("/home/./docs"));
    assert!(w.contains("//home//docs"));
    assert!(!w.contains("/home/docs2"));
    assert!(!w.contains("home/docs"));
    w.add("/home/docs/");
    assert_eq!(w.get_all(), strings(&["/home/docs"]));
    w.add("./notes");
    assert!(w.contains("./notes/"));
    assert!(!w.contains("notes"));
    assert_eq!(w.get_all(), strings(&["/home/docs", "./notes"]));
    w.add("/b");
    w.remove("/home/./docs/");
    assert_eq!(w.get_all(), strings(&["./notes", "/b"]));
    assert!(!w.contains("/home/docs"));
    assert!(w.contains("./notes"));
    w.clear();
    assert!(w.get_all().is_empty());
    assert!(!w.contains("./notes"));
}

#[test]
fn watch_paths_default_is_empty() {
    let w = WatchPaths::default();
    assert!(w.get_all().is_empty());
}

#[test]
fn which_changes_are_watched() {
    let watched = vec![
        ("/home/docs".to_string(), PathKind::Dir),
        ("/etc/app.conf".to_string(), PathKind::File),
        ("/gone".to_string(), PathKind::Other),
    ];
    assert!(should_watch("/home/docs/a/b.txt", &watched));
    assert!(should_watch("/home/docs", &watched));
    assert!(!should_watch("/home/docsx/b.txt", &watched));
    assert!(should_watch("/etc/app.conf", &watched));
    assert!(!should_watch("/etc/app.conf/x", &watched));
    assert!(!should_watch("/gone/file.txt", &watched));
    assert!(!should_watch("/elsewhere", &Vec::new()));
    assert!(path_is_absolute("/a"));
    assert!(!path_is_absolute("a/b"));
}

#[test]
fn actions_for_changes() {
    assert_eq!(path_action(WatchEventKind::Create, true, true), PathAction::Pending);
    assert_eq!(path_action(WatchEventKind::Modify, true, true), PathAction::Pending);
    assert_eq!(path_action(WatchEventKind::Remove, true, true), PathAction::RemoveFromIndex);
    assert_eq!(path_action(WatchEventKind::Access, true, true), PathAction::Ignore);
    assert_eq!(path_action(WatchEventKind::Any, true, true), PathAction::Ignore);
    assert_eq!(path_action(WatchEventKind::Other, true, true), PathAction::Ignore);
    assert_eq!(path_action(WatchEventKind::Create, false, true), PathAction::Ignore);
    assert_eq!(path_action(WatchEventKind::Remove, true, false), PathAction::Ignore);
}

#[test]
fn pending_changes_debounce() {
    let mut p = PendingEvents::new();
    assert!(p.is_empty());
    p.record("/d/a.txt", 100);
    p.record("/d/b.txt", 500);
    p.record("/d/./a.txt", 900);
    assert!(!p.is_empty());
    let due = p.take_due(1200, 400);
    assert_eq!(due, strings(&["/d/b.txt"]));
    let due = p.take_due(1400, 400);
    assert_eq!(due, strings(&["/d/a.txt"]));
    assert!(p.is_empty());
    assert!(p.take_due(5000, 400).is_empty());
}

#[test]
fn event_loop_flushes_after_quiet_period() {
    let second: u128 = 1_000_000_000;
    let mut l = EventLoop::new(0);
    assert_eq!(l.on_change("/d/a.txt", WatchEventKind::Modify, true, true, 10), None);
    assert_eq!(
        l.on_change("/d/old.txt", WatchEventKind::Remove, true, true, 20),
        Some("/d/old.txt".to_string())
    );
    assert_eq!(l.on_change("/d/c.txt", WatchEventKind::Create, false, true, 30), None);
    assert!(l.flush(second / 2, second).is_empty());
    assert!(l.flush(second + 5, second).is_empty());
    assert_eq!(l.last_check, second + 5);
    assert_eq!(l.flush(2 * second + 20, second), strings(&["/d/a.txt"]));
    assert_eq!(l.last_check, 2 * second + 20);
    assert!(l.pending.is_empty());
}

#[test]
fn glob_patterns() {
    assert_eq!(glob_to_regex("*.docx"), "^.*\\.docx$");
    assert_eq!(glob_to_regex("a?.txt"), "^a.\\.txt$");
    let pats = strings(&["*.docx", "report-??.TXT"]);
    assert!(matches_pattern("/x/Report.DOCX", &pats));
    assert!(matches_pattern("/x/report-01.txt", &pats));
    assert!(!matches_pattern("/x/report-1.txt", &pats));
    assert!(!matches_pattern("/x/docx", &pats));
    assert!(!matches_pattern("/x/a.docx.bak", &pats));
    assert!(matches_pattern("/x/~$lock.docx", &pats));
    assert!(!is_indexable("/x/~$lock.docx", &pats));
    assert!(is_indexable("/x/lock.docx", &pats));
    assert!(!matches_pattern("/x/a.txt", &strings(&["[", "*.txt("])));
}

#[test]
fn system_directories() {
    assert!(should_skip_directory("/mnt/c/$RECYCLE.BIN"));
    assert!(should_skip_directory("D:/recovery"));
    assert!(should_skip_directory("/x/System Volume Information/"));
    assert!(!should_skip_directory("/home/docs"));
    assert!(!should_skip_directory("/"));
}

#[test]
fn walking_directories() {
    let pats = strings(&["*.txt"]);
    assert_eq!(entry_action(true, "/d/sub", true, &pats), EntryAction::Descend);
    assert_eq!(entry_action(true, "/d/sub", false, &pats), EntryAction::Skip);
    assert_eq!(entry_action(true, "/d/PerfLogs", true, &pats), EntryAction::Skip);
    assert_eq!(entry_action(false, "/d/a.txt", false, &pats), EntryAction::Index);
    assert_eq!(entry_action(false, "/d/a.pdf", true, &pats), EntryAction::Skip);
    assert_eq!(entry_action(false, "/d/~$a.txt", true, &pats), EntryAction::Skip);
}

#[test]
fn reindex_decisions() {
    assert_eq!(index_decision(&None, 5), IndexDecision::New);
    assert_eq!(index_decision(&Some(("abc".to_string(), 5)), 5), IndexDecision::Unchanged);
    assert_eq!(index_decision(&Some(("abc".to_string(), 4)), 5), IndexDecision::CompareDigest);
    assert!(digest_unchanged("abc", "abc"));
    assert!(!digest_unchanged("abc", "abd"));
}

#[test]
fn md5_digests() {
    assert_eq!(calculate_md5(b""), "d41d8cd98f00b204e9800998ecf8427e");
    assert_eq!(calculate_md5(b"abc"), "900150983cd24fb0d6963f7d28e17f72");
    assert_eq!(hex_string(&vec![0x00, 0x0f, 0xa0, 0xff]), "000fa0ff");
}

#[test]
fn distinct_digests_are_written_apart() {
    assert_ne!(hex_string(&vec![0x01, 0x10]), hex_string(&vec![0x10, 0x01]));
    assert_ne!(hex_string(&vec![0xab]), hex_string(&vec![0xba]));
    assert_eq!(hex_string(&vec![0xab, 0xcd]), hex_string(&vec![0xab, 0xcd]));
}

#[test]
fn reindex_commands() {
    let mut cfg = Config::default();
    cfg.watch_paths = vec![
        WatchPath { path: "/a".to_string(), recursive: false },
        WatchPath { path: "/b".to_string(), recursive: default_recursive() },
    ];
    assert_eq!(
        reindex_targets(&cfg, &None),
        vec![("/a".to_string(), false), ("/b".to_string(), true)]
    );
    assert_eq!(
        reindex_targets(&cfg, &Some(strings(&["/c"]))),
        vec![("/c".to_string(), true)]
    );
    assert_eq!(reindex_task_name(true), "Path reindex");
    assert_eq!(reindex_task_name(false), "Full reindex");
}

#[test]
fn queueing_commands() {
    let mut none: Option<IndexQueue> = None;
    assert!(!send_index_command(&mut none, IndexCommand::RemovePaths(strings(&["/a"]))));
    assert!(none.is_none());
    let (tx, rx) = mpsc::channel();
    let mut tx = Some(IndexQueue::new(tx));
    assert!(send_index_command(&mut tx, IndexCommand::RemovePaths(strings(&["/a"]))));
    match rx.recv().unwrap() {
        IndexCommand::RemovePaths(p) => assert_eq!(p, strings(&["/a"])),
        IndexCommand::Reindex { .. } => panic!("wrong command"),
    }
    drop(rx);
    assert!(!send_index_command(&mut tx, IndexCommand::RemovePaths(Vec::new())));
}

#[test]
fn default_settings() {
    let c = Config::default();
    assert!(c.watch_paths.is_empty());
    assert_eq!(c.context_length, 50);
    assert_eq!(
        c.file_patterns,
        strings(&["*.docx", "*.pptx", "*.xlsx", "*.xls", "*.pdf", "*.txt", "*.csv", "*.md", "*.rtf", "*.odt", "*.ods", "*.odp"])
    );
    assert!(default_recursive());
}
