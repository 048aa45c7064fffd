use caretaker::error::Error;
use caretaker::pattern::GlobPattern;
use caretaker::watch::{
    dispatch, glob_entry, join_pattern, plain_entry, relevant_kind, session_outcome,
    split_watch_path, Action, ChangeKind, Watch, WatchEntry,
};

fn watch_record(name: &str, path: &str, command: &str) -> Watch {
    Watch { name: name.to_string(), path: path.to_string(), command: command.to_string() }
}

#[test]
fn plain_path_is_not_split() {
    assert_eq!(split_watch_path("src"), None);
    assert_eq!(split_watch_path("a/b/c.txt"), None);
    assert_eq!(split_watch_path(""), None);
}

#[test]
fn plain_entry_keeps_the_path_exactly() {
    let w = watch_record("build", "src/sub", "make all");
    let e = plain_entry(&w);
    assert_eq!(e.watch_root, "src/sub");
    assert!(e.pattern.is_none());
    assert_eq!(e.argv, &["make", "all"]);
    assert_eq!(e.name, "build");
}

#[test]
fn glob_path_splits_at_the_last_clean_separator() {
    assert_eq!(
        split_watch_path("a/b/*.sass"),
        Some(("a/b".to_string(), "*.sass".to_string()))
    );
    assert_eq!(
        split_watch_path("a/*b/c"),
        Some(("a".to_string(), "*b/c".to_string()))
    );
    assert_eq!(split_watch_path("*.rs"), Some(("".to_string(), "*.rs".to_string())));
}

#[test]
fn joined_pattern_gets_a_single_separator() {
    assert_eq!(join_pattern("/ca/b", "*.sass"), "/ca/b/*.sass");
    assert_eq!(join_pattern("/", "*.rs"), "/*.rs");
}

#[test]
fn glob_entry_watches_the_uncanonicalized_prefix() {
    let w = watch_record("sass", "a/b/*.sass", "sassc in out");
    let e = glob_entry(&w, "/ca/b").unwrap();
    assert_eq!(e.watch_root, "a/b");
    assert_eq!(e.argv, &["sassc", "in", "out"]);
    let p = e.pattern.as_ref().unwrap();
    assert!(p.matches("/ca/b/style.sass"));
    assert!(!p.matches("/ca/b/sub/style.sass"));
    assert!(!p.matches("/elsewhere/style.sass"));
}

#[test]
fn glob_entry_reports_a_bad_pattern() {
    let w = watch_record("bad", "a/***", "true");
    let e = glob_entry(&w, "/ca");
    match e {
        Err(Error::Pattern { pattern, msg }) => {
            assert_eq!(pattern, "/ca/***");
            assert!(!msg.is_empty());
        },
        _ => panic!("expected a pattern error"),
    }
}

#[test]
fn non_utf8_paths_never_match() {
    let p = GlobPattern::new("/a/*.rs").unwrap();
    assert!(p.matches_path(Some("/a/x.rs")));
    assert!(!p.matches_path(None));
}

#[test]
fn only_relevant_kinds_trigger() {
    assert!(relevant_kind(ChangeKind::WriteClose));
    assert!(relevant_kind(ChangeKind::Create));
    assert!(relevant_kind(ChangeKind::RenameTo));
    assert!(relevant_kind(ChangeKind::Remove));
    assert!(!relevant_kind(ChangeKind::Other));
}

fn two_entries() -> Vec<WatchEntry> {
    let a = glob_entry(&watch_record("a", "x/*.rs", "echo a"), "/x").unwrap();
    let b = glob_entry(&watch_record("b", "x/*.txt", "echo b"), "/x").unwrap();
    vec![a, b]
}

#[test]
fn an_event_runs_only_the_entry_it_was_delivered_for() {
    let entries = two_entries();
    let paths = vec!["/x/main.rs".to_string()];
    match dispatch(&entries, 0, ChangeKind::WriteClose, &paths) {
        Action::Run { entry, env_path } => {
            assert_eq!(entry, 0);
            assert_eq!(env_path.as_deref(), Some("/x/main.rs"));
        },
        Action::Ignore => panic!("entry a should run"),
    }
    // the same event delivered for the other entry never names entry a
    assert_eq!(
        dispatch(&entries, 1, ChangeKind::WriteClose, &paths),
        Action::Ignore
    );
}

#[test]
fn irrelevant_kinds_are_discarded() {
    let entries = two_entries();
    let paths = vec!["/x/main.rs".to_string()];
    assert_eq!(dispatch(&entries, 0, ChangeKind::Other, &paths), Action::Ignore);
}

#[test]
fn any_matching_path_qualifies_the_event() {
    let entries = two_entries();
    let paths = vec!["/x/notes.txt".to_string(), "/x/lib.rs".to_string()];
    match dispatch(&entries, 0, ChangeKind::Create, &paths) {
        Action::Run { entry, env_path } => {
            assert_eq!(entry, 0);
            // the triggering path is the first one that matches
            assert_eq!(env_path.as_deref(), Some("/x/lib.rs"));
        },
        Action::Ignore => panic!("one path matches, so the event qualifies"),
    }
}

#[test]
fn an_entry_without_a_pattern_takes_every_relevant_event() {
    let e = plain_entry(&watch_record("all", "x", "echo hi"));
    let entries = vec![e];
    let paths = vec!["/anything/at/all".to_string()];
    match dispatch(&entries, 0, ChangeKind::Remove, &paths) {
        Action::Run { entry, env_path } => {
            assert_eq!(entry, 0);
            assert_eq!(env_path.as_deref(), Some("/anything/at/all"));
        },
        Action::Ignore => panic!("pattern-less entries take every relevant event"),
    }
    match dispatch(&entries, 0, ChangeKind::Remove, &Vec::new()) {
        Action::Run { entry: _, env_path } => assert_eq!(env_path, None),
        Action::Ignore => panic!("an event without paths still qualifies"),
    }
}

#[test]
fn the_first_error_is_the_terminal_result() {
    let e = session_outcome(Some(Error::Io {
        path: "a/b".to_string(),
        msg: "No such file or directory".to_string(),
    }));
    assert_eq!(
        e.message(),
        "Input / output error on a/b: No such file or directory"
    );
}

#[test]
fn a_closed_channel_is_a_receive_error() {
    let e = session_outcome(None);
    assert!(matches!(e, Error::Receive));
    assert_eq!(e.message(), "Channel receive error");
}

#[test]
fn error_messages_name_their_cause() {
    let n = Error::Notify { msg: "boom".to_string() };
    assert_eq!(n.message(), "Notify error: boom");
    let p = Error::PathWatch { path: "src".to_string(), msg: "gone".to_string() };
    assert_eq!(p.message(), "Notify error watching src: gone");
    let g = Error::Pattern { pattern: "/a/***".to_string(), msg: "bad".to_string() };
    assert_eq!(g.message(), "Invalid glob /a/***: bad");
}
