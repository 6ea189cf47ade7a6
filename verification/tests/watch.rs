use commander_core::watch::{
    category_event_name, classify, has_allowed_extension, projects_stale_event_name, should_stop,
    ChangeKind, PendingChanges, PollSignal, RemovalFlag, WatchCategory, DEBOUNCE_MS,
};

#[test]
fn classification_is_by_substring_anywhere_in_the_path() {
    // the substring test applies to the whole path, false positives included
    assert_eq!(
        classify("/home/u/my-tasks-export/file.json"),
        Some(WatchCategory::Tasks)
    );
    assert_eq!(
        classify("/home/u/.assistant/plans/big.md"),
        Some(WatchCategory::Plans)
    );
    assert_eq!(
        classify("/home/u/.assistant/projects/s/log.jsonl"),
        Some(WatchCategory::Sessions)
    );
    // tasks wins over the later keywords
    assert_eq!(
        classify("/x/tasks/projects/file.json"),
        Some(WatchCategory::Tasks)
    );
    assert_eq!(classify("/home/u/notes/file.json"), None);
}

#[test]
fn event_names_match_the_wire_protocol() {
    assert_eq!(category_event_name(&WatchCategory::Tasks), "assistant-tasks-changed");
    assert_eq!(category_event_name(&WatchCategory::Plans), "assistant-plans-changed");
    assert_eq!(
        category_event_name(&WatchCategory::Sessions),
        "assistant-sessions-changed"
    );
    assert_eq!(projects_stale_event_name(), "projects-stale");
}

#[test]
fn extension_allow_list() {
    assert!(has_allowed_extension("/a/b/c.json"));
    assert!(has_allowed_extension("/a/b/c.jsonl"));
    assert!(has_allowed_extension("plan.md"));
    assert!(!has_allowed_extension("/a/b/c.txt"));
    assert!(!has_allowed_extension("/a/b/.env"));
    assert!(!has_allowed_extension("/a/b.json/c"));
    assert!(!has_allowed_extension("/a/b/c"));
    assert!(!has_allowed_extension(""));
}

#[test]
fn rapid_repeats_for_one_path_coalesce_into_one_event() {
    let mut p = PendingChanges::new();
    let path = "/home/u/.assistant/tasks/t1.json";
    p.observe(&ChangeKind::Modify, path, 0);
    p.observe(&ChangeKind::Modify, path, 50);
    // quiet period not yet over when measured from the second notification
    assert_eq!(p.sweep(50 + DEBOUNCE_MS - 1).len(), 0);
    // after 600 ms of quiet, exactly one event
    let evs = p.sweep(50 + 600);
    assert_eq!(evs.len(), 1);
    assert_eq!(evs[0].category, WatchCategory::Tasks);
    assert_eq!(evs[0].path, path);
    // the path left the pending set: nothing more to report
    assert_eq!(p.sweep(10_000).len(), 0);
}

#[test]
fn repeats_spaced_beyond_the_window_produce_two_events() {
    let mut p = PendingChanges::new();
    let path = "/home/u/.assistant/plans/p.md";
    p.observe(&ChangeKind::Create, path, 0);
    let first = p.sweep(600);
    assert_eq!(first.len(), 1);
    p.observe(&ChangeKind::Modify, path, 600);
    let second = p.sweep(1200);
    assert_eq!(second.len(), 1);
    assert_eq!(first[0].path, second[0].path);
}

#[test]
fn a_reset_timer_holds_back_the_sweep() {
    let mut p = PendingChanges::new();
    let path = "/home/u/.assistant/tasks/t.json";
    p.observe(&ChangeKind::Modify, path, 0);
    // touched again late in the window: the timer restarts
    p.observe(&ChangeKind::Modify, path, 400);
    assert_eq!(p.sweep(700).len(), 0);
    assert_eq!(p.sweep(900).len(), 1);
}

#[test]
fn only_qualifying_notifications_enter_the_pending_set() {
    let mut p = PendingChanges::new();
    p.observe(&ChangeKind::Remove, "/x/tasks/a.json", 0);
    p.observe(&ChangeKind::Other, "/x/tasks/b.json", 0);
    p.observe(&ChangeKind::Modify, "/x/tasks/c.txt", 0);
    assert_eq!(p.sweep(10_000).len(), 0);
}

#[test]
fn unclassifiable_paths_are_dropped_silently() {
    let mut p = PendingChanges::new();
    p.observe(&ChangeKind::Modify, "/home/u/notes/n.md", 0);
    // settled but in no category: removed without an event
    assert_eq!(p.sweep(600).len(), 0);
    assert_eq!(p.sweep(10_000).len(), 0);
}

#[test]
fn sweeps_report_each_settled_path_once() {
    let mut p = PendingChanges::new();
    p.observe(&ChangeKind::Create, "/c/tasks/a.json", 0);
    p.observe(&ChangeKind::Create, "/c/plans/b.md", 0);
    p.observe(&ChangeKind::Create, "/c/projects/c.jsonl", 300);
    let mut evs = p.sweep(600);
    evs.sort_by(|a, b| a.path.cmp(&b.path));
    assert_eq!(evs.len(), 2);
    assert_eq!(evs[0].path, "/c/plans/b.md");
    assert_eq!(evs[0].category, WatchCategory::Plans);
    assert_eq!(evs[1].path, "/c/tasks/a.json");
    // the one still inside its window arrives on a later sweep
    let late = p.sweep(900);
    assert_eq!(late.len(), 1);
    assert_eq!(late[0].category, WatchCategory::Sessions);
}

#[test]
fn removal_flag_coalesces_bursts() {
    let mut f = RemovalFlag::new();
    assert!(!f.sweep());
    f.observe(&ChangeKind::Remove);
    f.observe(&ChangeKind::Remove);
    f.observe(&ChangeKind::Remove);
    // a burst of removals yields one staleness report, then quiet
    assert!(f.sweep());
    assert!(!f.sweep());
    // non-removals never set it
    f.observe(&ChangeKind::Create);
    f.observe(&ChangeKind::Modify);
    f.observe(&ChangeKind::Other);
    assert!(!f.sweep());
}

#[test]
fn poll_loop_stops_on_signal_or_disconnect() {
    assert!(should_stop(&PollSignal::StopRequested));
    assert!(should_stop(&PollSignal::Disconnected));
    assert!(!should_stop(&PollSignal::Empty));
}
