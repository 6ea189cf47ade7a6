use commander_core::session::{
    check_dims, resolve_program, spawn_spec, HostEnv, PtyError, PtyEvent, ReadOutcome,
    SessionReader, SessionTable, MAX_COLS, MAX_ROWS,
};

fn host() -> HostEnv {
    HostEnv {
        which_assistant: None,
        brew_assistant: false,
        local_assistant: false,
        shell: Some("/bin/bash".to_string()),
        base_path: "/usr/bin:/bin".to_string(),
    }
}

#[test]
fn create_rejects_out_of_range_dimensions() {
    // either side outside [1, 500] fails and no session is recorded
    let mut t = SessionTable::new();
    for (cols, rows) in [(0u16, 24u16), (80, 0), (501, 24), (80, 501), (0, 0), (10000, 10000)] {
        match t.create("/tmp/proj".to_string(), cols, rows) {
            Err(PtyError::InvalidDimensions { cols: c, rows: r }) => {
                assert_eq!((c, r), (cols, rows));
            }
            other => panic!("expected InvalidDimensions, got {:?}", other.is_ok()),
        }
    }
    // nothing was issued: a fresh id cannot be known, but the boundary cases work
    assert!(t.create("/tmp/proj".to_string(), 1, 1).is_ok());
    assert!(t.create("/tmp/proj".to_string(), MAX_COLS, MAX_ROWS).is_ok());
}

#[test]
fn create_issues_fresh_uuid_style_id() {
    let mut t = SessionTable::new();
    let id = t.create("/tmp".to_string(), 80, 24).unwrap();
    assert_eq!(id.chars().count(), 36);
    assert!(id.contains('-'));
    assert!(t.contains(&id));
}

#[test]
fn write_forwards_bytes_verbatim() {
    let mut t = SessionTable::new();
    let id = t.create("/tmp".to_string(), 80, 24).unwrap();
    let cmd = t.write(&id, b"echo hi\n".to_vec()).unwrap();
    assert_eq!(cmd.id, id);
    assert_eq!(cmd.data, b"echo hi\n".to_vec());
}

#[test]
fn write_unknown_id_fails_session_not_found() {
    let t = SessionTable::new();
    let id = "no-such-id".to_string();
    match t.write(&id, b"x".to_vec()) {
        Err(PtyError::SessionNotFound { id: i }) => assert_eq!(i, id),
        _ => panic!("expected SessionNotFound"),
    }
}

#[test]
fn kill_then_write_and_resize_fail_session_not_found() {
    let mut t = SessionTable::new();
    let id = t.create("/tmp".to_string(), 80, 24).unwrap();
    assert!(t.kill(&id));
    match t.write(&id, b"x".to_vec()) {
        Err(PtyError::SessionNotFound { .. }) => {}
        _ => panic!("write after kill must fail with SessionNotFound"),
    }
    match t.resize(&id, 100, 50) {
        Err(PtyError::SessionNotFound { .. }) => {}
        _ => panic!("resize after kill must fail with SessionNotFound"),
    }
    // killing a second time is a no-op
    assert!(!t.kill(&id));
    assert!(!t.kill(&id));
}

#[test]
fn resize_is_not_bounds_checked() {
    // a live session accepts a resize far beyond the creation bound
    let mut t = SessionTable::new();
    let id = t.create("/tmp".to_string(), 80, 24).unwrap();
    match t.resize(&id, 10000, 10000) {
        Ok(cmd) => {
            assert_eq!(cmd.cols, 10000);
            assert_eq!(cmd.rows, 10000);
        }
        Err(_) => panic!("resize must not re-validate the creation bounds"),
    }
}

#[test]
fn exited_session_stays_in_table_until_killed() {
    let mut t = SessionTable::new();
    let id = t.create("/tmp".to_string(), 80, 24).unwrap();
    t.note_exit(&id);
    // the entry still occupies table space; only kill removes it
    assert!(t.contains(&id));
    assert!(t.write(&id, b"x".to_vec()).is_ok());
    assert!(t.kill(&id));
    assert!(!t.contains(&id));
}

#[test]
fn reader_emits_outputs_in_order_then_one_exit() {
    let mut r = SessionReader::new("s1".to_string());
    let evs = r.drain(vec![
        ReadOutcome::Data(b"first".to_vec()),
        ReadOutcome::Data(b"second".to_vec()),
        ReadOutcome::Eof,
        ReadOutcome::Data(b"late".to_vec()),
        ReadOutcome::Eof,
    ]);
    assert_eq!(evs.len(), 3);
    match &evs[0] {
        PtyEvent::Output(p) => {
            assert_eq!(p.pty_id, "s1");
            assert_eq!(p.data, b"first".to_vec());
        }
        _ => panic!("expected output first"),
    }
    match &evs[1] {
        PtyEvent::Output(p) => assert_eq!(p.data, b"second".to_vec()),
        _ => panic!("expected output second"),
    }
    match &evs[2] {
        PtyEvent::Exit(p) => assert_eq!(p.pty_id, "s1"),
        _ => panic!("expected exit last"),
    }
    let exits = evs
        .iter()
        .filter(|e| matches!(e, PtyEvent::Exit(_)))
        .count();
    assert_eq!(exits, 1);
}

#[test]
fn reader_emits_nothing_after_exit() {
    let mut r = SessionReader::new("s2".to_string());
    assert!(r.on_read(ReadOutcome::Eof).is_some());
    assert!(r.on_read(ReadOutcome::Data(b"x".to_vec())).is_none());
    assert!(r.on_read(ReadOutcome::Eof).is_none());
}

#[test]
fn session_lifecycle_scenario() {
    // create -> write -> output observed before exit -> kill -> write fails
    let mut t = SessionTable::new();
    let id = t.create("/tmp/proj".to_string(), 80, 24).unwrap();
    let cmd = t.write(&id, b"echo hi\n".to_vec()).unwrap();
    assert_eq!(cmd.data, b"echo hi\n".to_vec());

    let mut reader = SessionReader::new(id.clone());
    let evs = reader.drain(vec![ReadOutcome::Data(b"hi\r\n".to_vec()), ReadOutcome::Eof]);
    let first_output = evs
        .iter()
        .position(|e| matches!(e, PtyEvent::Output(_)))
        .expect("an output event is observed");
    let first_exit = evs
        .iter()
        .position(|e| matches!(e, PtyEvent::Exit(_)))
        .expect("an exit event follows");
    assert!(first_output < first_exit);

    assert!(t.kill(&id));
    match t.write(&id, b"x".to_vec()) {
        Err(PtyError::SessionNotFound { .. }) => {}
        _ => panic!("write after kill must fail with SessionNotFound"),
    }
}

#[test]
fn program_resolution_follows_the_fallback_chain() {
    let mut h = host();
    h.which_assistant = Some("/found/assistant".to_string());
    assert_eq!(resolve_program(&h), "/found/assistant");
    h.which_assistant = None;
    h.brew_assistant = true;
    assert_eq!(resolve_program(&h), "/opt/homebrew/bin/assistant");
    h.brew_assistant = false;
    h.local_assistant = true;
    assert_eq!(resolve_program(&h), "/usr/local/bin/assistant");
    h.local_assistant = false;
    assert_eq!(resolve_program(&h), "/bin/bash");
    h.shell = None;
    assert_eq!(resolve_program(&h), "/bin/zsh");
}

#[test]
fn spawn_spec_sets_terminal_environment() {
    let s = spawn_spec(&host(), "/tmp/proj".to_string(), 80, 24);
    assert_eq!(s.cwd, "/tmp/proj");
    assert_eq!(s.cols, 80);
    assert_eq!(s.rows, 24);
    assert_eq!(s.env.len(), 3);
    assert_eq!(s.env[0], ("TERM".to_string(), "xterm-256color".to_string()));
    assert_eq!(
        s.env[1],
        ("COLORTERM".to_string(), "truecolor".to_string())
    );
    assert_eq!(
        s.env[2],
        (
            "PATH".to_string(),
            "/usr/bin:/bin:/opt/homebrew/bin:/usr/local/bin:/usr/bin:/bin".to_string()
        )
    );
}

#[test]
fn check_dims_accepts_exactly_the_documented_range() {
    assert!(check_dims(1, 1).is_ok());
    assert!(check_dims(500, 500).is_ok());
    assert!(check_dims(0, 1).is_err());
    assert!(check_dims(1, 0).is_err());
    assert!(check_dims(501, 1).is_err());
    assert!(check_dims(1, 501).is_err());
}
