use drawing_files::logs::MAX_LOG_ENTRIES;
use drawing_files::rename::{rename_target, start_rename, RenameAction, RenameEvent, RenameState, Renamed};
use drawing_files::watch::{change_events, ChangeKind};
use drawing_files::{AppState, FsError, LogEntry, LogStorage, Preferences};

fn entry(i: u64) -> LogEntry {
    LogEntry {
        id: format!("id{}", i),
        timestamp: i,
        level: "info".to_string(),
        category: "c".to_string(),
        message: format!("m{}", i),
        data: None,
    }
}

#[test]
fn log_keeps_the_most_recent_entries_in_order() {
    let mut s = LogStorage::new();
    for i in 0..1005u64 {
        s.append(entry(i));
    }
    assert_eq!(s.logs.len(), MAX_LOG_ENTRIES);
    assert_eq!(s.logs[0].timestamp, 5);
    assert_eq!(s.logs[999].timestamp, 1004);
    assert!(s.logs.windows(2).all(|w| w[0].timestamp + 1 == w[1].timestamp));
}

#[test]
fn log_below_the_bound_keeps_everything() {
    let mut s = LogStorage::new();
    s.append(entry(1));
    s.append(entry(2));
    assert_eq!(s.logs.len(), 2);
    assert_eq!(s.logs[1].id, "id2");
}

#[test]
fn watch_reports_each_recognized_path_once() {
    let p = vec!["/d/x.excalidraw".to_string()];
    assert_eq!(change_events(ChangeKind::Create, &p), p);
    assert!(change_events(ChangeKind::Create, &vec!["/d/x.txt".to_string()]).is_empty());
    assert!(change_events(ChangeKind::Access, &p).is_empty());
    let mixed = vec!["/d/a.excalidraw".to_string(), "/d/b.txt".to_string(), "/d/c.excalidraw".to_string()];
    assert_eq!(change_events(ChangeKind::Modify, &mixed), vec!["/d/a.excalidraw".to_string(), "/d/c.excalidraw".to_string()]);
    assert_eq!(change_events(ChangeKind::Remove, &mixed).len(), 2);
}

#[test]
fn rename_target_forces_the_extension() {
    assert_eq!(
        rename_target("/d/a.excalidraw", "b", None),
        Ok(("/d/a.excalidraw".to_string(), "/d/b.excalidraw".to_string()))
    );
    assert_eq!(
        rename_target("/d/a.excalidraw", "b.txt", None),
        Ok(("/d/a.excalidraw".to_string(), "/d/b.excalidraw".to_string()))
    );
    assert_eq!(rename_target("/d/a.txt", "b", None), Err(FsError::WrongExtension));
    assert_eq!(rename_target("/d/a.excalidraw", "../b", None), Err(FsError::InvalidPath));
}

#[test]
fn rename_onto_an_existing_file_fails_before_any_change() {
    let (m, a) = start_rename("/d/a.excalidraw", "b.excalidraw", None).unwrap();
    assert!(matches!(a, RenameAction::CheckExists(ref p) if p == "/d/b.excalidraw"));
    let (m, a) = m.step(RenameEvent::Exists(true));
    assert!(matches!(m.state, RenameState::Done));
    assert!(matches!(a, RenameAction::Finish(Err(FsError::AlreadyExists))));
}

#[test]
fn rename_copies_verifies_and_removes() {
    let (m, _) = start_rename("/d/a.excalidraw", "b", None).unwrap();
    let (m, a) = m.step(RenameEvent::Exists(false));
    assert!(matches!(a, RenameAction::Read(ref p) if p == "/d/a.excalidraw"));
    let (m, a) = m.step(RenameEvent::ReadDone(Ok("C".to_string())));
    assert!(matches!(a, RenameAction::Write(ref p, ref c) if p == "/d/b.excalidraw" && c == "C"));
    let (m, a) = m.step(RenameEvent::WriteDone(Ok(())));
    assert!(matches!(a, RenameAction::Read(ref p) if p == "/d/b.excalidraw"));
    let (m, a) = m.step(RenameEvent::ReadDone(Ok("C".to_string())));
    assert!(matches!(a, RenameAction::Remove(ref p) if p == "/d/a.excalidraw"));
    let (_, a) = m.step(RenameEvent::RemoveDone(Err("busy".to_string())));
    match a {
        RenameAction::Finish(Ok(r)) => assert_eq!(r, Renamed { path: "/d/b.excalidraw".to_string(), old_left_behind: true }),
        _ => panic!("rename did not finish"),
    }
}

#[test]
fn rename_discards_a_mismatched_copy() {
    let (m, _) = start_rename("/d/a.excalidraw", "b", None).unwrap();
    let (m, _) = m.step(RenameEvent::Exists(false));
    let (m, _) = m.step(RenameEvent::ReadDone(Ok("C".to_string())));
    let (m, _) = m.step(RenameEvent::WriteDone(Ok(())));
    let (m, a) = m.step(RenameEvent::ReadDone(Ok("X".to_string())));
    assert!(matches!(a, RenameAction::Remove(ref p) if p == "/d/b.excalidraw"));
    let (_, a) = m.step(RenameEvent::RemoveDone(Ok(())));
    assert!(matches!(a, RenameAction::Finish(Err(FsError::VerificationMismatch))));
}

#[test]
fn rename_onto_itself_changes_nothing() {
    let (m, a) = start_rename("/d/a.excalidraw", "a.excalidraw", None).unwrap();
    assert!(matches!(m.state, RenameState::Done));
    assert!(matches!(a, RenameAction::Finish(Ok(ref r)) if r.path == "/d/a.excalidraw" && !r.old_left_behind));
}

#[test]
fn rename_out_of_order_event_is_refused() {
    let (m, _) = start_rename("/d/a.excalidraw", "b", None).unwrap();
    let (_, a) = m.step(RenameEvent::WriteDone(Ok(())));
    assert!(matches!(a, RenameAction::Finish(Err(FsError::UnexpectedEvent))));
}

#[test]
fn preferences_default_and_fallback() {
    let d = Preferences::default();
    assert_eq!(d.theme, "system");
    assert!(d.sidebar_visible && d.last_directory.is_none() && d.recent_directories.is_empty());
    let mut p = Preferences::default();
    p.theme = "dark".to_string();
    assert_eq!(Preferences::or_default(Some(p)).theme, "dark");
    assert_eq!(Preferences::or_default(None).theme, "system");
}

#[test]
fn app_state_tracks_the_open_directory() {
    let mut s = AppState::new();
    assert!(s.current_directory.is_none());
    s.modified_files.push("/d/a.excalidraw".to_string());
    s.set_current_directory("/d".to_string());
    assert_eq!(s.current_directory.as_deref(), Some("/d"));
    assert_eq!(s.modified_files.len(), 1);
}
