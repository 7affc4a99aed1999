use aion::session::{
    exit_code, relay_step, PtyManager, PtySession, ReadEvent, SessionError, KILLED_CODE,
};

fn session(id: &str, handle: u64) -> PtySession {
    PtySession::new(
        id.to_string(),
        "/bin/zsh".to_string(),
        "/home/u".to_string(),
        4242,
        0,
        0,
        handle,
    )
}

#[test]
fn unknown_ids_are_not_found_and_change_nothing() {
    let mut m = PtyManager::new();
    m.register(session("live", 1)).unwrap();
    assert_eq!(m.lookup("ghost"), Err(SessionError::NotFound));
    assert!(matches!(m.kill("ghost"), Err(SessionError::NotFound)));
    assert!(m.exited("ghost", Some(0)).is_none());
    let listed = m.list();
    assert_eq!(listed.len(), 1);
    assert_eq!(listed[0].session_id, "live");
    assert_eq!(m.lookup("live"), Ok(1));
}

#[test]
fn kill_then_exit_gives_one_notice() {
    let mut m = PtyManager::new();
    m.register(session("s", 7)).unwrap();
    let (notice, handle) = m.kill("s").ok().unwrap();
    assert_eq!(notice.session_id, "s");
    assert_eq!(notice.code, KILLED_CODE);
    assert_eq!(handle, 7);
    assert!(m.exited("s", Some(0)).is_none());
    assert!(m.list().is_empty());
}

#[test]
fn exit_then_kill_gives_one_notice() {
    let mut m = PtyManager::new();
    m.register(session("s", 7)).unwrap();
    let notice = m.exited("s", Some(3)).unwrap();
    assert_eq!(notice.code, 3);
    assert!(matches!(m.kill("s"), Err(SessionError::NotFound)));
    assert!(m.exited("s", Some(3)).is_none());
}

#[test]
fn listing_follows_spawn_and_exit() {
    let mut m = PtyManager::new();
    m.register(session("a", 1)).unwrap();
    m.register(session("b", 2)).unwrap();
    let ids: Vec<String> = m.list().into_iter().map(|i| i.session_id).collect();
    assert!(ids.contains(&"a".to_string()) && ids.contains(&"b".to_string()));
    m.exited("a", None).unwrap();
    let ids: Vec<String> = m.list().into_iter().map(|i| i.session_id).collect();
    assert_eq!(ids, vec!["b".to_string()]);
}

#[test]
fn duplicate_spawn_is_refused() {
    let mut m = PtyManager::new();
    m.register(session("a", 1)).unwrap();
    assert_eq!(m.register(session("a", 2)), Err(SessionError::AlreadyExists));
    assert_eq!(m.lookup("a"), Ok(1));
}

#[test]
fn exit_codes_are_clamped() {
    assert_eq!(exit_code(None), -1);
    assert_eq!(exit_code(Some(0)), 0);
    assert_eq!(exit_code(Some(127)), 127);
    assert_eq!(exit_code(Some(u32::MAX)), i32::MAX);
    assert_eq!(exit_code(Some(2_147_483_648)), i32::MAX);
}

#[test]
fn info_renders_start_time() {
    let s = PtySession::new("x".into(), "sh".into(), ".".into(), 1, 1_431_648_000, 0, 9);
    let info = s.info();
    assert_eq!(info.started_at, "2015-05-15T00:00:00+00:00");
    assert_eq!(info.pid, 1);
    assert_eq!(info.shell, "sh");
}

#[test]
fn relay_forwards_then_scrapes() {
    let mut m = PtyManager::new();
    m.register(session("r", 1)).unwrap();
    let a = relay_step(ReadEvent::Data(b"Total cost: $1.23\nTotal tokens: 4,500 (in: 4.0K, out: 500)\n".to_vec()));
    assert!(!a.stop);
    assert!(m.ingest("r", &a.forward.unwrap()).is_empty());
    let b = relay_step(ReadEvent::Data(b"Duration: 2m 15s\n".to_vec()));
    let bytes = b.forward.unwrap();
    assert_eq!(bytes, b"Duration: 2m 15s\n".to_vec());
    let captured = m.ingest("r", &bytes);
    assert_eq!(captured.len(), 1);
    assert_eq!(captured[0].duration_s, Some(135));
    let c = relay_step(ReadEvent::Data(Vec::new()));
    assert!(c.stop && c.forward.is_none());
    let d = relay_step(ReadEvent::Failed);
    assert!(d.stop && d.forward.is_none());
}

#[test]
fn kill_drops_scraping_state() {
    let mut m = PtyManager::new();
    m.register(session("k", 1)).unwrap();
    m.ingest("k", b"half a line");
    assert_eq!(m.scraper().pending_text("k"), "half a line");
    m.kill("k").ok().unwrap();
    assert_eq!(m.scraper().pending_text("k"), "");
}
