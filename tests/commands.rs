use aion::git::{
    command_detail, diff_line_kind, pull_args, push_args, push_result, short_oid, stash_args,
    StashAction,
};
use aion::usage::usage_query;
use aion::watch::{ChangeDebouncer, QUIET_MS};

#[test]
fn stash_arguments_by_action() {
    assert_eq!(
        stash_args(StashAction::Push, Some("wip".into()), None).unwrap(),
        Some(vec!["stash".to_string(), "push".into(), "-m".into(), "wip".into()])
    );
    assert_eq!(
        stash_args(StashAction::Pop, None, Some(12)).unwrap(),
        Some(vec!["stash".to_string(), "pop".into(), "stash@{12}".into()])
    );
    assert_eq!(
        stash_args(StashAction::Drop, None, Some(0)).unwrap(),
        Some(vec!["stash".to_string(), "drop".into(), "stash@{0}".into()])
    );
    assert_eq!(
        stash_args(StashAction::Drop, None, None).err().unwrap(),
        "stash drop requires an index"
    );
    assert_eq!(stash_args(StashAction::List, Some("x".into()), Some(1)).unwrap(), None);
}

#[test]
fn push_and_pull_arguments() {
    assert_eq!(
        push_args(Some("origin".into()), Some("main".into()), Some(true)),
        vec!["push".to_string(), "origin".into(), "main".into(), "--force".into()]
    );
    assert_eq!(push_args(None, None, Some(false)), vec!["push".to_string()]);
    assert_eq!(pull_args(None, Some("dev".into())), vec!["pull".to_string(), "dev".into()]);
}

#[test]
fn command_results_trim_the_right_stream() {
    assert_eq!(command_detail(true, "  done\n", "warn"), "done");
    assert_eq!(command_detail(false, "out", "\tfatal: no remote\n"), "fatal: no remote");
    let r = push_result(false, "", " rejected ");
    assert!(!r.ok);
    assert_eq!(r.detail, "rejected");
}

#[test]
fn diff_kinds_and_short_ids() {
    assert_eq!(diff_line_kind('+'), "add");
    assert_eq!(diff_line_kind('-'), "del");
    assert_eq!(diff_line_kind(' '), "context");
    assert_eq!(short_oid("0123456789abcdef"), "0123456");
    assert_eq!(short_oid("abc"), "abc");
}

#[test]
fn usage_query_adds_given_filters_in_order() {
    let q = usage_query(Some("2024-01-01".into()), None, None, Some("s1".into()));
    assert_eq!(
        q.sql,
        "SELECT id, session_id, agent, cost_usd, tokens_in, tokens_out, tokens_total, duration_s, captured_at, COALESCE(raw_output, '') FROM token_usage WHERE 1=1 AND captured_at >= ? AND session_id = ? ORDER BY captured_at DESC LIMIT 5000"
    );
    assert_eq!(q.params, vec!["2024-01-01".to_string(), "s1".to_string()]);
    let all = usage_query(None, None, None, None);
    assert!(all.params.is_empty());
    assert!(all.sql.ends_with("WHERE 1=1 ORDER BY captured_at DESC LIMIT 5000"));
}

#[test]
fn change_notices_are_debounced() {
    let mut d = ChangeDebouncer::new();
    assert!(d.on_change(1000, false));
    assert!(!d.on_change(1000 + QUIET_MS - 1, false));
    assert!(!d.on_change(5000, true));
    assert!(d.on_change(1000 + QUIET_MS, false));
    assert_eq!(d.last_emit_ms, Some(1000 + QUIET_MS));
}
