use session_dash::daemon::{
    answer_of, apply_event, decision_reply, resolve_permission, DaemonState, HookEventRaw,
};
use session_dash::ids::generate_uuid;
use session_dash::json::Json;
use session_dash::status::SessionStatus;

fn event(session: &str, name: &str, ts: i64) -> HookEventRaw {
    HookEventRaw {
        session_id: session.to_string(),
        transcript_path: format!("/logs/{session}.jsonl"),
        cwd: "/work".to_string(),
        permission_mode: String::new(),
        hook_event_name: name.to_string(),
        tool_name: None,
        tool_input: None,
        tool_output: None,
        tool_use_id: None,
        success: None,
        notification_type: None,
        message: None,
        pid: 42,
        ts,
        connection_id: None,
    }
}

#[test]
fn start_then_tool_use_tracks_one_session() {
    let mut st = DaemonState::new();
    apply_event(&mut st, &event("s1", "SessionStart", 100), 0);
    let mut pre = event("s1", "PreToolUse", 200);
    pre.tool_name = Some("Bash".to_string());
    pre.tool_use_id = Some("t1".to_string());
    pre.tool_input = Some(Json::Object(vec![("command".to_string(), Json::Str("ls".to_string()))]));
    apply_event(&mut st, &pre, 0);
    assert_eq!(st.sessions().len(), 1);
    let s = &st.sessions()[0];
    assert_eq!(s.session_id, "s1");
    assert_eq!(s.status, SessionStatus::RunningTool);
    assert_eq!(s.current_tool.as_deref(), Some("Bash"));
    assert_eq!(s.started_at, 100);
    assert_eq!(s.last_event_at, 200);
    assert_eq!(s.tool_history.len(), 1);
    assert_eq!(s.tool_history[0].started_at, 200);
    assert_eq!(s.tool_history[0].ended_at, None);

    let mut post = event("s1", "PostToolUse", 300);
    post.tool_use_id = Some("t1".to_string());
    post.success = Some(true);
    post.tool_output = Some("ok".to_string());
    apply_event(&mut st, &post, 0);
    let s = &st.sessions()[0];
    assert_eq!(s.status, SessionStatus::Processing);
    assert_eq!(s.current_tool, None);
    assert_eq!(s.tool_history[0].ended_at, Some(300));
    assert_eq!(s.tool_history[0].success, Some(true));
    assert_eq!(s.tool_history[0].tool_output.as_deref(), Some("ok"));
}

#[test]
fn events_without_time_use_now() {
    let mut st = DaemonState::new();
    apply_event(&mut st, &event("s1", "UserPromptSubmit", 0), 777);
    let s = &st.sessions()[0];
    assert_eq!(s.status, SessionStatus::Processing);
    assert_eq!(s.started_at, 0);
    assert_eq!(s.last_event_at, 777);
}

#[test]
fn permission_request_waits_until_answered() {
    let mut st = DaemonState::new();
    let mut req = event("s1", "PermissionRequest", 10);
    req.tool_name = Some("Write".to_string());
    req.connection_id = Some("c1".to_string());
    apply_event(&mut st, &req, 0);
    assert_eq!(st.pending_permissions().len(), 1);
    assert_eq!(st.pending_permissions()[0].connection_id, "c1");
    assert_eq!(st.pending_permissions()[0].tool_name, "Write");
    assert_eq!(st.sessions()[0].status, SessionStatus::WaitingForApproval);
    resolve_permission(&mut st, "c2");
    assert_eq!(st.pending_permissions().len(), 1);
    resolve_permission(&mut st, "c1");
    assert!(st.pending_permissions().is_empty());
    assert_eq!(st.sessions().len(), 1);
}

#[test]
fn ended_sessions_stay_listed() {
    let mut st = DaemonState::new();
    apply_event(&mut st, &event("a", "SessionStart", 1), 0);
    apply_event(&mut st, &event("b", "SessionStart", 2), 0);
    apply_event(&mut st, &event("a", "SessionEnd", 3), 0);
    assert_eq!(st.sessions().len(), 2);
    assert_eq!(st.sessions()[0].session_id, "a");
    assert_eq!(st.sessions()[0].status, SessionStatus::Ended);
    assert_eq!(st.sessions()[1].status, SessionStatus::WaitingForInput);
}

#[test]
fn notifications_and_compaction() {
    let mut st = DaemonState::new();
    let mut n = event("s", "Notification", 5);
    n.notification_type = Some("idle_prompt".to_string());
    n.message = Some("waiting".to_string());
    apply_event(&mut st, &n, 0);
    assert_eq!(st.sessions()[0].status, SessionStatus::WaitingForInput);
    assert_eq!(st.sessions()[0].last_notification.as_deref(), Some("waiting"));
    let mut n2 = event("s", "Notification", 6);
    n2.notification_type = Some("other".to_string());
    apply_event(&mut st, &n2, 0);
    assert_eq!(st.sessions()[0].status, SessionStatus::Processing);
    assert_eq!(st.sessions()[0].last_notification, None);
    apply_event(&mut st, &event("s", "PreCompact", 7), 0);
    assert_eq!(st.sessions()[0].status, SessionStatus::Compacting);
    apply_event(&mut st, &event("s", "Stop", 8), 0);
    assert_eq!(st.sessions()[0].status, SessionStatus::WaitingForInput);
}

#[test]
fn subagent_stop_only_touches_known_sessions() {
    let mut st = DaemonState::new();
    apply_event(&mut st, &event("ghost", "SubagentStop", 5), 0);
    assert!(st.sessions().is_empty());
    apply_event(&mut st, &event("s", "SessionStart", 1), 0);
    let mut stop = event("s", "SubagentStop", 9);
    stop.tool_use_id = Some("agent-1".to_string());
    apply_event(&mut st, &stop, 0);
    let s = &st.sessions()[0];
    assert_eq!(s.agents.len(), 1);
    assert_eq!(s.agents[0].agent_id, "agent-1");
    assert_eq!(s.agents[0].status, "stopped");
    assert_eq!(s.agents[0].stopped_at, Some(9));
    assert_eq!(s.last_event_at, 9);
}

#[test]
fn uuids_are_version_four() {
    let u = generate_uuid([0u8; 16]);
    assert_eq!(u, "00000000-0000-4000-8000-000000000000");
    let u = generate_uuid([0xffu8; 16]);
    assert_eq!(u, "ffffffff-ffff-4fff-bfff-ffffffffffff");
    let bytes = [0x12, 0x34, 0x56, 0x78, 0x9a, 0xbc, 0xde, 0xf0, 0x01, 0x23, 0x45, 0x67, 0x89, 0xab, 0xcd, 0xef];
    assert_eq!(generate_uuid(bytes), "12345678-9abc-4ef0-8123-456789abcdef");
}

#[test]
fn replies_to_hooks() {
    assert_eq!(decision_reply(Some("allow".to_string())), "{\"decision\":\"allow\"}\n");
    assert_eq!(decision_reply(None), "{\"decision\":\"ask\"}\n");
    let a = answer_of("PermissionDecision", "c1".to_string(), "deny".to_string());
    assert_eq!(a, Some(("c1".to_string(), "deny".to_string())));
    assert_eq!(answer_of("Other", "c1".to_string(), "deny".to_string()), None);
}
