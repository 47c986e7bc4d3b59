use session_dash::hook::{
    awaits_decision, build_hook_event, iterm_session_id, permission_behavior,
    HookInput,
};
use session_dash::hooks::{
    can_register_hooks, event_registered_in, hook_event_names, hooks_installed, register_hooks,
};
use session_dash::json::Json;

fn obj(members: Vec<(&str, Json)>) -> Json {
    Json::Object(members.into_iter().map(|(k, v)| (k.to_string(), v)).collect())
}

fn command_group(cmd: &str) -> Json {
    obj(vec![(
        "hooks",
        Json::Array(vec![obj(vec![("type", Json::Str("command".into())), ("command", Json::Str(cmd.into()))])]),
    )])
}

const CMD: &str = "/usr/local/bin/session-dash hook";
const MARK: &str = "session-dash";

#[test]
fn install_registers_every_event_once() {
    let settings = obj(vec![("theme", Json::Str("dark".into()))]);
    assert!(can_register_hooks(&settings, CMD, MARK));
    let (installed, added) = register_hooks(settings, CMD, MARK);
    assert_eq!(added.len(), 10);
    assert!(added.iter().all(|b| *b));
    for e in hook_event_names() {
        assert!(event_registered_in(&installed, &e, MARK), "{e} not registered");
    }
    assert!(hooks_installed(Some(&installed), MARK));
    assert_eq!(installed.get("theme").and_then(|v| v.as_str()).map(|s| s.as_str()), Some("dark"));

    // Installing again registers nothing.
    assert!(can_register_hooks(&installed, CMD, MARK));
    let (again, added) = register_hooks(installed, CMD, MARK);
    assert!(added.iter().all(|b| !*b));
    let groups = again.get("hooks").and_then(|h| h.get("Stop")).and_then(|a| a.as_array()).unwrap();
    assert_eq!(groups.len(), 1);
}

#[test]
fn install_keeps_other_hooks_and_fills_gaps() {
    let settings = obj(vec![(
        "hooks",
        obj(vec![
            ("Stop", Json::Array(vec![command_group("notify-send done")])),
            ("PreToolUse", Json::Array(vec![command_group("/opt/session-dash hook")])),
        ]),
    )]);
    let (installed, added) = register_hooks(settings, CMD, MARK);
    let names = hook_event_names();
    for (i, e) in names.iter().enumerate() {
        assert_eq!(added[i], e != "PreToolUse", "{e}");
    }
    let stop = installed.get("hooks").and_then(|h| h.get("Stop")).and_then(|a| a.as_array()).unwrap();
    assert_eq!(stop.len(), 2);
}

#[test]
fn settings_that_cannot_take_hooks() {
    assert!(!can_register_hooks(&Json::Array(vec![]), CMD, MARK));
    let bad = obj(vec![("hooks", Json::Str("x".into()))]);
    assert!(!can_register_hooks(&bad, CMD, MARK));
    let bad_event = obj(vec![("hooks", obj(vec![("Stop", Json::Null)]))]);
    assert!(!can_register_hooks(&bad_event, CMD, MARK));
}

#[test]
fn hooks_installed_needs_pre_tool_use() {
    assert!(!hooks_installed(None, MARK));
    assert!(!hooks_installed(Some(&obj(vec![])), MARK));
    let other = obj(vec![("hooks", obj(vec![("PreToolUse", Json::Array(vec![command_group("something else")]))]))]);
    assert!(!hooks_installed(Some(&other), MARK));
    let ours = obj(vec![("hooks", obj(vec![("PreToolUse", Json::Array(vec![command_group(CMD)]))]))]);
    assert!(hooks_installed(Some(&ours), MARK));
}

fn input(session: Option<&str>, name: Option<&str>, cwd: &str) -> HookInput {
    HookInput {
        session_id: session.map(|s| s.to_string()),
        transcript_path: "/t.jsonl".to_string(),
        cwd: cwd.to_string(),
        permission_mode: "default".to_string(),
        hook_event_name: name.map(|s| s.to_string()),
        tool_name: Some("Bash".to_string()),
        tool_input: None,
        tool_output: None,
        tool_use_id: None,
        success: None,
        notification_type: None,
        message: None,
    }
}

#[test]
fn hook_events_need_session_and_name() {
    assert!(build_hook_event(input(None, Some("Stop"), "/w"), 1, 2, None, None).is_none());
    assert!(build_hook_event(input(Some("s"), None, "/w"), 1, 2, None, None).is_none());
    let e = build_hook_event(input(Some("s"), Some("Stop"), "/w"), 7, 99, Some("w0t0p0:ABC-123"), Some("/here".into())).unwrap();
    assert_eq!(e.session_id, "s");
    assert_eq!(e.hook_event_name, "Stop");
    assert_eq!(e.cwd, "/w");
    assert_eq!(e.pid, 7);
    assert_eq!(e.ts, 99);
    assert_eq!(e.iterm_session_id.as_deref(), Some("ABC-123"));
    assert_eq!(e.tool_name.as_deref(), Some("Bash"));
    let e = build_hook_event(input(Some("s"), Some("Stop"), ""), 7, 99, None, Some("/here".into())).unwrap();
    assert_eq!(e.cwd, "/here");
    assert_eq!(e.iterm_session_id, None);
    let e = build_hook_event(input(Some("s"), Some("Stop"), ""), 7, 99, None, None).unwrap();
    assert_eq!(e.cwd, "");
}

#[test]
fn terminal_session_ids() {
    assert_eq!(iterm_session_id(Some("w0t1p0:UUID")).as_deref(), Some("UUID"));
    assert_eq!(iterm_session_id(Some("a:b:c")).as_deref(), Some("b"));
    assert_eq!(iterm_session_id(Some("nocolon")), None);
    assert_eq!(iterm_session_id(None), None);
}

#[test]
fn permission_answers() {
    assert!(awaits_decision("PermissionRequest"));
    assert!(!awaits_decision("PreToolUse"));
    assert_eq!(permission_behavior("allow").as_deref(), Some("allow"));
    assert_eq!(permission_behavior("deny").as_deref(), Some("deny"));
    assert_eq!(permission_behavior("ask"), None);
}

#[test]
fn install_from_settings_text() {
    let (text, added) = session_dash::hooks::install_settings(None, CMD, MARK).unwrap();
    assert!(added.iter().all(|b| *b));
    assert!(text.ends_with("}\n"));
    assert!(text.starts_with("{\n  \"hooks\": {"));
    assert!(session_dash::hooks::hooks_installed_in_text(Some(&text), MARK));

    // Text that is not JSON starts from empty settings, as no file does.
    let (from_garbage, _) = session_dash::hooks::install_settings(Some("not json"), CMD, MARK).unwrap();
    assert_eq!(from_garbage, text);

    // Installing into the written settings adds nothing and keeps them.
    let (again, added) = session_dash::hooks::install_settings(Some(&text), CMD, MARK).unwrap();
    assert!(added.iter().all(|b| !*b));
    assert_eq!(again, text);

    // Other settings survive the install.
    let (kept, _) = session_dash::hooks::install_settings(Some("{\"theme\": \"dark\"}"), CMD, MARK).unwrap();
    assert!(kept.contains("\"theme\": \"dark\""));

    // Settings that are not an object cannot take the hooks.
    assert!(session_dash::hooks::install_settings(Some("[1, 2]"), CMD, MARK).is_none());
    assert!(session_dash::hooks::install_settings(Some("{\"hooks\": 3}"), CMD, MARK).is_none());
}

#[test]
fn installed_hooks_read_from_text() {
    assert!(!session_dash::hooks::hooks_installed_in_text(None, MARK));
    assert!(!session_dash::hooks::hooks_installed_in_text(Some("{"), MARK));
    assert!(!session_dash::hooks::hooks_installed_in_text(Some("{}"), MARK));
    let ours = "{\"hooks\": {\"PreToolUse\": [{\"hooks\": [{\"type\": \"command\", \"command\": \"/bin/session-dash hook\"}]}]}}";
    assert!(session_dash::hooks::hooks_installed_in_text(Some(ours), MARK));
    let other = "{\"hooks\": {\"PreToolUse\": [{\"hooks\": [{\"type\": \"command\", \"command\": \"/bin/other hook\"}]}]}}";
    assert!(!session_dash::hooks::hooks_installed_in_text(Some(other), MARK));
}

#[test]
fn hooks_are_recognised_by_the_given_marker() {
    // A hook of the same tool installed under another program name.
    let other_name = "{\"hooks\": {\"PreToolUse\": [{\"hooks\": [{\"type\": \"command\", \"command\": \"/opt/other-dash hook\"}]}]}}";
    assert!(session_dash::hooks::hooks_installed_in_text(Some(other_name), "other-dash"));
    assert!(!session_dash::hooks::hooks_installed_in_text(Some(other_name), MARK));
    let (_, added) =
        session_dash::hooks::install_settings(Some(other_name), "/opt/other-dash hook", "other-dash").unwrap();
    let names = hook_event_names();
    for (e, now) in names.iter().zip(added.iter()) {
        assert_eq!(*now, e != "PreToolUse", "{e}");
    }
}
