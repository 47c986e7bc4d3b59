use session_dash::dashboard::SortMode;
use session_dash::json::Json;
use session_dash::overlays::{
    build_permission_body, centered_rect, format_tool_name, new_session_lines, new_session_title,
    permission_buttons, permission_lines, permission_popup, rename_lines, rename_title, Rect,
};
use session_dash::screen::{
    any_ended, build_slots, compute_offset, empty_list_line, footer_left, footer_right,
    list_header, notification_mentions_permission, section_label, session_item, Line, Slot, Style,
};
use session_dash::status::{SessionStatus, Tint};
use session_dash::types::{PendingPermission, SessionState};

fn texts(l: &Line) -> Vec<String> {
    l.spans.iter().map(|s| s.text.clone()).collect()
}

fn joined(l: &Line) -> String {
    texts(l).concat()
}

fn session(id: &str, status: SessionStatus) -> SessionState {
    SessionState {
        session_id: id.to_string(),
        status,
        cwd: "/home/ann/src/app".to_string(),
        transcript_path: String::new(),
        pid: 1,
        started_at: 1_000,
        last_event_at: 1_000,
        current_tool: None,
        current_tool_input: None,
        current_tool_use_id: None,
        tool_history: vec![],
        agents: vec![],
        last_notification: None,
    }
}

#[test]
fn list_title() {
    assert_eq!(texts(&list_header(2, 5)), vec!["Agents", " · 2 active", " · 5 total"]);
    assert_eq!(texts(&list_header(0, 1)), vec!["Agents", " · 1 total"]);
    assert_eq!(joined(&empty_list_line("Helper")), "Waiting for Helper sessions…");
}

#[test]
fn group_headings() {
    assert_eq!(section_label(SessionStatus::WaitingForApproval), ("waiting for approval", Tint::Yellow));
    assert_eq!(section_label(SessionStatus::Compacting), ("active", Tint::Green));
    assert_eq!(section_label(SessionStatus::Ended), ("ended", Tint::DarkGray));
    let ss = vec![
        session("a", SessionStatus::WaitingForApproval),
        session("b", SessionStatus::Processing),
        session("c", SessionStatus::RunningTool),
        session("d", SessionStatus::Ended),
    ];
    let slots = build_slots(&ss);
    let shape: Vec<String> = slots
        .iter()
        .map(|s| match s {
            Slot::Header { status } => format!("H{}", section_label(*status).0),
            Slot::Session(i) => format!("S{i}"),
        })
        .collect();
    assert_eq!(shape, vec!["Hwaiting for approval", "S0", "Hactive", "S1", "S2", "Hended", "S3"]);
}

#[test]
fn list_scrolling() {
    assert_eq!(compute_offset(0, 0, 10, 4), 0);
    assert_eq!(compute_offset(0, 5, 10, 4), 2);
    assert_eq!(compute_offset(5, 3, 10, 4), 3);
    assert_eq!(compute_offset(8, 9, 10, 4), 6);
    assert_eq!(compute_offset(3, 3, 0, 4), 0);
    assert_eq!(compute_offset(3, 3, 5, 0), 0);
}

#[test]
fn session_rows() {
    let mut s = session("abc", SessionStatus::WaitingForApproval);
    s.current_tool = Some("Bash".to_string());
    let rows = session_item(&s, true, true, "abc".to_string(), 61_000, "/home/ann");
    assert_eq!(
        texts(&rows[0]),
        vec!["▶ ", "⚠", " ", "abc", " ", "~/src/app", " ", "approval", " 1m 0s"]
    );
    assert_eq!(rows[0].spans[3].style, Style { fg: None, bold: true, dim: false });
    assert_eq!(texts(&rows[1]), vec!["     ", "permission needed: Bash"]);

    let mut idle = session("x", SessionStatus::WaitingForInput);
    idle.last_notification = Some("Needs your PERMISSION to run".to_string());
    let rows = session_item(&idle, false, false, "x".to_string(), 1_000, "");
    assert!(rows[1].spans.is_empty());
    let rows = session_item(&idle, false, true, "x".to_string(), 1_000, "");
    assert_eq!(texts(&rows[1]), vec!["     ", "Needs your PERMISSION to run"]);

    let done = session("y", SessionStatus::Ended);
    let rows = session_item(&done, false, false, "y".to_string(), 1_000, "");
    assert_eq!(texts(&rows[1]), vec!["     ", "session ended"]);
    assert_eq!(texts(&rows[0])[0], "  ");
}

#[test]
fn permission_words() {
    assert!(notification_mentions_permission("Permission required"));
    assert!(notification_mentions_permission("needs pErMiSsIoN"));
    assert!(!notification_mentions_permission("permit"));
}

#[test]
fn footer_hints() {
    let l = footer_left(true, true, false, false, SortMode::Recent, true);
    assert_eq!(
        joined(&l),
        "[q] quit  [↑↓] select  [a] allow  [s] allow session  [d] deny  [⏎] switch to  [e] rename  [n] new  [r] refresh  [o] sort:recent  [⌫] remove  [x] clear ended  "
    );
    let l = footer_left(false, false, false, true, SortMode::Alphabetical, false);
    assert_eq!(joined(&l), "[q] quit  [r] refresh  ");
    assert_eq!(joined(&footer_right(3, true)), "⚠ 3 pending  ");
    assert_eq!(joined(&footer_right(0, true)), "● connected  ");
    assert_eq!(joined(&footer_right(0, false)), "⊘ disconnected  ");
    assert!(any_ended(&vec![session("a", SessionStatus::Ended)]));
    assert!(!any_ended(&vec![session("a", SessionStatus::Processing)]));
}

fn perm(tool: &str, input: Json) -> PendingPermission {
    PendingPermission {
        connection_id: "c".to_string(),
        session_id: "0123456789abcdef".to_string(),
        tool_name: tool.to_string(),
        tool_input: input,
        tool_use_id: None,
        cwd: "/home/ann/w".to_string(),
        requested_at: 0,
    }
}

fn obj(members: Vec<(&str, Json)>) -> Json {
    Json::Object(members.into_iter().map(|(k, v)| (k.to_string(), v)).collect())
}

#[test]
fn tool_names() {
    assert_eq!(format_tool_name("mcp__github__create_issue"), "github › create_issue");
    assert_eq!(format_tool_name("mcp__plain"), "mcp__plain");
    assert_eq!(format_tool_name("Bash"), "Bash");
}

#[test]
fn permission_bodies() {
    let edit = perm(
        "Edit",
        obj(vec![
            ("file_path", Json::Str("/home/ann/w/a.rs".into())),
            ("old_string", Json::Str("x\ny".into())),
            ("new_string", Json::Str("z".into())),
            ("replace_all", Json::Bool(true)),
        ]),
    );
    let body = build_permission_body(&edit, "/home/ann");
    let shown: Vec<String> = body.iter().map(joined).collect();
    assert_eq!(shown, vec!["file  ~/w/a.rs", "      replace all occurrences", "", "- x", "- y", "+ z"]);

    let long: String = (0..35).map(|i| format!("l{i}\n")).collect();
    let write = perm("Write", obj(vec![("content", Json::Str(long))]));
    let body = build_permission_body(&write, "/home/ann");
    assert_eq!(body.len(), 2 + 30 + 1);
    assert_eq!(joined(&body[32]), "  … 5 more lines");

    let cmd: String = (0..21).map(|i| format!("echo {i}\n")).collect();
    let bash = perm("Bash", obj(vec![("command", Json::Str(cmd))]));
    let body = build_permission_body(&bash, "/home/ann");
    assert_eq!(joined(&body[0]), "  command");
    assert_eq!(joined(&body[2]), "  $ echo 0");
    assert_eq!(joined(&body[22]), "  … 1 more lines");

    let other = perm("Fetch", obj(vec![("url", Json::Str("x".into())), ("depth", Json::Number("2".into()))]));
    let body = build_permission_body(&other, "/home/ann");
    assert_eq!(
        body.iter().map(joined).collect::<Vec<_>>(),
        vec!["{", "  \"depth\": 2,", "  \"url\": \"x\"", "}"]
    );

    let all = permission_lines(&edit, "/home/ann");
    assert_eq!(joined(&all[0]), "session 01234567  ~/w");
    assert_eq!(joined(&all[1]), "tool    Edit");
    assert_eq!(all.len(), 3 + 6);
    assert_eq!(joined(&permission_buttons()), "[a] Allow      [s] Allow for session      [d] Deny");
}

#[test]
fn popups() {
    let area = Rect { x: 0, y: 0, width: 100, height: 40 };
    assert_eq!(centered_rect(area, 64, 12), Rect { x: 18, y: 14, width: 64, height: 12 });
    assert_eq!(centered_rect(area, 200, 50), area);
    assert_eq!(permission_popup(area, 10), Rect { x: 10, y: 11, width: 80, height: 18 });
}

#[test]
fn dialogs() {
    assert_eq!(new_session_title(true, true), " ◆ New Session ");
    assert_eq!(new_session_title(false, true), " ◆ New Session (opens iTerm2) ");
    assert_eq!(new_session_title(false, false), " ◆ New Session (opens Terminal.app) ");
    let recent: Vec<String> = (0..6).map(|i| format!("/home/ann/p{i}")).collect();
    let lines = new_session_lines("agent", &"~/p1".to_string(), &recent, false, &None, "/home/ann");
    let shown: Vec<String> = lines.iter().map(joined).collect();
    assert_eq!(
        shown,
        vec![
            "Working directory:", "", " ~/p1▌", "", "Recent:", "  ~/p0", "  ~/p1", "  ~/p2", "  ~/p3", "",
            "", "[enter] launch   [esc] cancel",
        ]
    );
    let lines = new_session_lines("agent", &"/w".to_string(), &recent, true, &Some("boom".into()), "/home/ann");
    let shown: Vec<String> = lines.iter().map(joined).collect();
    assert_eq!(shown, vec!["Working directory:", "", " /w▌", "", "✓ launching agent in /w…", "✗ boom", "", "[enter] launch   [esc] cancel"]);
    assert_eq!(rename_title("abc"), " ✎ Rename — abc ");
    let shown: Vec<String> = rename_lines(&"new".to_string()).iter().map(joined).collect();
    assert_eq!(shown, vec!["", " new▌", "", " empty name → restore original id", "", "[enter] confirm   [esc] cancel"]);
}
