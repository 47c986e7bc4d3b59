use session_dash::dashboard::{App, AppEvent, Command, Key, SortMode};
use session_dash::json::Json;
use session_dash::status::SessionStatus;
use session_dash::types::{DaemonMessage, PendingPermission, SessionState};

type Dash = App<(), ()>;

fn session(id: &str, status: SessionStatus, cwd: &str, last: i64) -> SessionState {
    SessionState {
        session_id: id.to_string(),
        status,
        cwd: cwd.to_string(),
        transcript_path: format!("/t/{id}"),
        pid: 1,
        started_at: 0,
        last_event_at: last,
        current_tool: None,
        current_tool_input: None,
        current_tool_use_id: None,
        tool_history: vec![],
        agents: vec![],
        last_notification: None,
    }
}

fn perm(conn: &str, session: &str, tool: &str) -> PendingPermission {
    PendingPermission {
        connection_id: conn.to_string(),
        session_id: session.to_string(),
        tool_name: tool.to_string(),
        tool_input: Json::Null,
        tool_use_id: None,
        cwd: "/w".to_string(),
        requested_at: 0,
    }
}

fn snapshot(sessions: Vec<SessionState>, perms: Vec<PendingPermission>) -> AppEvent<(), ()> {
    AppEvent::DaemonMessage(DaemonMessage::StateSnapshot { sessions, pending_permissions: perms })
}

fn ids(app: &Dash) -> Vec<String> {
    app.sessions.iter().map(|s| s.session_id.clone()).collect()
}

fn decisions(cmds: Vec<Command>) -> Vec<(String, String)> {
    cmds.into_iter()
        .filter_map(|c| match c {
            Command::SendDecision { connection_id, decision } => Some((connection_id, decision)),
            _ => None,
        })
        .collect()
}

#[test]
fn sessions_are_grouped_then_ordered() {
    let mut app = Dash::new((), Some("/home/ann".to_string()));
    app.handle_event(snapshot(
        vec![
            session("idle-old", SessionStatus::WaitingForInput, "/b", 1),
            session("busy", SessionStatus::Processing, "/c", 5),
            session("idle-new", SessionStatus::WaitingForInput, "/a", 9),
            session("gone", SessionStatus::Ended, "/d", 20),
            session("asks", SessionStatus::Processing, "/e", 2),
        ],
        vec![perm("c1", "asks", "Bash")],
    ));
    assert_eq!(ids(&app), vec!["asks", "busy", "idle-new", "idle-old", "gone"]);
    assert_eq!(app.sessions[0].status, SessionStatus::WaitingForApproval);
    assert_eq!(app.pending_permissions.len(), 1);
    // Alphabetical by directory within each group.
    assert!(!app.handle_key(Key::Char('o'), false));
    assert_eq!(app.sort_mode, SortMode::Alphabetical);
    assert_eq!(ids(&app), vec!["asks", "busy", "idle-new", "idle-old", "gone"]);
    assert_eq!(app.sort_mode.label(), "a-z");
    assert_eq!(SortMode::Alphabetical.next(), SortMode::Recent);
    assert_eq!(app.active_count(), 2);
}

#[test]
fn approving_for_the_session_answers_later_requests() {
    let mut app = Dash::new((), None);
    app.handle_event(snapshot(vec![session("s", SessionStatus::Processing, "/w", 1)], vec![perm("c1", "s", "Bash")]));
    assert!(app.selected_pending_permission().is_some());
    assert!(!app.handle_key(Key::Char('s'), false));
    assert_eq!(decisions(app.take_commands()), vec![("c1".to_string(), "allow".to_string())]);
    // A later request for the same tool is answered at once and does not wait.
    app.handle_event(snapshot(
        vec![session("s", SessionStatus::Processing, "/w", 2)],
        vec![perm("c2", "s", "Bash"), perm("c3", "s", "Write")],
    ));
    assert_eq!(decisions(app.take_commands()), vec![("c2".to_string(), "allow".to_string())]);
    assert_eq!(app.pending_permissions.len(), 1);
    assert_eq!(app.pending_permissions[0].connection_id, "c3");
    assert!(!app.handle_key(Key::Char('d'), false));
    assert_eq!(decisions(app.take_commands()), vec![("c3".to_string(), "deny".to_string())]);
}

#[test]
fn quitting() {
    let mut app = Dash::new((), None);
    assert!(app.handle_key(Key::Char('q'), false));
    assert!(app.handle_key(Key::Char('c'), true));
    assert!(!app.handle_key(Key::Char('c'), false));
    assert!(app.handle_key(Key::Char('Q'), false));
    assert!(app.take_commands().iter().any(|c| matches!(c, Command::KillDaemon)));
}

#[test]
fn selection_moves_and_stays_in_the_list() {
    let mut app = Dash::new((), None);
    app.handle_event(snapshot(
        vec![
            session("a", SessionStatus::Processing, "/a", 3),
            session("b", SessionStatus::Processing, "/b", 2),
            session("c", SessionStatus::Ended, "/c", 1),
        ],
        vec![],
    ));
    app.handle_key(Key::Down, false);
    app.handle_key(Key::Char('j'), false);
    app.handle_key(Key::Down, false);
    assert_eq!(app.selected_index, 2);
    app.handle_key(Key::Up, false);
    assert_eq!(app.selected_session().map(|s| s.session_id.clone()), Some("b".to_string()));
    // Clearing ended sessions keeps the selected one selected.
    app.handle_key(Key::Char('x'), false);
    assert_eq!(ids(&app), vec!["a", "b"]);
    assert_eq!(app.selected_index, 1);
    // Removing the selected session clamps the selection.
    app.handle_key(Key::Delete, false);
    assert_eq!(ids(&app), vec!["a"]);
    assert_eq!(app.selected_index, 0);
    app.handle_key(Key::Backspace, false);
    assert!(app.sessions.is_empty());
    assert_eq!(app.clamped_index(), 0);
    assert!(app.selected_session().is_none());
}

#[test]
fn renaming() {
    let mut app = Dash::new((), None);
    app.handle_event(snapshot(vec![session("0123456789", SessionStatus::Processing, "/a", 3)], vec![]));
    assert_eq!(app.session_display_name("0123456789"), "01234567");
    app.handle_key(Key::Char('e'), false);
    assert!(app.show_rename);
    for c in "  web ".chars() {
        app.handle_key(Key::Char(c), false);
    }
    app.handle_key(Key::Enter, false);
    assert!(!app.show_rename);
    assert_eq!(app.session_display_name("0123456789"), "web");
    app.handle_key(Key::Char('e'), false);
    assert_eq!(app.rename_input, "web");
    for _ in 0..3 {
        app.handle_key(Key::Backspace, false);
    }
    app.handle_key(Key::Enter, false);
    assert_eq!(app.session_display_name("0123456789"), "01234567");
    assert_eq!(app.session_display_name("abc"), "abc");
}

#[test]
fn new_session_dialog() {
    let mut app = Dash::new((), Some("/home/ann".to_string()));
    app.handle_key(Key::Char('n'), false);
    assert!(app.show_new_session);
    for c in " ~/proj ".chars() {
        app.handle_key(Key::Char(c), false);
    }
    app.handle_key(Key::Enter, false);
    let launched: Vec<String> = app
        .take_commands()
        .into_iter()
        .filter_map(|c| match c {
            Command::LaunchSession { dir } => Some(dir),
            _ => None,
        })
        .collect();
    assert_eq!(launched, vec!["/home/ann/proj".to_string()]);
    app.launch_finished(Ok(()));
    assert!(app.new_session_launched);
    app.tick();
    assert!(!app.show_new_session);
    assert_eq!(app.tick_count, 1);
    app.handle_key(Key::Char('n'), false);
    app.handle_key(Key::Esc, false);
    assert!(!app.show_new_session);
}

#[test]
fn recent_directories() {
    let mut app = Dash::new((), None);
    app.handle_event(snapshot(
        vec![
            session("a", SessionStatus::Processing, "/one", 1),
            session("b", SessionStatus::Processing, "/two", 5),
            session("c", SessionStatus::Processing, "/one", 9),
            session("d", SessionStatus::Processing, "/three", 5),
        ],
        vec![],
    ));
    assert_eq!(app.recent_cwds(), vec!["/one", "/two", "/three"]);
}

#[test]
fn usage_updates() {
    let mut app: App<u32, u8> = App::new(0, None);
    app.handle_event(AppEvent::UsageLoading);
    assert!(app.usage.loading);
    app.handle_event(AppEvent::UsageLoaded(7));
    assert!(!app.usage.loading);
    assert_eq!(app.usage.snapshot, 7);
    assert!(app.take_commands().iter().any(|c| matches!(c, Command::SaveUsageCache)));
    app.handle_event(AppEvent::RateLimitsLoaded(3));
    assert_eq!(app.usage.limits, Some(3));
    app.handle_event(AppEvent::DaemonConnected);
    assert!(app.connected);
    app.handle_event(AppEvent::DaemonDisconnected);
    assert!(!app.connected);
}

#[test]
fn model_breakdown_order() {
    let order = session_dash::dashboard::order_by_tokens(&vec![5, 9, 5, 12, 0]);
    assert_eq!(order, vec![3, 1, 0, 2, 4]);
    assert!(session_dash::dashboard::order_by_tokens(&vec![]).is_empty());
}
