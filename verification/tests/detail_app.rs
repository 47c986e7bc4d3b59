use session_dash::dashboard::{Command, Key};
use session_dash::detail::{App, AppEvent};
use session_dash::status::SessionStatus;
use session_dash::transcript::{MessageRole, TranscriptMessage};
use session_dash::types::{DaemonMessage, SessionState};

type Pane = App<(), ()>;

fn session(id: &str, status: SessionStatus) -> SessionState {
    SessionState {
        session_id: id.to_string(),
        status,
        cwd: "/w".to_string(),
        transcript_path: format!("/t/{id}.jsonl"),
        pid: 1,
        started_at: 0,
        last_event_at: 0,
        current_tool: None,
        current_tool_input: None,
        current_tool_use_id: None,
        tool_history: vec![],
        agents: vec![],
        last_notification: None,
    }
}

fn watched(cmds: Vec<Command>) -> Vec<Option<String>> {
    cmds.into_iter()
        .filter_map(|c| match c {
            Command::WatchTranscript(p) => Some(p),
            _ => None,
        })
        .collect()
}

fn delta(sessions: Vec<SessionState>) -> AppEvent<(), ()> {
    AppEvent::DaemonMessage(DaemonMessage::StateDelta { sessions, pending_permissions: vec![] })
}

#[test]
fn transcript_follows_the_selection() {
    let mut app = Pane::new((), None);
    app.handle_event(delta(vec![session("a", SessionStatus::Processing), session("b", SessionStatus::Ended)]));
    assert_eq!(watched(app.take_commands()), vec![Some("/t/a.jsonl".to_string())]);
    app.handle_event(AppEvent::TranscriptLoaded(vec![TranscriptMessage {
        id: "1".into(),
        role: MessageRole::User,
        text: "hi".into(),
        timestamp: 1,
    }]));
    assert_eq!(app.transcript.len(), 1);
    // The same selection after another update: nothing new to follow.
    app.handle_event(delta(vec![session("a", SessionStatus::Processing), session("b", SessionStatus::Ended)]));
    assert!(watched(app.take_commands()).is_empty());
    assert_eq!(app.transcript.len(), 1);
    app.handle_key(Key::PageUp, false);
    assert_eq!(app.detail_scroll, 20);
    app.handle_key(Key::Down, false);
    assert_eq!(watched(app.take_commands()), vec![Some("/t/b.jsonl".to_string())]);
    assert!(app.transcript.is_empty());
    assert_eq!(app.detail_scroll, 0);
}

#[test]
fn list_is_grouped_by_status_only() {
    let mut app = Pane::new((), None);
    app.handle_event(delta(vec![
        session("idle", SessionStatus::WaitingForInput),
        session("done", SessionStatus::Ended),
        session("busy", SessionStatus::RunningTool),
        session("idle2", SessionStatus::WaitingForInput),
    ]));
    let ids: Vec<String> = app.sessions.iter().map(|s| s.session_id.clone()).collect();
    assert_eq!(ids, vec!["busy", "idle", "idle2", "done"]);
}

#[test]
fn typing_to_a_session() {
    let mut app = Pane::new((), None);
    app.handle_event(delta(vec![session("a", SessionStatus::WaitingForInput)]));
    app.take_commands();
    app.handle_key(Key::Enter, false);
    assert!(app.show_input);
    for c in "  run it  ".chars() {
        app.handle_key(Key::Char(c), false);
    }
    app.handle_key(Key::Backspace, false);
    assert!(!app.handle_key(Key::Enter, false));
    assert!(!app.show_input);
    let sent: Vec<(String, String)> = app
        .take_commands()
        .into_iter()
        .filter_map(|c| match c {
            Command::SendMessage { session_id, text } => Some((session_id, text)),
            _ => None,
        })
        .collect();
    assert_eq!(sent, vec![("a".to_string(), "run it".to_string())]);
    // Blank input sends nothing.
    app.handle_key(Key::Char('i'), false);
    app.handle_key(Key::Char(' '), false);
    app.handle_key(Key::Enter, false);
    assert!(app.take_commands().is_empty());
}

#[test]
fn scrolling_saturates() {
    let mut app = Pane::new((), None);
    app.handle_key(Key::PageDown, false);
    assert_eq!(app.detail_scroll, 0);
    app.detail_scroll = usize::MAX - 5;
    app.handle_key(Key::PageUp, false);
    assert_eq!(app.detail_scroll, usize::MAX);
}
