use session_dash::detail_view::{
    build_timeline, detail_lines, detail_scroll_top, push_diff_lines, push_message, push_tool,
    thinking_spinner, visual_row_count, TimelineItem,
};
use session_dash::json::Json;
use session_dash::screen::{blank_line, line1, span, Line, Style};
use session_dash::status::{SessionStatus, Tint};
use session_dash::transcript::{MessageRole, TranscriptMessage};
use session_dash::types::{SessionState, ToolHistoryEntry};

fn joined(l: &Line) -> String {
    l.spans.iter().map(|s| s.text.clone()).collect::<Vec<_>>().concat()
}

fn msg(role: MessageRole, text: &str, ts: i64) -> TranscriptMessage {
    TranscriptMessage { id: ts.to_string(), role, text: text.to_string(), timestamp: ts }
}

fn tool(name: &str, start: i64, end: Option<i64>) -> ToolHistoryEntry {
    ToolHistoryEntry {
        tool_name: name.to_string(),
        tool_input: Json::Object(vec![("command".to_string(), Json::Str("ls".to_string()))]),
        tool_output: Some("a\nb".to_string()),
        success: Some(true),
        tool_use_id: None,
        started_at: start,
        ended_at: end,
    }
}

#[test]
fn user_bubble() {
    let mut out = Vec::new();
    push_message(&mut out, &msg(MessageRole::User, "hi there", 0), 40);
    let shown: Vec<String> = out.iter().map(joined).collect();
    let pad = " ".repeat(28);
    assert_eq!(
        shown,
        vec![
            format!("{pad}╭{}╮", "─".repeat(10)),
            format!("{pad}│ hi there │"),
            format!("{pad}╰{}╯", "─".repeat(10)),
        ]
    );
}

#[test]
fn assistant_text() {
    let mut out = Vec::new();
    let text = "# Title\n```\n- item\n\n    code\nplain";
    push_message(&mut out, &msg(MessageRole::Assistant, text, 0), 40);
    let shown: Vec<String> = out.iter().map(joined).collect();
    assert_eq!(shown, vec!["  Title", "  ▸ item", "", "      code", "  plain"]);
    assert_eq!(out[0].spans[1].style, Style { fg: Some(Tint::Cyan), bold: true, dim: false });
    assert_eq!(out[3].spans[1].style.fg, Some(Tint::Rgb(120, 140, 160)));
}

#[test]
fn tool_rows() {
    let mut out = Vec::new();
    push_tool(&mut out, &tool("Bash", 1_000, Some(3_500)), "10:00:01", "");
    let shown: Vec<String> = out.iter().map(joined).collect();
    assert_eq!(shown, vec!["10:00:01 ✓ Bash       ls 2s", "  > a", "  > b"]);
    let mut out = Vec::new();
    push_tool(&mut out, &tool("Bash", 1_000, None), "10:00:01", "");
    assert_eq!(joined(&out[0]), "10:00:01 · Bash       ls");
}

#[test]
fn long_diffs_are_cut() {
    let mut out = Vec::new();
    let text: String = (0..14).map(|i| format!("{i}\n")).collect();
    push_diff_lines(&mut out, &text, "+", Tint::Green);
    assert_eq!(out.len(), 13);
    assert_eq!(joined(&out[0]), "  + 0");
    assert_eq!(joined(&out[12]), "  … 2 more lines");
    let mut out = Vec::new();
    let text: String = (0..13).map(|i| format!("{i}\n")).collect();
    push_diff_lines(&mut out, &text, "-", Tint::Red);
    assert_eq!(joined(&out[12]), "  … 1 more line");
}

#[test]
fn timeline_order() {
    let msgs = vec![msg(MessageRole::User, "a", 5), msg(MessageRole::Assistant, "b", 20)];
    let tools = vec![tool("Read", 10, Some(11)), tool("Bash", 5, None)];
    assert_eq!(
        build_timeline(&msgs, &tools),
        vec![TimelineItem::Message(0), TimelineItem::Tool(1), TimelineItem::Tool(0), TimelineItem::Message(1)]
    );
}

#[test]
fn rows_and_scrolling() {
    let lines = vec![
        line1(span("abcdefghij".to_string(), Style { fg: None, bold: false, dim: false })),
        blank_line(),
    ];
    assert_eq!(visual_row_count(&lines, 4), 4);
    assert_eq!(visual_row_count(&lines, 0), 2);
    assert_eq!(visual_row_count(&lines, 10), 2);
    assert_eq!(detail_scroll_top(50, 20, 0), 30);
    assert_eq!(detail_scroll_top(50, 20, 10), 20);
    assert_eq!(detail_scroll_top(50, 20, 100), 0);
    assert_eq!(detail_scroll_top(10, 20, 5), 0);
    assert_eq!(thinking_spinner(0), "⠋");
    assert_eq!(thinking_spinner(9), "⠙");
}

#[test]
fn whole_pane() {
    let s = SessionState {
        session_id: "s".to_string(),
        status: SessionStatus::Processing,
        cwd: "/w".to_string(),
        transcript_path: String::new(),
        pid: 1,
        started_at: 0,
        last_event_at: 0,
        current_tool: None,
        current_tool_input: None,
        current_tool_use_id: None,
        tool_history: vec![tool("Bash", 10, Some(20)), tool("Read", 30, None)],
        agents: vec![],
        last_notification: None,
    };
    let msgs = vec![msg(MessageRole::Assistant, "done", 15)];
    let stamps = vec!["t0".to_string(), "t1".to_string()];
    let lines = detail_lines(&s, "name".to_string(), &msgs, &stamps, 0, 60, 65_000, "");
    let shown: Vec<String> = lines.iter().map(joined).collect();
    assert_eq!(shown[0], "name  /w  processing  1m 5s");
    assert_eq!(shown[1], "");
    assert_eq!(shown[2], "t0 ✓ Bash       ls 0s");
    assert_eq!(shown[5], "");
    assert_eq!(shown[6], "  done");
    assert_eq!(shown[7], "");
    assert_eq!(shown[8], "── live ──");
    assert_eq!(shown[9], "t1 · Read       —");

    let idle = SessionState { status: SessionStatus::WaitingForInput, tool_history: vec![], ..s };
    let lines = detail_lines(&idle, "n".to_string(), &vec![], &vec![], 0, 60, 65_000, "");
    assert_eq!(joined(&lines[2]), "No activity yet");
}
