use session_dash::format::{
    abbreviate_home, collapse_whitespace, format_duration, format_tool_input, short_path,
    tool_summary, trunc_mid, truncate_model_date, wrap_text,
};
use session_dash::json::Json;
use session_dash::status::Tint;

fn obj(members: Vec<(&str, Json)>) -> Json {
    Json::Object(members.into_iter().map(|(k, v)| (k.to_string(), v)).collect())
}

fn s(t: &str) -> Json {
    Json::Str(t.to_string())
}

#[test]
fn durations() {
    assert_eq!(format_duration(3_725_000), "1h 2m");
    assert_eq!(format_duration(125_000), "2m 5s");
    assert_eq!(format_duration(59_999), "59s");
    assert_eq!(format_duration(-5_000), "0s");
    assert_eq!(format_duration(0), "0s");
}

#[test]
fn middle_truncation() {
    assert_eq!(trunc_mid("abcdefghij", 8), "abc...ij");
    assert_eq!(trunc_mid("short", 8), "short");
    assert_eq!(trunc_mid("abcdefghij", 10), "abcdefghij");
    assert_eq!(trunc_mid("αβγδεζηθικ", 7), "αβ...ικ");
}

#[test]
fn home_is_abbreviated() {
    assert_eq!(abbreviate_home("/home/ann/src/app", "/home/ann"), "~/src/app");
    assert_eq!(abbreviate_home("/opt/app", "/home/ann"), "/opt/app");
    assert_eq!(abbreviate_home("/opt/app", ""), "/opt/app");
}

#[test]
fn short_paths_keep_two_parts() {
    assert_eq!(short_path("/home/ann/src/app/main.rs", "/home/ann"), "app/main.rs");
    assert_eq!(short_path("main.rs", "/home/ann"), "main.rs");
    assert_eq!(short_path("/home/ann/x", "/home/ann"), "~/x");
}

#[test]
fn wrapping_breaks_at_spaces() {
    assert_eq!(wrap_text("hello world foo", 11), vec!["hello", "world foo"]);
    assert_eq!(wrap_text("abcdefghij", 4), vec!["abcd", "efgh", "ij"]);
    assert_eq!(wrap_text("one\n\ntwo", 10), vec!["one", "", "two"]);
    assert_eq!(wrap_text("anything at all", 0), vec!["anything at all"]);
}

#[test]
fn whitespace_runs_collapse() {
    assert_eq!(collapse_whitespace("  ls   -la \n /tmp  "), "ls -la /tmp");
    assert_eq!(collapse_whitespace(""), "");
}

#[test]
fn model_dates_are_cut() {
    assert_eq!(truncate_model_date("opus-4-20250514"), "opus");
    assert_eq!(truncate_model_date("sonnet-3-5-20241022"), "sonnet");
    assert_eq!(truncate_model_date("haiku"), "haiku");
    assert_eq!(truncate_model_date("2024"), "");
}

#[test]
fn tool_details() {
    let edit = obj(vec![
        ("file_path", s("/home/ann/src/lib.rs")),
        ("old_string", s("a\nb")),
        ("new_string", s("c")),
    ]);
    let d = format_tool_input("Edit", &edit, "/home/ann");
    assert_eq!(d.summary, "src/lib.rs");
    assert_eq!(d.diff_removed, Some(2));
    assert_eq!(d.diff_added, Some(1));
    assert_eq!(d.color, Tint::Yellow);

    let bash = obj(vec![("command", s("cargo   build \n --release"))]);
    let d = format_tool_input("Bash", &bash, "/home/ann");
    assert_eq!(d.summary, "cargo build --release");
    assert_eq!(d.color, Tint::Magenta);

    let grep = obj(vec![("pattern", s("fn main")), ("path", s("/home/ann/src"))]);
    assert_eq!(format_tool_input("Grep", &grep, "/home/ann").summary, "/fn main/ in ~/src");

    let other = obj(vec![("alpha", s("/home/ann/notes"))]);
    let d = format_tool_input("Custom", &other, "/home/ann");
    assert_eq!(d.summary, "~/notes");
    assert_eq!(d.color, Tint::White);

    let read = obj(vec![]);
    assert_eq!(format_tool_input("Read", &read, "/home/ann").summary, "—");
}

#[test]
fn tool_summaries() {
    let input = obj(vec![("command", s("ls -la"))]);
    assert_eq!(tool_summary("Bash", &input, "/home/ann"), "Bash: ls -la");
    let input = obj(vec![("filePath", s("/home/ann/a.txt"))]);
    assert_eq!(tool_summary("Read", &input, "/home/ann"), "Read: ~/a.txt");
    assert_eq!(tool_summary("Think", &obj(vec![]), "/home/ann"), "Think");
}

#[test]
fn token_counts() {
    assert_eq!(session_dash::format::fmt_tokens(0).as_deref(), Some("0 tok"));
    assert_eq!(session_dash::format::fmt_tokens(999).as_deref(), Some("999 tok"));
    assert_eq!(session_dash::format::fmt_tokens(-5).as_deref(), Some("-5 tok"));
    assert_eq!(session_dash::format::fmt_tokens(1000).as_deref(), Some("1k tok"));
    assert_eq!(session_dash::format::fmt_tokens(999_999).as_deref(), Some("999k tok"));
    assert_eq!(session_dash::format::fmt_tokens(1_000_000), None);
}
