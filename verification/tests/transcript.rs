use session_dash::json::Json;
use session_dash::transcript::{
    complete_prefix_len, entry_lines_of, parse, parse_content, parse_iso_ms_trimmed, plan_read,
    MessageRole, ReadPlan,
};

fn obj(members: Vec<(&str, Json)>) -> Json {
    Json::Object(members.into_iter().map(|(k, v)| (k.to_string(), v)).collect())
}

fn s(t: &str) -> Json {
    Json::Str(t.to_string())
}

#[test]
fn content_of_messages() {
    assert_eq!(parse_content(Some(&s("  hi there \n"))), "hi there");
    let blocks = Json::Array(vec![
        obj(vec![("type", s("text")), ("text", s(" first"))]),
        obj(vec![("type", s("tool_use")), ("text", s("skipped"))]),
        obj(vec![("type", s("text"))]),
        obj(vec![("type", s("text")), ("text", s("second "))]),
    ]);
    assert_eq!(parse_content(Some(&blocks)), "first\nsecond");
    assert_eq!(parse_content(Some(&Json::Null)), "");
    assert_eq!(parse_content(None), "");
}

#[test]
fn entries_become_messages() {
    let entries = vec![
        Some(obj(vec![
            ("type", s("user")),
            ("uuid", s("u1")),
            ("timestamp", s(" 2024-01-15T10:30:00Z ")),
            ("message", obj(vec![("content", s("hello"))])),
        ])),
        None,
        Some(obj(vec![("type", s("system")), ("message", obj(vec![("content", s("x"))]))])),
        Some(obj(vec![("type", s("assistant")), ("message", obj(vec![("content", s("  "))]))])),
        Some(obj(vec![
            ("type", s("assistant")),
            ("timestamp", s("garbage")),
            ("message", obj(vec![("content", s("answer"))])),
        ])),
    ];
    let msgs = parse(&entries, 5_000);
    assert_eq!(msgs.len(), 2);
    assert_eq!(msgs[0].id, "u1");
    assert_eq!(msgs[0].role, MessageRole::User);
    assert_eq!(msgs[0].text, "hello");
    assert_eq!(msgs[0].timestamp, 1_705_314_600_000);
    assert_eq!(msgs[1].role, MessageRole::Assistant);
    assert_eq!(msgs[1].timestamp, 5_000);
    assert_eq!(msgs[1].id, "5000");
}

#[test]
fn blank_lines_are_skipped() {
    assert_eq!(entry_lines_of("{\"a\":1}\n   \n\n{\"b\":2}\r\n"), vec!["{\"a\":1}", "{\"b\":2}"]);
    assert!(entry_lines_of("").is_empty());
}

#[test]
fn reading_the_log() {
    assert_eq!(plan_read(100, 40), (ReadPlan::From(40), 40));
    assert_eq!(plan_read(40, 40), (ReadPlan::NothingNew, 40));
    assert_eq!(plan_read(10, 40), (ReadPlan::From(0), 0));
    assert_eq!(plan_read(0, 40), (ReadPlan::NothingNew, 0));
    assert_eq!(complete_prefix_len(&b"one\ntwo\nthr".to_vec()), 8);
    assert_eq!(complete_prefix_len(&b"partial".to_vec()), 0);
    assert_eq!(complete_prefix_len(&b"a\n".to_vec()), 2);
}

#[test]
fn trimmed_timestamps() {
    assert_eq!(parse_iso_ms_trimmed("\t1970-01-02T00:00:01Z\n"), Some(86_401_000));
    assert_eq!(parse_iso_ms_trimmed("  "), None);
}

#[test]
fn log_text_becomes_messages() {
    let lines = [
        "{\"type\":\"user\",\"uuid\":\"u1\",\"timestamp\":\"2024-01-15T10:30:00Z\",\"message\":{\"content\":\"hello\"}}\n",
        "not json at all\n",
        "   \n",
        "{\"type\":\"assistant\",\"message\":{\"content\":[{\"type\":\"text\",\"text\":\"hi\"}]}}\n",
        "{\"type\":\"system\",\"message\":{\"content\":\"skip\"}}\n",
    ];
    let log: String = lines.concat();
    let log = log.as_str();
    let ms = session_dash::transcript::parse_log(log, 42).unwrap();
    assert_eq!(ms.len(), 2);
    assert_eq!(ms[0].id, "u1");
    assert_eq!(ms[0].role, MessageRole::User);
    assert_eq!(ms[0].text, "hello");
    assert_eq!(ms[0].timestamp, 1_705_314_600_000);
    assert_eq!(ms[1].role, MessageRole::Assistant);
    assert_eq!(ms[1].text, "hi");
    assert_eq!(ms[1].timestamp, 42);
    assert_eq!(ms[1].id, "42");
    assert!(session_dash::transcript::parse_log("", 0).unwrap().is_empty());
}

#[test]
fn log_with_a_cut_timestamp_is_refused() {
    // The year field would end inside the two-byte character.
    let log = "{\"type\":\"user\",\"timestamp\":\"202é-01-15T10:30:00Z\",\"message\":{\"content\":\"x\"}}\n";
    assert!(session_dash::transcript::parse_log(log, 0).is_none());
    // The same timestamp on an entry that is never read is harmless.
    let log = "{\"type\":\"system\",\"timestamp\":\"202é-01-15T10:30:00Z\",\"message\":{\"content\":\"x\"}}\n";
    assert!(session_dash::transcript::parse_log(log, 0).unwrap().is_empty());
}

#[test]
fn log_read_in_pieces_reads_as_whole() {
    let first = "{\"type\":\"user\",\"uuid\":\"a\",\"message\":{\"content\":\"one\"}}\n";
    let second = "{\"type\":\"assistant\",\"uuid\":\"b\",\"message\":{\"content\":\"two\"}}\n";
    let whole = format!("{first}{second}");
    let parts: Vec<String> = session_dash::transcript::parse_log(first, 7)
        .unwrap()
        .into_iter()
        .chain(session_dash::transcript::parse_log(second, 7).unwrap())
        .map(|m| m.id)
        .collect();
    let all: Vec<String> =
        session_dash::transcript::parse_log(&whole, 7).unwrap().into_iter().map(|m| m.id).collect();
    assert_eq!(parts, all);
    assert_eq!(all, vec!["a".to_string(), "b".to_string()]);
}
