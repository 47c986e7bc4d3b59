//! A session's transcript: the messages read from its JSON-lines log, and
//! how far the log has been read.
use vstd::prelude::*;
use crate::dates::{iso_ms, iso_slices_ok, iso_slices_fit, parse_iso_ms};
use crate::json::{Json, JsonV, json_parse, parse_json};
use crate::text::{
    chars_of, i64_text, int_text, push_char, push_text, str_eq, trim, trimmed,
    lines, lines_of, string_of, views,
};
use vstd::string::StringSliceAdditionalSpecFns;
use vstd::utf8::encode_utf8;

verus! {

/// Who wrote a message.
#[derive(Clone, Copy, Debug, PartialEq, Eq, Structural)]
pub enum MessageRole {
    User,
    Assistant,
}

/// One message of a transcript.
pub struct TranscriptMessage {
    pub id: String,
    pub role: MessageRole,
    pub text: String,
    pub timestamp: i64,
}

pub struct TranscriptMessageView {
    pub id: Seq<char>,
    pub role: MessageRole,
    pub text: Seq<char>,
    pub timestamp: i64,
}

impl View for TranscriptMessage {
    type V = TranscriptMessageView;

    open spec fn view(&self) -> TranscriptMessageView {
        TranscriptMessageView {
            id: self.id@,
            role: self.role,
            text: self.text@,
            timestamp: self.timestamp,
        }
    }
}

pub open spec fn messages_view(v: Seq<TranscriptMessage>) -> Seq<TranscriptMessageView> {
    v.map_values(|m: TranscriptMessage| m@)
}

/// The parts joined with line breaks.
pub open spec fn joined(parts: Seq<Seq<char>>) -> Seq<char>
    decreases parts.len(),
{
    if parts.len() == 0 {
        Seq::empty()
    } else if parts.len() == 1 {
        parts[0]
    } else {
        joined(parts.drop_last()) + seq!['\n'] + parts.last()
    }
}

/// The text of a content block of type `text`.
pub open spec fn block_text(b: JsonV) -> Option<Seq<char>> {
    if b.str_at("type"@) == Some("text"@) {
        b.str_at("text"@)
    } else {
        None
    }
}

/// The texts of the text blocks, in order.
pub open spec fn text_blocks(items: Seq<JsonV>) -> Seq<Seq<char>>
    decreases items.len(),
{
    if items.len() == 0 {
        Seq::empty()
    } else {
        let r = text_blocks(items.drop_last());
        match block_text(items.last()) {
            Some(t) => r.push(t),
            None => r,
        }
    }
}

/// A message's text: a string, trimmed, or the text blocks of an array
/// joined by line breaks and trimmed; nothing otherwise.
pub open spec fn content_text(c: Option<JsonV>) -> Seq<char> {
    match c {
        Some(JsonV::Str(s)) => trim(s),
        Some(JsonV::Array(bs)) => trim(joined(text_blocks(bs))),
        _ => Seq::empty(),
    }
}

fn block_text_exec(b: &Json) -> (r: Option<&String>)
    ensures
        r matches Some(t) ==> block_text(b@) == Some(t@),
        r is None ==> block_text(b@) is None,
{
    match b.str_at("type") {
        Some(t) => if str_eq(t.as_str(), "text") {
            b.str_at("text")
        } else {
            None
        },
        None => None,
    }
}

/// The text of a message's `content`.
pub fn parse_content(content: Option<&Json>) -> (r: String)
    ensures
        r@ == content_text(
            match content {
                Some(c) => Some(c@),
                None => None,
            },
        ),
{
    match content {
        Some(Json::Str(s)) => trimmed(s.as_str()),
        Some(Json::Array(blocks)) => {
            let ghost bv = crate::json::items_view(blocks@);
            proof {
                crate::json::lemma_array_view(*blocks);
            }
            let mut out = String::new();
            let mut count: usize = 0;
            let mut i: usize = 0;
            while i < blocks.len()
                invariant
                    bv == crate::json::items_view(blocks@),
                    i <= blocks.len(),
                    count <= i,
                    count == text_blocks(bv.take(i as int)).len(),
                    out@ == joined(text_blocks(bv.take(i as int))),
                decreases blocks.len() - i,
            {
                assert(bv.take(i + 1).drop_last() =~= bv.take(i as int));
                match block_text_exec(&blocks[i]) {
                    Some(t) => {
                        if count > 0 {
                            push_char(&mut out, '\n');
                        }
                        push_text(&mut out, t.as_str());
                        proof {
                            let prev = text_blocks(bv.take(i as int));
                            if count == 0 {
                                assert(prev.push(t@).len() == 1);
                                assert(out@ =~= joined(prev.push(t@)));
                            } else {
                                assert(prev.push(t@).drop_last() =~= prev);
                            }
                        }
                        count = count + 1;
                    },
                    None => {},
                }
                i = i + 1;
            }
            assert(bv.take(i as int) =~= bv);
            trimmed(out.as_str())
        },
        _ => String::new(),
    }
}

/// The role named by an entry's `type`.
pub open spec fn role_of(entry: JsonV) -> Option<MessageRole> {
    match entry.str_at("type"@) {
        Some(t) => if t == "user"@ {
            Some(MessageRole::User)
        } else if t == "assistant"@ {
            Some(MessageRole::Assistant)
        } else {
            None
        },
        None => None,
    }
}

/// An entry whose timestamp gets read: it has a role, a message and text.
pub open spec fn reaches_timestamp(entry: JsonV) -> bool {
    &&& role_of(entry) is Some
    &&& entry.get("message"@) is Some
    &&& content_text(entry.get("message"@)->0.get("content"@)).len() > 0
}

/// The entry's timestamp can be read without cutting a character.
pub open spec fn timestamp_ok(entry: JsonV) -> bool {
    match entry.str_at("timestamp"@) {
        Some(t) => iso_slices_ok(encode_utf8(trim(t))),
        None => true,
    }
}

/// An entry's timestamp, trimmed and read as milliseconds; `now` when it
/// has none or it does not parse.
pub open spec fn entry_time(entry: JsonV, now: i64) -> int {
    match entry.str_at("timestamp"@) {
        Some(t) => match iso_ms(encode_utf8(trim(t))) {
            Some(v) => v,
            None => now as int,
        },
        None => now as int,
    }
}

/// The message an entry of the log holds, if any: user and assistant
/// entries with a message whose text is not empty.
pub open spec fn message_of(entry: JsonV, now: i64) -> Option<TranscriptMessageView> {
    match role_of(entry) {
        Some(role) => match entry.get("message"@) {
            Some(msg) => {
                let text = content_text(msg.get("content"@));
                if text.len() == 0 {
                    None
                } else {
                    let ts = entry_time(entry, now);
                    Some(
                        TranscriptMessageView {
                            id: match entry.str_at("uuid"@) {
                                Some(u) => u,
                                None => int_text(ts),
                            },
                            role,
                            text,
                            timestamp: ts as i64,
                        },
                    )
                }
            },
            None => None,
        },
        None => None,
    }
}

/// The messages of the log's entries, in order; `None` stands for a line
/// that is not JSON.
pub open spec fn messages_of(entries: Seq<Option<JsonV>>, now: i64) -> Seq<TranscriptMessageView>
    decreases entries.len(),
{
    if entries.len() == 0 {
        Seq::empty()
    } else {
        let r = messages_of(entries.drop_last(), now);
        match entries.last() {
            Some(e) => match message_of(e, now) {
                Some(m) => r.push(m),
                None => r,
            },
            None => r,
        }
    }
}

pub open spec fn entries_view(v: Seq<Option<Json>>) -> Seq<Option<JsonV>> {
    v.map_values(|o: Option<Json>| crate::types::ojson(o))
}

/// Milliseconds since the Unix epoch of a timestamp, surrounding
/// whitespace ignored.
pub fn parse_iso_ms_trimmed(s: &str) -> (r: Option<i64>)
    requires
        iso_slices_ok(encode_utf8(trim(s@))),
    ensures
        r matches Some(v) ==> iso_ms(encode_utf8(trim(s@))) == Some(v as int),
        r is None ==> iso_ms(encode_utf8(trim(s@))) is None,
{
    let t = trimmed(s);
    parse_iso_ms(t.as_str())
}

fn message_from(entry: &Json, now: i64) -> (r: Option<TranscriptMessage>)
    requires
        reaches_timestamp(entry@) ==> timestamp_ok(entry@),
    ensures
        match r {
            Some(m) => message_of(entry@, now) == Some(m@),
            None => message_of(entry@, now) is None,
        },
{
    let role = match entry.str_at("type") {
        Some(t) => if str_eq(t.as_str(), "user") {
            MessageRole::User
        } else if str_eq(t.as_str(), "assistant") {
            MessageRole::Assistant
        } else {
            return None;
        },
        None => return None,
    };
    let msg = match entry.get("message") {
        Some(m) => m,
        None => return None,
    };
    let text = parse_content(msg.get("content"));
    if text.as_str().is_empty() {
        return None;
    }
    let timestamp = match entry.str_at("timestamp") {
        Some(t) => match parse_iso_ms_trimmed(t.as_str()) {
            Some(v) => v,
            None => now,
        },
        None => now,
    };
    let id = match entry.str_at("uuid") {
        Some(u) => u.clone(),
        None => i64_text(timestamp),
    };
    Some(TranscriptMessage { id, role, text, timestamp })
}

/// The messages of a transcript log, given its non-blank lines parsed as
/// JSON (`None` for a line that is not JSON); `now` is the time given to
/// a message without a readable timestamp.
pub fn parse(entries: &Vec<Option<Json>>, now: i64) -> (r: Vec<TranscriptMessage>)
    requires
        forall|k: int|
            0 <= k < entries.len() ==> match #[trigger] entries@[k] {
                Some(e) => reaches_timestamp(e@) ==> timestamp_ok(e@),
                None => true,
            },
    ensures
        messages_view(r@) == messages_of(entries_view(entries@), now),
{
    let ghost ev = entries_view(entries@);
    let mut out: Vec<TranscriptMessage> = Vec::new();
    let mut i: usize = 0;
    while i < entries.len()
        invariant
            ev == entries_view(entries@),
            i <= entries.len(),
            forall|k: int|
                0 <= k < entries.len() ==> match #[trigger] entries@[k] {
                    Some(e) => reaches_timestamp(e@) ==> timestamp_ok(e@),
                    None => true,
                },
            messages_view(out@) == messages_of(ev.take(i as int), now),
        decreases entries.len() - i,
    {
        assert(ev.take(i + 1).drop_last() =~= ev.take(i as int));
        let ghost before = messages_view(out@);
        match &entries[i] {
            Some(e) => match message_from(e, now) {
                Some(m) => {
                    let ghost mv = m@;
                    out.push(m);
                    assert(messages_view(out@) =~= before.push(mv));
                },
                None => {},
            },
            None => {},
        }
        i = i + 1;
    }
    assert(ev.take(i as int) =~= ev);
    out
}

/// The log's lines that hold something besides whitespace: the ones
/// parsed as entries.
pub open spec fn entry_lines(raw: Seq<char>) -> Seq<Seq<char>> {
    lines(raw).filter(|l: Seq<char>| trim(l).len() > 0)
}

/// The non-blank lines of a chunk of the log.
pub fn entry_lines_of(raw: &str) -> (r: Vec<String>)
    ensures
        r@.map_values(|s: String| s@) == entry_lines(raw@),
{
    let cs = chars_of(raw);
    let ls = lines_of(&cs);
    let ghost lv = lines(raw@);
    let mut out: Vec<String> = Vec::new();
    let mut i: usize = 0;
    while i < ls.len()
        invariant
            views(ls@) == lv,
            i <= ls.len(),
            out@.map_values(|s: String| s@) == lv.take(i as int).filter(
                |l: Seq<char>| trim(l).len() > 0,
            ),
        decreases ls.len() - i,
    {
        assert(views(ls@)[i as int] == ls@[i as int]@);
        assert(lv.take(i + 1).drop_last() =~= lv.take(i as int));
        proof {
            reveal(Seq::filter);
        }
        let ghost before = out@.map_values(|s: String| s@);
        let (lo, hi) = crate::text::trim_bounds(&ls[i], 0, ls[i].len());
        assert(ls[i as int]@.subrange(0, ls[i as int]@.len() as int) =~= ls[i as int]@);
        if lo < hi {
            out.push(string_of(&ls[i]));
            assert(out@.map_values(|s: String| s@) =~= before.push(lv[i as int]));
        }
        i = i + 1;
    }
    assert(lv.take(i as int) =~= lv);
    out
}

/// Whether an entry can be read without cutting a character: when its
/// timestamp gets read, the timestamp's fields fall on character
/// boundaries.
pub fn entry_readable(entry: &Json) -> (r: bool)
    ensures
        r == (reaches_timestamp(entry@) ==> timestamp_ok(entry@)),
{
    let has_role = match entry.str_at("type") {
        Some(t) => str_eq(t.as_str(), "user") || str_eq(t.as_str(), "assistant"),
        None => false,
    };
    let reaches = has_role && match entry.get("message") {
        Some(m) => !parse_content(m.get("content")).as_str().is_empty(),
        None => false,
    };
    if !reaches {
        return true;
    }
    match entry.str_at("timestamp") {
        Some(t) => {
            let tt = trimmed(t.as_str());
            iso_slices_fit(tt.as_str())
        },
        None => true,
    }
}

/// The entries of a chunk of a log: its non-blank lines, each parsed as
/// JSON (`None` for a line that is not JSON).
pub open spec fn log_entries(raw: Seq<char>) -> Seq<Option<JsonV>> {
    entry_lines(raw).map_values(|l: Seq<char>| json_parse(l))
}

/// Every entry whose timestamp gets read can be read.
pub open spec fn entries_readable(es: Seq<Option<JsonV>>) -> bool {
    forall|k: int|
        0 <= k < es.len() ==> match #[trigger] es[k] {
            Some(e) => reaches_timestamp(e) ==> timestamp_ok(e),
            None => true,
        }
}

/// The messages of a chunk of a transcript log, its lines read as JSON
/// one by one (a line that is not JSON is passed over); `now` is the time
/// given to a message without a readable timestamp. `None` when some
/// message's timestamp cannot be read without cutting a character.
pub fn parse_log(raw: &str, now: i64) -> (r: Option<Vec<TranscriptMessage>>)
    ensures
        match r {
            Some(ms) => entries_readable(log_entries(raw@)) && messages_view(ms@) == messages_of(
                log_entries(raw@),
                now,
            ),
            None => !entries_readable(log_entries(raw@)),
        },
{
    let ls = entry_lines_of(raw);
    let ghost lv = entry_lines(raw@);
    let ghost ev = log_entries(raw@);
    let mut entries: Vec<Option<Json>> = Vec::new();
    let mut i: usize = 0;
    while i < ls.len()
        invariant
            ls@.map_values(|s: String| s@) == lv,
            lv == entry_lines(raw@),
            ev == log_entries(raw@),
            i <= ls.len(),
            entries.len() == i,
            forall|k: int|
                0 <= k < i ==> crate::types::ojson(#[trigger] entries@[k]) == ev[k],
            forall|k: int|
                0 <= k < i ==> match #[trigger] entries@[k] {
                    Some(e) => reaches_timestamp(e@) ==> timestamp_ok(e@),
                    None => true,
                },
        decreases ls.len() - i,
    {
        assert(ls@.map_values(|s: String| s@)[i as int] == ls@[i as int]@);
        assert(ev[i as int] == json_parse(lv[i as int]));
        let e = parse_json(ls[i].as_str());
        match &e {
            Some(j) => {
                if !entry_readable(j) {
                    assert(ev[i as int] == Some(j@));
                    return None;
                }
            },
            None => {},
        }
        entries.push(e);
        i = i + 1;
    }
    assert(entries_view(entries@) =~= ev);
    Some(parse(&entries, now))
}

/// The messages of entries read one after the other are the messages of
/// each part in turn.
proof fn lemma_messages_append(x: Seq<Option<JsonV>>, y: Seq<Option<JsonV>>, now: i64)
    ensures
        messages_of(x + y, now) == messages_of(x, now) + messages_of(y, now),
    decreases y.len(),
{
    if y.len() == 0 {
        assert(x + y =~= x);
        assert(messages_of(x, now) + messages_of(y, now) =~= messages_of(x, now));
    } else {
        assert((x + y).drop_last() =~= x + y.drop_last());
        assert((x + y).last() == y.last());
        lemma_messages_append(x, y.drop_last(), now);
        let r = messages_of(x, now) + messages_of(y.drop_last(), now);
        match y.last() {
            Some(e) => match message_of(e, now) {
                Some(m) => {
                    assert(r.push(m) =~= messages_of(x, now) + messages_of(y.drop_last(), now).push(m));
                },
                None => {},
            },
            None => {},
        }
    }
}

/// Reading a log in two pieces, the first ending with a line break, gives
/// the entries and the messages of reading it whole, and it can be read
/// exactly when both pieces can: following a growing log by whole lines
/// (`complete_prefix_len`, `plan_read`) loses and repeats nothing.
pub proof fn reading_in_pieces_is_reading_whole(a: Seq<char>, b: Seq<char>, now: i64)
    requires
        a.len() == 0 || a.last() == '\n',
    ensures
        log_entries(a + b) == log_entries(a) + log_entries(b),
        messages_of(log_entries(a + b), now) == messages_of(log_entries(a), now) + messages_of(
            log_entries(b),
            now,
        ),
        entries_readable(log_entries(a + b)) == (entries_readable(log_entries(a))
            && entries_readable(log_entries(b))),
{
    broadcast use Seq::filter_distributes_over_add;
    crate::text::lemma_lines_append(a, b);
    let p = |l: Seq<char>| trim(l).len() > 0;
    assert(entry_lines(a + b) == entry_lines(a) + entry_lines(b)) by {
        assert(lines(a + b).filter(p) == lines(a).filter(p) + lines(b).filter(p));
    }
    let f = |l: Seq<char>| json_parse(l);
    assert((entry_lines(a) + entry_lines(b)).map_values(f) =~= entry_lines(a).map_values(f)
        + entry_lines(b).map_values(f));
    lemma_messages_append(log_entries(a), log_entries(b), now);
    let x = log_entries(a);
    let y = log_entries(b);
    let xy = log_entries(a + b);
    assert(entries_readable(xy) ==> entries_readable(x)) by {
        if entries_readable(xy) {
            assert forall|k: int| 0 <= k < x.len() implies match #[trigger] x[k] {
                Some(e) => reaches_timestamp(e) ==> timestamp_ok(e),
                None => true,
            } by {
                assert(xy[k] == x[k]);
            }
        }
    }
    assert(entries_readable(xy) ==> entries_readable(y)) by {
        if entries_readable(xy) {
            assert forall|k: int| 0 <= k < y.len() implies match #[trigger] y[k] {
                Some(e) => reaches_timestamp(e) ==> timestamp_ok(e),
                None => true,
            } by {
                assert(xy[x.len() + k] == y[k]);
            }
        }
    }
    assert(entries_readable(x) && entries_readable(y) ==> entries_readable(xy)) by {
        if entries_readable(x) && entries_readable(y) {
            assert forall|k: int| 0 <= k < xy.len() implies match #[trigger] xy[k] {
                Some(e) => reaches_timestamp(e) ==> timestamp_ok(e),
                None => true,
            } by {
                if k < x.len() {
                    assert(xy[k] == x[k]);
                } else {
                    assert(xy[k] == y[k - x.len()]);
                }
            }
        }
    }
}

/// How the next read of a log at `offset` proceeds once its size is
/// known.
#[derive(Clone, Copy, Debug, PartialEq, Eq, Structural)]
pub enum ReadPlan {
    /// Nothing was added since the last read.
    NothingNew,
    /// Read from this byte to the end.
    From(u64),
}

/// A log shorter than what was read was replaced: it is read again from
/// the start. A log as long as what was read has nothing new.
pub fn plan_read(size: u64, offset: u64) -> (r: (ReadPlan, u64))
    ensures
        r.1 == if size < offset {
            0
        } else {
            offset
        },
        r.0 == if size == r.1 {
            ReadPlan::NothingNew
        } else {
            ReadPlan::From(r.1)
        },
{
    let start = if size < offset {
        0
    } else {
        offset
    };
    if size == start {
        (ReadPlan::NothingNew, start)
    } else {
        (ReadPlan::From(start), start)
    }
}

/// Length of the part of `buf` that ends with its last line break (none
/// when it has no line break): only whole lines are parsed.
pub open spec fn complete_len(buf: Seq<u8>) -> nat
    decreases buf.len(),
{
    if buf.len() == 0 {
        0
    } else if buf.last() == 10 {
        buf.len()
    } else {
        complete_len(buf.drop_last())
    }
}

/// How many bytes of `buf` hold complete lines.
pub fn complete_prefix_len(buf: &Vec<u8>) -> (r: usize)
    ensures
        r == complete_len(buf@),
        r <= buf.len(),
{
    let mut n = buf.len();
    assert(buf@.take(n as int) =~= buf@);
    while n > 0 && buf[n - 1] != 10
        invariant
            n <= buf.len(),
            complete_len(buf@.take(n as int)) == complete_len(buf@),
        decreases n,
    {
        assert(buf@.take(n as int).drop_last() =~= buf@.take(n - 1));
        n = n - 1;
    }
    proof {
        if n > 0 {
            assert(buf@.take(n as int).last() == 10);
        }
    }
    n
}

} // verus!
