//! The detail pane of the selected session: its transcript and tool calls
//! on one timeline, user messages in bubbles, assistant text lightly
//! formatted, each tool call with its outcome and diff.
use vstd::prelude::*;
use crate::format::{string_views, wrap_text, wrap_text_spec};
use crate::screen::{
    blank_line, fg, fg_bold, line1, line2, line_view, lines_view, plain, push_line, push_span,
    span, span_of, style_fg, style_fg_bold, style_plain, Line, Style,
};
use crate::status::Tint;
use crate::text::{
    chars_of, has_prefix, lines, lines_of, owned, push_char, push_text, starts_with, string_of,
    string_of_range, trim_bounds, trim_start, views,
};
use crate::transcript::{MessageRole, TranscriptMessage};
use crate::types::{ToolHistoryEntry, ToolHistoryEntryView};
use crate::format::{
    duration_text, format_duration, format_tool_input, tool_detail_added, tool_detail_color,
    tool_detail_removed, tool_detail_summary,
};
use crate::text::{dec, push_u64, trim, trimmed};
use crate::overlays::str_member;
use crate::format::{abbreviate_home, abbreviate_home_text};
use crate::sort::{sort_by, stable_sort};
use crate::status::{spec_label, SessionStatus};
use crate::types::SessionState;
use vstd::string::StringSliceAdditionalSpecFns;
use vstd::utf8::encode_utf8;

verus! {

pub type LineV = Seq<(Seq<char>, Style)>;

/// `n` copies of `c`.
pub open spec fn repeat(c: char, n: int) -> Seq<char> {
    Seq::new(if n > 0 {
        n as nat
    } else {
        0
    }, |k: int| c)
}

/// `a - b`, or zero when `b` is larger (`saturating_sub`).
pub open spec fn sat_sub(a: int, b: int) -> int {
    if a > b {
        a - b
    } else {
        0
    }
}

/// Appends `n` copies of `c`.
pub fn push_repeat(s: &mut String, c: char, n: usize)
    ensures
        final(s)@ == old(s)@ + repeat(c, n as int),
{
    let mut i: usize = 0;
    while i < n
        invariant
            i <= n,
            s@ == old(s)@ + repeat(c, i as int),
        decreases n - i,
    {
        push_char(s, c);
        assert(repeat(c, i + 1) =~= repeat(c, i as int).push(c));
        i = i + 1;
    }
}

/// The largest byte length among `ls` (zero for none).
pub open spec fn max_bytes(ls: Seq<Seq<char>>) -> nat
    decreases ls.len(),
{
    if ls.len() == 0 {
        0
    } else {
        let m = max_bytes(ls.drop_last());
        let b = encode_utf8(ls.last()).len();
        if b > m {
            b
        } else {
            m
        }
    }
}

/// The width a user message is wrapped to: three quarters of the pane,
/// at most 90 columns, less the bubble's frame.
pub open spec fn bubble_wrap(width: nat) -> nat {
    let max_wrap = if width * 3 / 4 < 90 {
        width * 3 / 4
    } else {
        90
    };
    sat_sub(max_wrap as int, 4) as nat
}

/// A user message in a bubble at the right edge: its text wrapped, each
/// line padded to the widest, in a frame.
pub open spec fn user_rows(text: Seq<char>, width: nat) -> Seq<LineV> {
    let wrapped = wrap_text_spec(text, bubble_wrap(width));
    let inner = max_bytes(wrapped) as int;
    let pad = sat_sub(width as int, inner + 4);
    let border = fg(Tint::Rgb(60, 90, 140));
    let top = seq![(repeat(' ', pad) + "╭"@ + repeat('─', inner + 2) + "╮"@, border)];
    let bot = seq![(repeat(' ', pad) + "╰"@ + repeat('─', inner + 2) + "╯"@, border)];
    seq![top] + wrapped.map_values(
        |l: Seq<char>|
            seq![
                (repeat(' ', pad), plain()),
                ("│ "@, border),
                (l + repeat(' ', inner - l.len()), fg(Tint::White)),
                (" │"@, border),
            ],
    ) + seq![bot]
}

/// The leading characters a heading or list item starts with, dropped.
pub open spec fn drop_leading(s: Seq<char>, bullets: bool) -> Seq<char>
    decreases s.len(),
{
    if s.len() > 0 && (if bullets {
        s[0] == '-' || s[0] == '*' || s[0] == '•'
    } else {
        s[0] == '#'
    }) {
        drop_leading(s.drop_first(), bullets)
    } else {
        s
    }
}

/// How one line of assistant text is shown: code fences are left out, a
/// blank line stays blank, headings are bold cyan, list items get a `▸`,
/// indented lines are muted; everything is wrapped to the pane.
pub open spec fn assistant_line_rows(l: Seq<char>, width: nat) -> Seq<LineV> {
    if starts_with(trim_start(l), "```"@) {
        Seq::empty()
    } else if l.len() == 0 {
        seq![Seq::empty()]
    } else {
        let ww = sat_sub(width as int, 4) as nat;
        let (content, style) = if starts_with(l, "## "@) || starts_with(l, "# "@) {
            (trim_start(drop_leading(l, false)), fg_bold(Tint::Cyan))
        } else if starts_with(l, "- "@) || starts_with(l, "* "@) || starts_with(l, "• "@) {
            ("▸ "@ + trim_start(drop_leading(l, true)), fg(Tint::White))
        } else if starts_with(l, "    "@) || starts_with(l, "\t"@) {
            (l, fg(Tint::Rgb(120, 140, 160)))
        } else {
            (l, fg(Tint::White))
        };
        wrap_text_spec(content, ww).map_values(|w: Seq<char>| seq![("  "@, plain()), (w, style)])
    }
}

pub open spec fn assistant_rows_of(ls: Seq<Seq<char>>, width: nat) -> Seq<LineV>
    decreases ls.len(),
{
    if ls.len() == 0 {
        Seq::empty()
    } else {
        assistant_rows_of(ls.drop_last(), width) + assistant_line_rows(ls.last(), width)
    }
}

/// The rows of a message.
pub open spec fn message_rows(role: MessageRole, text: Seq<char>, width: nat) -> Seq<LineV> {
    match role {
        MessageRole::User => user_rows(text, width),
        MessageRole::Assistant => assistant_rows_of(lines(text), width),
    }
}

/// A bubble's widest line fits beside its frame.
pub open spec fn bubble_fits(text: Seq<char>, width: nat) -> bool {
    max_bytes(wrap_text_spec(text, bubble_wrap(width))) + 4 <= usize::MAX
}

fn max_line_bytes(ls: &Vec<String>) -> (r: usize)
    ensures
        r == max_bytes(string_views(ls@)),
{
    let ghost v = string_views(ls@);
    let mut m: usize = 0;
    let mut i: usize = 0;
    while i < ls.len()
        invariant
            v == string_views(ls@),
            i <= ls.len(),
            m == max_bytes(v.take(i as int)),
        decreases ls.len() - i,
    {
        assert(v.take(i + 1).drop_last() =~= v.take(i as int));
        assert(v[i as int] == ls@[i as int]@);
        let b = ls[i].as_str().as_bytes().len();
        if b > m {
            m = b;
        }
        i = i + 1;
    }
    assert(v.take(i as int) =~= v);
    m
}

fn push_user_message(out: &mut Vec<Line>, text: &str, width: usize)
    requires
        width * 3 <= usize::MAX,
        bubble_fits(text@, width as nat),
    ensures
        lines_view(final(out)@) == lines_view(old(out)@) + user_rows(text@, width as nat),
{
    let max_wrap = if width * 3 / 4 < 90 {
        width * 3 / 4
    } else {
        90
    };
    let inner_wrap = max_wrap.saturating_sub(4);
    let wrapped = wrap_text(text, inner_wrap);
    let ghost wv = string_views(wrapped@);
    let inner = max_line_bytes(&wrapped);
    let pad = width.saturating_sub(inner + 4);
    let border = style_fg(Tint::Rgb(60, 90, 140));
    let ghost base = lines_view(out@);
    let ghost rows = user_rows(text@, width as nat);
    let mut top = String::new();
    push_repeat(&mut top, ' ', pad);
    push_text(&mut top, "╭");
    push_repeat(&mut top, '─', inner + 2);
    push_text(&mut top, "╮");
    push_line(out, line1(span(top, border)));
    let ghost f = |l: Seq<char>|
        seq![
            (repeat(' ', pad as int), plain()),
            ("│ "@, border),
            (l + repeat(' ', inner - l.len()), fg(Tint::White)),
            (" │"@, border),
        ];
    let mut i: usize = 0;
    while i < wrapped.len()
        invariant
            wv == string_views(wrapped@),
            i <= wrapped.len(),
            f == (|l: Seq<char>|
                seq![
                    (repeat(' ', pad as int), plain()),
                    ("│ "@, border),
                    (l + repeat(' ', inner - l.len()), fg(Tint::White)),
                    (" │"@, border),
                ]),
            lines_view(out@) == base + seq![rows[0]] + wv.take(i as int).map_values(f),
        decreases wrapped.len() - i,
    {
        assert(wv[i as int] == wrapped@[i as int]@);
        let cs = chars_of(wrapped[i].as_str());
        let mut padded = string_of(&cs);
        if cs.len() < inner {
            push_repeat(&mut padded, ' ', inner - cs.len());
        } else {
            assert(repeat(' ', inner - cs.len()) =~= Seq::<char>::empty());
            assert(padded@ + Seq::<char>::empty() =~= padded@);
        }
        let mut gap = String::new();
        push_repeat(&mut gap, ' ', pad);
        let mut l = line2(span(gap, style_plain()), span_of("│ ", border));
        push_span(&mut l, span(padded, style_fg(Tint::White)));
        push_span(&mut l, span_of(" │", border));
        assert(line_view(l) =~= f(wv[i as int]));
        push_line(out, l);
        assert(wv.take(i + 1).map_values(f) =~= wv.take(i as int).map_values(f).push(f(wv[i as int])));
        i = i + 1;
    }
    assert(wv.take(i as int) =~= wv);
    let mut bot = String::new();
    push_repeat(&mut bot, ' ', pad);
    push_text(&mut bot, "╰");
    push_repeat(&mut bot, '─', inner + 2);
    push_text(&mut bot, "╯");
    push_line(out, line1(span(bot, border)));
    proof {
        assert(Seq::<char>::empty() + repeat(' ', pad as int) =~= repeat(' ', pad as int));
        assert(lines_view(out@) =~= base + rows);
    }
}

fn is_leading(c: char, bullets: bool) -> (r: bool)
    ensures
        r == if bullets {
            c == '-' || c == '*' || c == '•'
        } else {
            c == '#'
        },
{
    if bullets {
        c == '-' || c == '*' || c == '•'
    } else {
        c == '#'
    }
}

/// The text after the leading characters that `drop_leading` drops.
fn after_leading(cs: &Vec<char>, bullets: bool) -> (r: usize)
    ensures
        r <= cs.len(),
        cs@.skip(r as int) == drop_leading(cs@, bullets),
{
    let mut i: usize = 0;
    assert(cs@.skip(0) =~= cs@);
    while i < cs.len() && is_leading(cs[i], bullets)
        invariant
            i <= cs.len(),
            drop_leading(cs@.skip(i as int), bullets) == drop_leading(cs@, bullets),
        decreases cs.len() - i,
    {
        assert(cs@.skip(i as int).drop_first() =~= cs@.skip(i + 1));
        i = i + 1;
    }
    i
}

fn prefixed(cs: &Vec<char>, p: &str) -> (r: bool)
    ensures
        r == starts_with(cs@, p@),
{
    let pc = chars_of(p);
    has_prefix(cs, &pc)
}

fn push_assistant_line(out: &mut Vec<Line>, l: &Vec<char>, width: usize)
    ensures
        lines_view(final(out)@) == lines_view(old(out)@) + assistant_line_rows(l@, width as nat),
{
    let ghost base = lines_view(out@);
    let (ws, _) = trim_bounds(l, 0, l.len());
    assert(l@.subrange(0, l@.len() as int) =~= l@);
    let rest = string_of_range(l, ws, l.len());
    let rc = chars_of(rest.as_str());
    if prefixed(&rc, "```") {
        assert(lines_view(out@) =~= base + assistant_line_rows(l@, width as nat));
        return;
    }
    if l.len() == 0 {
        push_line(out, blank_line());
        assert(lines_view(out@) =~= base + assistant_line_rows(l@, width as nat));
        return;
    }
    let ww = width.saturating_sub(4);
    let (content, style) = if prefixed(l, "## ") || prefixed(l, "# ") {
        let k = after_leading(l, false);
        let (t, _) = trim_bounds(l, k, l.len());
        assert(l@.subrange(k as int, l@.len() as int) =~= l@.skip(k as int));
        (string_of_range(l, t, l.len()), style_fg_bold(Tint::Cyan))
    } else if prefixed(l, "- ") || prefixed(l, "* ") || prefixed(l, "• ") {
        let k = after_leading(l, true);
        let (t, _) = trim_bounds(l, k, l.len());
        assert(l@.subrange(k as int, l@.len() as int) =~= l@.skip(k as int));
        let mut c = owned("▸ ");
        let tail = string_of_range(l, t, l.len());
        push_text(&mut c, tail.as_str());
        (c, style_fg(Tint::White))
    } else if prefixed(l, "    ") || prefixed(l, "\t") {
        (string_of(l), style_fg(Tint::Rgb(120, 140, 160)))
    } else {
        (string_of(l), style_fg(Tint::White))
    };
    let wrapped = wrap_text(content.as_str(), ww);
    let ghost wv = string_views(wrapped@);
    let ghost f = |w: Seq<char>| seq![("  "@, plain()), (w, style)];
    let mut i: usize = 0;
    while i < wrapped.len()
        invariant
            wv == string_views(wrapped@),
            i <= wrapped.len(),
            f == (|w: Seq<char>| seq![("  "@, plain()), (w, style)]),
            lines_view(out@) == base + wv.take(i as int).map_values(f),
        decreases wrapped.len() - i,
    {
        assert(wv[i as int] == wrapped@[i as int]@);
        let row = line2(span_of("  ", style_plain()), span(wrapped[i].clone(), style));
        push_line(out, row);
        assert(wv.take(i + 1).map_values(f) =~= wv.take(i as int).map_values(f).push(f(wv[i as int])));
        i = i + 1;
    }
    assert(wv.take(i as int) =~= wv);
    assert(lines_view(out@) =~= base + assistant_line_rows(l@, width as nat));
}

/// Appends the rows of a message.
pub fn push_message(out: &mut Vec<Line>, msg: &TranscriptMessage, width: usize)
    requires
        msg.role == MessageRole::User ==> width * 3 <= usize::MAX && bubble_fits(msg.text@, width as nat),
    ensures
        lines_view(final(out)@) == lines_view(old(out)@) + message_rows(msg.role, msg.text@, width as nat),
{
    match msg.role {
        MessageRole::User => push_user_message(out, msg.text.as_str(), width),
        MessageRole::Assistant => {
            let ghost base = lines_view(out@);
            let cs = chars_of(msg.text.as_str());
            let ls = lines_of(&cs);
            let ghost lv = lines(msg.text@);
            let mut i: usize = 0;
            while i < ls.len()
                invariant
                    views(ls@) == lv,
                    i <= ls.len(),
                    lines_view(out@) == base + assistant_rows_of(lv.take(i as int), width as nat),
                decreases ls.len() - i,
            {
                assert(views(ls@)[i as int] == ls@[i as int]@);
                assert(lv.take(i + 1).drop_last() =~= lv.take(i as int));
                push_assistant_line(out, &ls[i], width);
                assert(base + assistant_rows_of(lv.take(i as int), width as nat) + assistant_line_rows(
                    lv[i as int],
                    width as nat,
                ) =~= base + assistant_rows_of(lv.take(i + 1), width as nat));
                i = i + 1;
            }
            assert(lv.take(i as int) =~= lv);
        },
    }
}

// ── tool calls ──────────────────────────────────────────────────────────────

/// At most 12 lines of `text`, each marked with `prefix`, then how many
/// more there are.
pub open spec fn diff_lines_rows(text: Seq<char>, prefix: Seq<char>, color: Tint) -> Seq<LineV> {
    let ls = lines(text);
    let shown = if ls.len() > 12 {
        ls.take(12)
    } else {
        ls
    };
    let extra = sat_sub(ls.len() as int, 12);
    shown.map_values(
        |l: Seq<char>| seq![("  "@, plain()), (prefix + " "@, fg(color)), (l, fg(color))],
    ) + if extra > 0 {
        seq![
            seq![
                (
                    "  … "@ + dec(extra as nat) + " more line"@ + if extra > 1 {
                        "s"@
                    } else {
                        ""@
                    },
                    fg(Tint::DarkGray),
                ),
            ],
        ]
    } else {
        Seq::empty()
    }
}

/// Appends up to 12 lines of `text` as diff lines.
pub fn push_diff_lines(out: &mut Vec<Line>, text: &str, prefix: &str, color: Tint)
    ensures
        lines_view(final(out)@) == lines_view(old(out)@) + diff_lines_rows(text@, prefix@, color),
{
    let ghost base = lines_view(out@);
    let cs = chars_of(text);
    let ls = lines_of(&cs);
    let ghost lv = lines(text@);
    let n = if ls.len() > 12 {
        12
    } else {
        ls.len()
    };
    let ghost shown = if lv.len() > 12 {
        lv.take(12)
    } else {
        lv
    };
    let ghost f = |l: Seq<char>| seq![("  "@, plain()), (prefix@ + " "@, fg(color)), (l, fg(color))];
    let mut i: usize = 0;
    while i < n
        invariant
            views(ls@) == lv,
            n <= ls.len(),
            shown.len() == n,
            forall|k: int| 0 <= k < n ==> shown[k] == lv[k],
            i <= n,
            f == (|l: Seq<char>| seq![("  "@, plain()), (prefix@ + " "@, fg(color)), (l, fg(color))]),
            lines_view(out@) == base + shown.take(i as int).map_values(f),
        decreases n - i,
    {
        assert(views(ls@)[i as int] == ls@[i as int]@);
        let mut p = owned(prefix);
        push_text(&mut p, " ");
        let mut row = line2(span_of("  ", style_plain()), span(p, style_fg(color)));
        push_span(&mut row, span(string_of(&ls[i]), style_fg(color)));
        assert(line_view(row) =~= f(shown[i as int]));
        push_line(out, row);
        assert(shown.take(i + 1).map_values(f) =~= shown.take(i as int).map_values(f).push(
            f(shown[i as int]),
        ));
        i = i + 1;
    }
    assert(shown.take(n as int) =~= shown);
    let extra = ls.len().saturating_sub(12);
    if extra > 0 {
        let mut t = owned("  … ");
        push_u64(&mut t, extra as u64);
        push_text(&mut t, " more line");
        if extra > 1 {
            push_text(&mut t, "s");
        } else {
            push_text(&mut t, "");
        }
        push_line(out, line1(span(t, style_fg(Tint::DarkGray))));
    }
    assert(lines_view(out@) =~= base + diff_lines_rows(text@, prefix@, color));
}

/// What a finished or running tool call shows below its summary: the
/// removed and added text of an edit, the content of a write, else the
/// trimmed output when there is one.
pub open spec fn tool_diff_rows(e: ToolHistoryEntryView) -> Seq<LineV> {
    let n = e.tool_name;
    if n == "Edit"@ || n == "MultiEdit"@ {
        diff_lines_rows(str_member(e.tool_input, "old_string"@), "-"@, Tint::Red) + diff_lines_rows(
            str_member(e.tool_input, "new_string"@),
            "+"@,
            Tint::Green,
        )
    } else if n == "Write"@ {
        diff_lines_rows(str_member(e.tool_input, "content"@), "+"@, Tint::Green)
    } else {
        match e.tool_output {
            Some(o) => if trim(o).len() > 0 {
                diff_lines_rows(trim(o), ">"@, Tint::White)
            } else {
                Seq::empty()
            },
            None => Seq::empty(),
        }
    }
}

pub fn push_tool_diff(out: &mut Vec<Line>, entry: &ToolHistoryEntry)
    ensures
        lines_view(final(out)@) == lines_view(old(out)@) + tool_diff_rows(entry@),
{
    let ghost base = lines_view(out@);
    let n = entry.tool_name.as_str();
    if crate::text::str_eq(n, "Edit") || crate::text::str_eq(n, "MultiEdit") {
        let old = match entry.tool_input.str_at("old_string") {
            Some(t) => t.clone(),
            None => String::new(),
        };
        let new = match entry.tool_input.str_at("new_string") {
            Some(t) => t.clone(),
            None => String::new(),
        };
        push_diff_lines(out, old.as_str(), "-", Tint::Red);
        push_diff_lines(out, new.as_str(), "+", Tint::Green);
    } else if crate::text::str_eq(n, "Write") {
        let content = match entry.tool_input.str_at("content") {
            Some(t) => t.clone(),
            None => String::new(),
        };
        push_diff_lines(out, content.as_str(), "+", Tint::Green);
    } else {
        match &entry.tool_output {
            Some(o) => {
                let content = trimmed(o.as_str());
                if !content.as_str().is_empty() {
                    push_diff_lines(out, content.as_str(), ">", Tint::White);
                }
            },
            None => {},
        }
    }
    assert(lines_view(out@) =~= base + tool_diff_rows(entry@));
}

/// `{:<w}`: the text, then spaces up to `w` characters.
pub open spec fn pad_right(s: Seq<char>, w: int) -> Seq<char> {
    s + repeat(' ', w - s.len())
}

/// A tool call's summary row: start time (`ts`, as the clock shows it),
/// its outcome (running, done or failed), its name, what it worked on,
/// the lines it removed and added, and how long it took.
pub open spec fn tool_row(e: ToolHistoryEntryView, ts: Seq<char>, home: Seq<char>) -> LineV {
    let (icon, color) = if e.ended_at is None {
        ("·"@, Tint::Yellow)
    } else if e.success != Some(false) {
        ("✓"@, Tint::Green)
    } else {
        ("✗"@, Tint::Red)
    };
    let head = seq![
        (ts + " "@, fg(Tint::DarkGray)),
        (icon + " "@, fg(color)),
        (pad_right(e.tool_name, 10), fg_bold(tool_detail_color(e.tool_name))),
        (" "@ + tool_detail_summary(e.tool_name, e.tool_input, home), fg(Tint::DarkGray)),
    ];
    let r = match tool_detail_removed(e.tool_name, e.tool_input) {
        Some(n) => if n > 0 {
            head.push((" -"@ + dec(n), fg(Tint::Red)))
        } else {
            head
        },
        None => head,
    };
    let a = match tool_detail_added(e.tool_name, e.tool_input) {
        Some(n) => if n > 0 {
            r.push((" +"@ + dec(n), fg(Tint::Green)))
        } else {
            r
        },
        None => r,
    };
    match e.ended_at {
        Some(end) => a.push((" "@ + duration_text(end - e.started_at), fg(Tint::DarkGray))),
        None => a,
    }
}

/// A tool call's rows: its summary row, then its diff.
pub fn push_tool(out: &mut Vec<Line>, entry: &ToolHistoryEntry, ts: &str, home: &str)
    requires
        entry.ended_at matches Some(end) ==> i64::MIN <= end - entry.started_at <= i64::MAX,
    ensures
        lines_view(final(out)@) == lines_view(old(out)@) + seq![tool_row(entry@, ts@, home@)]
            + tool_diff_rows(entry@),
{
    let ghost base = lines_view(out@);
    let (icon, color) = if entry.ended_at.is_none() {
        ("·", Tint::Yellow)
    } else if entry.success != Some(false) {
        ("✓", Tint::Green)
    } else {
        ("✗", Tint::Red)
    };
    let detail = format_tool_input(entry.tool_name.as_str(), &entry.tool_input, home);
    let mut t = owned(ts);
    push_text(&mut t, " ");
    let mut ic = owned(icon);
    push_text(&mut ic, " ");
    let name_cs = chars_of(entry.tool_name.as_str());
    let mut name = string_of(&name_cs);
    if name_cs.len() < 10 {
        push_repeat(&mut name, ' ', 10 - name_cs.len());
    } else {
        assert(repeat(' ', 10 - name_cs.len()) =~= Seq::<char>::empty());
        assert(name@ + Seq::<char>::empty() =~= name@);
    }
    let mut summary = owned(" ");
    push_text(&mut summary, detail.summary.as_str());
    let mut row = line2(span(t, style_fg(Tint::DarkGray)), span(ic, style_fg(color)));
    push_span(&mut row, span(name, style_fg_bold(detail.color)));
    push_span(&mut row, span(summary, style_fg(Tint::DarkGray)));
    match detail.diff_removed {
        Some(n) => if n > 0 {
            let mut x = owned(" -");
            push_u64(&mut x, n as u64);
            push_span(&mut row, span(x, style_fg(Tint::Red)));
        },
        None => {},
    }
    match detail.diff_added {
        Some(n) => if n > 0 {
            let mut x = owned(" +");
            push_u64(&mut x, n as u64);
            push_span(&mut row, span(x, style_fg(Tint::Green)));
        },
        None => {},
    }
    match entry.ended_at {
        Some(end) => {
            let d = format_duration(end - entry.started_at);
            let mut x = owned(" ");
            push_text(&mut x, d.as_str());
            push_span(&mut row, span(x, style_fg(Tint::DarkGray)));
        },
        None => {},
    }
    assert(line_view(row) =~= tool_row(entry@, ts@, home@));
    push_line(out, row);
    push_tool_diff(out, entry);
    assert(lines_view(out@) =~= base + seq![tool_row(entry@, ts@, home@)] + tool_diff_rows(entry@));
}

// ── measuring ───────────────────────────────────────────────────────────────

/// How many characters a line holds.
pub open spec fn line_chars(l: LineV) -> nat
    decreases l.len(),
{
    if l.len() == 0 {
        0
    } else {
        line_chars(l.drop_last()) + l.last().0.len()
    }
}

/// Terminal rows a line takes when wrapped at `width` (a blank line takes
/// one).
pub open spec fn line_rows(l: LineV, width: nat) -> nat {
    let w = line_chars(l);
    if w == 0 {
        1
    } else if w % width == 0 {
        w / width
    } else {
        w / width + 1
    }
}

/// Terminal rows the lines take at `width`; one per line when the width
/// is zero.
pub open spec fn rows_needed(ls: Seq<LineV>, width: nat) -> nat
    decreases ls.len(),
{
    if width == 0 {
        ls.len()
    } else if ls.len() == 0 {
        0
    } else {
        rows_needed(ls.drop_last(), width) + line_rows(ls.last(), width)
    }
}

proof fn lemma_line_chars_prefix(l: LineV, i: int)
    requires
        0 <= i <= l.len(),
    ensures
        line_chars(l.take(i)) <= line_chars(l),
    decreases l.len() - i,
{
    if i < l.len() {
        lemma_line_chars_prefix(l, i + 1);
        assert(l.take(i + 1).drop_last() =~= l.take(i));
    } else {
        assert(l.take(i) =~= l);
    }
}

proof fn lemma_rows_prefix(ls: Seq<LineV>, width: nat, i: int)
    requires
        0 <= i <= ls.len(),
        width > 0,
    ensures
        rows_needed(ls.take(i), width) <= rows_needed(ls, width),
    decreases ls.len() - i,
{
    if i < ls.len() {
        lemma_rows_prefix(ls, width, i + 1);
        assert(ls.take(i + 1).drop_last() =~= ls.take(i));
    } else {
        assert(ls.take(i) =~= ls);
    }
}

fn count_line_chars(l: &Line) -> (r: usize)
    requires
        line_chars(line_view(*l)) <= usize::MAX,
    ensures
        r == line_chars(line_view(*l)),
{
    let ghost lv = line_view(*l);
    let mut w: usize = 0;
    let mut i: usize = 0;
    while i < l.spans.len()
        invariant
            lv == line_view(*l),
            line_chars(lv) <= usize::MAX,
            i <= l.spans.len(),
            w == line_chars(lv.take(i as int)),
        decreases l.spans.len() - i,
    {
        assert(lv.take(i + 1).drop_last() =~= lv.take(i as int));
        proof {
            lemma_line_chars_prefix(lv, i + 1);
        }
        let n = chars_of(l.spans[i].text.as_str()).len();
        w = w + n;
        i = i + 1;
    }
    assert(lv.take(i as int) =~= lv);
    w
}

/// How many terminal rows the lines take when wrapped at `width`.
pub fn visual_row_count(lines: &Vec<Line>, width: usize) -> (r: usize)
    requires
        forall|k: int| 0 <= k < lines.len() ==> line_chars(line_view(#[trigger] lines@[k])) <= usize::MAX,
        rows_needed(lines_view(lines@), width as nat) <= usize::MAX,
    ensures
        r == rows_needed(lines_view(lines@), width as nat),
{
    let ghost lv = lines_view(lines@);
    if width == 0 {
        return lines.len();
    }
    let mut total: usize = 0;
    let mut i: usize = 0;
    while i < lines.len()
        invariant
            lv == lines_view(lines@),
            width > 0,
            forall|k: int| 0 <= k < lines.len() ==> line_chars(line_view(#[trigger] lines@[k])) <= usize::MAX,
            rows_needed(lv, width as nat) <= usize::MAX,
            i <= lines.len(),
            total == rows_needed(lv.take(i as int), width as nat),
        decreases lines.len() - i,
    {
        assert(lv.take(i + 1).drop_last() =~= lv.take(i as int));
        assert(lv[i as int] == line_view(lines@[i as int]));
        proof {
            lemma_rows_prefix(lv, width as nat, i + 1);
        }
        let w = count_line_chars(&lines[i]);
        let rows = if w == 0 {
            1
        } else if w % width == 0 {
            w / width
        } else {
            w / width + 1
        };
        total = total + rows;
        i = i + 1;
    }
    assert(lv.take(i as int) =~= lv);
    total
}

/// The spinner frame shown at tick `tick`.
pub open spec fn spinner_frame(tick: u64) -> Seq<char> {
    let i = tick % 8;
    if i == 0 {
        "⠋"@
    } else if i == 1 {
        "⠙"@
    } else if i == 2 {
        "⠹"@
    } else if i == 3 {
        "⠸"@
    } else if i == 4 {
        "⠼"@
    } else if i == 5 {
        "⠴"@
    } else if i == 6 {
        "⠦"@
    } else {
        "⠧"@
    }
}

/// The frame of the "thinking" spinner for a tick of the clock.
pub fn thinking_spinner(tick: u64) -> (r: &'static str)
    ensures
        r@ == spinner_frame(tick),
{
    let i = tick % 8;
    if i == 0 {
        "⠋"
    } else if i == 1 {
        "⠙"
    } else if i == 2 {
        "⠹"
    } else if i == 3 {
        "⠸"
    } else if i == 4 {
        "⠼"
    } else if i == 5 {
        "⠴"
    } else if i == 6 {
        "⠦"
    } else {
        "⠧"
    }
}

/// Which line of the lines is shown at the top: the view sticks to the
/// bottom, `scroll` rows up from it at most.
pub open spec fn scroll_top(total: nat, visible: nat, scroll: nat) -> u16 {
    if total > visible {
        let bottom = (total - visible) as nat;
        let clamped = if scroll < bottom {
            scroll
        } else {
            bottom
        };
        (bottom - clamped) as u16
    } else {
        0
    }
}

pub fn detail_scroll_top(total_rows: usize, visible: usize, detail_scroll: usize) -> (r: u16)
    ensures
        r == scroll_top(total_rows as nat, visible as nat, detail_scroll as nat),
{
    if total_rows > visible {
        let bottom = total_rows - visible;
        let clamped = if detail_scroll < bottom {
            detail_scroll
        } else {
            bottom
        };
        (bottom - clamped) as u16
    } else {
        0
    }
}

// ── the timeline ────────────────────────────────────────────────────────────

/// An entry of the timeline: a transcript message or a tool call, by its
/// position.
#[derive(Clone, Copy, Debug, PartialEq, Eq, Structural)]
pub enum TimelineItem {
    Message(usize),
    Tool(usize),
}

/// Each message and tool call with the time it is placed at.
pub open spec fn timeline_keys(msgs: Seq<TranscriptMessage>, tools: Seq<ToolHistoryEntry>) -> Seq<
    (i64, TimelineItem),
> {
    Seq::new(msgs.len(), |i: int| (msgs[i].timestamp, TimelineItem::Message(i as usize))) + Seq::new(
        tools.len(),
        |j: int| (tools[j].started_at, TimelineItem::Tool(j as usize)),
    )
}

pub open spec fn by_time() -> spec_fn((i64, TimelineItem), (i64, TimelineItem)) -> bool {
    |a: (i64, TimelineItem), b: (i64, TimelineItem)| a.0 <= b.0
}

/// Messages and tool calls in time order; at equal times, messages first
/// and each kind in its own order.
pub open spec fn timeline(msgs: Seq<TranscriptMessage>, tools: Seq<ToolHistoryEntry>) -> Seq<
    TimelineItem,
> {
    stable_sort(timeline_keys(msgs, tools), by_time()).map_values(|p: (i64, TimelineItem)| p.1)
}

/// The item points into the lists it was made from.
pub open spec fn item_in(item: TimelineItem, nm: nat, nt: nat) -> bool {
    match item {
        TimelineItem::Message(i) => i < nm,
        TimelineItem::Tool(j) => j < nt,
    }
}

proof fn lemma_timeline_items(msgs: Seq<TranscriptMessage>, tools: Seq<ToolHistoryEntry>)
    requires
        msgs.len() <= usize::MAX,
        tools.len() <= usize::MAX,
    ensures
        forall|k: int|
            0 <= k < timeline(msgs, tools).len() ==> item_in(
                #[trigger] timeline(msgs, tools)[k],
                msgs.len(),
                tools.len(),
            ),
{
    broadcast use vstd::seq_lib::group_to_multiset_ensures;

    let keys = timeline_keys(msgs, tools);
    let sorted = stable_sort(keys, by_time());
    crate::sort::lemma_sort_permutes(keys, by_time());
    assert forall|k: int| 0 <= k < timeline(msgs, tools).len() implies item_in(
        #[trigger] timeline(msgs, tools)[k],
        msgs.len(),
        tools.len(),
    ) by {
        assert(sorted.contains(sorted[k]));
        assert(keys.to_multiset().count(sorted[k]) > 0);
        assert(keys.contains(sorted[k]));
        let t = choose|t: int| 0 <= t < keys.len() && keys[t] == sorted[k];
        if t < msgs.len() {
            assert((t as usize) as int == t);
        } else {
            assert(((t - msgs.len()) as usize) as int == t - msgs.len());
        }
    }
}

/// The timeline of a session: its transcript and its tool calls, by time.
pub fn build_timeline(msgs: &Vec<TranscriptMessage>, tools: &Vec<ToolHistoryEntry>) -> (r: Vec<
    TimelineItem,
>)
    ensures
        r@ == timeline(msgs@, tools@),
        forall|k: int| 0 <= k < r.len() ==> item_in(#[trigger] r@[k], msgs.len() as nat, tools.len() as nat),
{
    let mut keys: Vec<(i64, TimelineItem)> = Vec::new();
    let ghost kv = timeline_keys(msgs@, tools@);
    let mut i: usize = 0;
    while i < msgs.len()
        invariant
            kv == timeline_keys(msgs@, tools@),
            i <= msgs.len(),
            keys@ == kv.take(i as int),
        decreases msgs.len() - i,
    {
        keys.push((msgs[i].timestamp, TimelineItem::Message(i)));
        assert(keys@ =~= kv.take(i + 1));
        i = i + 1;
    }
    let mut j: usize = 0;
    while j < tools.len()
        invariant
            kv == timeline_keys(msgs@, tools@),
            j <= tools.len(),
            keys@ == kv.take(msgs.len() + j),
        decreases tools.len() - j,
    {
        keys.push((tools[j].started_at, TimelineItem::Tool(j)));
        assert(keys@ =~= kv.take(msgs.len() + j + 1));
        j = j + 1;
    }
    assert(kv.take(msgs.len() + tools.len()) =~= kv);
    let earlier = |a: &(i64, TimelineItem), b: &(i64, TimelineItem)| -> (r: bool)
        ensures
            r == by_time()(*a, *b),
        { a.0 <= b.0 };
    let sorted = sort_by(keys, &earlier, Ghost(by_time()));
    let mut out: Vec<TimelineItem> = Vec::new();
    let mut k: usize = 0;
    while k < sorted.len()
        invariant
            k <= sorted.len(),
            out@ == sorted@.take(k as int).map_values(|p: (i64, TimelineItem)| p.1),
        decreases sorted.len() - k,
    {
        out.push(sorted[k].1);
        assert(out@ =~= sorted@.take(k + 1).map_values(|p: (i64, TimelineItem)| p.1));
        k = k + 1;
    }
    assert(sorted@.take(k as int) =~= sorted@);
    proof {
        lemma_timeline_items(msgs@, tools@);
        assert(out@ =~= timeline(msgs@, tools@));
        assert forall|k: int| 0 <= k < out.len() implies item_in(
            #[trigger] out@[k],
            msgs.len() as nat,
            tools.len() as nat,
        ) by {
            assert(out@[k] == timeline(msgs@, tools@)[k]);
        }
    }
    out
}

/// A message always stands; a tool call once it finished.
pub open spec fn settled(item: TimelineItem, tools: Seq<ToolHistoryEntry>) -> bool {
    match item {
        TimelineItem::Message(_) => true,
        TimelineItem::Tool(j) => tools[j as int].ended_at is Some,
    }
}

pub fn is_settled(item: TimelineItem, tools: &Vec<ToolHistoryEntry>) -> (r: bool)
    requires
        item_in(item, 0, tools.len() as nat) || item is Message,
    ensures
        r == settled(item, tools@),
{
    match item {
        TimelineItem::Message(_) => true,
        TimelineItem::Tool(j) => tools[j].ended_at.is_some(),
    }
}

/// The rows of a timeline item, followed by a blank line. `stamps` holds
/// the clock time each tool call started at.
pub open spec fn item_rows(
    item: TimelineItem,
    msgs: Seq<TranscriptMessage>,
    tools: Seq<ToolHistoryEntry>,
    stamps: Seq<Seq<char>>,
    width: nat,
    home: Seq<char>,
) -> Seq<LineV> {
    (match item {
        TimelineItem::Message(i) => message_rows(msgs[i as int].role, msgs[i as int].text@, width),
        TimelineItem::Tool(j) => seq![tool_row(tools[j as int]@, stamps[j as int], home)]
            + tool_diff_rows(tools[j as int]@),
    }) + seq![Seq::empty()]
}

/// The rows of the items that stand, in order.
pub open spec fn settled_rows(
    items: Seq<TimelineItem>,
    msgs: Seq<TranscriptMessage>,
    tools: Seq<ToolHistoryEntry>,
    stamps: Seq<Seq<char>>,
    width: nat,
    home: Seq<char>,
) -> Seq<LineV>
    decreases items.len(),
{
    if items.len() == 0 {
        Seq::empty()
    } else {
        settled_rows(items.drop_last(), msgs, tools, stamps, width, home) + if settled(
            items.last(),
            tools,
        ) {
            item_rows(items.last(), msgs, tools, stamps, width, home)
        } else {
            Seq::empty()
        }
    }
}

/// The last item still running, if any.
pub open spec fn last_unsettled(items: Seq<TimelineItem>, tools: Seq<ToolHistoryEntry>) -> Option<
    TimelineItem,
>
    decreases items.len(),
{
    if items.len() == 0 {
        None
    } else if !settled(items.last(), tools) {
        Some(items.last())
    } else {
        last_unsettled(items.drop_last(), tools)
    }
}

proof fn lemma_last_unsettled_in(items: Seq<TimelineItem>, tools: Seq<ToolHistoryEntry>)
    ensures
        last_unsettled(items, tools) matches Some(it) ==> exists|t: int|
            0 <= t < items.len() && items[t] == it,
    decreases items.len(),
{
    if items.len() > 0 && settled(items.last(), tools) {
        lemma_last_unsettled_in(items.drop_last(), tools);
        if let Some(it) = last_unsettled(items.drop_last(), tools) {
            let t = choose|t: int| 0 <= t < items.drop_last().len() && items.drop_last()[t] == it;
            assert(items[t] == it);
        }
    } else if items.len() > 0 {
        assert(items[items.len() - 1] == items.last());
    }
}

/// The session's title row: name, directory, state and age.
pub open spec fn info_row(s: SessionState, name: Seq<char>, now: i64, home: Seq<char>) -> LineV {
    seq![
        (name, fg_bold(Tint::Cyan)),
        ("  "@ + abbreviate_home_text(s.cwd@, home), fg(Tint::DarkGray)),
        ("  "@ + spec_label(s.status), fg(Tint::DarkGray)),
        ("  "@ + duration_text(now - s.started_at), fg(Tint::DarkGray)),
    ]
}

/// The whole detail pane: the title row, the items that stand, then the
/// running item under a `live` rule, or a note that nothing happened yet,
/// or that the session thinks, or that it idles (with its tool count and
/// age).
pub open spec fn detail_rows(
    s: SessionState,
    name: Seq<char>,
    msgs: Seq<TranscriptMessage>,
    stamps: Seq<Seq<char>>,
    tick: u64,
    width: nat,
    now: i64,
    home: Seq<char>,
) -> Seq<LineV> {
    let tools = s.tool_history@;
    let items = timeline(msgs, tools);
    seq![info_row(s, name, now, home), Seq::empty()] + settled_rows(
        items,
        msgs,
        tools,
        stamps,
        width,
        home,
    ) + match last_unsettled(items, tools) {
        Some(it) => seq![seq![("── live ──"@, fg(Tint::DarkGray))]] + item_rows(
            it,
            msgs,
            tools,
            stamps,
            width,
            home,
        ),
        None => if items.len() == 0 {
            seq![seq![("No activity yet"@, fg(Tint::DarkGray))]]
        } else if s.status == SessionStatus::Processing || s.status == SessionStatus::Compacting {
            seq![seq![(spinner_frame(tick), fg(Tint::Yellow)), (" thinking…"@, fg(Tint::DarkGray))]]
        } else {
            seq![
                seq![
                    ("◦ idle"@, fg(Tint::DarkGray)),
                    (
                        "  "@ + dec(tools.len()) + " tools  "@ + duration_text(now - s.started_at),
                        fg(Tint::DarkGray),
                    ),
                ],
            ]
        },
    }
}

/// What the detail pane needs of its inputs to be drawn: the bubbles fit,
/// durations and ages are within `i64`, and each tool call has its start
/// time.
pub open spec fn items_fit(
    s: SessionState,
    msgs: Seq<TranscriptMessage>,
    stamps: Seq<Seq<char>>,
    width: nat,
) -> bool {
    &&& width * 3 <= usize::MAX
    &&& forall|i: int|
        0 <= i < msgs.len() && (#[trigger] msgs[i]).role == MessageRole::User ==> bubble_fits(
            msgs[i].text@,
            width,
        )
    &&& forall|j: int|
        0 <= j < s.tool_history.len() ==> ((#[trigger] s.tool_history@[j]).ended_at matches Some(end)
            ==> i64::MIN <= end - s.tool_history@[j].started_at <= i64::MAX)
    &&& stamps.len() == s.tool_history.len()
}

fn push_timeline_item(
    out: &mut Vec<Line>,
    item: TimelineItem,
    s: &SessionState,
    msgs: &Vec<TranscriptMessage>,
    stamps: &Vec<String>,
    width: usize,
    home: &str,
)
    requires
        item_in(item, msgs.len() as nat, s.tool_history.len() as nat),
        items_fit(*s, msgs@, stamps@.map_values(|t: String| t@), width as nat),
    ensures
        lines_view(final(out)@) == lines_view(old(out)@) + item_rows(
            item,
            msgs@,
            s.tool_history@,
            stamps@.map_values(|t: String| t@),
            width as nat,
            home@,
        ),
{
    let ghost base = lines_view(out@);
    match item {
        TimelineItem::Message(i) => {
            push_message(out, &msgs[i], width);
        },
        TimelineItem::Tool(j) => {
            push_tool(out, &s.tool_history[j], stamps[j].as_str(), home);
        },
    }
    push_line(out, blank_line());
    assert(lines_view(out@) =~= base + item_rows(
        item,
        msgs@,
        s.tool_history@,
        stamps@.map_values(|t: String| t@),
        width as nat,
        home@,
    ));
}

/// The lines of the detail pane for the selected session. `stamps[j]` is
/// the clock time tool call `j` started at; `tick` drives the spinner.
pub fn detail_lines(
    s: &SessionState,
    display_name: String,
    msgs: &Vec<TranscriptMessage>,
    stamps: &Vec<String>,
    tick: u64,
    width: usize,
    now: i64,
    home: &str,
) -> (r: Vec<Line>)
    requires
        items_fit(*s, msgs@, stamps@.map_values(|t: String| t@), width as nat),
        i64::MIN <= now - s.started_at <= i64::MAX,
    ensures
        lines_view(r@) == detail_rows(
            *s,
            display_name@,
            msgs@,
            stamps@.map_values(|t: String| t@),
            tick,
            width as nat,
            now,
            home@,
        ),
{
    let ghost sv = stamps@.map_values(|t: String| t@);
    let ghost tools = s.tool_history@;
    let elapsed = format_duration(now - s.started_at);
    let mut info = line1(span(display_name, style_fg_bold(Tint::Cyan)));
    let mut c = owned("  ");
    let a = abbreviate_home(s.cwd.as_str(), home);
    push_text(&mut c, a.as_str());
    push_span(&mut info, span(c, style_fg(Tint::DarkGray)));
    let mut l = owned("  ");
    push_text(&mut l, s.status.label());
    push_span(&mut info, span(l, style_fg(Tint::DarkGray)));
    let mut e = owned("  ");
    push_text(&mut e, elapsed.as_str());
    push_span(&mut info, span(e, style_fg(Tint::DarkGray)));
    assert(line_view(info) =~= info_row(*s, display_name@, now, home@));
    let mut out: Vec<Line> = Vec::new();
    push_line(&mut out, info);
    push_line(&mut out, blank_line());
    let ghost head = lines_view(out@);
    assert(head =~= seq![info_row(*s, display_name@, now, home@), Seq::empty()]);
    let items = build_timeline(msgs, &s.tool_history);
    let mut active: Option<TimelineItem> = None;
    let mut k: usize = 0;
    while k < items.len()
        invariant
            sv == stamps@.map_values(|t: String| t@),
            tools == s.tool_history@,
            items_fit(*s, msgs@, sv, width as nat),
            items@ == timeline(msgs@, tools),
            forall|t: int| 0 <= t < items.len() ==> item_in(#[trigger] items@[t], msgs.len() as nat, tools.len()),
            k <= items.len(),
            active == last_unsettled(items@.take(k as int), tools),
            lines_view(out@) == head + settled_rows(items@.take(k as int), msgs@, tools, sv, width as nat, home@),
        decreases items.len() - k,
    {
        assert(items@.take(k + 1).drop_last() =~= items@.take(k as int));
        assert(items@.take(k + 1).last() == items@[k as int]);
        let it = items[k];
        if is_settled(it, &s.tool_history) {
            push_timeline_item(&mut out, it, s, msgs, stamps, width, home);
        } else {
            active = Some(it);
        }
        proof {
            assert(lines_view(out@) =~= head + settled_rows(items@.take(k + 1), msgs@, tools, sv, width as nat, home@));
        }
        k = k + 1;
    }
    assert(items@.take(k as int) =~= items@);
    let ghost mid = lines_view(out@);
    match active {
        Some(it) => {
            proof {
                lemma_last_unsettled_in(items@, tools);
                let t = choose|t: int| 0 <= t < items@.len() && items@[t] == it;
                assert(item_in(items@[t], msgs.len() as nat, tools.len()));
            }
            push_line(&mut out, line1(span_of("── live ──", style_fg(Tint::DarkGray))));
            push_timeline_item(&mut out, it, s, msgs, stamps, width, home);
        },
        None => {
            if items.len() == 0 {
                push_line(&mut out, line1(span_of("No activity yet", style_fg(Tint::DarkGray))));
            } else if s.status == SessionStatus::Processing || s.status == SessionStatus::Compacting {
                let sp = thinking_spinner(tick);
                push_line(
                    &mut out,
                    line2(span_of(sp, style_fg(Tint::Yellow)), span_of(" thinking…", style_fg(Tint::DarkGray))),
                );
            } else {
                let mut t = owned("  ");
                push_u64(&mut t, s.tool_history.len() as u64);
                push_text(&mut t, " tools  ");
                push_text(&mut t, elapsed.as_str());
                push_line(
                    &mut out,
                    line2(span_of("◦ idle", style_fg(Tint::DarkGray)), span(t, style_fg(Tint::DarkGray))),
                );
            }
        },
    }
    assert(lines_view(out@) =~= detail_rows(
        *s,
        display_name@,
        msgs@,
        sv,
        tick,
        width as nat,
        now,
        home@,
    ));
    out
}

} // verus!
