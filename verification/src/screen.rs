//! What the views draw, as plain styled text: lines of spans, each span a
//! run of text with a colour and emphasis. The terminal front end turns
//! these into widgets; every decision about what is shown is made here.
use vstd::prelude::*;
use crate::format::{
    abbreviate_home, abbreviate_home_text, format_duration, duration_text, tool_summary,
    tool_summary_text, trunc_mid, trunc_mid_text,
};
use crate::json::{Json, JsonV};
use crate::status::{spec_icon, spec_label, spec_sort_priority, spec_tint, SessionStatus, Tint};
use crate::text::{chars_of, owned, push_text, push_u64, dec};
use crate::types::{ostr, ojson, SessionState};

verus! {

/// Colour and emphasis of a run of text.
#[derive(Clone, Copy, Debug, PartialEq, Eq)]
pub struct Style {
    pub fg: Option<Tint>,
    pub bold: bool,
    pub dim: bool,
}

/// A run of text in one style.
pub struct Span {
    pub text: String,
    pub style: Style,
}

/// One line of a view; a line without spans is blank.
pub struct Line {
    pub spans: Vec<Span>,
}

pub open spec fn plain() -> Style {
    Style { fg: None, bold: false, dim: false }
}

pub open spec fn fg(t: Tint) -> Style {
    Style { fg: Some(t), bold: false, dim: false }
}

pub open spec fn fg_bold(t: Tint) -> Style {
    Style { fg: Some(t), bold: true, dim: false }
}

/// The model of a span: its text and style.
pub open spec fn span_view(s: Span) -> (Seq<char>, Style) {
    (s.text@, s.style)
}

/// The model of a line.
pub open spec fn line_view(l: Line) -> Seq<(Seq<char>, Style)> {
    l.spans@.map_values(|s: Span| span_view(s))
}

/// The model of a list of lines.
pub open spec fn lines_view(ls: Seq<Line>) -> Seq<Seq<(Seq<char>, Style)>> {
    ls.map_values(|l: Line| line_view(l))
}

pub fn style_plain() -> (r: Style)
    ensures
        r == plain(),
{
    Style { fg: None, bold: false, dim: false }
}

pub fn style_fg(t: Tint) -> (r: Style)
    ensures
        r == fg(t),
{
    Style { fg: Some(t), bold: false, dim: false }
}

pub fn style_fg_bold(t: Tint) -> (r: Style)
    ensures
        r == fg_bold(t),
{
    Style { fg: Some(t), bold: true, dim: false }
}

/// A span of `text` in `style`.
pub fn span(text: String, style: Style) -> (r: Span)
    ensures
        span_view(r) == (text@, style),
{
    Span { text, style }
}

/// A span of a fixed text in `style`.
pub fn span_of(text: &str, style: Style) -> (r: Span)
    ensures
        span_view(r) == (text@, style),
{
    Span { text: owned(text), style }
}

/// A blank line.
pub fn blank_line() -> (r: Line)
    ensures
        line_view(r) == Seq::<(Seq<char>, Style)>::empty(),
{
    let r = Line { spans: Vec::new() };
    assert(line_view(r) =~= Seq::<(Seq<char>, Style)>::empty());
    r
}

/// A line of one span.
pub fn line1(a: Span) -> (r: Line)
    ensures
        line_view(r) == seq![span_view(a)],
{
    let ghost va = span_view(a);
    let mut v: Vec<Span> = Vec::new();
    v.push(a);
    let r = Line { spans: v };
    assert(line_view(r) =~= seq![va]);
    r
}

/// A line of two spans.
pub fn line2(a: Span, b: Span) -> (r: Line)
    ensures
        line_view(r) == seq![span_view(a), span_view(b)],
{
    let ghost va = span_view(a);
    let ghost vb = span_view(b);
    let mut v: Vec<Span> = Vec::new();
    v.push(a);
    v.push(b);
    let r = Line { spans: v };
    assert(line_view(r) =~= seq![va, vb]);
    r
}

/// Appends a span to a line.
pub fn push_span(l: &mut Line, s: Span)
    ensures
        line_view(*final(l)) == line_view(*old(l)).push(span_view(s)),
{
    let ghost vs = span_view(s);
    let ghost before = line_view(*l);
    l.spans.push(s);
    assert(line_view(*l) =~= before.push(vs));
}

/// Appends a line to a list of lines.
pub fn push_line(ls: &mut Vec<Line>, l: Line)
    ensures
        lines_view(final(ls)@) == lines_view(old(ls)@).push(line_view(l)),
{
    let ghost vl = line_view(l);
    let ghost before = lines_view(ls@);
    ls.push(l);
    assert(lines_view(ls@) =~= before.push(vl));
}

/// Moves the lines of `more` to the end of `ls`.
pub fn append_lines(ls: &mut Vec<Line>, more: &mut Vec<Line>)
    ensures
        lines_view(final(ls)@) == lines_view(old(ls)@) + lines_view(old(more)@),
        final(more)@.len() == 0,
{
    let ghost a = ls@;
    let ghost b = more@;
    ls.append(more);
    assert(lines_view(ls@) =~= lines_view(a) + lines_view(b));
}

// ── the session list ────────────────────────────────────────────────────────

/// The list's title line: `Agents`, how many are active when any, and the
/// total.
pub open spec fn list_header_view(active: nat, total: nat) -> Seq<(Seq<char>, Style)> {
    let head = seq![("Agents"@, fg_bold(Tint::Cyan))];
    let with_active = if active > 0 {
        head.push((" · "@ + dec(active) + " active"@, fg(Tint::Green)))
    } else {
        head
    };
    with_active.push((" · "@ + dec(total) + " total"@, fg(Tint::DarkGray)))
}

/// The session list's title line.
pub fn list_header(active: usize, total: usize) -> (r: Line)
    ensures
        line_view(r) == list_header_view(active as nat, total as nat),
{
    let mut l = line1(span_of("Agents", style_fg_bold(Tint::Cyan)));
    if active > 0 {
        let mut t = String::new();
        push_text(&mut t, " · ");
        push_u64(&mut t, active as u64);
        push_text(&mut t, " active");
        push_span(&mut l, span(t, style_fg(Tint::Green)));
    }
    let mut t = String::new();
    push_text(&mut t, " · ");
    push_u64(&mut t, total as u64);
    push_text(&mut t, " total");
    push_span(&mut l, span(t, style_fg(Tint::DarkGray)));
    proof {
        assert(Seq::<char>::empty() + " · "@ =~= " · "@);
    }
    l
}

/// The line shown while no session is known; `agent` names the agent.
pub fn empty_list_line(agent: &str) -> (r: Line)
    ensures
        line_view(r) == seq![("Waiting for "@ + agent@ + " sessions…"@, fg(Tint::DarkGray))],
{
    let mut t = owned("Waiting for ");
    push_text(&mut t, agent);
    push_text(&mut t, " sessions…");
    line1(span(t, style_fg(Tint::DarkGray)))
}

/// The heading of a status group and its colour.
pub open spec fn section_of(s: SessionStatus) -> (Seq<char>, Tint) {
    match s {
        SessionStatus::WaitingForApproval => ("waiting for approval"@, Tint::Yellow),
        SessionStatus::Processing | SessionStatus::RunningTool | SessionStatus::Compacting => (
            "active"@,
            Tint::Green,
        ),
        SessionStatus::WaitingForInput => ("idle"@, Tint::DarkGray),
        SessionStatus::Ended => ("ended"@, Tint::DarkGray),
    }
}

/// The heading of the group a status belongs to, and its colour.
pub fn section_label(status: SessionStatus) -> (r: (&'static str, Tint))
    ensures
        (r.0@, r.1) == section_of(status),
{
    match status {
        SessionStatus::WaitingForApproval => ("waiting for approval", Tint::Yellow),
        SessionStatus::Processing | SessionStatus::RunningTool | SessionStatus::Compacting => (
            "active",
            Tint::Green,
        ),
        SessionStatus::WaitingForInput => ("idle", Tint::DarkGray),
        SessionStatus::Ended => ("ended", Tint::DarkGray),
    }
}

/// A row of the list: a group heading, or the session at an index.
pub enum Slot {
    Header { status: SessionStatus },
    Session(usize),
}

pub open spec fn slot_model(s: Slot) -> (bool, int) {
    match s {
        Slot::Header { status } => (true, spec_sort_priority(status) as int),
        Slot::Session(i) => (false, i as int),
    }
}

/// The rows for a list of statuses: a heading wherever the group changes
/// (and before the first session), then each session.
pub open spec fn slots_of(ss: Seq<SessionStatus>) -> Seq<(bool, int)>
    decreases ss.len(),
{
    if ss.len() == 0 {
        Seq::empty()
    } else {
        let before = slots_of(ss.drop_last());
        let i = ss.len() - 1;
        let p = spec_sort_priority(ss[i]) as int;
        let headed = if i == 0 || spec_sort_priority(ss[i - 1]) != spec_sort_priority(ss[i]) {
            before.push((true, p))
        } else {
            before
        };
        headed.push((false, i))
    }
}

/// The list's rows: a heading before each run of sessions of one group.
pub fn build_slots(sessions: &Vec<SessionState>) -> (r: Vec<Slot>)
    ensures
        r@.map_values(|s: Slot| slot_model(s)) == slots_of(
            sessions@.map_values(|s: SessionState| s.status),
        ),
{
    let ghost st = sessions@.map_values(|s: SessionState| s.status);
    let mut slots: Vec<Slot> = Vec::new();
    let mut current: Option<u8> = None;
    let mut i: usize = 0;
    while i < sessions.len()
        invariant
            st == sessions@.map_values(|s: SessionState| s.status),
            i <= sessions.len(),
            slots@.map_values(|s: Slot| slot_model(s)) == slots_of(st.take(i as int)),
            i == 0 ==> current is None,
            i > 0 ==> current == Some(spec_sort_priority(st[i - 1])),
        decreases sessions.len() - i,
    {
        let ghost before = slots@.map_values(|s: Slot| slot_model(s));
        assert(st.take(i + 1).drop_last() =~= st.take(i as int));
        let p = sessions[i].status.sort_priority();
        if current != Some(p) {
            slots.push(Slot::Header { status: sessions[i].status });
            current = Some(p);
        }
        let ghost mid = slots@.map_values(|s: Slot| slot_model(s));
        slots.push(Slot::Session(i));
        assert(slots@.map_values(|s: Slot| slot_model(s)) =~= mid.push((false, i as int)));
        assert(mid =~= (if i == 0 || spec_sort_priority(st[i - 1]) != spec_sort_priority(st[i as int]) {
            before.push((true, spec_sort_priority(st[i as int]) as int))
        } else {
            before
        }));
        i = i + 1;
    }
    assert(st.take(i as int) =~= st);
    slots
}

/// The first row to show so that the selected row `selected` is visible
/// in a window of `visible` rows out of `total`, moving as little as
/// possible from `current`.
pub open spec fn offset_for(current: nat, selected: nat, total: nat, visible: nat) -> nat {
    if total == 0 || visible == 0 {
        0
    } else {
        let o1 = if selected < current {
            selected
        } else {
            current
        };
        let o2 = if selected >= o1 + visible {
            if selected >= visible - 1 {
                (selected - (visible - 1)) as nat
            } else {
                0
            }
        } else {
            o1
        };
        let cap = if total >= visible {
            (total - visible) as nat
        } else {
            0
        };
        if o2 < cap {
            o2
        } else {
            cap
        }
    }
}

/// Scroll offset of the session list.
pub fn compute_offset(current_offset: usize, selected: usize, total: usize, visible: usize) -> (r:
    usize)
    requires
        total > 0 && visible > 0 ==> (if selected < current_offset {
            selected
        } else {
            current_offset
        }) + visible <= usize::MAX,
    ensures
        r == offset_for(current_offset as nat, selected as nat, total as nat, visible as nat),
{
    if total == 0 || visible == 0 {
        return 0;
    }
    let mut offset = current_offset;
    if selected < offset {
        offset = selected;
    }
    if selected - offset >= visible {
        offset = selected.saturating_sub(visible - 1);
    }
    let cap = total.saturating_sub(visible);
    if offset < cap {
        offset
    } else {
        cap
    }
}

// ── one session's rows ──────────────────────────────────────────────────────

/// ASCII letters in lower case; other characters as they are.
pub open spec fn ascii_lower(c: char) -> char {
    if 'A' <= c && c <= 'Z' {
        ((c as u32) + 32) as char
    } else {
        c
    }
}

/// The text, lower-cased, contains `permission`. Only the ASCII capitals
/// lower-case to these letters, so this is a search that ignores ASCII
/// case.
pub open spec fn mentions_permission(s: Seq<char>) -> bool {
    exists|i: int| 0 <= i && i + 10 <= s.len() && #[trigger] permission_at(s, i)
}

/// `permission`, ignoring ASCII case, starts at position `i`.
pub open spec fn permission_at(s: Seq<char>, i: int) -> bool {
    forall|k: int| 0 <= k < 10 ==> #[trigger] ascii_lower(s[i + k]) == "permission"@[k]
}

fn lower_char(c: char) -> (r: char)
    ensures
        r == ascii_lower(c),
{
    if 'A' <= c && c <= 'Z' {
        let b = (c as u32) as u8;
        (b + 32) as char
    } else {
        c
    }
}

/// Whether a notification is about a permission (case ignored).
pub fn notification_mentions_permission(s: &str) -> (r: bool)
    ensures
        r == mentions_permission(s@),
{
    let cs = chars_of(s);
    let w = chars_of("permission");
    proof {
        reveal_strlit("permission");
    }
    assert(w@.len() == 10);
    if cs.len() < 10 {
        return false;
    }
    let mut i: usize = 0;
    while i <= cs.len() - 10
        invariant
            cs@ == s@,
            w@ == "permission"@,
            w@.len() == 10,
            cs.len() >= 10,
            i <= cs.len() - 9,
            forall|j: int| 0 <= j < i ==> !#[trigger] permission_at(cs@, j),
        decreases cs.len() - i,
    {
        let mut k: usize = 0;
        let mut all = true;
        while k < 10
            invariant
                i + 10 <= cs.len(),
                w@.len() == 10,
                k <= 10,
                all == forall|t: int| 0 <= t < k ==> #[trigger] ascii_lower(cs@[i + t]) == w@[t],
            decreases 10 - k,
        {
            if lower_char(cs[i + k]) != w[k] {
                all = false;
            }
            k = k + 1;
        }
        if all {
            assert(permission_at(cs@, i as int));
            return true;
        }
        assert(!permission_at(cs@, i as int));
        i = i + 1;
    }
    false
}

/// What a session's second row says, and in which colour: the tool it
/// runs, the permission it waits for, that it thinks, its last
/// notification (unless that asks for a permission no request waits for),
/// or that it ended.
pub open spec fn activity_of(
    status: SessionStatus,
    tool: Option<Seq<char>>,
    input: Option<JsonV>,
    notification: Option<Seq<char>>,
    has_pending: bool,
    home: Seq<char>,
) -> Option<(Seq<char>, Tint)> {
    match status {
        SessionStatus::RunningTool => match tool {
            Some(t) => Some(
                (
                    trunc_mid_text(
                        tool_summary_text(
                            t,
                            match input {
                                Some(j) => j,
                                None => JsonV::Object(Seq::empty()),
                            },
                            home,
                        ),
                        46,
                    ),
                    Tint::Yellow,
                ),
            ),
            None => None,
        },
        SessionStatus::WaitingForApproval => Some(
            (
                trunc_mid_text(
                    match tool {
                        Some(t) => "permission needed: "@ + t,
                        None => "permission needed"@,
                    },
                    46,
                ),
                Tint::Yellow,
            ),
        ),
        SessionStatus::Processing | SessionStatus::Compacting => Some(("thinking…"@, Tint::DarkGray)),
        SessionStatus::WaitingForInput => match notification {
            Some(n) => if mentions_permission(n) && !has_pending {
                None
            } else {
                Some((trunc_mid_text(n, 46), Tint::DarkGray))
            },
            None => None,
        },
        SessionStatus::Ended => Some(("session ended"@, Tint::DarkGray)),
    }
}

/// A session's two rows in the list.
pub open spec fn session_rows(
    s: SessionState,
    selected: bool,
    has_pending: bool,
    name: Seq<char>,
    now: i64,
    home: Seq<char>,
) -> Seq<Seq<(Seq<char>, Style)>> {
    let tint = spec_tint(s.status);
    let first = seq![
        if selected {
            ("▶ "@, fg(Tint::Cyan))
        } else {
            ("  "@, plain())
        },
        (spec_icon(s.status), fg(tint)),
        (" "@, plain()),
        (name, if selected {
            Style { fg: None, bold: true, dim: false }
        } else {
            plain()
        }),
        (" "@, fg(Tint::DarkGray)),
        (trunc_mid_text(abbreviate_home_text(s.cwd@, home), 36), if selected {
            fg(Tint::White)
        } else {
            fg(Tint::Gray)
        }),
        (" "@, fg(Tint::DarkGray)),
        (spec_label(s.status), fg(tint)),
        (" "@ + duration_text(now - s.started_at), fg(Tint::DarkGray)),
    ];
    let second = match activity_of(
        s.status,
        ostr(s.current_tool),
        ojson(s.current_tool_input),
        ostr(s.last_notification),
        has_pending,
        home,
    ) {
        Some((label, t)) => seq![("     "@, plain()), (label, fg(t))],
        None => Seq::empty(),
    };
    seq![first, second]
}

/// A session's rows: status, name, directory, state and age; then what it
/// is doing. `now` is the current time and `home` the home directory.
pub fn session_item(
    session: &SessionState,
    selected: bool,
    has_pending_permission: bool,
    display_name: String,
    now: i64,
    home: &str,
) -> (r: Vec<Line>)
    requires
        i64::MIN <= now - session.started_at <= i64::MAX,
    ensures
        lines_view(r@) == session_rows(
            *session,
            selected,
            has_pending_permission,
            display_name@,
            now,
            home@,
        ),
{
    let elapsed = format_duration(now - session.started_at);
    let cwd = trunc_mid(abbreviate_home(session.cwd.as_str(), home).as_str(), 36);
    let tint = session.status.color();
    let cursor = if selected {
        span_of("▶ ", style_fg(Tint::Cyan))
    } else {
        span_of("  ", style_plain())
    };
    let id_style = if selected {
        Style { fg: None, bold: true, dim: false }
    } else {
        style_plain()
    };
    let cwd_style = if selected {
        style_fg(Tint::White)
    } else {
        style_fg(Tint::Gray)
    };
    let mut first = line1(cursor);
    push_span(&mut first, span_of(session.status.icon(), style_fg(tint)));
    push_span(&mut first, span_of(" ", style_plain()));
    push_span(&mut first, span(display_name, id_style));
    push_span(&mut first, span_of(" ", style_fg(Tint::DarkGray)));
    push_span(&mut first, span(cwd, cwd_style));
    push_span(&mut first, span_of(" ", style_fg(Tint::DarkGray)));
    push_span(&mut first, span_of(session.status.label(), style_fg(tint)));
    let mut age = owned(" ");
    crate::text::push_seq(&mut age, &chars_of(elapsed.as_str()));
    push_span(&mut first, span(age, style_fg(Tint::DarkGray)));
    let activity: Option<(String, Tint)> = match session.status {
        SessionStatus::RunningTool => match &session.current_tool {
            Some(t) => {
                let summary = match &session.current_tool_input {
                    Some(j) => tool_summary(t.as_str(), j, home),
                    None => {
                        let members: Vec<(String, Json)> = Vec::new();
                        proof {
                            crate::json::lemma_object_view(members);
                            assert(crate::json::members_view(members@) =~= Seq::empty());
                        }
                        let empty = Json::Object(members);
                        tool_summary(t.as_str(), &empty, home)
                    },
                };
                Some((trunc_mid(summary.as_str(), 46), Tint::Yellow))
            },
            None => None,
        },
        SessionStatus::WaitingForApproval => {
            let label = match &session.current_tool {
                Some(t) => {
                    let mut l = owned("permission needed: ");
                    crate::text::push_text(&mut l, t.as_str());
                    l
                },
                None => owned("permission needed"),
            };
            Some((trunc_mid(label.as_str(), 46), Tint::Yellow))
        },
        SessionStatus::Processing | SessionStatus::Compacting => Some(
            (owned("thinking…"), Tint::DarkGray),
        ),
        SessionStatus::WaitingForInput => match &session.last_notification {
            Some(n) => if notification_mentions_permission(n.as_str()) && !has_pending_permission {
                None
            } else {
                Some((trunc_mid(n.as_str(), 46), Tint::DarkGray))
            },
            None => None,
        },
        SessionStatus::Ended => Some((owned("session ended"), Tint::DarkGray)),
    };
    let ghost act = activity_of(
        session.status,
        ostr(session.current_tool),
        ojson(session.current_tool_input),
        ostr(session.last_notification),
        has_pending_permission,
        home@,
    );
    assert(match activity {
        Some((l, t)) => act == Some((l@, t)),
        None => act is None,
    });
    let second = match activity {
        Some((label, t)) => line2(span_of("     ", style_plain()), span(label, style_fg(t))),
        None => blank_line(),
    };
    let mut r: Vec<Line> = Vec::new();
    push_line(&mut r, first);
    push_line(&mut r, second);
    proof {
        assert(Seq::<char>::empty() + " "@ =~= " "@);
        let rows = session_rows(
            *session,
            selected,
            has_pending_permission,
            display_name@,
            now,
            home@,
        );
        assert(line_view(first) =~= rows[0]);
        assert(line_view(second) =~= rows[1]);
        assert(lines_view(r@) =~= session_rows(
            *session,
            selected,
            has_pending_permission,
            display_name@,
            now,
            home@,
        ));
    }
    r
}

// ── the footer ──────────────────────────────────────────────────────────────

/// A key and what it does.
pub open spec fn hint(key: Seq<char>, what: Seq<char>, key_style: Style) -> Seq<(Seq<char>, Style)> {
    seq![(key, key_style), (what, fg(Tint::DarkGray))]
}

/// The footer's key hints, as the dashboard's state allows them.
pub open spec fn footer_hints(
    has_sessions: bool,
    has_selected_pending: bool,
    show_rename: bool,
    show_new_session: bool,
    sort_label: Seq<char>,
    has_ended: bool,
) -> Seq<(Seq<char>, Style)> {
    let key = fg(Tint::White);
    let warn = fg_bold(Tint::Yellow);
    let a = hint("[q]"@, " quit  "@, key);
    let b = if has_sessions {
        a + hint("[↑↓]"@, " select  "@, key)
    } else {
        a
    };
    let c = if has_selected_pending {
        b + hint("[a]"@, " allow  "@, warn) + hint("[s]"@, " allow session  "@, fg(Tint::Cyan))
            + hint("[d]"@, " deny  "@, warn)
    } else {
        b
    };
    let d = if has_sessions && !show_rename {
        c + hint("[⏎]"@, " switch to  "@, key) + hint("[e]"@, " rename  "@, key)
    } else {
        c
    };
    let e = if !show_new_session {
        d + hint("[n]"@, " new  "@, key)
    } else {
        d
    };
    let f = e + hint("[r]"@, " refresh  "@, key);
    let g = if has_sessions {
        f + hint("[o]"@, " sort:"@ + sort_label + "  "@, key) + hint("[⌫]"@, " remove  "@, key) + if has_ended {
            hint("[x]"@, " clear ended  "@, key)
        } else {
            Seq::empty()
        }
    } else {
        f
    };
    g
}

fn push_hint(l: &mut Line, key: &str, what: String, key_style: Style)
    ensures
        line_view(*final(l)) == line_view(*old(l)) + hint(key@, what@, key_style),
{
    let ghost before = line_view(*l);
    push_span(l, span_of(key, key_style));
    push_span(l, span(what, style_fg(Tint::DarkGray)));
    assert(line_view(*l) =~= before + hint(key@, what@, key_style));
}

/// Whether some session has ended.
pub fn any_ended(sessions: &Vec<SessionState>) -> (r: bool)
    ensures
        r == exists|k: int| 0 <= k < sessions.len() && #[trigger] sessions@[k].status == SessionStatus::Ended,
{
    let mut i: usize = 0;
    while i < sessions.len()
        invariant
            i <= sessions.len(),
            forall|k: int| 0 <= k < i ==> #[trigger] sessions@[k].status != SessionStatus::Ended,
        decreases sessions.len() - i,
    {
        if sessions[i].status == SessionStatus::Ended {
            return true;
        }
        i = i + 1;
    }
    false
}

/// The footer's left part: the keys that do something now.
pub fn footer_left(
    has_sessions: bool,
    has_selected_pending: bool,
    show_rename: bool,
    show_new_session: bool,
    sort_mode: crate::dashboard::SortMode,
    has_ended: bool,
) -> (r: Line)
    ensures
        line_view(r) == footer_hints(
            has_sessions,
            has_selected_pending,
            show_rename,
            show_new_session,
            match sort_mode {
                crate::dashboard::SortMode::Recent => "recent"@,
                crate::dashboard::SortMode::Alphabetical => "a-z"@,
            },
            has_ended,
        ),
{
    let key = style_fg(Tint::White);
    let warn = style_fg_bold(Tint::Yellow);
    let mut l = blank_line();
    push_hint(&mut l, "[q]", owned(" quit  "), key);
    if has_sessions {
        push_hint(&mut l, "[↑↓]", owned(" select  "), key);
    }
    if has_selected_pending {
        push_hint(&mut l, "[a]", owned(" allow  "), warn);
        push_hint(&mut l, "[s]", owned(" allow session  "), style_fg(Tint::Cyan));
        push_hint(&mut l, "[d]", owned(" deny  "), warn);
    }
    if has_sessions && !show_rename {
        push_hint(&mut l, "[⏎]", owned(" switch to  "), key);
        push_hint(&mut l, "[e]", owned(" rename  "), key);
    }
    if !show_new_session {
        push_hint(&mut l, "[n]", owned(" new  "), key);
    }
    push_hint(&mut l, "[r]", owned(" refresh  "), key);
    if has_sessions {
        let mut t = owned(" sort:");
        push_text(&mut t, sort_mode.label());
        push_text(&mut t, "  ");
        push_hint(&mut l, "[o]", t, key);
        push_hint(&mut l, "[⌫]", owned(" remove  "), key);
        if has_ended {
            push_hint(&mut l, "[x]", owned(" clear ended  "), key);
        }
    }
    proof {
        let ghost sl = match sort_mode {
            crate::dashboard::SortMode::Recent => "recent"@,
            crate::dashboard::SortMode::Alphabetical => "a-z"@,
        };
        assert(line_view(l) =~= footer_hints(
            has_sessions,
            has_selected_pending,
            show_rename,
            show_new_session,
            sl,
            has_ended,
        ));
    }
    l
}

/// The footer's right part: how many requests wait, else whether the
/// daemon is connected.
pub open spec fn footer_status_view(pending: nat, connected: bool) -> Seq<(Seq<char>, Style)> {
    if pending > 0 {
        seq![("⚠ "@ + dec(pending) + " pending  "@, fg_bold(Tint::Yellow))]
    } else if connected {
        seq![("●"@, fg(Tint::Green)), (" connected  "@, fg(Tint::DarkGray))]
    } else {
        seq![("⊘"@, fg(Tint::Red)), (" disconnected  "@, fg(Tint::DarkGray))]
    }
}

pub fn footer_right(pending: usize, connected: bool) -> (r: Line)
    ensures
        line_view(r) == footer_status_view(pending as nat, connected),
{
    if pending > 0 {
        let mut t = owned("⚠ ");
        push_u64(&mut t, pending as u64);
        push_text(&mut t, " pending  ");
        line1(span(t, style_fg_bold(Tint::Yellow)))
    } else if connected {
        line2(span_of("●", style_fg(Tint::Green)), span_of(" connected  ", style_fg(Tint::DarkGray)))
    } else {
        line2(span_of("⊘", style_fg(Tint::Red)), span_of(" disconnected  ", style_fg(Tint::DarkGray)))
    }
}

} // verus!
