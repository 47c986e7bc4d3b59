//! The pop-up dialogs: the permission request with what the tool would
//! do, the new-session prompt and the rename prompt.
use vstd::prelude::*;
use crate::format::{abbreviate_home, abbreviate_home_text};
use crate::json::{Json, JsonV, json_pretty, pretty_text};
use crate::screen::{
    blank_line, fg, fg_bold, line1, line2, line_view, lines_view, plain, push_line, push_span,
    span, span_of, style_fg, style_fg_bold, style_plain, Line, Style,
};
use crate::status::Tint;
use crate::text::{
    chars_of, dec, has_prefix, lines, lines_of, owned, push_text, push_u64, str_eq,
    string_of, string_of_range, views,
};
use crate::types::PendingPermission;

verus! {

pub type LineV = Seq<(Seq<char>, Style)>;

/// A tool name as shown: `mcp__server__tool` reads `server › tool`.
pub open spec fn tool_name_text(name: Seq<char>) -> Seq<char> {
    let rest = name.skip(5);
    if name.len() >= 5 && name.take(5) == "mcp__"@ {
        match first_double_underscore(rest) {
            Some(i) => rest.take(i as int) + " › "@ + rest.skip((i + 2) as int),
            None => name,
        }
    } else {
        name
    }
}

/// Position of the first `__` in `s`.
pub open spec fn first_double_underscore(s: Seq<char>) -> Option<nat>
    decreases s.len(),
{
    if s.len() < 2 {
        None
    } else if s[0] == '_' && s[1] == '_' {
        Some(0)
    } else {
        match first_double_underscore(s.drop_first()) {
            Some(i) => Some(i + 1),
            None => None,
        }
    }
}

proof fn lemma_first_double_underscore(s: Seq<char>, i: int)
    requires
        0 <= i,
        forall|j: int| 0 <= j < i && j + 1 < s.len() ==> !(#[trigger] s[j] == '_' && s[j + 1] == '_'),
        i + 2 > s.len() || (s[i] == '_' && s[i + 1] == '_'),
    ensures
        i + 2 <= s.len() ==> first_double_underscore(s) == Some(i as nat),
        i + 2 > s.len() ==> first_double_underscore(s) is None,
    decreases i,
{
    if i > 0 && s.len() >= 2 {
        assert forall|j: int| 0 <= j < i - 1 && j + 1 < s.drop_first().len() implies !(
        #[trigger] s.drop_first()[j] == '_' && s.drop_first()[j + 1] == '_') by {
            assert(s.drop_first()[j] == s[j + 1]);
            assert(s.drop_first()[j + 1] == s[j + 2]);
        }
        if i + 2 <= s.len() {
            assert(s.drop_first()[i - 1] == s[i]);
            assert(s.drop_first()[i] == s[i + 1]);
        }
        assert(!(s[0] == '_' && s[1] == '_'));
        lemma_first_double_underscore(s.drop_first(), i - 1);
    }
}

/// The tool name shown in a permission request.
pub fn format_tool_name(name: &str) -> (r: String)
    ensures
        r@ == tool_name_text(name@),
{
    let cs = chars_of(name);
    let p = chars_of("mcp__");
    proof {
        reveal_strlit("mcp__");
    }
    if cs.len() >= 5 && has_prefix(&cs, &p) {
        assert(cs@.take(5) =~= p@);
        let ghost rest = cs@.skip(5);
        let mut i: usize = 5;
        while i < cs.len() - 1
            invariant
                cs@ == name@,
                cs.len() >= 5,
                cs@.take(5) == "mcp__"@,
                5 <= i <= cs.len(),
                rest == cs@.skip(5),
                forall|j: int| 0 <= j < i - 5 && j + 1 < rest.len() ==> !(#[trigger] rest[j] == '_'
                    && rest[j + 1] == '_'),
            decreases cs.len() - i,
        {
            if cs[i] == '_' && cs[i + 1] == '_' {
                proof {
                    lemma_first_double_underscore(rest, i - 5);
                }
                let mut r = string_of_range(&cs, 5, i);
                push_text(&mut r, " › ");
                let tail = string_of_range(&cs, i + 2, cs.len());
                push_text(&mut r, tail.as_str());
                assert(r@ =~= rest.take(i - 5) + " › "@ + rest.skip(i - 5 + 2));
                return r;
            }
            assert(rest[i - 5] == cs@[i as int]);
            i = i + 1;
        }
        proof {
            lemma_first_double_underscore(rest, i - 5);
        }
        string_of(&cs)
    } else {
        string_of(&cs)
    }
}

/// One line of a diff: the marker, then the text, both in `color`.
pub open spec fn diff_row(prefix: Seq<char>, content: Seq<char>, color: Tint) -> LineV {
    seq![(prefix + " "@, fg(color)), (content, fg(color))]
}

/// The note that `n` more lines are not shown.
pub open spec fn elided_row(n: nat) -> LineV {
    seq![(
        "  … "@ + dec(n) + " more line"@ + if n == 1 {
            ""@
        } else {
            "s"@
        },
        fg(Tint::DarkGray),
    )]
}

/// At most `max` lines of `ls` as diff lines, then how many were left out.
pub open spec fn diff_rows(ls: Seq<Seq<char>>, prefix: Seq<char>, color: Tint, max: nat) -> Seq<
    LineV,
> {
    let shown = if ls.len() > max {
        ls.take(max as int)
    } else {
        ls
    };
    shown.map_values(|l: Seq<char>| diff_row(prefix, l, color)) + if ls.len() > max {
        seq![elided_row((ls.len() - max) as nat)]
    } else {
        Seq::empty()
    }
}

fn diff_line(prefix: &str, content: &Vec<char>, color: Tint) -> (r: Line)
    ensures
        line_view(r) == diff_row(prefix@, content@, color),
{
    let mut p = owned(prefix);
    push_text(&mut p, " ");
    line2(span(p, style_fg(color)), span(string_of(content), style_fg(color)))
}

fn elided(n: usize) -> (r: Line)
    ensures
        line_view(r) == elided_row(n as nat),
{
    let mut t = owned("  … ");
    push_u64(&mut t, n as u64);
    push_text(&mut t, " more line");
    if n == 1 {
        push_text(&mut t, "");
    } else {
        push_text(&mut t, "s");
    }
    line1(span(t, style_fg(Tint::DarkGray)))
}

/// Appends the diff lines of `text` to `out`.
fn push_diff_rows(out: &mut Vec<Line>, text: &str, prefix: &str, color: Tint, max: usize)
    ensures
        lines_view(final(out)@) == lines_view(old(out)@) + diff_rows(
            lines(text@),
            prefix@,
            color,
            max as nat,
        ),
{
    let cs = chars_of(text);
    let ls = lines_of(&cs);
    let ghost lv = lines(text@);
    let ghost base = lines_view(out@);
    let n = if ls.len() > max {
        max
    } else {
        ls.len()
    };
    let ghost shown = if lv.len() > max {
        lv.take(max as int)
    } else {
        lv
    };
    let mut i: usize = 0;
    while i < n
        invariant
            views(ls@) == lv,
            n <= ls.len(),
            shown.len() == n,
            forall|k: int| 0 <= k < n ==> shown[k] == lv[k],
            i <= n,
            lines_view(out@) == base + shown.take(i as int).map_values(
                |l: Seq<char>| diff_row(prefix@, l, color),
            ),
        decreases n - i,
    {
        assert(views(ls@)[i as int] == ls@[i as int]@);
        let l = diff_line(prefix, &ls[i], color);
        push_line(out, l);
        assert(shown.take(i + 1).map_values(|l: Seq<char>| diff_row(prefix@, l, color))
            =~= shown.take(i as int).map_values(|l: Seq<char>| diff_row(prefix@, l, color)).push(
            diff_row(prefix@, shown[i as int], color),
        ));
        i = i + 1;
    }
    assert(shown.take(n as int) =~= shown);
    if ls.len() > max {
        let e = elided(ls.len() - max);
        push_line(out, e);
    }
    assert(lines_view(out@) =~= base + diff_rows(lines(text@), prefix@, color, max as nat));
}

/// The text of member `key` of `input`, or nothing.
pub open spec fn str_member(input: JsonV, key: Seq<char>) -> Seq<char> {
    match input.str_at(key) {
        Some(s) => s,
        None => Seq::empty(),
    }
}

fn str_member_exec(input: &Json, key: &str) -> (r: String)
    ensures
        r@ == str_member(input@, key@),
{
    match input.str_at(key) {
        Some(s) => s.clone(),
        None => String::new(),
    }
}

/// The `file` line of an edit or a write: the file path, `~`-abbreviated.
pub open spec fn file_row(input: JsonV, home: Seq<char>) -> LineV {
    seq![
        ("file  "@, fg(Tint::DarkGray)),
        (match input.str_at("file_path"@) {
            Some(f) => abbreviate_home_text(f, home),
            None => Seq::empty(),
        }, fg(Tint::White)),
    ]
}

fn file_line(input: &Json, home: &str) -> (r: Line)
    ensures
        line_view(r) == file_row(input@, home@),
{
    let file = match input.str_at("file_path") {
        Some(f) => abbreviate_home(f.as_str(), home),
        None => String::new(),
    };
    line2(span_of("file  ", style_fg(Tint::DarkGray)), span(file, style_fg(Tint::White)))
}

/// An edit: the file, a note when every occurrence is replaced, then up
/// to 30 removed and 30 added lines.
pub open spec fn edit_rows(input: JsonV, home: Seq<char>) -> Seq<LineV> {
    let head = seq![file_row(input, home)];
    let noted = if match input.get("replace_all"@) {
        Some(v) => v.as_bool() == Some(true),
        None => false,
    } {
        head.push(seq![("      replace all occurrences"@, fg(Tint::Yellow))])
    } else {
        head
    };
    noted.push(Seq::empty()) + diff_rows(lines(str_member(input, "old_string"@)), "-"@, Tint::Red, 30)
        + diff_rows(lines(str_member(input, "new_string"@)), "+"@, Tint::Green, 30)
}

/// A write: the file, then up to 30 lines of the new content.
pub open spec fn write_rows(input: JsonV, home: Seq<char>) -> Seq<LineV> {
    seq![file_row(input, home), Seq::empty()] + diff_rows(
        lines(str_member(input, "content"@)),
        "+"@,
        Tint::Green,
        30,
    )
}

/// A shell command: up to 20 of its lines, then how many more there are.
pub open spec fn bash_rows(input: JsonV) -> Seq<LineV> {
    let ls = lines(str_member(input, "command"@));
    let shown = if ls.len() > 20 {
        ls.take(20)
    } else {
        ls
    };
    seq![seq![("  command"@, fg(Tint::DarkGray))], Seq::empty()] + shown.map_values(
        |l: Seq<char>| seq![("  $ "@, fg(Tint::DarkGray)), (l, fg(Tint::Cyan))],
    ) + if ls.len() > 20 {
        seq![seq![("  … "@ + dec((ls.len() - 20) as nat) + " more lines"@, fg(Tint::DarkGray))]]
    } else {
        Seq::empty()
    }
}

/// Any other tool: the first 20 lines of its input, pretty-printed as
/// JSON (`pretty`).
pub open spec fn json_rows(pretty: Seq<char>) -> Seq<LineV> {
    let ls = lines(pretty);
    let shown = if ls.len() > 20 {
        ls.take(20)
    } else {
        ls
    };
    shown.map_values(|l: Seq<char>| seq![(l, fg(Tint::DarkGray))])
}

/// What a permission request shows of the tool call.
pub open spec fn permission_body_rows(p: PendingPermission, home: Seq<char>) -> Seq<LineV> {
    let n = p.tool_name@;
    if n == "Edit"@ || n == "MultiEdit"@ {
        edit_rows(p.tool_input@, home)
    } else if n == "Write"@ {
        write_rows(p.tool_input@, home)
    } else if n == "Bash"@ {
        bash_rows(p.tool_input@)
    } else {
        json_rows(json_pretty(p.tool_input@))
    }
}

fn build_edit_diff(input: &Json, home: &str) -> (r: Vec<Line>)
    ensures
        lines_view(r@) == edit_rows(input@, home@),
{
    let mut out: Vec<Line> = Vec::new();
    push_line(&mut out, file_line(input, home));
    let replace_all = match input.get("replace_all") {
        Some(v) => match v.as_bool() {
            Some(b) => b,
            None => false,
        },
        None => false,
    };
    if replace_all {
        push_line(&mut out, line1(span_of("      replace all occurrences", style_fg(Tint::Yellow))));
    }
    push_line(&mut out, blank_line());
    let old = str_member_exec(input, "old_string");
    let new = str_member_exec(input, "new_string");
    push_diff_rows(&mut out, old.as_str(), "-", Tint::Red, 30);
    push_diff_rows(&mut out, new.as_str(), "+", Tint::Green, 30);
    assert(lines_view(out@) =~= edit_rows(input@, home@));
    out
}

fn build_write_diff(input: &Json, home: &str) -> (r: Vec<Line>)
    ensures
        lines_view(r@) == write_rows(input@, home@),
{
    let mut out: Vec<Line> = Vec::new();
    push_line(&mut out, file_line(input, home));
    push_line(&mut out, blank_line());
    let content = str_member_exec(input, "content");
    push_diff_rows(&mut out, content.as_str(), "+", Tint::Green, 30);
    assert(lines_view(out@) =~= write_rows(input@, home@));
    out
}

fn build_bash_body(input: &Json) -> (r: Vec<Line>)
    ensures
        lines_view(r@) == bash_rows(input@),
{
    let cmd = str_member_exec(input, "command");
    let cs = chars_of(cmd.as_str());
    let ls = lines_of(&cs);
    let ghost lv = lines(cmd@);
    let mut out: Vec<Line> = Vec::new();
    push_line(&mut out, line1(span_of("  command", style_fg(Tint::DarkGray))));
    push_line(&mut out, blank_line());
    let ghost base = lines_view(out@);
    let n = if ls.len() > 20 {
        20
    } else {
        ls.len()
    };
    let ghost shown = if lv.len() > 20 {
        lv.take(20)
    } else {
        lv
    };
    let ghost f = |l: Seq<char>| seq![("  $ "@, fg(Tint::DarkGray)), (l, fg(Tint::Cyan))];
    let mut i: usize = 0;
    while i < n
        invariant
            views(ls@) == lv,
            n <= ls.len(),
            shown.len() == n,
            forall|k: int| 0 <= k < n ==> shown[k] == lv[k],
            i <= n,
            f == (|l: Seq<char>| seq![("  $ "@, fg(Tint::DarkGray)), (l, fg(Tint::Cyan))]),
            lines_view(out@) == base + shown.take(i as int).map_values(f),
        decreases n - i,
    {
        assert(views(ls@)[i as int] == ls@[i as int]@);
        let l = line2(span_of("  $ ", style_fg(Tint::DarkGray)), span(string_of(&ls[i]), style_fg(Tint::Cyan)));
        push_line(&mut out, l);
        assert(shown.take(i + 1).map_values(f) =~= shown.take(i as int).map_values(f).push(
            f(shown[i as int]),
        ));
        i = i + 1;
    }
    assert(shown.take(n as int) =~= shown);
    if ls.len() > 20 {
        let mut t = owned("  … ");
        push_u64(&mut t, (ls.len() - 20) as u64);
        push_text(&mut t, " more lines");
        push_line(&mut out, line1(span(t, style_fg(Tint::DarkGray))));
    }
    assert(lines_view(out@) =~= bash_rows(input@));
    out
}

fn build_json_body(pretty: &str) -> (r: Vec<Line>)
    ensures
        lines_view(r@) == json_rows(pretty@),
{
    let cs = chars_of(pretty);
    let ls = lines_of(&cs);
    let ghost lv = lines(pretty@);
    let n = if ls.len() > 20 {
        20
    } else {
        ls.len()
    };
    let ghost shown = if lv.len() > 20 {
        lv.take(20)
    } else {
        lv
    };
    let ghost f = |l: Seq<char>| seq![(l, fg(Tint::DarkGray))];
    let mut out: Vec<Line> = Vec::new();
    let mut i: usize = 0;
    while i < n
        invariant
            views(ls@) == lv,
            n <= ls.len(),
            shown.len() == n,
            forall|k: int| 0 <= k < n ==> shown[k] == lv[k],
            i <= n,
            f == (|l: Seq<char>| seq![(l, fg(Tint::DarkGray))]),
            lines_view(out@) == shown.take(i as int).map_values(f),
        decreases n - i,
    {
        assert(views(ls@)[i as int] == ls@[i as int]@);
        push_line(&mut out, line1(span(string_of(&ls[i]), style_fg(Tint::DarkGray))));
        assert(shown.take(i + 1).map_values(f) =~= shown.take(i as int).map_values(f).push(
            f(shown[i as int]),
        ));
        i = i + 1;
    }
    assert(shown.take(n as int) =~= shown);
    out
}

/// The lines showing what a permission request's tool would do; a tool
/// without a view of its own shows its input pretty-printed as JSON.
pub fn build_permission_body(perm: &PendingPermission, home: &str) -> (r: Vec<Line>)
    ensures
        lines_view(r@) == permission_body_rows(*perm, home@),
{
    let n = perm.tool_name.as_str();
    if str_eq(n, "Edit") || str_eq(n, "MultiEdit") {
        build_edit_diff(&perm.tool_input, home)
    } else if str_eq(n, "Write") {
        build_write_diff(&perm.tool_input, home)
    } else if str_eq(n, "Bash") {
        build_bash_body(&perm.tool_input)
    } else {
        let pretty = pretty_text(&perm.tool_input);
        build_json_body(pretty.as_str())
    }
}

/// The request's header lines: the session (its id cut to 8 bytes) and
/// directory, then the tool.
pub open spec fn permission_head_rows(id_cut: Seq<char>, cwd: Seq<char>, tool: Seq<char>) -> Seq<
    LineV,
> {
    seq![
        seq![
            ("session "@, fg(Tint::DarkGray)),
            (id_cut, plain()),
            ("  "@, plain()),
            (cwd, fg(Tint::DarkGray)),
        ],
        seq![("tool    "@, fg(Tint::DarkGray)), (tool_name_text(tool), fg_bold(Tint::Cyan))],
        Seq::empty(),
    ]
}

/// Everything a permission request shows above its buttons: whose it is,
/// which tool, and what the tool would do. The session id is cut to its
/// first 8 bytes.
pub fn permission_lines(perm: &PendingPermission, home: &str) -> (r: Vec<Line>)
    requires
        crate::dashboard::id_cut_ok(perm.session_id@),
    ensures
        exists|id_cut: Seq<char>|
            vstd::utf8::encode_utf8(id_cut) == vstd::utf8::encode_utf8(perm.session_id@).take(
                if vstd::utf8::encode_utf8(perm.session_id@).len() > 8 {
                    8
                } else {
                    vstd::utf8::encode_utf8(perm.session_id@).len() as int
                },
            ) && lines_view(r@) == permission_head_rows(
                id_cut,
                abbreviate_home_text(perm.cwd@, home@),
                perm.tool_name@,
            ) + permission_body_rows(*perm, home@),
{
    let id = crate::text::byte_prefix(perm.session_id.as_str(), 8);
    let ghost id_v = id@;
    let cwd = abbreviate_home(perm.cwd.as_str(), home);
    let mut first = line2(span_of("session ", style_fg(Tint::DarkGray)), span(id, style_plain()));
    push_span(&mut first, span_of("  ", style_plain()));
    push_span(&mut first, span(cwd, style_fg(Tint::DarkGray)));
    let second = line2(
        span_of("tool    ", style_fg(Tint::DarkGray)),
        span(format_tool_name(perm.tool_name.as_str()), style_fg_bold(Tint::Cyan)),
    );
    let ghost rows = permission_head_rows(
        id_v,
        abbreviate_home_text(perm.cwd@, home@),
        perm.tool_name@,
    );
    assert(line_view(first) =~= rows[0]);
    assert(line_view(second) =~= rows[1]);
    let mut out: Vec<Line> = Vec::new();
    push_line(&mut out, first);
    push_line(&mut out, second);
    push_line(&mut out, blank_line());
    assert(lines_view(out@) =~= permission_head_rows(
        id_v,
        abbreviate_home_text(perm.cwd@, home@),
        perm.tool_name@,
    ));
    let mut body = build_permission_body(perm, home);
    crate::screen::append_lines(&mut out, &mut body);
    proof {
        assert(lines_view(out@) =~= permission_head_rows(
            id_v,
            abbreviate_home_text(perm.cwd@, home@),
            perm.tool_name@,
        ) + permission_body_rows(*perm, home@));
    }
    out
}

/// The answer keys under a permission request.
pub open spec fn button_row() -> LineV {
    seq![
        ("[a] Allow"@, fg_bold(Tint::Green)),
        ("      "@, plain()),
        ("[s] Allow for session"@, fg_bold(Tint::Cyan)),
        ("      "@, plain()),
        ("[d] Deny"@, fg_bold(Tint::Red)),
    ]
}

pub fn permission_buttons() -> (r: Line)
    ensures
        line_view(r) == button_row(),
{
    let mut l = line2(span_of("[a] Allow", style_fg_bold(Tint::Green)), span_of("      ", style_plain()));
    push_span(&mut l, span_of("[s] Allow for session", style_fg_bold(Tint::Cyan)));
    push_span(&mut l, span_of("      ", style_plain()));
    push_span(&mut l, span_of("[d] Deny", style_fg_bold(Tint::Red)));
    assert(line_view(l) =~= button_row());
    l
}

/// A rectangle of the terminal, in cells.
#[derive(Clone, Copy, Debug, PartialEq, Eq)]
pub struct Rect {
    pub x: u16,
    pub y: u16,
    pub width: u16,
    pub height: u16,
}

/// A `width` by `height` rectangle centred in `area`, shrunk to fit.
pub open spec fn centered(area: Rect, width: u16, height: u16) -> Rect {
    let w = if width < area.width {
        width
    } else {
        area.width
    };
    let h = if height < area.height {
        height
    } else {
        area.height
    };
    Rect {
        x: (area.x + (area.width - w) / 2) as u16,
        y: (area.y + (area.height - h) / 2) as u16,
        width: w,
        height: h,
    }
}

/// Centres a `width` by `height` pop-up in `area`.
pub fn centered_rect(area: Rect, width: u16, height: u16) -> (r: Rect)
    requires
        area.x + area.width <= u16::MAX,
        area.y + area.height <= u16::MAX,
    ensures
        r == centered(area, width, height),
{
    let w = if width < area.width {
        width
    } else {
        area.width
    };
    let h = if height < area.height {
        height
    } else {
        area.height
    };
    Rect {
        x: area.x + (area.width - w) / 2,
        y: area.y + (area.height - h) / 2,
        width: w,
        height: h,
    }
}

/// Where the permission request pops up: 80% of the screen wide, tall
/// enough for its `lines` lines, the header, the buttons and the border.
pub fn permission_popup(area: Rect, lines: usize) -> (r: Rect)
    requires
        area.x + area.width <= u16::MAX,
        area.y + area.height <= u16::MAX,
        area.width * 80 <= u16::MAX,
        lines % 65536 + 8 <= u16::MAX,
    ensures
        r == centered(area, (area.width * 80 / 100) as u16, (lines % 65536 + 8) as u16),
{
    let content_height = lines as u16;
    assert(content_height == lines % 65536) by (bit_vector)
        requires
            content_height == lines as u16,
    ;
    centered_rect(area, area.width * 80 / 100, content_height + 8)
}

/// The new-session dialog's title: where the session will open.
pub open spec fn new_session_title_text(in_tmux: bool, in_iterm: bool) -> Seq<char> {
    if in_tmux {
        " ◆ New Session "@
    } else if in_iterm {
        " ◆ New Session (opens iTerm2) "@
    } else {
        " ◆ New Session (opens Terminal.app) "@
    }
}

pub fn new_session_title(in_tmux: bool, in_iterm: bool) -> (r: &'static str)
    ensures
        r@ == new_session_title_text(in_tmux, in_iterm),
{
    if in_tmux {
        " ◆ New Session "
    } else if in_iterm {
        " ◆ New Session (opens iTerm2) "
    } else {
        " ◆ New Session (opens Terminal.app) "
    }
}

/// A text field with the cursor after its text.
pub open spec fn input_row(text: Seq<char>) -> LineV {
    seq![(" "@, plain()), (text + "▌"@, fg(Tint::White))]
}

fn input_line(text: &String) -> (r: Line)
    ensures
        line_view(r) == input_row(text@),
{
    let mut t = text.clone();
    push_text(&mut t, "▌");
    line2(span_of(" ", style_plain()), span(t, style_fg(Tint::White)))
}

/// The new-session dialog: the directory typed so far, up to four recent
/// directories (until a launch started), the launch of the agent's command
/// `agent` or its error, and the keys.
pub open spec fn new_session_rows(
    agent: Seq<char>,
    input: Seq<char>,
    recent: Seq<Seq<char>>,
    launched: bool,
    error: Option<Seq<char>>,
    home: Seq<char>,
) -> Seq<LineV> {
    let head = seq![
        seq![("Working directory:"@, fg(Tint::DarkGray))],
        Seq::empty(),
        input_row(input),
        Seq::empty(),
    ];
    let shown = if recent.len() > 4 {
        recent.take(4)
    } else {
        recent
    };
    let with_recent = if recent.len() > 0 && !launched {
        head + seq![seq![("Recent:"@, fg(Tint::DarkGray))]] + shown.map_values(
            |d: Seq<char>| seq![("  "@ + abbreviate_home_text(d, home), fg(Tint::DarkGray))],
        ) + seq![Seq::empty()]
    } else {
        head
    };
    let with_launch = if launched {
        with_recent.push(
            seq![
                (
                    "✓ launching "@ + agent + " in "@ + abbreviate_home_text(input, home) + "…"@,
                    fg(Tint::Green),
                ),
            ],
        )
    } else {
        with_recent
    };
    let with_error = match error {
        Some(e) => with_launch.push(seq![("✗ "@ + e, fg(Tint::Red))]),
        None => with_launch,
    };
    with_error.push(Seq::empty()).push(seq![("[enter] launch   [esc] cancel"@, fg(Tint::DarkGray))])
}

/// The lines of the new-session dialog.
pub fn new_session_lines(
    agent: &str,
    input: &String,
    recent: &Vec<String>,
    launched: bool,
    error: &Option<String>,
    home: &str,
) -> (r: Vec<Line>)
    ensures
        lines_view(r@) == new_session_rows(
            agent@,
            input@,
            recent@.map_values(|d: String| d@),
            launched,
            crate::types::ostr(*error),
            home@,
        ),
{
    let ghost rv = recent@.map_values(|d: String| d@);
    let ghost f = |d: Seq<char>| seq![("  "@ + abbreviate_home_text(d, home@), fg(Tint::DarkGray))];
    let mut out: Vec<Line> = Vec::new();
    push_line(&mut out, line1(span_of("Working directory:", style_fg(Tint::DarkGray))));
    push_line(&mut out, blank_line());
    push_line(&mut out, input_line(input));
    push_line(&mut out, blank_line());
    let ghost head = lines_view(out@);
    if recent.len() > 0 && !launched {
        push_line(&mut out, line1(span_of("Recent:", style_fg(Tint::DarkGray))));
        let ghost base = lines_view(out@);
        let n = if recent.len() > 4 {
            4
        } else {
            recent.len()
        };
        let ghost shown = if rv.len() > 4 {
            rv.take(4)
        } else {
            rv
        };
        let mut i: usize = 0;
        while i < n
            invariant
                rv == recent@.map_values(|d: String| d@),
                n <= recent.len(),
                shown.len() == n,
                forall|k: int| 0 <= k < n ==> shown[k] == rv[k],
                i <= n,
                f == (|d: Seq<char>| seq![("  "@ + abbreviate_home_text(d, home@), fg(Tint::DarkGray))]),
                lines_view(out@) == base + shown.take(i as int).map_values(f),
            decreases n - i,
        {
            let mut t = owned("  ");
            let a = abbreviate_home(recent[i].as_str(), home);
            push_text(&mut t, a.as_str());
            push_line(&mut out, line1(span(t, style_fg(Tint::DarkGray))));
            assert(shown[i as int] == recent@[i as int]@);
            assert(shown.take(i + 1).map_values(f) =~= shown.take(i as int).map_values(f).push(
                f(shown[i as int]),
            ));
            i = i + 1;
        }
        assert(shown.take(n as int) =~= shown);
        push_line(&mut out, blank_line());
    }
    if launched {
        let mut t = owned("✓ launching ");
        push_text(&mut t, agent);
        push_text(&mut t, " in ");
        let a = abbreviate_home(input.as_str(), home);
        push_text(&mut t, a.as_str());
        push_text(&mut t, "…");
        push_line(&mut out, line1(span(t, style_fg(Tint::Green))));
    }
    match error {
        Some(e) => {
            let mut t = owned("✗ ");
            push_text(&mut t, e.as_str());
            push_line(&mut out, line1(span(t, style_fg(Tint::Red))));
        },
        None => {},
    }
    push_line(&mut out, blank_line());
    push_line(&mut out, line1(span_of("[enter] launch   [esc] cancel", style_fg(Tint::DarkGray))));
    assert(lines_view(out@) =~= new_session_rows(
        agent@,
        input@,
        rv,
        launched,
        crate::types::ostr(*error),
        home@,
    ));
    out
}

/// The rename dialog's title, naming the session as it is shown now.
pub open spec fn rename_title_text(current: Seq<char>) -> Seq<char> {
    " ✎ Rename — "@ + current + " "@
}

pub fn rename_title(current: &str) -> (r: String)
    ensures
        r@ == rename_title_text(current@),
{
    let mut t = owned(" ✎ Rename — ");
    push_text(&mut t, current);
    push_text(&mut t, " ");
    t
}

/// The rename dialog: the name typed so far, a hint, and the keys.
pub open spec fn rename_rows(input: Seq<char>) -> Seq<LineV> {
    seq![
        Seq::empty(),
        input_row(input),
        Seq::empty(),
        seq![(" empty name → restore original id"@, fg(Tint::DarkGray))],
        Seq::empty(),
        seq![("[enter] confirm   [esc] cancel"@, fg(Tint::DarkGray))],
    ]
}

pub fn rename_lines(input: &String) -> (r: Vec<Line>)
    ensures
        lines_view(r@) == rename_rows(input@),
{
    let mut out: Vec<Line> = Vec::new();
    push_line(&mut out, blank_line());
    push_line(&mut out, input_line(input));
    push_line(&mut out, blank_line());
    push_line(&mut out, line1(span_of(" empty name → restore original id", style_fg(Tint::DarkGray))));
    push_line(&mut out, blank_line());
    push_line(&mut out, line1(span_of("[enter] confirm   [esc] cancel", style_fg(Tint::DarkGray))));
    assert(lines_view(out@) =~= rename_rows(input@));
    out
}

} // verus!
