//! Text formatting for the views: durations, shortened paths and strings,
//! and the one-line summaries of tool calls.
use vstd::prelude::*;
use crate::json::{Json, JsonV};
use crate::status::Tint;
use crate::text::{
    chars_of, dec, find_char, has_prefix, is_whitespace, is_ws, lead_ws, lemma_find_char,
    lemma_lead_ws, lines, lines_of, skip_ws_from, trim_start,
    owned, push_char, push_i64, push_seq, push_text, push_u64, starts_with, str_eq, string_of,
    int_text,
    string_of_range, views,
};

verus! {

// ── token counts ────────────────────────────────────────────────────────────

/// A token count as the usage view shows it below a million: `"{n/1000}k
/// tok"` from a thousand on, else `"{n} tok"`. A count of a million or more
/// is shown in millions with two decimals, computed in floating point.
pub open spec fn tokens_text(n: int) -> Option<Seq<char>> {
    if n >= 1_000_000 {
        None
    } else if n >= 1000 {
        Some(dec((n / 1000) as nat) + "k tok"@)
    } else {
        Some(int_text(n) + " tok"@)
    }
}

/// The text of a token count, or `None` for a count of a million or more,
/// whose text is a floating-point quotient.
pub fn fmt_tokens(n: i64) -> (r: Option<String>)
    ensures
        match r {
            Some(t) => tokens_text(n as int) == Some(t@),
            None => tokens_text(n as int) is None,
        },
{
    if n >= 1_000_000 {
        None
    } else if n >= 1000 {
        let mut t = String::new();
        push_u64(&mut t, (n / 1000) as u64);
        push_text(&mut t, "k tok");
        assert(t@ =~= dec((n / 1000) as nat) + "k tok"@);
        Some(t)
    } else {
        let mut t = String::new();
        push_i64(&mut t, n);
        push_text(&mut t, " tok");
        assert(t@ =~= int_text(n as int) + " tok"@);
        Some(t)
    }
}

// ── durations ───────────────────────────────────────────────────────────────

/// `"{h}h {m}m"`, `"{m}m {s}s"` or `"{s}s"` for a span of `ms` milliseconds
/// (negative spans count as zero).
pub open spec fn duration_text(ms: int) -> Seq<char> {
    let secs: nat = if ms < 0 {
        0
    } else {
        (ms / 1000) as nat
    };
    let mins = secs / 60;
    let hours = mins / 60;
    if hours >= 1 {
        dec(hours) + "h "@ + dec(mins % 60) + "m"@
    } else if mins >= 1 {
        dec(mins) + "m "@ + dec(secs % 60) + "s"@
    } else {
        dec(secs) + "s"@
    }
}

pub fn format_duration(ms: i64) -> (r: String)
    ensures
        r@ == duration_text(ms as int),
{
    let secs: u64 = if ms < 0 {
        0
    } else {
        (ms / 1000) as u64
    };
    let mins = secs / 60;
    let hours = mins / 60;
    let mut r = String::new();
    if hours >= 1 {
        push_u64(&mut r, hours);
        push_text(&mut r, "h ");
        push_u64(&mut r, mins % 60);
        push_text(&mut r, "m");
    } else if mins >= 1 {
        push_u64(&mut r, mins);
        push_text(&mut r, "m ");
        push_u64(&mut r, secs % 60);
        push_text(&mut r, "s");
    } else {
        push_u64(&mut r, secs);
        push_text(&mut r, "s");
    }
    assert(r@ =~= duration_text(ms as int));
    r
}

// ── shortening ──────────────────────────────────────────────────────────────

/// `s` itself when it has at most `max` characters; else its first and last
/// characters around `...`, `max` characters in all.
pub open spec fn trunc_mid_text(s: Seq<char>, max: nat) -> Seq<char> {
    if s.len() <= max {
        s
    } else {
        let tail = max / 3;
        let head = max - tail - 3;
        s.take(head) + "..."@ + s.skip(s.len() - tail)
    }
}

pub fn trunc_mid(s: &str, max: usize) -> (r: String)
    requires
        s@.len() <= max || max >= 4,
    ensures
        r@ == trunc_mid_text(s@, max as nat),
{
    let cs = chars_of(s);
    if cs.len() <= max {
        return string_of(&cs);
    }
    let tail = max / 3;
    let head = max - tail - 3;
    let mut r = string_of_range(&cs, 0, head);
    push_text(&mut r, "...");
    let t = string_of_range(&cs, cs.len() - tail, cs.len());
    push_text(&mut r, t.as_str());
    assert(cs@.subrange(0, head as int) =~= cs@.take(head as int));
    assert(cs@.subrange(cs.len() - tail, cs.len() as int) =~= cs@.skip(cs.len() - tail));
    r
}

/// `path` with the home directory `home` at its start written as `~`.
pub open spec fn abbreviate_home_text(path: Seq<char>, home: Seq<char>) -> Seq<char> {
    if home.len() == 0 {
        path
    } else if starts_with(path, home) {
        seq!['~'] + path.skip(home.len() as int)
    } else {
        path
    }
}

/// Writes the home directory `home` at the start of `path` as `~`
/// (`home` is empty when it is not known).
pub fn abbreviate_home(path: &str, home: &str) -> (r: String)
    ensures
        r@ == abbreviate_home_text(path@, home@),
{
    let p = chars_of(path);
    let h = chars_of(home);
    if h.len() == 0 {
        return string_of(&p);
    }
    if has_prefix(&p, &h) {
        let mut r = owned("~");
        let rest = string_of_range(&p, h.len(), p.len());
        push_text(&mut r, rest.as_str());
        assert(p@.subrange(h.len() as int, p.len() as int) =~= p@.skip(h.len() as int));
        assert(r@ =~= seq!['~'] + p@.skip(h.len() as int)) by {
            reveal_strlit("~");
        }
        r
    } else {
        string_of(&p)
    }
}

/// `str::split` at character `c`: every piece, empty ones included.
pub open spec fn split_at_char(s: Seq<char>, c: char) -> Seq<Seq<char>>
    decreases s.len(),
{
    match find_char(s, c) {
        Some(i) => if i < s.len() {
            seq![s.take(i as int)] + split_at_char(s.skip((i + 1) as int), c)
        } else {
            seq![s]
        },
        None => seq![s],
    }
}

/// The last two `/`-separated parts of a path, after `~` abbreviation.
pub open spec fn short_path_text(p: Seq<char>, home: Seq<char>) -> Seq<char> {
    let a = abbreviate_home_text(p, home);
    let parts = split_at_char(a, '/');
    if parts.len() <= 2 {
        a
    } else {
        parts[parts.len() - 2] + seq!['/'] + parts[parts.len() - 1]
    }
}

pub proof fn lemma_split_len(s: Seq<char>, c: char)
    ensures
        split_at_char(s, c).len() >= 1,
    decreases s.len(),
{
    crate::text::lemma_find_char_bound(s, c);
    if let Some(i) = find_char(s, c) {
        lemma_split_len(s.skip((i + 1) as int), c);
    }
}

/// The pieces of `cs` between occurrences of `c` (`str::split`).
pub fn split_of(cs: &Vec<char>, c: char) -> (r: Vec<Vec<char>>)
    ensures
        crate::text::views(r@) == split_at_char(cs@, c),
{
    let mut r: Vec<Vec<char>> = Vec::new();
    let mut start: usize = 0;
    let mut cur: Vec<char> = Vec::new();
    let mut i: usize = 0;
    assert(cs@.skip(0) =~= cs@);
    while i < cs.len()
        invariant
            start <= i <= cs.len(),
            forall|k: int| start <= k < i ==> cs@[k] != c,
            cur@ == cs@.subrange(start as int, i as int),
            crate::text::views(r@) + split_at_char(cs@.skip(start as int), c) == split_at_char(cs@, c),
        decreases cs.len() - i,
    {
        if cs[i] == c {
            let ghost rest = cs@.skip(start as int);
            let ghost before = r@;
            proof {
                assert forall|k: int| 0 <= k < i - start implies rest[k] != c by {
                    assert(rest[k] == cs@[start + k]);
                }
                lemma_find_char(rest, c, i - start);
                assert(rest.take(i - start) =~= cs@.subrange(start as int, i as int));
                assert(rest.skip(i - start + 1) =~= cs@.skip(i + 1));
            }
            r.push(cur);
            cur = Vec::new();
            proof {
                assert(crate::text::views(r@) =~= crate::text::views(before).push(
                    cs@.subrange(start as int, i as int),
                ));
            }
            start = i + 1;
        } else {
            cur.push(cs[i]);
        }
        i = i + 1;
    }
    let ghost rest = cs@.skip(start as int);
    let ghost before = r@;
    proof {
        assert forall|k: int| 0 <= k < rest.len() implies rest[k] != c by {
            assert(rest[k] == cs@[start + k]);
        }
        lemma_find_char(rest, c, rest.len() as int);
        assert(cur@ =~= rest);
    }
    r.push(cur);
    assert(crate::text::views(r@) =~= crate::text::views(before).push(rest));
    r
}

/// The last two parts of a path, or the path when it has fewer parts.
pub fn short_path(p: &str, home: &str) -> (r: String)
    ensures
        r@ == short_path_text(p@, home@),
{
    let abbrev = abbreviate_home(p, home);
    let cs = chars_of(abbrev.as_str());
    let parts = split_of(&cs, '/');
    let n = parts.len();
    if n <= 2 {
        abbrev
    } else {
        let mut r = string_of(&parts[n - 2]);
        push_text(&mut r, "/");
        push_seq(&mut r, &parts[n - 1]);
        assert(r@ =~= parts@[n - 2]@ + seq!['/'] + parts@[n - 1]@) by {
            reveal_strlit("/");
        }
        r
    }
}


// ── tool calls ──────────────────────────────────────────────────────────────

/// `v.get(a).or_else(|| v.get(b))`.
pub open spec fn either_member(v: JsonV, a: Seq<char>, b: Seq<char>) -> Option<JsonV> {
    match v.get(a) {
        Some(x) => Some(x),
        None => v.get(b),
    }
}

/// `.and_then(|v| v.as_str())`.
pub open spec fn text_of(o: Option<JsonV>) -> Option<Seq<char>> {
    match o {
        Some(x) => x.as_str(),
        None => None,
    }
}

pub open spec fn or_text(o: Option<Seq<char>>, d: Seq<char>) -> Seq<char> {
    match o {
        Some(s) => s,
        None => d,
    }
}

/// The file a tool call works on.
pub open spec fn file_of(input: JsonV) -> Option<Seq<char>> {
    text_of(either_member(input, "file_path"@, "path"@))
}

/// Number of lines of a member that is a string (0 otherwise).
pub open spec fn line_count_of(o: Option<JsonV>) -> nat {
    match text_of(o) {
        Some(s) => lines(s).len(),
        None => 0,
    }
}

/// `split_whitespace().collect::<Vec<_>>().join(" ")`, read from the front:
/// `started` tells whether a word was written, `pending` whether a gap
/// follows it.
pub open spec fn squeeze_from(s: Seq<char>, started: bool, pending: bool) -> Seq<char>
    decreases s.len(),
{
    if s.len() == 0 {
        seq![]
    } else if is_ws(s[0]) {
        squeeze_from(s.drop_first(), started, started)
    } else {
        (if pending {
            seq![' ', s[0]]
        } else {
            seq![s[0]]
        }) + squeeze_from(s.drop_first(), true, false)
    }
}

/// The words of `s`, separated by single spaces.
pub open spec fn collapse_ws(s: Seq<char>) -> Seq<char> {
    squeeze_from(s, false, false)
}

/// The words of `s`, separated by single spaces.
pub fn collapse_whitespace(s: &str) -> (r: String)
    ensures
        r@ == collapse_ws(s@),
{
    let cs = chars_of(s);
    let mut r = String::new();
    let mut started = false;
    let mut pending = false;
    let mut i: usize = 0;
    assert(cs@.skip(0) =~= cs@);
    while i < cs.len()
        invariant
            i <= cs.len(),
            r@ + squeeze_from(cs@.skip(i as int), started, pending) == collapse_ws(s@),
            cs@ == s@,
        decreases cs.len() - i,
    {
        let c = cs[i];
        let ghost rest = cs@.skip(i as int);
        assert(rest[0] == c);
        assert(rest.drop_first() =~= cs@.skip(i + 1));
        let ghost before = r@;
        if is_whitespace(c) {
            pending = started;
        } else {
            let was_pending = pending;
            if pending {
                push_char(&mut r, ' ');
            }
            push_char(&mut r, c);
            started = true;
            pending = false;
            assert(r@ =~= before + (if was_pending {
                seq![' ', c]
            } else {
                seq![c]
            }));
        }
        i = i + 1;
    }
    assert(cs@.skip(i as int) =~= Seq::<char>::empty());
    assert(r@ + Seq::<char>::empty() =~= r@);
    r
}


/// Number of lines of a member that is a string (0 otherwise).
fn line_count(v: Option<&Json>) -> (r: usize)
    ensures
        r == line_count_of(match v {
            Some(j) => Some(j@),
            None => None,
        }),
{
    match v {
        Some(j) => match j.as_str() {
            Some(s) => {
                let cs = chars_of(s.as_str());
                let ls = lines_of(&cs);
                assert(views(ls@).len() == ls@.len());
                ls.len()
            },
            None => 0,
        },
        None => 0,
    }
}

fn either<'a>(input: &'a Json, a: &str, b: &str) -> (r: Option<&'a Json>)
    ensures
        r matches Some(j) ==> either_member(input@, a@, b@) == Some(j@),
        r is None ==> either_member(input@, a@, b@) is None,
{
    match input.get(a) {
        Some(x) => Some(x),
        None => input.get(b),
    }
}

fn text_in(o: Option<&Json>) -> (r: Option<&String>)
    ensures
        r matches Some(s) ==> text_of(match o {
            Some(j) => Some(j@),
            None => None,
        }) == Some(s@),
        r is None ==> text_of(match o {
            Some(j) => Some(j@),
            None => None,
        }) is None,
{
    match o {
        Some(j) => j.as_str(),
        None => None,
    }
}

/// How a tool call is shown in a session's timeline.
pub struct ToolDetail {
    pub summary: String,
    pub diff_removed: Option<usize>,
    pub diff_added: Option<usize>,
    pub color: Tint,
}

/// The summary of a tool call.
pub open spec fn tool_detail_summary(name: Seq<char>, input: JsonV, home: Seq<char>) -> Seq<char> {
    let file = file_of(input);
    let command = input.str_at("command"@);
    let by_file = match file {
        Some(f) => short_path_text(f, home),
        None => "—"@,
    };
    if name == "Read"@ || name == "Write"@ || name == "Edit"@ || name == "MultiEdit"@ {
        by_file
    } else if name == "Bash"@ {
        trunc_mid_text(collapse_ws(or_text(command, Seq::empty())), 52)
    } else if name == "Grep"@ {
        let pattern = or_text(input.str_at("pattern"@), Seq::empty());
        match file {
            Some(f) => "/"@ + pattern + "/ in "@ + short_path_text(f, home),
            None => "/"@ + pattern + "/"@,
        }
    } else if name == "Glob"@ {
        or_text(input.str_at("pattern"@), Seq::empty())
    } else if name == "Agent"@ {
        trunc_mid_text(or_text(text_of(either_member(input, "description"@, "prompt"@)), "agent"@), 52)
    } else if name == "WebFetch"@ || name == "WebSearch"@ {
        trunc_mid_text(or_text(text_of(either_member(input, "url"@, "query"@)), Seq::empty()), 52)
    } else {
        let hint = match file {
            Some(f) => Some(abbreviate_home_text(f, home)),
            None => match command {
                Some(c) => Some(c),
                None => text_of(input.first_value()),
            },
        };
        match hint {
            Some(h) => trunc_mid_text(abbreviate_home_text(h, home), 52),
            None => "—"@,
        }
    }
}

/// Lines a tool call removes, for the tools that edit files.
pub open spec fn tool_detail_removed(name: Seq<char>, input: JsonV) -> Option<nat> {
    if name == "Read"@ {
        None
    } else if name == "Write"@ {
        Some(0)
    } else if name == "Edit"@ || name == "MultiEdit"@ {
        Some(line_count_of(input.get("old_string"@)))
    } else {
        None
    }
}

/// Lines a tool call adds, for the tools that edit files.
pub open spec fn tool_detail_added(name: Seq<char>, input: JsonV) -> Option<nat> {
    if name == "Read"@ {
        None
    } else if name == "Write"@ {
        Some(line_count_of(input.get("content"@)))
    } else if name == "Edit"@ || name == "MultiEdit"@ {
        Some(line_count_of(input.get("new_string"@)))
    } else {
        None
    }
}

/// The text lines of a string member of a tool's input; none when the
/// member is missing or not a string.
pub open spec fn member_lines(input: JsonV, key: Seq<char>) -> nat {
    match input.get(key) {
        Some(JsonV::Str(t)) => lines(t).len(),
        _ => 0,
    }
}

/// A `Write` call removes no line and adds one per line of the content it
/// writes; an `Edit` or `MultiEdit` call removes the lines of its old text
/// and adds the lines of its new text; a `Read` call changes no line, and
/// neither does a tool that edits no file.
pub proof fn line_changes_of_tool_calls(input: JsonV, other: Seq<char>)
    requires
        other != "Write"@,
        other != "Edit"@,
        other != "MultiEdit"@,
    ensures
        tool_detail_removed("Write"@, input) == Some(0nat),
        tool_detail_added("Write"@, input) == Some(member_lines(input, "content"@)),
        tool_detail_removed("Edit"@, input) == Some(member_lines(input, "old_string"@)),
        tool_detail_added("Edit"@, input) == Some(member_lines(input, "new_string"@)),
        tool_detail_removed("MultiEdit"@, input) == Some(member_lines(input, "old_string"@)),
        tool_detail_added("MultiEdit"@, input) == Some(member_lines(input, "new_string"@)),
        tool_detail_removed(other, input) is None,
        tool_detail_added(other, input) is None,
{
    reveal_strlit("Read");
    reveal_strlit("Write");
    reveal_strlit("Edit");
    reveal_strlit("MultiEdit");
    assert("Read"@.len() == 4 && "Write"@.len() == 5 && "Edit"@.len() == 4
        && "MultiEdit"@.len() == 9);
    assert("Edit"@[0] != "Read"@[0]);
    assert("Write"@ != "Read"@);
    assert("MultiEdit"@ != "Read"@);
    assert("Edit"@ != "Read"@);
    assert("Edit"@ != "Write"@);
    assert("MultiEdit"@ != "Write"@);
}

pub open spec fn tool_detail_color(name: Seq<char>) -> Tint {
    if name == "Read"@ {
        Tint::Cyan
    } else if name == "Write"@ {
        Tint::Green
    } else if name == "Edit"@ || name == "MultiEdit"@ {
        Tint::Yellow
    } else if name == "Bash"@ {
        Tint::Magenta
    } else if name == "Grep"@ || name == "Glob"@ {
        Tint::Blue
    } else if name == "Agent"@ {
        Tint::Magenta
    } else if name == "WebFetch"@ || name == "WebSearch"@ {
        Tint::Cyan
    } else {
        Tint::White
    }
}

pub open spec fn onat(o: Option<usize>) -> Option<nat> {
    match o {
        Some(n) => Some(n as nat),
        None => None,
    }
}

fn text_or(o: Option<&String>, d: &str) -> (r: String)
    ensures
        r@ == or_text(match o {
            Some(s) => Some(s@),
            None => None,
        }, d@),
{
    match o {
        Some(s) => s.clone(),
        None => owned(d),
    }
}

/// How a tool call is shown: a summary, the lines it removes and adds, and
/// a colour (`home` is the home directory, empty when unknown).
pub fn format_tool_input(tool_name: &str, tool_input: &Json, home: &str) -> (r: ToolDetail)
    ensures
        r.summary@ == tool_detail_summary(tool_name@, tool_input@, home@),
        onat(r.diff_removed) == tool_detail_removed(tool_name@, tool_input@),
        onat(r.diff_added) == tool_detail_added(tool_name@, tool_input@),
        r.color == tool_detail_color(tool_name@),
{
    let file = text_in(either(tool_input, "file_path", "path"));
    let command = text_in(tool_input.get("command"));
    let by_file = match file {
        Some(f) => short_path(f.as_str(), home),
        None => owned("—"),
    };
    if str_eq(tool_name, "Read") {
        ToolDetail { summary: by_file, diff_removed: None, diff_added: None, color: Tint::Cyan }
    } else if str_eq(tool_name, "Write") {
        let added = line_count(tool_input.get("content"));
        ToolDetail {
            summary: by_file,
            diff_removed: Some(0),
            diff_added: Some(added),
            color: Tint::Green,
        }
    } else if str_eq(tool_name, "Edit") || str_eq(tool_name, "MultiEdit") {
        let removed = line_count(tool_input.get("old_string"));
        let added = line_count(tool_input.get("new_string"));
        ToolDetail {
            summary: by_file,
            diff_removed: Some(removed),
            diff_added: Some(added),
            color: Tint::Yellow,
        }
    } else if str_eq(tool_name, "Bash") {
        let cmd = text_or(command, "");
        let words = collapse_whitespace(cmd.as_str());
        proof {
            reveal_strlit("");
        }
        ToolDetail {
            summary: trunc_mid(words.as_str(), 52),
            diff_removed: None,
            diff_added: None,
            color: Tint::Magenta,
        }
    } else if str_eq(tool_name, "Grep") {
        let pattern = text_or(text_in(tool_input.get("pattern")), "");
        proof {
            reveal_strlit("");
        }
        let mut summary = owned("/");
        push_text(&mut summary, pattern.as_str());
        match file {
            Some(f) => {
                push_text(&mut summary, "/ in ");
                let sp = short_path(f.as_str(), home);
                push_text(&mut summary, sp.as_str());
            },
            None => {
                push_text(&mut summary, "/");
            },
        }
        ToolDetail { summary, diff_removed: None, diff_added: None, color: Tint::Blue }
    } else if str_eq(tool_name, "Glob") {
        let pattern = text_or(text_in(tool_input.get("pattern")), "");
        proof {
            reveal_strlit("");
        }
        ToolDetail { summary: pattern, diff_removed: None, diff_added: None, color: Tint::Blue }
    } else if str_eq(tool_name, "Agent") {
        let d = text_or(text_in(either(tool_input, "description", "prompt")), "agent");
        ToolDetail {
            summary: trunc_mid(d.as_str(), 52),
            diff_removed: None,
            diff_added: None,
            color: Tint::Magenta,
        }
    } else if str_eq(tool_name, "WebFetch") || str_eq(tool_name, "WebSearch") {
        let d = text_or(text_in(either(tool_input, "url", "query")), "");
        proof {
            reveal_strlit("");
        }
        ToolDetail {
            summary: trunc_mid(d.as_str(), 52),
            diff_removed: None,
            diff_added: None,
            color: Tint::Cyan,
        }
    } else {
        let hint: Option<String> = match file {
            Some(f) => Some(abbreviate_home(f.as_str(), home)),
            None => match command {
                Some(c) => Some(c.clone()),
                None => match text_in(tool_input.first_value()) {
                    Some(v) => Some(v.clone()),
                    None => None,
                },
            },
        };
        let summary = match hint {
            Some(h) => {
                let a = abbreviate_home(h.as_str(), home);
                trunc_mid(a.as_str(), 52)
            },
            None => owned("—"),
        };
        ToolDetail { summary, diff_removed: None, diff_added: None, color: Tint::White }
    }
}

/// `"{name}: {hint}"` for the first of file, command, pattern, description,
/// query or url that the input names, shortened; the bare name otherwise.
pub open spec fn tool_summary_text(name: Seq<char>, input: JsonV, home: Seq<char>) -> Seq<char> {
    let file = match input.get("file_path"@) {
        Some(x) => Some(x),
        None => either_member(input, "path"@, "filePath"@),
    };
    let hint = match text_of(file) {
        Some(h) => Some(h),
        None => match input.str_at("command"@) {
            Some(h) => Some(h),
            None => match input.str_at("pattern"@) {
                Some(h) => Some(h),
                None => match input.str_at("description"@) {
                    Some(h) => Some(h),
                    None => match input.str_at("query"@) {
                        Some(h) => Some(h),
                        None => input.str_at("url"@),
                    },
                },
            },
        },
    };
    match hint {
        None => name,
        Some(h) => name + ": "@ + trunc_mid_text(abbreviate_home_text(h, home), 48),
    }
}

pub fn tool_summary(tool_name: &str, tool_input: &Json, home: &str) -> (r: String)
    ensures
        r@ == tool_summary_text(tool_name@, tool_input@, home@),
{
    let file = match tool_input.get("file_path") {
        Some(x) => Some(x),
        None => either(tool_input, "path", "filePath"),
    };
    let hint = match text_in(file) {
        Some(h) => Some(h),
        None => match tool_input.str_at("command") {
            Some(h) => Some(h),
            None => match tool_input.str_at("pattern") {
                Some(h) => Some(h),
                None => match tool_input.str_at("description") {
                    Some(h) => Some(h),
                    None => match tool_input.str_at("query") {
                        Some(h) => Some(h),
                        None => tool_input.str_at("url"),
                    },
                },
            },
        },
    };
    match hint {
        None => owned(tool_name),
        Some(h) => {
            let mut r = owned(tool_name);
            push_text(&mut r, ": ");
            let a = abbreviate_home(h.as_str(), home);
            let t = trunc_mid(a.as_str(), 48);
            push_text(&mut r, t.as_str());
            r
        },
    }
}


// ── wrapping ────────────────────────────────────────────────────────────────

pub open spec fn string_views(v: Seq<String>) -> Seq<Seq<char>> {
    v.map_values(|s: String| s@)
}

/// Index of the last space among the first `w` characters of `r`.
pub open spec fn last_space_before(r: Seq<char>, w: nat) -> Option<nat>
    decreases w,
{
    if w == 0 {
        None
    } else if w - 1 < r.len() && r[w - 1] == ' ' {
        Some((w - 1) as nat)
    } else {
        last_space_before(r, (w - 1) as nat)
    }
}

/// Where a line longer than `w` is cut: at its last space within the first
/// `w` characters, or after `w` characters when there is none.
pub open spec fn cut_point(r: Seq<char>, w: nat) -> nat {
    match last_space_before(r, w) {
        Some(i) => i,
        None => w,
    }
}

pub proof fn lemma_last_space(r: Seq<char>, w: nat)
    ensures
        last_space_before(r, w) matches Some(i) ==> i < w && i < r.len() && r[i as int] == ' ',
    decreases w,
{
    if w > 0 {
        lemma_last_space(r, (w - 1) as nat);
    }
}

pub proof fn lemma_cut_progress(r: Seq<char>, w: nat)
    requires
        w > 0,
        r.len() > w,
    ensures
        trim_start(r.skip(cut_point(r, w) as int)).len() < r.len(),
        cut_point(r, w) <= w,
{
    lemma_last_space(r, w);
    let c = cut_point(r, w);
    let t = r.skip(c as int);
    crate::text::lemma_lead_ws_bound(t);
    if c == 0 {
        assert(t[0] == ' ');
        assert(is_ws(t[0]));
        assert(lead_ws(t) >= 1);
    }
}

/// The pieces a line longer than `w` is wrapped into.
pub open spec fn wrap_line(r: Seq<char>, w: nat) -> Seq<Seq<char>>
    decreases r.len(),
{
    if w == 0 || r.len() <= w {
        if r.len() == 0 {
            seq![]
        } else {
            seq![r]
        }
    } else {
        let c = cut_point(r, w);
        proof {
            lemma_cut_progress(r, w);
        }
        seq![r.take(c as int)] + wrap_line(trim_start(r.skip(c as int)), w)
    }
}

/// One line of the text, wrapped: kept whole (even empty) when it fits.
pub open spec fn wrap_one(l: Seq<char>, w: nat) -> Seq<Seq<char>> {
    if l.len() <= w {
        seq![l]
    } else {
        wrap_line(l, w)
    }
}

pub open spec fn wrap_all(ls: Seq<Seq<char>>, w: nat) -> Seq<Seq<char>>
    decreases ls.len(),
{
    if ls.len() == 0 {
        seq![]
    } else {
        wrap_all(ls.drop_last(), w) + wrap_one(ls.last(), w)
    }
}

/// The lines of `text`, each broken at spaces into pieces of at most `w`
/// characters (a word longer than `w` is cut); the text itself when `w == 0`.
pub open spec fn wrap_text_spec(text: Seq<char>, w: nat) -> Seq<Seq<char>> {
    if w == 0 {
        seq![text]
    } else {
        wrap_all(lines(text), w)
    }
}

fn cut_at(line: &Vec<char>, start: usize, width: usize) -> (c: usize)
    requires
        start <= line.len(),
        line.len() - start > width,
        width > 0,
    ensures
        c == cut_point(line@.skip(start as int), width as nat),
        c <= width,
{
    let ghost r = line@.skip(start as int);
    let mut k = width;
    while k > 0 && line[start + k - 1] != ' '
        invariant
            k <= width,
            start + width < line.len(),
            r == line@.skip(start as int),
            last_space_before(r, width as nat) == last_space_before(r, k as nat),
        decreases k,
    {
        assert(r[k - 1] == line@[start + k - 1]);
        k = k - 1;
    }
    if k == 0 {
        width
    } else {
        assert(r[k - 1] == line@[start + k - 1]);
        k - 1
    }
}

/// Wraps `text` to `width` characters per line, breaking at spaces.
pub fn wrap_text(text: &str, width: usize) -> (r: Vec<String>)
    ensures
        string_views(r@) == wrap_text_spec(text@, width as nat),
{
    if width == 0 {
        let mut r: Vec<String> = Vec::new();
        r.push(owned(text));
        assert(string_views(r@) =~= seq![text@]);
        return r;
    }
    let cs = chars_of(text);
    let ls = lines_of(&cs);
    let ghost lv = views(ls@);
    let mut result: Vec<String> = Vec::new();
    let mut li: usize = 0;
    assert(lv.take(0) =~= Seq::<Seq<char>>::empty());
    while li < ls.len()
        invariant
            lv == views(ls@),
            lv == lines(text@),
            width > 0,
            li <= ls.len(),
            string_views(result@) == wrap_all(lv.take(li as int), width as nat),
        decreases ls.len() - li,
    {
        let line = &ls[li];
        let ghost base = string_views(result@);
        assert(lv[li as int] == line@);
        if line.len() <= width {
            let s = string_of(line);
            result.push(s);
            assert(string_views(result@) =~= base + seq![line@]);
        } else {
            let mut start: usize = 0;
            let ghost mut emitted: Seq<Seq<char>> = Seq::empty();
            assert(line@.skip(0) =~= line@);
            while line.len() - start > width
                invariant
                    start <= line.len(),
                    width > 0,
                    string_views(result@) == base + emitted,
                    wrap_line(line@, width as nat) == emitted + wrap_line(
                        line@.skip(start as int),
                        width as nat,
                    ),
                decreases line.len() - start,
            {
                let ghost rem = line@.skip(start as int);
                let c = cut_at(line, start, width);
                let piece = string_of_range(line, start, start + c);
                let ghost before = string_views(result@);
                result.push(piece);
                let next = skip_ws_from(line, start + c);
                proof {
                    assert(piece@ =~= rem.take(c as int));
                    let t = rem.skip(c as int);
                    assert(t =~= line@.skip(start + c));
                    assert forall|k: int| 0 <= k < next - (start + c) implies is_ws(t[k]) by {
                        assert(t[k] == line@[start + c + k]);
                    }
                    if next < line.len() {
                        assert(t[next - (start + c)] == line@[next as int]);
                    }
                    lemma_lead_ws(t, next - (start + c));
                    assert(trim_start(t) =~= line@.skip(next as int));
                    assert(wrap_line(rem, width as nat) == seq![rem.take(c as int)] + wrap_line(
                        line@.skip(next as int),
                        width as nat,
                    ));
                    assert(string_views(result@) =~= before.push(piece@));
                    emitted = emitted.push(rem.take(c as int));
                    assert(string_views(result@) =~= base + emitted);
                    assert(wrap_line(line@, width as nat) =~= emitted + wrap_line(
                        line@.skip(next as int),
                        width as nat,
                    ));
                }
                start = next;
            }
            let ghost rem = line@.skip(start as int);
            if start < line.len() {
                let piece = string_of_range(line, start, line.len());
                let ghost before = string_views(result@);
                result.push(piece);
                assert(piece@ =~= rem);
                assert(string_views(result@) =~= before.push(piece@));
                assert(wrap_line(rem, width as nat) == seq![rem]);
                assert(string_views(result@) =~= base + wrap_line(line@, width as nat));
            } else {
                assert(rem =~= Seq::<char>::empty());
                assert(emitted + Seq::<Seq<char>>::empty() =~= emitted);
            }
        }
        proof {
            assert(lv.take(li + 1).drop_last() =~= lv.take(li as int));
            assert(lv.take(li + 1).last() == line@);
        }
        li = li + 1;
    }
    assert(lv.take(li as int) =~= lv);
    result
}

// ── model names ─────────────────────────────────────────────────────────────

/// Characters of a trailing date suffix such as `-20240229`.
pub open spec fn is_date_char(c: char) -> bool {
    ('0' <= c && c <= '9') || c == '-'
}

/// `s` without its longest suffix of characters satisfying `is_date_char`
/// (`trim_end_matches` with that predicate).
pub open spec fn strip_date_tail(s: Seq<char>) -> Seq<char>
    decreases s.len(),
{
    if s.len() > 0 && is_date_char(s.last()) {
        strip_date_tail(s.drop_last())
    } else {
        s
    }
}

/// `s` without its trailing `-` characters (`trim_end_matches('-')`).
pub open spec fn strip_dashes(s: Seq<char>) -> Seq<char>
    decreases s.len(),
{
    if s.len() > 0 && s.last() == '-' {
        strip_dashes(s.drop_last())
    } else {
        s
    }
}

fn cut_char(c: char, dashes_only: bool) -> (r: bool)
    ensures
        r == if dashes_only {
            c == '-'
        } else {
            is_date_char(c)
        },
{
    if dashes_only {
        c == '-'
    } else {
        ('0' <= c && c <= '9') || c == '-'
    }
}

/// Index just past the last character of `cs[..end]` that is kept when
/// trailing characters are cut while `dashes_only` (only `-`) or
/// `is_date_char` (digits and `-`) holds of them.
fn kept_len(cs: &Vec<char>, end: usize, dashes_only: bool) -> (r: usize)
    requires
        end <= cs.len(),
    ensures
        r <= end,
        dashes_only ==> cs@.subrange(0, r as int) == strip_dashes(cs@.subrange(0, end as int)),
        !dashes_only ==> cs@.subrange(0, r as int) == strip_date_tail(
            cs@.subrange(0, end as int),
        ),
{
    let mut n = end;
    while n > 0 && cut_char(cs[n - 1], dashes_only)
        invariant
            n <= end <= cs.len(),
            dashes_only ==> strip_dashes(cs@.subrange(0, n as int)) == strip_dashes(
                cs@.subrange(0, end as int),
            ),
            !dashes_only ==> strip_date_tail(cs@.subrange(0, n as int)) == strip_date_tail(
                cs@.subrange(0, end as int),
            ),
        decreases n,
    {
        assert(cs@.subrange(0, n as int).drop_last() == cs@.subrange(0, n - 1));
        n = n - 1;
    }
    n
}

/// A model name without its trailing date: every trailing digit and dash
/// goes, so `opus-4-20250514` gives `opus`.
pub fn truncate_model_date(name: &str) -> (r: String)
    ensures
        r@ == strip_dashes(strip_date_tail(name@)),
{
    let cs = chars_of(name);
    let a = kept_len(&cs, cs.len(), false);
    let b = kept_len(&cs, a, true);
    assert(cs@.subrange(0, cs.len() as int) == cs@);
    string_of_range(&cs, 0, b)
}

} // verus!
