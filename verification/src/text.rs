//! Character-level string model: every string is taken by its view, a
//! sequence of `char`s, and the helpers here build, split, trim and
//! compare such sequences with contracts over that view.
use vstd::prelude::*;
use vstd::string::StringSliceAdditionalSpecFns;

verus! {

/// The first `n` bytes of `s`, or all of it when it is shorter
/// (`&s[..n.min(s.len())]`); cutting there must fall between characters.
pub fn byte_prefix(s: &str, n: usize) -> (r: String)
    requires
        s.spec_bytes().len() > n ==> vstd::utf8::is_char_boundary(s.spec_bytes(), n as int),
    ensures
        vstd::utf8::encode_utf8(r@) == s.spec_bytes().take(
            if s.spec_bytes().len() > n {
                n as int
            } else {
                s.spec_bytes().len() as int
            },
        ),
{
    let bytes = s.as_bytes();
    if bytes.len() > n {
        let (head, _) = s.split_at(n);
        owned(head)
    } else {
        assert(s.spec_bytes().take(s.spec_bytes().len() as int) =~= s.spec_bytes());
        owned(s)
    }
}

/// Appends one character (`String::push`).
#[verifier::external_body]
pub(crate) fn push_char(s: &mut String, c: char)
    ensures
        final(s)@ == old(s)@.push(c),
{
    s.push(c);
}

/// The characters of `s`, in order.
pub fn chars_of(s: &str) -> (r: Vec<char>)
    ensures
        r@ == s@,
{
    let mut r: Vec<char> = Vec::new();
    for c in it: s.chars()
        invariant
            r@ == it.seq().take(it.index() as int),
            it.seq() == s@,
    {
        r.push(c);
    }
    r
}

/// The string made of `cs[lo..hi]`.
pub fn string_of_range(cs: &Vec<char>, lo: usize, hi: usize) -> (r: String)
    requires
        lo <= hi <= cs.len(),
    ensures
        r@ == cs@.subrange(lo as int, hi as int),
{
    let mut r = String::new();
    let mut i = lo;
    while i < hi
        invariant
            lo <= i <= hi <= cs.len(),
            r@ == cs@.subrange(lo as int, i as int),
        decreases hi - i,
    {
        push_char(&mut r, cs[i]);
        i = i + 1;
    }
    r
}

/// The string made of all of `cs`.
pub fn string_of(cs: &Vec<char>) -> (r: String)
    ensures
        r@ == cs@,
{
    let r = string_of_range(cs, 0, cs.len());
    assert(cs@.subrange(0, cs@.len() as int) == cs@);
    r
}

/// Appends the characters of `t` to `s`.
pub fn push_seq(s: &mut String, t: &Vec<char>)
    ensures
        final(s)@ == old(s)@ + t@,
{
    let mut i: usize = 0;
    while i < t.len()
        invariant
            i <= t.len(),
            s@ == old(s)@ + t@.take(i as int),
        decreases t.len() - i,
    {
        push_char(s, t[i]);
        assert(t@.take((i + 1) as int) == t@.take(i as int).push(t@[i as int]));
        i = i + 1;
    }
    assert(t@.take(t@.len() as int) == t@);
}

/// Appends a string slice (`String::push_str`).
pub fn push_text(s: &mut String, t: &str)
    ensures
        final(s)@ == old(s)@ + t@,
{
    let cs = chars_of(t);
    push_seq(s, &cs);
}

/// A fresh string equal to `t`.
pub fn owned(t: &str) -> (r: String)
    ensures
        r@ == t@,
{
    let mut r = String::new();
    push_text(&mut r, t);
    assert(r@ == Seq::<char>::empty() + t@);
    r
}

/// Whether two character sequences are equal.
pub fn seq_eq(a: &Vec<char>, b: &Vec<char>) -> (r: bool)
    ensures
        r == (a@ == b@),
{
    if a.len() != b.len() {
        return false;
    }
    let mut i: usize = 0;
    while i < a.len()
        invariant
            a.len() == b.len(),
            i <= a.len(),
            forall|k: int| 0 <= k < i ==> a@[k] == b@[k],
        decreases a.len() - i,
    {
        if a[i] != b[i] {
            return false;
        }
        i = i + 1;
    }
    assert(a@ =~= b@);
    true
}

/// Whether two strings are equal.
pub fn str_eq(a: &str, b: &str) -> (r: bool)
    ensures
        r == (a@ == b@),
{
    let x = chars_of(a);
    let y = chars_of(b);
    seq_eq(&x, &y)
}

pub open spec fn starts_with(s: Seq<char>, p: Seq<char>) -> bool {
    p.len() <= s.len() && s.take(p.len() as int) == p
}

pub open spec fn ends_with(s: Seq<char>, p: Seq<char>) -> bool {
    p.len() <= s.len() && s.skip(s.len() - p.len()) == p
}

/// Whether `s` begins with `p`.
pub fn has_prefix(s: &Vec<char>, p: &Vec<char>) -> (r: bool)
    ensures
        r == starts_with(s@, p@),
{
    if p.len() > s.len() {
        return false;
    }
    let mut i: usize = 0;
    while i < p.len()
        invariant
            p.len() <= s.len(),
            i <= p.len(),
            forall|k: int| 0 <= k < i ==> s@[k] == p@[k],
        decreases p.len() - i,
    {
        if s[i] != p[i] {
            assert(s@.take(p@.len() as int)[i as int] != p@[i as int]);
            return false;
        }
        i = i + 1;
    }
    assert(s@.take(p@.len() as int) =~= p@);
    true
}

// ── decimal text ────────────────────────────────────────────────────────────

pub open spec fn digit(d: nat) -> char
    recommends
        d < 10,
{
    (d + 48) as char
}

/// Decimal digits of a natural number, most significant first.
pub open spec fn dec(n: nat) -> Seq<char>
    decreases n,
{
    if n < 10 {
        seq![digit(n)]
    } else {
        dec(n / 10).push(digit(n % 10))
    }
}

/// Decimal text of an integer, with a leading `-` when negative.
pub open spec fn int_text(i: int) -> Seq<char> {
    if i < 0 {
        seq!['-'] + dec((-i) as nat)
    } else {
        dec(i as nat)
    }
}

fn digit_char(d: u64) -> (c: char)
    requires
        d < 10,
    ensures
        c == digit(d as nat),
{
    let b: u8 = d as u8;
    let c = (b + 48u8) as char;
    c
}

/// Appends the decimal text of `n` (`{}` formatting of an unsigned integer).
pub fn push_u64(s: &mut String, n: u64)
    ensures
        final(s)@ == old(s)@ + dec(n as nat),
    decreases n,
{
    if n < 10 {
        push_char(s, digit_char(n));
        assert(dec(n as nat) == seq![digit(n as nat)]);
    } else {
        push_u64(s, n / 10);
        push_char(s, digit_char(n % 10));
        assert(dec(n as nat) == dec((n / 10) as nat).push(digit((n % 10) as nat)));
    }
}

/// Appends the decimal text of `n` (`{}` formatting of a signed integer).
pub fn push_i64(s: &mut String, n: i64)
    ensures
        final(s)@ == old(s)@ + int_text(n as int),
{
    if n < 0 {
        push_char(s, '-');
        let m: u64 = if n == i64::MIN {
            9223372036854775808u64
        } else {
            (-n) as u64
        };
        push_u64(s, m);
        assert(old(s)@.push('-') + dec(m as nat) == old(s)@ + (seq!['-'] + dec(m as nat)));
    } else {
        push_u64(s, n as u64);
    }
}

/// Decimal text of an unsigned integer.
pub fn u64_text(n: u64) -> (r: String)
    ensures
        r@ == dec(n as nat),
{
    let mut r = String::new();
    push_u64(&mut r, n);
    assert(Seq::<char>::empty() + dec(n as nat) == dec(n as nat));
    r
}

/// Decimal text of a signed integer (`i64::to_string`).
pub fn i64_text(n: i64) -> (r: String)
    ensures
        r@ == int_text(n as int),
{
    let mut r = String::new();
    push_i64(&mut r, n);
    assert(Seq::<char>::empty() + int_text(n as int) == int_text(n as int));
    r
}

/// `n` zero characters (none when `n <= 0`).
pub open spec fn zeros(n: int) -> Seq<char> {
    Seq::new(if n > 0 {
        n as nat
    } else {
        0
    }, |k: int| '0')
}

/// Magnitude of an integer.
pub open spec fn abs(i: int) -> nat {
    if i < 0 {
        (-i) as nat
    } else {
        i as nat
    }
}

/// `{:0w}` formatting of an integer: the sign, then zeros, then the digits,
/// so that the whole is at least `w` characters long.
pub open spec fn padded(i: int, w: nat) -> Seq<char> {
    let sign: Seq<char> = if i < 0 {
        seq!['-']
    } else {
        Seq::empty()
    };
    let ds = dec(abs(i));
    sign + zeros(w - sign.len() - ds.len()) + ds
}

/// Appends `n` formatted as `{:0width}`.
pub fn push_padded(s: &mut String, n: i64, width: usize)
    ensures
        final(s)@ == old(s)@ + padded(n as int, width as nat),
{
    let mag: u64 = if n == i64::MIN {
        9223372036854775808u64
    } else if n < 0 {
        (-n) as u64
    } else {
        n as u64
    };
    assert(mag as nat == abs(n as int));
    let text = u64_text(mag);
    let ds = chars_of(text.as_str());
    let ghost sign: Seq<char> = if n < 0 {
        seq!['-']
    } else {
        Seq::empty()
    };
    let sign_len: usize = if n < 0 {
        1
    } else {
        0
    };
    if n < 0 {
        push_char(s, '-');
    }
    assert(s@ == old(s)@ + sign);
    let need: usize = if width > ds.len() {
        let rest = width - ds.len();
        if rest > sign_len {
            rest - sign_len
        } else {
            0
        }
    } else {
        0
    };
    assert(zeros(need as int) =~= zeros(width - sign.len() - ds.len()));
    let ghost base = s@;
    let mut k: usize = 0;
    while k < need
        invariant
            k <= need,
            s@ == base + zeros(k as int),
        decreases need - k,
    {
        push_char(s, '0');
        assert(zeros(k + 1) =~= zeros(k as int).push('0'));
        k = k + 1;
    }
    push_seq(s, &ds);
    assert(s@ =~= old(s)@ + padded(n as int, width as nat));
}


// ── whitespace and trimming ─────────────────────────────────────────────────

/// Unicode `White_Space`, as `char::is_whitespace` tests it.
pub open spec fn is_ws(c: char) -> bool {
    let u = c as u32;
    (9 <= u <= 13) || u == 32 || u == 0x85 || u == 0xA0 || u == 0x1680 || (0x2000 <= u <= 0x200A)
        || u == 0x2028 || u == 0x2029 || u == 0x202F || u == 0x205F || u == 0x3000
}

pub fn is_whitespace(c: char) -> (r: bool)
    ensures
        r == is_ws(c),
{
    let u = c as u32;
    (9 <= u && u <= 13) || u == 32 || u == 0x85 || u == 0xA0 || u == 0x1680 || (0x2000 <= u && u
        <= 0x200A) || u == 0x2028 || u == 0x2029 || u == 0x202F || u == 0x205F || u == 0x3000
}

/// Number of leading whitespace characters.
pub open spec fn lead_ws(s: Seq<char>) -> nat
    decreases s.len(),
{
    if s.len() > 0 && is_ws(s[0]) {
        1 + lead_ws(s.drop_first())
    } else {
        0
    }
}

/// Number of trailing whitespace characters.
pub open spec fn trail_ws(s: Seq<char>) -> nat
    decreases s.len(),
{
    if s.len() > 0 && is_ws(s.last()) {
        1 + trail_ws(s.drop_last())
    } else {
        0
    }
}

/// `str::trim_start`.
pub open spec fn trim_start(s: Seq<char>) -> Seq<char> {
    s.skip(lead_ws(s) as int)
}

/// `str::trim_end`.
pub open spec fn trim_end(s: Seq<char>) -> Seq<char> {
    s.take(s.len() - trail_ws(s))
}

/// `str::trim`.
pub open spec fn trim(s: Seq<char>) -> Seq<char> {
    trim_end(trim_start(s))
}

pub proof fn lemma_lead_ws(s: Seq<char>, i: int)
    requires
        0 <= i <= s.len(),
        forall|k: int| 0 <= k < i ==> is_ws(s[k]),
        i == s.len() || !is_ws(s[i]),
    ensures
        lead_ws(s) == i,
    decreases i,
{
    if i > 0 {
        lemma_lead_ws(s.drop_first(), i - 1);
    }
}

pub proof fn lemma_lead_ws_bound(s: Seq<char>)
    ensures
        lead_ws(s) <= s.len(),
        forall|k: int| 0 <= k < lead_ws(s) ==> is_ws(s[k]),
        lead_ws(s) == s.len() || !is_ws(s[lead_ws(s) as int]),
    decreases s.len(),
{
    if s.len() > 0 && is_ws(s[0]) {
        lemma_lead_ws_bound(s.drop_first());
        assert forall|k: int| 1 <= k < lead_ws(s) implies is_ws(s[k]) by {
            assert(s[k] == s.drop_first()[k - 1]);
        }
    }
}

pub proof fn lemma_trail_ws(s: Seq<char>, j: int)
    requires
        0 <= j <= s.len(),
        forall|k: int| j <= k < s.len() ==> is_ws(s[k]),
        j == 0 || !is_ws(s[j - 1]),
    ensures
        trail_ws(s) == s.len() - j,
    decreases s.len() - j,
{
    if j < s.len() {
        lemma_trail_ws(s.drop_last(), j);
    }
}

/// Index of the first character that is not whitespace, from `lo` on.
pub fn skip_ws_from(cs: &Vec<char>, lo: usize) -> (r: usize)
    requires
        lo <= cs.len(),
    ensures
        lo <= r <= cs.len(),
        forall|k: int| lo <= k < r ==> is_ws(cs@[k]),
        r == cs.len() || !is_ws(cs@[r as int]),
{
    let mut i = lo;
    while i < cs.len() && is_whitespace(cs[i])
        invariant
            lo <= i <= cs.len(),
            forall|k: int| lo <= k < i ==> is_ws(cs@[k]),
        decreases cs.len() - i,
    {
        i = i + 1;
    }
    i
}

/// Bounds `(lo, hi)` of `trim` of `cs[start..end]`, as indices into `cs`.
pub fn trim_bounds(cs: &Vec<char>, start: usize, end: usize) -> (r: (usize, usize))
    requires
        start <= end <= cs.len(),
    ensures
        start <= r.0 <= r.1 <= end,
        cs@.subrange(r.0 as int, r.1 as int) == trim(cs@.subrange(start as int, end as int)),
        cs@.subrange(r.0 as int, end as int) == trim_start(cs@.subrange(start as int, end as int)),
{
    let ghost s = cs@.subrange(start as int, end as int);
    let mut lo = start;
    while lo < end && is_whitespace(cs[lo])
        invariant
            start <= lo <= end <= cs.len(),
            forall|k: int| start <= k < lo ==> is_ws(cs@[k]),
        decreases end - lo,
    {
        lo = lo + 1;
    }
    proof {
        lemma_lead_ws(s, lo - start);
        assert(trim_start(s) =~= cs@.subrange(lo as int, end as int));
    }
    let mut hi = end;
    while hi > lo && is_whitespace(cs[hi - 1])
        invariant
            start <= lo <= hi <= end <= cs.len(),
            forall|k: int| hi <= k < end ==> is_ws(cs@[k]),
        decreases hi - lo,
    {
        hi = hi - 1;
    }
    proof {
        let t = cs@.subrange(lo as int, end as int);
        lemma_trail_ws(t, hi - lo);
        assert(trim_end(t) =~= cs@.subrange(lo as int, hi as int));
    }
    (lo, hi)
}

/// `str::trim`, as a fresh string.
pub fn trimmed(s: &str) -> (r: String)
    ensures
        r@ == trim(s@),
{
    let cs = chars_of(s);
    let (lo, hi) = trim_bounds(&cs, 0, cs.len());
    assert(cs@.subrange(0, cs@.len() as int) == cs@);
    string_of_range(&cs, lo, hi)
}

// ── lines ───────────────────────────────────────────────────────────────────

/// Index of the first occurrence of `c`, if any.
pub open spec fn find_char(s: Seq<char>, c: char) -> Option<nat>
    decreases s.len(),
{
    if s.len() == 0 {
        None
    } else if s[0] == c {
        Some(0)
    } else {
        match find_char(s.drop_first(), c) {
            Some(i) => Some(i + 1),
            None => None,
        }
    }
}

pub proof fn lemma_find_char(s: Seq<char>, c: char, i: int)
    requires
        0 <= i <= s.len(),
        forall|k: int| 0 <= k < i ==> s[k] != c,
    ensures
        i < s.len() && s[i] == c ==> find_char(s, c) == Some(i as nat),
        i == s.len() ==> find_char(s, c) is None,
    decreases i,
{
    if i > 0 {
        lemma_find_char(s.drop_first(), c, i - 1);
    }
}

/// A line without its `\r` ending, if it has one.
pub open spec fn strip_cr(l: Seq<char>) -> Seq<char> {
    if l.len() > 0 && l.last() == '\r' {
        l.drop_last()
    } else {
        l
    }
}

/// `str::lines`: split at `\n`, drop a `\r` before each `\n`, and no
/// empty line after a final `\n`.
pub open spec fn lines(s: Seq<char>) -> Seq<Seq<char>>
    decreases s.len(),
{
    if s.len() == 0 {
        seq![]
    } else {
        match find_char(s, '\n') {
            Some(i) => {
                if i < s.len() {
                    seq![strip_cr(s.take(i as int))] + lines(s.skip((i + 1) as int))
                } else {
                    seq![s]
                }
            },
            None => seq![s],
        }
    }
}

/// The first `c` of `a` is the first of `a + b` too.
pub proof fn lemma_find_char_append(a: Seq<char>, b: Seq<char>, c: char)
    requires
        find_char(a, c) is Some,
    ensures
        find_char(a + b, c) == find_char(a, c),
    decreases a.len(),
{
    if a[0] != c {
        lemma_find_char_append(a.drop_first(), b, c);
        assert((a + b).drop_first() =~= a.drop_first() + b);
    }
}

/// The lines of a text that ends with a line break, followed by more
/// text, are its lines followed by the lines of the rest.
pub proof fn lemma_lines_append(a: Seq<char>, b: Seq<char>)
    requires
        a.len() == 0 || a.last() == '\n',
    ensures
        lines(a + b) == lines(a) + lines(b),
    decreases a.len(),
{
    if a.len() == 0 {
        assert(a + b =~= b);
        assert(lines(a) + lines(b) =~= lines(b));
    } else {
        let k = (a.len() - 1) as int;
        if find_char(a, '\n') is None {
            lemma_find_char_bound(a, '\n');
            assert(a[k] != '\n');
        }
        lemma_find_char_append(a, b, '\n');
        lemma_find_char_bound(a, '\n');
        let i = find_char(a, '\n')->0 as int;
        assert((a + b).take(i) =~= a.take(i));
        assert((a + b).skip(i + 1) =~= a.skip(i + 1) + b);
        let rest = a.skip(i + 1);
        assert(rest.len() == 0 || rest.last() == '\n') by {
            if rest.len() > 0 {
                assert(rest.last() == a[k]);
            }
        }
        lemma_lines_append(rest, b);
        assert(lines(a + b) =~= seq![strip_cr(a.take(i))] + (lines(rest) + lines(b)));
        assert(lines(a) == seq![strip_cr(a.take(i))] + lines(rest));
    }
}

pub open spec fn views(v: Seq<Vec<char>>) -> Seq<Seq<char>> {
    v.map_values(|l: Vec<char>| l@)
}

pub proof fn lemma_find_char_bound(s: Seq<char>, c: char)
    ensures
        find_char(s, c) matches Some(i) ==> i < s.len() && s[i as int] == c && forall|k: int|
            0 <= k < i ==> s[k] != c,
        find_char(s, c) is None ==> forall|k: int| 0 <= k < s.len() ==> s[k] != c,
    decreases s.len(),
{
    if s.len() > 0 && s[0] != c {
        lemma_find_char_bound(s.drop_first(), c);
        assert forall|k: int| 1 <= k < s.len() implies s[k] == s.drop_first()[k - 1] by {}
    }
}

/// The lines of `cs`, as `str::lines` yields them.
pub fn lines_of(cs: &Vec<char>) -> (r: Vec<Vec<char>>)
    ensures
        views(r@) == lines(cs@),
{
    let mut r: Vec<Vec<char>> = Vec::new();
    let mut start: usize = 0;
    let mut i: usize = 0;
    assert(cs@.skip(0) == cs@);
    assert(views(r@) + lines(cs@.skip(0)) =~= lines(cs@));
    while i < cs.len()
        invariant
            start <= i <= cs.len(),
            forall|k: int| start <= k < i ==> cs@[k] != '\n',
            views(r@) + lines(cs@.skip(start as int)) == lines(cs@),
        decreases cs.len() - i,
    {
        if cs[i] == '\n' {
            let ghost rest = cs@.skip(start as int);
            let ghost before = r@;
            let mut line: Vec<char> = Vec::new();
            let mut k = start;
            while k < i
                invariant
                    start <= k <= i < cs.len(),
                    line@ == cs@.subrange(start as int, k as int),
                decreases i - k,
            {
                line.push(cs[k]);
                k = k + 1;
            }
            if line.len() > 0 && line[line.len() - 1] == '\r' {
                line.pop();
            }
            proof {
                assert forall|k: int| 0 <= k < i - start implies rest[k] != '\n' by {
                    assert(rest[k] == cs@[start + k]);
                }
                lemma_find_char(rest, '\n', i - start);
                assert(rest.take(i - start) =~= cs@.subrange(start as int, i as int));
                assert(rest.skip(i - start + 1) =~= cs@.skip(i + 1));
                assert(line@ == strip_cr(rest.take(i - start)));
                assert(lines(rest) == seq![line@] + lines(cs@.skip(i + 1)));
            }
            r.push(line);
            proof {
                assert(views(r@) =~= views(before).push(line@));
                assert(views(r@) + lines(cs@.skip(i + 1)) =~= views(before) + lines(rest));
            }
            start = i + 1;
        }
        i = i + 1;
    }
    if start < cs.len() {
        let ghost rest = cs@.skip(start as int);
        let ghost before = r@;
        let mut line: Vec<char> = Vec::new();
        let mut k = start;
        while k < cs.len()
            invariant
                start <= k <= cs.len(),
                line@ == cs@.subrange(start as int, k as int),
            decreases cs.len() - k,
        {
            line.push(cs[k]);
            k = k + 1;
        }
        proof {
            assert forall|k: int| 0 <= k < rest.len() implies rest[k] != '\n' by {
                assert(rest[k] == cs@[start + k]);
            }
            lemma_find_char(rest, '\n', rest.len() as int);
            assert(line@ =~= rest);
        }
        r.push(line);
        proof {
            assert(views(r@) =~= views(before).push(line@));
        }
    } else {
        assert(cs@.skip(start as int) =~= Seq::<char>::empty());
    }
    assert(views(r@) =~= lines(cs@));
    r
}


// ── integer parsing ─────────────────────────────────────────────────────────

/// Value of a decimal digit character.
pub open spec fn digit_val(c: char) -> Option<nat> {
    if c == '0' {
        Some(0)
    } else if c == '1' {
        Some(1)
    } else if c == '2' {
        Some(2)
    } else if c == '3' {
        Some(3)
    } else if c == '4' {
        Some(4)
    } else if c == '5' {
        Some(5)
    } else if c == '6' {
        Some(6)
    } else if c == '7' {
        Some(7)
    } else if c == '8' {
        Some(8)
    } else if c == '9' {
        Some(9)
    } else {
        None
    }
}

pub open spec fn is_digit(c: char) -> bool {
    digit_val(c) is Some
}

/// Value of a decimal digit character (`char::to_digit(10)`).
pub fn digit_value(c: char) -> (r: Option<u64>)
    ensures
        r matches Some(d) ==> digit_val(c) == Some(d as nat) && d <= 9,
        r is None ==> digit_val(c) is None,
{
    match c {
        '0' => Some(0),
        '1' => Some(1),
        '2' => Some(2),
        '3' => Some(3),
        '4' => Some(4),
        '5' => Some(5),
        '6' => Some(6),
        '7' => Some(7),
        '8' => Some(8),
        '9' => Some(9),
        _ => None,
    }
}

pub open spec fn all_digits(ds: Seq<char>) -> bool {
    forall|i: int| 0 <= i < ds.len() ==> is_digit(ds[i])
}

/// Value of a run of decimal digits.
pub open spec fn digits_value(ds: Seq<char>) -> nat
    decreases ds.len(),
{
    if ds.len() == 0 {
        0
    } else {
        digits_value(ds.drop_last()) * 10 + digit_val(ds.last())->0
    }
}

/// Whether the text begins with a sign character.
pub open spec fn has_sign(s: Seq<char>) -> bool {
    s.len() > 0 && (s[0] == '-' || s[0] == '+')
}

pub open spec fn unsigned_part(s: Seq<char>) -> Seq<char> {
    if has_sign(s) {
        s.drop_first()
    } else {
        s
    }
}

/// What `str::parse` gives for an integer type whose values are `lo..=hi`:
/// an optional sign (`-` only matters), then one or more decimal digits,
/// and the value in range; no other character is accepted.
pub open spec fn parse_int(s: Seq<char>, lo: int, hi: int) -> Option<int> {
    let ds = unsigned_part(s);
    let v: int = if s.len() > 0 && s[0] == '-' {
        -(digits_value(ds) as int)
    } else {
        digits_value(ds) as int
    };
    if ds.len() == 0 || !all_digits(ds) || v < lo || v > hi {
        None
    } else {
        Some(v)
    }
}

pub proof fn lemma_digits_value_take(ds: Seq<char>, k: int)
    requires
        0 <= k < ds.len(),
        all_digits(ds),
    ensures
        digits_value(ds.take(k + 1)) == digits_value(ds.take(k)) * 10 + digit_val(ds[k])->0,
{
    assert(ds.take(k + 1).drop_last() =~= ds.take(k));
}

pub proof fn lemma_digits_value_mono(ds: Seq<char>, k: int)
    requires
        0 <= k <= ds.len(),
        all_digits(ds),
    ensures
        digits_value(ds.take(k)) <= digits_value(ds),
    decreases ds.len() - k,
{
    if k < ds.len() {
        lemma_digits_value_take(ds, k);
        lemma_digits_value_mono(ds, k + 1);
    } else {
        assert(ds.take(k) =~= ds);
    }
}

/// `10` to the power `n`.
pub open spec fn pow10(n: nat) -> nat
    decreases n,
{
    if n == 0 {
        1
    } else {
        10 * pow10((n - 1) as nat)
    }
}

pub proof fn lemma_pow10_pos(n: nat)
    ensures
        pow10(n) >= 1,
    decreases n,
{
    if n > 0 {
        lemma_pow10_pos((n - 1) as nat);
    }
}

/// A run of `n` digits is worth less than `10^n`.
pub proof fn lemma_digits_value_lt(ds: Seq<char>)
    requires
        all_digits(ds),
    ensures
        digits_value(ds) < pow10(ds.len()),
    decreases ds.len(),
{
    if ds.len() > 0 {
        let init = ds.drop_last();
        assert(all_digits(init)) by {
            assert forall|i: int| 0 <= i < init.len() implies is_digit(init[i]) by {
                assert(init[i] == ds[i]);
            }
        }
        lemma_digits_value_lt(init);
        assert(is_digit(ds[ds.len() - 1]));
        let d = digit_val(ds.last())->0;
        assert(d <= 9);
        let p = pow10(init.len());
        assert(pow10(ds.len()) == 10 * p);
        assert(digits_value(init) * 10 + d < 10 * p) by (nonlinear_arith)
            requires
                digits_value(init) < p,
                d <= 9,
        ;
    }
}

/// What `parse_int` accepts from `k` characters lies strictly between
/// `-10^(k-1)` and `10^k`.
pub proof fn lemma_parse_int_bound(s: Seq<char>, lo: int, hi: int)
    requires
        s.len() >= 1,
        parse_int(s, lo, hi) is Some,
    ensures
        -(pow10((s.len() - 1) as nat) as int) < parse_int(s, lo, hi)->0 < pow10(s.len()),
{
    let ds = unsigned_part(s);
    lemma_digits_value_lt(ds);
    let k = (s.len() - 1) as nat;
    assert(pow10(s.len()) == 10 * pow10(k));
    if has_sign(s) {
        assert(ds.len() == k);
    } else {
        assert(ds.len() == s.len());
    }
}

/// Parses `cs` as an integer in `lo..=hi`, as `str::parse` does for `i64`
/// (`lo == i64::MIN`, `hi == i64::MAX`) and for narrower integer types.
pub fn parse_int_in(cs: &Vec<char>, lo: i64, hi: i64) -> (r: Option<i64>)
    requires
        lo <= 0 <= hi,
    ensures
        r matches Some(v) ==> parse_int(cs@, lo as int, hi as int) == Some(v as int),
        r is None ==> parse_int(cs@, lo as int, hi as int) is None,
{
    let ghost s = cs@;
    if cs.len() == 0 {
        return None;
    }
    let neg = cs[0] == '-';
    let start: usize = if cs[0] == '-' || cs[0] == '+' {
        1
    } else {
        0
    };
    let ghost ds = unsigned_part(s);
    assert(ds =~= s.skip(start as int));
    if start == cs.len() {
        return None;
    }
    // 2^63, the largest magnitude any `i64` bound can ask for
    let limit: u64 = 9223372036854775808u64;
    let mut acc: u64 = 0;
    let mut i = start;
    while i < cs.len()
        invariant
            ds =~= s.skip(start as int),
            ds == unsigned_part(s),
            s == cs@,
            limit == 9223372036854775808u64,
            start <= i <= cs.len(),
            acc <= limit,
            forall|k: int| 0 <= k < i - start ==> is_digit(ds[k]),
            acc as nat == digits_value(ds.take(i - start)),
        decreases cs.len() - i,
    {
        let c = cs[i];
        assert(ds[i - start] == c);
        let d = match digit_value(c) {
            Some(d) => d,
            None => {
                assert(!is_digit(ds[i - start]));
                return None;
            },
        };
        if acc > (limit - d) / 10 {
            // every further digit keeps the value above any bound
            proof {
                if all_digits(ds) {
                    lemma_digits_value_take(ds, i - start);
                    lemma_digits_value_mono(ds, i - start + 1);
                }
            }
            return None;
        }
        proof {
            assert(is_digit(ds[i - start]));
            assert forall|k: int| 0 <= k < i + 1 - start implies is_digit(ds[k]) by {}
            assert(ds.take(i + 1 - start).drop_last() =~= ds.take(i - start));
        }
        acc = acc * 10 + d;
        i = i + 1;
    }
    assert(ds.take(i - start) =~= ds);
    if neg {
        if (acc as i128) > -(lo as i128) {
            return None;
        }
        let v: i64 = (0i128 - acc as i128) as i64;
        Some(v)
    } else {
        if (acc as i128) > (hi as i128) {
            return None;
        }
        Some(acc as i64)
    }
}


// ── ordering and searching ──────────────────────────────────────────────────

/// `s1 <= s2` in the order of `String`: lexicographic by character code.
pub open spec fn lex_le(a: Seq<char>, b: Seq<char>) -> bool
    decreases a.len(),
{
    if a.len() == 0 {
        true
    } else if b.len() == 0 {
        false
    } else if a[0] != b[0] {
        a[0] < b[0]
    } else {
        lex_le(a.drop_first(), b.drop_first())
    }
}

pub proof fn lemma_lex_total(a: Seq<char>, b: Seq<char>)
    ensures
        lex_le(a, b) || lex_le(b, a),
    decreases a.len(),
{
    if a.len() > 0 && b.len() > 0 && a[0] == b[0] {
        lemma_lex_total(a.drop_first(), b.drop_first());
    }
}

pub proof fn lemma_lex_trans(a: Seq<char>, b: Seq<char>, c: Seq<char>)
    requires
        lex_le(a, b),
        lex_le(b, c),
    ensures
        lex_le(a, c),
    decreases a.len(),
{
    if a.len() > 0 && b.len() > 0 && c.len() > 0 && a[0] == b[0] && b[0] == c[0] {
        lemma_lex_trans(a.drop_first(), b.drop_first(), c.drop_first());
    }
}

/// Whether `a <= b` in the order of `String`.
pub fn text_le(a: &str, b: &str) -> (r: bool)
    ensures
        r == lex_le(a@, b@),
{
    let x = chars_of(a);
    let y = chars_of(b);
    let mut i: usize = 0;
    assert(x@.skip(0) =~= x@);
    assert(y@.skip(0) =~= y@);
    while i < x.len() && i < y.len() && x[i] == y[i]
        invariant
            i <= x.len(),
            i <= y.len(),
            lex_le(a@, b@) == lex_le(x@.skip(i as int), y@.skip(i as int)),
            x@ == a@,
            y@ == b@,
        decreases x.len() - i,
    {
        assert(x@.skip(i as int).drop_first() =~= x@.skip(i + 1));
        assert(y@.skip(i as int).drop_first() =~= y@.skip(i + 1));
        i = i + 1;
    }
    if i == x.len() {
        true
    } else if i == y.len() {
        false
    } else {
        assert(x@.skip(i as int)[0] == x@[i as int]);
        assert(y@.skip(i as int)[0] == y@[i as int]);
        x[i] < y[i]
    }
}

/// Whether `p` occurs in `s` (`str::contains` with a string pattern).
pub open spec fn contains_text(s: Seq<char>, p: Seq<char>) -> bool {
    exists|i: int| 0 <= i <= s.len() - p.len() && #[trigger] s.subrange(i, i + p.len()) == p
}

/// Whether `p` occurs in `s`.
pub fn has_substring(s: &Vec<char>, p: &Vec<char>) -> (r: bool)
    ensures
        r == contains_text(s@, p@),
{
    if p.len() > s.len() {
        return false;
    }
    let mut i: usize = 0;
    while i <= s.len() - p.len()
        invariant
            p.len() <= s.len(),
            i <= s.len() - p.len() + 1,
            forall|k: int| 0 <= k < i ==> #[trigger] s@.subrange(k, k + p.len()) != p@,
        decreases s.len() - p.len() + 1 - i,
    {
        let mut j: usize = 0;
        let mut same = true;
        while j < p.len()
            invariant
                j <= p.len(),
                i + p.len() <= s.len(),
                same == forall|k: int| 0 <= k < j ==> s@[i + k] == p@[k],
            decreases p.len() - j,
        {
            if s[i + j] != p[j] {
                same = false;
            }
            j = j + 1;
        }
        if same {
            assert(s@.subrange(i as int, i + p.len()) =~= p@);
            return true;
        }
        proof {
            let k = choose|k: int| 0 <= k < p.len() && s@[i + k] != p@[k];
            assert(s@.subrange(i as int, i + p.len())[k] != p@[k]);
        }
        i = i + 1;
    }
    false
}

/// Removes the last character, if any (`String::pop`).
pub fn pop_char(s: &mut String)
    ensures
        final(s)@ == (if old(s)@.len() > 0 {
            old(s)@.drop_last()
        } else {
            old(s)@
        }),
{
    let cs = chars_of(s.as_str());
    if cs.len() > 0 {
        let t = string_of_range(&cs, 0, cs.len() - 1);
        *s = t;
    }
}

} // verus!
