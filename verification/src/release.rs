//! The release helper's decisions: which version comes next, which lines
//! of `git status --porcelain` make the tree dirty, and whether the
//! operator confirmed.
use vstd::prelude::*;
use crate::format::{split_at_char, split_of};
use crate::text::{
    chars_of, has_prefix, lines, lines_of, parse_int, parse_int_in, push_char, push_u64, dec,
    starts_with, string_of, trim, trimmed, str_eq, views,
};

verus! {

/// Which part of the version a release bumps.
#[derive(Clone, Copy, Debug, PartialEq, Eq, Structural)]
pub enum Bump {
    Patch,
    Minor,
    Major,
}

/// The bump named on the command line (`patch` when none is named).
pub open spec fn bump_named(arg: Option<Seq<char>>) -> Option<Bump> {
    match arg {
        None => Some(Bump::Patch),
        Some(a) => if a == "patch"@ {
            Some(Bump::Patch)
        } else if a == "minor"@ {
            Some(Bump::Minor)
        } else if a == "major"@ {
            Some(Bump::Major)
        } else {
            None
        },
    }
}

/// Reads the release kind from the first command-line argument; `None`
/// for an unknown one.
pub fn parse_bump(arg: Option<&str>) -> (r: Option<Bump>)
    ensures
        r == bump_named(
            match arg {
                Some(a) => Some(a@),
                None => None,
            },
        ),
{
    match arg {
        None => Some(Bump::Patch),
        Some(a) => if str_eq(a, "patch") {
            Some(Bump::Patch)
        } else if str_eq(a, "minor") {
            Some(Bump::Minor)
        } else if str_eq(a, "major") {
            Some(Bump::Major)
        } else {
            None
        },
    }
}

/// `str::parse::<u32>` (and the other unsigned types, with `hi` their
/// largest value): a `-` is never accepted.
pub open spec fn parse_uint(s: Seq<char>, hi: int) -> Option<int> {
    if s.len() > 0 && s[0] == '-' {
        None
    } else {
        parse_int(s, 0, hi)
    }
}

/// The numbers of a dotted version, or `None` when a segment is not a
/// `u32`.
pub open spec fn version_numbers(v: Seq<char>) -> Option<Seq<int>> {
    let parts = split_at_char(v, '.');
    if forall|i: int| 0 <= i < parts.len() ==> #[trigger] parse_uint(parts[i], u32::MAX as int) is Some {
        Some(Seq::new(parts.len(), |i: int| parse_uint(parts[i], u32::MAX as int)->0))
    } else {
        None
    }
}

/// The version after `(major, minor, patch)` for this bump.
pub open spec fn bumped(n: Seq<int>, bump: Bump) -> Seq<char> {
    match bump {
        Bump::Major => dec((n[0] + 1) as nat) + ".0.0"@,
        Bump::Minor => dec(n[0] as nat) + seq!['.'] + dec((n[1] + 1) as nat) + ".0"@,
        Bump::Patch => dec(n[0] as nat) + seq!['.'] + dec(n[1] as nat) + seq!['.'] + dec(
            (n[2] + 1) as nat,
        ),
    }
}

/// A version that parses has the three numbers the bump reads, and the
/// bumped number stays a `u32`.
pub open spec fn bump_fits(v: Seq<char>, bump: Bump) -> bool {
    match version_numbers(v) {
        Some(n) => n.len() >= 3 && match bump {
            Bump::Major => n[0] < u32::MAX,
            Bump::Minor => n[1] < u32::MAX,
            Bump::Patch => n[2] < u32::MAX,
        },
        None => true,
    }
}

/// The version segment that did not parse as a number.
pub enum VersionError {
    InvalidSegment,
}

fn parse_u32_text(cs: &Vec<char>) -> (r: Option<u64>)
    ensures
        r matches Some(v) ==> parse_uint(cs@, u32::MAX as int) == Some(v as int),
        r is None ==> parse_uint(cs@, u32::MAX as int) is None,
{
    if cs.len() > 0 && cs[0] == '-' {
        return None;
    }
    match parse_int_in(cs, 0, 4294967295) {
        Some(v) => Some(v as u64),
        None => None,
    }
}

/// The numbers of the version `current`, or `None` when a segment is not
/// a `u32`.
fn version_parts(current: &str) -> (r: Option<Vec<u64>>)
    ensures
        r is None <==> version_numbers(current@) is None,
        r matches Some(nums) ==> nums.len() == version_numbers(current@)->0.len() && forall|k: int|
            0 <= k < nums.len() ==> version_numbers(current@)->0[k] == #[trigger] nums@[k] as int,
{
    let cs = chars_of(current);
    let parts = split_of(&cs, '.');
    let ghost pv = split_at_char(current@, '.');
    let mut nums: Vec<u64> = Vec::new();
    let mut i: usize = 0;
    while i < parts.len()
        invariant
            pv == split_at_char(current@, '.'),
            views(parts@) == pv,
            i <= parts.len(),
            nums.len() == i,
            forall|k: int| 0 <= k < i ==> #[trigger] parse_uint(pv[k], u32::MAX as int) == Some(
                nums@[k] as int,
            ),
        decreases parts.len() - i,
    {
        assert(views(parts@)[i as int] == parts@[i as int]@);
        match parse_u32_text(&parts[i]) {
            Some(v) => nums.push(v),
            None => {
                assert(!(parse_uint(pv[i as int], u32::MAX as int) is Some));
                return None;
            },
        }
        i = i + 1;
    }
    assert(version_numbers(current@) is Some);
    Some(nums)
}

/// Whether `next_version` can bump `current` this way (`bump_fits`).
pub fn version_bumpable(current: &str, bump: Bump) -> (r: bool)
    ensures
        r == bump_fits(current@, bump),
{
    match version_parts(current) {
        None => true,
        Some(n) => n.len() >= 3 && match bump {
            Bump::Major => n[0] < 4294967295,
            Bump::Minor => n[1] < 4294967295,
            Bump::Patch => n[2] < 4294967295,
        },
    }
}

/// The next version after `current` (`major.minor.patch`): a major bump
/// resets minor and patch, a minor bump resets patch.
pub fn next_version(current: &str, bump: Bump) -> (r: Result<String, VersionError>)
    requires
        bump_fits(current@, bump),
    ensures
        r is Err <==> version_numbers(current@) is None,
        r matches Ok(s) ==> s@ == bumped(version_numbers(current@)->0, bump),
{
    let nums = match version_parts(current) {
        Some(n) => n,
        None => return Err(VersionError::InvalidSegment),
    };
    let ghost n = version_numbers(current@)->0;
    let mut r = String::new();
    match bump {
        Bump::Major => {
            push_u64(&mut r, nums[0] + 1);
            crate::text::push_text(&mut r, ".0.0");
        },
        Bump::Minor => {
            push_u64(&mut r, nums[0]);
            push_char(&mut r, '.');
            push_u64(&mut r, nums[1] + 1);
            crate::text::push_text(&mut r, ".0");
        },
        Bump::Patch => {
            push_u64(&mut r, nums[0]);
            push_char(&mut r, '.');
            push_u64(&mut r, nums[1]);
            push_char(&mut r, '.');
            push_u64(&mut r, nums[2] + 1);
        },
    }
    assert(r@ =~= bumped(n, bump));
    Ok(r)
}

/// What toml_edit reads as `package.version` of a manifest's text: `None`
/// when the text is not a TOML document, `Some(None)` when there is no
/// such value or it is not a string.
pub uninterp spec fn manifest_version(text: Seq<char>) -> Option<Option<Seq<char>>>;

/// The manifest's text as toml_edit prints it after setting
/// `package.version` to `version`.
pub uninterp spec fn manifest_with_version(text: Seq<char>, version: Seq<char>) -> Seq<char>;

/// Parses a manifest with `toml_edit::DocumentMut::from_str` and reads
/// `package.version` with `get` and `as_str`. Claimed: the outcome
/// depends on the text alone, and is named `manifest_version`.
#[verifier::external_body]
fn read_manifest_version(text: &str) -> (r: Option<Option<String>>)
    ensures
        match r {
            Some(Some(v)) => manifest_version(text@) == Some(Some(v@)),
            Some(None) => manifest_version(text@) == Some(None::<Seq<char>>),
            None => manifest_version(text@) is None,
        },
{
    match text.parse::<toml_edit::DocumentMut>() {
        Ok(doc) => Some(
            doc.get("package").and_then(|p| p.get("version")).and_then(|v| v.as_str()).map(
                |v| v.to_string(),
            ),
        ),
        Err(_) => None,
    }
}

/// Parses a manifest with `toml_edit`, sets `package.version` to
/// `version` through `IndexMut` and `toml_edit::value`, and prints the
/// document. Called only on a manifest whose version could be read, where
/// the indexing finds `package` as a table. Claimed: the text depends on
/// the arguments alone, and is named `manifest_with_version`.
#[verifier::external_body]
fn write_manifest_version(text: &str, version: &str) -> (r: String)
    requires
        manifest_version(text@) matches Some(Some(_)),
    ensures
        r@ == manifest_with_version(text@, version@),
{
    let mut doc = text.parse::<toml_edit::DocumentMut>().unwrap_or_default();
    doc["package"]["version"] = toml_edit::value(version);
    doc.to_string()
}

/// Why a release cannot be prepared.
pub enum ReleaseError {
    /// The manifest is not a TOML document.
    ManifestUnreadable,
    /// The manifest has no string `package.version`.
    MissingVersion,
    /// A segment of the version is not a number.
    InvalidSegment,
    /// The version has fewer than three numbers, or the bumped one would
    /// leave `u32`.
    Unbumpable,
}

/// A prepared release: the version now, the next one, and the manifest's
/// text with the next version written in.
pub struct ReleasePlan {
    pub current: String,
    pub next: String,
    pub manifest: String,
}

/// Prepares a release from the manifest's text: reads the current
/// version, bumps it, and writes the next one into the manifest.
pub fn plan_release(manifest: &str, bump: Bump) -> (r: Result<ReleasePlan, ReleaseError>)
    ensures
        match manifest_version(manifest@) {
            None => r matches Err(ReleaseError::ManifestUnreadable),
            Some(None) => r matches Err(ReleaseError::MissingVersion),
            Some(Some(v)) => if version_numbers(v) is None {
                r matches Err(ReleaseError::InvalidSegment)
            } else if !bump_fits(v, bump) {
                r matches Err(ReleaseError::Unbumpable)
            } else {
                r matches Ok(p) && p.current@ == v && p.next@ == bumped(
                    version_numbers(v)->0,
                    bump,
                ) && p.manifest@ == manifest_with_version(manifest@, p.next@)
            },
        },
{
    let current = match read_manifest_version(manifest) {
        None => return Err(ReleaseError::ManifestUnreadable),
        Some(None) => return Err(ReleaseError::MissingVersion),
        Some(Some(v)) => v,
    };
    if !version_bumpable(current.as_str(), bump) {
        return Err(ReleaseError::Unbumpable);
    }
    let next = match next_version(current.as_str(), bump) {
        Ok(n) => n,
        Err(_) => return Err(ReleaseError::InvalidSegment),
    };
    let text = write_manifest_version(manifest, next.as_str());
    Ok(ReleasePlan { current, next, manifest: text })
}

/// The lines of `git status --porcelain` that make the tree dirty: all
/// but the untracked files (`??`).
pub open spec fn dirty_lines_of(status: Seq<char>) -> Seq<Seq<char>> {
    lines(status).filter(|l: Seq<char>| !starts_with(l, "??"@))
}

/// The lines of a porcelain status that block a release.
pub fn dirty_lines(status: &str) -> (r: Vec<String>)
    ensures
        r@.map_values(|s: String| s@) == dirty_lines_of(status@),
{
    let cs = chars_of(status);
    let ls = lines_of(&cs);
    let q = chars_of("??");
    let ghost lv = lines(status@);
    let mut r: Vec<String> = Vec::new();
    let mut i: usize = 0;
    while i < ls.len()
        invariant
            views(ls@) == lv,
            q@ == "??"@,
            i <= ls.len(),
            r@.map_values(|s: String| s@) == lv.take(i as int).filter(
                |l: Seq<char>| !starts_with(l, "??"@),
            ),
        decreases ls.len() - i,
    {
        assert(views(ls@)[i as int] == ls@[i as int]@);
        assert(lv.take(i + 1).drop_last() =~= lv.take(i as int));
        proof {
            reveal(Seq::filter);
        }
        let ghost before = r@;
        let skip = has_prefix(&ls[i], &q);
        if !skip {
            let s = string_of(&ls[i]);
            r.push(s);
            assert(r@.map_values(|s: String| s@) =~= before.map_values(|s: String| s@).push(
                lv[i as int],
            ));
        }
        assert(r@.map_values(|s: String| s@) =~= lv.take(i + 1).filter(
            |l: Seq<char>| !starts_with(l, "??"@),
        ));
        i = i + 1;
    }
    assert(lv.take(ls.len() as int) =~= lv);
    r
}

/// The operator declined: the answer, trimmed, is `n` in either case.
pub open spec fn declined(answer: Seq<char>) -> bool {
    trim(answer) == "n"@ || trim(answer) == "N"@
}

/// Whether a confirmation answer lets the release go on; only `n` (any
/// case, surrounding whitespace ignored) stops it.
pub fn confirmed(answer: &str) -> (r: bool)
    ensures
        r == !declined(answer@),
{
    let t = trimmed(answer);
    !(str_eq(t.as_str(), "n") || str_eq(t.as_str(), "N"))
}

} // verus!
