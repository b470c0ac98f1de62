//! Telling a compiler version to fetch from a path to a compiler on disk.
//!
//! A version is a semantic version: `x.y.z`, three numbers in decimal, none
//! with a leading zero, separated by full stops; then, if wanted, a hyphen
//! and pre-release identifiers; then, if wanted, a plus sign and build
//! identifiers. It may follow one of the accepted prefixes, by default
//! `solc:` or `v`. Any other text that could name a file is taken as the path
//! of a compiler that is already there.

use vstd::prelude::*;
use crate::error::{Error, ErrorView};
use crate::text::{all_digits, chars_of, contains_char, has_prefix, is_digit, string_of};

verus! {

/// Which compiler to use.
#[derive(Clone, Debug)]
pub enum VersionSpec {
    /// The published compiler of this version.
    Remote(String),
    /// The compiler found at this path.
    LocalPath(String),
}

/// The mathematical value of a [`VersionSpec`].
pub enum VersionSpecView {
    Remote(Seq<char>),
    LocalPath(Seq<char>),
}

impl View for VersionSpec {
    type V = VersionSpecView;

    open spec fn view(&self) -> VersionSpecView {
        match self {
            VersionSpec::Remote(v) => VersionSpecView::Remote(v@),
            VersionSpec::LocalPath(p) => VersionSpecView::LocalPath(p@),
        }
    }
}

impl VersionSpecView {
    /// A remote version is always a semantic version; a path is never empty.
    pub open spec fn wf(self) -> bool {
        match self {
            VersionSpecView::Remote(v) => is_semver(v),
            VersionSpecView::LocalPath(p) => p.len() > 0,
        }
    }
}

/// A number in decimal without a sign and without a leading zero.
pub open spec fn is_numeric_identifier(s: Seq<char>) -> bool {
    &&& s.len() >= 1
    &&& all_digits(s)
    &&& (s.len() == 1 || s[0] != '0')
}

/// Whether the full stops at `i` and `j` part `s` into three numbers.
pub open spec fn is_core_split(s: Seq<char>, i: int, j: int) -> bool {
    &&& 0 < i < j < s.len()
    &&& s[i] == '.'
    &&& s[j] == '.'
    &&& is_numeric_identifier(s.subrange(0, i))
    &&& is_numeric_identifier(s.subrange(i + 1, j))
    &&& is_numeric_identifier(s.subrange(j + 1, s.len() as int))
}

/// Whether `s` is written `x.y.z`, with three numbers.
pub open spec fn is_version_core(s: Seq<char>) -> bool {
    exists|i: int, j: int| is_core_split(s, i, j)
}

/// Whether `c` may stand in an identifier: an ASCII letter, a digit or a hyphen.
pub open spec fn is_identifier_char(c: char) -> bool {
    is_digit(c) || ('a' <= c && c <= 'z') || ('A' <= c && c <= 'Z') || c == '-'
}

/// Whether `s` is one identifier: letters, digits and hyphens, at least one.
/// Where `strict` is set, an identifier of digits alone has no leading zero.
pub open spec fn is_identifier(s: Seq<char>, strict: bool) -> bool {
    &&& s.len() > 0
    &&& forall|i: int| 0 <= i < s.len() ==> is_identifier_char(#[trigger] s[i])
    &&& (strict && all_digits(s) ==> s.len() == 1 || s[0] != '0')
}

/// Whether `s` is one identifier, or identifiers separated by full stops.
pub open spec fn is_identifier_list(s: Seq<char>, strict: bool) -> bool
    decreases s.len(),
{
    exists|d: int|
        0 < d <= s.len() && #[trigger] is_identifier(s.take(d), strict) && (d == s.len() || (s[d]
            == '.' && is_identifier_list(s.skip(d + 1), strict)))
}

/// Whether `s` is a semantic version whose core ends at `a` and whose
/// pre-release identifiers, if it has any, end at `b`.
pub open spec fn is_semver_parts(s: Seq<char>, a: int, b: int) -> bool {
    &&& 0 <= a <= b <= s.len()
    &&& is_version_core(s.take(a))
    &&& (a == b || (s[a] == '-' && is_identifier_list(s.subrange(a + 1, b), true)))
    &&& (b == s.len() || (s[b] == '+' && is_identifier_list(
        s.subrange(b + 1, s.len() as int),
        false,
    )))
}

/// Whether `s` is a semantic version.
pub open spec fn is_semver(s: Seq<char>) -> bool {
    exists|a: int, b: int| is_semver_parts(s, a, b)
}

/// Whether `c` may stand in a semantic version.
pub open spec fn is_version_char(c: char) -> bool {
    is_identifier_char(c) || c == '.' || c == '+'
}

/// Whether `c` separates the parts of a path.
pub open spec fn is_path_separator(c: char) -> bool {
    c == '/' || c == '\\'
}

/// The prefixes accepted before a version when none are configured: `solc:` and `v`.
pub open spec fn default_prefixes() -> Seq<Seq<char>> {
    seq!["solc:"@, "v"@]
}

/// The version that is left when the first of `prefixes` that `raw` begins
/// with, and that leaves a version, is taken off.
pub open spec fn strip_to_version(raw: Seq<char>, prefixes: Seq<Seq<char>>) -> Option<Seq<char>>
    decreases prefixes.len(),
{
    if prefixes.len() == 0 {
        None
    } else if prefixes[0].is_prefix_of(raw) && is_semver(raw.skip(prefixes[0].len() as int)) {
        Some(raw.skip(prefixes[0].len() as int))
    } else {
        strip_to_version(raw, prefixes.drop_first())
    }
}

/// The version that `raw` names, bare or behind one of `prefixes`.
pub open spec fn remote_version(raw: Seq<char>, prefixes: Seq<Seq<char>>) -> Option<Seq<char>> {
    if is_semver(raw) {
        Some(raw)
    } else {
        strip_to_version(raw, prefixes)
    }
}

/// What a version text means.
///
/// Empty text, and text that holds the character NUL, which no path can hold,
/// is refused. Text that begins with a path separator is a path. Other text is
/// a version where it names one, and a path where it does not.
pub open spec fn resolve_spec(raw: Seq<char>, prefixes: Seq<Seq<char>>) -> Result<
    VersionSpecView,
    ErrorView,
> {
    if raw.len() == 0 || raw.contains('\0') {
        Err(ErrorView::InvalidVersionSpec(raw))
    } else if is_path_separator(raw[0]) {
        Ok(VersionSpecView::LocalPath(raw))
    } else {
        match remote_version(raw, prefixes) {
            Some(v) => Ok(VersionSpecView::Remote(v)),
            None => Ok(VersionSpecView::LocalPath(raw)),
        }
    }
}

/// Whether `s` holds digits up to `end` and then something else, or nothing.
pub open spec fn digits_end_at(s: Seq<char>, start: int, end: int) -> bool {
    &&& 0 <= start <= end <= s.len()
    &&& forall|k: int| start <= k < end ==> is_digit(#[trigger] s[k])
    &&& (end == s.len() || !is_digit(s[end]))
}

/// In a version, the first full stop stands where the first run of digits ends,
/// the second where the second run ends, and the third run ends the text.
proof fn lemma_split_is_forced(s: Seq<char>, i: int, j: int, a: int, b: int, c: int)
    requires
        is_core_split(s, i, j),
        digits_end_at(s, 0, a),
        a < s.len() ==> digits_end_at(s, a + 1, b),
        a < s.len() && b < s.len() ==> digits_end_at(s, b + 1, c),
    ensures
        a == i,
        b == j,
        c == s.len(),
{
    let first = s.subrange(0, i);
    let second = s.subrange(i + 1, j);
    let third = s.subrange(j + 1, s.len() as int);
    assert(forall|k: int| 0 <= k < i ==> s[k] == first[k]);
    assert(forall|k: int| i + 1 <= k < j ==> s[k] == second[k - (i + 1)]);
    assert(forall|k: int| j + 1 <= k < s.len() ==> s[k] == third[k - (j + 1)]);
    if a < i {
        assert(is_digit(first[a]));
    }
    assert(a == i);
    if b < j {
        assert(is_digit(second[b - (i + 1)]));
    }
    assert(b == j);
    if c < s.len() {
        assert(is_digit(third[c - (j + 1)]));
    }
}

/// Every character of a version core is a digit or a full stop, and the
/// first and the last are digits.
pub proof fn lemma_core_chars(s: Seq<char>)
    requires
        is_version_core(s),
    ensures
        s.len() >= 5,
        is_digit(s[0]),
        is_digit(s.last()),
        forall|k: int| 0 <= k < s.len() ==> is_digit(#[trigger] s[k]) || s[k] == '.',
{
    let (i, j) = choose|i: int, j: int| is_core_split(s, i, j);
    let first = s.subrange(0, i);
    let second = s.subrange(i + 1, j);
    let third = s.subrange(j + 1, s.len() as int);
    assert(is_digit(first[0]));
    assert(is_digit(third[third.len() - 1]));
    assert forall|k: int| 0 <= k < s.len() implies is_digit(#[trigger] s[k]) || s[k] == '.' by {
        if k < i {
            assert(is_digit(first[k]));
        } else if i < k < j {
            assert(is_digit(second[k - (i + 1)]));
        } else if j < k {
            assert(is_digit(third[k - (j + 1)]));
        }
    }
}

/// The index at which the digits that start at `start` end.
fn scan_digits(s: &Vec<char>, start: usize) -> (end: usize)
    requires
        start <= s.len(),
    ensures
        digits_end_at(s@, start as int, end as int),
{
    let mut k: usize = start;
    while k < s.len() && '0' <= s[k] && s[k] <= '9'
        invariant
            start <= k <= s.len(),
            forall|m: int| start <= m < k ==> is_digit(#[trigger] s@[m]),
        decreases s.len() - k,
    {
        k += 1;
    }
    k
}

/// Whether the digits `s[start..end]` are a number without a leading zero.
fn is_number_between(s: &Vec<char>, start: usize, end: usize) -> (r: bool)
    requires
        digits_end_at(s@, start as int, end as int),
    ensures
        r == is_numeric_identifier(s@.subrange(start as int, end as int)),
{
    let part = Ghost(s@.subrange(start as int, end as int));
    if end == start {
        return false;
    }
    assert(all_digits(part@)) by {
        assert forall|k: int| 0 <= k < part@.len() implies is_digit(#[trigger] part@[k]) by {
            assert(part@[k] == s@[start + k]);
        }
    }
    assert(part@[0] == s@[start as int]);
    end - start == 1 || s[start] != '0'
}

/// Whether `s` is written `x.y.z`, with three numbers.
pub fn is_core_chars(s: &Vec<char>) -> (r: bool)
    ensures
        r == is_version_core(s@),
{
    let a = scan_digits(s, 0);
    if a >= s.len() {
        assert(!is_version_core(s@)) by {
            assert forall|i: int, j: int| !is_core_split(s@, i, j) by {
                if is_core_split(s@, i, j) {
                    lemma_split_is_forced(s@, i, j, a as int, 0, 0);
                }
            }
        }
        return false;
    }
    let b = scan_digits(s, a + 1);
    if b >= s.len() {
        assert(!is_version_core(s@)) by {
            assert forall|i: int, j: int| !is_core_split(s@, i, j) by {
                if is_core_split(s@, i, j) {
                    lemma_split_is_forced(s@, i, j, a as int, b as int, 0);
                }
            }
        }
        return false;
    }
    let c = scan_digits(s, b + 1);
    let shaped = s[a] == '.' && s[b] == '.' && c == s.len();
    let first = is_number_between(s, 0, a);
    let second = is_number_between(s, a + 1, b);
    let third = is_number_between(s, b + 1, c);
    let r = shaped && first && second && third;
    proof {
        if r {
            assert(is_core_split(s@, a as int, b as int));
        } else {
            assert forall|i: int, j: int| !is_core_split(s@, i, j) by {
                if is_core_split(s@, i, j) {
                    lemma_split_is_forced(s@, i, j, a as int, b as int, c as int);
                }
            }
        }
    }
    r
}

/// Every character of a list of identifiers is a letter, a digit, a hyphen
/// or a full stop, and the list is not empty.
pub proof fn lemma_identifier_list_chars(s: Seq<char>, strict: bool)
    requires
        is_identifier_list(s, strict),
    ensures
        s.len() > 0,
        forall|k: int| 0 <= k < s.len() ==> is_identifier_char(#[trigger] s[k]) || s[k] == '.',
    decreases s.len(),
{
    let d = choose|d: int|
        0 < d <= s.len() && #[trigger] is_identifier(s.take(d), strict) && (d == s.len() || (s[d]
            == '.' && is_identifier_list(s.skip(d + 1), strict)));
    if d < s.len() {
        lemma_identifier_list_chars(s.skip(d + 1), strict);
    }
    assert forall|k: int| 0 <= k < s.len() implies is_identifier_char(#[trigger] s[k]) || s[k]
        == '.' by {
        if k < d {
            assert(is_identifier_char(s.take(d)[k]));
        } else if k > d {
            assert(s.skip(d + 1)[k - (d + 1)] == s[k]);
        }
    }
}

/// A semantic version starts with a digit, is at least five characters long,
/// and holds only letters, digits, hyphens, full stops and plus signs.
pub proof fn lemma_semver_chars(s: Seq<char>)
    requires
        is_semver(s),
    ensures
        s.len() >= 5,
        is_digit(s[0]),
        forall|k: int| 0 <= k < s.len() ==> is_version_char(#[trigger] s[k]),
{
    let (a, b) = choose|a: int, b: int| is_semver_parts(s, a, b);
    let core = s.take(a);
    lemma_core_chars(core);
    assert(core[0] == s[0]);
    if a < b {
        lemma_identifier_list_chars(s.subrange(a + 1, b), true);
    }
    if b < s.len() {
        lemma_identifier_list_chars(s.subrange(b + 1, s.len() as int), false);
    }
    assert forall|k: int| 0 <= k < s.len() implies is_version_char(#[trigger] s[k]) by {
        if k < a {
            assert(core[k] == s[k]);
        } else if a < k < b {
            assert(s.subrange(a + 1, b)[k - (a + 1)] == s[k]);
        } else if b < k {
            assert(s.subrange(b + 1, s.len() as int)[k - (b + 1)] == s[k]);
        }
    }
}

/// The first identifier of a list ends at the first full stop, or with the list.
proof fn lemma_list_split_is_forced(t: Seq<char>, d: int, e: int, strict: bool)
    requires
        0 <= e <= t.len(),
        forall|k: int| 0 <= k < e ==> #[trigger] t[k] != '.',
        e == t.len() || t[e] == '.',
        0 < d <= t.len(),
        is_identifier(t.take(d), strict),
        d == t.len() || t[d] == '.',
    ensures
        d == e,
{
    if e < d {
        assert(is_identifier_char(t.take(d)[e]));
    }
}

/// The core of a semantic version ends at the first character that is
/// neither a digit nor a full stop, and its pre-release identifiers end at
/// the first plus sign after that.
proof fn lemma_parts_are_forced(s: Seq<char>, a0: int, b0: int, a: int, b: int)
    requires
        is_semver_parts(s, a0, b0),
        0 <= a <= b <= s.len(),
        forall|k: int| 0 <= k < a ==> is_digit(#[trigger] s[k]) || s[k] == '.',
        a == s.len() || !(is_digit(s[a]) || s[a] == '.'),
        a < s.len() && s[a] == '-' ==> (forall|k: int| a < k < b ==> #[trigger] s[k] != '+') && (b
            == s.len() || s[b] == '+'),
        !(a < s.len() && s[a] == '-') ==> b == a,
    ensures
        a == a0,
        b == b0,
{
    let core = s.take(a0);
    lemma_core_chars(core);
    if a < a0 {
        assert(core[a] == s[a]);
    }
    if a0 < a {
        assert(is_digit(s[a0]) || s[a0] == '.');
    }
    assert(a == a0);
    if a0 < b0 {
        let pre = s.subrange(a0 + 1, b0);
        lemma_identifier_list_chars(pre, true);
        if b < b0 {
            assert(pre[b - (a0 + 1)] == s[b]);
        }
        if b0 < b {
            assert(s[b0] != '+');
        }
    }
}

/// The characters `s[from..to]`.
fn sub_chars(s: &Vec<char>, from: usize, to: usize) -> (r: Vec<char>)
    requires
        from <= to <= s.len(),
    ensures
        r@ == s@.subrange(from as int, to as int),
{
    let mut out: Vec<char> = Vec::new();
    let mut k: usize = from;
    while k < to
        invariant
            from <= k <= to <= s.len(),
            out@ == s@.subrange(from as int, k as int),
        decreases to - k,
    {
        out.push(s[k]);
        k += 1;
    }
    out
}

/// Executable form of [`is_identifier_char`].
fn char_is_identifier_char(c: char) -> (r: bool)
    ensures
        r == is_identifier_char(c),
{
    ('0' <= c && c <= '9') || ('a' <= c && c <= 'z') || ('A' <= c && c <= 'Z') || c == '-'
}

/// Executable form of [`is_identifier`].
fn is_identifier_chars(s: &Vec<char>, strict: bool) -> (r: bool)
    ensures
        r == is_identifier(s@, strict),
{
    if s.len() == 0 {
        return false;
    }
    let mut digits_only = true;
    let mut k: usize = 0;
    while k < s.len()
        invariant
            k <= s.len(),
            forall|m: int| 0 <= m < k ==> is_identifier_char(#[trigger] s@[m]),
            digits_only == (forall|m: int| 0 <= m < k ==> is_digit(#[trigger] s@[m])),
        decreases s.len() - k,
    {
        if !char_is_identifier_char(s[k]) {
            return false;
        }
        if !('0' <= s[k] && s[k] <= '9') {
            digits_only = false;
        }
        k += 1;
    }
    !(strict && digits_only) || s.len() == 1 || s[0] != '0'
}

/// Executable form of [`is_identifier_list`].
fn is_identifier_list_chars(s: &Vec<char>, strict: bool) -> (r: bool)
    ensures
        r == is_identifier_list(s@, strict),
{
    let mut pos: usize = 0;
    assert(s@.skip(0) =~= s@);
    loop
        invariant
            pos <= s.len(),
            is_identifier_list(s@, strict) == is_identifier_list(s@.skip(pos as int), strict),
        decreases s.len() - pos,
    {
        let mut e: usize = pos;
        while e < s.len() && s[e] != '.'
            invariant
                pos <= e <= s.len(),
                forall|k: int| pos <= k < e ==> #[trigger] s@[k] != '.',
            decreases s.len() - e,
        {
            e += 1;
        }
        let segment = sub_chars(s, pos, e);
        let ok = is_identifier_chars(&segment, strict);
        let ghost t = s@.skip(pos as int);
        let ghost w = e - pos;
        proof {
            assert(t.take(w) =~= segment@);
            assert(forall|k: int| 0 <= k < w ==> #[trigger] t[k] == s@[pos + k]);
            assert forall|d: int|
                0 < d <= t.len() && #[trigger] is_identifier(t.take(d), strict) && (d == t.len()
                    || t[d] == '.') implies d == w by {
                lemma_list_split_is_forced(t, d, w, strict);
            }
        }
        if !ok {
            return false;
        }
        if e == s.len() {
            assert(is_identifier(t.take(w), strict));
            return true;
        }
        proof {
            assert(t.skip(w + 1) =~= s@.skip(e + 1));
            if is_identifier_list(s@.skip(e + 1), strict) {
                assert(is_identifier(t.take(w), strict));
                assert(is_identifier_list(t, strict));
            }
        }
        pos = e + 1;
    }
}

/// The first index from `from` on whose character is `stop`, or the length.
fn scan_to(s: &Vec<char>, from: usize, stop: char) -> (r: usize)
    requires
        from <= s.len(),
    ensures
        from <= r <= s.len(),
        forall|k: int| from <= k < r ==> #[trigger] s@[k] != stop,
        r == s.len() || s@[r as int] == stop,
{
    let mut k: usize = from;
    while k < s.len() && s[k] != stop
        invariant
            from <= k <= s.len(),
            forall|m: int| from <= m < k ==> #[trigger] s@[m] != stop,
        decreases s.len() - k,
    {
        k += 1;
    }
    k
}

/// Whether `s` is a semantic version.
pub fn is_semver_chars(s: &Vec<char>) -> (r: bool)
    ensures
        r == is_semver(s@),
{
    let mut a: usize = 0;
    while a < s.len() && (('0' <= s[a] && s[a] <= '9') || s[a] == '.')
        invariant
            a <= s.len(),
            forall|k: int| 0 <= k < a ==> is_digit(#[trigger] s@[k]) || s@[k] == '.',
        decreases s.len() - a,
    {
        a += 1;
    }
    let b: usize = if a < s.len() && s[a] == '-' {
        scan_to(s, a + 1, '+')
    } else {
        a
    };
    proof {
        assert forall|a0: int, b0: int| is_semver_parts(s@, a0, b0) implies a0 == a && b0 == b by {
            lemma_parts_are_forced(s@, a0, b0, a as int, b as int);
        }
    }
    let core = sub_chars(s, 0, a);
    assert(core@ =~= s@.take(a as int));
    if !is_core_chars(&core) {
        return false;
    }
    if a < b {
        let pre = sub_chars(s, a + 1, b);
        if !is_identifier_list_chars(&pre, true) {
            return false;
        }
    } else if a < s.len() && s[a] != '+' {
        return false;
    }
    if b < s.len() {
        let build = sub_chars(s, b + 1, s.len());
        if !is_identifier_list_chars(&build, false) {
            return false;
        }
    }
    assert(is_semver_parts(s@, a as int, b as int));
    true
}

/// Whether `c` separates the parts of a path.
pub fn char_is_path_separator(c: char) -> (r: bool)
    ensures
        r == is_path_separator(c),
{
    c == '/' || c == '\\'
}

/// The characters of `s` from `from` on.
fn tail_of(s: &Vec<char>, from: usize) -> (r: Vec<char>)
    requires
        from <= s.len(),
    ensures
        r@ == s@.skip(from as int),
{
    let mut out: Vec<char> = Vec::new();
    let mut k: usize = from;
    while k < s.len()
        invariant
            from <= k <= s.len(),
            out@ == s@.subrange(from as int, k as int),
        decreases s.len() - k,
    {
        out.push(s[k]);
        k += 1;
    }
    out
}

/// Executable form of [`remote_version`].
fn find_remote_version(raw: &Vec<char>, prefixes: &Vec<String>) -> (r: Option<Vec<char>>)
    ensures
        r.is_some() == remote_version(raw@, prefixes.deep_view()).is_some(),
        r matches Some(v) ==> remote_version(raw@, prefixes.deep_view()) == Some(v@) && is_semver(
            v@,
        ),
{
    if is_semver_chars(raw) {
        return Some(tail_of(raw, 0));
    }
    let ghost all = prefixes.deep_view();
    let mut n: usize = 0;
    assert(all.skip(0) =~= all);
    while n < prefixes.len()
        invariant
            n <= prefixes.len(),
            all == prefixes.deep_view(),
            !is_semver(raw@),
            strip_to_version(raw@, all) == strip_to_version(raw@, all.skip(n as int)),
        decreases prefixes.len() - n,
    {
        let prefix = chars_of(prefixes[n].as_str());
        proof {
            assert(all.skip(n as int)[0] == prefix@);
            assert(all.skip(n as int).drop_first() =~= all.skip(n + 1));
        }
        if has_prefix(raw, &prefix) {
            let rest = tail_of(raw, prefix.len());
            if is_semver_chars(&rest) {
                return Some(rest);
            }
        }
        n += 1;
    }
    None
}

/// Reads a version text, accepting the given prefixes before a version.
///
/// The result is exactly [`resolve_spec`] of the text: an error for empty text
/// and for text with a NUL in it, otherwise a version or a path.
pub fn resolve_with(raw: &str, prefixes: &Vec<String>) -> (r: Result<VersionSpec, Error>)
    ensures
        r is Ok == resolve_spec(raw@, prefixes.deep_view()) is Ok,
        r matches Ok(spec) ==> resolve_spec(raw@, prefixes.deep_view()) == Ok::<
            VersionSpecView,
            ErrorView,
        >(spec@) && spec@.wf(),
        r matches Err(e) ==> resolve_spec(raw@, prefixes.deep_view()) == Err::<
            VersionSpecView,
            ErrorView,
        >(e@),
{
    let chars = chars_of(raw);
    if chars.len() == 0 || contains_char(&chars, '\0') {
        return Err(Error::InvalidVersionSpec(string_of(&chars)));
    }
    if char_is_path_separator(chars[0]) {
        return Ok(VersionSpec::LocalPath(string_of(&chars)));
    }
    match find_remote_version(&chars, prefixes) {
        Some(v) => Ok(VersionSpec::Remote(string_of(&v))),
        None => Ok(VersionSpec::LocalPath(string_of(&chars))),
    }
}

/// The prefixes accepted before a version when none are configured.
pub fn default_prefix_list() -> (r: Vec<String>)
    ensures
        r.deep_view() == default_prefixes(),
{
    let mut list: Vec<String> = Vec::new();
    list.push("solc:".to_owned());
    list.push("v".to_owned());
    assert(list.deep_view() =~= default_prefixes());
    list
}

/// Reads a version text, accepting `solc:` or `v` before a version.
pub fn resolve(raw: &str) -> (r: Result<VersionSpec, Error>)
    ensures
        r is Ok == resolve_spec(raw@, default_prefixes()) is Ok,
        r matches Ok(spec) ==> resolve_spec(raw@, default_prefixes()) == Ok::<
            VersionSpecView,
            ErrorView,
        >(spec@) && spec@.wf(),
        r matches Err(e) ==> resolve_spec(raw@, default_prefixes()) == Err::<
            VersionSpecView,
            ErrorView,
        >(e@),
{
    let prefixes = default_prefix_list();
    resolve_with(raw, &prefixes)
}

/// A semantic version means that version, whatever prefixes are accepted.
pub proof fn lemma_version_resolves_to_remote(v: Seq<char>, prefixes: Seq<Seq<char>>)
    requires
        is_semver(v),
    ensures
        resolve_spec(v, prefixes) == Ok::<VersionSpecView, ErrorView>(VersionSpecView::Remote(v)),
{
    lemma_semver_chars(v);
    assert(!v.contains('\0')) by {
        if v.contains('\0') {
            let k = choose|k: int| 0 <= k < v.len() && v[k] == '\0';
            assert(is_version_char(v[k]));
        }
    }
}

/// Text that begins with a path separator, and holds no NUL, means the path
/// that it spells, whatever prefixes are accepted.
pub proof fn lemma_separator_resolves_to_path(s: Seq<char>, prefixes: Seq<Seq<char>>)
    requires
        s.len() > 0,
        is_path_separator(s[0]),
        !s.contains('\0'),
    ensures
        resolve_spec(s, prefixes) == Ok::<VersionSpecView, ErrorView>(
            VersionSpecView::LocalPath(s),
        ),
{
}

/// Text is refused exactly when it is empty or holds a NUL.
pub proof fn lemma_refused_texts(raw: Seq<char>, prefixes: Seq<Seq<char>>)
    ensures
        resolve_spec(raw, prefixes) is Err <==> raw.len() == 0 || raw.contains('\0'),
{
}

} // verus!
