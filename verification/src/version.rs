//! Semantic versions and inclusive version ranges, as the skip policy uses
//! them: a version is compared by its release triple alone, with any
//! pre-release or build qualifier stripped before the comparison.

use crate::text::chars_of;
use vstd::prelude::*;

verus! {

/// A semantic version reduced to its release triple. Pre-release and build
/// qualifiers are stripped at parse time, so snapshot builds compare exactly
/// as their release counterpart.
#[derive(Clone, Copy, PartialEq, Eq, Structural, Debug)]
pub struct Version {
    pub major: u64,
    pub minor: u64,
    pub patch: u64,
}

/// Lexicographic order on (major, minor, patch).
pub open spec fn version_le_spec(a: Version, b: Version) -> bool {
    if a.major != b.major {
        a.major < b.major
    } else if a.minor != b.minor {
        a.minor < b.minor
    } else {
        a.patch <= b.patch
    }
}

impl Version {
    /// `self <= other` in the lexicographic order on the release triple.
    pub fn le(&self, other: &Version) -> (r: bool)
        ensures
            r == version_le_spec(*self, *other),
    {
        if self.major != other.major {
            self.major < other.major
        } else if self.minor != other.minor {
            self.minor < other.minor
        } else {
            self.patch <= other.patch
        }
    }
}

pub open spec fn is_ascii_digit_spec(c: char) -> bool {
    '0' <= c && c <= '9'
}

pub open spec fn digit_val(c: char) -> nat {
    (c as u32 - '0' as u32) as nat
}

/// Value of a digit string read in base ten.
pub open spec fn digits_val(s: Seq<char>) -> nat
    decreases s.len(),
{
    if s.len() == 0 {
        0
    } else {
        digits_val(s.drop_last()) * 10 + digit_val(s.last())
    }
}

pub open spec fn all_digits(s: Seq<char>) -> bool {
    forall|i: int| 0 <= i < s.len() ==> is_ascii_digit_spec(#[trigger] s[i])
}

/// A version segment: at least one digit, value within `u64`.
pub open spec fn valid_segment(s: Seq<char>) -> bool {
    s.len() > 0 && all_digits(s) && digits_val(s) <= u64::MAX
}

/// Index of the first occurrence of `c` in `s`, or `s.len()` if absent.
pub open spec fn first_index(s: Seq<char>, c: char) -> int
    decreases s.len(),
{
    if s.len() == 0 {
        0
    } else if s[0] == c {
        0
    } else {
        1 + first_index(s.drop_first(), c)
    }
}

pub proof fn lemma_first_index(s: Seq<char>, c: char, m: int)
    requires
        0 <= m <= s.len(),
        forall|k: int| 0 <= k < m ==> s[k] != c,
        m < s.len() ==> s[m] == c,
    ensures
        first_index(s, c) == m,
    decreases s.len(),
{
    if m == 0 {
    } else {
        assert(s[0] != c);
        assert forall|k: int| 0 <= k < m - 1 implies s.drop_first()[k] != c by {
            assert(s.drop_first()[k] == s[k + 1]);
        }
        assert(m - 1 < s.drop_first().len() ==> s.drop_first()[m - 1] == s[m]);
        lemma_first_index(s.drop_first(), c, m - 1);
    }
}

pub open spec fn is_qualifier_start(c: char) -> bool {
    c == '-' || c == '+'
}

/// Index where a pre-release or build qualifier begins, or `s.len()` if none.
pub open spec fn qual_start(s: Seq<char>) -> int
    decreases s.len(),
{
    if s.len() == 0 {
        0
    } else if is_qualifier_start(s[0]) {
        0
    } else {
        1 + qual_start(s.drop_first())
    }
}

pub proof fn lemma_qual_start(s: Seq<char>, m: int)
    requires
        0 <= m <= s.len(),
        forall|k: int| 0 <= k < m ==> !is_qualifier_start(#[trigger] s[k]),
        m < s.len() ==> is_qualifier_start(s[m]),
    ensures
        qual_start(s) == m,
    decreases s.len(),
{
    if m == 0 {
    } else {
        assert(!is_qualifier_start(s[0]));
        assert forall|k: int| 0 <= k < m - 1 implies !is_qualifier_start(#[trigger] s.drop_first()[k]) by {
            assert(s.drop_first()[k] == s[k + 1]);
        }
        assert(m - 1 < s.drop_first().len() ==> s.drop_first()[m - 1] == s[m]);
        lemma_qual_start(s.drop_first(), m - 1);
    }
}

pub proof fn lemma_qual_start_bounds(s: Seq<char>)
    ensures
        0 <= qual_start(s) <= s.len(),
        forall|k: int| 0 <= k < qual_start(s) ==> !is_qualifier_start(#[trigger] s[k]),
    decreases s.len(),
{
    if s.len() == 0 {
    } else if is_qualifier_start(s[0]) {
    } else {
        lemma_qual_start_bounds(s.drop_first());
        assert forall|k: int| 0 <= k < qual_start(s) implies !is_qualifier_start(#[trigger] s[k]) by {
            if k > 0 {
                assert(s.drop_first()[k - 1] == s[k]);
            }
        }
    }
}

/// The version text up to (not including) any qualifier.
pub open spec fn strip_qualifiers(s: Seq<char>) -> Seq<char> {
    s.take(qual_start(s))
}

/// Canonical meaning of a version string: strip the qualifier, then read
/// exactly three dot-separated digit segments.
pub open spec fn spec_parse_version(s: Seq<char>) -> Option<Version> {
    let t = strip_qualifiers(s);
    let i = first_index(t, '.');
    if i == t.len() {
        None
    } else {
        let rest = t.skip(i + 1);
        let j = first_index(rest, '.');
        if j == rest.len() {
            None
        } else {
            let a = t.take(i);
            let b = rest.take(j);
            let c = rest.skip(j + 1);
            if first_index(c, '.') != c.len() {
                None
            } else if valid_segment(a) && valid_segment(b) && valid_segment(c) {
                Some(Version {
                    major: digits_val(a) as u64,
                    minor: digits_val(b) as u64,
                    patch: digits_val(c) as u64,
                })
            } else {
                None
            }
        }
    }
}

/// Stripping qualifiers is idempotent, so a version string parses to the same
/// triple whether or not its pre-release or build suffix is still attached.
pub proof fn lemma_parse_ignores_qualifiers(s: Seq<char>)
    ensures
        spec_parse_version(s) == spec_parse_version(strip_qualifiers(s)),
{
    lemma_qual_start_bounds(s);
    let t = strip_qualifiers(s);
    assert forall|k: int| 0 <= k < t.len() implies !is_qualifier_start(#[trigger] t[k]) by {
        assert(t[k] == s[k]);
    }
    lemma_qual_start(t, t.len() as int);
    assert(strip_qualifiers(t) =~= t);
}

/// Containment of a parsed version in a range is decided under
/// qualifier-stripped comparison alone: for any range and any version text,
/// whether the parsed version lies in the range — and whether it parses at
/// all — is independent of the text's pre-release or build suffix.
pub proof fn lemma_containment_ignores_qualifiers(rg: VersionRange, s: Seq<char>)
    ensures
        (match spec_parse_version(s) {
            Some(v) => Some(range_contains(rg, v)),
            None => None::<bool>,
        }) == (match spec_parse_version(strip_qualifiers(s)) {
            Some(v) => Some(range_contains(rg, v)),
            None => None::<bool>,
        }),
{
    lemma_parse_ignores_qualifiers(s);
}

/// Read the digit segment `t[start..end]`; `None` exactly when the segment is
/// not a valid `u64` digit string.
#[verifier::loop_isolation(false)]
pub fn parse_segment_value(t: &Vec<char>, start: usize, end: usize) -> (r: Option<u64>)
    requires
        start <= end <= t@.len(),
    ensures
        ({
            let seg = t@.subrange(start as int, end as int);
            match r {
                Some(v) => valid_segment(seg) && v == digits_val(seg),
                None => !valid_segment(seg),
            }
        }),
{
    let ghost seg = t@.subrange(start as int, end as int);
    if start == end {
        return None;
    }
    let mut acc: u128 = 0;
    let mut over: bool = false;
    let mut i: usize = start;
    while i < end
        invariant
            start <= i <= end <= t@.len(),
            seg == t@.subrange(start as int, end as int),
            all_digits(t@.subrange(start as int, i as int)),
            !over ==> acc == digits_val(t@.subrange(start as int, i as int)) && acc <= u64::MAX as u128,
            over ==> digits_val(t@.subrange(start as int, i as int)) > u64::MAX,
        decreases end - i,
    {
        let c = t[i];
        if !('0' <= c && c <= '9') {
            assert(!all_digits(seg)) by {
                assert(seg[i - start] == t@[i as int]);
            }
            return None;
        }
        let d: u128 = (c as u32 - '0' as u32) as u128;
        let ghost pre = t@.subrange(start as int, i as int);
        let ghost post = t@.subrange(start as int, i + 1 as int);
        assert(post.drop_last() =~= pre);
        assert(post.last() == t@[i as int]);
        assert(digits_val(post) == digits_val(pre) * 10 + digit_val(t@[i as int]));
        if over {
            assert(digits_val(post) > u64::MAX) by {
                assert(digits_val(pre) * 10 >= digits_val(pre)) by (nonlinear_arith);
            }
        } else {
            assert(acc * 10 + d <= u64::MAX as u128 * 10 + 9) by (nonlinear_arith)
                requires
                    acc <= u64::MAX as u128,
                    d <= 9,
            ;
            let next: u128 = acc * 10 + d;
            if next > u64::MAX as u128 {
                over = true;
                assert(digits_val(post) > u64::MAX);
            } else {
                acc = next;
            }
        }
        assert(all_digits(post)) by {
            assert(forall|k: int| 0 <= k < post.len() - 1 ==> post[k] == pre[k]);
        }
        i = i + 1;
    }
    assert(t@.subrange(start as int, i as int) =~= seg);
    if over {
        None
    } else {
        assert(valid_segment(seg));
        Some(acc as u64)
    }
}

/// Whether a string is a valid digit segment: non-empty, all digits, value
/// within `u64`.
pub fn check_segment(s: &str) -> (r: bool)
    ensures
        r == valid_segment(s@),
{
    let chars = chars_of(s);
    let n: usize = chars.len();
    assert(chars@.subrange(0, n as int) =~= s@);
    match parse_segment_value(&chars, 0, n) {
        Some(_) => true,
        None => false,
    }
}

/// Parse a version string, stripping any pre-release or build qualifier.
/// Returns `Some` exactly on strings of three dot-separated digit segments
/// (each fitting in `u64`), possibly followed by a qualifier.
#[verifier::loop_isolation(false)]
pub fn parse_version(s: &str) -> (r: Option<Version>)
    ensures
        r == spec_parse_version(s@),
{
    let chars = chars_of(s);
    let n: usize = chars.len();

    // Find where a qualifier begins.
    let mut q: usize = 0;
    while q < n && !(chars[q] == '-' || chars[q] == '+')
        invariant
            0 <= q <= n,
            n == chars@.len(),
            chars@ == s@,
            forall|k: int| 0 <= k < q ==> !is_qualifier_start(#[trigger] s@[k]),
        decreases n - q,
    {
        q = q + 1;
    }
    proof {
        lemma_qual_start(s@, q as int);
    }
    let ghost t = strip_qualifiers(s@);
    assert(t =~= s@.take(q as int));

    // First dot.
    let mut i: usize = 0;
    while i < q && chars[i] != '.'
        invariant
            0 <= i <= q <= n,
            n == chars@.len(),
            chars@ == s@,
            forall|k: int| 0 <= k < i ==> t[k] != '.',
        decreases q - i,
    {
        assert(t[i as int] == s@[i as int]);
        i = i + 1;
    }
    proof {
        if i < q {
            assert(t[i as int] == s@[i as int]);
        }
        lemma_first_index(t, '.', i as int);
    }
    if i == q {
        return None;
    }
    let ghost rest = t.skip(i + 1);
    assert(rest =~= s@.subrange(i + 1, q as int));

    // Second dot.
    let mut k: usize = i + 1;
    while k < q && chars[k] != '.'
        invariant
            i + 1 <= k <= q <= n,
            n == chars@.len(),
            chars@ == s@,
            rest == s@.subrange(i + 1, q as int),
            forall|m: int| 0 <= m < k - i - 1 ==> rest[m] != '.',
        decreases q - k,
    {
        assert(rest[k - i - 1] == s@[k as int]);
        k = k + 1;
    }
    proof {
        if k < q {
            assert(rest[k - i - 1] == s@[k as int]);
        }
        lemma_first_index(rest, '.', k - i - 1);
    }
    if k == q {
        return None;
    }
    let ghost cseg = rest.skip(k - i - 1 + 1);
    assert(cseg =~= s@.subrange(k + 1, q as int));

    // No third dot.
    let mut m: usize = k + 1;
    while m < q && chars[m] != '.'
        invariant
            k + 1 <= m <= q <= n,
            n == chars@.len(),
            chars@ == s@,
            cseg == s@.subrange(k + 1, q as int),
            forall|w: int| 0 <= w < m - k - 1 ==> cseg[w] != '.',
        decreases q - m,
    {
        assert(cseg[m - k - 1] == s@[m as int]);
        m = m + 1;
    }
    proof {
        if m < q {
            assert(cseg[m - k - 1] == s@[m as int]);
        }
        lemma_first_index(cseg, '.', m - k - 1);
    }
    if m != q {
        return None;
    }

    assert(t.take(i as int) =~= s@.subrange(0, i as int));
    assert(rest.take(k - i - 1) =~= s@.subrange(i + 1, k as int));
    let sa = parse_segment_value(&chars, 0, i);
    let sb = parse_segment_value(&chars, i + 1, k);
    let sc = parse_segment_value(&chars, k + 1, q);
    assert(chars@.subrange(0, i as int) == t.take(i as int));
    assert(chars@.subrange(i + 1, k as int) == rest.take(k - i - 1));
    assert(chars@.subrange(k + 1, q as int) == cseg);
    match (sa, sb, sc) {
        (Some(a), Some(b), Some(c)) => Some(Version { major: a, minor: b, patch: c }),
        _ => None,
    }
}

/// An inclusive interval over versions; `None` on a side means unbounded.
#[derive(Clone, Copy, PartialEq, Eq, Debug)]
pub struct VersionRange {
    pub lo: Option<Version>,
    pub hi: Option<Version>,
}

pub open spec fn range_contains(r: VersionRange, v: Version) -> bool {
    (match r.lo {
        Some(lo) => version_le_spec(lo, v),
        None => true,
    }) && (match r.hi {
        Some(hi) => version_le_spec(v, hi),
        None => true,
    })
}

impl VersionRange {
    /// Containment holds exactly when `lo <= v` and `v <= hi`, each bound
    /// waived when absent.
    pub fn contains(&self, v: &Version) -> (b: bool)
        ensures
            b == range_contains(*self, *v),
    {
        let lo_ok = match &self.lo {
            Some(lo) => lo.le(v),
            None => true,
        };
        let hi_ok = match &self.hi {
            Some(hi) => v.le(hi),
            None => true,
        };
        lo_ok && hi_ok
    }
}


/// Index of the first `" - "` separator window at or after `i`, or `s.len()`
/// if none occurs.
pub open spec fn sep_index(s: Seq<char>, i: int) -> int
    decreases s.len() - i,
{
    if i < 0 || i + 3 > s.len() {
        s.len() as int
    } else if s[i] == ' ' && s[i + 1] == '-' && s[i + 2] == ' ' {
        i
    } else {
        sep_index(s, i + 1)
    }
}

pub proof fn lemma_sep_index(s: Seq<char>, m: int)
    requires
        0 <= m <= s.len(),
        forall|k: int|
            0 <= k < m && k + 3 <= s.len() ==> !((#[trigger] s[k]) == ' ' && s[k + 1] == '-'
                && s[k + 2] == ' '),
        m + 3 <= s.len() ==> (s[m] == ' ' && s[m + 1] == '-' && s[m + 2] == ' '),
        m + 3 > s.len() ==> m == s.len(),
    ensures
        sep_index(s, 0) == if m + 3 <= s.len() { m } else { s.len() as int },
    decreases m,
{
    lemma_sep_index_from(s, 0, m);
}

proof fn lemma_sep_index_from(s: Seq<char>, i: int, m: int)
    requires
        0 <= i <= m <= s.len(),
        forall|k: int|
            i <= k < m && k + 3 <= s.len() ==> !((#[trigger] s[k]) == ' ' && s[k + 1] == '-'
                && s[k + 2] == ' '),
        m + 3 <= s.len() ==> (s[m] == ' ' && s[m + 1] == '-' && s[m + 2] == ' '),
    ensures
        sep_index(s, i) == if m + 3 <= s.len() { m } else { s.len() as int },
    decreases m - i,
{
    if i + 3 > s.len() {
    } else if i == m {
    } else {
        lemma_sep_index_from(s, i + 1, m);
    }
}

/// Which bound a range side denotes: empty text is unbounded, anything else
/// must be a version string.
pub open spec fn spec_parse_bound(t: Seq<char>) -> Option<Option<Version>> {
    if t.len() == 0 {
        Some(None)
    } else {
        match spec_parse_version(t) {
            Some(v) => Some(Some(v)),
            None => None,
        }
    }
}

/// Canonical meaning of a range string: `"all"` is unbounded on both sides;
/// otherwise `"lo - hi"` with inclusive bounds, an empty side unbounded.
pub open spec fn spec_parse_range(s: Seq<char>) -> Option<VersionRange> {
    if s == "all"@ {
        Some(VersionRange { lo: None, hi: None })
    } else {
        let i = sep_index(s, 0);
        if i == s.len() {
            None
        } else {
            match (spec_parse_bound(s.take(i)), spec_parse_bound(s.skip(i + 3))) {
                (Some(lo), Some(hi)) => Some(VersionRange { lo, hi }),
                _ => None,
            }
        }
    }
}

/// Parse one side of a range.
fn parse_bound(t: &str) -> (r: Option<Option<Version>>)
    ensures
        r == spec_parse_bound(t@),
{
    if t.unicode_len() == 0 {
        Some(None)
    } else {
        match parse_version(t) {
            Some(v) => Some(Some(v)),
            None => None,
        }
    }
}

/// Parse a version-range string; `None` exactly on malformed ranges.
#[verifier::loop_isolation(false)]
pub fn parse_range(s: &str) -> (r: Option<VersionRange>)
    ensures
        r == spec_parse_range(s@),
{
    if crate::text::str_eq(s, "all") {
        return Some(VersionRange { lo: None, hi: None });
    }
    let n: usize = s.unicode_len();
    let mut i: usize = 0;
    while n - i >= 3 && !(s.get_char(i) == ' ' && s.get_char(i + 1) == '-' && s.get_char(i + 2)
        == ' ')
        invariant
            0 <= i <= n,
            n == s@.len(),
            forall|k: int|
                0 <= k < i && k + 3 <= s@.len() ==> !((#[trigger] s@[k]) == ' ' && s@[k + 1]
                    == '-' && s@[k + 2] == ' '),
        decreases n - i,
    {
        i = i + 1;
    }
    if n - i < 3 {
        proof {
            lemma_sep_index_from(s@, 0, n as int);
        }
        return None;
    }
    proof {
        lemma_sep_index_from(s@, 0, i as int);
    }
    let lo_txt = s.substring_char(0, i);
    let hi_txt = s.substring_char(i + 3, n);
    assert(lo_txt@ == s@.take(i as int));
    assert(hi_txt@ == s@.skip(i + 3));
    match (parse_bound(lo_txt), parse_bound(hi_txt)) {
        (Some(lo), Some(hi)) => Some(VersionRange { lo, hi }),
        _ => None,
    }
}

} // verus!
