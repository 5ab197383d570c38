//! The value/path resolver's data model: dot-separated path expressions over
//! the most recent response, and `$name` variable references in step
//! payloads. An empty path or the sentinel segment addresses the whole
//! response; a numeric segment indexes an array positionally.

use crate::text::chars_of;
use crate::version::{digits_val, valid_segment};
use vstd::prelude::*;

verus! {

/// One path segment.
#[derive(Clone, PartialEq, Eq, Debug)]
pub enum PathSeg {
    /// A named field of an object.
    Key(String),
    /// A positional index into an array.
    Index(u64),
    /// The whole response (the `$body` sentinel).
    Whole,
}

pub enum PathSegV {
    Key(Seq<char>),
    Index(u64),
    Whole,
}

impl View for PathSeg {
    type V = PathSegV;

    open spec fn view(&self) -> PathSegV {
        match self {
            PathSeg::Key(k) => PathSegV::Key(k@),
            PathSeg::Index(i) => PathSegV::Index(*i),
            PathSeg::Whole => PathSegV::Whole,
        }
    }
}

pub open spec fn segs_view(v: Vec<PathSeg>) -> Seq<PathSegV> {
    Seq::new(
        v.len() as nat,
        |i: int|
            if 0 <= i < v.len() {
                v[i]@
            } else {
                PathSegV::Whole
            },
    )
}

/// Index of the first `'.'` at or after `i`, or `s.len()`.
pub open spec fn next_dot(s: Seq<char>, i: int) -> int
    decreases s.len() - i,
{
    if i < 0 || i >= s.len() {
        s.len() as int
    } else if s[i] == '.' {
        i
    } else {
        next_dot(s, i + 1)
    }
}

pub proof fn lemma_next_dot_bounds(s: Seq<char>, i: int)
    requires
        0 <= i <= s.len(),
    ensures
        i <= next_dot(s, i) <= s.len(),
        next_dot(s, i) < s.len() ==> s[next_dot(s, i)] == '.',
        forall|k: int| i <= k < next_dot(s, i) ==> s[k] != '.',
    decreases s.len() - i,
{
    if i >= s.len() {
    } else if s[i] == '.' {
    } else {
        lemma_next_dot_bounds(s, i + 1);
    }
}

/// Meaning of one segment: digits index an array, the sentinel addresses the
/// whole response, anything else names a field.
pub open spec fn classify_segment(seg: Seq<char>) -> PathSegV {
    if valid_segment(seg) {
        PathSegV::Index(digits_val(seg) as u64)
    } else if seg == "$body"@ {
        PathSegV::Whole
    } else {
        PathSegV::Key(seg)
    }
}

/// Meaning of the non-empty path text from `i` on: dot-separated segments,
/// none empty.
pub open spec fn spec_parse_segs(s: Seq<char>, i: int) -> Option<Seq<PathSegV>>
    decreases s.len() - i,
{
    let d = next_dot(s, i);
    if d < i {
        None
    } else {
        let seg = s.subrange(i, d);
        if seg.len() == 0 {
            None
        } else {
            let sv = classify_segment(seg);
            if d >= s.len() {
                Some(seq![sv])
            } else {
                match spec_parse_segs(s, d + 1) {
                    Some(rest) => Some(seq![sv] + rest),
                    None => None,
                }
            }
        }
    }
}

/// Canonical meaning of a path expression: the empty path is the whole
/// response; otherwise every dot-separated segment must be non-empty.
pub open spec fn spec_parse_path(s: Seq<char>) -> Option<Seq<PathSegV>> {
    if s.len() == 0 {
        Some(Seq::empty())
    } else {
        spec_parse_segs(s, 0)
    }
}

/// Parse a path expression; `None` exactly on paths with an empty segment.
#[verifier::loop_isolation(false)]
pub fn parse_path(s: &str) -> (r: Option<Vec<PathSeg>>)
    ensures
        match r {
            Some(v) => spec_parse_path(s@) == Some(segs_view(v)),
            None => spec_parse_path(s@) == None::<Seq<PathSegV>>,
        },
{
    let chars = chars_of(s);
    let n: usize = chars.len();
    if n == 0 {
        let out: Vec<PathSeg> = Vec::new();
        assert(segs_view(out) =~= Seq::<PathSegV>::empty());
        return Some(out);
    }
    let mut out: Vec<PathSeg> = Vec::new();
    let mut start: usize = 0;
    loop
        invariant
            0 <= start <= n,
            n == s@.len() && n > 0,
            chars@ == s@,
            spec_parse_segs(s@, 0) == (match spec_parse_segs(s@, start as int) {
                Some(rest) => Some(segs_view(out) + rest),
                None => None::<Seq<PathSegV>>,
            }),
        decreases n - start,
    {
        // Find the end of this segment.
        let mut d: usize = start;
        while d < n && chars[d] != '.'
            invariant
                start <= d <= n,
                forall|k: int| start <= k < d ==> s@[k] != '.',
            decreases n - d,
        {
            d = d + 1;
        }
        proof {
            lemma_next_dot_bounds(s@, start as int);
            if d < n {
                assert(s@[d as int] == '.');
            }
            assert(next_dot(s@, start as int) == d) by {
                let nd = next_dot(s@, start as int);
                if nd < d {
                    assert(s@[nd] != '.');
                } else if nd > d {
                    assert(s@[d as int] != '.');
                }
            }
        }
        if d == start {
            return None;
        }
        let ghost seg = s@.subrange(start as int, d as int);
        let sv: PathSeg = match crate::version::parse_segment_value(&chars, start, d) {
            Some(value) => PathSeg::Index(value),
            None => {
                let txt = s.substring_char(start, d);
                assert(txt@ == seg);
                if crate::text::str_eq(txt, "$body") {
                    PathSeg::Whole
                } else {
                    PathSeg::Key(String::from_str(txt))
                }
            },
        };
        assert(sv@ == classify_segment(seg));
        let ghost out_pre = out;
        out.push(sv);
        proof {
            assert(forall|k: int|
                0 <= k < out_pre.len() ==> out[k] == out_pre[k] && #[trigger] segs_view(out)[k]
                    == out[k]@ && segs_view(out_pre)[k] == out_pre[k]@);
            assert(segs_view(out) =~= segs_view(out_pre) + seq![sv@]);
            if d < n {
                if let Some(rest) = spec_parse_segs(s@, d + 1) {
                    assert(segs_view(out_pre) + (seq![sv@] + rest) =~= segs_view(out) + rest);
                }
            } else {
                assert(segs_view(out_pre) + seq![sv@] =~= segs_view(out));
            }
        }
        if d == n {
            proof {
                assert(spec_parse_segs(s@, start as int) == Some(seq![sv@]));
            }
            return Some(out);
        }
        start = d + 1;
        if start >= n {
            // A trailing dot leaves an empty final segment.
            proof {
                assert(next_dot(s@, start as int) == n) by {
                    lemma_next_dot_bounds(s@, start as int);
                }
                assert(s@.subrange(start as int, n as int).len() == 0);
            }
            return None;
        }
    }
}

/// Whether a scalar is a `$name` variable reference: a `$` followed by at
/// least one character of a bare name (letters, digits, underscore).
pub open spec fn is_variable_ref(s: Seq<char>) -> bool {
    s.len() >= 2 && s[0] == '$' && (forall|k: int|
        1 <= k < s.len() ==> is_name_char(#[trigger] s[k]))
}

pub open spec fn is_name_char(c: char) -> bool {
    ('a' <= c && c <= 'z') || ('A' <= c && c <= 'Z') || ('0' <= c && c <= '9') || c == '_'
}

/// The name a variable reference binds, without the `$`.
pub open spec fn ref_name(s: Seq<char>) -> Seq<char> {
    s.skip(1)
}

/// Recognize a `$name` variable reference.
#[verifier::loop_isolation(false)]
pub fn check_variable_ref(s: &str) -> (r: bool)
    ensures
        r == is_variable_ref(s@),
{
    let n: usize = s.unicode_len();
    if n < 2 {
        return false;
    }
    if s.get_char(0) != '$' {
        return false;
    }
    let mut i: usize = 1;
    while i < n
        invariant
            1 <= i <= n,
            n == s@.len(),
            forall|k: int| 1 <= k < i ==> is_name_char(#[trigger] s@[k]),
        decreases n - i,
    {
        let c = s.get_char(i);
        if !(('a' <= c && c <= 'z') || ('A' <= c && c <= 'Z') || ('0' <= c && c <= '9') || c
            == '_') {
            return false;
        }
        i = i + 1;
    }
    true
}

} // verus!
