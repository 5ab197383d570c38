//! Translator for the DSL's extended regular-expression dialect: patterns are
//! written `/.../flags`, may span lines, and outside character classes permit
//! literal whitespace and `#`-to-end-of-line comments for readability. The
//! translation strips that free-spacing sugar, leaves character classes
//! verbatim, and maps the trailing flag letters to the target dialect.

use crate::text::{chars_of, string_from_chars};
use vstd::prelude::*;

verus! {

#[derive(Clone, Copy, PartialEq, Eq, Structural, Debug)]
pub enum RegexError {
    /// The pattern does not begin with the `/` delimiter.
    NotDelimited,
    /// No unescaped terminating `/` was found.
    MissingDelimiter,
    /// A trailing flag letter outside the supported set.
    UnsupportedFlag,
}

/// Scanning mode of the free-spacing stripper.
#[derive(Clone, Copy, PartialEq, Eq, Structural, Debug)]
pub enum Mode {
    Outside,
    InClass,
    InComment,
}

pub open spec fn is_pattern_ws(c: char) -> bool {
    c == ' ' || c == '\t' || c == '\n' || c == '\r'
}

/// Index of the terminating unescaped `/` at or after `i`, or `s.len()` if
/// the pattern is unterminated.
pub open spec fn delim_end(s: Seq<char>, i: int) -> int
    decreases s.len() - i,
{
    if i < 0 || i >= s.len() {
        s.len() as int
    } else if s[i] == '\\' {
        if i + 1 < s.len() {
            delim_end(s, i + 2)
        } else {
            s.len() as int
        }
    } else if s[i] == '/' {
        i
    } else {
        delim_end(s, i + 1)
    }
}

/// The free-spacing transform over the pattern body: outside a class, drop
/// unescaped whitespace and `#`-to-end-of-line comments; inside a class, copy
/// everything verbatim; an escape always copies both characters.
pub open spec fn strip_free_spacing(b: Seq<char>, i: int, m: Mode) -> Seq<char>
    decreases b.len() - i,
{
    if i < 0 || i >= b.len() {
        Seq::empty()
    } else {
        let c = b[i];
        match m {
            Mode::InComment => {
                if c == '\n' {
                    strip_free_spacing(b, i + 1, Mode::Outside)
                } else {
                    strip_free_spacing(b, i + 1, Mode::InComment)
                }
            },
            Mode::InClass => {
                if c == '\\' && i + 1 < b.len() {
                    seq![c, b[i + 1]] + strip_free_spacing(b, i + 2, Mode::InClass)
                } else if c == ']' {
                    seq![c] + strip_free_spacing(b, i + 1, Mode::Outside)
                } else {
                    seq![c] + strip_free_spacing(b, i + 1, Mode::InClass)
                }
            },
            Mode::Outside => {
                if c == '\\' && i + 1 < b.len() {
                    seq![c, b[i + 1]] + strip_free_spacing(b, i + 2, Mode::Outside)
                } else if c == '[' {
                    seq![c] + strip_free_spacing(b, i + 1, Mode::InClass)
                } else if is_pattern_ws(c) {
                    strip_free_spacing(b, i + 1, Mode::Outside)
                } else if c == '#' {
                    strip_free_spacing(b, i + 1, Mode::InComment)
                } else {
                    seq![c] + strip_free_spacing(b, i + 1, Mode::Outside)
                }
            },
        }
    }
}

/// The supported trailing flags: `i` (case-insensitive) and `x` (the
/// free-spacing mode, consumed by the translation itself).
pub open spec fn flags_supported(f: Seq<char>) -> bool {
    forall|k: int| 0 <= k < f.len() ==> (#[trigger] f[k] == 'i' || f[k] == 'x')
}

pub open spec fn flags_case_insensitive(f: Seq<char>) -> bool {
    exists|k: int| 0 <= k < f.len() && #[trigger] f[k] == 'i'
}

/// Canonical meaning of a whole `/.../flags` literal: the stripped body and
/// whether matching is case-insensitive in the target dialect.
pub open spec fn spec_translate(s: Seq<char>) -> Result<(Seq<char>, bool), RegexError> {
    if s.len() == 0 || s[0] != '/' {
        Err(RegexError::NotDelimited)
    } else {
        let e = delim_end(s, 1);
        if e == s.len() {
            Err(RegexError::MissingDelimiter)
        } else {
            let body = s.subrange(1, e);
            let flags = s.skip(e + 1);
            if !flags_supported(flags) {
                Err(RegexError::UnsupportedFlag)
            } else {
                Ok((strip_free_spacing(body, 0, Mode::Outside), flags_case_insensitive(flags)))
            }
        }
    }
}

/// Translate one extended-dialect pattern literal. The result is the pattern
/// with free-spacing sugar stripped (classes preserved verbatim) and the
/// normalized case-insensitivity flag; errors exactly as `spec_translate`.
#[verifier::loop_isolation(false)]
pub fn translate_pattern(s: &str) -> (r: Result<(String, bool), RegexError>)
    ensures
        match r {
            Ok(p) => spec_translate(s@) == Ok::<(Seq<char>, bool), RegexError>((p.0@, p.1)),
            Err(e) => spec_translate(s@) == Err::<(Seq<char>, bool), RegexError>(e),
        },
{
    let chars = chars_of(s);
    let n: usize = chars.len();
    if n == 0 || chars[0] != '/' {
        return Err(RegexError::NotDelimited);
    }

    // Find the terminating unescaped delimiter.
    let mut i: usize = 1;
    while i < n && chars[i] != '/'
        invariant
            1 <= i,
            n == s@.len(),
            chars@ == s@,
            delim_end(s@, 1) == delim_end(s@, i as int),
        decreases n - i,
    {
        if chars[i] == '\\' {
            if i + 1 < n {
                i = i + 2;
            } else {
                i = i + 1;
            }
        } else {
            i = i + 1;
        }
    }
    if i >= n {
        assert(delim_end(s@, 1) == s@.len());
        return Err(RegexError::MissingDelimiter);
    }
    let e: usize = i;
    assert(delim_end(s@, 1) == e);

    // Check the flags and collect case-insensitivity.
    let ghost flags = s@.skip(e + 1);
    let mut ci: bool = false;
    let mut k: usize = e + 1;
    while k < n
        invariant
            e + 1 <= k <= n,
            n == s@.len(),
            chars@ == s@,
            flags == s@.skip(e + 1),
            forall|w: int| 0 <= w < k - e - 1 ==> (#[trigger] flags[w] == 'i' || flags[w] == 'x'),
            ci == exists|w: int| 0 <= w < k - e - 1 && #[trigger] flags[w] == 'i',
        decreases n - k,
    {
        let c = chars[k];
        assert(flags[k - e - 1] == s@[k as int]);
        if c == 'i' {
            ci = true;
        } else if c == 'x' {
        } else {
            assert(!flags_supported(flags));
            return Err(RegexError::UnsupportedFlag);
        }
        k = k + 1;
    }
    assert(flags_supported(flags));
    assert(ci == flags_case_insensitive(flags));

    // Strip free-spacing sugar from the body.
    let ghost body = s@.subrange(1, e as int);
    let mut out: Vec<char> = Vec::new();
    let mut mode: Mode = Mode::Outside;
    let mut j: usize = 1;
    while j < e
        invariant
            1 <= j <= e < n,
            n == s@.len(),
            chars@ == s@,
            body == s@.subrange(1, e as int),
            strip_free_spacing(body, 0, Mode::Outside) =~= out@ + strip_free_spacing(
                body,
                j - 1,
                mode,
            ),
        decreases e - j,
    {
        let c = chars[j];
        assert(body[j - 1] == s@[j as int]);
        let ghost pre_out = out@;
        match mode {
            Mode::InComment => {
                if c == '\n' {
                    mode = Mode::Outside;
                } else {
                }
                j = j + 1;
            },
            Mode::InClass => {
                if c == '\\' && j + 1 < e {
                    assert(body[j as int] == s@[j + 1]);
                    out.push(c);
                    let c2 = chars[j + 1];
                    out.push(c2);
                    j = j + 2;
                    assert(pre_out + seq![c, c2] + strip_free_spacing(body, j - 1, mode)
                        =~= pre_out + (seq![c, c2] + strip_free_spacing(body, j - 1, mode)));
                } else if c == ']' {
                    out.push(c);
                    mode = Mode::Outside;
                    j = j + 1;
                    assert(pre_out + seq![c] + strip_free_spacing(body, j - 1, mode) =~= pre_out
                        + (seq![c] + strip_free_spacing(body, j - 1, mode)));
                } else {
                    out.push(c);
                    j = j + 1;
                    assert(pre_out + seq![c] + strip_free_spacing(body, j - 1, mode) =~= pre_out
                        + (seq![c] + strip_free_spacing(body, j - 1, mode)));
                }
            },
            Mode::Outside => {
                if c == '\\' && j + 1 < e {
                    assert(body[j as int] == s@[j + 1]);
                    out.push(c);
                    let c2 = chars[j + 1];
                    out.push(c2);
                    j = j + 2;
                    assert(pre_out + seq![c, c2] + strip_free_spacing(body, j - 1, mode)
                        =~= pre_out + (seq![c, c2] + strip_free_spacing(body, j - 1, mode)));
                } else if c == '[' {
                    out.push(c);
                    mode = Mode::InClass;
                    j = j + 1;
                    assert(pre_out + seq![c] + strip_free_spacing(body, j - 1, mode) =~= pre_out
                        + (seq![c] + strip_free_spacing(body, j - 1, mode)));
                } else if c == ' ' || c == '\t' || c == '\n' || c == '\r' {
                    j = j + 1;
                } else if c == '#' {
                    mode = Mode::InComment;
                    j = j + 1;
                } else {
                    out.push(c);
                    j = j + 1;
                    assert(pre_out + seq![c] + strip_free_spacing(body, j - 1, mode) =~= pre_out
                        + (seq![c] + strip_free_spacing(body, j - 1, mode)));
                }
            },
        }
    }
    assert(strip_free_spacing(body, j - 1, mode) =~= Seq::<char>::empty());
    assert(out@ =~= strip_free_spacing(body, 0, Mode::Outside));
    let pat = string_from_chars(out);
    Ok((pat, ci))
}

} // verus!
