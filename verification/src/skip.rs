//! The skip resolver: evaluates the immutable global skip-policy table and a
//! case's own `Skip` step against the target version and the active feature
//! set. Exclusion is monotonic — a matching rule can only add reasons, never
//! remove one — and excluded cases keep their accumulated reasons visible.

use crate::doc::steps_view;
use crate::step::{Step, StepV};
use crate::text::str_eq;
use crate::version::{range_contains, spec_parse_range, Version};
use vstd::prelude::*;

verus! {

/// One immutable global skip rule: a suite/path pattern (`"*"` matches every
/// document), a version-range string and a reason.
#[derive(Clone, Debug)]
pub struct SkipPolicyRule {
    pub pattern: String,
    pub version_range: String,
    pub reason: String,
}

pub struct SkipRuleV {
    pub pattern: Seq<char>,
    pub version_range: Seq<char>,
    pub reason: Seq<char>,
}

impl View for SkipPolicyRule {
    type V = SkipRuleV;

    open spec fn view(&self) -> SkipRuleV {
        SkipRuleV {
            pattern: self.pattern@,
            version_range: self.version_range@,
            reason: self.reason@,
        }
    }
}

pub open spec fn rules_view(v: Vec<SkipPolicyRule>) -> Seq<SkipRuleV> {
    Seq::new(
        v.len() as nat,
        |i: int|
            if 0 <= i < v.len() {
                v[i]@
            } else {
                SkipRuleV { pattern: Seq::empty(), version_range: Seq::empty(), reason: Seq::empty() }
            },
    )
}

/// Why and whether a case is excluded; the reasons come in matching-rule
/// declaration order, the case's own `Skip` step first.
#[derive(Debug)]
pub struct Exclusion {
    pub excluded: bool,
    pub reasons: Vec<String>,
}

pub struct ExclusionV {
    pub excluded: bool,
    pub reasons: Seq<Seq<char>>,
}

impl View for Exclusion {
    type V = ExclusionV;

    open spec fn view(&self) -> ExclusionV {
        ExclusionV {
            excluded: self.excluded,
            reasons: crate::step::strings_view(self.reasons),
        }
    }
}

/// An un-evaluable skip condition: the offending range text.
#[derive(Clone, PartialEq, Eq, Debug)]
pub enum SkipError {
    BadRange(String),
}

pub enum SkipErrV {
    BadRange(Seq<char>),
}

impl View for SkipError {
    type V = SkipErrV;

    open spec fn view(&self) -> SkipErrV {
        match self {
            SkipError::BadRange(r) => SkipErrV::BadRange(r@),
        }
    }
}

pub open spec fn feature_active(active: Seq<Seq<char>>, f: Seq<char>) -> bool {
    exists|i: int| 0 <= i < active.len() && active[i] == f
}

pub open spec fn missing_feature(active: Seq<Seq<char>>, feats: Seq<Seq<char>>) -> bool {
    exists|i: int| 0 <= i < feats.len() && !feature_active(active, #[trigger] feats[i])
}

/// What one `Skip` step contributes: its reason when its version range
/// contains the target or a required feature is absent; an error when its
/// range text cannot be evaluated.
pub open spec fn skip_step_reasons(
    s: StepV,
    target: Version,
    active: Seq<Seq<char>>,
) -> Result<Seq<Seq<char>>, SkipErrV> {
    match s {
        StepV::Skip { version_range, features, reason } => {
            let ver_matched = match version_range {
                Some(r) => match spec_parse_range(r) {
                    Some(rg) => Some(range_contains(rg, target)),
                    None => None,
                },
                None => Some(false),
            };
            match ver_matched {
                None => Err(
                    SkipErrV::BadRange(
                        match version_range {
                            Some(r) => r,
                            None => Seq::empty(),
                        },
                    ),
                ),
                Some(vm) => {
                    if vm || missing_feature(active, features) {
                        Ok(seq![reason])
                    } else {
                        Ok(Seq::empty())
                    }
                },
            }
        },
        _ => Ok(Seq::empty()),
    }
}

/// Reasons the case's own steps contribute, in step order.
pub open spec fn inline_reasons_from(
    steps: Seq<StepV>,
    i: int,
    target: Version,
    active: Seq<Seq<char>>,
) -> Result<Seq<Seq<char>>, SkipErrV>
    decreases steps.len() - i,
{
    if i < 0 || i >= steps.len() {
        Ok(Seq::empty())
    } else {
        match skip_step_reasons(steps[i], target, active) {
            Err(e) => Err(e),
            Ok(now) => match inline_reasons_from(steps, i + 1, target, active) {
                Err(e) => Err(e),
                Ok(rest) => Ok(now + rest),
            },
        }
    }
}

/// What one global rule contributes: its reason when its pattern matches the
/// document and its range contains the target; an error when its range text
/// cannot be evaluated, whether or not the pattern matches.
pub open spec fn rule_reasons(
    rule: SkipRuleV,
    path: Seq<char>,
    target: Version,
) -> Result<Seq<Seq<char>>, SkipErrV> {
    match spec_parse_range(rule.version_range) {
        None => Err(SkipErrV::BadRange(rule.version_range)),
        Some(rg) => {
            if (rule.pattern == "*"@ || rule.pattern == path) && range_contains(rg, target) {
                Ok(seq![rule.reason])
            } else {
                Ok(Seq::empty())
            }
        },
    }
}

/// Reasons the global table contributes, in declaration order.
pub open spec fn global_reasons_from(
    rules: Seq<SkipRuleV>,
    i: int,
    path: Seq<char>,
    target: Version,
) -> Result<Seq<Seq<char>>, SkipErrV>
    decreases rules.len() - i,
{
    if i < 0 || i >= rules.len() {
        Ok(Seq::empty())
    } else {
        match rule_reasons(rules[i], path, target) {
            Err(e) => Err(e),
            Ok(now) => match global_reasons_from(rules, i + 1, path, target) {
                Err(e) => Err(e),
                Ok(rest) => Ok(now + rest),
            },
        }
    }
}

/// Canonical meaning of exclusion resolution: the case's own reasons first,
/// then the global table's, and excluded exactly when any reason matched.
pub open spec fn spec_resolve(
    rules: Seq<SkipRuleV>,
    path: Seq<char>,
    steps: Seq<StepV>,
    target: Version,
    active: Seq<Seq<char>>,
) -> Result<ExclusionV, SkipErrV> {
    match inline_reasons_from(steps, 0, target, active) {
        Err(e) => Err(e),
        Ok(own) => match global_reasons_from(rules, 0, path, target) {
            Err(e) => Err(e),
            Ok(glob) => Ok(ExclusionV { excluded: (own + glob).len() > 0, reasons: own + glob }),
        },
    }
}

/// Appending a rule to the global table only appends its contribution.
proof fn lemma_global_push(
    rules: Seq<SkipRuleV>,
    i: int,
    extra: SkipRuleV,
    path: Seq<char>,
    target: Version,
)
    requires
        0 <= i <= rules.len(),
    ensures
        global_reasons_from(rules.push(extra), i, path, target) == (match global_reasons_from(
            rules,
            i,
            path,
            target,
        ) {
            Err(e) => Err::<Seq<Seq<char>>, SkipErrV>(e),
            Ok(rs) => match rule_reasons(extra, path, target) {
                Err(e) => Err::<Seq<Seq<char>>, SkipErrV>(e),
                Ok(c) => Ok::<Seq<Seq<char>>, SkipErrV>(rs + c),
            },
        }),
    decreases rules.len() - i,
{
    let pushed = rules.push(extra);
    if i == rules.len() {
        assert(pushed[i] == extra);
        match rule_reasons(extra, path, target) {
            Err(_) => {},
            Ok(c) => {
                assert(global_reasons_from(pushed, i + 1, path, target) == Ok::<
                    Seq<Seq<char>>,
                    SkipErrV,
                >(Seq::empty()));
                assert(c + Seq::<Seq<char>>::empty() =~= c);
                assert(Seq::<Seq<char>>::empty() + c =~= c);
            },
        }
    } else {
        assert(pushed[i] == rules[i]);
        lemma_global_push(rules, i + 1, extra, path, target);
        match rule_reasons(rules[i], path, target) {
            Err(_) => {},
            Ok(now) => {
                match global_reasons_from(rules, i + 1, path, target) {
                    Err(_) => {},
                    Ok(rest) => {
                        match rule_reasons(extra, path, target) {
                            Err(_) => {},
                            Ok(c) => {
                                assert(now + (rest + c) =~= (now + rest) + c);
                            },
                        }
                    },
                }
            },
        }
    }
}

/// Adding a new global rule never un-excludes a case: if resolution excluded
/// the case under the old table and still succeeds under the extended table,
/// the case stays excluded, and every old reason is kept, in order.
pub proof fn lemma_skip_monotonic(
    rules: Seq<SkipRuleV>,
    extra: SkipRuleV,
    path: Seq<char>,
    steps: Seq<StepV>,
    target: Version,
    active: Seq<Seq<char>>,
)
    ensures
        ({
            let before = spec_resolve(rules, path, steps, target, active);
            let after = spec_resolve(rules.push(extra), path, steps, target, active);
            (before is Ok && after is Ok && before->Ok_0.excluded) ==> (after->Ok_0.excluded
                && before->Ok_0.reasons.is_prefix_of(after->Ok_0.reasons))
        }),
{
    lemma_global_push(rules, 0, extra, path, target);
    match inline_reasons_from(steps, 0, target, active) {
        Err(_) => {},
        Ok(own) => {
            match global_reasons_from(rules, 0, path, target) {
                Err(_) => {},
                Ok(glob) => {
                    match rule_reasons(extra, path, target) {
                        Err(_) => {},
                        Ok(c) => {
                            assert(own + (glob + c) =~= (own + glob) + c);
                            assert((own + glob).is_prefix_of((own + glob) + c));
                        },
                    }
                },
            }
        },
    }
}

/// Evaluate one step's contribution.
#[verifier::loop_isolation(false)]
fn eval_skip_step(step: &Step, target: &Version, active: &Vec<String>) -> (r: Result<
    Option<String>,
    SkipError,
>)
    ensures
        match r {
            Ok(Some(reason)) => skip_step_reasons(step@, *target, crate::step::strings_view(*active))
                == Ok::<Seq<Seq<char>>, SkipErrV>(seq![reason@]),
            Ok(None) => skip_step_reasons(step@, *target, crate::step::strings_view(*active))
                == Ok::<Seq<Seq<char>>, SkipErrV>(Seq::empty()),
            Err(e) => skip_step_reasons(step@, *target, crate::step::strings_view(*active))
                == Err::<Seq<Seq<char>>, SkipErrV>(e@),
        },
{
    let ghost av = crate::step::strings_view(*active);
    match step {
        Step::Skip { version_range, features, reason } => {
            let ver_matched: bool = match version_range {
                Some(r) => match crate::version::parse_range(r.as_str()) {
                    Some(rg) => rg.contains(target),
                    None => {
                        return Err(SkipError::BadRange(clone_string(r)));
                    },
                },
                None => false,
            };
            let mut missing: bool = false;
            let n: usize = features.len();
            let mut i: usize = 0;
            while i < n
                invariant
                    0 <= i <= n,
                    n == features.len(),
                    missing == exists|k: int|
                        0 <= k < i && !feature_active(av, #[trigger] crate::step::strings_view(
                            *features,
                        )[k]),
                decreases n - i,
            {
                let f = &features[i];
                let mut found: bool = false;
                let m: usize = active.len();
                let mut j: usize = 0;
                while j < m
                    invariant
                        0 <= j <= m,
                        m == active.len(),
                        found == exists|k: int| 0 <= k < j && av[k] == f@,
                    decreases m - j,
                {
                    if str_eq(active[j].as_str(), f.as_str()) {
                        assert(av[j as int] == f@);
                        found = true;
                    }
                    j = j + 1;
                }
                assert(found == feature_active(av, f@));
                assert(crate::step::strings_view(*features)[i as int] == f@);
                if !found {
                    missing = true;
                }
                i = i + 1;
            }
            assert(missing == missing_feature(av, crate::step::strings_view(*features)));
            if ver_matched || missing {
                Ok(Some(clone_string(reason)))
            } else {
                Ok(None)
            }
        },
        _ => Ok(None),
    }
}

/// Character-by-character copy of a string.
#[verifier::loop_isolation(false)]
pub fn clone_string(s: &String) -> (r: String)
    ensures
        r@ == s@,
{
    let st: &str = s.as_str();
    let n: usize = st.unicode_len();
    let mut out: Vec<char> = Vec::new();
    let mut i: usize = 0;
    while i < n
        invariant
            0 <= i <= n,
            n == st@.len(),
            out@ =~= st@.take(i as int),
        decreases n - i,
    {
        out.push(st.get_char(i));
        i = i + 1;
        assert(out@ =~= st@.take(i as int));
    }
    assert(out@ =~= st@);
    crate::text::string_from_chars(out)
}

/// Resolve a case's exclusion against its own `Skip` steps and the global
/// table: exactly `spec_resolve` over the case's steps.
#[verifier::loop_isolation(false)]
pub fn resolve_exclusion(
    rules: &Vec<SkipPolicyRule>,
    path: &String,
    steps: &Vec<Step>,
    target: &Version,
    active: &Vec<String>,
) -> (r: Result<Exclusion, SkipError>)
    ensures
        match r {
            Ok(e) => spec_resolve(
                rules_view(*rules),
                path@,
                steps_view(*steps),
                *target,
                crate::step::strings_view(*active),
            ) == Ok::<ExclusionV, SkipErrV>(e@) && e.excluded == (e.reasons.len() > 0),
            Err(e) => spec_resolve(
                rules_view(*rules),
                path@,
                steps_view(*steps),
                *target,
                crate::step::strings_view(*active),
            ) == Err::<ExclusionV, SkipErrV>(e@),
        },
{
    let ghost sv = steps_view(*steps);
    let ghost rv = rules_view(*rules);
    let ghost av = crate::step::strings_view(*active);
    let mut reasons: Vec<String> = Vec::new();

    let n: usize = steps.len();
    let mut i: usize = 0;
    proof {
        assert(crate::step::strings_view(reasons) =~= Seq::<Seq<char>>::empty());
    }
    while i < n
        invariant
            0 <= i <= n,
            n == steps.len(),
            inline_reasons_from(sv, 0, *target, av) == (match inline_reasons_from(
                sv,
                i as int,
                *target,
                av,
            ) {
                Ok(tail) => Ok::<Seq<Seq<char>>, SkipErrV>(
                    crate::step::strings_view(reasons) + tail,
                ),
                Err(e) => Err::<Seq<Seq<char>>, SkipErrV>(e),
            }),
        decreases n - i,
    {
        assert(sv[i as int] == steps[i as int]@);
        let ghost reasons_pre = reasons;
        match eval_skip_step(&steps[i], target, active) {
            Ok(Some(reason)) => {
                let ghost rsv = reason@;
                reasons.push(reason);
                proof {
                    assert(forall|k: int|
                        0 <= k < reasons_pre.len() ==> reasons[k] == reasons_pre[k]
                            && #[trigger] crate::step::strings_view(reasons)[k] == reasons[k]@
                            && crate::step::strings_view(reasons_pre)[k] == reasons_pre[k]@);
                    assert(crate::step::strings_view(reasons) =~= crate::step::strings_view(
                        reasons_pre,
                    ) + seq![rsv]);
                    if let Ok(tail) = inline_reasons_from(sv, i + 1, *target, av) {
                        assert(crate::step::strings_view(reasons_pre) + (seq![rsv] + tail)
                            =~= crate::step::strings_view(reasons) + tail);
                    }
                }
            },
            Ok(None) => {
                proof {
                    if let Ok(tail) = inline_reasons_from(sv, i + 1, *target, av) {
                        assert(Seq::<Seq<char>>::empty() + tail =~= tail);
                    }
                }
            },
            Err(e) => {
                return Err(e);
            },
        }
        i = i + 1;
    }
    proof {
        assert(crate::step::strings_view(reasons) + Seq::<Seq<char>>::empty()
            =~= crate::step::strings_view(reasons));
    }
    let ghost own = crate::step::strings_view(reasons);

    let m: usize = rules.len();
    let mut j: usize = 0;
    while j < m
        invariant
            0 <= j <= m,
            m == rules.len(),
            own == crate::step::strings_view(reasons).take(own.len() as int) && own.len()
                <= reasons.len(),
            inline_reasons_from(sv, 0, *target, av) == Ok::<Seq<Seq<char>>, SkipErrV>(own),
            global_reasons_from(rv, 0, path@, *target) == (match global_reasons_from(
                rv,
                j as int,
                path@,
                *target,
            ) {
                Ok(tail) => Ok::<Seq<Seq<char>>, SkipErrV>(
                    crate::step::strings_view(reasons).skip(own.len() as int) + tail,
                ),
                Err(e) => Err::<Seq<Seq<char>>, SkipErrV>(e),
            }),
        decreases m - j,
    {
        assert(rv[j as int] == rules[j as int]@);
        let rule = &rules[j];
        let ghost reasons_pre = reasons;
        let rg = match crate::version::parse_range(rule.version_range.as_str()) {
            Some(rg) => rg,
            None => {
                return Err(SkipError::BadRange(clone_string(&rule.version_range)));
            },
        };
        let pattern_hit = str_eq(rule.pattern.as_str(), "*") || str_eq(
            rule.pattern.as_str(),
            path.as_str(),
        );
        if pattern_hit && rg.contains(target) {
            let ghost rsv = rule.reason@;
            reasons.push(clone_string(&rule.reason));
            proof {
                assert(forall|k: int|
                    0 <= k < reasons_pre.len() ==> reasons[k] == reasons_pre[k]
                        && #[trigger] crate::step::strings_view(reasons)[k] == reasons[k]@
                        && crate::step::strings_view(reasons_pre)[k] == reasons_pre[k]@);
                assert(crate::step::strings_view(reasons) =~= crate::step::strings_view(
                    reasons_pre,
                ) + seq![rsv]);
                assert(crate::step::strings_view(reasons).take(own.len() as int)
                    =~= crate::step::strings_view(reasons_pre).take(own.len() as int));
                if let Ok(tail) = global_reasons_from(rv, j + 1, path@, *target) {
                    assert(crate::step::strings_view(reasons_pre).skip(own.len() as int) + (
                    seq![rsv] + tail) =~= crate::step::strings_view(reasons).skip(
                        own.len() as int,
                    ) + tail);
                }
            }
        } else {
            proof {
                if let Ok(tail) = global_reasons_from(rv, j + 1, path@, *target) {
                    assert(Seq::<Seq<char>>::empty() + tail =~= tail);
                }
            }
        }
        j = j + 1;
    }
    proof {
        assert(crate::step::strings_view(reasons).skip(own.len() as int) + Seq::<
            Seq<char>,
        >::empty() =~= crate::step::strings_view(reasons).skip(own.len() as int));
        assert(own + crate::step::strings_view(reasons).skip(own.len() as int)
            =~= crate::step::strings_view(reasons));
    }
    let excluded = reasons.len() > 0;
    Ok(Exclusion { excluded, reasons })
}

} // verus!
