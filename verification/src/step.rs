//! The step model: the fixed DSL vocabulary as a closed tagged union, with
//! the canonical meaning of a step node (`spec_parse_step`), the canonical
//! rendering of a step (`spec_render_step`), and the proof that rendering
//! inverts parsing on well-formed steps.

use crate::node::{entries_view, list_view, node_view, Node, NodeV};
use crate::text::str_eq;
use crate::version::check_segment;
use crate::version::valid_segment;
use vstd::prelude::*;

verus! {

/// The four order comparisons a step may assert.
#[derive(Clone, Copy, PartialEq, Eq, Structural, Debug)]
pub enum CmpKind {
    Gt,
    Gte,
    Lt,
    Lte,
}

/// One unit of test behaviour. The vocabulary is closed: a node with any
/// other selector key is a hard parse error.
pub enum Step {
    /// Invoke an API operation with named parameters; `catch` names an
    /// expected error class or a pattern over the error text.
    Do { operation: String, params: Vec<(String, Node)>, catch: Option<String> },
    /// Bind the value at `path` in the last response to variable `var`.
    SetVar { path: String, var: String },
    /// Bind the value at `path` after applying one named transform.
    TransformAndSet { path: String, var: String, transform: String },
    /// Assert the value at `path` equals `expected` structurally.
    Match { path: String, expected: Node },
    /// Assert the collection at `path` has exactly `expected` elements;
    /// the count keeps its digit-string form.
    Length { path: String, expected: String },
    /// Assert the stated order relation between `path` and `expected`.
    Compare { kind: CmpKind, path: String, expected: Node },
    /// Assert the value at `path` is true-ish.
    IsTrue { path: String },
    /// Assert the value at `path` is false-ish.
    IsFalse { path: String },
    /// Assert the collection or text at `path` contains `expected`.
    Contains { path: String, expected: Node },
    /// Exclude the whole case under a version range and/or required
    /// features, with a mandatory human-readable reason.
    Skip { version_range: Option<String>, features: Vec<String>, reason: String },
}

/// The mathematical shape of a step.
pub enum StepV {
    Do { operation: Seq<char>, params: Seq<(Seq<char>, NodeV)>, catch: Option<Seq<char>> },
    SetVar { path: Seq<char>, var: Seq<char> },
    TransformAndSet { path: Seq<char>, var: Seq<char>, transform: Seq<char> },
    Match { path: Seq<char>, expected: NodeV },
    Length { path: Seq<char>, expected: Seq<char> },
    Compare { kind: CmpKind, path: Seq<char>, expected: NodeV },
    IsTrue { path: Seq<char> },
    IsFalse { path: Seq<char> },
    Contains { path: Seq<char>, expected: NodeV },
    Skip { version_range: Option<Seq<char>>, features: Seq<Seq<char>>, reason: Seq<char> },
}

pub open spec fn strings_view(v: Vec<String>) -> Seq<Seq<char>> {
    Seq::new(
        v.len() as nat,
        |i: int|
            if 0 <= i < v.len() {
                v[i]@
            } else {
                Seq::empty()
            },
    )
}

impl View for Step {
    type V = StepV;

    open spec fn view(&self) -> StepV {
        match self {
            Step::Do { operation, params, catch } => StepV::Do {
                operation: operation@,
                params: entries_view(*params),
                catch: match catch {
                    Some(c) => Some(c@),
                    None => None,
                },
            },
            Step::SetVar { path, var } => StepV::SetVar { path: path@, var: var@ },
            Step::TransformAndSet { path, var, transform } => StepV::TransformAndSet {
                path: path@,
                var: var@,
                transform: transform@,
            },
            Step::Match { path, expected } => StepV::Match { path: path@, expected: expected@ },
            Step::Length { path, expected } => StepV::Length { path: path@, expected: expected@ },
            Step::Compare { kind, path, expected } => StepV::Compare {
                kind: *kind,
                path: path@,
                expected: expected@,
            },
            Step::IsTrue { path } => StepV::IsTrue { path: path@ },
            Step::IsFalse { path } => StepV::IsFalse { path: path@ },
            Step::Contains { path, expected } => StepV::Contains {
                path: path@,
                expected: expected@,
            },
            Step::Skip { version_range, features, reason } => StepV::Skip {
                version_range: match version_range {
                    Some(r) => Some(r@),
                    None => None,
                },
                features: strings_view(*features),
                reason: reason@,
            },
        }
    }
}

/// The parse errors a single step node can raise.
#[derive(Clone, PartialEq, Eq, Debug)]
pub enum StepError {
    /// The selector key is outside the fixed vocabulary.
    UnknownKind(String),
    /// The node or its payload has the wrong shape.
    Malformed,
}

pub enum StepErrV {
    UnknownKind(Seq<char>),
    Malformed,
}

impl View for StepError {
    type V = StepErrV;

    open spec fn view(&self) -> StepErrV {
        match self {
            StepError::UnknownKind(k) => StepErrV::UnknownKind(k@),
            StepError::Malformed => StepErrV::Malformed,
        }
    }
}

/// The fixed, documented set of transforms `TransformAndSet` may apply.
pub open spec fn is_known_transform(t: Seq<char>) -> bool {
    t == "base64_encode_credentials"@ || t == "url_decode"@
}

pub open spec fn cmp_key(k: CmpKind) -> Seq<char> {
    match k {
        CmpKind::Gt => "gt"@,
        CmpKind::Gte => "gte"@,
        CmpKind::Lt => "lt"@,
        CmpKind::Lte => "lte"@,
    }
}

/// Payload of a `do` step: an optional `catch` scalar and exactly one
/// operation entry whose value is the parameter mapping.
pub open spec fn parse_do_payload(p: NodeV) -> Result<StepV, StepErrV> {
    match p {
        NodeV::Mapping(es) => {
            if es.len() == 1 {
                if es[0].0 == "catch"@ {
                    Err(StepErrV::Malformed)
                } else {
                    match es[0].1 {
                        NodeV::Mapping(params) => Ok(
                            StepV::Do { operation: es[0].0, params, catch: None },
                        ),
                        _ => Err(StepErrV::Malformed),
                    }
                }
            } else if es.len() == 2 {
                if es[0].0 == "catch"@ && es[1].0 != "catch"@ {
                    match (es[0].1, es[1].1) {
                        (NodeV::Scalar(c), NodeV::Mapping(params)) => Ok(
                            StepV::Do { operation: es[1].0, params, catch: Some(c) },
                        ),
                        _ => Err(StepErrV::Malformed),
                    }
                } else if es[1].0 == "catch"@ && es[0].0 != "catch"@ {
                    match (es[1].1, es[0].1) {
                        (NodeV::Scalar(c), NodeV::Mapping(params)) => Ok(
                            StepV::Do { operation: es[0].0, params, catch: Some(c) },
                        ),
                        _ => Err(StepErrV::Malformed),
                    }
                } else {
                    Err(StepErrV::Malformed)
                }
            } else {
                Err(StepErrV::Malformed)
            }
        },
        _ => Err(StepErrV::Malformed),
    }
}

/// A feature requirement: one scalar, or a non-empty list of scalars.
pub open spec fn features_of(nv: NodeV) -> Option<Seq<Seq<char>>> {
    match nv {
        NodeV::Scalar(s) => Some(seq![s]),
        NodeV::List(l) => {
            if l.len() > 0 && (forall|i: int|
                0 <= i < l.len() ==> (#[trigger] l[i]) matches NodeV::Scalar(_)) {
                Some(
                    Seq::new(
                        l.len(),
                        |i: int|
                            match l[i] {
                                NodeV::Scalar(s) => s,
                                _ => Seq::empty(),
                            },
                    ),
                )
            } else {
                None
            }
        },
        _ => None,
    }
}

/// Payload of a `skip` step, in canonical key order `version`, `features`,
/// `reason`: at least one of the first two, the reason always.
pub open spec fn parse_skip_payload(p: NodeV) -> Result<StepV, StepErrV> {
    match p {
        NodeV::Mapping(es) => {
            if es.len() == 2 && es[0].0 == "version"@ && es[1].0 == "reason"@ {
                match (es[0].1, es[1].1) {
                    (NodeV::Scalar(v), NodeV::Scalar(r)) => Ok(
                        StepV::Skip {
                            version_range: Some(v),
                            features: Seq::empty(),
                            reason: r,
                        },
                    ),
                    _ => Err(StepErrV::Malformed),
                }
            } else if es.len() == 2 && es[0].0 == "features"@ && es[1].0 == "reason"@ {
                match (features_of(es[0].1), es[1].1) {
                    (Some(fs), NodeV::Scalar(r)) => Ok(
                        StepV::Skip { version_range: None, features: fs, reason: r },
                    ),
                    _ => Err(StepErrV::Malformed),
                }
            } else if es.len() == 3 && es[0].0 == "version"@ && es[1].0 == "features"@ && es[2].0
                == "reason"@ {
                match (es[0].1, features_of(es[1].1), es[2].1) {
                    (NodeV::Scalar(v), Some(fs), NodeV::Scalar(r)) => Ok(
                        StepV::Skip { version_range: Some(v), features: fs, reason: r },
                    ),
                    _ => Err(StepErrV::Malformed),
                }
            } else {
                Err(StepErrV::Malformed)
            }
        },
        _ => Err(StepErrV::Malformed),
    }
}

/// Payload of the single-binding steps (`set`, `match`, `length`, the
/// comparisons, `contains`): exactly one entry.
pub open spec fn single_entry(p: NodeV) -> Option<(Seq<char>, NodeV)> {
    match p {
        NodeV::Mapping(es) => {
            if es.len() == 1 {
                Some(es[0])
            } else {
                None
            }
        },
        _ => None,
    }
}

/// Payload of `transform_and_set`, in canonical key order.
pub open spec fn parse_transform_payload(p: NodeV) -> Result<StepV, StepErrV> {
    match p {
        NodeV::Mapping(es) => {
            if es.len() == 3 && es[0].0 == "path"@ && es[1].0 == "transform"@ && es[2].0
                == "var"@ {
                match (es[0].1, es[1].1, es[2].1) {
                    (NodeV::Scalar(path), NodeV::Scalar(t), NodeV::Scalar(var)) => {
                        if is_known_transform(t) {
                            Ok(StepV::TransformAndSet { path, var, transform: t })
                        } else {
                            Err(StepErrV::Malformed)
                        }
                    },
                    _ => Err(StepErrV::Malformed),
                }
            } else {
                Err(StepErrV::Malformed)
            }
        },
        _ => Err(StepErrV::Malformed),
    }
}

pub open spec fn parse_path_payload(p: NodeV) -> Result<Seq<char>, StepErrV> {
    match p {
        NodeV::Scalar(s) => Ok(s),
        NodeV::Null => Ok(Seq::empty()),
        _ => Err(StepErrV::Malformed),
    }
}

/// Canonical meaning of one step node: a mapping with exactly one selector
/// key from the fixed vocabulary and a payload of the right shape.
pub open spec fn spec_parse_step(n: NodeV) -> Result<StepV, StepErrV> {
    match n {
        NodeV::Mapping(entries) => {
            if entries.len() != 1 {
                Err(StepErrV::Malformed)
            } else {
                let key = entries[0].0;
                let p = entries[0].1;
                if key == "do"@ {
                    parse_do_payload(p)
                } else if key == "set"@ {
                    match single_entry(p) {
                        Some((path, NodeV::Scalar(var))) => Ok(StepV::SetVar { path, var }),
                        _ => Err(StepErrV::Malformed),
                    }
                } else if key == "transform_and_set"@ {
                    parse_transform_payload(p)
                } else if key == "match"@ {
                    match single_entry(p) {
                        Some((path, expected)) => Ok(StepV::Match { path, expected }),
                        None => Err(StepErrV::Malformed),
                    }
                } else if key == "length"@ {
                    match single_entry(p) {
                        Some((path, NodeV::Scalar(count))) => {
                            if valid_segment(count) {
                                Ok(StepV::Length { path, expected: count })
                            } else {
                                Err(StepErrV::Malformed)
                            }
                        },
                        _ => Err(StepErrV::Malformed),
                    }
                } else if key == "gt"@ {
                    match single_entry(p) {
                        Some((path, expected)) => Ok(
                            StepV::Compare { kind: CmpKind::Gt, path, expected },
                        ),
                        None => Err(StepErrV::Malformed),
                    }
                } else if key == "gte"@ {
                    match single_entry(p) {
                        Some((path, expected)) => Ok(
                            StepV::Compare { kind: CmpKind::Gte, path, expected },
                        ),
                        None => Err(StepErrV::Malformed),
                    }
                } else if key == "lt"@ {
                    match single_entry(p) {
                        Some((path, expected)) => Ok(
                            StepV::Compare { kind: CmpKind::Lt, path, expected },
                        ),
                        None => Err(StepErrV::Malformed),
                    }
                } else if key == "lte"@ {
                    match single_entry(p) {
                        Some((path, expected)) => Ok(
                            StepV::Compare { kind: CmpKind::Lte, path, expected },
                        ),
                        None => Err(StepErrV::Malformed),
                    }
                } else if key == "is_true"@ {
                    match parse_path_payload(p) {
                        Ok(path) => Ok(StepV::IsTrue { path }),
                        Err(e) => Err(e),
                    }
                } else if key == "is_false"@ {
                    match parse_path_payload(p) {
                        Ok(path) => Ok(StepV::IsFalse { path }),
                        Err(e) => Err(e),
                    }
                } else if key == "contains"@ {
                    match single_entry(p) {
                        Some((path, expected)) => Ok(StepV::Contains { path, expected }),
                        None => Err(StepErrV::Malformed),
                    }
                } else if key == "skip"@ {
                    parse_skip_payload(p)
                } else {
                    Err(StepErrV::UnknownKind(key))
                }
            }
        },
        _ => Err(StepErrV::Malformed),
    }
}

pub open spec fn render_skip_payload(
    version_range: Option<Seq<char>>,
    features: Seq<Seq<char>>,
    reason: Seq<char>,
) -> Seq<(Seq<char>, NodeV)> {
    let ver: Seq<(Seq<char>, NodeV)> = match version_range {
        Some(r) => seq![("version"@, NodeV::Scalar(r))],
        None => Seq::empty(),
    };
    let fs: Seq<(Seq<char>, NodeV)> = if features.len() > 0 {
        seq![("features"@, NodeV::List(features.map_values(|f: Seq<char>| NodeV::Scalar(f))))]
    } else {
        Seq::empty()
    };
    ver + fs + seq![("reason"@, NodeV::Scalar(reason))]
}

/// Canonical rendering of a step: the node `spec_parse_step` reads back.
pub open spec fn spec_render_step(s: StepV) -> NodeV {
    match s {
        StepV::Do { operation, params, catch } => NodeV::Mapping(
            seq![
                (
                    "do"@,
                    NodeV::Mapping(
                        match catch {
                            Some(c) => seq![
                                ("catch"@, NodeV::Scalar(c)),
                                (operation, NodeV::Mapping(params)),
                            ],
                            None => seq![(operation, NodeV::Mapping(params))],
                        },
                    ),
                ),
            ],
        ),
        StepV::SetVar { path, var } => NodeV::Mapping(
            seq![("set"@, NodeV::Mapping(seq![(path, NodeV::Scalar(var))]))],
        ),
        StepV::TransformAndSet { path, var, transform } => NodeV::Mapping(
            seq![
                (
                    "transform_and_set"@,
                    NodeV::Mapping(
                        seq![
                            ("path"@, NodeV::Scalar(path)),
                            ("transform"@, NodeV::Scalar(transform)),
                            ("var"@, NodeV::Scalar(var)),
                        ],
                    ),
                ),
            ],
        ),
        StepV::Match { path, expected } => NodeV::Mapping(
            seq![("match"@, NodeV::Mapping(seq![(path, expected)]))],
        ),
        StepV::Length { path, expected } => NodeV::Mapping(
            seq![("length"@, NodeV::Mapping(seq![(path, NodeV::Scalar(expected))]))],
        ),
        StepV::Compare { kind, path, expected } => NodeV::Mapping(
            seq![(cmp_key(kind), NodeV::Mapping(seq![(path, expected)]))],
        ),
        StepV::IsTrue { path } => NodeV::Mapping(seq![("is_true"@, NodeV::Scalar(path))]),
        StepV::IsFalse { path } => NodeV::Mapping(seq![("is_false"@, NodeV::Scalar(path))]),
        StepV::Contains { path, expected } => NodeV::Mapping(
            seq![("contains"@, NodeV::Mapping(seq![(path, expected)]))],
        ),
        StepV::Skip { version_range, features, reason } => NodeV::Mapping(
            seq![("skip"@, NodeV::Mapping(render_skip_payload(version_range, features, reason)))],
        ),
    }
}

/// The step values the vocabulary admits: exactly those whose canonical
/// rendering parses back.
pub open spec fn wf_step(s: StepV) -> bool {
    match s {
        StepV::Do { operation, .. } => operation != "catch"@,
        StepV::TransformAndSet { transform, .. } => is_known_transform(transform),
        StepV::Length { expected, .. } => valid_segment(expected),
        StepV::Skip { version_range, features, .. } => version_range matches Some(_)
            || features.len() > 0,
        _ => true,
    }
}

/// The selector keys of the vocabulary, and the `skip` payload keys, are
/// pairwise distinct strings.
pub proof fn lemma_vocabulary_distinct()
    ensures
        "do"@ != "set"@,
        "do"@ != "transform_and_set"@,
        "do"@ != "match"@,
        "do"@ != "length"@,
        "do"@ != "gt"@,
        "do"@ != "gte"@,
        "do"@ != "lt"@,
        "do"@ != "lte"@,
        "do"@ != "is_true"@,
        "do"@ != "is_false"@,
        "do"@ != "contains"@,
        "do"@ != "skip"@,
        "set"@ != "transform_and_set"@,
        "set"@ != "match"@,
        "set"@ != "length"@,
        "set"@ != "gt"@,
        "set"@ != "gte"@,
        "set"@ != "lt"@,
        "set"@ != "lte"@,
        "set"@ != "is_true"@,
        "set"@ != "is_false"@,
        "set"@ != "contains"@,
        "set"@ != "skip"@,
        "transform_and_set"@ != "match"@,
        "transform_and_set"@ != "length"@,
        "transform_and_set"@ != "gt"@,
        "transform_and_set"@ != "gte"@,
        "transform_and_set"@ != "lt"@,
        "transform_and_set"@ != "lte"@,
        "transform_and_set"@ != "is_true"@,
        "transform_and_set"@ != "is_false"@,
        "transform_and_set"@ != "contains"@,
        "transform_and_set"@ != "skip"@,
        "match"@ != "length"@,
        "match"@ != "gt"@,
        "match"@ != "gte"@,
        "match"@ != "lt"@,
        "match"@ != "lte"@,
        "match"@ != "is_true"@,
        "match"@ != "is_false"@,
        "match"@ != "contains"@,
        "match"@ != "skip"@,
        "length"@ != "gt"@,
        "length"@ != "gte"@,
        "length"@ != "lt"@,
        "length"@ != "lte"@,
        "length"@ != "is_true"@,
        "length"@ != "is_false"@,
        "length"@ != "contains"@,
        "length"@ != "skip"@,
        "gt"@ != "gte"@,
        "gt"@ != "lt"@,
        "gt"@ != "lte"@,
        "gt"@ != "is_true"@,
        "gt"@ != "is_false"@,
        "gt"@ != "contains"@,
        "gt"@ != "skip"@,
        "gte"@ != "lt"@,
        "gte"@ != "lte"@,
        "gte"@ != "is_true"@,
        "gte"@ != "is_false"@,
        "gte"@ != "contains"@,
        "gte"@ != "skip"@,
        "lt"@ != "lte"@,
        "lt"@ != "is_true"@,
        "lt"@ != "is_false"@,
        "lt"@ != "contains"@,
        "lt"@ != "skip"@,
        "lte"@ != "is_true"@,
        "lte"@ != "is_false"@,
        "lte"@ != "contains"@,
        "lte"@ != "skip"@,
        "is_true"@ != "is_false"@,
        "is_true"@ != "contains"@,
        "is_true"@ != "skip"@,
        "is_false"@ != "contains"@,
        "is_false"@ != "skip"@,
        "contains"@ != "skip"@,
        "version"@ != "features"@,
        "version"@ != "reason"@,
        "features"@ != "reason"@,
{
    reveal_strlit("do");
    reveal_strlit("set");
    reveal_strlit("transform_and_set");
    reveal_strlit("match");
    reveal_strlit("length");
    reveal_strlit("gt");
    reveal_strlit("gte");
    reveal_strlit("lt");
    reveal_strlit("lte");
    reveal_strlit("is_true");
    reveal_strlit("is_false");
    reveal_strlit("contains");
    reveal_strlit("skip");
    reveal_strlit("version");
    reveal_strlit("features");
    reveal_strlit("reason");
    assert("do"@.len() == 2 && "set"@.len() == 3 && "transform_and_set"@.len() == 17 && "match"@.len() == 5 && "length"@.len() == 6 && "gt"@.len() == 2 && "gte"@.len() == 3 && "lt"@.len() == 2 && "lte"@.len() == 3 && "is_true"@.len() == 7 && "is_false"@.len() == 8 && "contains"@.len() == 8 && "skip"@.len() == 4 && "version"@.len() == 7 && "features"@.len() == 8 && "reason"@.len() == 6);
    assert("gt"@[0] == 'g' && "lt"@[0] == 'l' && "gte"@[0] == 'g' && "lte"@[0] == 'l');
    assert("gt"@[1] == 't' && "gte"@[1] == 't' && "lte"@[1] == 't' && "set"@[1] == 'e');
    assert("do"@[0] == 'd' && "set"@[0] == 's');
    assert("is_false"@[0] == 'i' && "contains"@[0] == 'c');
}

/// Parsing inverts canonical rendering: for every well-formed step value,
/// rendering it and parsing the result yields the step back. Hence
/// parse-then-render is idempotent on every syntactically valid step node.
pub proof fn lemma_parse_render_roundtrip(s: StepV)
    requires
        wf_step(s),
    ensures
        spec_parse_step(spec_render_step(s)) == Ok::<StepV, StepErrV>(s),
{
    lemma_vocabulary_distinct();
    match s {
        StepV::Skip { version_range, features, reason } => {
            let payload = render_skip_payload(version_range, features, reason);
            let mapped = features.map_values(|f: Seq<char>| NodeV::Scalar(f));
            if features.len() > 0 {
                assert(forall|i: int|
                    0 <= i < mapped.len() ==> (#[trigger] mapped[i]) == NodeV::Scalar(
                        features[i],
                    ));
                lemma_features_of_scalars(mapped, features);
            }
            match version_range {
                Some(v) => {
                    if features.len() > 0 {
                        assert(payload =~= seq![
                            ("version"@, NodeV::Scalar(v)),
                            ("features"@, NodeV::List(mapped)),
                            ("reason"@, NodeV::Scalar(reason)),
                        ]);
                    } else {
                        assert(payload =~= seq![
                            ("version"@, NodeV::Scalar(v)),
                            ("reason"@, NodeV::Scalar(reason)),
                        ]);
                        assert(features =~= Seq::<Seq<char>>::empty());
                    }
                },
                None => {
                    assert(payload =~= seq![
                        ("features"@, NodeV::List(mapped)),
                        ("reason"@, NodeV::Scalar(reason)),
                    ]);
                },
            }
            assert(parse_skip_payload(NodeV::Mapping(payload)) == Ok::<StepV, StepErrV>(s));
        },
        _ => {},
    }
}

proof fn lemma_features_of_scalars(l: Seq<NodeV>, fs: Seq<Seq<char>>)
    requires
        l.len() == fs.len(),
        fs.len() > 0,
        forall|i: int| 0 <= i < l.len() ==> (#[trigger] l[i]) == NodeV::Scalar(fs[i]),
    ensures
        features_of(NodeV::List(l)) == Some(fs),
{
    let got = Seq::new(
        l.len(),
        |i: int|
            match l[i] {
                NodeV::Scalar(s) => s,
                _ => Seq::empty(),
            },
    );
    assert(got =~= fs);
    assert(features_of(NodeV::List(l)) == Some(got));
}

/// Parse-then-render is idempotent: rendering a parsed node and parsing it
/// again changes nothing. This is the statement over arbitrary nodes; it
/// needs that every parsed step is well-formed.
pub proof fn lemma_parse_wf(n: NodeV)
    ensures
        spec_parse_step(n) matches Ok(s) ==> wf_step(s),
{
    reveal_strlit("do");
    reveal_strlit("set");
    reveal_strlit("transform_and_set");
    reveal_strlit("match");
    reveal_strlit("length");
    reveal_strlit("gt");
    reveal_strlit("gte");
    reveal_strlit("lt");
    reveal_strlit("lte");
    reveal_strlit("is_true");
    reveal_strlit("is_false");
    reveal_strlit("contains");
    reveal_strlit("skip");
    reveal_strlit("catch");
    reveal_strlit("version");
    reveal_strlit("features");
    reveal_strlit("reason");
    reveal_strlit("path");
    reveal_strlit("transform");
    reveal_strlit("var");
}

/// Canonical-render idempotence over nodes: whatever step a node parses to,
/// its canonical rendering parses to the same step, so a second
/// parse-and-render pass yields the same node.
pub proof fn lemma_canonical_render_idempotent(n: NodeV)
    ensures
        spec_parse_step(n) matches Ok(s) ==> spec_parse_step(spec_render_step(s)) == Ok::<
            StepV,
            StepErrV,
        >(s),
{
    lemma_parse_wf(n);
    if let Ok(s) = spec_parse_step(n) {
        lemma_parse_render_roundtrip(s);
    }
}


/// The single entry of a one-entry mapping payload.
fn take_single_exec(p: Node) -> (r: Result<(String, Node), StepError>)
    ensures
        match r {
            Ok(kv) => single_entry(p@) == Some((kv.0@, kv.1@)),
            Err(e) => single_entry(p@) == None::<(Seq<char>, NodeV)> && e@ == StepErrV::Malformed,
        },
{
    match p {
        Node::Mapping(mut es) => {
            let ghost esv = entries_view(es);
            if es.len() != 1 {
                return Err(StepError::Malformed);
            }
            match es.pop() {
                Some(kv) => {
                    assert(esv[0] == (kv.0@, kv.1@));
                    Ok(kv)
                },
                None => Err(StepError::Malformed),
            }
        },
        _ => Err(StepError::Malformed),
    }
}

fn parse_do_exec(payload: Node) -> (r: Result<Step, StepError>)
    ensures
        match r {
            Ok(st) => parse_do_payload(payload@) == Ok::<StepV, StepErrV>(st@),
            Err(e) => parse_do_payload(payload@) == Err::<StepV, StepErrV>(e@),
        },
{
    match payload {
        Node::Mapping(mut es) => {
            let ghost esv = entries_view(es);
            if es.len() == 1 {
                let (k, v) = match es.pop() {
                    Some(kv) => kv,
                    None => {
                        return Err(StepError::Malformed);
                    },
                };
                assert(esv[0] == (k@, v@));
                if str_eq(k.as_str(), "catch") {
                    Err(StepError::Malformed)
                } else {
                    match v {
                        Node::Mapping(params) => Ok(
                            Step::Do { operation: k, params, catch: None },
                        ),
                        _ => Err(StepError::Malformed),
                    }
                }
            } else if es.len() == 2 {
                let (k1, v1) = match es.pop() {
                    Some(kv) => kv,
                    None => {
                        return Err(StepError::Malformed);
                    },
                };
                let (k0, v0) = match es.pop() {
                    Some(kv) => kv,
                    None => {
                        return Err(StepError::Malformed);
                    },
                };
                assert(esv[0] == (k0@, v0@) && esv[1] == (k1@, v1@));
                let k0_catch = str_eq(k0.as_str(), "catch");
                let k1_catch = str_eq(k1.as_str(), "catch");
                if k0_catch && !k1_catch {
                    match (v0, v1) {
                        (Node::Scalar(c), Node::Mapping(params)) => Ok(
                            Step::Do { operation: k1, params, catch: Some(c) },
                        ),
                        _ => Err(StepError::Malformed),
                    }
                } else if k1_catch && !k0_catch {
                    match (v1, v0) {
                        (Node::Scalar(c), Node::Mapping(params)) => Ok(
                            Step::Do { operation: k0, params, catch: Some(c) },
                        ),
                        _ => Err(StepError::Malformed),
                    }
                } else {
                    Err(StepError::Malformed)
                }
            } else {
                Err(StepError::Malformed)
            }
        },
        _ => Err(StepError::Malformed),
    }
}

fn parse_transform_exec(payload: Node) -> (r: Result<Step, StepError>)
    ensures
        match r {
            Ok(st) => parse_transform_payload(payload@) == Ok::<StepV, StepErrV>(st@),
            Err(e) => parse_transform_payload(payload@) == Err::<StepV, StepErrV>(e@),
        },
{
    match payload {
        Node::Mapping(mut es) => {
            let ghost esv = entries_view(es);
            if es.len() != 3 {
                return Err(StepError::Malformed);
            }
            let (k2, v2) = match es.pop() {
                Some(kv) => kv,
                None => {
                    return Err(StepError::Malformed);
                },
            };
            let (k1, v1) = match es.pop() {
                Some(kv) => kv,
                None => {
                    return Err(StepError::Malformed);
                },
            };
            let (k0, v0) = match es.pop() {
                Some(kv) => kv,
                None => {
                    return Err(StepError::Malformed);
                },
            };
            assert(esv[0] == (k0@, v0@) && esv[1] == (k1@, v1@) && esv[2] == (k2@, v2@));
            if !(str_eq(k0.as_str(), "path") && str_eq(k1.as_str(), "transform") && str_eq(
                k2.as_str(),
                "var",
            )) {
                return Err(StepError::Malformed);
            }
            match (v0, v1, v2) {
                (Node::Scalar(p), Node::Scalar(t), Node::Scalar(v)) => {
                    if str_eq(t.as_str(), "base64_encode_credentials") || str_eq(
                        t.as_str(),
                        "url_decode",
                    ) {
                        Ok(Step::TransformAndSet { path: p, var: v, transform: t })
                    } else {
                        Err(StepError::Malformed)
                    }
                },
                _ => Err(StepError::Malformed),
            }
        },
        _ => Err(StepError::Malformed),
    }
}

/// Read a feature requirement: one scalar or a non-empty list of scalars.
#[verifier::loop_isolation(false)]
fn parse_features_exec(n: Node) -> (r: Option<Vec<String>>)
    ensures
        match r {
            Some(v) => features_of(n@) == Some(strings_view(v)),
            None => features_of(n@) == None::<Seq<Seq<char>>>,
        },
{
    match n {
        Node::Scalar(s) => {
            let ghost sv = s@;
            let mut out: Vec<String> = Vec::new();
            out.push(s);
            assert(strings_view(out) =~= seq![sv]);
            Some(out)
        },
        Node::List(mut items) => {
            let ghost l = list_view(items);
            if items.len() == 0 {
                return None;
            }
            let mut out: Vec<String> = Vec::new();
            while items.len() > 0
                invariant
                    out.len() + items.len() == l.len(),
                    forall|k: int| 0 <= k < out.len() ==> l[k] == NodeV::Scalar(out[k]@),
                    forall|k: int|
                        0 <= k < items.len() ==> #[trigger] list_view(items)[k] == l[out.len()
                            + k],
                decreases items.len(),
            {
                let ghost pre = items;
                let x = items.remove(0);
                assert(node_view(x) == l[out.len() as int]) by {
                    assert(list_view(pre)[0] == node_view(pre[0]));
                }
                assert(forall|k: int|
                    0 <= k < items.len() ==> #[trigger] list_view(items)[k] == l[out.len() + 1
                        + k]) by {
                    assert(forall|k: int|
                        0 <= k < items.len() ==> items[k] == pre[k + 1] && #[trigger] list_view(
                            items,
                        )[k] == node_view(items[k]) && list_view(pre)[k + 1] == node_view(
                            pre[k + 1],
                        ));
                }
                match x {
                    Node::Scalar(s) => {
                        out.push(s);
                    },
                    _ => {
                        assert(!(l[out.len() as int] matches NodeV::Scalar(_)));
                        return None;
                    },
                }
            }
            proof {
                assert(forall|i: int|
                    0 <= i < l.len() ==> (#[trigger] l[i]) matches NodeV::Scalar(_));
                let got = Seq::new(
                    l.len(),
                    |i: int|
                        match l[i] {
                            NodeV::Scalar(s) => s,
                            _ => Seq::empty(),
                        },
                );
                assert(got =~= strings_view(out));
            }
            Some(out)
        },
        _ => None,
    }
}

fn parse_skip_exec(payload: Node) -> (r: Result<Step, StepError>)
    ensures
        match r {
            Ok(st) => parse_skip_payload(payload@) == Ok::<StepV, StepErrV>(st@),
            Err(e) => parse_skip_payload(payload@) == Err::<StepV, StepErrV>(e@),
        },
{
    match payload {
        Node::Mapping(mut es) => {
            let ghost esv = entries_view(es);
            if es.len() == 2 {
                let (k1, v1) = match es.pop() {
                    Some(kv) => kv,
                    None => {
                        return Err(StepError::Malformed);
                    },
                };
                let (k0, v0) = match es.pop() {
                    Some(kv) => kv,
                    None => {
                        return Err(StepError::Malformed);
                    },
                };
                assert(esv[0] == (k0@, v0@) && esv[1] == (k1@, v1@));
                if !str_eq(k1.as_str(), "reason") {
                    return Err(StepError::Malformed);
                }
                if str_eq(k0.as_str(), "version") {
                    match (v0, v1) {
                        (Node::Scalar(ver), Node::Scalar(rsn)) => {
                            let out = Step::Skip {
                                version_range: Some(ver),
                                features: Vec::new(),
                                reason: rsn,
                            };
                            assert(out@ matches StepV::Skip { features, .. } ==> features
                                =~= Seq::<Seq<char>>::empty());
                            Ok(out)
                        },
                        _ => Err(StepError::Malformed),
                    }
                } else if str_eq(k0.as_str(), "features") {
                    let rsn = match v1 {
                        Node::Scalar(rsn) => rsn,
                        _ => {
                            return Err(StepError::Malformed);
                        },
                    };
                    match parse_features_exec(v0) {
                        Some(feats) => Ok(
                            Step::Skip { version_range: None, features: feats, reason: rsn },
                        ),
                        None => Err(StepError::Malformed),
                    }
                } else {
                    Err(StepError::Malformed)
                }
            } else if es.len() == 3 {
                let (k2, v2) = match es.pop() {
                    Some(kv) => kv,
                    None => {
                        return Err(StepError::Malformed);
                    },
                };
                let (k1, v1) = match es.pop() {
                    Some(kv) => kv,
                    None => {
                        return Err(StepError::Malformed);
                    },
                };
                let (k0, v0) = match es.pop() {
                    Some(kv) => kv,
                    None => {
                        return Err(StepError::Malformed);
                    },
                };
                assert(esv[0] == (k0@, v0@) && esv[1] == (k1@, v1@) && esv[2] == (k2@, v2@));
                if !(str_eq(k0.as_str(), "version") && str_eq(k1.as_str(), "features") && str_eq(
                    k2.as_str(),
                    "reason",
                )) {
                    return Err(StepError::Malformed);
                }
                let ver = match v0 {
                    Node::Scalar(ver) => ver,
                    _ => {
                        return Err(StepError::Malformed);
                    },
                };
                let rsn = match v2 {
                    Node::Scalar(rsn) => rsn,
                    _ => {
                        return Err(StepError::Malformed);
                    },
                };
                match parse_features_exec(v1) {
                    Some(feats) => Ok(
                        Step::Skip { version_range: Some(ver), features: feats, reason: rsn },
                    ),
                    None => Err(StepError::Malformed),
                }
            } else {
                Err(StepError::Malformed)
            }
        },
        _ => Err(StepError::Malformed),
    }
}

/// Parse one step node: exactly the meaning `spec_parse_step` gives it.
pub fn parse_step(n: Node) -> (r: Result<Step, StepError>)
    ensures
        match r {
            Ok(st) => spec_parse_step(n@) == Ok::<StepV, StepErrV>(st@),
            Err(e) => spec_parse_step(n@) == Err::<StepV, StepErrV>(e@),
        },
{
    match n {
        Node::Mapping(mut entries) => {
            let ghost ev = entries_view(entries);
            if entries.len() != 1 {
                return Err(StepError::Malformed);
            }
            let (key, payload) = match entries.pop() {
                Some(kp) => kp,
                None => {
                    return Err(StepError::Malformed);
                },
            };
            assert(ev[0] == (key@, payload@));
            if str_eq(key.as_str(), "do") {
                parse_do_exec(payload)
            } else if str_eq(key.as_str(), "set") {
                match take_single_exec(payload) {
                    Ok((path, value)) => match value {
                        Node::Scalar(var) => Ok(Step::SetVar { path, var }),
                        _ => Err(StepError::Malformed),
                    },
                    Err(e) => Err(e),
                }
            } else if str_eq(key.as_str(), "transform_and_set") {
                parse_transform_exec(payload)
            } else if str_eq(key.as_str(), "match") {
                match take_single_exec(payload) {
                    Ok((path, expected)) => Ok(Step::Match { path, expected }),
                    Err(e) => Err(e),
                }
            } else if str_eq(key.as_str(), "length") {
                match take_single_exec(payload) {
                    Ok((path, value)) => match value {
                        Node::Scalar(count) => {
                            if check_segment(count.as_str()) {
                                Ok(Step::Length { path, expected: count })
                            } else {
                                Err(StepError::Malformed)
                            }
                        },
                        _ => Err(StepError::Malformed),
                    },
                    Err(e) => Err(e),
                }
            } else if str_eq(key.as_str(), "gt") {
                match take_single_exec(payload) {
                    Ok((path, expected)) => Ok(
                        Step::Compare { kind: CmpKind::Gt, path, expected },
                    ),
                    Err(e) => Err(e),
                }
            } else if str_eq(key.as_str(), "gte") {
                match take_single_exec(payload) {
                    Ok((path, expected)) => Ok(
                        Step::Compare { kind: CmpKind::Gte, path, expected },
                    ),
                    Err(e) => Err(e),
                }
            } else if str_eq(key.as_str(), "lt") {
                match take_single_exec(payload) {
                    Ok((path, expected)) => Ok(
                        Step::Compare { kind: CmpKind::Lt, path, expected },
                    ),
                    Err(e) => Err(e),
                }
            } else if str_eq(key.as_str(), "lte") {
                match take_single_exec(payload) {
                    Ok((path, expected)) => Ok(
                        Step::Compare { kind: CmpKind::Lte, path, expected },
                    ),
                    Err(e) => Err(e),
                }
            } else if str_eq(key.as_str(), "is_true") {
                match payload {
                    Node::Scalar(path) => Ok(Step::IsTrue { path }),
                    Node::Null => {
                        let path = String::from_str("");
                        proof {
                            reveal_strlit("");
                        }
                        assert(path@ =~= Seq::<char>::empty());
                        Ok(Step::IsTrue { path })
                    },
                    _ => Err(StepError::Malformed),
                }
            } else if str_eq(key.as_str(), "is_false") {
                match payload {
                    Node::Scalar(path) => Ok(Step::IsFalse { path }),
                    Node::Null => {
                        let path = String::from_str("");
                        proof {
                            reveal_strlit("");
                        }
                        assert(path@ =~= Seq::<char>::empty());
                        Ok(Step::IsFalse { path })
                    },
                    _ => Err(StepError::Malformed),
                }
            } else if str_eq(key.as_str(), "contains") {
                match take_single_exec(payload) {
                    Ok((path, expected)) => Ok(Step::Contains { path, expected }),
                    Err(e) => Err(e),
                }
            } else if str_eq(key.as_str(), "skip") {
                parse_skip_exec(payload)
            } else {
                Err(StepError::UnknownKind(key))
            }
        },
        _ => Err(StepError::Malformed),
    }
}


/// One-entry mapping node.
fn map1(k: &str, v: Node) -> (r: Node)
    ensures
        r@ == NodeV::Mapping(seq![(k@, v@)]),
{
    let ghost vv = v@;
    let mut es: Vec<(String, Node)> = Vec::new();
    es.push((String::from_str(k), v));
    assert(entries_view(es) =~= seq![(k@, vv)]);
    Node::Mapping(es)
}

/// Render a feature list as a list of scalars.
#[verifier::loop_isolation(false)]
fn render_features(features: Vec<String>) -> (r: Node)
    ensures
        r@ == NodeV::List(
            strings_view(features).map_values(|f: Seq<char>| NodeV::Scalar(f)),
        ),
{
    let ghost fv = strings_view(features);
    let mut items: Vec<Node> = Vec::new();
    let mut rest = features;
    while rest.len() > 0
        invariant
            items.len() + rest.len() == fv.len(),
            forall|k: int| 0 <= k < items.len() ==> list_view(items)[k] == NodeV::Scalar(fv[k]),
            forall|k: int| 0 <= k < rest.len() ==> rest[k]@ == fv[items.len() + k],
        decreases rest.len(),
    {
        let ghost pre = rest;
        let s = rest.remove(0);
        assert(s@ == fv[items.len() as int]);
        assert(forall|k: int| 0 <= k < rest.len() ==> rest[k]@ == fv[items.len() + 1 + k]) by {
            assert(forall|k: int| 0 <= k < rest.len() ==> rest[k] == pre[k + 1]);
        }
        let ghost items_pre = items;
        items.push(Node::Scalar(s));
        assert(forall|k: int|
            0 <= k < items.len() ==> list_view(items)[k] == NodeV::Scalar(fv[k])) by {
            assert(forall|k: int|
                0 <= k < items_pre.len() ==> items[k] == items_pre[k] && #[trigger] list_view(
                    items,
                )[k] == node_view(items[k]) && list_view(items_pre)[k] == node_view(
                    items_pre[k],
                ));
            assert(list_view(items)[items_pre.len() as int] == node_view(
                items[items_pre.len() as int],
            ));
        }
    }
    assert(list_view(items) =~= fv.map_values(|f: Seq<char>| NodeV::Scalar(f)));
    Node::List(items)
}

/// Render a step as its canonical node: exactly `spec_render_step`.
pub fn render_step(s: Step) -> (n: Node)
    ensures
        n@ == spec_render_step(s@),
{
    let ghost sv = s@;
    match s {
        Step::Do { operation, params, catch } => {
            let ghost opv = operation@;
            let ghost pv = entries_view(params);
            let mut payload: Vec<(String, Node)> = Vec::new();
            match catch {
                Some(c) => {
                    let ghost cv = c@;
                    payload.push((String::from_str("catch"), Node::Scalar(c)));
                    payload.push((operation, Node::Mapping(params)));
                    assert(entries_view(payload) =~= seq![
                        ("catch"@, NodeV::Scalar(cv)),
                        (opv, NodeV::Mapping(pv)),
                    ]);
                },
                None => {
                    payload.push((operation, Node::Mapping(params)));
                    assert(entries_view(payload) =~= seq![(opv, NodeV::Mapping(pv))]);
                },
            }
            map1("do", Node::Mapping(payload))
        },
        Step::SetVar { path, var } => {
            let ghost pathv = path@;
            let ghost varv = var@;
            let mut inner: Vec<(String, Node)> = Vec::new();
            inner.push((path, Node::Scalar(var)));
            assert(entries_view(inner) =~= seq![(pathv, NodeV::Scalar(varv))]);
            map1("set", Node::Mapping(inner))
        },
        Step::TransformAndSet { path, var, transform } => {
            let ghost pathv = path@;
            let ghost varv = var@;
            let ghost tv = transform@;
            let mut inner: Vec<(String, Node)> = Vec::new();
            inner.push((String::from_str("path"), Node::Scalar(path)));
            inner.push((String::from_str("transform"), Node::Scalar(transform)));
            inner.push((String::from_str("var"), Node::Scalar(var)));
            assert(entries_view(inner) =~= seq![
                ("path"@, NodeV::Scalar(pathv)),
                ("transform"@, NodeV::Scalar(tv)),
                ("var"@, NodeV::Scalar(varv)),
            ]);
            map1("transform_and_set", Node::Mapping(inner))
        },
        Step::Match { path, expected } => {
            let ghost pathv = path@;
            let ghost ev = expected@;
            let mut inner: Vec<(String, Node)> = Vec::new();
            inner.push((path, expected));
            assert(entries_view(inner) =~= seq![(pathv, ev)]);
            map1("match", Node::Mapping(inner))
        },
        Step::Length { path, expected } => {
            let ghost pathv = path@;
            let ghost ev = expected@;
            let mut inner: Vec<(String, Node)> = Vec::new();
            inner.push((path, Node::Scalar(expected)));
            assert(entries_view(inner) =~= seq![(pathv, NodeV::Scalar(ev))]);
            map1("length", Node::Mapping(inner))
        },
        Step::Compare { kind, path, expected } => {
            let ghost pathv = path@;
            let ghost ev = expected@;
            let mut inner: Vec<(String, Node)> = Vec::new();
            inner.push((path, expected));
            assert(entries_view(inner) =~= seq![(pathv, ev)]);
            let key: &str = match kind {
                CmpKind::Gt => "gt",
                CmpKind::Gte => "gte",
                CmpKind::Lt => "lt",
                CmpKind::Lte => "lte",
            };
            assert(key@ == cmp_key(kind));
            map1(key, Node::Mapping(inner))
        },
        Step::IsTrue { path } => map1("is_true", Node::Scalar(path)),
        Step::IsFalse { path } => map1("is_false", Node::Scalar(path)),
        Step::Contains { path, expected } => {
            let ghost pathv = path@;
            let ghost ev = expected@;
            let mut inner: Vec<(String, Node)> = Vec::new();
            inner.push((path, expected));
            assert(entries_view(inner) =~= seq![(pathv, ev)]);
            map1("contains", Node::Mapping(inner))
        },
        Step::Skip { version_range, features, reason } => {
            let ghost vrv = match version_range {
                Some(ref r) => Some(r@),
                None => None::<Seq<char>>,
            };
            let ghost fv = strings_view(features);
            let ghost rv = reason@;
            let mut inner: Vec<(String, Node)> = Vec::new();
            match version_range {
                Some(r) => {
                    inner.push((String::from_str("version"), Node::Scalar(r)));
                },
                None => {},
            }
            if features.len() > 0 {
                inner.push((String::from_str("features"), render_features(features)));
            }
            inner.push((String::from_str("reason"), Node::Scalar(reason)));
            assert(entries_view(inner) =~= render_skip_payload(vrv, fv, rv));
            map1("skip", Node::Mapping(inner))
        },
    }
}

} // verus!
