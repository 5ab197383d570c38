//! The document parser: a document is a mapping from case names to step
//! lists, with the reserved keys `setup` and `teardown`. Every key is read in
//! order; a duplicate key, a malformed body or an unknown step kind is a hard
//! error for the whole document.

use crate::node::{list_view, node_view, Node, NodeV};
use crate::step::{spec_parse_step, Step, StepErrV, StepV};
use crate::text::str_eq;
use vstd::prelude::*;

verus! {

/// One named test case: an ordered step sequence.
pub struct TestCase {
    pub name: String,
    pub steps: Vec<Step>,
}

pub struct CaseV {
    pub name: Seq<char>,
    pub steps: Seq<StepV>,
}

/// One parsed document: optional setup and teardown, and the cases in
/// declaration order with distinct names.
pub struct TestDocument {
    /// The source path of the document, for error reporting and grouping.
    pub path: String,
    pub setup: Vec<Step>,
    pub teardown: Vec<Step>,
    pub cases: Vec<TestCase>,
}

pub struct DocV {
    pub path: Seq<char>,
    pub setup: Seq<StepV>,
    pub teardown: Seq<StepV>,
    pub cases: Seq<CaseV>,
}

pub open spec fn steps_view(v: Vec<Step>) -> Seq<StepV> {
    Seq::new(
        v.len() as nat,
        |i: int|
            if 0 <= i < v.len() {
                v[i]@
            } else {
                StepV::IsTrue { path: Seq::empty() }
            },
    )
}

impl View for TestCase {
    type V = CaseV;

    open spec fn view(&self) -> CaseV {
        CaseV { name: self.name@, steps: steps_view(self.steps) }
    }
}

pub open spec fn cases_view(v: Vec<TestCase>) -> Seq<CaseV> {
    Seq::new(
        v.len() as nat,
        |i: int|
            if 0 <= i < v.len() {
                v[i]@
            } else {
                CaseV { name: Seq::empty(), steps: Seq::empty() }
            },
    )
}

impl View for TestDocument {
    type V = DocV;

    open spec fn view(&self) -> DocV {
        DocV {
            path: self.path@,
            setup: steps_view(self.setup),
            teardown: steps_view(self.teardown),
            cases: cases_view(self.cases),
        }
    }
}

/// The parse errors a document can raise; each is fatal for the document.
#[derive(Clone, PartialEq, Eq, Debug)]
pub enum ParseError {
    /// The text is not well-formed YAML.
    Syntax,
    /// The document or a case body has the wrong shape.
    MalformedStructure,
    /// A top-level key — reserved or case name — occurs twice.
    DuplicateKey(String),
    /// A step selector outside the fixed vocabulary.
    UnknownStepKind(String),
    /// A step payload with the wrong shape.
    MalformedStep,
}

pub enum ParseErrV {
    Syntax,
    MalformedStructure,
    DuplicateKey(Seq<char>),
    UnknownStepKind(Seq<char>),
    MalformedStep,
}

impl View for ParseError {
    type V = ParseErrV;

    open spec fn view(&self) -> ParseErrV {
        match self {
            ParseError::Syntax => ParseErrV::Syntax,
            ParseError::MalformedStructure => ParseErrV::MalformedStructure,
            ParseError::DuplicateKey(k) => ParseErrV::DuplicateKey(k@),
            ParseError::UnknownStepKind(k) => ParseErrV::UnknownStepKind(k@),
            ParseError::MalformedStep => ParseErrV::MalformedStep,
        }
    }
}

pub open spec fn step_err_to_parse(e: StepErrV) -> ParseErrV {
    match e {
        StepErrV::UnknownKind(k) => ParseErrV::UnknownStepKind(k),
        StepErrV::Malformed => ParseErrV::MalformedStep,
    }
}

/// Meaning of a step list: each node parsed in order, first error wins.
pub open spec fn spec_parse_steps_from(l: Seq<NodeV>, i: int) -> Result<Seq<StepV>, ParseErrV>
    decreases l.len() - i,
{
    if i < 0 || i >= l.len() {
        Ok(Seq::empty())
    } else {
        match spec_parse_step(l[i]) {
            Err(e) => Err(step_err_to_parse(e)),
            Ok(s) => match spec_parse_steps_from(l, i + 1) {
                Ok(rest) => Ok(seq![s] + rest),
                Err(e) => Err(e),
            },
        }
    }
}

pub open spec fn spec_parse_steps(l: Seq<NodeV>) -> Result<Seq<StepV>, ParseErrV> {
    spec_parse_steps_from(l, 0)
}

/// Accumulated state while the top-level keys are read in order.
pub struct DocAccV {
    pub setup: Option<Seq<StepV>>,
    pub teardown: Option<Seq<StepV>>,
    pub cases: Seq<CaseV>,
}

pub open spec fn has_case(cases: Seq<CaseV>, name: Seq<char>) -> bool {
    exists|j: int| 0 <= j < cases.len() && (#[trigger] cases[j]).name == name
}

/// Meaning of the top-level entries from index `i` on, given what came
/// before: each key binds once, in order.
pub open spec fn spec_parse_entries(
    entries: Seq<(Seq<char>, NodeV)>,
    i: int,
    acc: DocAccV,
) -> Result<DocAccV, ParseErrV>
    decreases entries.len() - i,
{
    if i < 0 || i >= entries.len() {
        Ok(acc)
    } else {
        let k = entries[i].0;
        match entries[i].1 {
            NodeV::List(l) => match spec_parse_steps(l) {
                Err(e) => Err(e),
                Ok(steps) => {
                    if k == "setup"@ {
                        if acc.setup matches Some(_) {
                            Err(ParseErrV::DuplicateKey(k))
                        } else {
                            spec_parse_entries(
                                entries,
                                i + 1,
                                DocAccV { setup: Some(steps), ..acc },
                            )
                        }
                    } else if k == "teardown"@ {
                        if acc.teardown matches Some(_) {
                            Err(ParseErrV::DuplicateKey(k))
                        } else {
                            spec_parse_entries(
                                entries,
                                i + 1,
                                DocAccV { teardown: Some(steps), ..acc },
                            )
                        }
                    } else {
                        if has_case(acc.cases, k) {
                            Err(ParseErrV::DuplicateKey(k))
                        } else {
                            spec_parse_entries(
                                entries,
                                i + 1,
                                DocAccV { cases: acc.cases.push(CaseV { name: k, steps }), ..acc },
                            )
                        }
                    }
                },
            },
            _ => Err(ParseErrV::MalformedStructure),
        }
    }
}

pub open spec fn empty_acc() -> DocAccV {
    DocAccV { setup: None, teardown: None, cases: Seq::empty() }
}

/// Canonical meaning of a whole document tree.
pub open spec fn spec_parse_document(n: NodeV, path: Seq<char>) -> Result<DocV, ParseErrV> {
    match n {
        NodeV::Mapping(es) => match spec_parse_entries(es, 0, empty_acc()) {
            Err(e) => Err(e),
            Ok(acc) => Ok(
                DocV {
                    path,
                    setup: match acc.setup {
                        Some(s) => s,
                        None => Seq::empty(),
                    },
                    teardown: match acc.teardown {
                        Some(s) => s,
                        None => Seq::empty(),
                    },
                    cases: acc.cases,
                },
            ),
        },
        _ => Err(ParseErrV::MalformedStructure),
    }
}

/// Every case name in a parsed document is distinct: a duplicate is rejected
/// while the entries are read, never merged.
pub proof fn lemma_parse_entries_distinct(
    entries: Seq<(Seq<char>, NodeV)>,
    i: int,
    acc: DocAccV,
)
    requires
        forall|p: int, q: int|
            0 <= p < q < acc.cases.len() ==> (#[trigger] acc.cases[p]).name != (
            #[trigger] acc.cases[q]).name,
    ensures
        spec_parse_entries(entries, i, acc) matches Ok(out) ==> forall|p: int, q: int|
            0 <= p < q < out.cases.len() ==> (#[trigger] out.cases[p]).name != (
            #[trigger] out.cases[q]).name,
    decreases entries.len() - i,
{
    if i < 0 || i >= entries.len() {
    } else {
        let k = entries[i].0;
        match entries[i].1 {
            NodeV::List(l) => match spec_parse_steps(l) {
                Err(_) => {},
                Ok(steps) => {
                    if k == "setup"@ {
                        if acc.setup matches Some(_) {
                        } else {
                            lemma_parse_entries_distinct(
                                entries,
                                i + 1,
                                DocAccV { setup: Some(steps), ..acc },
                            );
                        }
                    } else if k == "teardown"@ {
                        if acc.teardown matches Some(_) {
                        } else {
                            lemma_parse_entries_distinct(
                                entries,
                                i + 1,
                                DocAccV { teardown: Some(steps), ..acc },
                            );
                        }
                    } else {
                        if has_case(acc.cases, k) {
                        } else {
                            let next = acc.cases.push(CaseV { name: k, steps });
                            assert(forall|p: int, q: int|
                                0 <= p < q < next.len() ==> (#[trigger] next[p]).name != (
                                #[trigger] next[q]).name);
                            lemma_parse_entries_distinct(
                                entries,
                                i + 1,
                                DocAccV { cases: next, ..acc },
                            );
                        }
                    }
                },
            },
            _ => {},
        }
    }
}

/// A parsed document never merges cases: its case names are pairwise
/// distinct, a duplicate key having been rejected while reading.
pub proof fn lemma_document_case_names_distinct(n: NodeV, path: Seq<char>)
    ensures
        spec_parse_document(n, path) matches Ok(d) ==> forall|p: int, q: int|
            0 <= p < q < d.cases.len() ==> (#[trigger] d.cases[p]).name != (
            #[trigger] d.cases[q]).name,
{
    match n {
        NodeV::Mapping(es) => {
            lemma_parse_entries_distinct(es, 0, empty_acc());
        },
        _ => {},
    }
}

/// Parse an ordered step list.
#[verifier::loop_isolation(false)]
fn parse_steps_exec(items: Vec<Node>) -> (r: Result<Vec<Step>, ParseError>)
    ensures
        match r {
            Ok(steps) => spec_parse_steps(list_view(items)) == Ok::<Seq<StepV>, ParseErrV>(
                steps_view(steps),
            ),
            Err(e) => spec_parse_steps(list_view(items)) == Err::<Seq<StepV>, ParseErrV>(e@),
        },
{
    let ghost l = list_view(items);
    let mut rest = items;
    let mut out: Vec<Step> = Vec::new();
    while rest.len() > 0
        invariant
            out.len() + rest.len() == l.len(),
            forall|k: int|
                0 <= k < rest.len() ==> #[trigger] list_view(rest)[k] == l[out.len() + k],
            spec_parse_steps_from(l, 0) == (match spec_parse_steps_from(l, out.len() as int) {
                Ok(tail) => Ok::<Seq<StepV>, ParseErrV>(steps_view(out) + tail),
                Err(e) => Err::<Seq<StepV>, ParseErrV>(e),
            }),
        decreases rest.len(),
    {
        let ghost pre = rest;
        let ghost i = out.len() as int;
        let x = rest.remove(0);
        assert(node_view(x) == l[i]) by {
            assert(list_view(pre)[0] == node_view(pre[0]));
        }
        assert(forall|k: int|
            0 <= k < rest.len() ==> #[trigger] list_view(rest)[k] == l[i + 1 + k]) by {
            assert(forall|k: int|
                0 <= k < rest.len() ==> rest[k] == pre[k + 1] && #[trigger] list_view(rest)[k]
                    == node_view(rest[k]) && list_view(pre)[k + 1] == node_view(pre[k + 1]));
        }
        match crate::step::parse_step(x) {
            Ok(st) => {
                let ghost out_pre = out;
                out.push(st);
                proof {
                    assert(forall|k: int|
                        0 <= k < out_pre.len() ==> out[k] == out_pre[k] && #[trigger] steps_view(
                            out,
                        )[k] == out[k]@ && steps_view(out_pre)[k] == out_pre[k]@);
                    assert(steps_view(out) =~= steps_view(out_pre) + seq![st@]);
                    if let Ok(tail) = spec_parse_steps_from(l, i + 1) {
                        assert(steps_view(out_pre) + (seq![st@] + tail) =~= steps_view(out)
                            + tail);
                    }
                }
            },
            Err(e) => {
                let pe = match e {
                    crate::step::StepError::UnknownKind(k) => ParseError::UnknownStepKind(k),
                    crate::step::StepError::Malformed => ParseError::MalformedStep,
                };
                return Err(pe);
            },
        }
    }
    proof {
        assert(steps_view(out) + Seq::<StepV>::empty() =~= steps_view(out));
    }
    Ok(out)
}

pub open spec fn acc_view(
    setup: Option<Vec<Step>>,
    teardown: Option<Vec<Step>>,
    cases: Vec<TestCase>,
) -> DocAccV {
    DocAccV {
        setup: match setup {
            Some(v) => Some(steps_view(v)),
            None => None,
        },
        teardown: match teardown {
            Some(v) => Some(steps_view(v)),
            None => None,
        },
        cases: cases_view(cases),
    }
}

/// Whether a case of this name was already read.
#[verifier::loop_isolation(false)]
fn find_case(cases: &Vec<TestCase>, name: &str) -> (r: bool)
    ensures
        r == has_case(cases_view(*cases), name@),
{
    let n: usize = cases.len();
    let mut i: usize = 0;
    while i < n
        invariant
            0 <= i <= n,
            n == cases.len(),
            forall|k: int| 0 <= k < i ==> (#[trigger] cases_view(*cases)[k]).name != name@,
        decreases n - i,
    {
        if str_eq(cases[i].name.as_str(), name) {
            assert(cases_view(*cases)[i as int].name == name@);
            return true;
        }
        assert(cases_view(*cases)[i as int].name == cases[i as int].name@);
        i = i + 1;
    }
    false
}

/// Parse a whole document tree. The result is exactly what
/// `spec_parse_document` gives the tree; `path` names the source document.
#[verifier::loop_isolation(false)]
pub fn parse_document(tree: Node, path: String) -> (r: Result<TestDocument, ParseError>)
    ensures
        match r {
            Ok(d) => spec_parse_document(tree@, path@) == Ok::<DocV, ParseErrV>(d@),
            Err(e) => spec_parse_document(tree@, path@) == Err::<DocV, ParseErrV>(e@),
        },
{
    let entries = match tree {
        Node::Mapping(entries) => entries,
        _ => {
            return Err(ParseError::MalformedStructure);
        },
    };
    let ghost ev = crate::node::entries_view(entries);
    let mut rest = entries;
    let mut setup: Option<Vec<Step>> = None;
    let mut teardown: Option<Vec<Step>> = None;
    let mut cases: Vec<TestCase> = Vec::new();
    let mut done: usize = 0;
    proof {
        assert(cases_view(cases) =~= Seq::<CaseV>::empty());
        assert(acc_view(setup, teardown, cases) == empty_acc());
    }
    while rest.len() > 0
        invariant
            done + rest.len() == ev.len(),
            forall|k: int|
                0 <= k < rest.len() ==> #[trigger] crate::node::entries_view(rest)[k] == ev[done
                    + k],
            spec_parse_entries(ev, 0, empty_acc()) == spec_parse_entries(
                ev,
                done as int,
                acc_view(setup, teardown, cases),
            ),
        decreases rest.len(),
    {
        let ghost pre = rest;
        let ghost i = done as int;
        let (k, v) = rest.remove(0);
        assert((k@, node_view(v)) == ev[i]) by {
            assert(crate::node::entries_view(pre)[0] == (pre[0].0@, node_view(pre[0].1)));
        }
        assert(forall|m: int|
            0 <= m < rest.len() ==> #[trigger] crate::node::entries_view(rest)[m] == ev[i + 1
                + m]) by {
            assert(forall|m: int|
                0 <= m < rest.len() ==> rest[m] == pre[m + 1] && #[trigger] crate::node::entries_view(
                    rest,
                )[m] == (rest[m].0@, node_view(rest[m].1)) && crate::node::entries_view(pre)[m + 1]
                    == (pre[m + 1].0@, node_view(pre[m + 1].1)));
        }
        let items = match v {
            Node::List(items) => items,
            _ => {
                return Err(ParseError::MalformedStructure);
            },
        };
        let steps = match parse_steps_exec(items) {
            Ok(steps) => steps,
            Err(e) => {
                return Err(e);
            },
        };
        if str_eq(k.as_str(), "setup") {
            if setup.is_some() {
                return Err(ParseError::DuplicateKey(k));
            }
            setup = Some(steps);
        } else if str_eq(k.as_str(), "teardown") {
            if teardown.is_some() {
                return Err(ParseError::DuplicateKey(k));
            }
            teardown = Some(steps);
        } else {
            if find_case(&cases, k.as_str()) {
                return Err(ParseError::DuplicateKey(k));
            }
            let ghost cases_pre = cases;
            let ghost kv = k@;
            let ghost stv = steps_view(steps);
            cases.push(TestCase { name: k, steps });
            proof {
                assert(forall|m: int|
                    0 <= m < cases_pre.len() ==> cases[m] == cases_pre[m] && #[trigger] cases_view(
                        cases,
                    )[m] == cases[m]@ && cases_view(cases_pre)[m] == cases_pre[m]@);
                assert(cases_view(cases)[cases_pre.len() as int] == cases[cases_pre.len() as int]@);
                assert(cases_view(cases) =~= cases_view(cases_pre).push(
                    CaseV { name: kv, steps: stv },
                ));
            }
        }
        done = done + 1;
    }
    let setup_steps = match setup {
        Some(s) => s,
        None => {
            let e: Vec<Step> = Vec::new();
            assert(steps_view(e) =~= Seq::<StepV>::empty());
            e
        },
    };
    let teardown_steps = match teardown {
        Some(s) => s,
        None => {
            let e: Vec<Step> = Vec::new();
            assert(steps_view(e) =~= Seq::<StepV>::empty());
            e
        },
    };
    let d = TestDocument { path, setup: setup_steps, teardown: teardown_steps, cases };
    Ok(d)
}

} // verus!
