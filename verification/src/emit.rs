//! The code emitter: lowers every case of a document — excluded or not — to
//! one self-contained generated unit, in declared step order, resolving
//! operation names against the API description and `$name` references against
//! the variables bound by earlier steps. Name sanitization is injective per
//! document: a collision is an error, never a silent merge.

use crate::doc::{steps_view, DocV, TestDocument};
use crate::node::{entries_view, list_view, node_view, Node, NodeV};
use crate::path::spec_parse_path;
use crate::skip::{rules_view, spec_resolve, SkipError, SkipErrV, SkipPolicyRule};
use crate::step::{strings_view, Step, StepV};
use crate::text::str_eq;
use crate::version::Version;
use vstd::prelude::*;

verus! {

broadcast use vstd::std_specs::vec::group_vec_axioms;

/// A lowering outcome: the accumulated text and bindings, or the failure.
pub type LowerOut = Result<(String, Vec<String>), EmitError>;


/// The API description, consulted as an opaque lookup: the operation names
/// that `Do` steps may invoke.
pub struct ApiDescription {
    pub operations: Vec<String>,
}

pub open spec fn api_view(api: ApiDescription) -> Seq<Seq<char>> {
    strings_view(api.operations)
}

pub open spec fn has_operation(ops: Seq<Seq<char>>, name: Seq<char>) -> bool {
    exists|i: int| 0 <= i < ops.len() && ops[i] == name
}

/// One emitted test unit.
pub struct GeneratedUnit {
    pub name: String,
    pub text: String,
    pub ignored: bool,
    pub reasons: Vec<String>,
}

pub struct UnitV {
    pub name: Seq<char>,
    pub text: Seq<char>,
    pub ignored: bool,
    pub reasons: Seq<Seq<char>>,
}

impl View for GeneratedUnit {
    type V = UnitV;

    open spec fn view(&self) -> UnitV {
        UnitV {
            name: self.name@,
            text: self.text@,
            ignored: self.ignored,
            reasons: strings_view(self.reasons),
        }
    }
}

pub open spec fn units_view(v: Vec<GeneratedUnit>) -> Seq<UnitV> {
    Seq::new(
        v.len() as nat,
        |i: int|
            if 0 <= i < v.len() {
                v[i]@
            } else {
                UnitV { name: Seq::empty(), text: Seq::empty(), ignored: false, reasons: Seq::empty() }
            },
    )
}

/// A generation-time failure; each is fatal for the whole document.
#[derive(Clone, PartialEq, Eq, Debug)]
pub enum EmitError {
    /// Two case names sanitize to the same unit name.
    NameCollision(String),
    /// A `Do` step names an operation absent from the API description.
    UnknownOperation(String),
    /// A `$name` reference no earlier step bound.
    UnresolvedVariable(String),
    /// A path expression with an empty segment.
    BadPath(String),
    /// An extended-regex literal that does not translate.
    BadPattern(String),
}

pub enum EmitErrV {
    NameCollision(Seq<char>),
    UnknownOperation(Seq<char>),
    UnresolvedVariable(Seq<char>),
    BadPath(Seq<char>),
    BadPattern(Seq<char>),
}

impl View for EmitError {
    type V = EmitErrV;

    open spec fn view(&self) -> EmitErrV {
        match self {
            EmitError::NameCollision(n) => EmitErrV::NameCollision(n@),
            EmitError::UnknownOperation(n) => EmitErrV::UnknownOperation(n@),
            EmitError::UnresolvedVariable(n) => EmitErrV::UnresolvedVariable(n@),
            EmitError::BadPath(n) => EmitErrV::BadPath(n@),
            EmitError::BadPattern(n) => EmitErrV::BadPattern(n@),
        }
    }
}

/// One character of a sanitized unit name: lower-case letters, digits and
/// underscores survive; upper-case ASCII is lowered; all else becomes `_`.
pub open spec fn sanitize_char(c: char) -> char {
    if ('a' <= c && c <= 'z') || ('0' <= c && c <= '9') || c == '_' {
        c
    } else if 'A' <= c && c <= 'Z' {
        (((c as u32) + 32) as u8) as char
    } else {
        '_'
    }
}

pub open spec fn spec_sanitize(s: Seq<char>) -> Seq<char> {
    s.map_values(|c: char| sanitize_char(c))
}

/// Sanitize a case name into a unit name.
#[verifier::loop_isolation(false)]
pub fn sanitize_name(s: &str) -> (r: String)
    ensures
        r@ == spec_sanitize(s@),
{
    let n: usize = s.unicode_len();
    let mut out: Vec<char> = Vec::new();
    let mut i: usize = 0;
    while i < n
        invariant
            0 <= i <= n,
            n == s@.len(),
            out@ =~= s@.take(i as int).map_values(|c: char| sanitize_char(c)),
        decreases n - i,
    {
        let c = s.get_char(i);
        let mapped: char = if ('a' <= c && c <= 'z') || ('0' <= c && c <= '9') || c == '_' {
            c
        } else if 'A' <= c && c <= 'Z' {
            (((c as u32) + 32) as u8) as char
        } else {
            '_'
        };
        assert(mapped == sanitize_char(c));
        out.push(mapped);
        i = i + 1;
        assert(out@ =~= s@.take(i as int).map_values(|c: char| sanitize_char(c)));
    }
    assert(s@.take(n as int) =~= s@);
    assert(out@ =~= spec_sanitize(s@));
    crate::text::string_from_chars(out)
}

pub open spec fn bound_has(bound: Seq<Seq<char>>, name: Seq<char>) -> bool {
    exists|i: int| 0 <= i < bound.len() && bound[i] == name
}

/// The first unresolved `$name` reference inside a payload value, if any,
/// given the variables bound so far.
pub open spec fn unresolved_in_node(n: NodeV, bound: Seq<Seq<char>>) -> Option<Seq<char>>
    decreases n, 0int,
{
    match n {
        NodeV::Scalar(s) => {
            if crate::path::is_variable_ref(s) && !bound_has(bound, crate::path::ref_name(s)) {
                Some(crate::path::ref_name(s))
            } else {
                None
            }
        },
        NodeV::List(l) => unresolved_in_list(l, bound),
        NodeV::Mapping(m) => unresolved_in_entries(m, bound),
        _ => None,
    }
}

pub open spec fn unresolved_in_list(l: Seq<NodeV>, bound: Seq<Seq<char>>) -> Option<Seq<char>>
    decreases l, 1int,
{
    if l.len() == 0 {
        None
    } else {
        match unresolved_in_node(l[0], bound) {
            Some(name) => Some(name),
            None => unresolved_in_list(l.drop_first(), bound),
        }
    }
}

pub open spec fn unresolved_in_entries(
    m: Seq<(Seq<char>, NodeV)>,
    bound: Seq<Seq<char>>,
) -> Option<Seq<char>>
    decreases m, 1int,
{
    if m.len() == 0 {
        None
    } else {
        match unresolved_in_node(m[0].1, bound) {
            Some(name) => Some(name),
            None => unresolved_in_entries(m.drop_first(), bound),
        }
    }
}

/// Whether a scalar is an unresolved reference; shared by the scans.
#[verifier::loop_isolation(false)]
fn scalar_unresolved(s: &String, bound: &Vec<String>) -> (r: Option<String>)
    ensures
        match r {
            Some(name) => unresolved_in_node(NodeV::Scalar(s@), strings_view(*bound)) == Some(
                name@,
            ),
            None => unresolved_in_node(NodeV::Scalar(s@), strings_view(*bound)) == None::<
                Seq<char>,
            >,
        },
{
    if !crate::path::check_variable_ref(s.as_str()) {
        return None;
    }
    let st: &str = s.as_str();
    let n: usize = st.unicode_len();
    let name_str = st.substring_char(1, n);
    assert(name_str@ == crate::path::ref_name(s@));
    let m: usize = bound.len();
    let mut j: usize = 0;
    while j < m
        invariant
            0 <= j <= m,
            m == bound.len(),
            forall|k: int| 0 <= k < j ==> strings_view(*bound)[k] != name_str@,
        decreases m - j,
    {
        if str_eq(bound[j].as_str(), name_str) {
            assert(strings_view(*bound)[j as int] == name_str@);
            return None;
        }
        assert(strings_view(*bound)[j as int] == bound[j as int]@);
        j = j + 1;
    }
    assert(!bound_has(strings_view(*bound), name_str@));
    Some(String::from_str(name_str))
}

/// Scan a payload value for the first unresolved reference.
#[verifier::loop_isolation(false)]
pub fn find_unresolved(n: &Node, bound: &Vec<String>) -> (r: Option<String>)
    ensures
        match r {
            Some(name) => unresolved_in_node(n@, strings_view(*bound)) == Some(name@),
            None => unresolved_in_node(n@, strings_view(*bound)) == None::<Seq<char>>,
        },
    decreases *n,
{
    let ghost bv = strings_view(*bound);
    match n {
        Node::Scalar(s) => scalar_unresolved(s, bound),
        Node::List(items) => {
            let ghost l = list_view(*items);
            let cnt: usize = items.len();
            let mut i: usize = 0;
            assert(l.skip(0) =~= l);
            while i < cnt
                invariant
                    0 <= i <= cnt,
                    cnt == items.len(),
                    unresolved_in_list(l, bv) == unresolved_in_list(l.skip(i as int), bv),
                decreases cnt - i,
            {
                proof {
                    assert(decreases_to!(*items => items[i as int]));
                    assert(decreases_to!(*n => items[i as int]));
                }
                let f = find_unresolved(&items[i], bound);
                assert(l.skip(i as int)[0] == l[i as int] && l[i as int] == node_view(
                    items[i as int],
                ));
                match f {
                    Some(name) => {
                        return Some(name);
                    },
                    None => {},
                }
                assert(l.skip(i as int).drop_first() =~= l.skip(i + 1));
                i = i + 1;
            }
            assert(l.skip(cnt as int).len() == 0);
            None
        },
        Node::Mapping(entries) => {
            let ghost m = entries_view(*entries);
            let cnt: usize = entries.len();
            let mut i: usize = 0;
            assert(m.skip(0) =~= m);
            while i < cnt
                invariant
                    0 <= i <= cnt,
                    cnt == entries.len(),
                    unresolved_in_entries(m, bv) == unresolved_in_entries(m.skip(i as int), bv),
                decreases cnt - i,
            {
                proof {
                    assert(decreases_to!(*entries => entries[i as int]));
                    assert(decreases_to!(*n => entries[i as int].1));
                }
                let f = find_unresolved(&entries[i].1, bound);
                assert(m.skip(i as int)[0] == m[i as int] && m[i as int].1 == node_view(
                    entries[i as int].1,
                ));
                match f {
                    Some(name) => {
                        return Some(name);
                    },
                    None => {},
                }
                assert(m.skip(i as int).drop_first() =~= m.skip(i + 1));
                i = i + 1;
            }
            assert(m.skip(cnt as int).len() == 0);
            None
        },
        _ => None,
    }
}

/// The textual form a payload value takes inside a generated unit.
pub open spec fn spec_node_text(n: NodeV) -> Seq<char>
    decreases n, 0int,
{
    match n {
        NodeV::Null => "null"@,
        NodeV::Bool(b) => if b {
            "true"@
        } else {
            "false"@
        },
        NodeV::Scalar(s) => seq!['"'] + s + seq!['"'],
        NodeV::List(l) => seq!['['] + spec_list_text(l) + seq![']'],
        NodeV::Mapping(m) => seq!['{'] + spec_entries_text(m) + seq!['}'],
    }
}

pub open spec fn spec_list_text(l: Seq<NodeV>) -> Seq<char>
    decreases l, 1int,
{
    if l.len() == 0 {
        Seq::empty()
    } else if l.len() == 1 {
        spec_node_text(l[0])
    } else {
        spec_node_text(l[0]) + ", "@ + spec_list_text(l.drop_first())
    }
}

pub open spec fn spec_entries_text(m: Seq<(Seq<char>, NodeV)>) -> Seq<char>
    decreases m, 1int,
{
    if m.len() == 0 {
        Seq::empty()
    } else if m.len() == 1 {
        m[0].0 + ": "@ + spec_node_text(m[0].1)
    } else {
        m[0].0 + ": "@ + spec_node_text(m[0].1) + ", "@ + spec_entries_text(m.drop_first())
    }
}

/// Render a payload value into generated text.
#[verifier::loop_isolation(false)]
pub fn node_text(n: &Node) -> (r: String)
    ensures
        r@ == spec_node_text(n@),
    decreases *n,
{
    match n {
        Node::Null => String::from_str("null"),
        Node::Bool(b) => {
            if *b {
                String::from_str("true")
            } else {
                String::from_str("false")
            }
        },
        Node::Scalar(s) => {
            let mut t = String::from_str("\u{22}");
            t.append(s.as_str());
            t.append("\u{22}");
            proof {
                reveal_strlit("\u{22}");
                assert("\u{22}"@ =~= seq!['"']);
                assert(t@ =~= seq!['"'] + s@ + seq!['"']);
            }
            t
        },
        Node::List(items) => {
            let ghost l = list_view(*items);
            let mut t = String::from_str("[");
            proof {
                reveal_strlit("[");
                reveal_strlit("]");
                assert("["@ =~= seq!['[']);
                assert("]"@ =~= seq![']']);
            }
            let cnt: usize = items.len();
            let mut i: usize = 0;
            assert(l.skip(0) =~= l);
            while i < cnt
                invariant
                    0 <= i <= cnt,
                    cnt == items.len(),
                    t@ + spec_list_text(l.skip(i as int)) =~= seq!['['] + spec_list_text(l),
                decreases cnt - i,
            {
                proof {
                    assert(decreases_to!(*items => items[i as int]));
                    assert(decreases_to!(*n => items[i as int]));
                }
                let piece = node_text(&items[i]);
                assert(l.skip(i as int)[0] == l[i as int] && l[i as int] == node_view(
                    items[i as int],
                ));
                t.append(piece.as_str());
                if i + 1 < cnt {
                    t.append(", ");
                    proof {
                        assert(l.skip(i as int).drop_first() =~= l.skip(i + 1));
                        assert(t@ + spec_list_text(l.skip(i + 1)) =~= seq!['['] + spec_list_text(
                            l,
                        ));
                    }
                } else {
                    proof {
                        assert(l.skip(i as int).len() == 1);
                        assert(t@ + spec_list_text(l.skip(i + 1)) =~= seq!['['] + spec_list_text(
                            l,
                        ));
                    }
                }
                i = i + 1;
            }
            t.append("]");
            proof {
                assert(spec_list_text(l.skip(cnt as int)) =~= Seq::<char>::empty());
                assert(t@ =~= seq!['['] + spec_list_text(l) + seq![']']);
            }
            t
        },
        Node::Mapping(entries) => {
            let ghost m = entries_view(*entries);
            let mut t = String::from_str("{");
            proof {
                reveal_strlit("{");
                reveal_strlit("}");
                assert("{"@ =~= seq!['{']);
                assert("}"@ =~= seq!['}']);
            }
            let cnt: usize = entries.len();
            let mut i: usize = 0;
            assert(m.skip(0) =~= m);
            while i < cnt
                invariant
                    0 <= i <= cnt,
                    cnt == entries.len(),
                    t@ + spec_entries_text(m.skip(i as int)) =~= seq!['{'] + spec_entries_text(m),
                decreases cnt - i,
            {
                proof {
                    assert(decreases_to!(*entries => entries[i as int]));
                    assert(decreases_to!(*n => entries[i as int].1));
                }
                t.append(entries[i].0.as_str());
                t.append(": ");
                let piece = node_text(&entries[i].1);
                assert(m.skip(i as int)[0] == m[i as int] && m[i as int] == (
                    entries[i as int].0@,
                    node_view(entries[i as int].1),
                ));
                t.append(piece.as_str());
                if i + 1 < cnt {
                    t.append(", ");
                    proof {
                        assert(m.skip(i as int).drop_first() =~= m.skip(i + 1));
                        assert(t@ + spec_entries_text(m.skip(i + 1)) =~= seq!['{']
                            + spec_entries_text(m));
                    }
                } else {
                    proof {
                        assert(m.skip(i as int).len() == 1);
                        assert(t@ + spec_entries_text(m.skip(i + 1)) =~= seq!['{']
                            + spec_entries_text(m));
                    }
                }
                i = i + 1;
            }
            t.append("}");
            proof {
                assert(spec_entries_text(m.skip(cnt as int)) =~= Seq::<char>::empty());
                assert(t@ =~= seq!['{'] + spec_entries_text(m) + seq!['}']);
            }
            t
        },
    }
}


/// A scalar written `/.../flags` is an extended-regex literal.
pub open spec fn is_regex_literal(s: Seq<char>) -> bool {
    s.len() > 0 && s[0] == '/'
}

/// Whether a payload value is a regex literal that fails translation.
pub open spec fn scalar_pattern_bad(nv: NodeV) -> bool {
    match nv {
        NodeV::Scalar(s) => is_regex_literal(s) && (crate::pattern::spec_translate(s)
            matches Err(_)),
        _ => false,
    }
}

pub open spec fn scalar_text_of(nv: NodeV) -> Seq<char> {
    match nv {
        NodeV::Scalar(s) => s,
        _ => Seq::empty(),
    }
}

pub open spec fn catch_pattern_bad(catch: Option<Seq<char>>) -> bool {
    match catch {
        Some(c) => is_regex_literal(c) && (crate::pattern::spec_translate(c) matches Err(_)),
        None => false,
    }
}

pub open spec fn catch_text(catch: Option<Seq<char>>) -> Seq<char> {
    match catch {
        Some(c) => " catch "@ + c,
        None => Seq::empty(),
    }
}

/// The statement one step lowers to, and the variables bound after it.
pub open spec fn spec_lower_step(
    s: StepV,
    bound: Seq<Seq<char>>,
    ops: Seq<Seq<char>>,
) -> Result<(Seq<char>, Seq<Seq<char>>), EmitErrV> {
    match s {
        StepV::Do { operation, params, catch } => {
            if !has_operation(ops, operation) {
                Err(EmitErrV::UnknownOperation(operation))
            } else if catch_pattern_bad(catch) {
                Err(EmitErrV::BadPattern(match catch {
                    Some(c) => c,
                    None => Seq::empty(),
                }))
            } else {
                match unresolved_in_entries(params, bound) {
                    Some(name) => Err(EmitErrV::UnresolvedVariable(name)),
                    None => Ok(
                        (
                            "do "@ + operation + catch_text(catch) + " "@ + spec_node_text(
                                NodeV::Mapping(params),
                            ) + ";\n"@,
                            bound,
                        ),
                    ),
                }
            }
        },
        StepV::SetVar { path, var } => match spec_parse_path(path) {
            None => Err(EmitErrV::BadPath(path)),
            Some(_) => Ok(("set "@ + var + " = "@ + path + ";\n"@, bound.push(var))),
        },
        StepV::TransformAndSet { path, var, transform } => match spec_parse_path(path) {
            None => Err(EmitErrV::BadPath(path)),
            Some(_) => Ok(
                (
                    "set "@ + var + " = "@ + transform + "("@ + path + ");\n"@,
                    bound.push(var),
                ),
            ),
        },
        StepV::Match { path, expected } => match spec_parse_path(path) {
            None => Err(EmitErrV::BadPath(path)),
            Some(_) => if scalar_pattern_bad(expected) {
                Err(EmitErrV::BadPattern(scalar_text_of(expected)))
            } else {
                match unresolved_in_node(expected, bound) {
                    Some(name) => Err(EmitErrV::UnresolvedVariable(name)),
                    None => Ok(
                        (
                            "assert match "@ + path + " == "@ + spec_node_text(expected) + ";\n"@,
                            bound,
                        ),
                    ),
                }
            },
        },
        StepV::Length { path, expected } => match spec_parse_path(path) {
            None => Err(EmitErrV::BadPath(path)),
            Some(_) => Ok(("assert length "@ + path + " == "@ + expected + ";\n"@, bound)),
        },
        StepV::Compare { kind, path, expected } => match spec_parse_path(path) {
            None => Err(EmitErrV::BadPath(path)),
            Some(_) => match unresolved_in_node(expected, bound) {
                Some(name) => Err(EmitErrV::UnresolvedVariable(name)),
                None => Ok(
                    (
                        "assert "@ + crate::step::cmp_key(kind) + " "@ + path + " "@
                            + spec_node_text(expected) + ";\n"@,
                        bound,
                    ),
                ),
            },
        },
        StepV::IsTrue { path } => match spec_parse_path(path) {
            None => Err(EmitErrV::BadPath(path)),
            Some(_) => Ok(("assert is_true "@ + path + ";\n"@, bound)),
        },
        StepV::IsFalse { path } => match spec_parse_path(path) {
            None => Err(EmitErrV::BadPath(path)),
            Some(_) => Ok(("assert is_false "@ + path + ";\n"@, bound)),
        },
        StepV::Contains { path, expected } => match spec_parse_path(path) {
            None => Err(EmitErrV::BadPath(path)),
            Some(_) => match unresolved_in_node(expected, bound) {
                Some(name) => Err(EmitErrV::UnresolvedVariable(name)),
                None => Ok(
                    (
                        "assert contains "@ + path + " "@ + spec_node_text(expected) + ";\n"@,
                        bound,
                    ),
                ),
            },
        },
        StepV::Skip { .. } => Ok((Seq::empty(), bound)),
    }
}

/// Lower a step list in order, threading the text and the bound variables.
pub open spec fn spec_lower_steps(
    steps: Seq<StepV>,
    i: int,
    text: Seq<char>,
    bound: Seq<Seq<char>>,
    ops: Seq<Seq<char>>,
) -> Result<(Seq<char>, Seq<Seq<char>>), EmitErrV>
    decreases steps.len() - i,
{
    if i < 0 || i >= steps.len() {
        Ok((text, bound))
    } else {
        match spec_lower_step(steps[i], bound, ops) {
            Err(e) => Err(e),
            Ok(p) => spec_lower_steps(steps, i + 1, text + p.0, p.1, ops),
        }
    }
}

/// Whether the API description knows an operation name.
#[verifier::loop_isolation(false)]
fn op_known(api: &ApiDescription, name: &str) -> (r: bool)
    ensures
        r == has_operation(strings_view(api.operations), name@),
{
    let n: usize = api.operations.len();
    let mut i: usize = 0;
    while i < n
        invariant
            0 <= i <= n,
            n == api.operations.len(),
            forall|k: int| 0 <= k < i ==> strings_view(api.operations)[k] != name@,
        decreases n - i,
    {
        if str_eq(api.operations[i].as_str(), name) {
            assert(strings_view(api.operations)[i as int] == name@);
            return true;
        }
        assert(strings_view(api.operations)[i as int] == api.operations[i as int]@);
        i = i + 1;
    }
    false
}

/// The mathematical value of a lowering result.
pub open spec fn lower_result_view(r: Result<(String, Vec<String>), EmitError>) -> Result<
    (Seq<char>, Seq<Seq<char>>),
    EmitErrV,
> {
    match r {
        Ok(p) => Ok((p.0@, strings_view(p.1))),
        Err(e) => Err(e@),
    }
}

/// Recognize an extended-regex literal.
fn starts_with_slash(s: &str) -> (r: bool)
    ensures
        r == is_regex_literal(s@),
{
    s.unicode_len() > 0 && s.get_char(0) == '/'
}

/// Lower one step.
fn lower_step(s: &Step, bound: Vec<String>, api: &ApiDescription) -> (r: Result<
    (String, Vec<String>),
    EmitError,
>)
    ensures
        lower_result_view(r) == spec_lower_step(
            s@,
            strings_view(bound),
            strings_view(api.operations),
        ),
{
    let ghost bv = strings_view(bound);
    match s {
        Step::Do { operation, params, catch } => {
            if !op_known(api, operation.as_str()) {
                return Err(EmitError::UnknownOperation(crate::skip::clone_string(operation)));
            }
            match catch {
                Some(c) => {
                    if starts_with_slash(c.as_str()) && crate::pattern::translate_pattern(
                        c.as_str(),
                    ).is_err() {
                        return Err(EmitError::BadPattern(crate::skip::clone_string(c)));
                    }
                },
                None => {},
            }
            let pnode = entries_unresolved(params, &bound);
            match pnode {
                Some(name) => Err(EmitError::UnresolvedVariable(name)),
                None => {
                    let mut t = String::from_str("do ");
                    t.append(operation.as_str());
                    match catch {
                        Some(c) => {
                            t.append(" catch ");
                            t.append(c.as_str());
                        },
                        None => {},
                    }
                    t.append(" ");
                    let body = entries_text(params);
                    t.append(body.as_str());
                    t.append(";\n");
                    proof {
                        let pv = entries_view(*params);
                        match catch {
                            Some(c) => {
                                assert(t@ =~= "do "@ + operation@ + (" catch "@ + c@) + " "@
                                    + spec_node_text(NodeV::Mapping(pv)) + ";\n"@);
                            },
                            None => {
                                assert(t@ =~= "do "@ + operation@ + Seq::<char>::empty() + " "@
                                    + spec_node_text(NodeV::Mapping(pv)) + ";\n"@);
                            },
                        }
                    }
                    Ok((t, bound))
                },
            }
        },
        Step::SetVar { path, var } => {
            if crate::path::parse_path(path.as_str()).is_none() {
                return Err(EmitError::BadPath(crate::skip::clone_string(path)));
            }
            let mut t = String::from_str("set ");
            t.append(var.as_str());
            t.append(" = ");
            t.append(path.as_str());
            t.append(";\n");
            let ghost varv = var@;
            let mut b2 = bound;
            b2.push(crate::skip::clone_string(var));
            proof {
                lemma_strings_view_push(b2, bv, varv);
            }
            Ok((t, b2))
        },
        Step::TransformAndSet { path, var, transform } => {
            if crate::path::parse_path(path.as_str()).is_none() {
                return Err(EmitError::BadPath(crate::skip::clone_string(path)));
            }
            let mut t = String::from_str("set ");
            t.append(var.as_str());
            t.append(" = ");
            t.append(transform.as_str());
            t.append("(");
            t.append(path.as_str());
            t.append(");\n");
            let ghost varv = var@;
            let mut b2 = bound;
            b2.push(crate::skip::clone_string(var));
            proof {
                lemma_strings_view_push(b2, bv, varv);
            }
            Ok((t, b2))
        },
        Step::Match { path, expected } => {
            if crate::path::parse_path(path.as_str()).is_none() {
                return Err(EmitError::BadPath(crate::skip::clone_string(path)));
            }
            match expected {
                Node::Scalar(s) => {
                    if starts_with_slash(s.as_str()) && crate::pattern::translate_pattern(
                        s.as_str(),
                    ).is_err() {
                        return Err(EmitError::BadPattern(crate::skip::clone_string(s)));
                    }
                },
                _ => {},
            }
            match find_unresolved(expected, &bound) {
                Some(name) => Err(EmitError::UnresolvedVariable(name)),
                None => {
                    let mut t = String::from_str("assert match ");
                    t.append(path.as_str());
                    t.append(" == ");
                    let body = node_text(expected);
                    t.append(body.as_str());
                    t.append(";\n");
                    Ok((t, bound))
                },
            }
        },
        Step::Length { path, expected } => {
            if crate::path::parse_path(path.as_str()).is_none() {
                return Err(EmitError::BadPath(crate::skip::clone_string(path)));
            }
            let mut t = String::from_str("assert length ");
            t.append(path.as_str());
            t.append(" == ");
            t.append(expected.as_str());
            t.append(";\n");
            Ok((t, bound))
        },
        Step::Compare { kind, path, expected } => {
            if crate::path::parse_path(path.as_str()).is_none() {
                return Err(EmitError::BadPath(crate::skip::clone_string(path)));
            }
            match find_unresolved(expected, &bound) {
                Some(name) => Err(EmitError::UnresolvedVariable(name)),
                None => {
                    let mut t = String::from_str("assert ");
                    let key: &str = match kind {
                        crate::step::CmpKind::Gt => "gt",
                        crate::step::CmpKind::Gte => "gte",
                        crate::step::CmpKind::Lt => "lt",
                        crate::step::CmpKind::Lte => "lte",
                    };
                    assert(key@ == crate::step::cmp_key(*kind));
                    t.append(key);
                    t.append(" ");
                    t.append(path.as_str());
                    t.append(" ");
                    let body = node_text(expected);
                    t.append(body.as_str());
                    t.append(";\n");
                    Ok((t, bound))
                },
            }
        },
        Step::IsTrue { path } => {
            if crate::path::parse_path(path.as_str()).is_none() {
                return Err(EmitError::BadPath(crate::skip::clone_string(path)));
            }
            let mut t = String::from_str("assert is_true ");
            t.append(path.as_str());
            t.append(";\n");
            Ok((t, bound))
        },
        Step::IsFalse { path } => {
            if crate::path::parse_path(path.as_str()).is_none() {
                return Err(EmitError::BadPath(crate::skip::clone_string(path)));
            }
            let mut t = String::from_str("assert is_false ");
            t.append(path.as_str());
            t.append(";\n");
            Ok((t, bound))
        },
        Step::Contains { path, expected } => {
            if crate::path::parse_path(path.as_str()).is_none() {
                return Err(EmitError::BadPath(crate::skip::clone_string(path)));
            }
            match find_unresolved(expected, &bound) {
                Some(name) => Err(EmitError::UnresolvedVariable(name)),
                None => {
                    let mut t = String::from_str("assert contains ");
                    t.append(path.as_str());
                    t.append(" ");
                    let body = node_text(expected);
                    t.append(body.as_str());
                    t.append(";\n");
                    Ok((t, bound))
                },
            }
        },
        Step::Skip { .. } => {
            let t = String::from_str("");
            proof {
                reveal_strlit("");
                assert(t@ =~= Seq::<char>::empty());
            }
            Ok((t, bound))
        },
    }
}

proof fn lemma_strings_view_push(b2: Vec<String>, old_view: Seq<Seq<char>>, varv: Seq<char>)
    requires
        b2.len() > 0,
        old_view.len() == b2.len() - 1,
        forall|k: int| 0 <= k < b2.len() - 1 ==> old_view[k] == b2[k]@,
        b2[b2.len() - 1]@ == varv,
    ensures
        strings_view(b2) == old_view.push(varv),
{
    assert(strings_view(b2) =~= old_view.push(varv));
}

/// Scan `Do` parameters for the first unresolved reference.
#[verifier::loop_isolation(false)]
fn entries_unresolved(entries: &Vec<(String, Node)>, bound: &Vec<String>) -> (r: Option<String>)
    ensures
        match r {
            Some(name) => unresolved_in_entries(entries_view(*entries), strings_view(*bound))
                == Some(name@),
            None => unresolved_in_entries(entries_view(*entries), strings_view(*bound)) == None::<
                Seq<char>,
            >,
        },
{
    let ghost m = entries_view(*entries);
    let ghost bv = strings_view(*bound);
    let cnt: usize = entries.len();
    let mut i: usize = 0;
    assert(m.skip(0) =~= m);
    while i < cnt
        invariant
            0 <= i <= cnt,
            cnt == entries.len(),
            unresolved_in_entries(m, bv) == unresolved_in_entries(m.skip(i as int), bv),
        decreases cnt - i,
    {
        let f = find_unresolved(&entries[i].1, bound);
        assert(m.skip(i as int)[0] == m[i as int] && m[i as int].1 == node_view(
            entries[i as int].1,
        ));
        match f {
            Some(name) => {
                return Some(name);
            },
            None => {},
        }
        assert(m.skip(i as int).drop_first() =~= m.skip(i + 1));
        i = i + 1;
    }
    assert(m.skip(cnt as int).len() == 0);
    None
}

/// Render a parameter mapping (with braces), as `spec_node_text` gives it.
#[verifier::loop_isolation(false)]
pub fn entries_text(entries: &Vec<(String, Node)>) -> (r: String)
    ensures
        r@ == spec_node_text(NodeV::Mapping(entries_view(*entries))),
{
    let ghost m = entries_view(*entries);
    let mut t = String::from_str("{");
    proof {
        reveal_strlit("{");
        reveal_strlit("}");
        assert("{"@ =~= seq!['{']);
        assert("}"@ =~= seq!['}']);
    }
    let cnt: usize = entries.len();
    let mut i: usize = 0;
    assert(m.skip(0) =~= m);
    while i < cnt
        invariant
            0 <= i <= cnt,
            cnt == entries.len(),
            t@ + spec_entries_text(m.skip(i as int)) =~= seq!['{'] + spec_entries_text(m),
        decreases cnt - i,
    {
        t.append(entries[i].0.as_str());
        t.append(": ");
        let piece = node_text(&entries[i].1);
        assert(m.skip(i as int)[0] == m[i as int] && m[i as int] == (
            entries[i as int].0@,
            node_view(entries[i as int].1),
        ));
        t.append(piece.as_str());
        if i + 1 < cnt {
            t.append(", ");
            proof {
                assert(m.skip(i as int).drop_first() =~= m.skip(i + 1));
                assert(t@ + spec_entries_text(m.skip(i + 1)) =~= seq!['{'] + spec_entries_text(
                    m,
                ));
            }
        } else {
            proof {
                assert(m.skip(i as int).len() == 1);
                assert(t@ + spec_entries_text(m.skip(i + 1)) =~= seq!['{'] + spec_entries_text(
                    m,
                ));
            }
        }
        i = i + 1;
    }
    t.append("}");
    proof {
        assert(spec_entries_text(m.skip(cnt as int)) =~= Seq::<char>::empty());
        assert(t@ =~= seq!['{'] + spec_entries_text(m) + seq!['}']);
    }
    t
}

/// Meaning of lowering a whole step vector from the start.
pub open spec fn spec_lower_vec(
    steps: Vec<Step>,
    text: Seq<char>,
    bound: Seq<Seq<char>>,
    ops: Seq<Seq<char>>,
) -> Result<(Seq<char>, Seq<Seq<char>>), EmitErrV> {
    spec_lower_steps(steps_view(steps), 0, text, bound, ops)
}

/// Lower a whole step list, continuing from the given text and bindings.
#[verifier::loop_isolation(false)]
fn lower_list(
    steps: &Vec<Step>,
    text: String,
    bound: Vec<String>,
    api: &ApiDescription,
) -> (r: LowerOut)
    ensures
        lower_result_view(r) == spec_lower_vec(
            *steps,
            text@,
            strings_view(bound),
            strings_view(api.operations),
        ),
{
    let ghost sv = steps_view(*steps);
    let ghost ops = strings_view(api.operations);
    let ghost t0 = text@;
    let ghost b0 = strings_view(bound);
    let n: usize = steps.len();
    let mut i: usize = 0;
    let mut t = text;
    let mut b = bound;
    while i < n
        invariant
            0 <= i <= n,
            n == steps.len(),
            spec_lower_steps(sv, 0, t0, b0, ops) == spec_lower_steps(sv, i as int, t@, strings_view(b), ops),
        decreases n - i,
    {
        assert(sv[i as int] == steps[i as int]@);
        match lower_step(&steps[i], b, api) {
            Ok(p) => {
                let (piece, b2) = p;
                t.append(piece.as_str());
                b = b2;
            },
            Err(e) => {
                return Err(e);
            },
        }
        i = i + 1;
    }
    Ok((t, b))
}


/// A whole-pipeline failure: parsing, skip evaluation or generation.
#[derive(Debug)]
pub enum CompileError {
    Parse(crate::doc::ParseError),
    Skip(SkipError),
    Emit(EmitError),
}

pub enum CompileErrV {
    Parse(crate::doc::ParseErrV),
    Skip(SkipErrV),
    Emit(EmitErrV),
}

impl View for CompileError {
    type V = CompileErrV;

    open spec fn view(&self) -> CompileErrV {
        match self {
            CompileError::Parse(e) => CompileErrV::Parse(e@),
            CompileError::Skip(e) => CompileErrV::Skip(e@),
            CompileError::Emit(e) => CompileErrV::Emit(e@),
        }
    }
}

/// The mathematical value of an emission result.
pub open spec fn units_result_view(r: Result<Vec<GeneratedUnit>, CompileError>) -> Result<
    Seq<UnitV>,
    CompileErrV,
> {
    match r {
        Ok(us) => Ok(units_view(us)),
        Err(e) => Err(e@),
    }
}

/// Text of the accumulated exclusion reasons.
pub open spec fn spec_reasons_text(rs: Seq<Seq<char>>) -> Seq<char>
    decreases rs.len(),
{
    if rs.len() == 0 {
        Seq::empty()
    } else if rs.len() == 1 {
        rs[0]
    } else {
        rs[0] + "; "@ + spec_reasons_text(rs.drop_first())
    }
}

#[verifier::loop_isolation(false)]
fn reasons_text(rs: &Vec<String>) -> (r: String)
    ensures
        r@ == spec_reasons_text(strings_view(*rs)),
{
    let ghost rv = strings_view(*rs);
    let mut t = String::from_str("");
    proof {
        reveal_strlit("");
        assert(t@ =~= Seq::<char>::empty());
    }
    let cnt: usize = rs.len();
    let mut i: usize = 0;
    assert(rv.skip(0) =~= rv);
    while i < cnt
        invariant
            0 <= i <= cnt,
            cnt == rs.len(),
            t@ + spec_reasons_text(rv.skip(i as int)) =~= spec_reasons_text(rv),
        decreases cnt - i,
    {
        t.append(rs[i].as_str());
        assert(rv.skip(i as int)[0] == rv[i as int] && rv[i as int] == rs[i as int]@);
        if i + 1 < cnt {
            t.append("; ");
            proof {
                assert(rv.skip(i as int).drop_first() =~= rv.skip(i + 1));
                assert(t@ + spec_reasons_text(rv.skip(i + 1)) =~= spec_reasons_text(rv));
            }
        } else {
            proof {
                assert(rv.skip(i as int).len() == 1);
                assert(t@ + spec_reasons_text(rv.skip(i + 1)) =~= spec_reasons_text(rv));
            }
        }
        i = i + 1;
    }
    proof {
        assert(spec_reasons_text(rv.skip(cnt as int)) =~= Seq::<char>::empty());
        assert(t@ =~= spec_reasons_text(rv));
    }
    t
}

/// The header of one generated unit: its name, and its exclusion mark.
pub open spec fn unit_header(san: Seq<char>, excl: crate::skip::ExclusionV) -> Seq<char> {
    "unit "@ + san + "\n"@ + (if excl.excluded {
        "ignored: "@ + spec_reasons_text(excl.reasons) + "\n"@
    } else {
        Seq::empty()
    })
}

pub open spec fn unit_name_taken(acc: Seq<UnitV>, san: Seq<char>) -> bool {
    exists|k: int| 0 <= k < acc.len() && acc[k].name == san
}

/// Emission, case by case: sanitized names must stay distinct; every case —
/// excluded or not — yields one unit of header, setup, case and teardown
/// statements in declared order.
pub open spec fn spec_emit_cases(
    doc: DocV,
    i: int,
    acc: Seq<UnitV>,
    rules: Seq<crate::skip::SkipRuleV>,
    target: Version,
    active: Seq<Seq<char>>,
    ops: Seq<Seq<char>>,
) -> Result<Seq<UnitV>, CompileErrV>
    decreases doc.cases.len() - i,
{
    if i < 0 || i >= doc.cases.len() {
        Ok(acc)
    } else {
        let c = doc.cases[i];
        let san = spec_sanitize(c.name);
        if unit_name_taken(acc, san) {
            Err(CompileErrV::Emit(EmitErrV::NameCollision(san)))
        } else {
            match spec_resolve(rules, doc.path, c.steps, target, active) {
                Err(e) => Err(CompileErrV::Skip(e)),
                Ok(excl) => {
                    match spec_lower_steps(doc.setup, 0, unit_header(san, excl), Seq::empty(), ops) {
                        Err(e) => Err(CompileErrV::Emit(e)),
                        Ok(p1) => match spec_lower_steps(c.steps, 0, p1.0, p1.1, ops) {
                            Err(e) => Err(CompileErrV::Emit(e)),
                            Ok(p2) => match spec_lower_steps(doc.teardown, 0, p2.0, p2.1, ops) {
                                Err(e) => Err(CompileErrV::Emit(e)),
                                Ok(p3) => spec_emit_cases(
                                    doc,
                                    i + 1,
                                    acc.push(
                                        UnitV {
                                            name: san,
                                            text: p3.0,
                                            ignored: excl.excluded,
                                            reasons: excl.reasons,
                                        },
                                    ),
                                    rules,
                                    target,
                                    active,
                                    ops,
                                ),
                            },
                        },
                    }
                },
            }
        }
    }
}

/// Canonical meaning of emitting a whole document.
pub open spec fn spec_emit_document(
    doc: DocV,
    rules: Seq<crate::skip::SkipRuleV>,
    target: Version,
    active: Seq<Seq<char>>,
    ops: Seq<Seq<char>>,
) -> Result<Seq<UnitV>, CompileErrV> {
    spec_emit_cases(doc, 0, Seq::empty(), rules, target, active, ops)
}

/// Emit one unit per case of the document: exactly `spec_emit_document`.
#[verifier::loop_isolation(false)]
pub fn emit_document(
    doc: &TestDocument,
    rules: &Vec<SkipPolicyRule>,
    target: &Version,
    active: &Vec<String>,
    api: &ApiDescription,
) -> (r: Result<Vec<GeneratedUnit>, CompileError>)
    ensures
        units_result_view(r) == spec_emit_document(
            doc@,
            rules_view(*rules),
            *target,
            strings_view(*active),
            strings_view(api.operations),
        ),
{
    let ghost dv = doc@;
    let ghost rv = rules_view(*rules);
    let ghost av = strings_view(*active);
    let ghost ops = strings_view(api.operations);
    let mut out: Vec<GeneratedUnit> = Vec::new();
    let n: usize = doc.cases.len();
    let mut i: usize = 0;
    proof {
        assert(units_view(out) =~= Seq::<UnitV>::empty());
    }
    while i < n
        invariant
            0 <= i <= n,
            n == doc.cases.len(),
            spec_emit_cases(dv, 0, Seq::empty(), rv, *target, av, ops) == spec_emit_cases(
                dv,
                i as int,
                units_view(out),
                rv,
                *target,
                av,
                ops,
            ),
        decreases n - i,
    {
        let case = &doc.cases[i];
        assert(dv.cases[i as int] == case@);
        let san = sanitize_name(case.name.as_str());
        let ghost sanv = san@;

        // A sanitized name must not collide with an earlier unit's.
        let m: usize = out.len();
        let mut k: usize = 0;
        while k < m
            invariant
                0 <= k <= m,
                m == out.len(),
                forall|w: int| 0 <= w < k ==> (#[trigger] units_view(out)[w]).name != sanv,
            decreases m - k,
        {
            if str_eq(out[k].name.as_str(), san.as_str()) {
                assert(units_view(out)[k as int].name == sanv);
                return Err(CompileError::Emit(EmitError::NameCollision(san)));
            }
            assert(units_view(out)[k as int].name == out[k as int].name@);
            k = k + 1;
        }
        assert(!unit_name_taken(units_view(out), sanv));

        let excl = match crate::skip::resolve_exclusion(
            rules,
            &doc.path,
            &case.steps,
            target,
            active,
        ) {
            Ok(excl) => excl,
            Err(e) => {
                return Err(CompileError::Skip(e));
            },
        };
        let ghost ev = excl@;

        let mut header = String::from_str("unit ");
        header.append(san.as_str());
        header.append("\n");
        if excl.excluded {
            header.append("ignored: ");
            let rt = reasons_text(&excl.reasons);
            header.append(rt.as_str());
            header.append("\n");
            assert(header@ =~= unit_header(sanv, ev));
        } else {
            assert(header@ =~= unit_header(sanv, ev));
        }

        let empty_bound: Vec<String> = Vec::new();
        proof {
            assert(strings_view(empty_bound) =~= Seq::<Seq<char>>::empty());
        }
        let p1 = match lower_list(&doc.setup, header, empty_bound, api) {
            Ok(p) => p,
            Err(e) => {
                return Err(CompileError::Emit(e));
            },
        };
        let p2 = match lower_list(&case.steps, p1.0, p1.1, api) {
            Ok(p) => p,
            Err(e) => {
                return Err(CompileError::Emit(e));
            },
        };
        let p3 = match lower_list(&doc.teardown, p2.0, p2.1, api) {
            Ok(p) => p,
            Err(e) => {
                return Err(CompileError::Emit(e));
            },
        };
        let ghost out_pre = out;
        let unit = GeneratedUnit {
            name: san,
            text: p3.0,
            ignored: excl.excluded,
            reasons: excl.reasons,
        };
        let ghost uv = unit@;
        out.push(unit);
        proof {
            assert(forall|w: int|
                0 <= w < out_pre.len() ==> out[w] == out_pre[w] && #[trigger] units_view(out)[w]
                    == out[w]@ && units_view(out_pre)[w] == out_pre[w]@);
            assert(units_view(out)[out_pre.len() as int] == out[out_pre.len() as int]@);
            assert(units_view(out) =~= units_view(out_pre).push(uv));
        }
        i = i + 1;
    }
    Ok(out)
}

/// Canonical meaning of the whole pipeline on one document's text.
pub open spec fn spec_compile(
    text: Seq<char>,
    path: Seq<char>,
    rules: Seq<crate::skip::SkipRuleV>,
    target: Version,
    active: Seq<Seq<char>>,
    ops: Seq<Seq<char>>,
) -> Result<Seq<UnitV>, CompileErrV> {
    match crate::yaml::yaml_tree_of(text) {
        None => Err(CompileErrV::Parse(crate::doc::ParseErrV::Syntax)),
        Some(tree) => match crate::doc::spec_parse_document(node_view(tree), path) {
            Err(e) => Err(CompileErrV::Parse(e)),
            Ok(docv) => spec_emit_document(docv, rules, target, active, ops),
        },
    }
}

/// Run the whole pipeline on one document's text: exactly `spec_compile`.
pub fn compile_text(
    text: &str,
    path: String,
    rules: &Vec<SkipPolicyRule>,
    target: &Version,
    active: &Vec<String>,
    api: &ApiDescription,
) -> (r: Result<Vec<GeneratedUnit>, CompileError>)
    ensures
        units_result_view(r) == spec_compile(
            text@,
            path@,
            rules_view(*rules),
            *target,
            strings_view(*active),
            strings_view(api.operations),
        ),
{
    let tree = match crate::yaml::parse_yaml(text) {
        Some(tree) => tree,
        None => {
            return Err(CompileError::Parse(crate::doc::ParseError::Syntax));
        },
    };
    let d = match crate::doc::parse_document(tree, path) {
        Ok(d) => d,
        Err(e) => {
            return Err(CompileError::Parse(e));
        },
    };
    emit_document(&d, rules, target, active, api)
}

/// Determinism: the pipeline's output is a function of its inputs alone, so
/// two runs on identical input — the same text, path, rule table, target
/// version, feature set and API description — yield identical units, byte
/// for byte.
pub proof fn lemma_pipeline_deterministic(
    text1: Seq<char>,
    path1: Seq<char>,
    rules1: Seq<crate::skip::SkipRuleV>,
    target1: Version,
    active1: Seq<Seq<char>>,
    ops1: Seq<Seq<char>>,
    text2: Seq<char>,
    path2: Seq<char>,
    rules2: Seq<crate::skip::SkipRuleV>,
    target2: Version,
    active2: Seq<Seq<char>>,
    ops2: Seq<Seq<char>>,
)
    requires
        text1 == text2,
        path1 == path2,
        rules1 == rules2,
        target1 == target2,
        active1 == active2,
        ops1 == ops2,
    ensures
        spec_compile(text1, path1, rules1, target1, active1, ops1) == spec_compile(
            text2,
            path2,
            rules2,
            target2,
            active2,
            ops2,
        ),
{
}


pub open spec fn units_wf(units: Seq<UnitV>) -> bool {
    &&& forall|p: int, q: int|
        0 <= p < q < units.len() ==> (#[trigger] units[p]).name != (#[trigger] units[q]).name
    &&& forall|p: int|
        0 <= p < units.len() ==> ((#[trigger] units[p]).ignored <==> units[p].reasons.len() > 0)
}

/// What successful emission guarantees of the units: sanitization is
/// injective over the document — names stay pairwise distinct, never merged —
/// and exclusion stays visible: a unit is ignored exactly when it carries at
/// least one accumulated reason.
pub proof fn lemma_emitted_units_wf(
    doc: DocV,
    i: int,
    acc: Seq<UnitV>,
    rules: Seq<crate::skip::SkipRuleV>,
    target: Version,
    active: Seq<Seq<char>>,
    ops: Seq<Seq<char>>,
)
    requires
        units_wf(acc),
    ensures
        spec_emit_cases(doc, i, acc, rules, target, active, ops) matches Ok(units)
            ==> units_wf(units),
    decreases doc.cases.len() - i,
{
    if i < 0 || i >= doc.cases.len() {
    } else {
        let c = doc.cases[i];
        let san = spec_sanitize(c.name);
        if unit_name_taken(acc, san) {
        } else {
            match spec_resolve(rules, doc.path, c.steps, target, active) {
                Err(_) => {},
                Ok(excl) => {
                    match spec_lower_steps(
                        doc.setup,
                        0,
                        unit_header(san, excl),
                        Seq::empty(),
                        ops,
                    ) {
                        Err(_) => {},
                        Ok(p1) => match spec_lower_steps(c.steps, 0, p1.0, p1.1, ops) {
                            Err(_) => {},
                            Ok(p2) => match spec_lower_steps(doc.teardown, 0, p2.0, p2.1, ops) {
                                Err(_) => {},
                                Ok(p3) => {
                                    let unit = UnitV {
                                        name: san,
                                        text: p3.0,
                                        ignored: excl.excluded,
                                        reasons: excl.reasons,
                                    };
                                    assert(excl.excluded <==> excl.reasons.len() > 0) by {
                                        lemma_resolve_marks_reasons(
                                            rules,
                                            doc.path,
                                            c.steps,
                                            target,
                                            active,
                                        );
                                    }
                                    assert(units_wf(acc.push(unit)));
                                    lemma_emitted_units_wf(
                                        doc,
                                        i + 1,
                                        acc.push(unit),
                                        rules,
                                        target,
                                        active,
                                        ops,
                                    );
                                },
                            },
                        },
                    }
                },
            }
        }
    }
}

/// Resolution marks a case excluded exactly when it accumulated a reason.
pub proof fn lemma_resolve_marks_reasons(
    rules: Seq<crate::skip::SkipRuleV>,
    path: Seq<char>,
    steps: Seq<StepV>,
    target: Version,
    active: Seq<Seq<char>>,
)
    ensures
        spec_resolve(rules, path, steps, target, active) matches Ok(e) ==> (e.excluded
            <==> e.reasons.len() > 0),
{
}

} // verus!
