//! The library's own document tree: what the pipeline reads of a parsed YAML
//! document, held as plain values. Scalars keep their textual form, so the
//! tree carries numbers without committing to a numeric representation.

use vstd::prelude::*;

verus! {

broadcast use vstd::std_specs::vec::group_vec_axioms;

/// One node of a parsed document.
pub enum Node {
    Null,
    Bool(bool),
    /// A string or number scalar, in its textual form.
    Scalar(String),
    List(Vec<Node>),
    /// Mapping entries in document order; keys are strings.
    Mapping(Vec<(String, Node)>),
}

/// The mathematical shape of a node.
pub enum NodeV {
    Null,
    Bool(bool),
    Scalar(Seq<char>),
    List(Seq<NodeV>),
    Mapping(Seq<(Seq<char>, NodeV)>),
}

pub open spec fn list_view(v: Vec<Node>) -> Seq<NodeV>
    decreases v,
{
    Seq::new(
        v.len() as nat,
        |i: int|
            if 0 <= i < v.len() {
                node_view(v[i])
            } else {
                NodeV::Null
            },
    )
}

pub open spec fn entries_view(m: Vec<(String, Node)>) -> Seq<(Seq<char>, NodeV)>
    decreases m,
{
    Seq::new(
        m.len() as nat,
        |i: int|
            if 0 <= i < m.len() {
                (m[i].0@, node_view(m[i].1))
            } else {
                (Seq::empty(), NodeV::Null)
            },
    )
}

pub open spec fn node_view(n: Node) -> NodeV
    decreases n,
{
    match n {
        Node::Null => NodeV::Null,
        Node::Bool(b) => NodeV::Bool(b),
        Node::Scalar(s) => NodeV::Scalar(s@),
        Node::List(v) => NodeV::List(list_view(v)),
        Node::Mapping(m) => NodeV::Mapping(entries_view(m)),
    }
}

impl View for Node {
    type V = NodeV;

    open spec fn view(&self) -> NodeV {
        node_view(*self)
    }
}

/// First binding of `key` among mapping entries, if any.
pub open spec fn map_get(entries: Seq<(Seq<char>, NodeV)>, key: Seq<char>) -> Option<NodeV>
    decreases entries.len(),
{
    if entries.len() == 0 {
        None
    } else if entries[0].0 == key {
        Some(entries[0].1)
    } else {
        map_get(entries.drop_first(), key)
    }
}

/// Whether all mapping keys are distinct.
pub open spec fn distinct_keys(entries: Seq<(Seq<char>, NodeV)>) -> bool {
    forall|i: int, j: int|
        0 <= i < j < entries.len() ==> (#[trigger] entries[i].0) != (#[trigger] entries[j].0)
}

/// Structural (deep) equality of two nodes.
#[verifier::loop_isolation(false)]
pub fn node_eq(a: &Node, b: &Node) -> (r: bool)
    ensures
        r == (a@ == b@),
    decreases *a,
{
    match (a, b) {
        (Node::Null, Node::Null) => true,
        (Node::Bool(x), Node::Bool(y)) => x == y,
        (Node::Scalar(x), Node::Scalar(y)) => crate::text::str_eq(x.as_str(), y.as_str()),
        (Node::List(xs), Node::List(ys)) => {
            if xs.len() != ys.len() {
                proof {
                    assert(list_view(*xs).len() != list_view(*ys).len());
                }
                return false;
            }
            let n: usize = xs.len();
            let mut i: usize = 0;
            while i < n
                invariant
                    0 <= i <= n,
                    n == xs.len() && n == ys.len(),
                    forall|k: int| 0 <= k < i ==> list_view(*xs)[k] == list_view(*ys)[k],
                decreases n - i,
            {
                proof {
                    assert(decreases_to!(*xs => xs[i as int]));
                    assert(decreases_to!(*a => xs[i as int]));
                }
                if !node_eq(&xs[i], &ys[i]) {
                    proof {
                        assert(list_view(*xs)[i as int] != list_view(*ys)[i as int]);
                    }
                    return false;
                }
                i = i + 1;
            }
            proof {
                assert(list_view(*xs) =~= list_view(*ys));
            }
            true
        },
        (Node::Mapping(xs), Node::Mapping(ys)) => {
            if xs.len() != ys.len() {
                proof {
                    assert(entries_view(*xs).len() != entries_view(*ys).len());
                }
                return false;
            }
            let n: usize = xs.len();
            let mut i: usize = 0;
            while i < n
                invariant
                    0 <= i <= n,
                    n == xs.len() && n == ys.len(),
                    forall|k: int| 0 <= k < i ==> entries_view(*xs)[k] == entries_view(*ys)[k],
                decreases n - i,
            {
                if !crate::text::str_eq(xs[i].0.as_str(), ys[i].0.as_str()) {
                    proof {
                        assert(entries_view(*xs)[i as int].0 != entries_view(*ys)[i as int].0);
                    }
                    return false;
                }
                proof {
                    assert(decreases_to!(*xs => xs[i as int]));
                    assert(decreases_to!(*a => xs[i as int].1));
                }
                if !node_eq(&xs[i].1, &ys[i].1) {
                    proof {
                        assert(entries_view(*xs)[i as int].1 != entries_view(*ys)[i as int].1);
                    }
                    return false;
                }
                i = i + 1;
            }
            proof {
                assert(entries_view(*xs) =~= entries_view(*ys));
            }
            true
        },
        _ => {
            proof {
                assert(a@ != b@);
            }
            false
        },
    }
}

} // verus!
