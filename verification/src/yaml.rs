//! Trusted boundary to the YAML syntax parser. Everything past this point —
//! vocabulary checks, payload shapes, name uniqueness — is the library's own
//! verified logic over the [`Node`] tree.

use crate::node::Node;
use vstd::prelude::*;

verus! {

#[verifier::external_type_specification]
#[verifier::external_body]
pub struct ExYamlValue(serde_yaml::Value);

/// What parsing a YAML document yields, carried into the library's own tree;
/// the tree depends on the text alone. `None` stands for text that is not
/// well-formed YAML or holds a mapping key that is not a string.
pub uninterp spec fn yaml_tree_of(text: Seq<char>) -> Option<Node>;

/// Relies on `serde_yaml::Value`: converts one mapping entry, keeping it
/// only when its key is a string.
#[verifier::external_body]
fn entry_of_value(kv: (serde_yaml::Value, serde_yaml::Value)) -> (r: Option<(String, Node)>) {
    match kv.0 {
        serde_yaml::Value::String(ks) => node_of_value(kv.1).map(|n| (ks, n)),
        _ => None,
    }
}

/// Relies on `serde_yaml::Value`: converts one parsed YAML value into the
/// library's tree, one arm per variant. Numbers keep their textual form;
/// a tag is dropped in favour of the tagged value.
#[verifier::external_body]
fn node_of_value(v: serde_yaml::Value) -> (r: Option<Node>) {
    match v {
        serde_yaml::Value::Null => Some(Node::Null),
        serde_yaml::Value::Bool(b) => Some(Node::Bool(b)),
        serde_yaml::Value::Number(n) => Some(Node::Scalar(n.to_string())),
        serde_yaml::Value::String(s) => Some(Node::Scalar(s)),
        serde_yaml::Value::Sequence(s) => {
            s.into_iter().map(node_of_value).collect::<Option<Vec<Node>>>().map(Node::List)
        },
        serde_yaml::Value::Mapping(m) => {
            m.into_iter().map(entry_of_value).collect::<Option<Vec<(String, Node)>>>().map(
                Node::Mapping,
            )
        },
        serde_yaml::Value::Tagged(t) => node_of_value(t.value),
    }
}

/// Relies on `serde_yaml::from_str`: parses YAML text into a value tree,
/// which depends on the text alone; mapping order is kept as written.
#[verifier::external_body]
pub fn parse_yaml(text: &str) -> (r: Option<Node>)
    ensures
        r == yaml_tree_of(text@),
{
    serde_yaml::from_str::<serde_yaml::Value>(text).ok().and_then(node_of_value)
}

} // verus!
