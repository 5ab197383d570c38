//! Compiles a declarative, version-agnostic YAML test DSL into concrete,
//! executable test units for one client, given an API description, a target
//! cluster version and a policy of known-broken or inapplicable cases.
//!
//! The pipeline is a pure, deterministic transformation per document: raw
//! text is parsed into a [`node::Node`] tree, read as a [`doc::TestDocument`]
//! over the closed [`step::Step`] vocabulary, annotated with exclusions by
//! the [`skip`] resolver, and lowered by the [`emit`] emitter into one
//! generated unit per case — excluded cases included, marked ignored.

pub mod doc;
pub mod emit;
pub mod node;
pub mod path;
pub mod pattern;
pub mod skip;
pub mod step;
pub mod text;
pub mod version;
pub mod yaml;
