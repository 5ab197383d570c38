use yaml_test_runner::node::{node_eq, Node};
use yaml_test_runner::path::{check_variable_ref, parse_path, PathSeg};
use yaml_test_runner::pattern::{translate_pattern, RegexError};
use yaml_test_runner::step::{parse_step, render_step, Step};
use yaml_test_runner::version::{parse_range, parse_version, Version};

fn v(major: u64, minor: u64, patch: u64) -> Version {
    Version { major, minor, patch }
}

#[test]
fn version_parsing_strips_qualifiers() {
    assert_eq!(parse_version("6.1.3"), Some(v(6, 1, 3)));
    assert_eq!(parse_version("6.1.3-SNAPSHOT"), Some(v(6, 1, 3)));
    assert_eq!(parse_version("6.1.3+build.7"), Some(v(6, 1, 3)));
    assert_eq!(parse_version("6.1"), None);
    assert_eq!(parse_version("6.1.3.4"), None);
    assert_eq!(parse_version(""), None);
    assert_eq!(parse_version("a.b.c"), None);
}

#[test]
fn range_containment_is_inclusive_both_ends() {
    let r = parse_range("6.0.0 - 6.2.0").expect("parses");
    assert!(r.contains(&v(6, 0, 0)));
    assert!(r.contains(&v(6, 1, 3)));
    assert!(r.contains(&v(6, 2, 0)));
    assert!(!r.contains(&v(6, 3, 0)));
    assert!(!r.contains(&v(5, 9, 9)));
}

#[test]
fn range_all_and_empty_bounds_are_unbounded() {
    let all = parse_range("all").expect("parses");
    assert!(all.contains(&v(0, 0, 0)));
    assert!(all.contains(&v(99, 99, 99)));

    let hi_only = parse_range(" - 6.2.0").expect("parses");
    assert!(hi_only.contains(&v(0, 1, 0)));
    assert!(!hi_only.contains(&v(6, 2, 1)));

    let lo_only = parse_range("6.0.0 - ").expect("parses");
    assert!(lo_only.contains(&v(7, 0, 0)));
    assert!(!lo_only.contains(&v(5, 0, 0)));
}

#[test]
fn range_containment_ignores_target_prerelease() {
    let r = parse_range("6.0.0 - 6.2.0").expect("parses");
    let release = parse_version("6.1.3").expect("parses");
    let snapshot = parse_version("6.1.3-alpha1").expect("parses");
    assert_eq!(release, snapshot);
    assert_eq!(r.contains(&release), r.contains(&snapshot));
}

#[test]
fn malformed_ranges_are_rejected() {
    assert!(parse_range("6.0.0").is_none());
    assert!(parse_range("6.0.0 to 6.2.0").is_none());
    assert!(parse_range("abc - def").is_none());
}

#[test]
fn pattern_class_is_verbatim_and_comment_stripped() {
    let (pat, ci) = translate_pattern("/[a#b c]d #comment/").expect("translates");
    assert_eq!(pat, "[a#b c]d");
    assert!(!ci);
}

#[test]
fn pattern_flags_and_escapes() {
    let (pat, ci) = translate_pattern("/a b\\/c/i").expect("translates");
    assert_eq!(pat, "ab\\/c");
    assert!(ci);

    let (pat, ci) = translate_pattern("/a\n  b # tail\n  c/x").expect("translates");
    assert_eq!(pat, "abc");
    assert!(!ci);

    assert_eq!(translate_pattern("/abc/q"), Err(RegexError::UnsupportedFlag));
    assert_eq!(translate_pattern("/abc"), Err(RegexError::MissingDelimiter));
    assert_eq!(translate_pattern("abc/"), Err(RegexError::NotDelimited));
}

#[test]
fn escaped_space_survives_free_spacing() {
    let (pat, _) = translate_pattern("/a\\ b/").expect("translates");
    assert_eq!(pat, "a\\ b");
}

#[test]
fn paths_split_on_dots_with_numeric_and_sentinel_segments() {
    let segs = parse_path("a.0.b").expect("parses");
    assert_eq!(segs.len(), 3);
    assert!(matches!(&segs[0], PathSeg::Key(k) if k == "a"));
    assert!(matches!(segs[1], PathSeg::Index(0)));
    assert!(matches!(&segs[2], PathSeg::Key(k) if k == "b"));

    let whole = parse_path("").expect("parses");
    assert!(whole.is_empty());

    let sentinel = parse_path("$body").expect("parses");
    assert!(matches!(sentinel[0], PathSeg::Whole));

    assert!(parse_path("a..b").is_none());
    assert!(parse_path("a.").is_none());
    assert!(parse_path(".a").is_none());
}

#[test]
fn variable_references_are_bare_dollar_names() {
    assert!(check_variable_ref("$name"));
    assert!(check_variable_ref("$n_1"));
    assert!(!check_variable_ref("$"));
    assert!(!check_variable_ref("name"));
    assert!(!check_variable_ref("$a.b"));
}

fn scalar(s: &str) -> Node {
    Node::Scalar(s.to_string())
}

fn map1(k: &str, v: Node) -> Node {
    Node::Mapping(vec![(k.to_string(), v)])
}

#[test]
fn parse_then_render_is_idempotent_on_step_nodes() {
    // A syntactically valid match step node: one pass of parse-and-render
    // reaches a fixed point.
    let node = map1("match", map1("a.b", scalar("5")));
    let step1 = parse_step(node).expect("parses");
    let rendered1 = render_step(step1);
    let step2 = parse_step(rendered1).expect("round trip parses");
    let rendered2 = render_step(step2);
    let node_again = map1("match", map1("a.b", scalar("5")));
    let step3 = parse_step(node_again).expect("parses");
    let rendered_once = render_step(step3);
    assert!(node_eq(&rendered_once, &rendered2));
}

#[test]
fn skip_step_round_trips_with_features() {
    let payload = Node::Mapping(vec![
        ("version".to_string(), scalar("6.0.0 - 6.2.0")),
        ("features".to_string(), Node::List(vec![scalar("warmers")])),
        ("reason".to_string(), scalar("why")),
    ]);
    let node = map1("skip", payload);
    let step = parse_step(node).expect("parses");
    match &step {
        Step::Skip { version_range, features, reason } => {
            assert_eq!(version_range.as_deref(), Some("6.0.0 - 6.2.0"));
            assert_eq!(features, &vec!["warmers".to_string()]);
            assert_eq!(reason, "why");
        },
        _ => panic!("expected a skip step"),
    }
    let rendered = render_step(step);
    let again = parse_step(rendered).expect("round trip parses");
    assert!(matches!(again, Step::Skip { .. }));
}

#[test]
fn unknown_step_kind_is_a_hard_error() {
    let node = map1("frobnicate", map1("a", scalar("b")));
    match parse_step(node) {
        Err(yaml_test_runner::step::StepError::UnknownKind(k)) => assert_eq!(k, "frobnicate"),
        _ => panic!("expected an unknown-kind error"),
    }
}

#[test]
fn length_payload_must_be_digits() {
    let good = map1("length", map1("hits", scalar("3")));
    assert!(parse_step(good).is_ok());
    let bad = map1("length", map1("hits", scalar("three")));
    assert!(parse_step(bad).is_err());
}

#[test]
fn node_eq_is_structural() {
    let a = Node::List(vec![scalar("x"), Node::Bool(true), Node::Null]);
    let b = Node::List(vec![scalar("x"), Node::Bool(true), Node::Null]);
    let c = Node::List(vec![scalar("x"), Node::Bool(false), Node::Null]);
    assert!(node_eq(&a, &b));
    assert!(!node_eq(&a, &c));
}
