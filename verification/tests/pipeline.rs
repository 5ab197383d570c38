use yaml_test_runner::emit::{
    compile_text, emit_document, sanitize_name, ApiDescription, CompileError, EmitError,
};
use yaml_test_runner::skip::SkipPolicyRule;
use yaml_test_runner::version::{parse_version, Version};

fn api(names: &[&str]) -> ApiDescription {
    ApiDescription { operations: names.iter().map(|s| s.to_string()).collect() }
}

fn rule(pattern: &str, range: &str, reason: &str) -> SkipPolicyRule {
    SkipPolicyRule {
        pattern: pattern.to_string(),
        version_range: range.to_string(),
        reason: reason.to_string(),
    }
}

fn v(major: u64, minor: u64, patch: u64) -> Version {
    Version { major, minor, patch }
}

const DOC_A: &str = "t1:\n  - do:\n      index_op:\n        index: test\n  - match:\n      a.b: 5\n";

#[test]
fn scenario_do_and_match_emits_one_live_unit() {
    let units = compile_text(
        DOC_A,
        "suite/doc.yml".to_string(),
        &Vec::new(),
        &v(6, 1, 3),
        &Vec::new(),
        &api(&["index_op"]),
    )
    .expect("document should compile");
    assert_eq!(units.len(), 1);
    assert_eq!(units[0].name, "t1");
    assert!(!units[0].ignored);
    assert!(units[0].reasons.is_empty());
    assert!(units[0].text.contains("do index_op"));
    assert!(units[0].text.contains("assert match a.b == \"5\""));
    assert!(!units[0].text.contains("ignored"));
}

#[test]
fn pipeline_is_deterministic_byte_for_byte() {
    let run = || {
        compile_text(
            DOC_A,
            "suite/doc.yml".to_string(),
            &vec![rule("*", "1.0.0 - 2.0.0", "old")],
            &v(6, 1, 3),
            &vec!["secure".to_string()],
            &api(&["index_op"]),
        )
        .expect("document should compile")
    };
    let a = run();
    let b = run();
    assert_eq!(a.len(), b.len());
    for (x, y) in a.iter().zip(b.iter()) {
        assert_eq!(x.name, y.name);
        assert_eq!(x.text, y.text);
        assert_eq!(x.ignored, y.ignored);
        assert_eq!(x.reasons, y.reasons);
    }
}

const DOC_SKIP: &str = "t1:\n  - skip:\n      version: 6.0.0 - 6.2.0\n      reason: known broken\n  - do:\n      index_op:\n        index: test\n";

#[test]
fn scenario_skip_range_ignores_inside_and_keeps_outside() {
    let inside = compile_text(
        DOC_SKIP,
        "suite/doc.yml".to_string(),
        &Vec::new(),
        &v(6, 1, 3),
        &Vec::new(),
        &api(&["index_op"]),
    )
    .expect("compiles");
    assert_eq!(inside.len(), 1);
    assert!(inside[0].ignored);
    assert_eq!(inside[0].reasons, vec!["known broken".to_string()]);
    assert!(inside[0].text.contains("ignored: known broken"));

    let outside = compile_text(
        DOC_SKIP,
        "suite/doc.yml".to_string(),
        &Vec::new(),
        &v(6, 3, 0),
        &Vec::new(),
        &api(&["index_op"]),
    )
    .expect("compiles");
    assert_eq!(outside.len(), 1);
    assert!(!outside[0].ignored);
    assert!(outside[0].reasons.is_empty());
    assert!(outside[0].text.contains("do index_op"));
}

#[test]
fn scenario_sanitized_name_collision_is_an_error() {
    let text = "Test Case:\n  - is_true: a\ntest_case:\n  - is_true: a\n";
    let r = compile_text(
        text,
        "suite/doc.yml".to_string(),
        &Vec::new(),
        &v(1, 0, 0),
        &Vec::new(),
        &api(&[]),
    );
    match r {
        Err(CompileError::Emit(EmitError::NameCollision(n))) => assert_eq!(n, "test_case"),
        other => panic!("expected a name collision, got {:?}", other.is_ok()),
    }
}

#[test]
fn global_rule_excludes_matching_document() {
    let units = compile_text(
        DOC_A,
        "suite/doc.yml".to_string(),
        &vec![rule("suite/doc.yml", "6.0.0 - 6.2.0", "policy says no")],
        &v(6, 1, 3),
        &Vec::new(),
        &api(&["index_op"]),
    )
    .expect("compiles");
    assert!(units[0].ignored);
    assert_eq!(units[0].reasons, vec!["policy says no".to_string()]);
}

#[test]
fn adding_a_rule_never_unexcludes() {
    let mut rules = vec![rule("*", "6.0.0 - 6.2.0", "first")];
    let before = compile_text(
        DOC_A,
        "suite/doc.yml".to_string(),
        &rules,
        &v(6, 1, 3),
        &Vec::new(),
        &api(&["index_op"]),
    )
    .expect("compiles");
    assert!(before[0].ignored);
    rules.push(rule("*", "all", "second"));
    let after = compile_text(
        DOC_A,
        "suite/doc.yml".to_string(),
        &rules,
        &v(6, 1, 3),
        &Vec::new(),
        &api(&["index_op"]),
    )
    .expect("compiles");
    assert!(after[0].ignored);
    assert_eq!(after[0].reasons, vec!["first".to_string(), "second".to_string()]);
}

#[test]
fn malformed_rule_range_is_fatal() {
    let r = compile_text(
        DOC_A,
        "suite/doc.yml".to_string(),
        &vec![rule("*", "not a range", "broken")],
        &v(6, 1, 3),
        &Vec::new(),
        &api(&["index_op"]),
    );
    assert!(matches!(r, Err(CompileError::Skip(_))));
}

#[test]
fn missing_feature_excludes_case() {
    let text = "t1:\n  - skip:\n      features: secure_transport\n      reason: needs tls\n  - is_true: a\n";
    let without = compile_text(
        text,
        "d.yml".to_string(),
        &Vec::new(),
        &v(1, 0, 0),
        &Vec::new(),
        &api(&[]),
    )
    .expect("compiles");
    assert!(without[0].ignored);
    let with = compile_text(
        text,
        "d.yml".to_string(),
        &Vec::new(),
        &v(1, 0, 0),
        &vec!["secure_transport".to_string()],
        &api(&[]),
    )
    .expect("compiles");
    assert!(!with[0].ignored);
}

#[test]
fn unknown_operation_is_fatal() {
    let r = compile_text(
        DOC_A,
        "d.yml".to_string(),
        &Vec::new(),
        &v(1, 0, 0),
        &Vec::new(),
        &api(&["other_op"]),
    );
    match r {
        Err(CompileError::Emit(EmitError::UnknownOperation(n))) => assert_eq!(n, "index_op"),
        _ => panic!("expected unknown operation"),
    }
}

#[test]
fn unresolved_variable_is_fatal_and_bound_variable_is_not() {
    let unresolved = "t1:\n  - do:\n      index_op:\n        index: $name\n";
    let r = compile_text(
        unresolved,
        "d.yml".to_string(),
        &Vec::new(),
        &v(1, 0, 0),
        &Vec::new(),
        &api(&["index_op"]),
    );
    match r {
        Err(CompileError::Emit(EmitError::UnresolvedVariable(n))) => assert_eq!(n, "name"),
        _ => panic!("expected unresolved variable"),
    }

    let bound = "t1:\n  - set:\n      a.b: name\n  - do:\n      index_op:\n        index: $name\n";
    let units = compile_text(
        bound,
        "d.yml".to_string(),
        &Vec::new(),
        &v(1, 0, 0),
        &Vec::new(),
        &api(&["index_op"]),
    )
    .expect("a bound variable resolves");
    assert!(units[0].text.contains("set name = a.b"));
}

#[test]
fn setup_and_teardown_frame_every_unit() {
    let text = "setup:\n  - do:\n      prep:\n        index: i\nteardown:\n  - do:\n      cleanup:\n        index: i\nt1:\n  - is_true: ok\n";
    let units = compile_text(
        text,
        "d.yml".to_string(),
        &Vec::new(),
        &v(1, 0, 0),
        &Vec::new(),
        &api(&["prep", "cleanup"]),
    )
    .expect("compiles");
    assert_eq!(units.len(), 1);
    let text = &units[0].text;
    let prep = text.find("do prep").expect("setup emitted");
    let body = text.find("assert is_true ok").expect("case emitted");
    let clean = text.find("do cleanup").expect("teardown emitted");
    assert!(prep < body && body < clean);
}

#[test]
fn sanitize_lowers_and_replaces() {
    assert_eq!(sanitize_name("Test Case"), "test_case");
    assert_eq!(sanitize_name("test_case"), "test_case");
    assert_eq!(sanitize_name("A-B.c/9"), "a_b_c_9");
}

#[test]
fn emit_document_rejects_prerelease_target_like_release() {
    // A target parsed from a snapshot build string excludes exactly as its
    // release triple does.
    let target = parse_version("6.1.3-SNAPSHOT").expect("parses");
    assert_eq!(target, v(6, 1, 3));
    let d = yaml_test_runner::doc::TestDocument {
        path: "d.yml".to_string(),
        setup: Vec::new(),
        teardown: Vec::new(),
        cases: Vec::new(),
    };
    let r = emit_document(&d, &Vec::new(), &target, &Vec::new(), &api(&[]));
    assert!(r.expect("empty document compiles").is_empty());
}

#[test]
fn regex_literal_in_match_is_validated() {
    let good = "t1:\n  - do:\n      index_op:\n        index: i\n  - match:\n      field: \"/[a#b c]d #comment/\"\n";
    let units = compile_text(
        good,
        "d.yml".to_string(),
        &Vec::new(),
        &v(1, 0, 0),
        &Vec::new(),
        &api(&["index_op"]),
    )
    .expect("a translatable pattern passes validation");
    assert!(units[0].text.contains("assert match field"));

    let bad = "t1:\n  - match:\n      field: /unterminated\n";
    let r = compile_text(
        bad,
        "d.yml".to_string(),
        &Vec::new(),
        &v(1, 0, 0),
        &Vec::new(),
        &api(&[]),
    );
    match r {
        Err(CompileError::Emit(EmitError::BadPattern(p))) => assert_eq!(p, "/unterminated"),
        _ => panic!("expected a pattern translation error"),
    }
}

#[test]
fn comparison_and_transform_steps_lower() {
    let text = "t1:\n  - transform_and_set:\n      path: a.b\n      transform: base64_encode_credentials\n      var: token\n  - gt:\n      hits.total: 0\n  - length:\n      hits.hits: 2\n";
    let units = compile_text(
        text,
        "d.yml".to_string(),
        &Vec::new(),
        &v(1, 0, 0),
        &Vec::new(),
        &api(&[]),
    )
    .expect("compiles");
    let t = &units[0].text;
    assert!(t.contains("set token = base64_encode_credentials(a.b)"));
    assert!(t.contains("assert gt hits.total \"0\""));
    assert!(t.contains("assert length hits.hits == 2"));
}

#[test]
fn bad_path_in_step_is_fatal() {
    let text = "t1:\n  - is_true: a..b\n";
    let r = compile_text(
        text,
        "d.yml".to_string(),
        &Vec::new(),
        &v(1, 0, 0),
        &Vec::new(),
        &api(&[]),
    );
    match r {
        Err(CompileError::Emit(EmitError::BadPath(p))) => assert_eq!(p, "a..b"),
        _ => panic!("expected a bad-path error"),
    }
}

#[test]
fn duplicate_case_name_is_a_parse_error() {
    let text = "t1:\n  - is_true: a\nt1:\n  - is_false: a\n";
    let r = compile_text(
        text,
        "d.yml".to_string(),
        &Vec::new(),
        &v(1, 0, 0),
        &Vec::new(),
        &api(&[]),
    );
    // Either the YAML layer or the document parser must refuse the
    // duplicate; it can never be silently merged.
    assert!(matches!(r, Err(CompileError::Parse(_))));
}

#[test]
fn unknown_step_kind_fails_the_document() {
    let text = "t1:\n  - frobnicate:\n      a: b\n";
    let r = compile_text(
        text,
        "d.yml".to_string(),
        &Vec::new(),
        &v(1, 0, 0),
        &Vec::new(),
        &api(&[]),
    );
    assert!(matches!(r, Err(CompileError::Parse(_))));
}
