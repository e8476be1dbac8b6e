use draction::json::JsonValue;
use draction::rule::{Condition, GroupMode, Op, Rule, ThenAction};
use draction::rule_engine::{compare, eval, match_first_rule, EvalCtx, NumOrder};

fn rule(id: &str, enabled: bool, when: Condition) -> Rule {
    Rule {
        id: id.to_string(),
        name: id.to_string(),
        enabled,
        order_index: 0,
        when,
        then: ThenAction { workflow_id: "wf".into() },
    }
}

fn predicate(field: &str, op: Op, value: JsonValue) -> Condition {
    Condition::Predicate { field: field.into(), op, value }
}

fn s(v: &str) -> JsonValue {
    JsonValue::Str(v.to_string())
}

fn arr(vs: &[&str]) -> JsonValue {
    JsonValue::Array(vs.iter().map(|v| s(v)).collect())
}

fn ctx_for(name: &str, ext: &str, size: u64) -> EvalCtx {
    let mut c = EvalCtx::new();
    c.insert("name".into(), s(name));
    c.insert("ext".into(), s(ext));
    c.insert("size_bytes".into(), JsonValue::Int(size as i128));
    c
}

#[test]
fn match_first_rule_returns_first_enabled_match() {
    let rules = vec![
        rule("r1", true, predicate("ext", Op::Eq, s("png"))),
        rule("r2", true, predicate("ext", Op::Eq, s("jpg"))),
    ];
    let ctx = ctx_for("a.jpg", "jpg", 100);
    assert_eq!(match_first_rule(&rules, &ctx).unwrap().id, "r2");
}

#[test]
fn match_first_rule_skips_disabled_even_when_matching() {
    let rules = vec![
        rule("r1", false, predicate("ext", Op::Eq, s("jpg"))),
        rule("r2", true, predicate("ext", Op::Eq, s("jpg"))),
    ];
    let ctx = ctx_for("a.jpg", "jpg", 100);
    assert_eq!(match_first_rule(&rules, &ctx).unwrap().id, "r2");
}

#[test]
fn match_first_rule_returns_none_when_nothing_matches() {
    let rules = vec![rule("r1", true, predicate("ext", Op::Eq, s("png")))];
    let ctx = ctx_for("a.jpg", "jpg", 100);
    assert!(match_first_rule(&rules, &ctx).is_none());
}

#[test]
fn op_eq_matches_string_value() {
    let cond = predicate("ext", Op::Eq, s("png"));
    assert!(eval(&cond, &ctx_for("a.png", "png", 1)));
    assert!(!eval(&cond, &ctx_for("a.jpg", "jpg", 1)));
}

#[test]
fn op_in_checks_array_membership() {
    let cond = predicate("ext", Op::In, arr(&["mp4", "mov", "avi"]));
    assert!(eval(&cond, &ctx_for("v", "mov", 1)));
    assert!(!eval(&cond, &ctx_for("v", "wmv", 1)));
}

#[test]
fn op_in_returns_false_when_value_is_not_array() {
    let cond = predicate("ext", Op::In, s("mp4"));
    assert!(!eval(&cond, &ctx_for("v", "mp4", 1)));
}

#[test]
fn op_gt_gte_lt_lte_compare_numerically() {
    let gt = predicate("size_bytes", Op::Gt, JsonValue::Int(1000));
    let gte = predicate("size_bytes", Op::Gte, JsonValue::Int(1000));
    let lt = predicate("size_bytes", Op::Lt, JsonValue::Int(1000));
    let lte = predicate("size_bytes", Op::Lte, JsonValue::Int(1000));

    let small = ctx_for("f", "x", 500);
    let exact = ctx_for("f", "x", 1000);
    let big = ctx_for("f", "x", 2000);

    assert!(!eval(&gt, &small));
    assert!(!eval(&gt, &exact));
    assert!(eval(&gt, &big));

    assert!(!eval(&gte, &small));
    assert!(eval(&gte, &exact));
    assert!(eval(&gte, &big));

    assert!(eval(&lt, &small));
    assert!(!eval(&lt, &exact));
    assert!(!eval(&lt, &big));

    assert!(eval(&lte, &small));
    assert!(eval(&lte, &exact));
    assert!(!eval(&lte, &big));
}

#[test]
fn comparison_against_non_numeric_returns_false() {
    let cond = predicate("ext", Op::Gt, s("abc"));
    assert!(!eval(&cond, &ctx_for("a", "png", 1)));
}

#[test]
fn missing_field_returns_false_for_any_op() {
    let ctx = EvalCtx::new();
    assert!(!eval(&predicate("ext", Op::Eq, s("x")), &ctx));
    assert!(!eval(&predicate("ext", Op::In, arr(&["x"])), &ctx));
    assert!(!eval(&predicate("size_bytes", Op::Gt, JsonValue::Int(0)), &ctx));
}

#[test]
fn group_all_requires_every_child_true() {
    let cond = Condition::Group {
        mode: GroupMode::All,
        children: vec![predicate("ext", Op::Eq, s("png")), predicate("size_bytes", Op::Gt, JsonValue::Int(100))],
    };
    assert!(eval(&cond, &ctx_for("a.png", "png", 200)));
    assert!(!eval(&cond, &ctx_for("a.png", "png", 50)));
    assert!(!eval(&cond, &ctx_for("a.jpg", "jpg", 200)));
}

#[test]
fn group_any_requires_at_least_one_child_true() {
    let cond = Condition::Group {
        mode: GroupMode::Any,
        children: vec![predicate("ext", Op::Eq, s("png")), predicate("size_bytes", Op::Gt, JsonValue::Int(1_000_000))],
    };
    assert!(eval(&cond, &ctx_for("a.png", "png", 50)));
    assert!(eval(&cond, &ctx_for("a.jpg", "jpg", 2_000_000)));
    assert!(!eval(&cond, &ctx_for("a.jpg", "jpg", 50)));
}

#[test]
fn group_all_with_no_children_evaluates_true() {
    let cond = Condition::Group { mode: GroupMode::All, children: vec![] };
    assert!(eval(&cond, &EvalCtx::new()));
}

#[test]
fn group_any_with_no_children_evaluates_false() {
    let cond = Condition::Group { mode: GroupMode::Any, children: vec![] };
    assert!(!eval(&cond, &EvalCtx::new()));
}

#[test]
fn nested_groups_evaluate_correctly() {
    let cond = Condition::Group {
        mode: GroupMode::All,
        children: vec![
            predicate("ext", Op::In, arr(&["mp4", "mov"])),
            Condition::Group {
                mode: GroupMode::Any,
                children: vec![
                    predicate("size_bytes", Op::Gt, JsonValue::Int(1_000_000)),
                    predicate("name", Op::Eq, s("important.mov")),
                ],
            },
        ],
    };
    assert!(eval(&cond, &ctx_for("important.mov", "mov", 100)));
    assert!(eval(&cond, &ctx_for("video.mp4", "mp4", 5_000_000)));
    assert!(!eval(&cond, &ctx_for("small.mp4", "mp4", 100)));
    assert!(!eval(&cond, &ctx_for("important.mov", "txt", 100)));
}

#[test]
fn later_insert_replaces_fact() {
    let mut c = EvalCtx::new();
    c.insert("ext".into(), s("png"));
    c.insert("ext".into(), s("jpg"));
    assert!(eval(&predicate("ext", Op::Eq, s("jpg")), &c));
    assert!(!eval(&predicate("ext", Op::Eq, s("png")), &c));
}

#[test]
fn numbers_with_fractions_and_exponents_compare_numerically() {
    let real = |t: &str| JsonValue::Real(t.to_string());
    assert!(matches!(compare(&JsonValue::Int(2), &real("1.5")), Some(NumOrder::Greater)));
    assert!(matches!(compare(&JsonValue::Int(1), &real("1.5")), Some(NumOrder::Less)));
    assert!(matches!(compare(&JsonValue::Int(3), &real("3.0")), Some(NumOrder::Equal)));
    assert!(matches!(compare(&real("1e3"), &JsonValue::Int(1000)), Some(NumOrder::Equal)));
    assert!(matches!(compare(&real("1.5e-7"), &real("1e-6")), Some(NumOrder::Less)));
    assert!(matches!(compare(&real("-2.5"), &real("-2.25")), Some(NumOrder::Less)));
    assert!(matches!(compare(&real("-0.0"), &JsonValue::Int(0)), Some(NumOrder::Equal)));
    assert!(matches!(compare(&JsonValue::Int(-7), &JsonValue::Int(5)), Some(NumOrder::Less)));
    assert!(compare(&real("abc"), &JsonValue::Int(1)).is_none());
    assert!(compare(&JsonValue::Str("1".to_string()), &JsonValue::Int(1)).is_none());
    let gt = predicate("size_bytes", Op::Gt, real("1.5e6"));
    assert!(eval(&gt, &ctx_for("f", "x", 2_000_000)));
    assert!(!eval(&gt, &ctx_for("f", "x", 1_000_000)));
}
