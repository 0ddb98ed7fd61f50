//! End-to-end evaluation scenarios: unknown features, force rules with
//! coverage, experiments with default weights, prerequisites, cycles,
//! sticky-bucket resumption, and URL overrides.

use growthbook_rust_sdk::feature::evaluator::{
    eval_feature, ExperimentRule, FeatureDefinition, FeatureResultSource, FeatureRule, ForceRule,
    GrowthBook, ParentCondition,
};
use growthbook_rust_sdk::feature::experiment::{run_experiment, EvalContext, Experiment};
use growthbook_rust_sdk::feature::sticky::StickyAssignmentDoc;
use growthbook_rust_sdk::model_public::{GrowthBookAttribute, GrowthBookAttributeValue};

fn attr(key: &str, value: GrowthBookAttributeValue) -> GrowthBookAttribute {
    GrowthBookAttribute {
        key: key.to_string(),
        value,
    }
}

fn string_value(s: &str) -> GrowthBookAttributeValue {
    GrowthBookAttributeValue::String(s.to_string())
}

fn plain_ctx(attrs: Vec<GrowthBookAttribute>) -> EvalContext {
    EvalContext {
        attributes: attrs,
        enabled: true,
        qa_mode: false,
        url: None,
        forced_variations: Vec::new(),
        sticky_enabled: false,
    }
}

fn base_experiment(key: &str, variations: Vec<GrowthBookAttributeValue>) -> Experiment {
    Experiment {
        key: key.to_string(),
        variations,
        weights: None,
        coverage: None,
        ranges: None,
        namespace: None,
        condition: None,
        filters: Vec::new(),
        hash_attribute: None,
        fallback_attribute: None,
        hash_version: None,
        seed: None,
        meta: Vec::new(),
        name: None,
        bucket_version: None,
        min_bucket_version: None,
        disable_sticky_bucketing: false,
        force: None,
    }
}

fn base_force(force: GrowthBookAttributeValue) -> ForceRule {
    ForceRule {
        condition: None,
        parent_conditions: Vec::new(),
        force,
        coverage: None,
        range: None,
        hash_attribute: None,
        hash_version: None,
        seed: None,
        filters: Vec::new(),
    }
}

fn catalog(entries: Vec<(&str, FeatureDefinition)>) -> GrowthBook {
    GrowthBook {
        features: entries.into_iter().map(|(k, f)| (k.to_string(), f)).collect(),
    }
}

#[test]
fn unknown_feature_returns_null_off() {
    let gb = catalog(vec![]);
    let ctx = plain_ctx(vec![]);
    let (result, docs) = eval_feature("my-feature", &gb, &ctx, Vec::new());
    assert!(matches!(result.value, GrowthBookAttributeValue::Empty));
    assert!(!result.on);
    assert!(result.off);
    assert!(matches!(result.source, FeatureResultSource::UnknownFeature));
    assert!(result.experiment_result.is_none());
    assert_eq!(docs.len(), 0);
}

#[test]
fn force_rule_coverage_hit() {
    let mut rule = base_force(GrowthBookAttributeValue::Int(1));
    rule.coverage = Some(500_000_000);
    let gb = catalog(vec![(
        "feature",
        FeatureDefinition {
            default_value: GrowthBookAttributeValue::Int(2),
            rules: vec![FeatureRule::Force(rule)],
        },
    )]);
    let ctx = plain_ctx(vec![attr("id", string_value("3"))]);
    let (result, _) = eval_feature("feature", &gb, &ctx, Vec::new());
    assert!(matches!(result.value, GrowthBookAttributeValue::Int(1)));
    assert!(matches!(result.source, FeatureResultSource::Force));
    assert!(result.on);
}

#[test]
fn force_rule_coverage_miss_falls_to_default() {
    let mut rule = base_force(GrowthBookAttributeValue::Int(1));
    rule.coverage = Some(500_000_000);
    let gb = catalog(vec![(
        "feature",
        FeatureDefinition {
            default_value: GrowthBookAttributeValue::Int(2),
            rules: vec![FeatureRule::Force(rule)],
        },
    )]);
    let ctx = plain_ctx(vec![attr("id", string_value("1"))]);
    let (result, _) = eval_feature("feature", &gb, &ctx, Vec::new());
    assert!(matches!(result.value, GrowthBookAttributeValue::Int(2)));
    assert!(matches!(result.source, FeatureResultSource::DefaultValue));
}

#[test]
fn experiment_default_weights_assignments() {
    // With two variations and default weights, user ids split by the
    // version-1 bucket of (id, key).
    let expected: Vec<(&str, i64, u64)> = vec![
        ("1", 1, 969_000_000),
        ("2", 0, 122_000_000),
        ("3", 0, 95_000_000),
    ];
    for (id, variation, bucket) in expected {
        let exp = base_experiment(
            "my-test",
            vec![GrowthBookAttributeValue::Int(0), GrowthBookAttributeValue::Int(1)],
        );
        let ctx = plain_ctx(vec![attr("id", string_value(id))]);
        let (res, _, applied) = run_experiment(&exp, &ctx, Vec::new());
        assert!(applied, "id={id}");
        assert!(res.in_experiment, "id={id}");
        assert!(res.hash_used, "id={id}");
        assert_eq!(res.variation_id, variation, "id={id}");
        assert_eq!(res.bucket, Some(bucket), "id={id}");
    }
}

#[test]
fn prerequisite_gate_blocks_feature() {
    let parent = FeatureDefinition {
        default_value: string_value("red"),
        rules: vec![],
    };
    let mut child_rule = base_force(GrowthBookAttributeValue::Int(1));
    child_rule.parent_conditions = vec![ParentCondition {
        id: "parent".to_string(),
        condition: vec![attr("value", string_value("green"))],
        gate: true,
    }];
    let child = FeatureDefinition {
        default_value: GrowthBookAttributeValue::Int(0),
        rules: vec![FeatureRule::Force(child_rule)],
    };
    let gb = catalog(vec![("parent", parent), ("child", child)]);
    let ctx = plain_ctx(vec![attr("id", string_value("1"))]);
    let (result, _) = eval_feature("child", &gb, &ctx, Vec::new());
    assert!(matches!(result.value, GrowthBookAttributeValue::Empty));
    assert!(matches!(result.source, FeatureResultSource::Prerequisite));
}

#[test]
fn prerequisite_satisfied_lets_rule_apply() {
    let parent = FeatureDefinition {
        default_value: string_value("green"),
        rules: vec![],
    };
    let mut child_rule = base_force(GrowthBookAttributeValue::Int(1));
    child_rule.parent_conditions = vec![ParentCondition {
        id: "parent".to_string(),
        condition: vec![attr("value", string_value("green"))],
        gate: true,
    }];
    let child = FeatureDefinition {
        default_value: GrowthBookAttributeValue::Int(0),
        rules: vec![FeatureRule::Force(child_rule)],
    };
    let gb = catalog(vec![("parent", parent), ("child", child)]);
    let ctx = plain_ctx(vec![attr("id", string_value("1"))]);
    let (result, _) = eval_feature("child", &gb, &ctx, Vec::new());
    assert!(matches!(result.value, GrowthBookAttributeValue::Int(1)));
    assert!(matches!(result.source, FeatureResultSource::Force));
}

#[test]
fn cyclic_prerequisite_detected() {
    let mut rule1 = base_force(GrowthBookAttributeValue::Int(1));
    rule1.parent_conditions = vec![ParentCondition {
        id: "flag2".to_string(),
        condition: vec![attr("value", string_value("x"))],
        gate: false,
    }];
    let mut rule2 = base_force(GrowthBookAttributeValue::Int(2));
    rule2.parent_conditions = vec![ParentCondition {
        id: "flag1".to_string(),
        condition: vec![attr("value", string_value("x"))],
        gate: false,
    }];
    let gb = catalog(vec![
        (
            "flag1",
            FeatureDefinition {
                default_value: GrowthBookAttributeValue::Int(0),
                rules: vec![FeatureRule::Force(rule1)],
            },
        ),
        (
            "flag2",
            FeatureDefinition {
                default_value: GrowthBookAttributeValue::Int(0),
                rules: vec![FeatureRule::Force(rule2)],
            },
        ),
    ]);
    let ctx = plain_ctx(vec![]);
    let (result, _) = eval_feature("flag1", &gb, &ctx, Vec::new());
    assert!(matches!(result.value, GrowthBookAttributeValue::Empty));
    assert!(matches!(result.source, FeatureResultSource::CyclicPrerequisite));
}

#[test]
fn sticky_resume_overrides_natural_bucket() {
    let mut exp = base_experiment(
        "feature-exp",
        vec![
            GrowthBookAttributeValue::Int(0),
            GrowthBookAttributeValue::Int(1),
            GrowthBookAttributeValue::Int(2),
        ],
    );
    exp.hash_attribute = Some("deviceId".to_string());
    let attrs = vec![attr("deviceId", string_value("d123"))];

    // Without sticky documents the bucket naturally picks variation 0.
    let ctx_plain = plain_ctx(clone_attrs(&attrs));
    let (natural, _, _) = run_experiment(&exp, &ctx_plain, Vec::new());
    assert_eq!(natural.variation_id, 0);

    // A stored assignment resumes variation 2 instead.
    let mut ctx = plain_ctx(clone_attrs(&attrs));
    ctx.sticky_enabled = true;
    let docs = vec![StickyAssignmentDoc {
        attribute_name: "deviceId".to_string(),
        attribute_value: "d123".to_string(),
        assignments: vec![("feature-exp__0".to_string(), "2".to_string())],
    }];
    let (res, docs_after, applied) = run_experiment(&exp, &ctx, docs);
    assert!(applied);
    assert_eq!(res.variation_id, 2);
    assert!(res.sticky_bucket_used);
    assert!(res.hash_used);
    assert!(matches!(res.value, GrowthBookAttributeValue::Int(2)));
    assert_eq!(docs_after.len(), 1);
}

#[test]
fn sticky_assignment_written_once() {
    let mut exp = base_experiment(
        "feature-exp",
        vec![GrowthBookAttributeValue::Int(0), GrowthBookAttributeValue::Int(1)],
    );
    exp.hash_attribute = Some("deviceId".to_string());
    let attrs = vec![attr("deviceId", string_value("d123"))];
    let mut ctx = plain_ctx(clone_attrs(&attrs));
    ctx.sticky_enabled = true;

    let (first, docs1, _) = run_experiment(&exp, &ctx, Vec::new());
    assert_eq!(docs1.len(), 1);
    assert_eq!(docs1[0].attribute_name, "deviceId");
    assert_eq!(docs1[0].attribute_value, "d123");
    assert_eq!(docs1[0].assignments.len(), 1);

    let mut ctx2 = plain_ctx(clone_attrs(&attrs));
    ctx2.sticky_enabled = true;
    let (second, docs2, _) = run_experiment(&exp, &ctx2, docs1);
    assert_eq!(second.variation_id, first.variation_id);
    assert_eq!(second.key, first.key);
    assert!(second.sticky_bucket_used);
    assert_eq!(docs2.len(), 1);
    assert_eq!(docs2[0].assignments.len(), 1);
}

#[test]
fn url_override_forces_variation() {
    let exp = base_experiment(
        "my-test",
        vec![GrowthBookAttributeValue::Int(0), GrowthBookAttributeValue::Int(1)],
    );
    let mut ctx = plain_ctx(vec![attr("id", string_value("2"))]);
    ctx.url = Some("http://example.com?my-test=1".to_string());
    let (res, _, _) = run_experiment(&exp, &ctx, Vec::new());
    assert_eq!(res.variation_id, 1);
    assert!(res.in_experiment);
    assert!(!res.hash_used);
}

#[test]
fn url_override_out_of_range_ignored() {
    let exp = base_experiment(
        "my-test",
        vec![GrowthBookAttributeValue::Int(0), GrowthBookAttributeValue::Int(1)],
    );
    let mut ctx = plain_ctx(vec![attr("id", string_value("2"))]);
    ctx.url = Some("http://example.com?my-test=5".to_string());
    let (res, _, _) = run_experiment(&exp, &ctx, Vec::new());
    // The natural bucket for this user picks variation 0.
    assert_eq!(res.variation_id, 0);
    assert!(res.hash_used);
}

#[test]
fn experiment_with_one_variation_never_applies() {
    let exp = base_experiment("solo", vec![GrowthBookAttributeValue::Int(0)]);
    let ctx = plain_ctx(vec![attr("id", string_value("1"))]);
    let (res, _, applied) = run_experiment(&exp, &ctx, Vec::new());
    assert!(!applied);
    assert!(!res.in_experiment);
}

#[test]
fn experiment_rule_in_catalog_reports_result() {
    let exp = base_experiment(
        "my-test",
        vec![GrowthBookAttributeValue::Bool(false), GrowthBookAttributeValue::Bool(true)],
    );
    let gb = catalog(vec![(
        "exp-flag",
        FeatureDefinition {
            default_value: GrowthBookAttributeValue::Bool(false),
            rules: vec![FeatureRule::Experiment(ExperimentRule {
                parent_conditions: Vec::new(),
                experiment: exp,
            })],
        },
    )]);
    let ctx = plain_ctx(vec![attr("id", string_value("1"))]);
    let (result, _) = eval_feature("exp-flag", &gb, &ctx, Vec::new());
    assert!(matches!(result.source, FeatureResultSource::Experiment));
    assert!(matches!(result.value, GrowthBookAttributeValue::Bool(true)));
    let er = result.experiment_result.expect("experiment result present");
    assert_eq!(er.variation_id, 1);
    assert_eq!(er.key, "1");
}

fn clone_attrs(attrs: &[GrowthBookAttribute]) -> Vec<GrowthBookAttribute> {
    attrs
        .iter()
        .map(|a| GrowthBookAttribute {
            key: a.key.clone(),
            value: a.value.deep_clone(),
        })
        .collect()
}

#[test]
fn evaluation_is_deterministic() {
    let mut rule = base_force(GrowthBookAttributeValue::Int(1));
    rule.coverage = Some(500_000_000);
    let gb = catalog(vec![(
        "feature",
        FeatureDefinition {
            default_value: GrowthBookAttributeValue::Int(2),
            rules: vec![FeatureRule::Force(rule)],
        },
    )]);
    let ctx = plain_ctx(vec![attr("id", string_value("3"))]);
    let (first, _) = eval_feature("feature", &gb, &ctx, Vec::new());
    let (second, _) = eval_feature("feature", &gb, &ctx, Vec::new());
    assert_eq!(first.on, second.on);
    assert_eq!(first.off, second.off);
    assert!(matches!(first.source, FeatureResultSource::Force));
    assert!(matches!(second.source, FeatureResultSource::Force));
    assert!(matches!(first.value, GrowthBookAttributeValue::Int(1)));
    assert!(matches!(second.value, GrowthBookAttributeValue::Int(1)));
}
