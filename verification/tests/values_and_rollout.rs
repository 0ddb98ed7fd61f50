//! Stringification, decimals, dotted-path lookup, and the standalone
//! rollout rule.

use growthbook_rust_sdk::extensions::find_value;
use growthbook_rust_sdk::feature::feature_rule_rollout::GrowthBookFeatureRuleRollout;
use growthbook_rust_sdk::model_public::{Decimal, GrowthBookAttribute, GrowthBookAttributeValue};

fn attr(key: &str, value: GrowthBookAttributeValue) -> GrowthBookAttribute {
    GrowthBookAttribute {
        key: key.to_string(),
        value,
    }
}

#[test]
fn stringify_scalars() {
    assert_eq!(GrowthBookAttributeValue::Empty.to_string(), "");
    assert_eq!(GrowthBookAttributeValue::Bool(true).to_string(), "true");
    assert_eq!(GrowthBookAttributeValue::Bool(false).to_string(), "false");
    assert_eq!(GrowthBookAttributeValue::Int(42).to_string(), "42");
    assert_eq!(GrowthBookAttributeValue::Int(-42).to_string(), "-42");
    assert_eq!(GrowthBookAttributeValue::Int(0).to_string(), "0");
    assert_eq!(
        GrowthBookAttributeValue::String("hi".to_string()).to_string(),
        "hi"
    );
}

#[test]
fn stringify_decimals() {
    let d = |m: i64, e: u32| {
        GrowthBookAttributeValue::Float(Decimal::new(m, e).expect("decimal"))
    };
    assert_eq!(d(25, 1).to_string(), "2.5");
    assert_eq!(d(505, 4).to_string(), "0.0505");
    assert_eq!(d(-15, 1).to_string(), "-1.5");
    assert_eq!(d(10, 1).to_string(), "1");
    assert_eq!(d(0, 3).to_string(), "0");
    assert_eq!(d(7, 0).to_string(), "7");
}

#[test]
fn stringify_concatenates_containers() {
    let v = GrowthBookAttributeValue::Array(vec![
        GrowthBookAttributeValue::Int(1),
        GrowthBookAttributeValue::String("a".to_string()),
        GrowthBookAttributeValue::Bool(true),
    ]);
    assert_eq!(v.to_string(), "1atrue");
    let o = GrowthBookAttributeValue::Object(vec![
        attr("x", GrowthBookAttributeValue::Int(1)),
        attr("y", GrowthBookAttributeValue::Int(2)),
    ]);
    assert_eq!(o.to_string(), "12");
}

#[test]
fn find_value_descends_dotted_paths() {
    let attrs = vec![attr(
        "father",
        GrowthBookAttributeValue::Object(vec![attr("age", GrowthBookAttributeValue::Int(70))]),
    )];
    match find_value(&attrs, "father.age") {
        Some(GrowthBookAttributeValue::Int(70)) => {}
        other => panic!("unexpected lookup result: {other:?}"),
    }
    assert!(find_value(&attrs, "father.name").is_none());
    assert!(find_value(&attrs, "mother.age").is_none());
    assert!(find_value(&attrs, "father").is_some());
}

#[test]
fn rollout_rule_honors_coverage() {
    let rule = GrowthBookFeatureRuleRollout {
        conditions: None,
        hash_attribute: "id".to_string(),
        coverage: 500_000_000,
        force: GrowthBookAttributeValue::Int(1),
    };
    // The bucket for id 3 under this feature name is 0.276; for id 1 it is
    // 0.906.
    let hit = vec![attr("id", GrowthBookAttributeValue::String("3".to_string()))];
    let miss = vec![attr("id", GrowthBookAttributeValue::String("1".to_string()))];
    match rule.get_match_value("feature", Some(&hit)) {
        Some(GrowthBookAttributeValue::Int(1)) => {}
        other => panic!("expected the forced value, got {other:?}"),
    }
    assert!(rule.get_match_value("feature", Some(&miss)).is_none());
    assert!(rule.get_match_value("feature", None).is_none());
}

#[test]
fn rollout_rule_requires_condition_match() {
    let rule = GrowthBookFeatureRuleRollout {
        conditions: Some(vec![attr(
            "plan",
            GrowthBookAttributeValue::String("pro".to_string()),
        )]),
        hash_attribute: "id".to_string(),
        coverage: 1_000_000_000,
        force: GrowthBookAttributeValue::Int(1),
    };
    let matching = vec![
        attr("plan", GrowthBookAttributeValue::String("pro".to_string())),
        attr("id", GrowthBookAttributeValue::String("3".to_string())),
    ];
    let other_plan = vec![
        attr("plan", GrowthBookAttributeValue::String("free".to_string())),
        attr("id", GrowthBookAttributeValue::String("3".to_string())),
    ];
    assert!(rule.get_match_value("feature", Some(&matching)).is_some());
    assert!(rule.get_match_value("feature", Some(&other_plan)).is_none());
}

#[test]
fn decimal_normalization() {
    let d = Decimal::new(2500, 3).expect("decimal");
    assert_eq!(d.m, 25);
    assert_eq!(d.e, 1);
    let z = Decimal::new(0, 7).expect("decimal");
    assert_eq!(z.m, 0);
    assert_eq!(z.e, 0);
    assert!(Decimal::new(1, 30).is_none());
}

#[test]
fn decimal_comparison_is_exact() {
    let a = Decimal::new(15, 1).expect("decimal");
    let b = Decimal::new(2, 0).expect("decimal");
    assert!(a.lt(&b));
    assert!(!b.lt(&a));
    let c = Decimal::new(15, 1).expect("decimal");
    assert!(a.num_eq(&c));
    assert!(!a.num_eq(&b));
}
