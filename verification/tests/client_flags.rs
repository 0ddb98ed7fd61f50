//! The client's typed surface over small catalogs, and the errors it
//! reports for mismatched value shapes.

use growthbook_rust_sdk::client::GrowthBookClient;
use growthbook_rust_sdk::error::{GrowthbookError, GrowthbookErrorCode};
use growthbook_rust_sdk::feature::evaluator::{
    ExperimentRule, FeatureDefinition, FeatureRule, GrowthBook,
};
use growthbook_rust_sdk::feature::experiment::Experiment;
use growthbook_rust_sdk::model::{Flag, StringFlag};
use growthbook_rust_sdk::model_public::{GrowthBookAttribute, GrowthBookAttributeValue};

fn attrs_of(key: &str, value: &str) -> Vec<GrowthBookAttribute> {
    vec![GrowthBookAttribute {
        key: key.to_string(),
        value: GrowthBookAttributeValue::String(value.to_string()),
    }]
}

fn experiment_feature(
    name: &str,
    key: &str,
    hash_attribute: &str,
    variations: Vec<GrowthBookAttributeValue>,
    weights: Option<Vec<u64>>,
    coverage: Option<u64>,
    default_value: GrowthBookAttributeValue,
) -> (String, FeatureDefinition) {
    let experiment = Experiment {
        key: key.to_string(),
        variations,
        weights,
        coverage,
        ranges: None,
        namespace: None,
        condition: None,
        filters: Vec::new(),
        hash_attribute: Some(hash_attribute.to_string()),
        fallback_attribute: None,
        hash_version: None,
        seed: None,
        meta: Vec::new(),
        name: None,
        bucket_version: None,
        min_bucket_version: None,
        disable_sticky_bucketing: false,
        force: None,
    };
    (
        name.to_string(),
        FeatureDefinition {
            default_value,
            rules: vec![FeatureRule::Experiment(ExperimentRule {
                parent_conditions: Vec::new(),
                experiment,
            })],
        },
    )
}

fn client_with(features: Vec<(String, FeatureDefinition)>) -> GrowthBookClient {
    GrowthBookClient {
        gb: GrowthBook { features },
    }
}

#[test]
fn should_return_enabled_default_when_fail_to_call_growthbook() {
    let client = client_with(vec![]);
    let flag_state = client.is_on("flag-not-exist", false, None).expect("boolean flag");
    assert!(!flag_state.enabled);
    assert!(flag_state.experiment_key.is_none());
}

#[test]
fn should_return_enabled_false_when_experiment_variant_is_disabled() {
    // The bucket of this id under the experiment key is 0.758, which the
    // weights place in variation 0.
    let features = vec![experiment_feature(
        "experiment-rule-condition-flag",
        "experiment-rule-condition-flag",
        "any-id",
        vec![GrowthBookAttributeValue::Bool(false), GrowthBookAttributeValue::Bool(true)],
        Some(vec![900_000_000, 100_000_000]),
        None,
        GrowthBookAttributeValue::Bool(true),
    )];
    let client = client_with(features);
    let vec = attrs_of("any-id", "018fde79-e663-79d9-83f5-00d300c3c31e");
    let flag_state = client
        .is_on("experiment-rule-condition-flag", true, Some(&vec))
        .expect("boolean flag");
    assert!(!flag_state.enabled);
    assert_eq!("0", flag_state.experiment_key.unwrap_or(String::from("failed")));
}

#[test]
fn should_return_enabled_true_when_experiment_variant_is_enabled() {
    // The bucket of this id is 0.858, inside the third equal-weight slice
    // under ninety percent coverage.
    let features = vec![experiment_feature(
        "experiment-rule-condition-ninety-coverage-flag",
        "experiment-rule-condition-ninety-coverage-flag",
        "any-id",
        vec![
            GrowthBookAttributeValue::Bool(false),
            GrowthBookAttributeValue::Bool(false),
            GrowthBookAttributeValue::Bool(true),
        ],
        None,
        Some(900_000_000),
        GrowthBookAttributeValue::Bool(false),
    )];
    let client = client_with(features);
    let vec = attrs_of("any-id", "018fde79-4e7d-713a-bc1b-92a64729bd47");
    let flag_state = client
        .is_on("experiment-rule-condition-ninety-coverage-flag", true, Some(&vec))
        .expect("boolean flag");
    assert!(flag_state.enabled);
    assert_eq!("2", flag_state.experiment_key.unwrap_or(String::from("failed")));
}

#[test]
fn should_return_enabled_false_when_attribute_is_on_disabled_range() {
    // Zero coverage: no variation is ever assigned, so the feature falls
    // back to its default value with no experiment key.
    let features = vec![experiment_feature(
        "experiment-rule-condition-zero-coverage-flag",
        "experiment-rule-condition-zero-coverage-flag",
        "any-id",
        vec![GrowthBookAttributeValue::Bool(true), GrowthBookAttributeValue::Bool(true)],
        None,
        Some(0),
        GrowthBookAttributeValue::Bool(false),
    )];
    let client = client_with(features);
    let vec = attrs_of("any-id", "018fd040-de77-72c7-af6e-6a67d430c0e6");
    let flag_state = client
        .is_on("experiment-rule-condition-zero-coverage-flag", true, Some(&vec))
        .expect("boolean flag");
    assert!(!flag_state.enabled);
    assert!(flag_state.experiment_key.is_none());
}

#[test]
fn is_on_reports_type_mismatch() {
    let client = client_with(vec![(
        "string-flag".to_string(),
        FeatureDefinition {
            default_value: GrowthBookAttributeValue::String("hello".to_string()),
            rules: vec![],
        },
    )]);
    let err = client.is_on("string-flag", false, None).expect_err("type mismatch");
    assert!(matches!(err.code, GrowthbookErrorCode::InvalidResponseValueType));
}

#[test]
fn string_feature_narrows_strings() {
    let client = client_with(vec![(
        "string-flag".to_string(),
        FeatureDefinition {
            default_value: GrowthBookAttributeValue::String("hello".to_string()),
            rules: vec![],
        },
    )]);
    let sf = client.string_feature("string-flag", "fallback", None).expect("string flag");
    assert_eq!(sf.value, "hello");
    let sf2 = client.string_feature("missing-flag", "fallback", None).expect("default string");
    assert_eq!(sf2.value, "fallback");
}

#[test]
fn object_feature_narrows_other_shapes() {
    let client = client_with(vec![(
        "int-flag".to_string(),
        FeatureDefinition {
            default_value: GrowthBookAttributeValue::Int(7),
            rules: vec![],
        },
    )]);
    let of = client
        .object_feature("int-flag", &GrowthBookAttributeValue::Int(0), None)
        .expect("object flag");
    assert!(matches!(of.value, GrowthBookAttributeValue::Int(7)));
}

#[test]
fn total_features_counts_catalog() {
    let client = client_with(vec![(
        "a".to_string(),
        FeatureDefinition {
            default_value: GrowthBookAttributeValue::Empty,
            rules: vec![],
        },
    )]);
    assert_eq!(client.total_features(), 1);
    assert_eq!(client.read_gb().features.len(), 1);
}

#[test]
fn invalid_response_value_type_message() {
    let err = GrowthbookError::invalid_response_value_type(
        Flag::StringFlag(StringFlag {
            value: "abc".to_string(),
        }),
        "boolean",
    );
    assert!(matches!(err.code, GrowthbookErrorCode::InvalidResponseValueType));
    assert_eq!(err.message, "Invalid value=abc for expected type=boolean");
}

#[test]
fn error_new_keeps_code_and_message() {
    let err = GrowthbookError::new(GrowthbookErrorCode::ParseError, "bad number");
    assert!(matches!(err.code, GrowthbookErrorCode::ParseError));
    assert_eq!(err.message, "bad number");
}
