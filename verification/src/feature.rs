pub mod condition;
pub mod sticky;
pub mod experiment;
pub mod evaluator;
pub mod feature_rule_rollout;
