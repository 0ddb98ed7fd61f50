//! A standalone rollout rule: a forced value gated by a coverage check on
//! the version-1 hash of a chosen attribute, seeded by the feature name.

use vstd::prelude::*;

use crate::extensions::spec_find_value;
use crate::feature::condition::{spec_conditions_on, ConditionEnabledCheck};
use crate::model_public::{attrs_wf, stringify, spec_value_eq, val_wf, GrowthBookAttribute, GrowthBookAttributeValue};

verus! {

/// A rollout rule: an optional condition, the attribute to hash, the
/// coverage in parts per billion, and the value to force.
#[derive(Debug)]
pub struct GrowthBookFeatureRuleRollout {
    pub conditions: Option<Vec<GrowthBookAttribute>>,
    pub hash_attribute: String,
    pub coverage: u64,
    pub force: GrowthBookAttributeValue,
}

impl GrowthBookFeatureRuleRollout {
    /// The rule carries only normalized decimals.
    pub open spec fn wf(self) -> bool {
        &&& match self.conditions {
            Some(c) => attrs_wf(c@),
            None => true,
        }
        &&& val_wf(self.force)
    }

    /// Whether the user's hashed attribute value falls under the coverage:
    /// the version-1 bucket under the feature name as seed is strictly
    /// below it.
    pub open spec fn spec_covers(self, value: GrowthBookAttributeValue, feature_name: Seq<char>) -> bool {
        crate::hash::spec_hash_v1(feature_name, stringify(value)) < self.coverage
    }

    /// The forced value when the rule matches the user.
    pub open spec fn spec_match_value(
        self,
        feature_name: Seq<char>,
        attrs: Option<Seq<GrowthBookAttribute>>,
    ) -> Option<GrowthBookAttributeValue> {
        match attrs {
            Some(ats) => {
                let cond_ok = match self.conditions {
                    Some(c) => spec_conditions_on(c@, ats),
                    None => true,
                };
                if !cond_ok {
                    None
                } else {
                    match spec_find_value(ats, self.hash_attribute@) {
                        Some(v) => if self.spec_covers(v, feature_name) {
                            Some(self.force)
                        } else {
                            None
                        },
                        None => None,
                    }
                }
            },
            None => None,
        }
    }

    /// The forced value when the rule matches, as
    /// [`GrowthBookFeatureRuleRollout::spec_match_value`] states it.
    pub fn get_match_value(
        &self,
        feature_name: &str,
        option_user_attributes: Option<&Vec<GrowthBookAttribute>>,
    ) -> (r: Option<GrowthBookAttributeValue>)
        requires
            self.wf(),
            match option_user_attributes {
                Some(a) => attrs_wf(a@),
                None => true,
            },
        ensures
            ({
                let s = self.spec_match_value(
                    feature_name@,
                    match option_user_attributes {
                        Some(a) => Some(a@),
                        None => None,
                    },
                );
                match r {
                    Some(v) => s matches Some(sv) && spec_value_eq(v, sv) && val_wf(v),
                    None => s is None,
                }
            }),
    {
        let user_attributes = match option_user_attributes {
            Some(a) => a,
            None => {
                return None;
            },
        };
        let cond_ok = match &self.conditions {
            Some(c) => c.is_on(user_attributes.as_slice()),
            None => true,
        };
        if !cond_ok {
            return None;
        }
        proof {
            crate::extensions::lemma_find_value_wf(user_attributes@, self.hash_attribute@);
        }
        match crate::extensions::find_value(
            user_attributes.as_slice(),
            self.hash_attribute.as_str(),
        ) {
            Some(v) => self.check_coverage(v, feature_name),
            None => None,
        }
    }

    /// The coverage gate alone, as
    /// [`GrowthBookFeatureRuleRollout::spec_covers`] states it.
    fn check_coverage(
        &self,
        value: &GrowthBookAttributeValue,
        feature_name: &str,
    ) -> (r: Option<GrowthBookAttributeValue>)
        requires
            self.wf(),
            val_wf(*value),
        ensures
            match r {
                Some(v) => self.spec_covers(*value, feature_name@) && spec_value_eq(v, self.force)
                    && val_wf(v),
                None => !self.spec_covers(*value, feature_name@),
            },
    {
        let vs = value.to_string();
        match crate::hash::gb_hash(feature_name, vs.as_str(), 1) {
            Some(n) => {
                if n < self.coverage {
                    Some(self.force.deep_clone())
                } else {
                    None
                }
            },
            None => None,
        }
    }
}

} // verus!
