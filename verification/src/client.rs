//! The client: a catalog holder with a typed convenience surface.
//!
//! The convenience methods narrow an evaluated feature to a requested
//! type, falling back to the caller's default when the feature is unknown
//! and reporting a typed error when the value's shape does not match.

use vstd::prelude::*;

use crate::error::{GrowthbookError, GrowthbookErrorCode};
use crate::feature::evaluator::{
    eval_feature, gb_wf, spec_eval, FeatureOutcome, FeatureResultSource, GrowthBook,
};
use crate::feature::experiment::{ctx_wf, EvalContext};
use crate::feature::sticky::docs_view;
use crate::model::{BooleanFlag, Flag, StringFlag};
use crate::model_private::{BooleanFeature, Feature, ObjectFeature, StringFeature};
use crate::model_public::{
    attrs_wf, spec_attrs_eq, spec_value_eq, GrowthBookAttribute, GrowthBookAttributeValue,
};

verus! {

use vstd::string::StrSliceExecFns;
use vstd::string::StringExecFns;

/// A catalog and the evaluation surface over it. The surrounding runtime
/// owns refreshing the catalog; the client only evaluates.
#[derive(Debug)]
pub struct GrowthBookClient {
    pub gb: GrowthBook,
}

/// A context for one plain evaluation: enabled, not in QA mode, no URL, no
/// forced variations, no sticky store.
pub open spec fn plain_context(ctx: EvalContext) -> bool {
    &&& ctx.enabled
    &&& !ctx.qa_mode
    &&& ctx.url is None
    &&& ctx.forced_variations@.len() == 0
    &&& !ctx.sticky_enabled
}

/// The value a check reports: the evaluated value, or the caller's default
/// when the feature is unknown.
pub open spec fn spec_check_value(o: FeatureOutcome, default: GrowthBookAttributeValue) -> GrowthBookAttributeValue {
    if o.source == FeatureResultSource::UnknownFeature {
        default
    } else {
        o.value
    }
}

/// The attribute view a caller handed in.
pub open spec fn spec_attrs_of(ua: Option<&Vec<GrowthBookAttribute>>) -> Seq<GrowthBookAttribute> {
    match ua {
        Some(a) => a@,
        None => Seq::empty(),
    }
}

/// The three shapes the typed surface distinguishes.
#[derive(Clone, Copy, Debug, PartialEq, Eq, Structural)]
pub enum ValueShape {
    Boolean,
    Text,
    Other,
}

/// The shape of a value.
pub open spec fn value_shape(v: GrowthBookAttributeValue) -> ValueShape {
    match v {
        GrowthBookAttributeValue::Bool(_) => ValueShape::Boolean,
        GrowthBookAttributeValue::String(_) => ValueShape::Text,
        _ => ValueShape::Other,
    }
}

/// The shape a typed feature carries.
pub open spec fn feature_shape(r: Feature) -> ValueShape {
    match r {
        Feature::Boolean(_) => ValueShape::Boolean,
        Feature::String(_) => ValueShape::Text,
        Feature::Object(_) => ValueShape::Other,
    }
}

/// What the narrowing of an outcome to a typed feature means, for some
/// plain context whose attribute bag is structurally equal to the given
/// one.
pub open spec fn spec_checked(
    gb: GrowthBook,
    name: Seq<char>,
    default: GrowthBookAttributeValue,
    attrs: Seq<GrowthBookAttribute>,
    r: Feature,
) -> bool {
    exists|ctx: EvalContext|
        {
            &&& #[trigger] plain_context(ctx)
            &&& spec_attrs_eq(ctx.attributes@, attrs)
            &&& {
                let o = spec_eval(name, gb, ctx, Seq::empty());
                let chosen = spec_check_value(o, default);
                match chosen {
                    GrowthBookAttributeValue::Bool(b) => r matches Feature::Boolean(bf)
                        && bf.enabled == b && (bf.experiment_key is Some) == o.has_experiment && (
                    o.has_experiment ==> bf.experiment_key->0@ == o.exp_key),
                    GrowthBookAttributeValue::String(s) => r matches Feature::String(sf)
                        && sf.value@ == s@ && (sf.experiment_key is Some) == o.has_experiment && (
                    o.has_experiment ==> sf.experiment_key->0@ == o.exp_key),
                    _ => r matches Feature::Object(of) && spec_value_eq(of.value, chosen) && (
                    of.experiment_key is Some) == o.has_experiment && (o.has_experiment
                        ==> of.experiment_key->0@ == o.exp_key),
                }
            }
        }
}

/// For some plain context structurally equal to the given attributes, the
/// checked value has this shape.
pub open spec fn spec_checked_shape(
    gb: GrowthBook,
    name: Seq<char>,
    default: GrowthBookAttributeValue,
    attrs: Seq<GrowthBookAttribute>,
    shape: ValueShape,
) -> bool {
    exists|ctx: EvalContext|
        {
            &&& #[trigger] plain_context(ctx)
            &&& spec_attrs_eq(ctx.attributes@, attrs)
            &&& value_shape(spec_check_value(spec_eval(name, gb, ctx, Seq::empty()), default))
                == shape
        }
}

/// For some plain context structurally equal to the given attributes, the
/// checked value does not have the wanted shape: the evidence the typed
/// error must carry. An unknown feature never shows a mismatch against a
/// default of the wanted shape, so there the typed result is owed.
pub open spec fn spec_checked_mismatch(
    gb: GrowthBook,
    name: Seq<char>,
    default: GrowthBookAttributeValue,
    attrs: Seq<GrowthBookAttribute>,
    want: ValueShape,
) -> bool {
    exists|s: ValueShape|
        s != want && #[trigger] spec_checked_shape(gb, name, default, attrs, s)
}

/// A narrowed feature carries the shape of the value some equivalent plain
/// context checked out.
pub proof fn lemma_checked_shape(
    gb: GrowthBook,
    name: Seq<char>,
    default: GrowthBookAttributeValue,
    attrs: Seq<GrowthBookAttribute>,
    r: Feature,
)
    requires
        spec_checked(gb, name, default, attrs, r),
    ensures
        spec_checked_shape(gb, name, default, attrs, feature_shape(r)),
{
    let ctx = choose|ctx: EvalContext|
        {
            &&& #[trigger] plain_context(ctx)
            &&& spec_attrs_eq(ctx.attributes@, attrs)
            &&& {
                let o = spec_eval(name, gb, ctx, Seq::empty());
                let chosen = spec_check_value(o, default);
                match chosen {
                    GrowthBookAttributeValue::Bool(b) => r matches Feature::Boolean(bf)
                        && bf.enabled == b && (bf.experiment_key is Some) == o.has_experiment && (
                    o.has_experiment ==> bf.experiment_key->0@ == o.exp_key),
                    GrowthBookAttributeValue::String(s) => r matches Feature::String(sf)
                        && sf.value@ == s@ && (sf.experiment_key is Some) == o.has_experiment && (
                    o.has_experiment ==> sf.experiment_key->0@ == o.exp_key),
                    _ => r matches Feature::Object(of) && spec_value_eq(of.value, chosen) && (
                    of.experiment_key is Some) == o.has_experiment && (o.has_experiment
                        ==> of.experiment_key->0@ == o.exp_key),
                }
            }
        };
    let chosen = spec_check_value(spec_eval(name, gb, ctx, Seq::empty()), default);
    match chosen {
        GrowthBookAttributeValue::Bool(_) => {
            assert(value_shape(chosen) == feature_shape(r));
        },
        GrowthBookAttributeValue::String(_) => {
            assert(value_shape(chosen) == feature_shape(r));
        },
        _ => {
            assert(value_shape(chosen) == feature_shape(r));
        },
    }
}

impl GrowthBookClient {
    /// The catalog, read.
    pub fn read_gb(&self) -> (r: &GrowthBook)
        ensures
            r == &self.gb,
    {
        &self.gb
    }

    /// How many features the catalog holds.
    pub fn total_features(&self) -> (r: usize)
        ensures
            r == self.gb.features@.len(),
    {
        let gb_data = self.read_gb();
        gb_data.features.len()
    }

    /// Evaluates a feature in a plain context and narrows the result by its
    /// value shape, as [`spec_checked`] states it.
    pub fn check(
        &self,
        feature_name: &str,
        default_value: GrowthBookAttributeValue,
        user_attributes: Option<&Vec<GrowthBookAttribute>>,
    ) -> (r: Feature)
        requires
            gb_wf(self.gb),
            crate::model_public::val_wf(default_value),
            match user_attributes {
                Some(a) => attrs_wf(a@),
                None => true,
            },
        ensures
            spec_checked(
                self.gb,
                feature_name@,
                default_value,
                spec_attrs_of(user_attributes),
                r,
            ),
    {
        let mut attributes: Vec<GrowthBookAttribute> = Vec::new();
        match user_attributes {
            Some(ua) => {
                let mut i: usize = 0;
                while i < ua.len()
                    invariant
                        i <= ua@.len(),
                        attrs_wf(ua@),
                        attributes@.len() == i,
                        forall|j: int|
                            0 <= j < i ==> (#[trigger] attributes@[j]).key@ == ua@[j].key@
                                && spec_value_eq(attributes@[j].value, ua@[j].value)
                                && crate::model_public::val_wf(attributes@[j].value),
                    decreases ua@.len() - i,
                {
                    proof {
                        crate::model_public::lemma_attrs_wf_pointwise(ua@);
                    }
                    attributes.push(
                        GrowthBookAttribute {
                            key: ua[i].key.as_str().to_owned(),
                            value: ua[i].value.deep_clone(),
                        },
                    );
                    i = i + 1;
                }
            },
            None => {},
        }
        proof {
            crate::model_public::lemma_attrs_eq_pointwise(
                attributes@,
                spec_attrs_of(user_attributes),
            );
            crate::model_public::lemma_attrs_wf_pointwise(attributes@);
        }
        let ctx = EvalContext {
            attributes,
            enabled: true,
            qa_mode: false,
            url: None,
            forced_variations: Vec::new(),
            sticky_enabled: false,
        };
        let ghost gctx = ctx;
        proof {
            assert(plain_context(gctx));
            assert(docs_view(Seq::<crate::feature::sticky::StickyAssignmentDoc>::empty())
                =~= Seq::<crate::feature::sticky::StickyDocView>::empty());
        }
        let (result, _docs) = eval_feature(feature_name, &self.gb, &ctx, Vec::new());
        let ghost o = spec_eval(feature_name@, self.gb, gctx, Seq::empty());
        let experiment_key: Option<String> = match &result.experiment_result {
            Some(er) => Some(er.key.as_str().to_owned()),
            None => None,
        };
        let chosen: GrowthBookAttributeValue = if matches!(
            result.source,
            FeatureResultSource::UnknownFeature,
        ) {
            default_value
        } else {
            result.value
        };
        proof {
            if o.source == FeatureResultSource::UnknownFeature {
                assert(spec_value_eq(chosen, default_value)) by {
                    crate::model_public::lemma_value_eq_sym(chosen, default_value);
                    crate::model_public::lemma_value_eq_refl(default_value);
                }
            }
        }
        let r = match chosen {
            GrowthBookAttributeValue::Bool(b) => Feature::Boolean(
                BooleanFeature { enabled: b, experiment_key },
            ),
            GrowthBookAttributeValue::String(s) => Feature::String(
                StringFeature { value: s, experiment_key },
            ),
            other => Feature::Object(ObjectFeature { value: other, experiment_key }),
        };
        r
    }

    /// Narrows a feature to a boolean: `Ok` exactly when the checked value
    /// is a boolean, else the typed error, which carries evidence that the
    /// checked value's shape is not boolean. An unknown feature checks out
    /// as the boolean default, so there `Ok` is owed.
    pub fn is_on(
        &self,
        feature_name: &str,
        default_response: bool,
        user_attributes: Option<&Vec<GrowthBookAttribute>>,
    ) -> (r: Result<BooleanFeature, GrowthbookError>)
        requires
            gb_wf(self.gb),
            match user_attributes {
                Some(a) => attrs_wf(a@),
                None => true,
            },
        ensures
            ({
                match r {
                    Ok(bf) => spec_checked(
                        self.gb,
                        feature_name@,
                        GrowthBookAttributeValue::Bool(default_response),
                        spec_attrs_of(user_attributes),
                        Feature::Boolean(bf),
                    ),
                    Err(e) => e.code == GrowthbookErrorCode::InvalidResponseValueType
                        && spec_checked_mismatch(
                        self.gb,
                        feature_name@,
                        GrowthBookAttributeValue::Bool(default_response),
                        spec_attrs_of(user_attributes),
                        ValueShape::Boolean,
                    ),
                }
            }),
    {
        let ghost default = GrowthBookAttributeValue::Bool(default_response);
        let flag = self.check(
            feature_name,
            GrowthBookAttributeValue::Bool(default_response),
            user_attributes,
        );
        match flag {
            Feature::Boolean(it) => Ok(it),
            it => {
                proof {
                    lemma_checked_shape(
                        self.gb,
                        feature_name@,
                        default,
                        spec_attrs_of(user_attributes),
                        it,
                    );
                    assert(feature_shape(it) != ValueShape::Boolean);
                }
                Err(invalid_flag_error(it, "boolean"))
            },
        }
    }

    /// Narrows a feature to a string: `Ok` exactly when the checked value
    /// is a string, else the typed error, which carries evidence that the
    /// checked value's shape is not string. An unknown feature checks out
    /// as the string default, so there `Ok` is owed.
    pub fn string_feature(
        &self,
        feature_name: &str,
        default_response: &str,
        user_attributes: Option<&Vec<GrowthBookAttribute>>,
    ) -> (r: Result<StringFeature, GrowthbookError>)
        requires
            gb_wf(self.gb),
            match user_attributes {
                Some(a) => attrs_wf(a@),
                None => true,
            },
        ensures
            ({
                match r {
                    Ok(sf) => exists|d: String|
                        (#[trigger] d@) == default_response@ && spec_checked(
                            self.gb,
                            feature_name@,
                            GrowthBookAttributeValue::String(d),
                            spec_attrs_of(user_attributes),
                            Feature::String(
                                StringFeature {
                                    value: sf.value,
                                    experiment_key: sf.experiment_key,
                                },
                            ),
                        ),
                    Err(e) => e.code == GrowthbookErrorCode::InvalidResponseValueType && exists|
                        d: String,
                    |
                        (#[trigger] d@) == default_response@ && spec_checked_mismatch(
                            self.gb,
                            feature_name@,
                            GrowthBookAttributeValue::String(d),
                            spec_attrs_of(user_attributes),
                            ValueShape::Text,
                        ),
                }
            }),
    {
        let default = default_response.to_owned();
        let ghost gd = default;
        let flag = self.check(
            feature_name,
            GrowthBookAttributeValue::String(default),
            user_attributes,
        );
        match flag {
            Feature::String(it) => Ok(it),
            it => {
                proof {
                    lemma_checked_shape(
                        self.gb,
                        feature_name@,
                        GrowthBookAttributeValue::String(gd),
                        spec_attrs_of(user_attributes),
                        it,
                    );
                    assert(feature_shape(it) != ValueShape::Text);
                }
                Err(invalid_flag_error(it, "String"))
            },
        }
    }

    /// Narrows a feature to any other value shape: `Ok` exactly when the
    /// checked value is neither a boolean nor a string, else the typed
    /// error, which carries evidence of the boolean or string shape.
    pub fn object_feature(
        &self,
        feature_name: &str,
        default_response: &GrowthBookAttributeValue,
        user_attributes: Option<&Vec<GrowthBookAttribute>>,
    ) -> (r: Result<ObjectFeature, GrowthbookError>)
        requires
            gb_wf(self.gb),
            crate::model_public::val_wf(*default_response),
            match user_attributes {
                Some(a) => attrs_wf(a@),
                None => true,
            },
        ensures
            ({
                match r {
                    Ok(of) => exists|d: GrowthBookAttributeValue|
                        #[trigger] spec_value_eq(d, *default_response) && spec_checked(
                            self.gb,
                            feature_name@,
                            d,
                            spec_attrs_of(user_attributes),
                            Feature::Object(
                                ObjectFeature {
                                    value: of.value,
                                    experiment_key: of.experiment_key,
                                },
                            ),
                        ),
                    Err(e) => e.code == GrowthbookErrorCode::InvalidResponseValueType && exists|
                        d: GrowthBookAttributeValue,
                    |
                        #[trigger] spec_value_eq(d, *default_response) && spec_checked_mismatch(
                            self.gb,
                            feature_name@,
                            d,
                            spec_attrs_of(user_attributes),
                            ValueShape::Other,
                        ),
                }
            }),
    {
        let default = default_response.deep_clone();
        let ghost d = default;
        let flag = self.check(feature_name, default, user_attributes);
        match flag {
            Feature::Object(it) => {
                proof {
                    crate::model_public::lemma_value_eq_wf(d, *default_response);
                }
                Ok(it)
            },
            it => {
                proof {
                    lemma_checked_shape(
                        self.gb,
                        feature_name@,
                        d,
                        spec_attrs_of(user_attributes),
                        it,
                    );
                    assert(feature_shape(it) != ValueShape::Other);
                }
                Err(invalid_flag_error(it, "Object"))
            },
        }
    }
}

/// The typed error for a feature whose value shape was not the requested
/// one.
fn invalid_flag_error(flag: Feature, expected_type: &str) -> (r: GrowthbookError)
    ensures
        r.code == GrowthbookErrorCode::InvalidResponseValueType,
{
    let described: Flag = match flag {
        Feature::Boolean(it) => Flag::BooleanFlag(BooleanFlag { enabled: it.enabled }),
        Feature::String(it) => Flag::StringFlag(StringFlag { value: it.value }),
        Feature::Object(_) => Flag::InvalidFlag(),
    };
    GrowthbookError::invalid_response_value_type(described, expected_type)
}

} // verus!
