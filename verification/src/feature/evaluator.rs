//! The per-feature rule pipeline: force rules, experiment rules,
//! prerequisites with cycle detection, and the default value.
//!
//! Evaluation is a pure function of the catalog, the context and the sticky
//! documents: it returns a result record and the (possibly extended)
//! documents. Prerequisite recursion carries the set of features currently
//! being evaluated; a feature that reaches itself reports a cyclic
//! prerequisite. Recursion depth is additionally bounded by the catalog
//! size plus one, which a chain of distinct known features never exhausts.

use vstd::prelude::*;

use crate::bucket::BucketRange;
use crate::feature::condition::{spec_conditions_on, ConditionEnabledCheck};
use crate::feature::experiment::{
    ctx_wf, exp_wf, spec_applied, spec_attr_str, spec_any_filter_excludes, spec_bucket_ver,
    spec_chosen_value, spec_hash_attr, spec_run, spec_variation_key, EvalContext, Experiment,
    ExperimentResult, Filter,
};
use crate::feature::sticky::{
    docs_view, spec_assignment_key, spec_save_assignment, StickyAssignmentDoc, StickyDocView,
};
use crate::hash::PPB_ONE;
use crate::model_public::{
    attrs_wf, spec_value_eq, val_wf, GrowthBookAttribute, GrowthBookAttributeValue,
};

verus! {

use vstd::string::StrSliceExecFns;
use vstd::string::StringExecFns;

/// Why a feature evaluated the way it did.
#[derive(Clone, Copy, Debug, PartialEq, Eq, Structural)]
pub enum FeatureResultSource {
    UnknownFeature,
    DefaultValue,
    Force,
    Experiment,
    Override,
    Prerequisite,
    CyclicPrerequisite,
}

/// A prerequisite: the parent feature, the condition its value must meet,
/// and whether failure blocks the whole feature.
#[derive(Debug)]
pub struct ParentCondition {
    pub id: String,
    pub condition: Vec<GrowthBookAttribute>,
    pub gate: bool,
}

/// A rule that forces a value, optionally gated by a condition, filters,
/// and a hash range or coverage.
#[derive(Debug)]
pub struct ForceRule {
    pub condition: Option<Vec<GrowthBookAttribute>>,
    pub parent_conditions: Vec<ParentCondition>,
    pub force: GrowthBookAttributeValue,
    pub coverage: Option<u64>,
    pub range: Option<BucketRange>,
    pub hash_attribute: Option<String>,
    pub hash_version: Option<u8>,
    pub seed: Option<String>,
    pub filters: Vec<Filter>,
}

/// A rule that runs an experiment.
#[derive(Debug)]
pub struct ExperimentRule {
    pub parent_conditions: Vec<ParentCondition>,
    pub experiment: Experiment,
}

/// One rule of a feature.
#[derive(Debug)]
pub enum FeatureRule {
    Force(ForceRule),
    Experiment(ExperimentRule),
}

/// A feature: a default value and rules tried in order.
#[derive(Debug)]
pub struct FeatureDefinition {
    pub default_value: GrowthBookAttributeValue,
    pub rules: Vec<FeatureRule>,
}

/// The feature catalog, as a keyed list.
#[derive(Debug)]
pub struct GrowthBook {
    pub features: Vec<(String, FeatureDefinition)>,
}

/// What one evaluation reports.
#[derive(Debug)]
pub struct FeatureResult {
    pub value: GrowthBookAttributeValue,
    pub on: bool,
    pub off: bool,
    pub source: FeatureResultSource,
    pub experiment_result: Option<ExperimentResult>,
}

/// Truthiness of a value: null, `false`, zero, the empty string and the
/// string `0` are off; everything else is on.
pub open spec fn spec_truthy(v: GrowthBookAttributeValue) -> bool {
    match v {
        GrowthBookAttributeValue::Empty => false,
        GrowthBookAttributeValue::Bool(b) => b,
        GrowthBookAttributeValue::Int(i) => i != 0,
        GrowthBookAttributeValue::Float(d) => d.m != 0,
        GrowthBookAttributeValue::String(s) => s@.len() > 0 && s@ != seq!['0'],
        GrowthBookAttributeValue::Array(_) => true,
        GrowthBookAttributeValue::Object(_) => true,
    }
}

/// Truthiness respects structural equality.
pub proof fn lemma_truthy_respects(a: GrowthBookAttributeValue, b: GrowthBookAttributeValue)
    requires
        spec_value_eq(a, b),
    ensures
        spec_truthy(a) == spec_truthy(b),
{
}

/// Truthiness, as [`spec_truthy`] states it.
pub fn truthy(v: &GrowthBookAttributeValue) -> (r: bool)
    ensures
        r == spec_truthy(*v),
{
    match v {
        GrowthBookAttributeValue::Empty => false,
        GrowthBookAttributeValue::Bool(b) => *b,
        GrowthBookAttributeValue::Int(i) => *i != 0,
        GrowthBookAttributeValue::Float(d) => d.m != 0,
        GrowthBookAttributeValue::String(s) => {
            let e1 = crate::model_public::str_eq(s.as_str(), "");
            let e2 = crate::model_public::str_eq(s.as_str(), "0");
            proof {
                reveal_strlit("");
                reveal_strlit("0");
                assert(""@ =~= Seq::<char>::empty());
                assert("0"@ =~= seq!['0']);
                if s@.len() == 0 {
                    assert(s@ =~= ""@);
                }
            }
            !e1 && !e2
        },
        GrowthBookAttributeValue::Array(_) => true,
        GrowthBookAttributeValue::Object(_) => true,
    }
}

/// Whether a prerequisite's condition accepts the parent's value, shown to
/// it as a one-attribute bag under the wrapping key.
pub open spec fn spec_parent_ok(cond: Seq<GrowthBookAttribute>, pv: GrowthBookAttributeValue) -> bool {
    spec_conditions_on(cond, crate::feature::condition::spec_wrapped_bag(pv))
}

/// The prerequisite test respects structural equality of the parent value.
pub proof fn lemma_parent_ok_respects(
    cond: Seq<GrowthBookAttribute>,
    pv_a: GrowthBookAttributeValue,
    pv_b: GrowthBookAttributeValue,
)
    requires
        spec_value_eq(pv_a, pv_b),
    ensures
        spec_parent_ok(cond, pv_a) == spec_parent_ok(cond, pv_b),
{
    let bag_a = crate::feature::condition::spec_wrapped_bag(pv_a);
    let bag_b = crate::feature::condition::spec_wrapped_bag(pv_b);
    assert(crate::model_public::spec_attrs_eq(bag_a, bag_b)) by {
        assert(bag_a[0] == GrowthBookAttribute {
            key: crate::feature::condition::wrap_value_key(),
            value: pv_a,
        });
        assert(bag_b[0] == GrowthBookAttribute {
            key: crate::feature::condition::wrap_value_key(),
            value: pv_b,
        });
        assert(bag_a.drop_first() =~= Seq::<GrowthBookAttribute>::empty());
        assert(bag_b.drop_first() =~= Seq::<GrowthBookAttribute>::empty());
        assert(crate::model_public::spec_attrs_eq(bag_a.drop_first(), bag_b.drop_first()));
    }
    crate::feature::condition::lemma_conditions_respects(cond, bag_a, bag_b);
}

/// Tests a prerequisite's condition against the parent's value, as
/// [`spec_parent_ok`] states it.
fn parent_condition_holds(cond: &Vec<GrowthBookAttribute>, pv: &GrowthBookAttributeValue) -> (r:
    bool)
    requires
        attrs_wf(cond@),
        val_wf(*pv),
    ensures
        r == spec_parent_ok(cond@, *pv),
{
    let key = "value".to_owned();
    let mut bag: Vec<GrowthBookAttribute> = Vec::new();
    bag.push(GrowthBookAttribute { key, value: pv.deep_clone() });
    proof {
        reveal_strlit("value");
        assert(bag@[0].key@ == "value"@);
        assert(exists|s: String| (#[trigger] s@) == "value"@);
        assert(crate::feature::condition::wrap_value_key()@ == "value"@);
        let sb = crate::feature::condition::spec_wrapped_bag(*pv);
        assert(crate::model_public::spec_attrs_eq(bag@, sb)) by {
            assert(sb[0] == GrowthBookAttribute {
                key: crate::feature::condition::wrap_value_key(),
                value: *pv,
            });
            assert(spec_value_eq(bag@[0].value, *pv));
            assert(bag@.drop_first() =~= Seq::<GrowthBookAttribute>::empty());
            assert(sb.drop_first() =~= Seq::<GrowthBookAttribute>::empty());
            assert(crate::model_public::spec_attrs_eq(bag@.drop_first(), sb.drop_first()));
        }
        crate::feature::condition::lemma_conditions_respects(cond@, bag@, sb);
        assert(crate::model_public::attrs_wf(bag@)) by {
            assert(crate::model_public::val_wf(bag@[0].value));
            assert(bag@.drop_first() =~= Seq::<GrowthBookAttribute>::empty());
            assert(crate::model_public::attrs_wf(bag@.drop_first()));
        }
    }
    cond.is_on(bag.as_slice())
}

/// Whether a force rule's hash gate admits the user.
pub open spec fn spec_force_gate(fr: ForceRule, name: Seq<char>, ctx: EvalContext) -> bool {
    if fr.filters@.len() > 0 && spec_any_filter_excludes(fr.filters@, ctx.attributes@) {
        false
    } else if fr.range is Some || fr.coverage is Some {
        let hattr = match fr.hash_attribute {
            Some(a) => a@,
            None => "id"@,
        };
        let hv = spec_attr_str(ctx.attributes@, hattr);
        if hv.len() == 0 {
            false
        } else {
            let seed = match fr.seed {
                Some(sd) => sd@,
                None => name,
            };
            let ver: u8 = match fr.hash_version {
                Some(v) => v,
                None => 1,
            };
            match crate::hash::spec_hash(seed, hv, ver) {
                None => false,
                Some(n) => match fr.range {
                    Some(rg) => rg.lo <= (n as int) * (PPB_ONE as int) < rg.hi,
                    None => n < fr.coverage->0,
                },
            }
        }
    } else {
        true
    }
}

/// Tests the force gate, as [`spec_force_gate`] states it.
fn force_gate(fr: &ForceRule, name: &str, ctx: &EvalContext) -> (r: bool)
    requires
        ctx_wf(*ctx),
    ensures
        r == spec_force_gate(*fr, name@, *ctx),
{
    if fr.filters.len() > 0 {
        if crate::feature::experiment::any_filter_excludes_pub(
            &fr.filters,
            ctx.attributes.as_slice(),
        ) {
            return false;
        }
    }
    if fr.range.is_some() || fr.coverage.is_some() {
        let hattr: String = match &fr.hash_attribute {
            Some(a) => a.as_str().to_owned(),
            None => "id".to_owned(),
        };
        let hv = crate::feature::experiment::attr_str(ctx.attributes.as_slice(), hattr.as_str());
        if hv.as_str().unicode_len() == 0 {
            return false;
        }
        let seed: String = match &fr.seed {
            Some(sd) => sd.as_str().to_owned(),
            None => name.to_owned(),
        };
        let ver: u8 = match fr.hash_version {
            Some(v) => v,
            None => 1,
        };
        match crate::hash::gb_hash(seed.as_str(), hv.as_str(), ver) {
            None => false,
            Some(n) => match fr.range {
                Some(rg) => {
                    let p: u64 = n * PPB_ONE;
                    rg.lo <= p && p < rg.hi
                },
                None => {
                    match fr.coverage {
                        Some(c) => n < c,
                        None => false,
                    }
                },
            },
        }
    } else {
        true
    }
}

/// Well-formedness of prerequisites, rules, features and the catalog.
pub open spec fn pcs_wf(s: Seq<ParentCondition>) -> bool {
    forall|i: int| 0 <= i < s.len() ==> attrs_wf((#[trigger] s[i]).condition@)
}

/// A rule carries only normalized decimals and in-range numbers.
pub open spec fn rule_wf(r: FeatureRule) -> bool {
    match r {
        FeatureRule::Force(fr) => {
            &&& match fr.condition {
                Some(c) => attrs_wf(c@),
                None => true,
            }
            &&& val_wf(fr.force)
            &&& pcs_wf(fr.parent_conditions@)
        },
        FeatureRule::Experiment(er) => {
            &&& exp_wf(er.experiment)
            &&& match er.experiment.condition {
                Some(c) => attrs_wf(c@),
                None => true,
            }
            &&& pcs_wf(er.parent_conditions@)
            &&& crate::model_public::vals_wf(er.experiment.variations@)
        },
    }
}

/// A feature carries only well-formed values and rules.
pub open spec fn feature_wf(f: FeatureDefinition) -> bool {
    val_wf(f.default_value) && (forall|i: int| 0 <= i < f.rules@.len() ==> rule_wf(#[trigger] f.rules@[i]))
}

/// The whole catalog is well formed; the count bound only keeps the depth
/// budget within the machine's address space, which a real vector cannot
/// exceed anyway.
pub open spec fn gb_wf(gb: GrowthBook) -> bool {
    (forall|i: int| 0 <= i < gb.features@.len() ==> feature_wf((#[trigger] gb.features@[i]).1))
        && gb.features@.len() + 1 <= usize::MAX
}

/// The first feature under a name.
pub open spec fn spec_feature_lookup(fs: Seq<(String, FeatureDefinition)>, name: Seq<char>) -> Option<
    FeatureDefinition,
>
    decreases fs,
{
    if fs.len() == 0 {
        None
    } else if fs[0].0@ == name {
        Some(fs[0].1)
    } else {
        spec_feature_lookup(fs.drop_first(), name)
    }
}

/// A found feature is well formed when the catalog is.
pub proof fn lemma_feature_lookup_wf(fs: Seq<(String, FeatureDefinition)>, name: Seq<char>)
    requires
        forall|i: int| 0 <= i < fs.len() ==> feature_wf((#[trigger] fs[i]).1),
    ensures
        spec_feature_lookup(fs, name) matches Some(f) ==> feature_wf(f),
    decreases fs.len(),
{
    if fs.len() > 0 && fs[0].0@ != name {
        lemma_feature_lookup_wf(fs.drop_first(), name);
    }
}

/// The views of a name stack.
pub open spec fn stack_view(s: Seq<String>) -> Seq<Seq<char>> {
    s.map_values(|x: String| x@)
}

/// What one feature evaluation decides.
pub ghost struct FeatureOutcome {
    pub value: GrowthBookAttributeValue,
    pub source: FeatureResultSource,
    pub docs: Seq<StickyDocView>,
    pub has_experiment: bool,
    pub exp_index: int,
    pub exp_key: Seq<char>,
}

/// A result that carries no value.
pub open spec fn spec_null_outcome(source: FeatureResultSource, docs: Seq<StickyDocView>) -> FeatureOutcome {
    FeatureOutcome {
        value: GrowthBookAttributeValue::Empty,
        source,
        docs,
        has_experiment: false,
        exp_index: 0,
        exp_key: Seq::empty(),
    }
}

/// What processing the prerequisites of one rule decides: carry on with the
/// rule, skip the rule, block the feature, or surface a cycle. The code is
/// 0 to carry on, 1 to skip, 2 to block, 3 for a cycle.
pub ghost struct ParentsOutcome {
    pub code: int,
    pub docs: Seq<StickyDocView>,
}

/// Evaluates one feature: a name already being evaluated is cyclic; an
/// unknown name has no value; otherwise the rules run in order.
pub open spec fn spec_eval_feature(
    name: Seq<char>,
    gb: GrowthBook,
    ctx: EvalContext,
    docs: Seq<StickyDocView>,
    stack: Seq<Seq<char>>,
    fuel: nat,
) -> FeatureOutcome
    decreases fuel, 2nat, 0nat,
{
    if stack.contains(name) {
        spec_null_outcome(FeatureResultSource::CyclicPrerequisite, docs)
    } else {
        match spec_feature_lookup(gb.features@, name) {
            None => spec_null_outcome(FeatureResultSource::UnknownFeature, docs),
            Some(f) => spec_eval_rules(f, f.rules@, name, gb, ctx, docs, stack.push(name), fuel),
        }
    }
}

/// Runs the remaining rules of a feature in order.
pub open spec fn spec_eval_rules(
    f: FeatureDefinition,
    rules: Seq<FeatureRule>,
    name: Seq<char>,
    gb: GrowthBook,
    ctx: EvalContext,
    docs: Seq<StickyDocView>,
    stack: Seq<Seq<char>>,
    fuel: nat,
) -> FeatureOutcome
    decreases fuel, 1nat, rules.len(),
{
    if rules.len() == 0 {
        FeatureOutcome {
            value: f.default_value,
            source: FeatureResultSource::DefaultValue,
            docs,
            has_experiment: false,
            exp_index: 0,
            exp_key: Seq::empty(),
        }
    } else {
        let pcs = match rules[0] {
            FeatureRule::Force(fr) => fr.parent_conditions@,
            FeatureRule::Experiment(er) => er.parent_conditions@,
        };
        let po = spec_eval_parents(pcs, gb, ctx, docs, stack, fuel);
        if po.code == 3 {
            spec_null_outcome(FeatureResultSource::CyclicPrerequisite, po.docs)
        } else if po.code == 2 {
            spec_null_outcome(FeatureResultSource::Prerequisite, po.docs)
        } else if po.code == 1 {
            spec_eval_rules(f, rules.drop_first(), name, gb, ctx, po.docs, stack, fuel)
        } else {
            match rules[0] {
                FeatureRule::Force(fr) => {
                    let cond_ok = match fr.condition {
                        Some(c) => spec_conditions_on(c@, ctx.attributes@),
                        None => true,
                    };
                    if !cond_ok || !spec_force_gate(fr, name, ctx) {
                        spec_eval_rules(f, rules.drop_first(), name, gb, ctx, po.docs, stack, fuel)
                    } else {
                        FeatureOutcome {
                            value: fr.force,
                            source: FeatureResultSource::Force,
                            docs: po.docs,
                            has_experiment: false,
                            exp_index: 0,
                            exp_key: Seq::empty(),
                        }
                    }
                },
                FeatureRule::Experiment(er) => {
                    let cond_ok = match er.experiment.condition {
                        Some(c) => spec_conditions_on(c@, ctx.attributes@),
                        None => true,
                    };
                    if !cond_ok {
                        spec_eval_rules(f, rules.drop_first(), name, gb, ctx, po.docs, stack, fuel)
                    } else {
                        let o = spec_run(er.experiment, ctx, po.docs);
                        let docs2 = if o.saved {
                            spec_save_assignment(
                                po.docs,
                                spec_hash_attr(er.experiment, ctx).0,
                                spec_hash_attr(er.experiment, ctx).1,
                                spec_assignment_key(
                                    er.experiment.key@,
                                    spec_bucket_ver(er.experiment),
                                ),
                                spec_variation_key(er.experiment, o.index),
                            )
                        } else {
                            po.docs
                        };
                        if spec_applied(er.experiment, o) {
                            FeatureOutcome {
                                value: spec_chosen_value(er.experiment, o.index),
                                source: FeatureResultSource::Experiment,
                                docs: docs2,
                                has_experiment: true,
                                exp_index: o.index,
                                exp_key: spec_variation_key(er.experiment, o.index),
                            }
                        } else {
                            spec_eval_rules(
                                f,
                                rules.drop_first(),
                                name,
                                gb,
                                ctx,
                                docs2,
                                stack,
                                fuel,
                            )
                        }
                    }
                },
            }
        }
    }
}

/// Processes the prerequisites of one rule, in order.
pub open spec fn spec_eval_parents(
    pcs: Seq<ParentCondition>,
    gb: GrowthBook,
    ctx: EvalContext,
    docs: Seq<StickyDocView>,
    stack: Seq<Seq<char>>,
    fuel: nat,
) -> ParentsOutcome
    decreases fuel, 0nat, pcs.len(),
{
    if pcs.len() == 0 {
        ParentsOutcome { code: 0, docs }
    } else if fuel == 0 {
        ParentsOutcome { code: 3, docs }
    } else {
        let po = spec_eval_feature(pcs[0].id@, gb, ctx, docs, stack, (fuel - 1) as nat);
        if po.source == FeatureResultSource::CyclicPrerequisite {
            ParentsOutcome { code: 3, docs: po.docs }
        } else if spec_parent_ok(pcs[0].condition@, po.value) {
            spec_eval_parents(pcs.drop_first(), gb, ctx, po.docs, stack, fuel)
        } else if pcs[0].gate {
            ParentsOutcome { code: 2, docs: po.docs }
        } else {
            ParentsOutcome { code: 1, docs: po.docs }
        }
    }
}

/// Evaluation of a whole catalog entry from the outside: an empty stack and
/// fuel one larger than the catalog, which a chain of distinct known
/// features never exhausts.
pub open spec fn spec_eval(
    name: Seq<char>,
    gb: GrowthBook,
    ctx: EvalContext,
    docs: Seq<StickyDocView>,
) -> FeatureOutcome {
    spec_eval_feature(name, gb, ctx, docs, Seq::empty(), (gb.features@.len() + 1) as nat)
}

/// A feature already being evaluated reports a cyclic prerequisite, with
/// the documents untouched; together with the verifier's termination check
/// on every function here, this is why evaluation on any catalog ends.
pub proof fn lemma_cycle_reports_cyclic(
    name: Seq<char>,
    gb: GrowthBook,
    ctx: EvalContext,
    docs: Seq<StickyDocView>,
    stack: Seq<Seq<char>>,
    fuel: nat,
)
    requires
        stack.contains(name),
    ensures
        spec_eval_feature(name, gb, ctx, docs, stack, fuel).source
            == FeatureResultSource::CyclicPrerequisite,
        spec_eval_feature(name, gb, ctx, docs, stack, fuel).docs == docs,
{
}

/// What a rule's prerequisites decided, for the caller.
#[derive(Clone, Copy, Debug, PartialEq, Eq, Structural)]
pub enum ParentsCode {
    Proceed,
    SkipRule,
    Block,
    Cycle,
}

/// A result that carries no value.
fn null_result(source: FeatureResultSource) -> (r: FeatureResult)
    ensures
        r.value is Empty,
        r.source == source,
        r.on == false,
        r.off == true,
        r.experiment_result is None,
{
    FeatureResult {
        value: GrowthBookAttributeValue::Empty,
        on: false,
        off: true,
        source,
        experiment_result: None,
    }
}

/// Looks a feature up, as [`spec_feature_lookup`] states it.
fn feature_lookup<'a>(gb: &'a GrowthBook, name: &str) -> (r: Option<&'a FeatureDefinition>)
    ensures
        match r {
            Some(f) => spec_feature_lookup(gb.features@, name@) == Some(*f),
            None => spec_feature_lookup(gb.features@, name@) is None,
        },
{
    let mut i: usize = 0;
    proof {
        assert(gb.features@.skip(0) =~= gb.features@);
    }
    while i < gb.features.len()
        invariant
            i <= gb.features@.len(),
            spec_feature_lookup(gb.features@, name@) == spec_feature_lookup(
                gb.features@.skip(i as int),
                name@,
            ),
        decreases gb.features@.len() - i,
    {
        proof {
            assert(gb.features@.skip(i as int)[0] == gb.features@[i as int]);
            assert(gb.features@.skip(i as int).drop_first() =~= gb.features@.skip(i + 1));
        }
        if crate::model_public::str_eq(gb.features[i].0.as_str(), name) {
            return Some(&gb.features[i].1);
        }
        i = i + 1;
    }
    proof {
        assert(gb.features@.skip(gb.features@.len() as int).len() == 0);
    }
    None
}

/// Whether the name is already being evaluated.
fn stack_contains(stack: &Vec<String>, name: &str) -> (r: bool)
    ensures
        r == stack_view(stack@).contains(name@),
{
    let ghost sv = stack_view(stack@);
    let mut i: usize = 0;
    while i < stack.len()
        invariant
            i <= stack@.len(),
            sv == stack_view(stack@),
            sv.len() == stack@.len(),
            forall|j: int| 0 <= j < i ==> sv[j] != name@,
        decreases stack@.len() - i,
    {
        proof {
            assert(sv[i as int] == stack@[i as int]@);
        }
        if crate::model_public::str_eq(stack[i].as_str(), name) {
            return true;
        }
        i = i + 1;
    }
    proof {
        assert(forall|j: int| 0 <= j < sv.len() ==> sv[j] != name@);
    }
    false
}

/// Processes the prerequisites of one rule, as [`spec_eval_parents`] states
/// it.
#[verifier::loop_isolation(false)]
fn eval_parents(
    pcs: &Vec<ParentCondition>,
    gb: &GrowthBook,
    ctx: &EvalContext,
    docs: Vec<StickyAssignmentDoc>,
    stack: &Vec<String>,
    fuel: usize,
) -> (r: (ParentsCode, Vec<StickyAssignmentDoc>))
    requires
        pcs_wf(pcs@),
        gb_wf(*gb),
        ctx_wf(*ctx),
    ensures
        ({
            let o = spec_eval_parents(
                pcs@,
                *gb,
                *ctx,
                docs_view(docs@),
                stack_view(stack@),
                fuel as nat,
            );
            &&& (r.0 == ParentsCode::Proceed) == (o.code == 0)
            &&& (r.0 == ParentsCode::SkipRule) == (o.code == 1)
            &&& (r.0 == ParentsCode::Block) == (o.code == 2)
            &&& (r.0 == ParentsCode::Cycle) == (o.code == 3)
            &&& docs_view(r.1@) =~~= o.docs
        }),
    decreases fuel, 0int,
{
    let ghost dv0 = docs_view(docs@);
    let ghost sv = stack_view(stack@);
    let mut docs = docs;
    let mut i: usize = 0;
    proof {
        assert(pcs@.skip(0) =~= pcs@);
    }
    while i < pcs.len()
        invariant
            i <= pcs@.len(),
            spec_eval_parents(pcs@, *gb, *ctx, dv0, sv, fuel as nat) == spec_eval_parents(
                pcs@.skip(i as int),
                *gb,
                *ctx,
                docs_view(docs@),
                sv,
                fuel as nat,
            ),
        decreases pcs@.len() - i,
    {
        proof {
            assert(pcs@.skip(i as int)[0] == pcs@[i as int]);
            assert(pcs@.skip(i as int).drop_first() =~= pcs@.skip(i + 1));
        }
        if fuel == 0 {
            return (ParentsCode::Cycle, docs);
        }
        let ghost dv_here = docs_view(docs@);
        let (pres, docs2) = eval_feature_inner(
            pcs[i].id.as_str(),
            gb,
            ctx,
            docs,
            stack,
            fuel - 1,
        );
        docs = docs2;
        let ghost po = spec_eval_feature(
            pcs@[i as int].id@,
            *gb,
            *ctx,
            dv_here,
            sv,
            (fuel - 1) as nat,
        );
        if matches!(pres.source, FeatureResultSource::CyclicPrerequisite) {
            return (ParentsCode::Cycle, docs);
        }
        let ok = parent_condition_holds(&pcs[i].condition, &pres.value);
        proof {
            lemma_parent_ok_respects(pcs@[i as int].condition@, pres.value, po.value);
        }
        if ok {
            i = i + 1;
        } else if pcs[i].gate {
            return (ParentsCode::Block, docs);
        } else {
            return (ParentsCode::SkipRule, docs);
        }
    }
    proof {
        assert(pcs@.skip(pcs@.len() as int).len() == 0);
    }
    (ParentsCode::Proceed, docs)
}

/// Runs the rules of a feature from index `ri` on, as [`spec_eval_rules`]
/// states it for the remaining rules.
#[verifier::loop_isolation(false)]
fn eval_rules_from(
    f: &FeatureDefinition,
    ri: usize,
    name: &str,
    gb: &GrowthBook,
    ctx: &EvalContext,
    docs: Vec<StickyAssignmentDoc>,
    stack: &Vec<String>,
    fuel: usize,
) -> (r: (FeatureResult, Vec<StickyAssignmentDoc>))
    requires
        feature_wf(*f),
        gb_wf(*gb),
        ctx_wf(*ctx),
        ri <= f.rules@.len(),
    ensures
        ({
            let o = spec_eval_rules(
                *f,
                f.rules@.skip(ri as int),
                name@,
                *gb,
                *ctx,
                docs_view(docs@),
                stack_view(stack@),
                fuel as nat,
            );
            &&& spec_value_eq(r.0.value, o.value)
            &&& val_wf(r.0.value)
            &&& r.0.source == o.source
            &&& r.0.on == spec_truthy(o.value)
            &&& r.0.off == !spec_truthy(o.value)
            &&& docs_view(r.1@) =~~= o.docs
            &&& (r.0.experiment_result is Some) == o.has_experiment
            &&& o.has_experiment ==> r.0.experiment_result->0.key@ == o.exp_key
                && r.0.experiment_result->0.variation_id == o.exp_index
        }),
    decreases fuel, 1int, f.rules@.len() - ri,
{
    let ghost rules_left = f.rules@.skip(ri as int);
    if ri >= f.rules.len() {
        proof {
            assert(rules_left.len() == 0);
        }
        let value = f.default_value.deep_clone();
        let on = truthy(&value);
        proof {
            lemma_truthy_respects(value, f.default_value);
        }
        let result = FeatureResult {
            value,
            on,
            off: !on,
            source: FeatureResultSource::DefaultValue,
            experiment_result: None,
        };
        return (result, docs);
    }
    proof {
        assert(rules_left[0] == f.rules@[ri as int]);
        assert(rules_left.drop_first() =~= f.rules@.skip(ri + 1));
        assert(rule_wf(f.rules@[ri as int]));
    }
    match &f.rules[ri] {
        FeatureRule::Force(fr) => {
            let (code, docs2) = eval_parents(&fr.parent_conditions, gb, ctx, docs, stack, fuel);
            match code {
                ParentsCode::Cycle => {
                    return (null_result(FeatureResultSource::CyclicPrerequisite), docs2);
                },
                ParentsCode::Block => {
                    return (null_result(FeatureResultSource::Prerequisite), docs2);
                },
                ParentsCode::SkipRule => {
                    return eval_rules_from(f, ri + 1, name, gb, ctx, docs2, stack, fuel);
                },
                ParentsCode::Proceed => {},
            }
            let cond_ok = match &fr.condition {
                Some(c) => c.is_on(ctx.attributes.as_slice()),
                None => true,
            };
            if cond_ok && force_gate(fr, name, ctx) {
                let value = fr.force.deep_clone();
                let on = truthy(&value);
                proof {
                    lemma_truthy_respects(value, fr.force);
                }
                let result = FeatureResult {
                    value,
                    on,
                    off: !on,
                    source: FeatureResultSource::Force,
                    experiment_result: None,
                };
                return (result, docs2);
            }
            eval_rules_from(f, ri + 1, name, gb, ctx, docs2, stack, fuel)
        },
        FeatureRule::Experiment(er) => {
            let (code, docs2) = eval_parents(&er.parent_conditions, gb, ctx, docs, stack, fuel);
            match code {
                ParentsCode::Cycle => {
                    return (null_result(FeatureResultSource::CyclicPrerequisite), docs2);
                },
                ParentsCode::Block => {
                    return (null_result(FeatureResultSource::Prerequisite), docs2);
                },
                ParentsCode::SkipRule => {
                    return eval_rules_from(f, ri + 1, name, gb, ctx, docs2, stack, fuel);
                },
                ParentsCode::Proceed => {},
            }
            let cond_ok = match &er.experiment.condition {
                Some(c) => c.is_on(ctx.attributes.as_slice()),
                None => true,
            };
            if !cond_ok {
                return eval_rules_from(f, ri + 1, name, gb, ctx, docs2, stack, fuel);
            }
            let ghost dv_run = docs_view(docs2@);
            let (res, docs3, applied) = crate::feature::experiment::run_experiment(
                &er.experiment,
                ctx,
                docs2,
            );
            let ghost o_run = spec_run(er.experiment, *ctx, dv_run);
            if applied {
                let value = res.value.deep_clone();
                let on = truthy(&value);
                proof {
                    crate::model_public::lemma_value_eq_trans(
                        value,
                        res.value,
                        spec_chosen_value(er.experiment, o_run.index),
                    );
                    lemma_truthy_respects(value, spec_chosen_value(er.experiment, o_run.index));
                    assert(val_wf(spec_chosen_value(er.experiment, o_run.index))) by {
                        crate::model_public::lemma_vals_wf_pointwise(er.experiment.variations@);
                    }
                    crate::model_public::lemma_value_eq_wf(
                        value,
                        spec_chosen_value(er.experiment, o_run.index),
                    );
                }
                let result = FeatureResult {
                    value,
                    on,
                    off: !on,
                    source: FeatureResultSource::Experiment,
                    experiment_result: Some(res),
                };
                return (result, docs3);
            }
            eval_rules_from(f, ri + 1, name, gb, ctx, docs3, stack, fuel)
        },
    }
}

/// Evaluates one feature with an explicit stack and depth budget, as
/// [`spec_eval_feature`] states it.
#[verifier::loop_isolation(false)]
fn eval_feature_inner(
    name: &str,
    gb: &GrowthBook,
    ctx: &EvalContext,
    docs: Vec<StickyAssignmentDoc>,
    stack: &Vec<String>,
    fuel: usize,
) -> (r: (FeatureResult, Vec<StickyAssignmentDoc>))
    requires
        gb_wf(*gb),
        ctx_wf(*ctx),
    ensures
        ({
            let o = spec_eval_feature(
                name@,
                *gb,
                *ctx,
                docs_view(docs@),
                stack_view(stack@),
                fuel as nat,
            );
            &&& spec_value_eq(r.0.value, o.value)
            &&& val_wf(r.0.value)
            &&& r.0.source == o.source
            &&& r.0.on == spec_truthy(o.value)
            &&& r.0.off == !spec_truthy(o.value)
            &&& docs_view(r.1@) =~~= o.docs
            &&& (r.0.experiment_result is Some) == o.has_experiment
            &&& o.has_experiment ==> r.0.experiment_result->0.key@ == o.exp_key
                && r.0.experiment_result->0.variation_id == o.exp_index
        }),
    decreases fuel, 2int, 0int,
{
    if stack_contains(stack, name) {
        return (null_result(FeatureResultSource::CyclicPrerequisite), docs);
    }
    let f = match feature_lookup(gb, name) {
        None => {
            return (null_result(FeatureResultSource::UnknownFeature), docs);
        },
        Some(f) => f,
    };
    proof {
        lemma_feature_lookup_wf(gb.features@, name@);
    }
    let mut stack2: Vec<String> = Vec::new();
    let mut si: usize = 0;
    while si < stack.len()
        invariant
            si <= stack@.len(),
            stack2@.len() == si,
            forall|j: int| 0 <= j < si ==> (#[trigger] stack2@[j])@ == stack@[j]@,
        decreases stack@.len() - si,
    {
        stack2.push(stack[si].as_str().to_owned());
        si = si + 1;
    }
    stack2.push(name.to_owned());
    proof {
        assert(stack_view(stack2@) =~= stack_view(stack@).push(name@));
        assert(f.rules@.skip(0) =~= f.rules@);
    }
    eval_rules_from(f, 0, name, gb, ctx, docs, &stack2, fuel)
}

/// Evaluates one feature against the catalog, context and sticky
/// documents, as [`spec_eval`] states it: the result and the returned
/// documents are functions of exactly those inputs, so repeated calls on
/// the same inputs decide the same way. Evaluation always terminates and
/// never fails: the result's source says what happened.
pub fn eval_feature(
    name: &str,
    gb: &GrowthBook,
    ctx: &EvalContext,
    docs: Vec<StickyAssignmentDoc>,
) -> (r: (FeatureResult, Vec<StickyAssignmentDoc>))
    requires
        gb_wf(*gb),
        ctx_wf(*ctx),
    ensures
        ({
            let o = spec_eval(name@, *gb, *ctx, docs_view(docs@));
            &&& spec_value_eq(r.0.value, o.value)
            &&& val_wf(r.0.value)
            &&& r.0.source == o.source
            &&& r.0.on == spec_truthy(o.value)
            &&& r.0.off == !spec_truthy(o.value)
            &&& docs_view(r.1@) =~~= o.docs
            &&& (r.0.experiment_result is Some) == o.has_experiment
            &&& o.has_experiment ==> r.0.experiment_result->0.key@ == o.exp_key
                && r.0.experiment_result->0.variation_id == o.exp_index
        }),
{
    let stack: Vec<String> = Vec::new();
    proof {
        assert(stack_view(stack@) =~= Seq::<Seq<char>>::empty());
    }
    let fuel = gb.features.len() + 1;
    eval_feature_inner(name, gb, ctx, docs, &stack, fuel)
}

} // verus!
