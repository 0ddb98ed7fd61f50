//! The experiment runner: one experiment definition against an evaluation
//! context.
//!
//! The runner honors, in order: too few variations, a disabled context, a
//! `?key=n` URL override, context-forced variations, an experiment-level
//! forced variation, QA mode, hash-attribute resolution with an optional
//! fallback, sticky-bucket resumption and version blocks, filters or a
//! namespace, and finally deterministic bucketing.

use vstd::prelude::*;

use crate::bucket::{BucketRange, Namespace};
use crate::extensions::spec_find_value;
use crate::feature::sticky::{
    docs_view, spec_assignment_key, spec_stored_assignment, StickyAssignmentDoc, StickyDocView,
};
use crate::hash::PPB_ONE;
use crate::model_public::{
    attrs_wf, stringify, spec_value_eq, GrowthBookAttribute, GrowthBookAttributeValue,
};
use crate::numstr::u64_dec_chars;

verus! {

use vstd::string::StrSliceExecFns;
use vstd::string::StringExecFns;

/// A hash-based secondary gate: the user is excluded when the attribute is
/// missing or the bucket falls in none of the ranges.
#[derive(Debug)]
pub struct Filter {
    pub seed: String,
    pub ranges: Vec<BucketRange>,
    pub attribute: Option<String>,
    pub hash_version: Option<u8>,
}

/// Presentation data for one variation.
#[derive(Debug)]
pub struct VariationMeta {
    pub key: Option<String>,
    pub name: Option<String>,
    pub passthrough: bool,
}

/// An experiment definition.
#[derive(Debug)]
pub struct Experiment {
    pub key: String,
    pub variations: Vec<GrowthBookAttributeValue>,
    pub weights: Option<Vec<u64>>,
    pub coverage: Option<u64>,
    pub ranges: Option<Vec<BucketRange>>,
    pub namespace: Option<Namespace>,
    pub condition: Option<Vec<GrowthBookAttribute>>,
    pub filters: Vec<Filter>,
    pub hash_attribute: Option<String>,
    pub fallback_attribute: Option<String>,
    pub hash_version: Option<u8>,
    pub seed: Option<String>,
    pub meta: Vec<VariationMeta>,
    pub name: Option<String>,
    pub bucket_version: Option<u64>,
    pub min_bucket_version: Option<u64>,
    pub disable_sticky_bucketing: bool,
    pub force: Option<i64>,
}

/// What the runner was handed besides the experiment: the user, the global
/// switches, the URL, forced variations, and whether a sticky store is in
/// use.
#[derive(Debug)]
pub struct EvalContext {
    pub attributes: Vec<GrowthBookAttribute>,
    pub enabled: bool,
    pub qa_mode: bool,
    pub url: Option<String>,
    pub forced_variations: Vec<(String, i64)>,
    pub sticky_enabled: bool,
}

/// The record an experiment run produces.
#[derive(Debug)]
pub struct ExperimentResult {
    pub value: GrowthBookAttributeValue,
    pub variation_id: i64,
    pub key: String,
    pub in_experiment: bool,
    pub hash_used: bool,
    pub hash_attribute: String,
    pub hash_value: String,
    pub bucket: Option<u64>,
    pub sticky_bucket_used: bool,
}

/// The context carries only normalized decimals.
pub open spec fn ctx_wf(ctx: EvalContext) -> bool {
    attrs_wf(ctx.attributes@)
}

/// The experiment's numbers are in range: coverage is a fraction of the
/// unit, and variation indexes fit the signed 64-bit numbers results
/// report them as. A vector a real machine can build never exceeds the
/// index bound.
pub open spec fn exp_wf(exp: Experiment) -> bool {
    &&& match exp.coverage {
        Some(c) => c <= PPB_ONE,
        None => true,
    }
    &&& exp.variations@.len() <= 0x7fffffffffffffff
    &&& match exp.ranges {
        Some(rs) => rs@.len() <= 0x7fffffffffffffff,
        None => true,
    }
}

/// The stringified attribute under `name`; empty when missing.
pub open spec fn spec_attr_str(attrs: Seq<GrowthBookAttribute>, name: Seq<char>) -> Seq<char> {
    match spec_find_value(attrs, name) {
        Some(v) => stringify(v),
        None => Seq::empty(),
    }
}

/// The stringified attribute, as [`spec_attr_str`] states it.
pub fn attr_str(attrs: &[GrowthBookAttribute], name: &str) -> (r: String)
    requires
        attrs_wf(attrs@),
    ensures
        r@ == spec_attr_str(attrs@, name@),
{
    proof {
        crate::extensions::lemma_find_value_wf(attrs@, name@);
    }
    match crate::extensions::find_value(attrs, name) {
        Some(v) => v.to_string(),
        None => String::new(),
    }
}

/// The resolved hashing pair: the hash attribute and its stringified
/// value, falling back when sticky bucketing allows it; an empty value
/// means no usable attribute.
pub open spec fn spec_hash_attr(exp: Experiment, ctx: EvalContext) -> (Seq<char>, Seq<char>) {
    let hattr = match exp.hash_attribute {
        Some(a) => a@,
        None => "id"@,
    };
    let hv = spec_attr_str(ctx.attributes@, hattr);
    if hv.len() > 0 {
        (hattr, hv)
    } else if ctx.sticky_enabled && !exp.disable_sticky_bucketing {
        match exp.fallback_attribute {
            Some(fa) => {
                let fv = spec_attr_str(ctx.attributes@, fa@);
                if fv.len() > 0 {
                    (fa@, fv)
                } else {
                    (hattr, hv)
                }
            },
            None => (hattr, hv),
        }
    } else {
        (hattr, hv)
    }
}

/// Resolves the hashing pair, as [`spec_hash_attr`] states it.
fn resolve_hash_attr(exp: &Experiment, ctx: &EvalContext) -> (r: (String, String))
    requires
        ctx_wf(*ctx),
    ensures
        r.0@ == spec_hash_attr(*exp, *ctx).0,
        r.1@ == spec_hash_attr(*exp, *ctx).1,
{
    let hattr: String = match &exp.hash_attribute {
        Some(a) => a.as_str().to_owned(),
        None => "id".to_owned(),
    };
    let hv = attr_str(ctx.attributes.as_slice(), hattr.as_str());
    if hv.as_str().unicode_len() > 0 {
        (hattr, hv)
    } else if ctx.sticky_enabled && !exp.disable_sticky_bucketing {
        match &exp.fallback_attribute {
            Some(fa) => {
                let fv = attr_str(ctx.attributes.as_slice(), fa.as_str());
                if fv.as_str().unicode_len() > 0 {
                    (fa.as_str().to_owned(), fv)
                } else {
                    (hattr, hv)
                }
            },
            None => (hattr, hv),
        }
    } else {
        (hattr, hv)
    }
}

/// The key of variation `i`: its meta key when one is given, else its index
/// in decimal.
pub open spec fn spec_variation_key(exp: Experiment, i: int) -> Seq<char> {
    if 0 <= i < exp.meta@.len() && exp.meta@[i].key is Some {
        exp.meta@[i].key->0@
    } else if i >= 0 {
        u64_dec_chars(i as nat)
    } else {
        u64_dec_chars(0)
    }
}

/// Builds a variation key, as [`spec_variation_key`] states it.
fn variation_key(exp: &Experiment, i: usize) -> (r: String)
    ensures
        r@ == spec_variation_key(*exp, i as int),
{
    if i < exp.meta.len() {
        match &exp.meta[i].key {
            Some(k) => {
                return k.as_str().to_owned();
            },
            None => {},
        }
    }
    crate::numstr::u64_to_dec_string(i as u64)
}

/// Whether variation `i` is a passthrough.
pub open spec fn spec_passthrough(exp: Experiment, i: int) -> bool {
    0 <= i < exp.meta@.len() && exp.meta@[i].passthrough
}

/// The value the result carries for a variation index.
pub open spec fn spec_chosen_value(exp: Experiment, i: int) -> GrowthBookAttributeValue {
    if 0 <= i < exp.variations@.len() {
        exp.variations@[i]
    } else {
        GrowthBookAttributeValue::Empty
    }
}

/// The first forced variation for a key.
pub open spec fn spec_forced_lookup(fv: Seq<(String, i64)>, key: Seq<char>) -> Option<i64>
    decreases fv,
{
    if fv.len() == 0 {
        None
    } else if fv[0].0@ == key {
        Some(fv[0].1)
    } else {
        spec_forced_lookup(fv.drop_first(), key)
    }
}

/// Looks a forced variation up, as [`spec_forced_lookup`] states it.
fn forced_lookup(fv: &Vec<(String, i64)>, key: &str) -> (r: Option<i64>)
    ensures
        r == spec_forced_lookup(fv@, key@),
{
    let mut i: usize = 0;
    proof {
        assert(fv@.skip(0) =~= fv@);
    }
    while i < fv.len()
        invariant
            i <= fv@.len(),
            spec_forced_lookup(fv@, key@) == spec_forced_lookup(fv@.skip(i as int), key@),
        decreases fv@.len() - i,
    {
        proof {
            assert(fv@.skip(i as int)[0] == fv@[i as int]);
            assert(fv@.skip(i as int).drop_first() =~= fv@.skip(i + 1));
        }
        if crate::model_public::str_eq(fv[i].0.as_str(), key) {
            return Some(fv[i].1);
        }
        i = i + 1;
    }
    proof {
        assert(fv@.skip(fv@.len() as int).len() == 0);
    }
    None
}

/// Whether the bucket (in parts per billion) falls in any listed range.
pub open spec fn spec_in_any_range(n: u64, rs: Seq<BucketRange>) -> bool
    decreases rs,
{
    if rs.len() == 0 {
        false
    } else if rs[0].lo <= (n as int) * (PPB_ONE as int) < rs[0].hi {
        true
    } else {
        spec_in_any_range(n, rs.drop_first())
    }
}

/// Tests range membership, as [`spec_in_any_range`] states it.
fn in_any_range(n: u64, rs: &Vec<BucketRange>) -> (r: bool)
    requires
        n <= PPB_ONE,
    ensures
        r == spec_in_any_range(n, rs@),
{
    let p: u64 = n * PPB_ONE;
    let mut i: usize = 0;
    proof {
        assert(rs@.skip(0) =~= rs@);
    }
    while i < rs.len()
        invariant
            i <= rs@.len(),
            p == (n as int) * (PPB_ONE as int),
            spec_in_any_range(n, rs@) == spec_in_any_range(n, rs@.skip(i as int)),
        decreases rs@.len() - i,
    {
        proof {
            assert(rs@.skip(i as int)[0] == rs@[i as int]);
            assert(rs@.skip(i as int).drop_first() =~= rs@.skip(i + 1));
        }
        if rs[i].lo <= p && p < rs[i].hi {
            return true;
        }
        i = i + 1;
    }
    proof {
        assert(rs@.skip(rs@.len() as int).len() == 0);
    }
    false
}

/// Whether one filter excludes the user: the attribute is missing, the
/// hash version is unknown, or the bucket is in none of the ranges.
pub open spec fn spec_filter_excludes(f: Filter, attrs: Seq<GrowthBookAttribute>) -> bool {
    let an = match f.attribute {
        Some(a) => a@,
        None => "id"@,
    };
    let av = spec_attr_str(attrs, an);
    if av.len() == 0 {
        true
    } else {
        let version: u8 = match f.hash_version {
            Some(v) => v,
            None => 2,
        };
        match crate::hash::spec_hash(f.seed@, av, version) {
            Some(n) => !spec_in_any_range(n, f.ranges@),
            None => true,
        }
    }
}

/// Whether any filter excludes the user.
pub open spec fn spec_any_filter_excludes(fs: Seq<Filter>, attrs: Seq<GrowthBookAttribute>) -> bool
    decreases fs,
{
    if fs.len() == 0 {
        false
    } else {
        spec_filter_excludes(fs[0], attrs) || spec_any_filter_excludes(fs.drop_first(), attrs)
    }
}

/// Tests one filter, as [`spec_filter_excludes`] states it.
fn filter_excludes(f: &Filter, attrs: &[GrowthBookAttribute]) -> (r: bool)
    requires
        attrs_wf(attrs@),
    ensures
        r == spec_filter_excludes(*f, attrs@),
{
    let an: String = match &f.attribute {
        Some(a) => a.as_str().to_owned(),
        None => "id".to_owned(),
    };
    let av = attr_str(attrs, an.as_str());
    if av.as_str().unicode_len() == 0 {
        return true;
    }
    let version: u8 = match f.hash_version {
        Some(v) => v,
        None => 2,
    };
    match crate::hash::gb_hash(f.seed.as_str(), av.as_str(), version) {
        Some(n) => !in_any_range(n, &f.ranges),
        None => true,
    }
}

/// Index of the first occurrence of `c`, or the length.
pub open spec fn char_idx(s: Seq<char>, c: char) -> nat
    decreases s,
{
    if s.len() == 0 {
        0
    } else if s[0] == c {
        0
    } else {
        1 + char_idx(s.drop_first(), c)
    }
}

proof fn lemma_char_idx_scan(s: Seq<char>, c: char, i: int)
    requires
        0 <= i <= s.len(),
        forall|j: int| 0 <= j < i ==> s[j] != c,
        i == s.len() || s[i] == c,
    ensures
        char_idx(s, c) == i,
    decreases s.len(),
{
    if s.len() > 0 && i > 0 {
        assert(s[0] != c);
        assert(forall|j: int| 0 <= j < i - 1 ==> s.drop_first()[j] == s[j + 1]);
        if i - 1 < s.drop_first().len() {
            assert(s.drop_first()[i - 1] == s[i]);
        }
        lemma_char_idx_scan(s.drop_first(), c, i - 1);
    }
}

/// Finds the first occurrence of `c`, as [`char_idx`] states it.
fn find_char(v: &Vec<char>, c: char) -> (r: usize)
    ensures
        r == char_idx(v@, c),
        r <= v@.len(),
{
    let mut i: usize = 0;
    while i < v.len()
        invariant
            i <= v@.len(),
            forall|j: int| 0 <= j < i ==> v@[j] != c,
        decreases v@.len() - i,
    {
        if v[i] == c {
            proof {
                lemma_char_idx_scan(v@, c, i as int);
            }
            return i;
        }
        i = i + 1;
    }
    proof {
        lemma_char_idx_scan(v@, c, v@.len() as int);
    }
    i
}

/// The index of the first non-digit character, or the length.
pub open spec fn digit_prefix_idx(s: Seq<char>) -> nat
    decreases s,
{
    if s.len() == 0 {
        0
    } else if !crate::version::is_digit(s[0]) {
        0
    } else {
        1 + digit_prefix_idx(s.drop_first())
    }
}

proof fn lemma_digit_prefix_scan(s: Seq<char>, i: int)
    requires
        0 <= i <= s.len(),
        forall|j: int| 0 <= j < i ==> crate::version::is_digit(#[trigger] s[j]),
        i == s.len() || !crate::version::is_digit(s[i]),
    ensures
        digit_prefix_idx(s) == i,
    decreases s.len(),
{
    if s.len() > 0 && i > 0 {
        assert(crate::version::is_digit(s[0]));
        assert(forall|j: int| 0 <= j < i - 1 ==> s.drop_first()[j] == s[j + 1]);
        if i - 1 < s.drop_first().len() {
            assert(s.drop_first()[i - 1] == s[i]);
        }
        lemma_digit_prefix_scan(s.drop_first(), i - 1);
    }
}

/// The number named by a string's leading digits, if it has any.
pub open spec fn spec_parse_uint_prefix(s: Seq<char>) -> Option<int> {
    let d = digit_prefix_idx(s) as int;
    if d == 0 {
        None
    } else {
        Some(crate::feature::condition::digits_num(s.take(d)))
    }
}

/// Parses a leading run of digits, as [`spec_parse_uint_prefix`] states it;
/// values above the signed 64-bit range fail.
fn parse_uint_prefix(v: &Vec<char>) -> (r: Option<i64>)
    ensures
        r matches Some(n) ==> spec_parse_uint_prefix(v@) == Some(n as int) && n >= 0,
        r is None ==> (spec_parse_uint_prefix(v@) is None || spec_parse_uint_prefix(v@)->0
            > 9223372036854775807),
{
    let mut d: usize = 0;
    let mut stop = false;
    while d < v.len() && !stop
        invariant
            d <= v@.len(),
            forall|j: int| 0 <= j < d ==> crate::version::is_digit(#[trigger] v@[j]),
            stop ==> d < v@.len() && !crate::version::is_digit(v@[d as int]),
        decreases v@.len() - d, if stop {
            0int
        } else {
            1int
        },
    {
        let u = v[d] as u32;
        if u < 48 || u > 57 {
            stop = true;
        } else {
            d = d + 1;
        }
    }
    proof {
        lemma_digit_prefix_scan(v@, d as int);
    }
    if d == 0 {
        return None;
    }
    let prefix = crate::version::vec_take(v, d);
    proof {
        assert(forall|j: int| 0 <= j < prefix@.len() ==> prefix@[j] == v@[j]);
    }
    match crate::feature::condition::parse_digits(&prefix) {
        Some(n) => {
            if n <= 9223372036854775807u64 {
                Some(n as i64)
            } else {
                None
            }
        },
        None => {
            proof {
                assert(crate::feature::condition::all_digits(prefix@));
            }
            None
        },
    }
}

/// The value of the first `key=value` pair in a query string.
pub open spec fn spec_qs_find(s: Seq<char>, key: Seq<char>) -> Option<Seq<char>>
    decreases s.len(),
{
    let a = char_idx(s, '&') as int;
    let pair = if a >= s.len() {
        s
    } else {
        s.take(a)
    };
    let e = char_idx(pair, '=') as int;
    let k = if e >= pair.len() {
        pair
    } else {
        pair.take(e)
    };
    let v = if e >= pair.len() {
        Seq::<char>::empty()
    } else {
        pair.skip(e + 1)
    };
    if k == key {
        Some(v)
    } else if a >= s.len() {
        None
    } else {
        spec_qs_find(s.skip(a + 1), key)
    }
}

/// Finds a query pair, as [`spec_qs_find`] states it.
fn qs_find(s: &Vec<char>, key: &str) -> (r: Option<Vec<char>>)
    ensures
        match r {
            Some(v) => spec_qs_find(s@, key@) == Some(v@),
            None => spec_qs_find(s@, key@) is None,
        },
    decreases s@.len(),
{
    let a = find_char(s, '&');
    let pair = if a >= s.len() {
        crate::version::vec_take(s, s.len())
    } else {
        crate::version::vec_take(s, a)
    };
    proof {
        assert(s@.take(s@.len() as int) =~= s@);
    }
    let e = find_char(&pair, '=');
    let k = if e >= pair.len() {
        crate::version::vec_take(&pair, pair.len())
    } else {
        crate::version::vec_take(&pair, e)
    };
    proof {
        assert(pair@.take(pair@.len() as int) =~= pair@);
    }
    let kv = crate::numstr::chars_to_string(&k);
    if crate::model_public::str_eq(kv.as_str(), key) {
        let v = if e >= pair.len() {
            let empty: Vec<char> = Vec::new();
            proof {
                assert(empty@ =~= Seq::<char>::empty());
            }
            empty
        } else {
            crate::version::vec_skip(&pair, e + 1)
        };
        Some(v)
    } else if a >= s.len() {
        None
    } else {
        let rest = crate::version::vec_skip(s, a + 1);
        qs_find(&rest, key)
    }
}

/// The URL override for an experiment key: the integer value of
/// `?key=<n>` when it names a variation, read from the query part of the
/// URL before any fragment.
pub open spec fn spec_qs_override(key: Seq<char>, url: Seq<char>, numvars: int) -> Option<int> {
    let q = char_idx(url, '?') as int;
    if q >= url.len() {
        None
    } else {
        let search = url.skip(q + 1);
        let h = char_idx(search, '#') as int;
        let search2 = if h >= search.len() {
            search
        } else {
            search.take(h)
        };
        match spec_qs_find(search2, key) {
            Some(v) => match spec_parse_uint_prefix(v) {
                Some(n) => if 0 <= n < numvars {
                    Some(n)
                } else {
                    None
                },
                None => None,
            },
            None => None,
        }
    }
}

/// Reads the URL override, as [`spec_qs_override`] states it.
fn qs_override(key: &str, url: &str, numvars: usize) -> (r: Option<i64>)
    requires
        numvars <= 0x7fffffffffffffff,
    ensures
        match r {
            Some(n) => spec_qs_override(key@, url@, numvars as int) == Some(n as int) && 0 <= n < numvars,
            None => spec_qs_override(key@, url@, numvars as int) is None,
        },
{
    let chars = crate::version::chars_of(url);
    let q = find_char(&chars, '?');
    if q >= chars.len() {
        return None;
    }
    let search = crate::version::vec_skip(&chars, q + 1);
    let h = find_char(&search, '#');
    let search2 = if h >= search.len() {
        crate::version::vec_take(&search, search.len())
    } else {
        crate::version::vec_take(&search, h)
    };
    proof {
        assert(search@.take(search@.len() as int) =~= search@);
    }
    proof {
        assert(chars@ == url@);
        assert(search@ == url@.skip(q + 1));
        if h >= search@.len() {
            assert(search2@ == search@);
        } else {
            assert(search2@ == search@.take(h as int));
        }
    }
    match qs_find(&search2, key) {
        Some(v) => match parse_uint_prefix(&v) {
            Some(n) => {
                if 0 <= n && (n as u64) < (numvars as u64) {
                    proof {
                        assert(spec_qs_override(key@, url@, numvars as int) == Some(n as int));
                    }
                    Some(n)
                } else {
                    None
                }
            },
            None => {
                proof {
                    if spec_parse_uint_prefix(v@) is Some {
                        assert(spec_parse_uint_prefix(v@)->0 > 9223372036854775807);
                    }
                }
                None
            },
        },
        None => None,
    }
}

/// Tests all filters, as [`spec_any_filter_excludes`] states it.
pub fn any_filter_excludes_pub(fs: &Vec<Filter>, attrs: &[GrowthBookAttribute]) -> (r: bool)
    requires
        attrs_wf(attrs@),
    ensures
        r == spec_any_filter_excludes(fs@, attrs@),
{
    let mut i: usize = 0;
    proof {
        assert(fs@.skip(0) =~= fs@);
    }
    while i < fs.len()
        invariant
            i <= fs@.len(),
            attrs_wf(attrs@),
            spec_any_filter_excludes(fs@, attrs@) == spec_any_filter_excludes(
                fs@.skip(i as int),
                attrs@,
            ),
        decreases fs@.len() - i,
    {
        proof {
            assert(fs@.skip(i as int)[0] == fs@[i as int]);
            assert(fs@.skip(i as int).drop_first() =~= fs@.skip(i + 1));
        }
        if filter_excludes(&fs[i], attrs) {
            return true;
        }
        i = i + 1;
    }
    proof {
        assert(fs@.skip(fs@.len() as int).len() == 0);
    }
    false
}

/// The stored variation key for this experiment: the resolved attribute
/// pair first, then the fallback pair when it differs.
pub open spec fn spec_sticky_stored(
    exp: Experiment,
    ctx: EvalContext,
    docs: Seq<StickyDocView>,
    akey: Seq<char>,
) -> Option<Seq<char>> {
    let an = spec_hash_attr(exp, ctx).0;
    let av = spec_hash_attr(exp, ctx).1;
    match spec_stored_assignment(docs, an, av, akey) {
        Some(v) => Some(v),
        None => match exp.fallback_attribute {
            Some(fa) => {
                let fv = spec_attr_str(ctx.attributes@, fa@);
                if fv.len() > 0 && fa@ != an {
                    spec_stored_assignment(docs, fa@, fv, akey)
                } else {
                    None
                }
            },
            None => None,
        },
    }
}

/// Looks a sticky assignment up, as [`spec_sticky_stored`] states it.
fn sticky_stored(
    exp: &Experiment,
    ctx: &EvalContext,
    docs: &Vec<StickyAssignmentDoc>,
    akey: &str,
) -> (r: Option<String>)
    requires
        ctx_wf(*ctx),
    ensures
        match r {
            Some(v) => spec_sticky_stored(*exp, *ctx, docs_view(docs@), akey@) == Some(v@),
            None => spec_sticky_stored(*exp, *ctx, docs_view(docs@), akey@) is None,
        },
{
    let (an, av) = resolve_hash_attr(exp, ctx);
    match crate::feature::sticky::stored_assignment(docs, an.as_str(), av.as_str(), akey) {
        Some(v) => Some(v.as_str().to_owned()),
        None => match &exp.fallback_attribute {
            Some(fa) => {
                let fv = attr_str(ctx.attributes.as_slice(), fa.as_str());
                if fv.as_str().unicode_len() > 0 && !crate::model_public::str_eq(
                    fa.as_str(),
                    an.as_str(),
                ) {
                    match crate::feature::sticky::stored_assignment(
                        docs,
                        fa.as_str(),
                        fv.as_str(),
                        akey,
                    ) {
                        Some(v) => Some(v.as_str().to_owned()),
                        None => None,
                    }
                } else {
                    None
                }
            },
            None => None,
        },
    }
}

/// Whether any bucket version below `n` already has an assignment.
pub open spec fn spec_blocked_below(
    exp: Experiment,
    ctx: EvalContext,
    docs: Seq<StickyDocView>,
    n: nat,
) -> bool
    decreases n,
{
    if n == 0 {
        false
    } else {
        spec_blocked_below(exp, ctx, docs, (n - 1) as nat) || spec_sticky_stored(
            exp,
            ctx,
            docs,
            spec_assignment_key(exp.key@, (n - 1) as nat),
        ) is Some
    }
}

/// Tests version blocking, as [`spec_blocked_below`] states it.
fn blocked_below(exp: &Experiment, ctx: &EvalContext, docs: &Vec<StickyAssignmentDoc>, n: u64) -> (r:
    bool)
    requires
        ctx_wf(*ctx),
    ensures
        r == spec_blocked_below(*exp, *ctx, docs_view(docs@), n as nat),
{
    let mut v: u64 = 0;
    let mut blocked = false;
    while v < n
        invariant
            v <= n,
            ctx_wf(*ctx),
            blocked == spec_blocked_below(*exp, *ctx, docs_view(docs@), v as nat),
        decreases n - v,
    {
        let akey = crate::feature::sticky::assignment_key(exp.key.as_str(), v);
        match sticky_stored(exp, ctx, docs, akey.as_str()) {
            Some(_) => {
                blocked = true;
            },
            None => {},
        }
        v = v + 1;
    }
    blocked
}

/// The variation whose key is `k`, scanning from index `i`.
pub open spec fn spec_find_var_from(exp: Experiment, k: Seq<char>, i: int) -> int
    decreases exp.variations@.len() - i,
{
    if i < 0 || i >= exp.variations@.len() {
        -1
    } else if spec_variation_key(exp, i) == k {
        i
    } else {
        spec_find_var_from(exp, k, i + 1)
    }
}

/// Finds a variation by key, as [`spec_find_var_from`] states it.
fn find_var_by_key(exp: &Experiment, k: &str) -> (r: Option<usize>)
    ensures
        match r {
            Some(i) => i < exp.variations@.len() && spec_find_var_from(*exp, k@, 0) == i as int,
            None => spec_find_var_from(*exp, k@, 0) == -1,
        },
{
    let mut i: usize = 0;
    while i < exp.variations.len()
        invariant
            i <= exp.variations@.len(),
            spec_find_var_from(*exp, k@, 0) == spec_find_var_from(*exp, k@, i as int),
        decreases exp.variations@.len() - i,
    {
        let vk = variation_key(exp, i);
        if crate::model_public::str_eq(vk.as_str(), k) {
            return Some(i);
        }
        i = i + 1;
    }
    None
}

/// Namespace inclusion over the hashing value.
pub open spec fn spec_in_ns(ns: Namespace, av: Seq<char>) -> bool {
    let b = crate::hash::spec_hash_v1(seq!['_', '_'] + ns.id@, av);
    ns.lo <= b < ns.hi
}

/// The coverage in effect, in parts per billion.
pub open spec fn spec_cov(exp: Experiment) -> int {
    match exp.coverage {
        Some(c) => c as int,
        None => PPB_ONE as int,
    }
}

/// The weights in effect, viewed.
pub open spec fn spec_weights(exp: Experiment) -> Option<Seq<u64>> {
    match exp.weights {
        Some(w) => Some(w@),
        None => None,
    }
}

/// The bucket version in effect.
pub open spec fn spec_bucket_ver(exp: Experiment) -> nat {
    match exp.bucket_version {
        Some(b) => b as nat,
        None => 0,
    }
}

/// What one run decides: the variation index shown by the result, the
/// flags, the bucket, and whether an assignment is recorded.
pub ghost struct RunOutcome {
    pub index: int,
    pub in_experiment: bool,
    pub hash_used: bool,
    pub sticky_used: bool,
    pub bucket: Option<u64>,
    pub saved: bool,
}

/// A skipped run: variation zero, not in the experiment.
pub open spec fn spec_bail(hash_used: bool) -> RunOutcome {
    RunOutcome {
        index: 0,
        in_experiment: false,
        hash_used,
        sticky_used: false,
        bucket: None,
        saved: false,
    }
}

/// A forced variation: in the experiment only when the index names one.
pub open spec fn spec_forced_outcome(exp: Experiment, v: int) -> RunOutcome {
    if 0 <= v < exp.variations@.len() {
        RunOutcome {
            index: v,
            in_experiment: true,
            hash_used: false,
            sticky_used: false,
            bucket: None,
            saved: false,
        }
    } else {
        spec_bail(false)
    }
}

/// The whole run, in order: too few variations, disabled context, URL
/// override, context-forced variation, experiment-forced variation, QA
/// mode, missing hash attribute, sticky version block, sticky resumption,
/// filters or namespace, unknown hash version, bucket choice.
pub open spec fn spec_run(exp: Experiment, ctx: EvalContext, docs: Seq<StickyDocView>) -> RunOutcome {
    let n_vars = exp.variations@.len() as int;
    let av = spec_hash_attr(exp, ctx).1;
    if n_vars < 2 {
        spec_bail(false)
    } else if !ctx.enabled {
        spec_bail(false)
    } else {
        let qs = match ctx.url {
            Some(u) => spec_qs_override(exp.key@, u@, n_vars),
            None => None,
        };
        if qs is Some {
            RunOutcome {
                index: qs->0,
                in_experiment: true,
                hash_used: false,
                sticky_used: false,
                bucket: None,
                saved: false,
            }
        } else {
            match spec_forced_lookup(ctx.forced_variations@, exp.key@) {
                Some(v) => spec_forced_outcome(exp, v as int),
                None => match exp.force {
                    Some(f) => spec_forced_outcome(exp, f as int),
                    None => if ctx.qa_mode {
                        spec_bail(false)
                    } else if av.len() == 0 {
                        spec_bail(false)
                    } else {
                        let sticky_active = ctx.sticky_enabled && !exp.disable_sticky_bucketing;
                        let akey = spec_assignment_key(exp.key@, spec_bucket_ver(exp));
                        let minbv: nat = match exp.min_bucket_version {
                            Some(m) => m as nat,
                            None => 0,
                        };
                        if sticky_active && spec_blocked_below(exp, ctx, docs, minbv) {
                            spec_bail(false)
                        } else {
                            let resumed = if sticky_active {
                                match spec_sticky_stored(exp, ctx, docs, akey) {
                                    Some(vkey) => spec_find_var_from(exp, vkey, 0),
                                    None => -1,
                                }
                            } else {
                                -1
                            };
                            if sticky_active && resumed >= 0 {
                                RunOutcome {
                                    index: resumed,
                                    in_experiment: true,
                                    hash_used: true,
                                    sticky_used: true,
                                    bucket: None,
                                    saved: true,
                                }
                            } else if exp.filters@.len() > 0 && spec_any_filter_excludes(
                                exp.filters@,
                                ctx.attributes@,
                            ) {
                                spec_bail(false)
                            } else if exp.filters@.len() == 0 && exp.namespace is Some
                                && !spec_in_ns(exp.namespace->0, av) {
                                spec_bail(false)
                            } else {
                                let seed = match exp.seed {
                                    Some(sd) => sd@,
                                    None => exp.key@,
                                };
                                let hver: u8 = match exp.hash_version {
                                    Some(v) => v,
                                    None => 1,
                                };
                                match crate::hash::spec_hash(seed, av, hver) {
                                    None => spec_bail(false),
                                    Some(n) => {
                                        let ranges = match exp.ranges {
                                            Some(rs) => rs@,
                                            None => crate::bucket::spec_bucket_ranges(
                                                exp.variations@.len(),
                                                spec_cov(exp),
                                                spec_weights(exp),
                                            ),
                                        };
                                        let i = crate::bucket::spec_choose_variation(
                                            (n as int) * (PPB_ONE as int),
                                            ranges,
                                        );
                                        if i < 0 {
                                            spec_bail(true)
                                        } else {
                                            RunOutcome {
                                                index: i,
                                                in_experiment: true,
                                                hash_used: true,
                                                sticky_used: false,
                                                bucket: Some(n),
                                                saved: sticky_active,
                                            }
                                        }
                                    },
                                }
                            }
                        }
                    },
                },
            }
        }
    }
}

/// Whether the outcome makes the caller's rule apply: in the experiment
/// and not a passthrough variation.
pub open spec fn spec_applied(exp: Experiment, o: RunOutcome) -> bool {
    o.in_experiment && !spec_passthrough(exp, o.index)
}

proof fn lemma_find_var_hits(exp: Experiment, idx: int, i: int)
    requires
        0 <= i <= idx < exp.variations@.len(),
        forall|a: int, b: int|
            0 <= a < b < exp.variations@.len() ==> spec_variation_key(exp, a) != spec_variation_key(
                exp,
                b,
            ),
    ensures
        spec_find_var_from(exp, spec_variation_key(exp, idx), i) == idx,
    decreases idx - i,
{
    if i < idx {
        assert(spec_variation_key(exp, i) != spec_variation_key(exp, idx));
        lemma_find_var_hits(exp, idx, i + 1);
    }
}

/// Sticky idempotence: when a run records an assignment, running the same
/// experiment against the same user with those documents resumes the same
/// variation through the sticky bucket, and recording it again changes
/// nothing — the documents grew by at most one on the first run and stay
/// as they are afterwards.
pub proof fn lemma_sticky_run_idempotent(exp: Experiment, ctx: EvalContext, docs: Seq<StickyDocView>)
    requires
        ctx.sticky_enabled,
        !exp.disable_sticky_bucketing,
        exp.min_bucket_version is None,
        spec_run(exp, ctx, docs).saved,
        spec_run(exp, ctx, docs).index < exp.variations@.len(),
        forall|a: int, b: int|
            0 <= a < b < exp.variations@.len() ==> spec_variation_key(exp, a) != spec_variation_key(
                exp,
                b,
            ),
    ensures
        ({
            let o1 = spec_run(exp, ctx, docs);
            let an = spec_hash_attr(exp, ctx).0;
            let av = spec_hash_attr(exp, ctx).1;
            let akey = spec_assignment_key(exp.key@, spec_bucket_ver(exp));
            let vkey = spec_variation_key(exp, o1.index);
            let docs1 = crate::feature::sticky::spec_save_assignment(docs, an, av, akey, vkey);
            let o2 = spec_run(exp, ctx, docs1);
            &&& docs1.len() <= docs.len() + 1
            &&& o2.index == o1.index
            &&& o2.in_experiment
            &&& o2.sticky_used
            &&& o2.saved
            &&& crate::feature::sticky::spec_save_assignment(
                docs1,
                an,
                av,
                akey,
                spec_variation_key(exp, o2.index),
            ) =~~= docs1
        }),
{
    let o1 = spec_run(exp, ctx, docs);
    let an = spec_hash_attr(exp, ctx).0;
    let av = spec_hash_attr(exp, ctx).1;
    let akey = spec_assignment_key(exp.key@, spec_bucket_ver(exp));
    let vkey = spec_variation_key(exp, o1.index);
    let docs1 = crate::feature::sticky::spec_save_assignment(docs, an, av, akey, vkey);
    crate::feature::sticky::lemma_save_assignment_idempotent(docs, an, av, akey, vkey);
    assert(crate::feature::sticky::spec_stored_assignment(docs1, an, av, akey) == Some(vkey));
    assert(spec_sticky_stored(exp, ctx, docs1, akey) == Some(vkey));
    lemma_find_var_hits(exp, o1.index, 0);
    crate::feature::sticky::lemma_save_assignment_idempotent(docs1, an, av, akey, vkey);
}

/// Builds the result record for an outcome.
fn build_result(exp: &Experiment, ctx: &EvalContext, index: usize, in_experiment: bool, hash_used: bool, sticky_used: bool, bucket: Option<u64>) -> (r: ExperimentResult)
    requires
        ctx_wf(*ctx),
        index <= 0x7fffffffffffffff,
    ensures
        r.variation_id == index as int,
        r.in_experiment == in_experiment,
        r.hash_used == hash_used,
        r.sticky_bucket_used == sticky_used,
        r.bucket == bucket,
        r.key@ == spec_variation_key(*exp, index as int),
        r.hash_attribute@ == spec_hash_attr(*exp, *ctx).0,
        r.hash_value@ == spec_hash_attr(*exp, *ctx).1,
        spec_value_eq(r.value, spec_chosen_value(*exp, index as int)),
{
    let (an, av) = resolve_hash_attr(exp, ctx);
    let value = if index < exp.variations.len() {
        exp.variations[index].deep_clone()
    } else {
        GrowthBookAttributeValue::Empty
    };
    ExperimentResult {
        value,
        variation_id: index as i64,
        key: variation_key(exp, index),
        in_experiment,
        hash_used,
        hash_attribute: an,
        hash_value: av,
        bucket,
        sticky_bucket_used: sticky_used,
    }
}

/// Runs one experiment against the context and sticky documents, as
/// [`spec_run`] states it; returns the result, the documents (with at most
/// one recorded assignment added), and whether the rule applies.
#[verifier::loop_isolation(false)]
pub fn run_experiment(exp: &Experiment, ctx: &EvalContext, docs: Vec<StickyAssignmentDoc>) -> (r: (
    ExperimentResult,
    Vec<StickyAssignmentDoc>,
    bool,
))
    requires
        ctx_wf(*ctx),
        exp_wf(*exp),
    ensures
        ({
            let o = spec_run(*exp, *ctx, docs_view(docs@));
            &&& r.0.variation_id == o.index
            &&& r.0.in_experiment == o.in_experiment
            &&& r.0.hash_used == o.hash_used
            &&& r.0.sticky_bucket_used == o.sticky_used
            &&& r.0.bucket == o.bucket
            &&& r.0.key@ == spec_variation_key(*exp, o.index)
            &&& r.0.hash_attribute@ == spec_hash_attr(*exp, *ctx).0
            &&& r.0.hash_value@ == spec_hash_attr(*exp, *ctx).1
            &&& spec_value_eq(r.0.value, spec_chosen_value(*exp, o.index))
            &&& r.2 == spec_applied(*exp, o)
            &&& !o.saved ==> r.1@ == docs@
            &&& o.saved ==> {
                let an = spec_hash_attr(*exp, *ctx).0;
                let av = spec_hash_attr(*exp, *ctx).1;
                let akey = spec_assignment_key(exp.key@, spec_bucket_ver(*exp));
                let vkey = spec_variation_key(*exp, o.index);
                docs_view(r.1@) =~~= crate::feature::sticky::spec_save_assignment(
                    docs_view(docs@),
                    an,
                    av,
                    akey,
                    vkey,
                )
            }
        }),
{
    let n_vars = exp.variations.len();
    if n_vars < 2 {
        return (build_result(exp, ctx, 0, false, false, false, None), docs, false);
    }
    if !ctx.enabled {
        return (build_result(exp, ctx, 0, false, false, false, None), docs, false);
    }
    let qs: Option<i64> = match &ctx.url {
        Some(u) => qs_override(exp.key.as_str(), u.as_str(), n_vars),
        None => None,
    };
    match qs {
        Some(i) => {
            return (build_result(exp, ctx, i as usize, true, false, false, None), docs, {
                let applied = i as usize >= exp.meta.len() || !exp.meta[i as usize].passthrough;
                applied
            });
        },
        None => {},
    }
    match forced_lookup(&ctx.forced_variations, exp.key.as_str()) {
        Some(v) => {
            if 0 <= v && (v as u64) < (n_vars as u64) {
                let idx = v as usize;
                let applied = idx >= exp.meta.len() || !exp.meta[idx].passthrough;
                return (build_result(exp, ctx, idx, true, false, false, None), docs, applied);
            } else {
                return (build_result(exp, ctx, 0, false, false, false, None), docs, false);
            }
        },
        None => {},
    }
    match exp.force {
        Some(f) => {
            if 0 <= f && (f as u64) < (n_vars as u64) {
                let idx = f as usize;
                let applied = idx >= exp.meta.len() || !exp.meta[idx].passthrough;
                return (build_result(exp, ctx, idx, true, false, false, None), docs, applied);
            } else {
                return (build_result(exp, ctx, 0, false, false, false, None), docs, false);
            }
        },
        None => {},
    }
    if ctx.qa_mode {
        return (build_result(exp, ctx, 0, false, false, false, None), docs, false);
    }
    let (an, av) = resolve_hash_attr(exp, ctx);
    if av.as_str().unicode_len() == 0 {
        return (build_result(exp, ctx, 0, false, false, false, None), docs, false);
    }
    let sticky_active = ctx.sticky_enabled && !exp.disable_sticky_bucketing;
    let bv: u64 = match exp.bucket_version {
        Some(b) => b,
        None => 0,
    };
    let akey = crate::feature::sticky::assignment_key(exp.key.as_str(), bv);
    let minbv: u64 = match exp.min_bucket_version {
        Some(m) => m,
        None => 0,
    };
    if sticky_active && blocked_below(exp, ctx, &docs, minbv) {
        return (build_result(exp, ctx, 0, false, false, false, None), docs, false);
    }
    if sticky_active {
        match sticky_stored(exp, ctx, &docs, akey.as_str()) {
            Some(vkey) => {
                match find_var_by_key(exp, vkey.as_str()) {
                    Some(i) => {
                        let result = build_result(exp, ctx, i, true, true, true, None);
                        let vk = variation_key(exp, i);
                        let (docs2, _) = crate::feature::sticky::save_assignment(
                            docs,
                            an.as_str(),
                            av.as_str(),
                            akey.as_str(),
                            vk.as_str(),
                        );
                        let applied = i >= exp.meta.len() || !exp.meta[i].passthrough;
                        return (result, docs2, applied);
                    },
                    None => {},
                }
            },
            None => {},
        }
    }
    if exp.filters.len() > 0 {
        if any_filter_excludes_pub(&exp.filters, ctx.attributes.as_slice()) {
            return (build_result(exp, ctx, 0, false, false, false, None), docs, false);
        }
    } else {
        match &exp.namespace {
            Some(ns) => {
                if !crate::bucket::in_namespace(av.as_str(), ns) {
                    return (build_result(exp, ctx, 0, false, false, false, None), docs, false);
                }
            },
            None => {},
        }
    }
    let seed: String = match &exp.seed {
        Some(sd) => sd.as_str().to_owned(),
        None => exp.key.as_str().to_owned(),
    };
    let hver: u8 = match exp.hash_version {
        Some(v) => v,
        None => 1,
    };
    let n: u64 = match crate::hash::gb_hash(seed.as_str(), av.as_str(), hver) {
        Some(n) => n,
        None => {
            return (build_result(exp, ctx, 0, false, false, false, None), docs, false);
        },
    };
    let ranges: Vec<BucketRange> = match &exp.ranges {
        Some(rs) => {
            let mut copy: Vec<BucketRange> = Vec::new();
            let mut k: usize = 0;
            while k < rs.len()
                invariant
                    k <= rs@.len(),
                    copy@ =~= rs@.take(k as int),
                decreases rs@.len() - k,
            {
                proof {
                    assert(rs@.take(k as int).push(rs@[k as int]) =~= rs@.take(k + 1));
                }
                copy.push(rs[k]);
                k = k + 1;
            }
            proof {
                assert(rs@.take(rs@.len() as int) =~= rs@);
            }
            copy
        },
        None => {
            let cov: i64 = match exp.coverage {
                Some(c) => c as i64,
                None => PPB_ONE as i64,
            };
            crate::bucket::get_bucket_ranges(n_vars, cov, match &exp.weights {
                Some(w) => Some(w),
                None => None,
            })
        },
    };
    proof {
        crate::bucket::lemma_choose_ge_neg1((n as int) * (PPB_ONE as int), ranges@);
    }
    let i = crate::bucket::choose_variation(n, &ranges);
    if i < 0 {
        return (build_result(exp, ctx, 0, false, true, false, None), docs, false);
    }
    let idx = i as usize;
    let result = build_result(exp, ctx, idx, true, true, false, Some(n));
    let applied = idx >= exp.meta.len() || !exp.meta[idx].passthrough;
    if sticky_active {
        let vk = variation_key(exp, idx);
        let (docs2, _) = crate::feature::sticky::save_assignment(
            docs,
            an.as_str(),
            av.as_str(),
            akey.as_str(),
            vk.as_str(),
        );
        (result, docs2, applied)
    } else {
        (result, docs, applied)
    }
}

} // verus!
