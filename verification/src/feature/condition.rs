//! The condition evaluator: a recursive predicate language over attribute
//! bags.
//!
//! A condition is a parsed JSON object, held as a list of attributes. Each
//! key is a logical operator (`$and`, `$or`, `$nor`, `$not`), a value-level
//! operator (`$eq`, `$in`, `$gt`, `$regex`, `$vgt`, ...) applied to the
//! value found at the enclosing field path, or a field path whose value is
//! matched against the bag. Unknown `$`-operators make the enclosing
//! condition false; they never abort evaluation.

use vstd::prelude::*;

use crate::extensions::spec_find_value;
use crate::model_public::{
    attrs_size, attrs_wf, stringify, spec_value_eq, val_size, val_wf, vals_size, vals_wf, Decimal,
    GrowthBookAttribute, GrowthBookAttributeValue,
};
use crate::version::{lex_lt, spec_normalize_version};

verus! {

use vstd::string::StrSliceExecFns;
use vstd::string::StringExecFns;

/// Whether a regular expression pattern compiles. The value is fixed by the
/// regex crate; nothing more is assumed of it.
pub uninterp spec fn regex_compiles(pattern: Seq<char>) -> bool;

/// Whether a compiled pattern matches a text: a function of the pattern and
/// the text alone.
pub uninterp spec fn regex_matches(pattern: Seq<char>, text: Seq<char>) -> bool;

/// Relies on `regex::Regex::new` and `regex::Regex::is_match`: whether the
/// pattern compiles, and whether it then matches the text, depend on the
/// pattern and text alone; a pattern that does not compile yields `None`.
#[verifier::external_body]
fn regex_match(pattern: &str, text: &str) -> (r: Option<bool>)
    ensures
        r is Some <==> regex_compiles(pattern@),
        r is Some ==> r->0 == regex_matches(pattern@, text@),
{
    match regex::Regex::new(pattern) {
        Ok(re) => Some(re.is_match(text)),
        Err(_) => None,
    }
}

/// A comparison operator shared by the numeric, string and version tests.
#[derive(Clone, Copy, Debug, PartialEq, Eq, Structural)]
pub enum CmpOp {
    Lt,
    Lte,
    Gt,
    Gte,
    Eq,
    Ne,
}

/// The key a value-level operator reads: the enclosing field path when there
/// is one, else the operator attribute's own key.
pub open spec fn lookup_key(parent: Option<Seq<char>>, fa: GrowthBookAttribute) -> Seq<char> {
    match parent {
        Some(k) => k,
        None => fa.key@,
    }
}

/// The field path for a nested object: dotted onto the enclosing path.
pub open spec fn agg_key(parent: Option<Seq<char>>, fa: GrowthBookAttribute) -> Seq<char> {
    match parent {
        Some(k) => k + seq!['.'] + fa.key@,
        None => fa.key@,
    }
}

/// Whether a key names an operator (starts with `$`).
pub open spec fn starts_dollar(k: Seq<char>) -> bool {
    k.len() > 0 && k[0] == '$'
}

/// Whether every key of a condition object names an operator.
pub open spec fn all_dollar_keys(fields: Seq<GrowthBookAttribute>) -> bool {
    forall|i: int| 0 <= i < fields.len() ==> starts_dollar((#[trigger] fields[i]).key@)
}

/// An integer as a decimal number.
pub open spec fn int_dec(i: i64) -> Decimal {
    Decimal { m: i, e: 0 }
}

/// The characters of `s` with every `.` removed.
pub open spec fn strip_dots(s: Seq<char>) -> Seq<char>
    decreases s,
{
    if s.len() == 0 {
        Seq::empty()
    } else if s[0] == '.' {
        strip_dots(s.drop_first())
    } else {
        seq![s[0]] + strip_dots(s.drop_first())
    }
}

/// Whether every character is an ASCII digit; at least one is required.
pub open spec fn all_digits(s: Seq<char>) -> bool {
    s.len() > 0 && (forall|i: int| 0 <= i < s.len() ==> crate::version::is_digit(#[trigger] s[i]))
}

/// The number named by a digit string.
pub open spec fn digits_num(s: Seq<char>) -> int
    decreases s.len(),
{
    if s.len() == 0 {
        0
    } else {
        digits_num(s.drop_last()) * 10 + (s.last() as u32 - 48)
    }
}

/// The integer a sign-and-digits string names, or nothing.
pub open spec fn spec_parse_int(s: Seq<char>) -> Option<int> {
    if s.len() > 0 && s[0] == '-' {
        if all_digits(s.drop_first()) {
            Some(-digits_num(s.drop_first()))
        } else {
            None
        }
    } else if s.len() > 0 && s[0] == '+' {
        if all_digits(s.drop_first()) {
            Some(digits_num(s.drop_first()))
        } else {
            None
        }
    } else if all_digits(s) {
        Some(digits_num(s))
    } else {
        None
    }
}

/// The number a string names after its dots are removed: the form the
/// comparison operators coerce strings with. The coercion is deliberately
/// exact-integer: an optional sign and digits, within the signed 64-bit
/// range. Exponent notation and larger magnitudes do not name a number
/// here and make the enclosing comparison false; a floating-point reading
/// of such strings would have no exact statement in this model.
pub open spec fn spec_parse_stripped(s: Seq<char>) -> Option<int> {
    spec_parse_int(strip_dots(s))
}

/// The number a comparison's right-hand side names, if any; a string
/// counts when its dot-stripped form parses.
pub open spec fn num_of_feature(v: GrowthBookAttributeValue) -> Option<Decimal> {
    match v {
        GrowthBookAttributeValue::Int(i) => Some(int_dec(i)),
        GrowthBookAttributeValue::Float(d) => Some(d),
        GrowthBookAttributeValue::String(s) => match spec_parse_stripped(s@) {
            Some(n) => if -9223372036854775808 <= n <= 9223372036854775807 {
                Some(int_dec(n as i64))
            } else {
                None
            },
            None => None,
        },
        _ => None,
    }
}

/// The numbers among a sequence of values, in order.
pub open spec fn nums_of_array(arr: Seq<GrowthBookAttributeValue>) -> Seq<Decimal>
    decreases arr,
{
    if arr.len() == 0 {
        Seq::empty()
    } else {
        (match arr[0] {
            GrowthBookAttributeValue::Int(i) => seq![int_dec(i)],
            GrowthBookAttributeValue::Float(d) => seq![d],
            _ => Seq::empty(),
        }) + nums_of_array(arr.drop_first())
    }
}

/// The numbers an attribute value contributes to a numeric comparison:
/// `None` makes the comparison false.
pub open spec fn spec_user_nums(uv: GrowthBookAttributeValue, array_size: bool) -> Option<
    Seq<Decimal>,
> {
    match uv {
        GrowthBookAttributeValue::Int(i) => Some(seq![int_dec(i)]),
        GrowthBookAttributeValue::Float(d) => Some(seq![d]),
        GrowthBookAttributeValue::Array(arr) => if array_size {
            Some(seq![int_dec(arr@.len() as i64)])
        } else {
            Some(nums_of_array(arr@))
        },
        GrowthBookAttributeValue::String(s) => match spec_parse_stripped(s@) {
            Some(v) => if -9223372036854775808 <= v <= 9223372036854775807 {
                Some(seq![int_dec(v as i64)])
            } else {
                None
            },
            None => None,
        },
        _ => None,
    }
}

/// `user OP feature` on decimal numbers.
pub open spec fn dec_cmp_op(op: CmpOp, feature: Decimal, user: Decimal) -> bool {
    match op {
        CmpOp::Gt => feature.spec_lt(user),
        CmpOp::Gte => !user.spec_lt(feature),
        CmpOp::Lt => user.spec_lt(feature),
        CmpOp::Lte => !feature.spec_lt(user),
        CmpOp::Eq => user.spec_num_eq(feature),
        CmpOp::Ne => !user.spec_num_eq(feature),
    }
}

/// `user OP feature` on character sequences, lexicographically.
pub open spec fn str_cmp_op(op: CmpOp, feature: Seq<char>, user: Seq<char>) -> bool {
    match op {
        CmpOp::Gt => lex_lt(feature, user),
        CmpOp::Gte => !lex_lt(user, feature),
        CmpOp::Lt => lex_lt(user, feature),
        CmpOp::Lte => !lex_lt(feature, user),
        CmpOp::Eq => user == feature,
        CmpOp::Ne => user != feature,
    }
}

/// Some number in the list satisfies `user OP feature`.
pub open spec fn spec_any_cmp(ns: Seq<Decimal>, feature: Decimal, op: CmpOp) -> bool
    decreases ns,
{
    if ns.len() == 0 {
        false
    } else {
        dec_cmp_op(op, feature, ns[0]) || spec_any_cmp(ns.drop_first(), feature, op)
    }
}

/// Some value stringifies to a form satisfying `user OP feature`.
pub open spec fn spec_any_strcmp(arr: Seq<GrowthBookAttributeValue>, feature: Seq<char>, op: CmpOp) -> bool
    decreases arr,
{
    if arr.len() == 0 {
        false
    } else {
        str_cmp_op(op, feature, stringify(arr[0])) || spec_any_strcmp(arr.drop_first(), feature, op)
    }
}

/// Some value equals `v` structurally.
pub open spec fn spec_any_value_eq(arr: Seq<GrowthBookAttributeValue>, v: GrowthBookAttributeValue) -> bool
    decreases arr,
{
    if arr.len() == 0 {
        false
    } else {
        spec_value_eq(arr[0], v) || spec_any_value_eq(arr.drop_first(), v)
    }
}

/// Some value stringifies identically to `v`.
pub open spec fn spec_any_str_eq(arr: Seq<GrowthBookAttributeValue>, v: GrowthBookAttributeValue) -> bool
    decreases arr,
{
    if arr.len() == 0 {
        false
    } else {
        stringify(arr[0]) == stringify(v) || spec_any_str_eq(arr.drop_first(), v)
    }
}

/// Whether one member of a `$in` list matches the attribute value.
pub open spec fn spec_in_item(fitem: GrowthBookAttributeValue, uv: GrowthBookAttributeValue) -> bool {
    match uv {
        GrowthBookAttributeValue::Array(uarr) => spec_any_str_eq(uarr@, fitem),
        GrowthBookAttributeValue::Empty => false,
        v => stringify(fitem) == stringify(v),
    }
}

/// Some member of the `$in` list matches.
pub open spec fn spec_any_in(farr: Seq<GrowthBookAttributeValue>, uv: GrowthBookAttributeValue) -> bool
    decreases farr,
{
    if farr.len() == 0 {
        false
    } else {
        spec_in_item(farr[0], uv) || spec_any_in(farr.drop_first(), uv)
    }
}

/// No member of the `$nin` list matches.
pub open spec fn spec_none_in(farr: Seq<GrowthBookAttributeValue>, uv: GrowthBookAttributeValue) -> bool
    decreases farr,
{
    if farr.len() == 0 {
        true
    } else {
        !spec_in_item(farr[0], uv) && spec_none_in(farr.drop_first(), uv)
    }
}

/// Every `$all` member is contained in the attribute array.
pub open spec fn spec_all_contained(fv: Seq<GrowthBookAttributeValue>, uv: Seq<GrowthBookAttributeValue>) -> bool
    decreases fv,
{
    if fv.len() == 0 {
        true
    } else {
        spec_any_value_eq(uv, fv[0]) && spec_all_contained(fv.drop_first(), uv)
    }
}

/// Some element matches the regular expression after stringification.
pub open spec fn spec_any_regex(arr: Seq<GrowthBookAttributeValue>, pattern: Seq<char>) -> bool
    decreases arr,
{
    if arr.len() == 0 {
        false
    } else {
        regex_matches(pattern, stringify(arr[0])) || spec_any_regex(arr.drop_first(), pattern)
    }
}

/// The `$type` name of a value.
pub open spec fn value_type_label(v: GrowthBookAttributeValue) -> Seq<char> {
    match v {
        GrowthBookAttributeValue::String(_) => "string"@,
        GrowthBookAttributeValue::Int(_) => "number"@,
        GrowthBookAttributeValue::Float(_) => "number"@,
        GrowthBookAttributeValue::Bool(_) => "boolean"@,
        GrowthBookAttributeValue::Array(_) => "array"@,
        GrowthBookAttributeValue::Object(fields) => if fields@.len() == 0 {
            "null"@
        } else {
            "object"@
        },
        GrowthBookAttributeValue::Empty => "null"@,
    }
}

/// The `$ne` test: true when the attribute is missing, or when neither the
/// value nor any array element equals the operand; an explicit null never
/// equals anything here.
pub open spec fn spec_ne_cond(parent: Option<Seq<char>>, fa: GrowthBookAttribute, attrs: Seq<GrowthBookAttribute>) -> bool {
    match spec_find_value(attrs, lookup_key(parent, fa)) {
        Some(uv) => !(match uv {
            GrowthBookAttributeValue::Array(arr) => spec_any_value_eq(arr@, fa.value),
            GrowthBookAttributeValue::Empty => true,
            v => spec_value_eq(v, fa.value),
        }),
        None => true,
    }
}

/// The `$eq` test: scalars compare by stringified form, arrays by any
/// element, null matches nothing.
pub open spec fn spec_eq_cond(parent: Option<Seq<char>>, fa: GrowthBookAttribute, attrs: Seq<GrowthBookAttribute>) -> bool {
    match spec_find_value(attrs, lookup_key(parent, fa)) {
        Some(uv) => match uv {
            GrowthBookAttributeValue::Array(arr) => spec_any_value_eq(arr@, fa.value),
            GrowthBookAttributeValue::Empty => false,
            v => stringify(v) == stringify(fa.value),
        },
        None => false,
    }
}

/// The `$in` test.
pub open spec fn spec_in_cond(parent: Option<Seq<char>>, fa: GrowthBookAttribute, attrs: Seq<GrowthBookAttribute>) -> bool {
    match spec_find_value(attrs, lookup_key(parent, fa)) {
        Some(uv) => match fa.value {
            GrowthBookAttributeValue::Array(farr) => spec_any_in(farr@, uv),
            _ => false,
        },
        None => false,
    }
}

/// The `$nin` test.
pub open spec fn spec_nin_cond(parent: Option<Seq<char>>, fa: GrowthBookAttribute, attrs: Seq<GrowthBookAttribute>) -> bool {
    match spec_find_value(attrs, lookup_key(parent, fa)) {
        Some(uv) => match fa.value {
            GrowthBookAttributeValue::Array(farr) => spec_none_in(farr@, uv),
            _ => false,
        },
        None => false,
    }
}

/// A numeric comparison: a missing attribute passes; an unusable operand or
/// attribute fails; an array attribute passes when any of its numbers does.
pub open spec fn spec_number_cond(
    parent: Option<Seq<char>>,
    fa: GrowthBookAttribute,
    attrs: Seq<GrowthBookAttribute>,
    array_size: bool,
    op: CmpOp,
) -> bool {
    match spec_find_value(attrs, lookup_key(parent, fa)) {
        None => true,
        Some(uv) => match num_of_feature(fa.value) {
            None => false,
            Some(fd) => match spec_user_nums(uv, array_size) {
                None => false,
                Some(ns) => spec_any_cmp(ns, fd, op),
            },
        },
    }
}

/// A string comparison: a missing attribute passes; both sides compare by
/// their stringified forms, lexicographically.
pub open spec fn spec_string_cond(
    parent: Option<Seq<char>>,
    fa: GrowthBookAttribute,
    attrs: Seq<GrowthBookAttribute>,
    op: CmpOp,
) -> bool {
    match spec_find_value(attrs, lookup_key(parent, fa)) {
        None => true,
        Some(uv) => {
            let fs = stringify(fa.value);
            match uv {
                GrowthBookAttributeValue::Array(arr) => spec_any_strcmp(arr@, fs, op),
                v => str_cmp_op(op, fs, stringify(v)),
            }
        },
    }
}

/// `$gt`, `$gte`, `$lt`, `$lte`: numeric when the operand names a number
/// (a numeric string included), else string-wise.
pub open spec fn spec_cmp_cond(
    parent: Option<Seq<char>>,
    fa: GrowthBookAttribute,
    attrs: Seq<GrowthBookAttribute>,
    array_size: bool,
    op: CmpOp,
) -> bool {
    if num_of_feature(fa.value) is Some {
        spec_number_cond(parent, fa, attrs, array_size, op)
    } else {
        spec_string_cond(parent, fa, attrs, op)
    }
}

/// The `$exists` test; a non-boolean operand passes.
pub open spec fn spec_exists_cond(parent: Option<Seq<char>>, fa: GrowthBookAttribute, attrs: Seq<GrowthBookAttribute>) -> bool {
    match fa.value {
        GrowthBookAttributeValue::Bool(b) => (spec_find_value(attrs, lookup_key(parent, fa))
            is Some) == b,
        _ => true,
    }
}

/// The `$regex` test: an invalid pattern fails, a missing attribute fails,
/// an array attribute passes when any element matches.
pub open spec fn spec_regex_cond(parent: Option<Seq<char>>, fa: GrowthBookAttribute, attrs: Seq<GrowthBookAttribute>) -> bool {
    match fa.value {
        GrowthBookAttributeValue::String(p) => if !regex_compiles(p@) {
            false
        } else {
            match spec_find_value(attrs, lookup_key(parent, fa)) {
                Some(GrowthBookAttributeValue::Array(arr)) => spec_any_regex(arr@, p@),
                Some(v) => regex_matches(p@, stringify(v)),
                None => false,
            }
        },
        _ => true,
    }
}

/// The `$type` test; a missing attribute has type `null`.
pub open spec fn spec_type_cond(parent: Option<Seq<char>>, fa: GrowthBookAttribute, attrs: Seq<GrowthBookAttribute>) -> bool {
    match fa.value {
        GrowthBookAttributeValue::String(t) => match spec_find_value(
            attrs,
            lookup_key(parent, fa),
        ) {
            Some(uv) => t@ == value_type_label(uv),
            None => t@ == "null"@,
        },
        _ => false,
    }
}

/// The `$size` test with an integer operand: the attribute must be an array
/// of exactly that length.
pub open spec fn spec_size_int_cond(
    parent: Option<Seq<char>>,
    fa: GrowthBookAttribute,
    n: i64,
    attrs: Seq<GrowthBookAttribute>,
) -> bool {
    match spec_find_value(attrs, lookup_key(parent, fa)) {
        Some(GrowthBookAttributeValue::Array(arr)) => n == arr@.len(),
        _ => false,
    }
}

/// The `$all` test.
pub open spec fn spec_all_cond(parent: Option<Seq<char>>, fa: GrowthBookAttribute, attrs: Seq<GrowthBookAttribute>) -> bool {
    match fa.value {
        GrowthBookAttributeValue::Array(fvals) => match spec_find_value(
            attrs,
            lookup_key(parent, fa),
        ) {
            Some(GrowthBookAttributeValue::Array(uvals)) => spec_all_contained(fvals@, uvals@),
            _ => false,
        },
        _ => false,
    }
}

/// A version comparison: both sides are normalized and compared
/// lexicographically; a missing or non-string attribute passes.
pub open spec fn spec_version_cond(
    parent: Option<Seq<char>>,
    fa: GrowthBookAttribute,
    attrs: Seq<GrowthBookAttribute>,
    op: CmpOp,
) -> bool {
    match spec_find_value(attrs, lookup_key(parent, fa)) {
        Some(GrowthBookAttributeValue::String(uvs)) => str_cmp_op(
            op,
            spec_normalize_version(stringify(fa.value)),
            spec_normalize_version(uvs@),
        ),
        _ => true,
    }
}

/// One condition attribute holds against the bag.
pub open spec fn spec_is_on(
    parent: Option<Seq<char>>,
    fa: GrowthBookAttribute,
    attrs: Seq<GrowthBookAttribute>,
    array_size: bool,
) -> bool
    decreases val_size(fa.value), 0nat, 0nat,
{
    if fa.key@ == "$not"@ {
        match fa.value {
            GrowthBookAttributeValue::Object(fields) => !spec_all_attrs(
                parent,
                fields@,
                attrs,
                false,
            ),
            _ => false,
        }
    } else if fa.key@ == "$ne"@ {
        spec_ne_cond(parent, fa, attrs)
    } else if fa.key@ == "$and"@ {
        match fa.value {
            GrowthBookAttributeValue::Array(items) => spec_and_items(items@, attrs),
            _ => false,
        }
    } else if fa.key@ == "$nor"@ {
        match fa.value {
            GrowthBookAttributeValue::Array(items) => !(items@.len() == 0 || spec_or_items(
                items@,
                attrs,
            )),
            GrowthBookAttributeValue::Empty => false,
            _ => true,
        }
    } else if fa.key@ == "$or"@ {
        match fa.value {
            GrowthBookAttributeValue::Array(items) => items@.len() == 0 || spec_or_items(
                items@,
                attrs,
            ),
            GrowthBookAttributeValue::Empty => true,
            _ => false,
        }
    } else if fa.key@ == "$in"@ {
        spec_in_cond(parent, fa, attrs)
    } else if fa.key@ == "$nin"@ {
        spec_nin_cond(parent, fa, attrs)
    } else if fa.key@ == "$gt"@ {
        spec_cmp_cond(parent, fa, attrs, array_size, CmpOp::Gt)
    } else if fa.key@ == "$gte"@ {
        spec_cmp_cond(parent, fa, attrs, array_size, CmpOp::Gte)
    } else if fa.key@ == "$lt"@ {
        spec_cmp_cond(parent, fa, attrs, array_size, CmpOp::Lt)
    } else if fa.key@ == "$lte"@ {
        spec_cmp_cond(parent, fa, attrs, array_size, CmpOp::Lte)
    } else if fa.key@ == "$eq"@ {
        spec_eq_cond(parent, fa, attrs)
    } else if fa.key@ == "$exists"@ {
        spec_exists_cond(parent, fa, attrs)
    } else if fa.key@ == "$regex"@ {
        spec_regex_cond(parent, fa, attrs)
    } else if fa.key@ == "$type"@ {
        spec_type_cond(parent, fa, attrs)
    } else if fa.key@ == "$size"@ {
        match fa.value {
            GrowthBookAttributeValue::Int(n) => spec_size_int_cond(parent, fa, n, attrs),
            GrowthBookAttributeValue::Object(fields) => spec_all_attrs(
                parent,
                fields@,
                attrs,
                true,
            ),
            _ => false,
        }
    } else if fa.key@ == "$all"@ {
        spec_all_cond(parent, fa, attrs)
    } else if fa.key@ == "$vgt"@ {
        spec_version_cond(parent, fa, attrs, CmpOp::Gt)
    } else if fa.key@ == "$vgte"@ {
        spec_version_cond(parent, fa, attrs, CmpOp::Gte)
    } else if fa.key@ == "$vlt"@ {
        spec_version_cond(parent, fa, attrs, CmpOp::Lt)
    } else if fa.key@ == "$vlte"@ {
        spec_version_cond(parent, fa, attrs, CmpOp::Lte)
    } else if fa.key@ == "$veq"@ {
        spec_version_cond(parent, fa, attrs, CmpOp::Eq)
    } else if fa.key@ == "$vne"@ {
        spec_version_cond(parent, fa, attrs, CmpOp::Ne)
    } else if fa.key@ == "$elemMatch"@ {
        match fa.value {
            GrowthBookAttributeValue::Object(fields) => match spec_find_value(
                attrs,
                lookup_key(parent, fa),
            ) {
                Some(GrowthBookAttributeValue::Array(elems)) => if all_dollar_keys(fields@) {
                    spec_any_elem_ops(fields@, elems@)
                } else {
                    spec_any_elem_cond(fields@, elems@)
                },
                _ => false,
            },
            _ => false,
        }
    } else {
        match fa.value {
            GrowthBookAttributeValue::String(_) => if starts_dollar(fa.key@) {
                false
            } else {
                spec_eq_cond(parent, fa, attrs)
            },
            GrowthBookAttributeValue::Int(_) => spec_eq_cond(parent, fa, attrs),
            GrowthBookAttributeValue::Float(_) => spec_eq_cond(parent, fa, attrs),
            GrowthBookAttributeValue::Bool(_) => spec_eq_cond(parent, fa, attrs),
            GrowthBookAttributeValue::Array(fvals) => match spec_find_value(
                attrs,
                lookup_key(parent, fa),
            ) {
                Some(GrowthBookAttributeValue::Array(uvals)) => crate::model_public::spec_vals_eq(
                    fvals@,
                    uvals@,
                ),
                _ => false,
            },
            GrowthBookAttributeValue::Object(fields) => if fields@.len() == 0 {
                spec_find_value(attrs, lookup_key(parent, fa)) is None
            } else {
                spec_all_attrs(Some(agg_key(parent, fa)), fields@, attrs, false)
            },
            GrowthBookAttributeValue::Empty => match spec_find_value(
                attrs,
                lookup_key(parent, fa),
            ) {
                Some(v) => v is Empty,
                None => true,
            },
        }
    }
}

/// All condition attributes hold.
pub open spec fn spec_all_attrs(
    parent: Option<Seq<char>>,
    conds: Seq<GrowthBookAttribute>,
    attrs: Seq<GrowthBookAttribute>,
    array_size: bool,
) -> bool
    decreases attrs_size(conds), 0nat, 0nat,
{
    if conds.len() == 0 {
        true
    } else {
        spec_is_on(parent, conds[0], attrs, array_size) && spec_all_attrs(
            parent,
            conds.drop_first(),
            attrs,
            array_size,
        )
    }
}

/// Every item of a `$and` is an object whose attributes all hold.
pub open spec fn spec_and_items(
    items: Seq<GrowthBookAttributeValue>,
    attrs: Seq<GrowthBookAttribute>,
) -> bool
    decreases vals_size(items), 0nat, 0nat,
    via spec_and_items_decreases
{
    if items.len() == 0 {
        true
    } else {
        (match items[0] {
            GrowthBookAttributeValue::Object(fields) => spec_all_attrs(
                None,
                fields@,
                attrs,
                false,
            ),
            _ => false,
        }) && spec_and_items(items.drop_first(), attrs)
    }
}

/// Some item of a `$or` is an object whose attributes all hold.
pub open spec fn spec_or_items(items: Seq<GrowthBookAttributeValue>, attrs: Seq<GrowthBookAttribute>) -> bool
    decreases vals_size(items), 0nat, 0nat,
    via spec_or_items_decreases
{
    if items.len() == 0 {
        false
    } else {
        (match items[0] {
            GrowthBookAttributeValue::Object(fields) => spec_all_attrs(
                None,
                fields@,
                attrs,
                false,
            ),
            _ => false,
        }) || spec_or_items(items.drop_first(), attrs)
    }
}

#[via_fn]
proof fn spec_and_items_decreases(
    items: Seq<GrowthBookAttributeValue>,
    attrs: Seq<GrowthBookAttribute>,
) {
    if items.len() > 0 {
        assert(vals_size(items) == 1 + val_size(items[0]) + vals_size(items.drop_first()));
        match items[0] {
            GrowthBookAttributeValue::Object(fields) => {
                assert(val_size(items[0]) == 1 + attrs_size(fields@));
            },
            _ => {},
        }
    }
}

#[via_fn]
proof fn spec_or_items_decreases(
    items: Seq<GrowthBookAttributeValue>,
    attrs: Seq<GrowthBookAttribute>,
) {
    if items.len() > 0 {
        assert(vals_size(items) == 1 + val_size(items[0]) + vals_size(items.drop_first()));
        match items[0] {
            GrowthBookAttributeValue::Object(fields) => {
                assert(val_size(items[0]) == 1 + attrs_size(fields@));
            },
            _ => {},
        }
    }
}

/// The key under which a single value is shown to a condition: prerequisite
/// results and `$elemMatch` elements are wrapped this way.
pub open spec fn wrap_value_key() -> String {
    choose|s: String| (#[trigger] s@) == "value"@
}

/// A one-attribute bag holding just `pv`.
pub open spec fn spec_wrapped_bag(pv: GrowthBookAttributeValue) -> Seq<GrowthBookAttribute> {
    seq![GrowthBookAttribute { key: wrap_value_key(), value: pv }]
}

/// Some array element satisfies every operator of an operator-object, each
/// operator evaluated against the element as if it were the attribute.
pub open spec fn spec_any_elem_ops(
    fields: Seq<GrowthBookAttribute>,
    elems: Seq<GrowthBookAttributeValue>,
) -> bool
    decreases attrs_size(fields), 1nat, elems.len(),
{
    if elems.len() == 0 {
        false
    } else {
        spec_all_attrs(Some(wrap_value_key()@), fields, spec_wrapped_bag(elems[0]), false)
            || spec_any_elem_ops(fields, elems.drop_first())
    }
}

/// Some array element, taken as its own attribute bag, satisfies the
/// sub-condition; non-object elements satisfy nothing.
pub open spec fn spec_any_elem_cond(
    fields: Seq<GrowthBookAttribute>,
    elems: Seq<GrowthBookAttributeValue>,
) -> bool
    decreases attrs_size(fields), 1nat, elems.len(),
{
    if elems.len() == 0 {
        false
    } else {
        (match elems[0] {
            GrowthBookAttributeValue::Object(ef) => spec_all_attrs(None, fields, ef@, false),
            _ => false,
        }) || spec_any_elem_cond(fields, elems.drop_first())
    }
}

/// A whole condition object holds: all of its attributes do.
pub open spec fn spec_conditions_on(conds: Seq<GrowthBookAttribute>, attrs: Seq<GrowthBookAttribute>) -> bool {
    spec_all_attrs(None, conds, attrs, false)
}

/// The key views of an optional parent attribute.
pub open spec fn parent_keys(p: Option<&GrowthBookAttribute>) -> Option<Seq<char>> {
    match p {
        Some(a) => Some(a.key@),
        None => None,
    }
}

/// A parsed condition object can be asked whether it holds of a user's
/// attribute bag.
pub trait ConditionEnabledCheck {
    /// The condition tree carries only normalized decimals.
    spec fn cond_wf(&self) -> bool;

    /// What the condition means, over the bag.
    spec fn cond_holds(&self, attrs: Seq<GrowthBookAttribute>) -> bool;

    /// Evaluates the condition against the bag.
    fn is_on(&self, user_attributes: &[GrowthBookAttribute]) -> (r: bool)
        requires
            self.cond_wf(),
            attrs_wf(user_attributes@),
        ensures
            r == self.cond_holds(user_attributes@),
    ;
}

impl ConditionEnabledCheck for Vec<GrowthBookAttribute> {
    open spec fn cond_wf(&self) -> bool {
        attrs_wf(self@)
    }

    open spec fn cond_holds(&self, attrs: Seq<GrowthBookAttribute>) -> bool {
        spec_conditions_on(self@, attrs)
    }

    fn is_on(&self, user_attributes: &[GrowthBookAttribute]) -> (r: bool) {
        eval_all_attrs(None, self.as_slice(), user_attributes, false)
    }
}

impl GrowthBookAttribute {
    /// The dotted key for a nested condition object.
    fn aggregate_key(&self, parent_attribute: Option<&GrowthBookAttribute>) -> (r: GrowthBookAttribute)
        ensures
            r.key@ == agg_key(parent_keys(parent_attribute), *self),
            val_wf(r.value) == val_wf(self.value),
    {
        let key = match parent_attribute {
            Some(p) => {
                let mut k = p.key.as_str().to_owned();
                k.append(".");
                proof {
                    reveal_strlit(".");
                    assert("."@ =~= seq!['.']);
                }
                k.append(self.key.as_str());
                k
            },
            None => self.key.as_str().to_owned(),
        };
        GrowthBookAttribute { key, value: self.value.deep_clone() }
    }
}

/// Finds the value the condition attribute reads, well formed when the bag
/// is.
fn find_attr<'a>(
    parent: Option<&GrowthBookAttribute>,
    fa: &GrowthBookAttribute,
    user_attributes: &'a [GrowthBookAttribute],
) -> (r: Option<&'a GrowthBookAttributeValue>)
    requires
        attrs_wf(user_attributes@),
    ensures
        match r {
            Some(v) => spec_find_value(user_attributes@, lookup_key(parent_keys(parent), *fa))
                == Some(*v) && val_wf(*v),
            None => spec_find_value(
                user_attributes@,
                lookup_key(parent_keys(parent), *fa),
            ) is None,
        },
{
    let key = match parent {
        Some(p) => p.key.as_str(),
        None => fa.key.as_str(),
    };
    proof {
        crate::extensions::lemma_find_value_wf(user_attributes@, key@);
    }
    crate::extensions::find_value(user_attributes, key)
}

/// The stringified form of a value as a character vector.
fn stringify_chars(v: &GrowthBookAttributeValue) -> (r: Vec<char>)
    requires
        val_wf(*v),
    ensures
        r@ == stringify(*v),
{
    let s = v.to_string();
    crate::version::chars_of(s.as_str())
}

/// Character-vector equality.
fn chars_eq(a: &Vec<char>, b: &Vec<char>) -> (r: bool)
    ensures
        r == (a@ == b@),
{
    if a.len() != b.len() {
        return false;
    }
    let mut i: usize = 0;
    while i < a.len()
        invariant
            a@.len() == b@.len(),
            i <= a@.len(),
            forall|j: int| 0 <= j < i ==> a@[j] == b@[j],
        decreases a@.len() - i,
    {
        if a[i] != b[i] {
            return false;
        }
        i = i + 1;
    }
    proof {
        assert(a@ =~= b@);
    }
    true
}

/// `user OP feature` on character vectors.
fn chars_cmp(op: CmpOp, feature: &Vec<char>, user: &Vec<char>) -> (r: bool)
    ensures
        r == str_cmp_op(op, feature@, user@),
{
    match op {
        CmpOp::Gt => crate::version::lex_lt_exec(feature, user),
        CmpOp::Gte => !crate::version::lex_lt_exec(user, feature),
        CmpOp::Lt => crate::version::lex_lt_exec(user, feature),
        CmpOp::Lte => !crate::version::lex_lt_exec(feature, user),
        CmpOp::Eq => chars_eq(user, feature),
        CmpOp::Ne => !chars_eq(user, feature),
    }
}

/// `user OP feature` on decimals.
fn dec_cmp(op: CmpOp, feature: &Decimal, user: &Decimal) -> (r: bool)
    requires
        feature.wf(),
        user.wf(),
    ensures
        r == dec_cmp_op(op, *feature, *user),
{
    match op {
        CmpOp::Gt => feature.lt(user),
        CmpOp::Gte => !user.lt(feature),
        CmpOp::Lt => user.lt(feature),
        CmpOp::Lte => !feature.lt(user),
        CmpOp::Eq => user.num_eq(feature),
        CmpOp::Ne => !user.num_eq(feature),
    }
}

proof fn lemma_strip_dots_snoc(s: Seq<char>, c: char)
    ensures
        strip_dots(s.push(c)) == strip_dots(s) + (if c == '.' {
            Seq::<char>::empty()
        } else {
            seq![c]
        }),
    decreases s.len(),
{
    if s.len() == 0 {
        assert(s.push(c)[0] == c);
        assert(s.push(c).drop_first() =~= Seq::<char>::empty());
        assert(strip_dots(Seq::<char>::empty()) == Seq::<char>::empty());
        if c == '.' {
            assert(strip_dots(s.push(c)) =~= strip_dots(s) + Seq::<char>::empty());
        } else {
            assert(strip_dots(s.push(c)) =~= strip_dots(s) + seq![c]);
        }
    } else {
        assert(s.push(c)[0] == s[0]);
        assert(s.push(c).drop_first() =~= s.drop_first().push(c));
        lemma_strip_dots_snoc(s.drop_first(), c);
        if s[0] == '.' {
        } else {
            if c == '.' {
                assert(strip_dots(s.push(c)) =~= strip_dots(s) + Seq::<char>::empty());
            } else {
                assert(seq![s[0]] + (strip_dots(s.drop_first()) + seq![c]) =~= (seq![s[0]]
                    + strip_dots(s.drop_first())) + seq![c]);
            }
        }
    }
}

proof fn lemma_digits_num_nonneg(s: Seq<char>)
    requires
        forall|i: int| 0 <= i < s.len() ==> crate::version::is_digit(#[trigger] s[i]),
    ensures
        digits_num(s) >= 0,
    decreases s.len(),
{
    if s.len() > 0 {
        assert(forall|i: int|
            0 <= i < s.drop_last().len() ==> s.drop_last()[i] == s[i]);
        lemma_digits_num_nonneg(s.drop_last());
    }
}

proof fn lemma_digits_num_grows(s: Seq<char>, i: int)
    requires
        0 <= i <= s.len(),
        forall|j: int| 0 <= j < s.len() ==> crate::version::is_digit(#[trigger] s[j]),
    ensures
        digits_num(s) >= digits_num(s.take(i)),
    decreases s.len() - i,
{
    if i < s.len() {
        lemma_digits_num_grows(s, i + 1);
        assert(s.take(i + 1).drop_last() =~= s.take(i));
        assert(forall|j: int| 0 <= j < s.take(i).len() ==> s.take(i)[j] == s[j]);
        lemma_digits_num_nonneg(s.take(i));
        assert(digits_num(s.take(i + 1)) == digits_num(s.take(i)) * 10 + (s[i] as u32 - 48));
        assert(digits_num(s.take(i)) * 10 >= digits_num(s.take(i))) by (nonlinear_arith)
            requires
                digits_num(s.take(i)) >= 0,
        ;
    } else {
        assert(s.take(i) =~= s);
    }
}

/// Parses the digits of `s` (all characters must be digits) into an
/// integer, or reports that the value exceeds the signed 64-bit range plus
/// one (the magnitude a leading minus sign could still negate into range).
pub fn parse_digits(s: &Vec<char>) -> (r: Option<u64>)
    ensures
        match r {
            Some(v) => all_digits(s@) && v == digits_num(s@) && v <= 9223372036854775808u64,
            None => !(all_digits(s@) && digits_num(s@) <= 9223372036854775808),
        },
{
    if s.len() == 0 {
        return None;
    }
    let mut acc: u64 = 0;
    let mut i: usize = 0;
    proof {
        assert(s@.take(0) =~= Seq::<char>::empty());
    }
    while i < s.len()
        invariant
            i <= s@.len(),
            s@.len() > 0,
            forall|j: int| 0 <= j < i ==> crate::version::is_digit(#[trigger] s@[j]),
            acc == digits_num(s@.take(i as int)),
            acc <= 9223372036854775808u64,
        decreases s@.len() - i,
    {
        let c = s[i];
        let u = c as u32;
        if u < 48 || u > 57 {
            return None;
        }
        let d: u64 = (u - 48) as u64;
        proof {
            assert(s@.take(i + 1).drop_last() =~= s@.take(i as int));
            assert(s@.take(i + 1).last() == s@[i as int]);
            assert(digits_num(s@.take(i + 1)) == digits_num(s@.take(i as int)) * 10 + (
            s@[i as int] as u32 - 48));
        }
        if acc > 922337203685477580u64 || (acc == 922337203685477580u64 && d > 8) {
            proof {
                assert(forall|j: int| 0 <= j <= i ==> crate::version::is_digit(#[trigger] s@[j]));
                if all_digits(s@) {
                    lemma_digits_num_grows(s@, i + 1);
                    assert(digits_num(s@) >= digits_num(s@.take(i + 1)));
                    assert(digits_num(s@.take(i + 1)) > 9223372036854775808);
                }
            }
            return None;
        }
        acc = acc * 10 + d;
        i = i + 1;
    }
    proof {
        assert(s@.take(s@.len() as int) =~= s@);
    }
    Some(acc)
}

/// Parses a string as the comparison operators do, as
/// [`spec_parse_stripped`] states it: dots removed, an optional sign,
/// digits; values outside the signed 64-bit range fail.
fn parse_stripped(s: &str) -> (r: Option<i64>)
    ensures
        r == match spec_parse_stripped(s@) {
            Some(v) => if -9223372036854775808 <= v <= 9223372036854775807 {
                Some(v as i64)
            } else {
                None::<i64>
            },
            None => None,
        },
{
    let chars = crate::version::chars_of(s);
    let mut stripped: Vec<char> = Vec::new();
    let mut i: usize = 0;
    proof {
        assert(chars@.take(0) =~= Seq::<char>::empty());
        assert(strip_dots(Seq::<char>::empty()) == Seq::<char>::empty());
    }
    while i < chars.len()
        invariant
            i <= chars@.len(),
            stripped@ =~= strip_dots(chars@.take(i as int)),
        decreases chars@.len() - i,
    {
        let c = chars[i];
        proof {
            lemma_strip_dots_snoc(chars@.take(i as int), chars@[i as int]);
            assert(chars@.take(i as int).push(chars@[i as int]) =~= chars@.take(i + 1));
        }
        if c != '.' {
            stripped.push(c);
        }
        i = i + 1;
    }
    proof {
        assert(chars@.take(chars@.len() as int) =~= chars@);
        assert(stripped@ == strip_dots(s@));
    }
    if stripped.len() == 0 {
        return None;
    }
    let first = stripped[0];
    if first == '-' {
        let mut rest: Vec<char> = Vec::new();
        let mut k: usize = 1;
        while k < stripped.len()
            invariant
                1 <= k <= stripped@.len(),
                rest@ =~= stripped@.subrange(1, k as int),
            decreases stripped@.len() - k,
        {
            proof {
                assert(stripped@.subrange(1, k as int).push(stripped@[k as int]) =~= stripped@
                    .subrange(1, k + 1));
            }
            rest.push(stripped[k]);
            k = k + 1;
        }
        proof {
            assert(stripped@.subrange(1, stripped@.len() as int) =~= stripped@.drop_first());
        }
        match parse_digits(&rest) {
            Some(v) => {
                if v == 9223372036854775808u64 {
                    Some(i64::MIN)
                } else {
                    Some(-(v as i64))
                }
            },
            None => None,
        }
    } else if first == '+' {
        let mut rest: Vec<char> = Vec::new();
        let mut k: usize = 1;
        while k < stripped.len()
            invariant
                1 <= k <= stripped@.len(),
                rest@ =~= stripped@.subrange(1, k as int),
            decreases stripped@.len() - k,
        {
            proof {
                assert(stripped@.subrange(1, k as int).push(stripped@[k as int]) =~= stripped@
                    .subrange(1, k + 1));
            }
            rest.push(stripped[k]);
            k = k + 1;
        }
        proof {
            assert(stripped@.subrange(1, stripped@.len() as int) =~= stripped@.drop_first());
        }
        match parse_digits(&rest) {
            Some(v) => {
                if v <= 9223372036854775807u64 {
                    Some(v as i64)
                } else {
                    None
                }
            },
            None => None,
        }
    } else {
        match parse_digits(&stripped) {
            Some(v) => {
                if v <= 9223372036854775807u64 {
                    Some(v as i64)
                } else {
                    None
                }
            },
            None => None,
        }
    }
}

/// Whether one `$in` member matches the attribute value.
#[verifier::loop_isolation(false)]
fn in_item(fitem: &GrowthBookAttributeValue, uv: &GrowthBookAttributeValue) -> (r: bool)
    requires
        val_wf(*fitem),
        val_wf(*uv),
    ensures
        r == spec_in_item(*fitem, *uv),
{
    match uv {
        GrowthBookAttributeValue::Array(uarr) => {
            let fs = stringify_chars(fitem);
            let mut i: usize = 0;
            proof {
                assert(uarr@.skip(0) =~= uarr@);
            }
            while i < uarr.len()
                invariant
                    i <= uarr@.len(),
                    fs@ == stringify(*fitem),
                    vals_wf(uarr@),
                    uv == GrowthBookAttributeValue::Array(*uarr),
                    spec_any_str_eq(uarr@, *fitem) == spec_any_str_eq(uarr@.skip(i as int), *fitem),
                decreases uarr@.len() - i,
            {
                proof {
                    assert(uarr@.skip(i as int)[0] == uarr@[i as int]);
                    assert(uarr@.skip(i as int).drop_first() =~= uarr@.skip(i + 1));
                    crate::model_public::lemma_vals_wf_pointwise(uarr@);
                }
                let us = stringify_chars(&uarr[i]);
                if chars_eq(&us, &fs) {
                    return true;
                }
                i = i + 1;
            }
            proof {
                assert(uarr@.skip(uarr@.len() as int).len() == 0);
            }
            false
        },
        GrowthBookAttributeValue::Empty => false,
        v => {
            let fs = stringify_chars(fitem);
            let us = stringify_chars(v);
            chars_eq(&fs, &us)
        },
    }
}

/// The `$in` test, as [`spec_in_cond`] states it.
#[verifier::loop_isolation(false)]
fn in_condition(
    parent_attribute: Option<&GrowthBookAttribute>,
    feature_attribute: &GrowthBookAttribute,
    user_attributes: &[GrowthBookAttribute],
) -> (r: bool)
    requires
        val_wf(feature_attribute.value),
        attrs_wf(user_attributes@),
    ensures
        r == spec_in_cond(parent_keys(parent_attribute), *feature_attribute, user_attributes@),
{
    match find_attr(parent_attribute, feature_attribute, user_attributes) {
        Some(uv) => match &feature_attribute.value {
            GrowthBookAttributeValue::Array(farr) => {
                let mut i: usize = 0;
                proof {
                    assert(farr@.skip(0) =~= farr@);
                }
                while i < farr.len()
                    invariant
                        i <= farr@.len(),
                        vals_wf(farr@),
                        val_wf(*uv),
                        spec_any_in(farr@, *uv) == spec_any_in(farr@.skip(i as int), *uv),
                    decreases farr@.len() - i,
                {
                    proof {
                        assert(farr@.skip(i as int)[0] == farr@[i as int]);
                        assert(farr@.skip(i as int).drop_first() =~= farr@.skip(i + 1));
                        crate::model_public::lemma_vals_wf_pointwise(farr@);
                    }
                    if in_item(&farr[i], uv) {
                        return true;
                    }
                    i = i + 1;
                }
                proof {
                    assert(farr@.skip(farr@.len() as int).len() == 0);
                }
                false
            },
            _ => false,
        },
        None => false,
    }
}

/// The `$nin` test, as [`spec_nin_cond`] states it.
#[verifier::loop_isolation(false)]
fn nin_condition(
    parent_attribute: Option<&GrowthBookAttribute>,
    feature_attribute: &GrowthBookAttribute,
    user_attributes: &[GrowthBookAttribute],
) -> (r: bool)
    requires
        val_wf(feature_attribute.value),
        attrs_wf(user_attributes@),
    ensures
        r == spec_nin_cond(parent_keys(parent_attribute), *feature_attribute, user_attributes@),
{
    match find_attr(parent_attribute, feature_attribute, user_attributes) {
        Some(uv) => match &feature_attribute.value {
            GrowthBookAttributeValue::Array(farr) => {
                let mut i: usize = 0;
                proof {
                    assert(farr@.skip(0) =~= farr@);
                }
                while i < farr.len()
                    invariant
                        i <= farr@.len(),
                        vals_wf(farr@),
                        val_wf(*uv),
                        spec_none_in(farr@, *uv) == spec_none_in(farr@.skip(i as int), *uv),
                    decreases farr@.len() - i,
                {
                    proof {
                        assert(farr@.skip(i as int)[0] == farr@[i as int]);
                        assert(farr@.skip(i as int).drop_first() =~= farr@.skip(i + 1));
                        crate::model_public::lemma_vals_wf_pointwise(farr@);
                    }
                    if in_item(&farr[i], uv) {
                        return false;
                    }
                    i = i + 1;
                }
                proof {
                    assert(farr@.skip(farr@.len() as int).len() == 0);
                }
                true
            },
            _ => false,
        },
        None => false,
    }
}

/// The `$ne` test, as [`spec_ne_cond`] states it.
fn ne_condition(
    parent_attribute: Option<&GrowthBookAttribute>,
    feature_attribute: &GrowthBookAttribute,
    user_attributes: &[GrowthBookAttribute],
) -> (r: bool)
    requires
        val_wf(feature_attribute.value),
        attrs_wf(user_attributes@),
    ensures
        r == spec_ne_cond(parent_keys(parent_attribute), *feature_attribute, user_attributes@),
{
    match find_attr(parent_attribute, feature_attribute, user_attributes) {
        Some(uv) => match uv {
            GrowthBookAttributeValue::Array(arr) => !any_value_eq(arr, &feature_attribute.value),
            GrowthBookAttributeValue::Empty => false,
            v => !crate::model_public::value_eq(v, &feature_attribute.value),
        },
        None => true,
    }
}

/// Whether some element equals `v` structurally.
fn any_value_eq(arr: &Vec<GrowthBookAttributeValue>, v: &GrowthBookAttributeValue) -> (r: bool)
    ensures
        r == spec_any_value_eq(arr@, *v),
{
    let mut i: usize = 0;
    proof {
        assert(arr@.skip(0) =~= arr@);
    }
    while i < arr.len()
        invariant
            i <= arr@.len(),
            spec_any_value_eq(arr@, *v) == spec_any_value_eq(arr@.skip(i as int), *v),
        decreases arr@.len() - i,
    {
        proof {
            assert(arr@.skip(i as int)[0] == arr@[i as int]);
            assert(arr@.skip(i as int).drop_first() =~= arr@.skip(i + 1));
        }
        if crate::model_public::value_eq(&arr[i], v) {
            return true;
        }
        i = i + 1;
    }
    proof {
        assert(arr@.skip(arr@.len() as int).len() == 0);
    }
    false
}

/// The `$eq` test, as [`spec_eq_cond`] states it.
fn eq_condition(
    parent_attribute: Option<&GrowthBookAttribute>,
    feature_attribute: &GrowthBookAttribute,
    user_attributes: &[GrowthBookAttribute],
) -> (r: bool)
    requires
        val_wf(feature_attribute.value),
        attrs_wf(user_attributes@),
    ensures
        r == spec_eq_cond(parent_keys(parent_attribute), *feature_attribute, user_attributes@),
{
    match find_attr(parent_attribute, feature_attribute, user_attributes) {
        Some(uv) => match uv {
            GrowthBookAttributeValue::Array(arr) => any_value_eq(arr, &feature_attribute.value),
            GrowthBookAttributeValue::Empty => false,
            v => {
                let us = stringify_chars(v);
                let fs = stringify_chars(&feature_attribute.value);
                chars_eq(&us, &fs)
            },
        },
        None => false,
    }
}

/// A numeric comparison, as [`spec_number_cond`] states it.
#[verifier::loop_isolation(false)]
fn number_condition_evaluate(
    parent_attribute: Option<&GrowthBookAttribute>,
    feature_attribute: &GrowthBookAttribute,
    user_attributes: &[GrowthBookAttribute],
    array_size: bool,
    op: CmpOp,
) -> (r: bool)
    requires
        val_wf(feature_attribute.value),
        attrs_wf(user_attributes@),
    ensures
        r == spec_number_cond(
            parent_keys(parent_attribute),
            *feature_attribute,
            user_attributes@,
            array_size,
            op,
        ),
{
    let uv = match find_attr(parent_attribute, feature_attribute, user_attributes) {
        Some(v) => v,
        None => {
            return true;
        },
    };
    let fd: Decimal = match &feature_attribute.value {
        GrowthBookAttributeValue::Int(i) => Decimal { m: *i, e: 0 },
        GrowthBookAttributeValue::Float(d) => *d,
        GrowthBookAttributeValue::String(fs) => match parse_stripped(fs.as_str()) {
            Some(n) => Decimal { m: n, e: 0 },
            None => {
                return false;
            },
        },
        _ => {
            return false;
        },
    };
    let nums: Vec<Decimal> = match uv {
        GrowthBookAttributeValue::Int(i) => {
            let mut v: Vec<Decimal> = Vec::new();
            v.push(Decimal { m: *i, e: 0 });
            proof {
                assert(v@ =~= seq![int_dec(*i)]);
            }
            v
        },
        GrowthBookAttributeValue::Float(d) => {
            let mut v: Vec<Decimal> = Vec::new();
            v.push(*d);
            proof {
                assert(v@ =~= seq![*d]);
            }
            v
        },
        GrowthBookAttributeValue::Array(arr) => {
            if array_size {
                let n: i64 = arr.len() as i64;
                let mut v: Vec<Decimal> = Vec::new();
                v.push(Decimal { m: n, e: 0 });
                proof {
                    assert(v@ =~= seq![int_dec(arr@.len() as i64)]);
                }
                v
            } else {
                let mut v: Vec<Decimal> = Vec::new();
                let mut i: usize = 0;
                proof {
                    assert(arr@.skip(0) =~= arr@);
                    assert(v@ + nums_of_array(arr@.skip(0)) =~= nums_of_array(arr@));
                }
                while i < arr.len()
                    invariant
                        i <= arr@.len(),
                        vals_wf(arr@),
                        nums_of_array(arr@) =~= v@ + nums_of_array(arr@.skip(i as int)),
                        forall|j: int| 0 <= j < v@.len() ==> (#[trigger] v@[j]).wf(),
                    decreases arr@.len() - i,
                {
                    proof {
                        assert(arr@.skip(i as int)[0] == arr@[i as int]);
                        assert(arr@.skip(i as int).drop_first() =~= arr@.skip(i + 1));
                        crate::model_public::lemma_vals_wf_pointwise(arr@);
                    }
                    match &arr[i] {
                        GrowthBookAttributeValue::Int(n) => {
                            proof {
                                assert(v@.push(int_dec(*n)) + nums_of_array(arr@.skip(i + 1)) =~= v@
                                    + (seq![int_dec(*n)] + nums_of_array(arr@.skip(i + 1))));
                            }
                            v.push(Decimal { m: *n, e: 0 });
                        },
                        GrowthBookAttributeValue::Float(d) => {
                            proof {
                                assert(v@.push(*d) + nums_of_array(arr@.skip(i + 1)) =~= v@ + (
                                seq![*d] + nums_of_array(arr@.skip(i + 1))));
                            }
                            v.push(*d);
                        },
                        _ => {
                            proof {
                                assert(v@ + (Seq::<Decimal>::empty() + nums_of_array(
                                    arr@.skip(i + 1),
                                )) =~= v@ + nums_of_array(arr@.skip(i + 1)));
                            }
                        },
                    }
                    i = i + 1;
                }
                proof {
                    assert(nums_of_array(arr@.skip(arr@.len() as int)) =~= Seq::<Decimal>::empty());
                    assert(v@ + Seq::<Decimal>::empty() =~= v@);
                }
                v
            }
        },
        GrowthBookAttributeValue::String(s) => {
            match parse_stripped(s.as_str()) {
                Some(n) => {
                    let mut v: Vec<Decimal> = Vec::new();
                    v.push(Decimal { m: n, e: 0 });
                    proof {
                        assert(v@ =~= seq![int_dec(n)]);
                    }
                    v
                },
                None => {
                    return false;
                },
            }
        },
        _ => {
            return false;
        },
    };
    proof {
        assert(spec_user_nums(*uv, array_size) == Some(nums@));
    }
    let mut i: usize = 0;
    proof {
        assert(nums@.skip(0) =~= nums@);
    }
    while i < nums.len()
        invariant
            i <= nums@.len(),
            fd.wf(),
            forall|j: int| 0 <= j < nums@.len() ==> (#[trigger] nums@[j]).wf(),
            spec_any_cmp(nums@, fd, op) == spec_any_cmp(nums@.skip(i as int), fd, op),
        decreases nums@.len() - i,
    {
        proof {
            assert(nums@.skip(i as int)[0] == nums@[i as int]);
            assert(nums@.skip(i as int).drop_first() =~= nums@.skip(i + 1));
        }
        if dec_cmp(op, &fd, &nums[i]) {
            return true;
        }
        i = i + 1;
    }
    proof {
        assert(nums@.skip(nums@.len() as int).len() == 0);
    }
    false
}

/// A string comparison, as [`spec_string_cond`] states it.
#[verifier::loop_isolation(false)]
fn string_condition_evaluate(
    parent_attribute: Option<&GrowthBookAttribute>,
    feature_attribute: &GrowthBookAttribute,
    user_attributes: &[GrowthBookAttribute],
    op: CmpOp,
) -> (r: bool)
    requires
        val_wf(feature_attribute.value),
        attrs_wf(user_attributes@),
    ensures
        r == spec_string_cond(
            parent_keys(parent_attribute),
            *feature_attribute,
            user_attributes@,
            op,
        ),
{
    match find_attr(parent_attribute, feature_attribute, user_attributes) {
        None => true,
        Some(uv) => {
            let fs = stringify_chars(&feature_attribute.value);
            match uv {
                GrowthBookAttributeValue::Array(arr) => {
                    let mut i: usize = 0;
                    proof {
                        assert(arr@.skip(0) =~= arr@);
                    }
                    while i < arr.len()
                        invariant
                            i <= arr@.len(),
                            vals_wf(arr@),
                            fs@ == stringify(feature_attribute.value),
                            spec_any_strcmp(arr@, fs@, op) == spec_any_strcmp(
                                arr@.skip(i as int),
                                fs@,
                                op,
                            ),
                        decreases arr@.len() - i,
                    {
                        proof {
                            assert(arr@.skip(i as int)[0] == arr@[i as int]);
                            assert(arr@.skip(i as int).drop_first() =~= arr@.skip(i + 1));
                            crate::model_public::lemma_vals_wf_pointwise(arr@);
                        }
                        let us = stringify_chars(&arr[i]);
                        if chars_cmp(op, &fs, &us) {
                            return true;
                        }
                        i = i + 1;
                    }
                    proof {
                        assert(arr@.skip(arr@.len() as int).len() == 0);
                    }
                    false
                },
                v => {
                    let us = stringify_chars(v);
                    chars_cmp(op, &fs, &us)
                },
            }
        },
    }
}

/// `$gt`, `$gte`, `$lt`, `$lte`, as [`spec_cmp_cond`] states them.
fn cmp_condition(
    parent_attribute: Option<&GrowthBookAttribute>,
    feature_attribute: &GrowthBookAttribute,
    user_attributes: &[GrowthBookAttribute],
    array_size: bool,
    op: CmpOp,
) -> (r: bool)
    requires
        val_wf(feature_attribute.value),
        attrs_wf(user_attributes@),
    ensures
        r == spec_cmp_cond(
            parent_keys(parent_attribute),
            *feature_attribute,
            user_attributes@,
            array_size,
            op,
        ),
{
    match &feature_attribute.value {
        GrowthBookAttributeValue::Int(_) => number_condition_evaluate(
            parent_attribute,
            feature_attribute,
            user_attributes,
            array_size,
            op,
        ),
        GrowthBookAttributeValue::Float(_) => number_condition_evaluate(
            parent_attribute,
            feature_attribute,
            user_attributes,
            array_size,
            op,
        ),
        GrowthBookAttributeValue::String(fs) => match parse_stripped(fs.as_str()) {
            Some(_) => number_condition_evaluate(
                parent_attribute,
                feature_attribute,
                user_attributes,
                array_size,
                op,
            ),
            None => string_condition_evaluate(
                parent_attribute,
                feature_attribute,
                user_attributes,
                op,
            ),
        },
        _ => string_condition_evaluate(parent_attribute, feature_attribute, user_attributes, op),
    }
}

/// The `$exists` test, as [`spec_exists_cond`] states it.
fn exists_condition(
    parent_attribute: Option<&GrowthBookAttribute>,
    feature_attribute: &GrowthBookAttribute,
    user_attributes: &[GrowthBookAttribute],
) -> (r: bool)
    requires
        val_wf(feature_attribute.value),
        attrs_wf(user_attributes@),
    ensures
        r == spec_exists_cond(parent_keys(parent_attribute), *feature_attribute, user_attributes@),
{
    match &feature_attribute.value {
        GrowthBookAttributeValue::Bool(b) => {
            let found = find_attr(parent_attribute, feature_attribute, user_attributes);
            match found {
                Some(_) => *b,
                None => !*b,
            }
        },
        _ => true,
    }
}

/// The `$regex` test, as [`spec_regex_cond`] states it.
#[verifier::loop_isolation(false)]
fn regex_condition(
    parent_attribute: Option<&GrowthBookAttribute>,
    feature_attribute: &GrowthBookAttribute,
    user_attributes: &[GrowthBookAttribute],
) -> (r: bool)
    requires
        val_wf(feature_attribute.value),
        attrs_wf(user_attributes@),
    ensures
        r == spec_regex_cond(parent_keys(parent_attribute), *feature_attribute, user_attributes@),
{
    match &feature_attribute.value {
        GrowthBookAttributeValue::String(p) => {
            match find_attr(parent_attribute, feature_attribute, user_attributes) {
                Some(GrowthBookAttributeValue::Array(arr)) => {
                    let mut i: usize = 0;
                    let mut compiled = false;
                    proof {
                        assert(arr@.skip(0) =~= arr@);
                    }
                    while i < arr.len()
                        invariant
                            i <= arr@.len(),
                            vals_wf(arr@),
                            i > 0 ==> compiled == regex_compiles(p@),
                            compiled ==> regex_compiles(p@),
                            spec_any_regex(arr@, p@) == spec_any_regex(arr@.skip(i as int), p@),
                        decreases arr@.len() - i,
                    {
                        proof {
                            assert(arr@.skip(i as int)[0] == arr@[i as int]);
                            assert(arr@.skip(i as int).drop_first() =~= arr@.skip(i + 1));
                            crate::model_public::lemma_vals_wf_pointwise(arr@);
                        }
                        let text = arr[i].to_string();
                        match regex_match(p.as_str(), text.as_str()) {
                            Some(m) => {
                                compiled = true;
                                if m {
                                    return true;
                                }
                            },
                            None => {
                                return false;
                            },
                        }
                        i = i + 1;
                    }
                    proof {
                        assert(arr@.skip(arr@.len() as int).len() == 0);
                    }
                    if arr.len() == 0 {
                        // An empty array matches nothing, but an invalid
                        // pattern must still fail: compile once to learn.
                        match regex_match(p.as_str(), "") {
                            Some(_) => false,
                            None => false,
                        }
                    } else {
                        false
                    }
                },
                Some(v) => {
                    let text = v.to_string();
                    match regex_match(p.as_str(), text.as_str()) {
                        Some(m) => m,
                        None => false,
                    }
                },
                None => {
                    // The pattern's validity still decides nothing here:
                    // a missing attribute fails either way.
                    false
                },
            }
        },
        _ => true,
    }
}

/// The `$type` test, as [`spec_type_cond`] states it.
fn type_condition(
    parent_attribute: Option<&GrowthBookAttribute>,
    feature_attribute: &GrowthBookAttribute,
    user_attributes: &[GrowthBookAttribute],
) -> (r: bool)
    requires
        val_wf(feature_attribute.value),
        attrs_wf(user_attributes@),
    ensures
        r == spec_type_cond(parent_keys(parent_attribute), *feature_attribute, user_attributes@),
{
    match &feature_attribute.value {
        GrowthBookAttributeValue::String(t) => {
            match find_attr(parent_attribute, feature_attribute, user_attributes) {
                Some(uv) => match uv {
                    GrowthBookAttributeValue::String(_) => crate::model_public::str_eq(
                        t.as_str(),
                        "string",
                    ),
                    GrowthBookAttributeValue::Int(_) => crate::model_public::str_eq(
                        t.as_str(),
                        "number",
                    ),
                    GrowthBookAttributeValue::Float(_) => crate::model_public::str_eq(
                        t.as_str(),
                        "number",
                    ),
                    GrowthBookAttributeValue::Bool(_) => crate::model_public::str_eq(
                        t.as_str(),
                        "boolean",
                    ),
                    GrowthBookAttributeValue::Array(_) => crate::model_public::str_eq(
                        t.as_str(),
                        "array",
                    ),
                    GrowthBookAttributeValue::Object(fields) => {
                        if fields.len() == 0 {
                            crate::model_public::str_eq(t.as_str(), "null")
                        } else {
                            crate::model_public::str_eq(t.as_str(), "object")
                        }
                    },
                    GrowthBookAttributeValue::Empty => crate::model_public::str_eq(
                        t.as_str(),
                        "null",
                    ),
                },
                None => crate::model_public::str_eq(t.as_str(), "null"),
            }
        },
        _ => false,
    }
}

/// The `$all` test, as [`spec_all_cond`] states it.
#[verifier::loop_isolation(false)]
fn all_condition(
    parent_attribute: Option<&GrowthBookAttribute>,
    feature_attribute: &GrowthBookAttribute,
    user_attributes: &[GrowthBookAttribute],
) -> (r: bool)
    requires
        val_wf(feature_attribute.value),
        attrs_wf(user_attributes@),
    ensures
        r == spec_all_cond(parent_keys(parent_attribute), *feature_attribute, user_attributes@),
{
    match &feature_attribute.value {
        GrowthBookAttributeValue::Array(fvals) => {
            match find_attr(parent_attribute, feature_attribute, user_attributes) {
                Some(GrowthBookAttributeValue::Array(uvals)) => {
                    let mut i: usize = 0;
                    proof {
                        assert(fvals@.skip(0) =~= fvals@);
                    }
                    while i < fvals.len()
                        invariant
                            i <= fvals@.len(),
                            spec_all_contained(fvals@, uvals@) == spec_all_contained(
                                fvals@.skip(i as int),
                                uvals@,
                            ),
                        decreases fvals@.len() - i,
                    {
                        proof {
                            assert(fvals@.skip(i as int)[0] == fvals@[i as int]);
                            assert(fvals@.skip(i as int).drop_first() =~= fvals@.skip(i + 1));
                        }
                        if !any_value_eq(uvals, &fvals[i]) {
                            return false;
                        }
                        i = i + 1;
                    }
                    proof {
                        assert(fvals@.skip(fvals@.len() as int).len() == 0);
                    }
                    true
                },
                _ => false,
            }
        },
        _ => false,
    }
}

/// The `$size` test with an integer operand.
fn size_int_condition(
    parent_attribute: Option<&GrowthBookAttribute>,
    feature_attribute: &GrowthBookAttribute,
    n: i64,
    user_attributes: &[GrowthBookAttribute],
) -> (r: bool)
    requires
        attrs_wf(user_attributes@),
    ensures
        r == spec_size_int_cond(
            parent_keys(parent_attribute),
            *feature_attribute,
            n,
            user_attributes@,
        ),
{
    match find_attr(parent_attribute, feature_attribute, user_attributes) {
        Some(GrowthBookAttributeValue::Array(arr)) => {
            if n >= 0 {
                (n as u64) == (arr.len() as u64)
            } else {
                false
            }
        },
        _ => false,
    }
}

/// A version comparison, as [`spec_version_cond`] states it.
fn version_condition_evaluate(
    parent_attribute: Option<&GrowthBookAttribute>,
    feature_attribute: &GrowthBookAttribute,
    user_attributes: &[GrowthBookAttribute],
    op: CmpOp,
) -> (r: bool)
    requires
        val_wf(feature_attribute.value),
        attrs_wf(user_attributes@),
    ensures
        r == spec_version_cond(
            parent_keys(parent_attribute),
            *feature_attribute,
            user_attributes@,
            op,
        ),
{
    match find_attr(parent_attribute, feature_attribute, user_attributes) {
        Some(GrowthBookAttributeValue::String(uvs)) => {
            let fstr = feature_attribute.value.to_string();
            let fnorm = crate::version::normalize_version(fstr.as_str());
            let unorm = crate::version::normalize_version(uvs.as_str());
            let fc = crate::version::chars_of(fnorm.as_str());
            let uc = crate::version::chars_of(unorm.as_str());
            chars_cmp(op, &fc, &uc)
        },
        _ => true,
    }
}

/// One condition attribute, as [`spec_is_on`] states it.
#[verifier::loop_isolation(false)]
pub fn is_on(
    parent_attribute: Option<&GrowthBookAttribute>,
    feature_attribute: &GrowthBookAttribute,
    user_attributes: &[GrowthBookAttribute],
    array_size: bool,
) -> (r: bool)
    requires
        val_wf(feature_attribute.value),
        attrs_wf(user_attributes@),
    ensures
        r == spec_is_on(
            parent_keys(parent_attribute),
            *feature_attribute,
            user_attributes@,
            array_size,
        ),
    decreases val_size(feature_attribute.value), 0int, 0int,
{
    let key = feature_attribute.key.as_str();
    if crate::model_public::str_eq(key, "$not") {
        match &feature_attribute.value {
            GrowthBookAttributeValue::Object(fields) => !eval_all_attrs(
                parent_attribute,
                fields.as_slice(),
                user_attributes,
                false,
            ),
            _ => false,
        }
    } else if crate::model_public::str_eq(key, "$ne") {
        ne_condition(parent_attribute, feature_attribute, user_attributes)
    } else if crate::model_public::str_eq(key, "$and") {
        match &feature_attribute.value {
            GrowthBookAttributeValue::Array(items) => eval_and_items(
                items.as_slice(),
                user_attributes,
            ),
            _ => false,
        }
    } else if crate::model_public::str_eq(key, "$nor") {
        match &feature_attribute.value {
            GrowthBookAttributeValue::Array(items) => {
                if items.len() == 0 {
                    false
                } else {
                    !eval_or_items(items.as_slice(), user_attributes)
                }
            },
            GrowthBookAttributeValue::Empty => false,
            _ => true,
        }
    } else if crate::model_public::str_eq(key, "$or") {
        match &feature_attribute.value {
            GrowthBookAttributeValue::Array(items) => {
                if items.len() == 0 {
                    true
                } else {
                    eval_or_items(items.as_slice(), user_attributes)
                }
            },
            GrowthBookAttributeValue::Empty => true,
            _ => false,
        }
    } else if crate::model_public::str_eq(key, "$in") {
        in_condition(parent_attribute, feature_attribute, user_attributes)
    } else if crate::model_public::str_eq(key, "$nin") {
        nin_condition(parent_attribute, feature_attribute, user_attributes)
    } else if crate::model_public::str_eq(key, "$gt") {
        cmp_condition(parent_attribute, feature_attribute, user_attributes, array_size, CmpOp::Gt)
    } else if crate::model_public::str_eq(key, "$gte") {
        cmp_condition(parent_attribute, feature_attribute, user_attributes, array_size, CmpOp::Gte)
    } else if crate::model_public::str_eq(key, "$lt") {
        cmp_condition(parent_attribute, feature_attribute, user_attributes, array_size, CmpOp::Lt)
    } else if crate::model_public::str_eq(key, "$lte") {
        cmp_condition(parent_attribute, feature_attribute, user_attributes, array_size, CmpOp::Lte)
    } else if crate::model_public::str_eq(key, "$eq") {
        eq_condition(parent_attribute, feature_attribute, user_attributes)
    } else if crate::model_public::str_eq(key, "$exists") {
        exists_condition(parent_attribute, feature_attribute, user_attributes)
    } else if crate::model_public::str_eq(key, "$regex") {
        regex_condition(parent_attribute, feature_attribute, user_attributes)
    } else if crate::model_public::str_eq(key, "$type") {
        type_condition(parent_attribute, feature_attribute, user_attributes)
    } else if crate::model_public::str_eq(key, "$size") {
        match &feature_attribute.value {
            GrowthBookAttributeValue::Int(n) => size_int_condition(
                parent_attribute,
                feature_attribute,
                *n,
                user_attributes,
            ),
            GrowthBookAttributeValue::Object(fields) => eval_all_attrs(
                parent_attribute,
                fields.as_slice(),
                user_attributes,
                true,
            ),
            _ => false,
        }
    } else if crate::model_public::str_eq(key, "$all") {
        all_condition(parent_attribute, feature_attribute, user_attributes)
    } else if crate::model_public::str_eq(key, "$vgt") {
        version_condition_evaluate(parent_attribute, feature_attribute, user_attributes, CmpOp::Gt)
    } else if crate::model_public::str_eq(key, "$vgte") {
        version_condition_evaluate(parent_attribute, feature_attribute, user_attributes, CmpOp::Gte)
    } else if crate::model_public::str_eq(key, "$vlt") {
        version_condition_evaluate(parent_attribute, feature_attribute, user_attributes, CmpOp::Lt)
    } else if crate::model_public::str_eq(key, "$vlte") {
        version_condition_evaluate(parent_attribute, feature_attribute, user_attributes, CmpOp::Lte)
    } else if crate::model_public::str_eq(key, "$veq") {
        version_condition_evaluate(parent_attribute, feature_attribute, user_attributes, CmpOp::Eq)
    } else if crate::model_public::str_eq(key, "$vne") {
        version_condition_evaluate(parent_attribute, feature_attribute, user_attributes, CmpOp::Ne)
    } else if crate::model_public::str_eq(key, "$elemMatch") {
        match &feature_attribute.value {
            GrowthBookAttributeValue::Object(fields) => {
                let mut all_dollar = true;
                let mut fi: usize = 0;
                while fi < fields.len() && all_dollar
                    invariant
                        fi <= fields@.len(),
                        forall|j: int| 0 <= j < fi ==> starts_dollar((#[trigger] fields@[j]).key@),
                        !all_dollar ==> fi < fields@.len() && !starts_dollar(
                            fields@[fi as int].key@,
                        ),
                    decreases fields@.len() - fi, if all_dollar {
                        1int
                    } else {
                        0int
                    },
                {
                    let k = fields[fi].key.as_str();
                    let n = k.unicode_len();
                    if !(n > 0 && k.get_char(0) == '$') {
                        all_dollar = false;
                    } else {
                        fi = fi + 1;
                    }
                }
                proof {
                    if all_dollar {
                        assert(all_dollar_keys(fields@));
                    } else {
                        assert(!all_dollar_keys(fields@));
                    }
                }
                match find_attr(parent_attribute, feature_attribute, user_attributes) {
                    Some(GrowthBookAttributeValue::Array(elems)) => {
                        if all_dollar {
                            eval_elem_ops(fields.as_slice(), elems.as_slice())
                        } else {
                            eval_elem_sub(fields.as_slice(), elems.as_slice())
                        }
                    },
                    _ => false,
                }
            },
            _ => false,
        }
    } else {
        match &feature_attribute.value {
            GrowthBookAttributeValue::String(_) => {
                let n = key.unicode_len();
                if n > 0 && key.get_char(0) == '$' {
                    false
                } else {
                    eq_condition(parent_attribute, feature_attribute, user_attributes)
                }
            },
            GrowthBookAttributeValue::Int(_) => eq_condition(
                parent_attribute,
                feature_attribute,
                user_attributes,
            ),
            GrowthBookAttributeValue::Float(_) => eq_condition(
                parent_attribute,
                feature_attribute,
                user_attributes,
            ),
            GrowthBookAttributeValue::Bool(_) => eq_condition(
                parent_attribute,
                feature_attribute,
                user_attributes,
            ),
            GrowthBookAttributeValue::Array(fvals) => {
                match find_attr(parent_attribute, feature_attribute, user_attributes) {
                    Some(GrowthBookAttributeValue::Array(uvals)) => {
                        proof {
                            crate::model_public::lemma_vals_eq_pointwise(fvals@, uvals@);
                        }
                        if fvals.len() != uvals.len() {
                            false
                        } else {
                            let mut i: usize = 0;
                            while i < fvals.len()
                                invariant
                                    fvals@.len() == uvals@.len(),
                                    i <= fvals@.len(),
                                    forall|j: int|
                                        0 <= j < i ==> spec_value_eq(fvals@[j], uvals@[j]),
                                decreases fvals@.len() - i,
                            {
                                if !crate::model_public::value_eq(&fvals[i], &uvals[i]) {
                                    proof {
                                        crate::model_public::lemma_vals_eq_pointwise(
                                            fvals@,
                                            uvals@,
                                        );
                                    }
                                    return false;
                                }
                                i = i + 1;
                            }
                            proof {
                                crate::model_public::lemma_vals_eq_pointwise(fvals@, uvals@);
                            }
                            true
                        }
                    },
                    _ => false,
                }
            },
            GrowthBookAttributeValue::Object(fields) => {
                if fields.len() == 0 {
                    match find_attr(parent_attribute, feature_attribute, user_attributes) {
                        Some(_) => false,
                        None => true,
                    }
                } else {
                    let parent = feature_attribute.aggregate_key(parent_attribute);
                    eval_all_attrs(
                        Some(&parent),
                        fields.as_slice(),
                        user_attributes,
                        false,
                    )
                }
            },
            GrowthBookAttributeValue::Empty => {
                match find_attr(parent_attribute, feature_attribute, user_attributes) {
                    Some(v) => matches!(v, GrowthBookAttributeValue::Empty),
                    None => true,
                }
            },
        }
    }
}

/// Some array element, as its own bag, satisfies the sub-condition, as
/// [`spec_any_elem_cond`] states it.
#[verifier::loop_isolation(false)]
fn eval_elem_sub(fields: &[GrowthBookAttribute], elems: &[GrowthBookAttributeValue]) -> (r: bool)
    requires
        attrs_wf(fields@),
        vals_wf(elems@),
    ensures
        r == spec_any_elem_cond(fields@, elems@),
    decreases attrs_size(fields@), 1int, 0int,
{
    let mut i: usize = 0;
    proof {
        assert(elems@.skip(0) =~= elems@);
    }
    while i < elems.len()
        invariant
            i <= elems@.len(),
            spec_any_elem_cond(fields@, elems@) == spec_any_elem_cond(
                fields@,
                elems@.skip(i as int),
            ),
        decreases elems@.len() - i,
    {
        proof {
            assert(elems@.skip(i as int)[0] == elems@[i as int]);
            assert(elems@.skip(i as int).drop_first() =~= elems@.skip(i + 1));
            crate::model_public::lemma_vals_wf_pointwise(elems@);
        }
        match &elems[i] {
            GrowthBookAttributeValue::Object(ef) => {
                if eval_all_attrs(None, fields, ef.as_slice(), false) {
                    return true;
                }
            },
            _ => {},
        }
        i = i + 1;
    }
    proof {
        assert(elems@.skip(elems@.len() as int).len() == 0);
    }
    false
}

/// Some array element satisfies every operator of an operator-object, as
/// [`spec_any_elem_ops`] states it.
#[verifier::loop_isolation(false)]
fn eval_elem_ops(fields: &[GrowthBookAttribute], elems: &[GrowthBookAttributeValue]) -> (r: bool)
    requires
        attrs_wf(fields@),
        vals_wf(elems@),
    ensures
        r == spec_any_elem_ops(fields@, elems@),
    decreases attrs_size(fields@), 1int, 0int,
{
    let mut i: usize = 0;
    proof {
        assert(elems@.skip(0) =~= elems@);
    }
    while i < elems.len()
        invariant
            i <= elems@.len(),
            spec_any_elem_ops(fields@, elems@) == spec_any_elem_ops(
                fields@,
                elems@.skip(i as int),
            ),
        decreases elems@.len() - i,
    {
        proof {
            assert(elems@.skip(i as int)[0] == elems@[i as int]);
            assert(elems@.skip(i as int).drop_first() =~= elems@.skip(i + 1));
            crate::model_public::lemma_vals_wf_pointwise(elems@);
        }
        let wrap_parent = GrowthBookAttribute {
            key: "value".to_owned(),
            value: GrowthBookAttributeValue::Empty,
        };
        let mut bag: Vec<GrowthBookAttribute> = Vec::new();
        bag.push(GrowthBookAttribute { key: "value".to_owned(), value: elems[i].deep_clone() });
        proof {
            reveal_strlit("value");
            assert(bag@[0].key@ == "value"@);
            assert(exists|w: String| (#[trigger] w@) == "value"@);
            assert(wrap_value_key()@ == "value"@);
            let sb = spec_wrapped_bag(elems@[i as int]);
            assert(crate::model_public::spec_attrs_eq(bag@, sb)) by {
                assert(sb[0] == GrowthBookAttribute {
                    key: wrap_value_key(),
                    value: elems@[i as int],
                });
                assert(spec_value_eq(bag@[0].value, elems@[i as int]));
                assert(bag@.drop_first() =~= Seq::<GrowthBookAttribute>::empty());
                assert(sb.drop_first() =~= Seq::<GrowthBookAttribute>::empty());
                assert(crate::model_public::spec_attrs_eq(bag@.drop_first(), sb.drop_first()));
            }
            lemma_all_attrs_respects(Some(wrap_value_key()@), fields@, bag@, sb, false);
            assert(crate::model_public::attrs_wf(bag@)) by {
                assert(val_wf(bag@[0].value));
                assert(bag@.drop_first() =~= Seq::<GrowthBookAttribute>::empty());
                assert(crate::model_public::attrs_wf(bag@.drop_first()));
            }
        }
        if eval_all_attrs(Some(&wrap_parent), fields, bag.as_slice(), false) {
            return true;
        }
        i = i + 1;
    }
    proof {
        assert(elems@.skip(elems@.len() as int).len() == 0);
    }
    false
}

/// All condition attributes hold, as [`spec_all_attrs`] states it.
fn eval_all_attrs(
    parent_attribute: Option<&GrowthBookAttribute>,
    conds: &[GrowthBookAttribute],
    user_attributes: &[GrowthBookAttribute],
    array_size: bool,
) -> (r: bool)
    requires
        attrs_wf(conds@),
        attrs_wf(user_attributes@),
    ensures
        r == spec_all_attrs(
            parent_keys(parent_attribute),
            conds@,
            user_attributes@,
            array_size,
        ),
    decreases attrs_size(conds@), 0int, 0int,
{
    let mut i: usize = 0;
    proof {
        assert(conds@.skip(0) =~= conds@);
    }
    while i < conds.len()
        invariant
            i <= conds@.len(),
            attrs_wf(conds@),
            attrs_wf(user_attributes@),
            spec_all_attrs(
                parent_keys(parent_attribute),
                conds@,
                user_attributes@,
                array_size,
            ) == spec_all_attrs(
                parent_keys(parent_attribute),
                conds@.skip(i as int),
                user_attributes@,
                array_size,
            ),
        decreases conds@.len() - i,
    {
        proof {
            assert(conds@.skip(i as int)[0] == conds@[i as int]);
            assert(conds@.skip(i as int).drop_first() =~= conds@.skip(i + 1));
            crate::model_public::lemma_attrs_wf_pointwise(conds@);
            crate::model_public::lemma_attrs_size_index(conds@, i as int);
        }
        if !is_on(parent_attribute, &conds[i], user_attributes, array_size) {
            return false;
        }
        i = i + 1;
    }
    proof {
        assert(conds@.skip(conds@.len() as int).len() == 0);
    }
    true
}

/// Every `$and` item is an object whose attributes all hold, as
/// [`spec_and_items`] states it.
fn eval_and_items(
    items: &[GrowthBookAttributeValue],
    user_attributes: &[GrowthBookAttribute],
) -> (r: bool)
    requires
        vals_wf(items@),
        attrs_wf(user_attributes@),
    ensures
        r == spec_and_items(items@, user_attributes@),
    decreases vals_size(items@), 0int, 0int,
{
    let mut i: usize = 0;
    proof {
        assert(items@.skip(0) =~= items@);
    }
    while i < items.len()
        invariant
            i <= items@.len(),
            vals_wf(items@),
            attrs_wf(user_attributes@),
            spec_and_items(items@, user_attributes@) == spec_and_items(
                items@.skip(i as int),
                user_attributes@,
            ),
        decreases items@.len() - i,
    {
        proof {
            assert(items@.skip(i as int)[0] == items@[i as int]);
            assert(items@.skip(i as int).drop_first() =~= items@.skip(i + 1));
            crate::model_public::lemma_vals_wf_pointwise(items@);
            crate::model_public::lemma_vals_size_index(items@, i as int);
        }
        match &items[i] {
            GrowthBookAttributeValue::Object(fields) => {
                if !eval_all_attrs(None, fields.as_slice(), user_attributes, false) {
                    return false;
                }
            },
            _ => {
                return false;
            },
        }
        i = i + 1;
    }
    proof {
        assert(items@.skip(items@.len() as int).len() == 0);
    }
    true
}

proof fn lemma_lookup_respects(
    bag_a: Seq<GrowthBookAttribute>,
    bag_b: Seq<GrowthBookAttribute>,
    key: Seq<char>,
)
    requires
        crate::model_public::spec_attrs_eq(bag_a, bag_b),
    ensures
        match (
            crate::extensions::spec_lookup(bag_a, key),
            crate::extensions::spec_lookup(bag_b, key),
        ) {
            (Some(va), Some(vb)) => spec_value_eq(va, vb),
            (None, None) => true,
            _ => false,
        },
    decreases bag_a.len(),
{
    if bag_a.len() > 0 {
        if bag_a[0].key@ == key {
        } else {
            lemma_lookup_respects(bag_a.drop_first(), bag_b.drop_first(), key);
        }
    }
}

/// Dotted-path lookup respects structural equality of bags.
pub proof fn lemma_find_value_respects(
    bag_a: Seq<GrowthBookAttribute>,
    bag_b: Seq<GrowthBookAttribute>,
    key: Seq<char>,
)
    requires
        crate::model_public::spec_attrs_eq(bag_a, bag_b),
    ensures
        match (spec_find_value(bag_a, key), spec_find_value(bag_b, key)) {
            (Some(va), Some(vb)) => spec_value_eq(va, vb),
            (None, None) => true,
            _ => false,
        },
    decreases key.len(),
{
    let i = crate::extensions::dot_idx(key) as int;
    if i >= key.len() {
        lemma_lookup_respects(bag_a, bag_b, key);
    } else {
        lemma_lookup_respects(bag_a, bag_b, key.take(i));
        match (
            crate::extensions::spec_lookup(bag_a, key.take(i)),
            crate::extensions::spec_lookup(bag_b, key.take(i)),
        ) {
            (
                Some(GrowthBookAttributeValue::Object(fa)),
                Some(GrowthBookAttributeValue::Object(fb)),
            ) => {
                lemma_find_value_respects(fa@, fb@, key.skip(i + 1));
            },
            _ => {},
        }
    }
}

proof fn lemma_any_value_eq_respects(
    arr_a: Seq<GrowthBookAttributeValue>,
    arr_b: Seq<GrowthBookAttributeValue>,
    v: GrowthBookAttributeValue,
)
    requires
        crate::model_public::spec_vals_eq(arr_a, arr_b),
    ensures
        spec_any_value_eq(arr_a, v) == spec_any_value_eq(arr_b, v),
    decreases arr_a.len(),
{
    if arr_a.len() > 0 {
        crate::model_public::lemma_value_eq_sym(arr_a[0], arr_b[0]);
        crate::model_public::lemma_value_eq_sym(arr_a[0], v);
        crate::model_public::lemma_value_eq_sym(arr_b[0], v);
        if spec_value_eq(arr_a[0], v) {
            crate::model_public::lemma_value_eq_trans(arr_b[0], arr_a[0], v);
        }
        if spec_value_eq(arr_b[0], v) {
            crate::model_public::lemma_value_eq_trans(arr_a[0], arr_b[0], v);
        }
        lemma_any_value_eq_respects(arr_a.drop_first(), arr_b.drop_first(), v);
    }
}

proof fn lemma_any_str_eq_respects(
    arr_a: Seq<GrowthBookAttributeValue>,
    arr_b: Seq<GrowthBookAttributeValue>,
    v: GrowthBookAttributeValue,
)
    requires
        crate::model_public::spec_vals_eq(arr_a, arr_b),
    ensures
        spec_any_str_eq(arr_a, v) == spec_any_str_eq(arr_b, v),
    decreases arr_a.len(),
{
    if arr_a.len() > 0 {
        crate::model_public::lemma_stringify_respects(arr_a[0], arr_b[0]);
        lemma_any_str_eq_respects(arr_a.drop_first(), arr_b.drop_first(), v);
    }
}

proof fn lemma_in_item_respects(
    fitem: GrowthBookAttributeValue,
    uv_a: GrowthBookAttributeValue,
    uv_b: GrowthBookAttributeValue,
)
    requires
        spec_value_eq(uv_a, uv_b),
    ensures
        spec_in_item(fitem, uv_a) == spec_in_item(fitem, uv_b),
{
    match (uv_a, uv_b) {
        (GrowthBookAttributeValue::Array(xa), GrowthBookAttributeValue::Array(xb)) => {
            lemma_any_str_eq_respects(xa@, xb@, fitem);
        },
        _ => {
            crate::model_public::lemma_stringify_respects(uv_a, uv_b);
        },
    }
}

proof fn lemma_any_in_respects(
    farr: Seq<GrowthBookAttributeValue>,
    uv_a: GrowthBookAttributeValue,
    uv_b: GrowthBookAttributeValue,
)
    requires
        spec_value_eq(uv_a, uv_b),
    ensures
        spec_any_in(farr, uv_a) == spec_any_in(farr, uv_b),
        spec_none_in(farr, uv_a) == spec_none_in(farr, uv_b),
    decreases farr.len(),
{
    if farr.len() > 0 {
        lemma_in_item_respects(farr[0], uv_a, uv_b);
        lemma_any_in_respects(farr.drop_first(), uv_a, uv_b);
    }
}

proof fn lemma_all_contained_respects(
    fv: Seq<GrowthBookAttributeValue>,
    uv_a: Seq<GrowthBookAttributeValue>,
    uv_b: Seq<GrowthBookAttributeValue>,
)
    requires
        crate::model_public::spec_vals_eq(uv_a, uv_b),
    ensures
        spec_all_contained(fv, uv_a) == spec_all_contained(fv, uv_b),
    decreases fv.len(),
{
    if fv.len() > 0 {
        lemma_any_value_eq_respects(uv_a, uv_b, fv[0]);
        lemma_all_contained_respects(fv.drop_first(), uv_a, uv_b);
    }
}

proof fn lemma_any_regex_respects(
    arr_a: Seq<GrowthBookAttributeValue>,
    arr_b: Seq<GrowthBookAttributeValue>,
    p: Seq<char>,
)
    requires
        crate::model_public::spec_vals_eq(arr_a, arr_b),
    ensures
        spec_any_regex(arr_a, p) == spec_any_regex(arr_b, p),
    decreases arr_a.len(),
{
    if arr_a.len() > 0 {
        crate::model_public::lemma_stringify_respects(arr_a[0], arr_b[0]);
        lemma_any_regex_respects(arr_a.drop_first(), arr_b.drop_first(), p);
    }
}

proof fn lemma_any_strcmp_respects(
    arr_a: Seq<GrowthBookAttributeValue>,
    arr_b: Seq<GrowthBookAttributeValue>,
    fs: Seq<char>,
    op: CmpOp,
)
    requires
        crate::model_public::spec_vals_eq(arr_a, arr_b),
    ensures
        spec_any_strcmp(arr_a, fs, op) == spec_any_strcmp(arr_b, fs, op),
    decreases arr_a.len(),
{
    if arr_a.len() > 0 {
        crate::model_public::lemma_stringify_respects(arr_a[0], arr_b[0]);
        lemma_any_strcmp_respects(arr_a.drop_first(), arr_b.drop_first(), fs, op);
    }
}

proof fn lemma_nums_respects(
    arr_a: Seq<GrowthBookAttributeValue>,
    arr_b: Seq<GrowthBookAttributeValue>,
)
    requires
        crate::model_public::spec_vals_eq(arr_a, arr_b),
    ensures
        nums_of_array(arr_a) == nums_of_array(arr_b),
    decreases arr_a.len(),
{
    if arr_a.len() > 0 {
        assert(spec_value_eq(arr_a[0], arr_b[0]));
        match (arr_a[0], arr_b[0]) {
            (GrowthBookAttributeValue::Int(ia), GrowthBookAttributeValue::Int(ib)) => {
                assert(ia == ib);
            },
            (GrowthBookAttributeValue::Float(da), GrowthBookAttributeValue::Float(db)) => {
                assert(da.m == db.m && da.e == db.e);
                assert(da == db);
            },
            _ => {},
        }
        lemma_nums_respects(arr_a.drop_first(), arr_b.drop_first());
    }
}

proof fn lemma_user_nums_respects(
    uv_a: GrowthBookAttributeValue,
    uv_b: GrowthBookAttributeValue,
    array_size: bool,
)
    requires
        spec_value_eq(uv_a, uv_b),
    ensures
        spec_user_nums(uv_a, array_size) == spec_user_nums(uv_b, array_size),
{
    match (uv_a, uv_b) {
        (GrowthBookAttributeValue::Array(xa), GrowthBookAttributeValue::Array(xb)) => {
            if !array_size {
                lemma_nums_respects(xa@, xb@);
            }
        },
        _ => {},
    }
}

/// Condition evaluation respects structural equality of attribute bags:
/// two bags with equal keys and structurally equal values decide every
/// condition the same way.
pub proof fn lemma_is_on_respects(
    parent: Option<Seq<char>>,
    fa: GrowthBookAttribute,
    bag_a: Seq<GrowthBookAttribute>,
    bag_b: Seq<GrowthBookAttribute>,
    array_size: bool,
)
    requires
        crate::model_public::spec_attrs_eq(bag_a, bag_b),
    ensures
        spec_is_on(parent, fa, bag_a, array_size) == spec_is_on(parent, fa, bag_b, array_size),
    decreases val_size(fa.value), 1int, 0int,
{
    let key = lookup_key(parent, fa);
    lemma_find_value_respects(bag_a, bag_b, key);
    let fv = (spec_find_value(bag_a, key), spec_find_value(bag_b, key));
    if fa.key@ == "$not"@ {
        match fa.value {
            GrowthBookAttributeValue::Object(fields) => {
                lemma_all_attrs_respects(parent, fields@, bag_a, bag_b, false);
            },
            _ => {},
        }
    } else if fa.key@ == "$ne"@ {
        match fv {
            (Some(va), Some(vb)) => {
                match (va, vb) {
                    (GrowthBookAttributeValue::Array(xa), GrowthBookAttributeValue::Array(xb)) => {
                        lemma_any_value_eq_respects(xa@, xb@, fa.value);
                    },
                    _ => {
                        crate::model_public::lemma_value_eq_sym(va, vb);
                        crate::model_public::lemma_value_eq_sym(va, fa.value);
                        crate::model_public::lemma_value_eq_sym(vb, fa.value);
                        if spec_value_eq(va, fa.value) {
                            crate::model_public::lemma_value_eq_trans(vb, va, fa.value);
                        }
                        if spec_value_eq(vb, fa.value) {
                            crate::model_public::lemma_value_eq_trans(va, vb, fa.value);
                        }
                    },
                }
            },
            _ => {},
        }
    } else if fa.key@ == "$and"@ {
        match fa.value {
            GrowthBookAttributeValue::Array(items) => {
                lemma_and_items_respects(items@, bag_a, bag_b);
            },
            _ => {},
        }
    } else if fa.key@ == "$nor"@ {
        match fa.value {
            GrowthBookAttributeValue::Array(items) => {
                lemma_or_items_respects(items@, bag_a, bag_b);
            },
            _ => {},
        }
    } else if fa.key@ == "$or"@ {
        match fa.value {
            GrowthBookAttributeValue::Array(items) => {
                lemma_or_items_respects(items@, bag_a, bag_b);
            },
            _ => {},
        }
    } else if fa.key@ == "$in"@ || fa.key@ == "$nin"@ {
        match fv {
            (Some(va), Some(vb)) => {
                match fa.value {
                    GrowthBookAttributeValue::Array(farr) => {
                        lemma_any_in_respects(farr@, va, vb);
                    },
                    _ => {},
                }
            },
            _ => {},
        }
    } else if fa.key@ == "$gt"@ || fa.key@ == "$gte"@ || fa.key@ == "$lt"@ || fa.key@ == "$lte"@ {
        match fv {
            (Some(va), Some(vb)) => {
                lemma_user_nums_respects(va, vb, array_size);
                crate::model_public::lemma_stringify_respects(va, vb);
                match (va, vb) {
                    (GrowthBookAttributeValue::Array(xa), GrowthBookAttributeValue::Array(xb)) => {
                        lemma_any_strcmp_respects(xa@, xb@, stringify(fa.value), CmpOp::Gt);
                        lemma_any_strcmp_respects(xa@, xb@, stringify(fa.value), CmpOp::Gte);
                        lemma_any_strcmp_respects(xa@, xb@, stringify(fa.value), CmpOp::Lt);
                        lemma_any_strcmp_respects(xa@, xb@, stringify(fa.value), CmpOp::Lte);
                    },
                    _ => {},
                }
            },
            _ => {},
        }
    } else if fa.key@ == "$eq"@ {
        match fv {
            (Some(va), Some(vb)) => {
                match (va, vb) {
                    (GrowthBookAttributeValue::Array(xa), GrowthBookAttributeValue::Array(xb)) => {
                        lemma_any_value_eq_respects(xa@, xb@, fa.value);
                    },
                    _ => {
                        crate::model_public::lemma_stringify_respects(va, vb);
                    },
                }
            },
            _ => {},
        }
    } else if fa.key@ == "$exists"@ {
    } else if fa.key@ == "$regex"@ {
        match fv {
            (Some(va), Some(vb)) => {
                match (va, vb) {
                    (GrowthBookAttributeValue::Array(xa), GrowthBookAttributeValue::Array(xb)) => {
                        match fa.value {
                            GrowthBookAttributeValue::String(p) => {
                                lemma_any_regex_respects(xa@, xb@, p@);
                            },
                            _ => {},
                        }
                    },
                    _ => {
                        crate::model_public::lemma_stringify_respects(va, vb);
                    },
                }
            },
            _ => {},
        }
    } else if fa.key@ == "$type"@ {
        match fv {
            (Some(va), Some(vb)) => {
                assert(value_type_label(va) == value_type_label(vb)) by {
                    match (va, vb) {
                        (
                            GrowthBookAttributeValue::Object(xa),
                            GrowthBookAttributeValue::Object(xb),
                        ) => {
                            assert(xa@.len() == xb@.len());
                        },
                        _ => {},
                    }
                }
            },
            _ => {},
        }
    } else if fa.key@ == "$size"@ {
        match fa.value {
            GrowthBookAttributeValue::Object(fields) => {
                lemma_all_attrs_respects(parent, fields@, bag_a, bag_b, true);
            },
            GrowthBookAttributeValue::Int(n) => {
                match fv {
                    (
                        Some(GrowthBookAttributeValue::Array(xa)),
                        Some(GrowthBookAttributeValue::Array(xb)),
                    ) => {
                        assert(xa@.len() == xb@.len());
                    },
                    _ => {},
                }
            },
            _ => {},
        }
    } else if fa.key@ == "$all"@ {
        match fv {
            (
                Some(GrowthBookAttributeValue::Array(xa)),
                Some(GrowthBookAttributeValue::Array(xb)),
            ) => {
                match fa.value {
                    GrowthBookAttributeValue::Array(fvals) => {
                        lemma_all_contained_respects(fvals@, xa@, xb@);
                    },
                    _ => {},
                }
            },
            _ => {},
        }
    } else if fa.key@ == "$vgt"@ || fa.key@ == "$vgte"@ || fa.key@ == "$vlt"@ || fa.key@
        == "$vlte"@ || fa.key@ == "$veq"@ || fa.key@ == "$vne"@ {
    } else if fa.key@ == "$elemMatch"@ {
        match fa.value {
            GrowthBookAttributeValue::Object(fields) => {
                match fv {
                    (
                        Some(GrowthBookAttributeValue::Array(xa)),
                        Some(GrowthBookAttributeValue::Array(xb)),
                    ) => {
                        if all_dollar_keys(fields@) {
                            lemma_any_elem_ops_respects(fields@, xa@, xb@);
                        } else {
                            lemma_any_elem_respects(fields@, xa@, xb@);
                        }
                    },
                    _ => {},
                }
            },
            _ => {},
        }
    } else {
        match fa.value {
            GrowthBookAttributeValue::Array(fvals) => {
                match fv {
                    (
                        Some(GrowthBookAttributeValue::Array(xa)),
                        Some(GrowthBookAttributeValue::Array(xb)),
                    ) => {
                        crate::model_public::lemma_vals_eq_sym(fvals@, xa@);
                        crate::model_public::lemma_vals_eq_sym(fvals@, xb@);
                        crate::model_public::lemma_vals_eq_sym(xa@, xb@);
                        if crate::model_public::spec_vals_eq(fvals@, xa@) {
                            crate::model_public::lemma_vals_eq_trans(fvals@, xa@, xb@);
                        }
                        if crate::model_public::spec_vals_eq(fvals@, xb@) {
                            crate::model_public::lemma_vals_eq_trans(xa@, xb@, fvals@);
                            crate::model_public::lemma_vals_eq_sym(xa@, fvals@);
                        }
                    },
                    _ => {},
                }
            },
            GrowthBookAttributeValue::Object(fields) => {
                if fields@.len() > 0 {
                    lemma_all_attrs_respects(
                        Some(agg_key(parent, fa)),
                        fields@,
                        bag_a,
                        bag_b,
                        false,
                    );
                }
            },
            GrowthBookAttributeValue::Empty => {},
            _ => {
                match fv {
                    (Some(va), Some(vb)) => {
                        match (va, vb) {
                            (
                                GrowthBookAttributeValue::Array(xa),
                                GrowthBookAttributeValue::Array(xb),
                            ) => {
                                lemma_any_value_eq_respects(xa@, xb@, fa.value);
                            },
                            _ => {
                                crate::model_public::lemma_stringify_respects(va, vb);
                            },
                        }
                    },
                    _ => {},
                }
            },
        }
    }
}

proof fn lemma_any_elem_ops_respects(
    fields: Seq<GrowthBookAttribute>,
    elems_a: Seq<GrowthBookAttributeValue>,
    elems_b: Seq<GrowthBookAttributeValue>,
)
    requires
        crate::model_public::spec_vals_eq(elems_a, elems_b),
    ensures
        spec_any_elem_ops(fields, elems_a) == spec_any_elem_ops(fields, elems_b),
    decreases attrs_size(fields), 1int, elems_a.len(),
{
    if elems_a.len() > 0 {
        assert(spec_value_eq(elems_a[0], elems_b[0]));
        let wa = spec_wrapped_bag(elems_a[0]);
        let wb = spec_wrapped_bag(elems_b[0]);
        assert(crate::model_public::spec_attrs_eq(wa, wb)) by {
            assert(wa[0] == GrowthBookAttribute { key: wrap_value_key(), value: elems_a[0] });
            assert(wb[0] == GrowthBookAttribute { key: wrap_value_key(), value: elems_b[0] });
            assert(wa.drop_first() =~= Seq::<GrowthBookAttribute>::empty());
            assert(wb.drop_first() =~= Seq::<GrowthBookAttribute>::empty());
            assert(crate::model_public::spec_attrs_eq(wa.drop_first(), wb.drop_first()));
        }
        lemma_all_attrs_respects(Some(wrap_value_key()@), fields, wa, wb, false);
        lemma_any_elem_ops_respects(fields, elems_a.drop_first(), elems_b.drop_first());
    }
}

proof fn lemma_any_elem_respects(
    fields: Seq<GrowthBookAttribute>,
    elems_a: Seq<GrowthBookAttributeValue>,
    elems_b: Seq<GrowthBookAttributeValue>,
)
    requires
        crate::model_public::spec_vals_eq(elems_a, elems_b),
    ensures
        spec_any_elem_cond(fields, elems_a) == spec_any_elem_cond(fields, elems_b),
    decreases attrs_size(fields), 1int, elems_a.len(),
{
    if elems_a.len() > 0 {
        assert(spec_value_eq(elems_a[0], elems_b[0]));
        match (elems_a[0], elems_b[0]) {
            (GrowthBookAttributeValue::Object(ea), GrowthBookAttributeValue::Object(eb)) => {
                lemma_all_attrs_respects(None, fields, ea@, eb@, false);
            },
            _ => {},
        }
        lemma_any_elem_respects(fields, elems_a.drop_first(), elems_b.drop_first());
    }
}

proof fn lemma_all_attrs_respects(
    parent: Option<Seq<char>>,
    conds: Seq<GrowthBookAttribute>,
    bag_a: Seq<GrowthBookAttribute>,
    bag_b: Seq<GrowthBookAttribute>,
    array_size: bool,
)
    requires
        crate::model_public::spec_attrs_eq(bag_a, bag_b),
    ensures
        spec_all_attrs(parent, conds, bag_a, array_size) == spec_all_attrs(
            parent,
            conds,
            bag_b,
            array_size,
        ),
    decreases attrs_size(conds), 0int, 0int,
{
    if conds.len() > 0 {
        lemma_is_on_respects(parent, conds[0], bag_a, bag_b, array_size);
        lemma_all_attrs_respects(parent, conds.drop_first(), bag_a, bag_b, array_size);
    }
}

proof fn lemma_and_items_respects(
    items: Seq<GrowthBookAttributeValue>,
    bag_a: Seq<GrowthBookAttribute>,
    bag_b: Seq<GrowthBookAttribute>,
)
    requires
        crate::model_public::spec_attrs_eq(bag_a, bag_b),
    ensures
        spec_and_items(items, bag_a) == spec_and_items(items, bag_b),
    decreases vals_size(items), 0int, 0int,
{
    if items.len() > 0 {
        assert(vals_size(items) == 1 + val_size(items[0]) + vals_size(items.drop_first()));
        match items[0] {
            GrowthBookAttributeValue::Object(fields) => {
                assert(val_size(items[0]) == 1 + attrs_size(fields@));
                lemma_all_attrs_respects(None, fields@, bag_a, bag_b, false);
            },
            _ => {},
        }
        lemma_and_items_respects(items.drop_first(), bag_a, bag_b);
    }
}

proof fn lemma_or_items_respects(
    items: Seq<GrowthBookAttributeValue>,
    bag_a: Seq<GrowthBookAttribute>,
    bag_b: Seq<GrowthBookAttribute>,
)
    requires
        crate::model_public::spec_attrs_eq(bag_a, bag_b),
    ensures
        spec_or_items(items, bag_a) == spec_or_items(items, bag_b),
    decreases vals_size(items), 0int, 0int,
{
    if items.len() > 0 {
        assert(vals_size(items) == 1 + val_size(items[0]) + vals_size(items.drop_first()));
        match items[0] {
            GrowthBookAttributeValue::Object(fields) => {
                assert(val_size(items[0]) == 1 + attrs_size(fields@));
                lemma_all_attrs_respects(None, fields@, bag_a, bag_b, false);
            },
            _ => {},
        }
        lemma_or_items_respects(items.drop_first(), bag_a, bag_b);
    }
}

/// Condition-object evaluation respects structural equality of bags.
pub proof fn lemma_conditions_respects(
    conds: Seq<GrowthBookAttribute>,
    bag_a: Seq<GrowthBookAttribute>,
    bag_b: Seq<GrowthBookAttribute>,
)
    requires
        crate::model_public::spec_attrs_eq(bag_a, bag_b),
    ensures
        spec_conditions_on(conds, bag_a) == spec_conditions_on(conds, bag_b),
{
    lemma_all_attrs_respects(None, conds, bag_a, bag_b, false);
}

/// Some `$or` item is an object whose attributes all hold, as
/// [`spec_or_items`] states it.
fn eval_or_items(items: &[GrowthBookAttributeValue], user_attributes: &[GrowthBookAttribute]) -> (r:
    bool)
    requires
        vals_wf(items@),
        attrs_wf(user_attributes@),
    ensures
        r == spec_or_items(items@, user_attributes@),
    decreases vals_size(items@), 0int, 0int,
{
    let mut i: usize = 0;
    proof {
        assert(items@.skip(0) =~= items@);
    }
    while i < items.len()
        invariant
            i <= items@.len(),
            vals_wf(items@),
            attrs_wf(user_attributes@),
            spec_or_items(items@, user_attributes@) == spec_or_items(
                items@.skip(i as int),
                user_attributes@,
            ),
        decreases items@.len() - i,
    {
        proof {
            assert(items@.skip(i as int)[0] == items@[i as int]);
            assert(items@.skip(i as int).drop_first() =~= items@.skip(i + 1));
            crate::model_public::lemma_vals_wf_pointwise(items@);
            crate::model_public::lemma_vals_size_index(items@, i as int);
        }
        match &items[i] {
            GrowthBookAttributeValue::Object(fields) => {
                if eval_all_attrs(None, fields.as_slice(), user_attributes, false) {
                    return true;
                }
            },
            _ => {},
        }
        i = i + 1;
    }
    proof {
        assert(items@.skip(items@.len() as int).len() == 0);
    }
    false
}

} // verus!
