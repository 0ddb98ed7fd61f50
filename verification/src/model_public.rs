//! The attribute model: a tagged value tree with dotted-path lookup.
//!
//! Attribute values form a tree of nulls, booleans, integers, decimal
//! numbers, strings, arrays and objects. JSON floating-point numbers are
//! carried as [`Decimal`], an exact scaled-decimal representation, so that
//! stringification and comparison are deterministic.

use vstd::prelude::*;

use crate::numstr::{i64_dec_chars, u64_dec_chars};

verus! {

use vstd::string::StrSliceExecFns;
use vstd::string::StringExecFns;

/// `10^e` as a mathematical integer.
pub open spec fn pow10(e: nat) -> int
    decreases e,
{
    if e == 0 {
        1
    } else {
        10 * pow10((e - 1) as nat)
    }
}

/// An exact decimal number `m / 10^e`.
///
/// The representation is normalized: the exponent is at most 18, and when it
/// is positive the mantissa is not divisible by 10, so every value has one
/// representation and renders the way decimal literals are written.
#[derive(Clone, Copy, Debug)]
pub struct Decimal {
    pub m: i64,
    pub e: u32,
}

impl Decimal {
    /// The normalization invariant.
    pub open spec fn wf(self) -> bool {
        self.e <= 18 && (self.e > 0 ==> self.m % 10 != 0)
    }

    /// `self < other` as rationals: `m_a / 10^e_a < m_b / 10^e_b`.
    pub open spec fn spec_lt(self, other: Decimal) -> bool {
        self.m * pow10(other.e as nat) < other.m * pow10(self.e as nat)
    }

    /// `self == other` as rationals.
    pub open spec fn spec_num_eq(self, other: Decimal) -> bool {
        self.m * pow10(other.e as nat) == other.m * pow10(self.e as nat)
    }

    /// Builds a normalized decimal `m / 10^e`, stripping trailing zero
    /// digits. Returns `None` when the scale cannot be brought down to 18.
    pub fn new(m: i64, e: u32) -> (r: Option<Decimal>)
        ensures
            r is Some ==> r->0.wf() && r->0.m * pow10(e as nat) == m * pow10(r->0.e as nat),
            r is None ==> e > 18,
    {
        let mut m2: i64 = m;
        let mut e2: u32 = e;
        while e2 > 0 && m2 % 10 == 0
            invariant
                e2 <= e,
                m2 * pow10(e as nat) == m * pow10(e2 as nat),
            decreases e2,
        {
            proof {
                lemma_pow10_step((e2 - 1) as nat);
                assert((m2 / 10) * pow10(e as nat) * 10 == m2 * pow10(e as nat))
                    by (nonlinear_arith)
                    requires
                        m2 % 10 == 0,
                ;
                assert(m * pow10(e2 as nat) == m * pow10((e2 - 1) as nat) * 10)
                    by (nonlinear_arith)
                    requires
                        pow10(e2 as nat) == 10 * pow10((e2 - 1) as nat),
                ;
            }
            m2 = m2 / 10;
            e2 = e2 - 1;
        }
        if e2 <= 18 {
            Some(Decimal { m: m2, e: e2 })
        } else {
            None
        }
    }
}

proof fn lemma_pow10_step(e: nat)
    ensures
        pow10(e + 1) == 10 * pow10(e),
{
}

/// `pow10` is monotone.
pub proof fn lemma_pow10_mono(a: nat, b: nat)
    requires
        a <= b,
    ensures
        pow10(a) <= pow10(b),
    decreases b,
{
    if a < b {
        lemma_pow10_mono(a, (b - 1) as nat);
        lemma_pow10_pos((b - 1) as nat);
    }
}

/// `10^e` as a machine integer, for exponents up to 18.
pub fn pow10_i128(e: u32) -> (r: i128)
    requires
        e <= 18,
    ensures
        r == pow10(e as nat),
{
    let mut r: i128 = 1;
    let mut k: u32 = 0;
    while k < e
        invariant
            k <= e,
            e <= 18,
            r == pow10(k as nat),
        decreases e - k,
    {
        proof {
            lemma_pow10_mono(k as nat, 17);
            assert(pow10(17) == 100000000000000000) by {
                reveal_with_fuel(pow10, 18);
            }
            lemma_pow10_pos(k as nat);
        }
        r = r * 10;
        k = k + 1;
    }
    r
}

impl Decimal {
    /// Rational comparison `self < other`, as [`Decimal::spec_lt`] states it.
    pub fn lt(&self, other: &Decimal) -> (r: bool)
        requires
            self.wf(),
            other.wf(),
        ensures
            r == self.spec_lt(*other),
    {
        let pa = pow10_i128(other.e);
        let pb = pow10_i128(self.e);
        proof {
            lemma_pow10_pos(other.e as nat);
            lemma_pow10_pos(self.e as nat);
            lemma_pow10_mono(other.e as nat, 18);
            lemma_pow10_mono(self.e as nat, 18);
            assert(pow10(18) == 1000000000000000000) by {
                reveal_with_fuel(pow10, 19);
            }
            assert(-170141183460469231731687303715884105728 <= (self.m as int) * (pa as int)
                <= 170141183460469231731687303715884105727) by (nonlinear_arith)
                requires
                    -9223372036854775808 <= self.m as int <= 9223372036854775807,
                    1 <= pa as int <= 1000000000000000000,
            ;
            assert(-170141183460469231731687303715884105728 <= (other.m as int) * (pb as int)
                <= 170141183460469231731687303715884105727) by (nonlinear_arith)
                requires
                    -9223372036854775808 <= other.m as int <= 9223372036854775807,
                    1 <= pb as int <= 1000000000000000000,
            ;
        }
        let left: i128 = (self.m as i128) * pa;
        let right: i128 = (other.m as i128) * pb;
        left < right
    }

    /// Rational equality, as [`Decimal::spec_num_eq`] states it.
    pub fn num_eq(&self, other: &Decimal) -> (r: bool)
        requires
            self.wf(),
            other.wf(),
        ensures
            r == self.spec_num_eq(*other),
    {
        let pa = pow10_i128(other.e);
        let pb = pow10_i128(self.e);
        proof {
            lemma_pow10_pos(other.e as nat);
            lemma_pow10_pos(self.e as nat);
            lemma_pow10_mono(other.e as nat, 18);
            lemma_pow10_mono(self.e as nat, 18);
            assert(pow10(18) == 1000000000000000000) by {
                reveal_with_fuel(pow10, 19);
            }
            assert(-170141183460469231731687303715884105728 <= (self.m as int) * (pa as int)
                <= 170141183460469231731687303715884105727) by (nonlinear_arith)
                requires
                    -9223372036854775808 <= self.m as int <= 9223372036854775807,
                    1 <= pa as int <= 1000000000000000000,
            ;
            assert(-170141183460469231731687303715884105728 <= (other.m as int) * (pb as int)
                <= 170141183460469231731687303715884105727) by (nonlinear_arith)
                requires
                    -9223372036854775808 <= other.m as int <= 9223372036854775807,
                    1 <= pb as int <= 1000000000000000000,
            ;
        }
        let left: i128 = (self.m as i128) * pa;
        let right: i128 = (other.m as i128) * pb;
        left == right
    }
}

impl GrowthBookAttribute {
    /// Pairs a key with a value.
    pub fn new(key: String, value: GrowthBookAttributeValue) -> (r: GrowthBookAttribute)
        ensures
            r.key == key,
            r.value == value,
    {
        GrowthBookAttribute { key, value }
    }
}

/// `pow10` is positive.
pub proof fn lemma_pow10_pos(e: nat)
    ensures
        pow10(e) >= 1,
    decreases e,
{
    if e > 0 {
        lemma_pow10_pos((e - 1) as nat);
    }
}

/// A single user or condition attribute: a key and a value.
#[derive(Debug)]
pub struct GrowthBookAttribute {
    pub key: String,
    pub value: GrowthBookAttributeValue,
}

/// The tagged value tree. `Empty` is JSON null; arrays and objects nest.
#[derive(Debug)]
pub enum GrowthBookAttributeValue {
    Empty,
    String(String),
    Int(i64),
    Float(Decimal),
    Bool(bool),
    Array(Vec<GrowthBookAttributeValue>),
    Object(Vec<GrowthBookAttribute>),
}

/// Structural size of a value tree; the termination measure for everything
/// that recurses over values.
pub open spec fn val_size(v: GrowthBookAttributeValue) -> nat
    decreases v,
{
    match v {
        GrowthBookAttributeValue::Array(items) => 1 + vals_size(items@),
        GrowthBookAttributeValue::Object(fields) => 1 + attrs_size(fields@),
        _ => 1,
    }
}

/// Total size of a sequence of values.
pub open spec fn vals_size(s: Seq<GrowthBookAttributeValue>) -> nat
    decreases s,
{
    if s.len() == 0 {
        0
    } else {
        1 + val_size(s[0]) + vals_size(s.drop_first())
    }
}

/// Total size of a sequence of attributes.
pub open spec fn attrs_size(s: Seq<GrowthBookAttribute>) -> nat
    decreases s,
{
    if s.len() == 0 {
        0
    } else {
        1 + val_size(s[0].value) + attrs_size(s.drop_first())
    }
}

/// Each element of a sequence is no larger than the whole.
pub proof fn lemma_vals_size_index(s: Seq<GrowthBookAttributeValue>, i: int)
    requires
        0 <= i < s.len(),
    ensures
        val_size(s[i]) <= vals_size(s),
    decreases s.len(),
{
    if i > 0 {
        lemma_vals_size_index(s.drop_first(), i - 1);
        assert(s.drop_first()[i - 1] == s[i]);
    }
}

/// Each attribute's value is smaller than the whole sequence.
pub proof fn lemma_attrs_size_index(s: Seq<GrowthBookAttribute>, i: int)
    requires
        0 <= i < s.len(),
    ensures
        val_size(s[i].value) < attrs_size(s),
    decreases s.len(),
{
    if i > 0 {
        lemma_attrs_size_index(s.drop_first(), i - 1);
        assert(s.drop_first()[i - 1] == s[i]);
    }
}

/// Structural equality on values: variants must coincide, strings compare by
/// their characters, arrays are ordered and length-sensitive, objects require
/// the same keys in the same order with equal values.
pub open spec fn spec_value_eq(a: GrowthBookAttributeValue, b: GrowthBookAttributeValue) -> bool
    decreases a,
{
    match (a, b) {
        (GrowthBookAttributeValue::Empty, GrowthBookAttributeValue::Empty) => true,
        (GrowthBookAttributeValue::String(x), GrowthBookAttributeValue::String(y)) => x@ == y@,
        (GrowthBookAttributeValue::Int(x), GrowthBookAttributeValue::Int(y)) => x == y,
        (GrowthBookAttributeValue::Float(x), GrowthBookAttributeValue::Float(y)) => x.m == y.m
            && x.e == y.e,
        (GrowthBookAttributeValue::Bool(x), GrowthBookAttributeValue::Bool(y)) => x == y,
        (GrowthBookAttributeValue::Array(xs), GrowthBookAttributeValue::Array(ys)) => spec_vals_eq(
            xs@,
            ys@,
        ),
        (GrowthBookAttributeValue::Object(xs), GrowthBookAttributeValue::Object(ys)) => spec_attrs_eq(
            xs@,
            ys@,
        ),
        _ => false,
    }
}

/// Ordered equality of value sequences.
pub open spec fn spec_vals_eq(xs: Seq<GrowthBookAttributeValue>, ys: Seq<GrowthBookAttributeValue>) -> bool
    decreases xs,
{
    if xs.len() != ys.len() {
        false
    } else if xs.len() == 0 {
        true
    } else {
        spec_value_eq(xs[0], ys[0]) && spec_vals_eq(xs.drop_first(), ys.drop_first())
    }
}

/// Ordered equality of attribute sequences: keys and values both.
pub open spec fn spec_attrs_eq(xs: Seq<GrowthBookAttribute>, ys: Seq<GrowthBookAttribute>) -> bool
    decreases xs,
{
    if xs.len() != ys.len() {
        false
    } else if xs.len() == 0 {
        true
    } else {
        xs[0].key@ == ys[0].key@ && spec_value_eq(xs[0].value, ys[0].value) && spec_attrs_eq(
            xs.drop_first(),
            ys.drop_first(),
        )
    }
}

/// Sequence equality is equivalent to pointwise equality.
pub proof fn lemma_vals_eq_pointwise(xs: Seq<GrowthBookAttributeValue>, ys: Seq<GrowthBookAttributeValue>)
    ensures
        spec_vals_eq(xs, ys) <==> (xs.len() == ys.len() && (forall|j: int|
            0 <= j < xs.len() ==> spec_value_eq(xs[j], ys[j]))),
    decreases xs.len(),
{
    if xs.len() == ys.len() && xs.len() > 0 {
        lemma_vals_eq_pointwise(xs.drop_first(), ys.drop_first());
        assert(forall|j: int|
            1 <= j < xs.len() ==> xs.drop_first()[j - 1] == xs[j] && ys.drop_first()[j - 1]
                == ys[j]);
    }
}

/// Attribute-sequence equality is equivalent to pointwise equality.
pub proof fn lemma_attrs_eq_pointwise(xs: Seq<GrowthBookAttribute>, ys: Seq<GrowthBookAttribute>)
    ensures
        spec_attrs_eq(xs, ys) <==> (xs.len() == ys.len() && (forall|j: int|
            0 <= j < xs.len() ==> xs[j].key@ == ys[j].key@ && spec_value_eq(
                xs[j].value,
                ys[j].value,
            ))),
    decreases xs.len(),
{
    if xs.len() == ys.len() && xs.len() > 0 {
        lemma_attrs_eq_pointwise(xs.drop_first(), ys.drop_first());
        assert(forall|j: int|
            1 <= j < xs.len() ==> xs.drop_first()[j - 1] == xs[j] && ys.drop_first()[j - 1]
                == ys[j]);
    }
}

/// A run of `n` zero characters.
pub open spec fn char_zeros(n: nat) -> Seq<char>
    decreases n,
{
    if n == 0 {
        Seq::empty()
    } else {
        seq!['0'] + char_zeros((n - 1) as nat)
    }
}

/// The absolute value of a mantissa as a natural number.
pub open spec fn abs_nat(m: int) -> nat {
    if m < 0 {
        (-m) as nat
    } else {
        m as nat
    }
}

/// The decimal text of a [`Decimal`]: sign, integer digits, and a fractional
/// part when the exponent is positive, written the way decimal literals are.
pub open spec fn dec_chars(d: Decimal) -> Seq<char> {
    let digits = u64_dec_chars(abs_nat(d.m as int));
    let sign: Seq<char> = if d.m < 0 {
        seq!['-']
    } else {
        Seq::empty()
    };
    if d.e == 0 {
        sign + digits
    } else if digits.len() > d.e {
        sign + digits.take(digits.len() - d.e) + seq!['.'] + digits.skip(digits.len() - d.e)
    } else {
        sign + seq!['0', '.'] + char_zeros((d.e - digits.len()) as nat) + digits
    }
}

/// The stringified form of a value: null is empty, booleans are `true` or
/// `false`, numbers are decimal, arrays and objects concatenate the
/// stringified forms of their elements in order.
pub open spec fn stringify(v: GrowthBookAttributeValue) -> Seq<char>
    decreases v,
{
    match v {
        GrowthBookAttributeValue::Empty => Seq::empty(),
        GrowthBookAttributeValue::String(s) => s@,
        GrowthBookAttributeValue::Int(i) => i64_dec_chars(i as int),
        GrowthBookAttributeValue::Float(d) => dec_chars(d),
        GrowthBookAttributeValue::Bool(b) => if b {
            seq!['t', 'r', 'u', 'e']
        } else {
            seq!['f', 'a', 'l', 's', 'e']
        },
        GrowthBookAttributeValue::Array(items) => stringify_vals(items@),
        GrowthBookAttributeValue::Object(fields) => stringify_attrs(fields@),
    }
}

/// Concatenation of the stringified forms of a sequence of values.
pub open spec fn stringify_vals(s: Seq<GrowthBookAttributeValue>) -> Seq<char>
    decreases s,
{
    if s.len() == 0 {
        Seq::empty()
    } else {
        stringify(s[0]) + stringify_vals(s.drop_first())
    }
}

/// Concatenation of the stringified forms of the values of attributes.
pub open spec fn stringify_attrs(s: Seq<GrowthBookAttribute>) -> Seq<char>
    decreases s,
{
    if s.len() == 0 {
        Seq::empty()
    } else {
        stringify(s[0].value) + stringify_attrs(s.drop_first())
    }
}

proof fn lemma_stringify_vals_snoc(s: Seq<GrowthBookAttributeValue>, x: GrowthBookAttributeValue)
    ensures
        stringify_vals(s.push(x)) == stringify_vals(s) + stringify(x),
    decreases s.len(),
{
    if s.len() == 0 {
        assert(s.push(x)[0] == x);
        assert(s.push(x).drop_first() =~= Seq::<GrowthBookAttributeValue>::empty());
        assert(stringify_vals(Seq::<GrowthBookAttributeValue>::empty()) == Seq::<char>::empty());
        assert(stringify_vals(s.push(x)) == stringify(x) + stringify_vals(
            s.push(x).drop_first(),
        ));
        assert(stringify_vals(s.push(x)) =~= stringify_vals(s) + stringify(x));
    } else {
        lemma_stringify_vals_snoc(s.drop_first(), x);
        assert(s.push(x).drop_first() =~= s.drop_first().push(x));
        assert(s.push(x)[0] == s[0]);
        assert(stringify_vals(s.push(x)) == stringify(s[0]) + stringify_vals(
            s.drop_first().push(x),
        ));
        assert(stringify_vals(s.push(x)) == stringify(s[0]) + (stringify_vals(s.drop_first())
            + stringify(x)));
        assert(stringify(s[0]) + (stringify_vals(s.drop_first()) + stringify(x)) =~= (stringify(
            s[0],
        ) + stringify_vals(s.drop_first())) + stringify(x));
    }
}

proof fn lemma_stringify_attrs_snoc(s: Seq<GrowthBookAttribute>, x: GrowthBookAttribute)
    ensures
        stringify_attrs(s.push(x)) == stringify_attrs(s) + stringify(x.value),
    decreases s.len(),
{
    if s.len() == 0 {
        assert(s.push(x)[0] == x);
        assert(s.push(x).drop_first() =~= Seq::<GrowthBookAttribute>::empty());
        assert(stringify_attrs(Seq::<GrowthBookAttribute>::empty()) == Seq::<char>::empty());
        assert(stringify_attrs(s.push(x)) == stringify(x.value) + stringify_attrs(
            s.push(x).drop_first(),
        ));
        assert(stringify_attrs(s.push(x)) =~= stringify_attrs(s) + stringify(x.value));
    } else {
        lemma_stringify_attrs_snoc(s.drop_first(), x);
        assert(s.push(x).drop_first() =~= s.drop_first().push(x));
        assert(s.push(x)[0] == s[0]);
        assert(stringify_attrs(s.push(x)) == stringify(s[0].value) + stringify_attrs(
            s.drop_first().push(x),
        ));
        assert(stringify_attrs(s.push(x)) == stringify(s[0].value) + (stringify_attrs(
            s.drop_first(),
        ) + stringify(x.value)));
        assert(stringify(s[0].value) + (stringify_attrs(s.drop_first()) + stringify(x.value)) =~= (
        stringify(s[0].value) + stringify_attrs(s.drop_first())) + stringify(x.value));
    }
}

/// The digits of a [`Decimal`], as [`dec_chars`] states them.
pub fn dec_digits(d: &Decimal) -> (r: Vec<char>)
    requires
        d.wf(),
    ensures
        r@ == dec_chars(*d),
{
    let abs: u64 = if d.m == i64::MIN {
        9223372036854775808u64
    } else if d.m < 0 {
        (-d.m) as u64
    } else {
        d.m as u64
    };
    let digits = crate::numstr::u64_dec_digits(abs);
    let mut out: Vec<char> = Vec::new();
    if d.m < 0 {
        out.push('-');
    }
    proof {
        assert(out@ =~= if d.m < 0 {
            seq!['-']
        } else {
            Seq::<char>::empty()
        });
    }
    if d.e == 0 {
        let mut k: usize = 0;
        while k < digits.len()
            invariant
                k <= digits@.len(),
                out@ =~= (if d.m < 0 {
                    seq!['-']
                } else {
                    Seq::<char>::empty()
                }) + digits@.subrange(0, k as int),
            decreases digits@.len() - k,
        {
            let c = digits[k];
            proof {
                assert(digits@.subrange(0, k as int).push(digits@[k as int]) =~= digits@.subrange(
                    0,
                    k + 1,
                ));
            }
            out.push(c);
            k = k + 1;
        }
        proof {
            assert(digits@.subrange(0, digits@.len() as int) =~= digits@);
            assert(out@ =~= dec_chars(*d));
        }
        out
    } else if digits.len() > d.e as usize {
        let cut: usize = digits.len() - d.e as usize;
        let mut k: usize = 0;
        while k < digits.len()
            invariant
                k <= digits@.len(),
                cut == digits@.len() - d.e,
                0 < cut < digits@.len(),
                out@ =~= (if d.m < 0 {
                    seq!['-']
                } else {
                    Seq::<char>::empty()
                }) + (if k <= cut {
                    digits@.subrange(0, k as int)
                } else {
                    digits@.subrange(0, cut as int) + seq!['.'] + digits@.subrange(
                        cut as int,
                        k as int,
                    )
                }),
            decreases digits@.len() - k,
        {
            if k == cut {
                out.push('.');
                proof {
                    assert(digits@.subrange(cut as int, cut as int) =~= Seq::<char>::empty());
                    assert(digits@.subrange(0, cut as int) + seq!['.'] + digits@.subrange(
                        cut as int,
                        cut as int,
                    ) =~= digits@.subrange(0, cut as int).push('.'));
                }
            }
            let c = digits[k];
            proof {
                if k < cut {
                    assert(digits@.subrange(0, k as int).push(digits@[k as int]) =~= digits@
                        .subrange(0, k + 1));
                } else {
                    assert(digits@.subrange(cut as int, k as int).push(digits@[k as int]) =~= digits@
                        .subrange(cut as int, k + 1));
                }
            }
            out.push(c);
            k = k + 1;
        }
        proof {
            assert(digits@.take(digits@.len() as int - d.e) =~= digits@.subrange(0, cut as int));
            assert(digits@.skip(digits@.len() as int - d.e) =~= digits@.subrange(
                cut as int,
                digits@.len() as int,
            ));
            assert(out@ =~= dec_chars(*d));
        }
        out
    } else {
        out.push('0');
        out.push('.');
        let zeros: usize = d.e as usize - digits.len();
        let mut z: usize = 0;
        while z < zeros
            invariant
                z <= zeros,
                zeros == d.e - u64_dec_chars(abs_nat(d.m as int)).len(),
                out@ =~= (if d.m < 0 {
                    seq!['-']
                } else {
                    Seq::<char>::empty()
                }) + seq!['0', '.'] + char_zeros(z as nat),
            decreases zeros - z,
        {
            proof {
                lemma_char_zeros_snoc(z as nat);
            }
            out.push('0');
            z = z + 1;
        }
        let mut k: usize = 0;
        while k < digits.len()
            invariant
                k <= digits@.len(),
                zeros == d.e - digits@.len(),
                out@ =~= (if d.m < 0 {
                    seq!['-']
                } else {
                    Seq::<char>::empty()
                }) + seq!['0', '.'] + char_zeros(zeros as nat) + digits@.subrange(0, k as int),
            decreases digits@.len() - k,
        {
            let c = digits[k];
            proof {
                assert(digits@.subrange(0, k as int).push(digits@[k as int]) =~= digits@.subrange(
                    0,
                    k + 1,
                ));
            }
            out.push(c);
            k = k + 1;
        }
        proof {
            assert(digits@.subrange(0, digits@.len() as int) =~= digits@);
            assert(out@ =~= dec_chars(*d));
        }
        out
    }
}

/// Appending one more zero.
pub proof fn lemma_char_zeros_snoc(n: nat)
    ensures
        char_zeros(n + 1) == char_zeros(n).push('0'),
    decreases n,
{
    if n == 0 {
        assert(char_zeros(1) =~= char_zeros(0).push('0'));
    } else {
        lemma_char_zeros_snoc((n - 1) as nat);
        assert(char_zeros(n + 1) =~= char_zeros(n).push('0'));
    }
}

/// Character-wise equality of two string slices.
pub fn str_eq(a: &str, b: &str) -> (r: bool)
    ensures
        r == (a@ == b@),
{
    let n = a.unicode_len();
    if n != b.unicode_len() {
        return false;
    }
    let mut i: usize = 0;
    while i < n
        invariant
            n == a@.len() && n == b@.len(),
            i <= n,
            forall|j: int| 0 <= j < i ==> a@[j] == b@[j],
        decreases n - i,
    {
        if a.get_char(i) != b.get_char(i) {
            return false;
        }
        i = i + 1;
    }
    proof {
        assert(a@ =~= b@);
    }
    true
}

/// Structural equality of values, as [`spec_value_eq`] states it.
pub fn value_eq(a: &GrowthBookAttributeValue, b: &GrowthBookAttributeValue) -> (r: bool)
    ensures
        r == spec_value_eq(*a, *b),
    decreases val_size(*a),
{
    match (a, b) {
        (GrowthBookAttributeValue::Empty, GrowthBookAttributeValue::Empty) => true,
        (GrowthBookAttributeValue::String(x), GrowthBookAttributeValue::String(y)) => str_eq(
            x.as_str(),
            y.as_str(),
        ),
        (GrowthBookAttributeValue::Int(x), GrowthBookAttributeValue::Int(y)) => *x == *y,
        (GrowthBookAttributeValue::Float(x), GrowthBookAttributeValue::Float(y)) => x.m == y.m
            && x.e == y.e,
        (GrowthBookAttributeValue::Bool(x), GrowthBookAttributeValue::Bool(y)) => *x == *y,
        (GrowthBookAttributeValue::Array(xs), GrowthBookAttributeValue::Array(ys)) => {
            if xs.len() != ys.len() {
                proof {
                    assert(!spec_vals_eq(xs@, ys@));
                }
                return false;
            }
            let mut i: usize = 0;
            while i < xs.len()
                invariant
                    xs@.len() == ys@.len(),
                    i <= xs@.len(),
                    val_size(*a) == 1 + vals_size(xs@),
                    a == GrowthBookAttributeValue::Array(*xs),
                    b == GrowthBookAttributeValue::Array(*ys),
                    forall|j: int| 0 <= j < i ==> spec_value_eq(xs@[j], ys@[j]),
                decreases xs@.len() - i,
            {
                proof {
                    lemma_vals_size_index(xs@, i as int);
                }
                if !value_eq(&xs[i], &ys[i]) {
                    proof {
                        lemma_vals_eq_pointwise(xs@, ys@);
                    }
                    return false;
                }
                i = i + 1;
            }
            proof {
                lemma_vals_eq_pointwise(xs@, ys@);
            }
            true
        },
        (GrowthBookAttributeValue::Object(xs), GrowthBookAttributeValue::Object(ys)) => {
            if xs.len() != ys.len() {
                proof {
                    assert(!spec_attrs_eq(xs@, ys@));
                }
                return false;
            }
            let mut i: usize = 0;
            while i < xs.len()
                invariant
                    xs@.len() == ys@.len(),
                    i <= xs@.len(),
                    val_size(*a) == 1 + attrs_size(xs@),
                    a == GrowthBookAttributeValue::Object(*xs),
                    b == GrowthBookAttributeValue::Object(*ys),
                    forall|j: int|
                        0 <= j < i ==> xs@[j].key@ == ys@[j].key@ && spec_value_eq(
                            xs@[j].value,
                            ys@[j].value,
                        ),
                decreases xs@.len() - i,
            {
                proof {
                    lemma_attrs_size_index(xs@, i as int);
                }
                if !str_eq(xs[i].key.as_str(), ys[i].key.as_str()) || !value_eq(
                    &xs[i].value,
                    &ys[i].value,
                ) {
                    proof {
                        lemma_attrs_eq_pointwise(xs@, ys@);
                    }
                    return false;
                }
                i = i + 1;
            }
            proof {
                lemma_attrs_eq_pointwise(xs@, ys@);
            }
            true
        },
        _ => false,
    }
}

/// Structural equality is reflexive.
pub proof fn lemma_value_eq_refl(a: GrowthBookAttributeValue)
    ensures
        spec_value_eq(a, a),
    decreases val_size(a),
{
    match a {
        GrowthBookAttributeValue::Array(xs) => {
            lemma_vals_eq_refl(xs@);
        },
        GrowthBookAttributeValue::Object(xs) => {
            lemma_attrs_eq_refl(xs@);
        },
        _ => {},
    }
}

proof fn lemma_vals_eq_refl(xs: Seq<GrowthBookAttributeValue>)
    ensures
        spec_vals_eq(xs, xs),
    decreases vals_size(xs),
{
    if xs.len() > 0 {
        lemma_value_eq_refl(xs[0]);
        lemma_vals_eq_refl(xs.drop_first());
    }
}

proof fn lemma_attrs_eq_refl(xs: Seq<GrowthBookAttribute>)
    ensures
        spec_attrs_eq(xs, xs),
    decreases attrs_size(xs),
{
    if xs.len() > 0 {
        lemma_value_eq_refl(xs[0].value);
        lemma_attrs_eq_refl(xs.drop_first());
    }
}

/// Structural equality is symmetric.
pub proof fn lemma_value_eq_sym(a: GrowthBookAttributeValue, b: GrowthBookAttributeValue)
    ensures
        spec_value_eq(a, b) == spec_value_eq(b, a),
    decreases val_size(a) + val_size(b),
{
    match (a, b) {
        (GrowthBookAttributeValue::Array(xs), GrowthBookAttributeValue::Array(ys)) => {
            lemma_vals_eq_sym(xs@, ys@);
        },
        (GrowthBookAttributeValue::Object(xs), GrowthBookAttributeValue::Object(ys)) => {
            lemma_attrs_eq_sym(xs@, ys@);
        },
        _ => {},
    }
}

pub proof fn lemma_vals_eq_sym(xs: Seq<GrowthBookAttributeValue>, ys: Seq<GrowthBookAttributeValue>)
    ensures
        spec_vals_eq(xs, ys) == spec_vals_eq(ys, xs),
    decreases vals_size(xs) + vals_size(ys),
{
    if xs.len() == ys.len() && xs.len() > 0 {
        lemma_value_eq_sym(xs[0], ys[0]);
        lemma_vals_eq_sym(xs.drop_first(), ys.drop_first());
    }
}

pub proof fn lemma_attrs_eq_sym(xs: Seq<GrowthBookAttribute>, ys: Seq<GrowthBookAttribute>)
    ensures
        spec_attrs_eq(xs, ys) == spec_attrs_eq(ys, xs),
    decreases attrs_size(xs) + attrs_size(ys),
{
    if xs.len() == ys.len() && xs.len() > 0 {
        lemma_value_eq_sym(xs[0].value, ys[0].value);
        lemma_attrs_eq_sym(xs.drop_first(), ys.drop_first());
    }
}

/// Structural equality is transitive.
pub proof fn lemma_value_eq_trans(
    a: GrowthBookAttributeValue,
    b: GrowthBookAttributeValue,
    c: GrowthBookAttributeValue,
)
    requires
        spec_value_eq(a, b),
        spec_value_eq(b, c),
    ensures
        spec_value_eq(a, c),
    decreases val_size(a),
{
    match (a, b, c) {
        (
            GrowthBookAttributeValue::Array(xs),
            GrowthBookAttributeValue::Array(ys),
            GrowthBookAttributeValue::Array(zs),
        ) => {
            lemma_vals_eq_trans(xs@, ys@, zs@);
        },
        (
            GrowthBookAttributeValue::Object(xs),
            GrowthBookAttributeValue::Object(ys),
            GrowthBookAttributeValue::Object(zs),
        ) => {
            lemma_attrs_eq_trans(xs@, ys@, zs@);
        },
        _ => {},
    }
}

pub proof fn lemma_vals_eq_trans(
    xs: Seq<GrowthBookAttributeValue>,
    ys: Seq<GrowthBookAttributeValue>,
    zs: Seq<GrowthBookAttributeValue>,
)
    requires
        spec_vals_eq(xs, ys),
        spec_vals_eq(ys, zs),
    ensures
        spec_vals_eq(xs, zs),
    decreases vals_size(xs),
{
    if xs.len() > 0 {
        lemma_value_eq_trans(xs[0], ys[0], zs[0]);
        lemma_vals_eq_trans(xs.drop_first(), ys.drop_first(), zs.drop_first());
    }
}

pub proof fn lemma_attrs_eq_trans(
    xs: Seq<GrowthBookAttribute>,
    ys: Seq<GrowthBookAttribute>,
    zs: Seq<GrowthBookAttribute>,
)
    requires
        spec_attrs_eq(xs, ys),
        spec_attrs_eq(ys, zs),
    ensures
        spec_attrs_eq(xs, zs),
    decreases attrs_size(xs),
{
    if xs.len() > 0 {
        lemma_value_eq_trans(xs[0].value, ys[0].value, zs[0].value);
        lemma_attrs_eq_trans(xs.drop_first(), ys.drop_first(), zs.drop_first());
    }
}

/// Structurally equal values are equally well formed.
pub proof fn lemma_value_eq_wf(a: GrowthBookAttributeValue, b: GrowthBookAttributeValue)
    requires
        spec_value_eq(a, b),
    ensures
        val_wf(a) == val_wf(b),
    decreases val_size(a),
{
    match (a, b) {
        (GrowthBookAttributeValue::Array(xs), GrowthBookAttributeValue::Array(ys)) => {
            lemma_vals_eq_wf(xs@, ys@);
        },
        (GrowthBookAttributeValue::Object(xs), GrowthBookAttributeValue::Object(ys)) => {
            lemma_attrs_eq_wf(xs@, ys@);
        },
        _ => {},
    }
}

proof fn lemma_vals_eq_wf(xs: Seq<GrowthBookAttributeValue>, ys: Seq<GrowthBookAttributeValue>)
    requires
        spec_vals_eq(xs, ys),
    ensures
        vals_wf(xs) == vals_wf(ys),
    decreases vals_size(xs),
{
    if xs.len() > 0 {
        lemma_value_eq_wf(xs[0], ys[0]);
        lemma_vals_eq_wf(xs.drop_first(), ys.drop_first());
    }
}

proof fn lemma_attrs_eq_wf(xs: Seq<GrowthBookAttribute>, ys: Seq<GrowthBookAttribute>)
    requires
        spec_attrs_eq(xs, ys),
    ensures
        attrs_wf(xs) == attrs_wf(ys),
    decreases attrs_size(xs),
{
    if xs.len() > 0 {
        lemma_value_eq_wf(xs[0].value, ys[0].value);
        lemma_attrs_eq_wf(xs.drop_first(), ys.drop_first());
    }
}

/// Structurally equal values stringify identically.
pub proof fn lemma_stringify_respects(a: GrowthBookAttributeValue, b: GrowthBookAttributeValue)
    requires
        spec_value_eq(a, b),
    ensures
        stringify(a) == stringify(b),
    decreases val_size(a),
{
    match (a, b) {
        (GrowthBookAttributeValue::Array(xs), GrowthBookAttributeValue::Array(ys)) => {
            lemma_stringify_vals_respects(xs@, ys@);
        },
        (GrowthBookAttributeValue::Object(xs), GrowthBookAttributeValue::Object(ys)) => {
            lemma_stringify_attrs_respects(xs@, ys@);
        },
        _ => {},
    }
}

proof fn lemma_stringify_vals_respects(
    xs: Seq<GrowthBookAttributeValue>,
    ys: Seq<GrowthBookAttributeValue>,
)
    requires
        spec_vals_eq(xs, ys),
    ensures
        stringify_vals(xs) == stringify_vals(ys),
    decreases vals_size(xs),
{
    if xs.len() > 0 {
        lemma_stringify_respects(xs[0], ys[0]);
        lemma_stringify_vals_respects(xs.drop_first(), ys.drop_first());
    }
}

proof fn lemma_stringify_attrs_respects(xs: Seq<GrowthBookAttribute>, ys: Seq<GrowthBookAttribute>)
    requires
        spec_attrs_eq(xs, ys),
    ensures
        stringify_attrs(xs) == stringify_attrs(ys),
    decreases attrs_size(xs),
{
    if xs.len() > 0 {
        lemma_stringify_respects(xs[0].value, ys[0].value);
        lemma_stringify_attrs_respects(xs.drop_first(), ys.drop_first());
    }
}

/// Every decimal in the tree is normalized.
pub open spec fn val_wf(v: GrowthBookAttributeValue) -> bool
    decreases v,
{
    match v {
        GrowthBookAttributeValue::Float(d) => d.wf(),
        GrowthBookAttributeValue::Array(items) => vals_wf(items@),
        GrowthBookAttributeValue::Object(fields) => attrs_wf(fields@),
        _ => true,
    }
}

/// Every decimal in a sequence of values is normalized.
pub open spec fn vals_wf(s: Seq<GrowthBookAttributeValue>) -> bool
    decreases s,
{
    if s.len() == 0 {
        true
    } else {
        val_wf(s[0]) && vals_wf(s.drop_first())
    }
}

/// Every decimal in a sequence of attributes is normalized.
pub open spec fn attrs_wf(s: Seq<GrowthBookAttribute>) -> bool
    decreases s,
{
    if s.len() == 0 {
        true
    } else {
        val_wf(s[0].value) && attrs_wf(s.drop_first())
    }
}

/// Well-formedness of a sequence is pointwise.
pub proof fn lemma_vals_wf_pointwise(s: Seq<GrowthBookAttributeValue>)
    ensures
        vals_wf(s) <==> (forall|j: int| 0 <= j < s.len() ==> val_wf(s[j])),
    decreases s.len(),
{
    if s.len() > 0 {
        lemma_vals_wf_pointwise(s.drop_first());
        assert(forall|j: int| 1 <= j < s.len() ==> s.drop_first()[j - 1] == s[j]);
    }
}

/// Well-formedness of an attribute sequence is pointwise.
pub proof fn lemma_attrs_wf_pointwise(s: Seq<GrowthBookAttribute>)
    ensures
        attrs_wf(s) <==> (forall|j: int| 0 <= j < s.len() ==> val_wf(s[j].value)),
    decreases s.len(),
{
    if s.len() > 0 {
        lemma_attrs_wf_pointwise(s.drop_first());
        assert(forall|j: int| 1 <= j < s.len() ==> s.drop_first()[j - 1] == s[j]);
    }
}

impl GrowthBookAttributeValue {
    /// The stringified form, as [`stringify`] states it.
    pub fn to_string(&self) -> (r: String)
        requires
            val_wf(*self),
        ensures
            r@ == stringify(*self),
        decreases val_size(*self),
    {
        match self {
            GrowthBookAttributeValue::Empty => String::new(),
            GrowthBookAttributeValue::String(it) => {
                let r = it.as_str().to_owned();
                r
            },
            GrowthBookAttributeValue::Int(it) => crate::numstr::i64_to_dec_string(*it),
            GrowthBookAttributeValue::Float(d) => {
                let digits = dec_digits(d);
                crate::numstr::chars_to_string(&digits)
            },
            GrowthBookAttributeValue::Bool(it) => {
                if *it {
                    let r = "true".to_owned();
                    proof {
                        reveal_strlit("true");
                        assert(r@ =~= seq!['t', 'r', 'u', 'e']);
                    }
                    r
                } else {
                    let r = "false".to_owned();
                    proof {
                        reveal_strlit("false");
                        assert(r@ =~= seq!['f', 'a', 'l', 's', 'e']);
                    }
                    r
                }
            },
            GrowthBookAttributeValue::Array(items) => {
                let mut acc = String::new();
                let mut i: usize = 0;
                while i < items.len()
                    invariant
                        i <= items@.len(),
                        self == GrowthBookAttributeValue::Array(*items),
                        val_wf(*self),
                        val_size(*self) == 1 + vals_size(items@),
                        acc@ =~= stringify_vals(items@.take(i as int)),
                    decreases items@.len() - i,
                {
                    proof {
                        lemma_vals_size_index(items@, i as int);
                        lemma_vals_wf_pointwise(items@);
                    }
                    let piece = items[i].to_string();
                    proof {
                        lemma_stringify_vals_snoc(items@.take(i as int), items@[i as int]);
                        assert(items@.take(i as int).push(items@[i as int]) =~= items@.take(i + 1));
                    }
                    acc.append(piece.as_str());
                    i = i + 1;
                }
                proof {
                    assert(items@.take(items@.len() as int) =~= items@);
                }
                acc
            },
            GrowthBookAttributeValue::Object(fields) => {
                let mut acc = String::new();
                let mut i: usize = 0;
                while i < fields.len()
                    invariant
                        i <= fields@.len(),
                        self == GrowthBookAttributeValue::Object(*fields),
                        val_wf(*self),
                        val_size(*self) == 1 + attrs_size(fields@),
                        acc@ =~= stringify_attrs(fields@.take(i as int)),
                    decreases fields@.len() - i,
                {
                    proof {
                        lemma_attrs_size_index(fields@, i as int);
                        lemma_attrs_wf_pointwise(fields@);
                    }
                    let piece = fields[i].value.to_string();
                    proof {
                        lemma_stringify_attrs_snoc(fields@.take(i as int), fields@[i as int]);
                        assert(fields@.take(i as int).push(fields@[i as int]) =~= fields@.take(
                            i + 1,
                        ));
                    }
                    acc.append(piece.as_str());
                    i = i + 1;
                }
                proof {
                    assert(fields@.take(fields@.len() as int) =~= fields@);
                }
                acc
            },
        }
    }

    /// A structurally equal copy of the value.
    pub fn deep_clone(&self) -> (r: GrowthBookAttributeValue)
        ensures
            spec_value_eq(r, *self),
            val_size(r) == val_size(*self),
            val_wf(r) == val_wf(*self),
        decreases val_size(*self),
    {
        match self {
            GrowthBookAttributeValue::Empty => GrowthBookAttributeValue::Empty,
            GrowthBookAttributeValue::String(it) => GrowthBookAttributeValue::String(
                it.as_str().to_owned(),
            ),
            GrowthBookAttributeValue::Int(it) => GrowthBookAttributeValue::Int(*it),
            GrowthBookAttributeValue::Float(d) => GrowthBookAttributeValue::Float(*d),
            GrowthBookAttributeValue::Bool(it) => GrowthBookAttributeValue::Bool(*it),
            GrowthBookAttributeValue::Array(items) => {
                let mut out: Vec<GrowthBookAttributeValue> = Vec::new();
                let mut i: usize = 0;
                while i < items.len()
                    invariant
                        i <= items@.len(),
                        self == GrowthBookAttributeValue::Array(*items),
                        out@.len() == i,
                        forall|j: int|
                            0 <= j < i ==> spec_value_eq(out@[j], items@[j]) && val_size(out@[j])
                                == val_size(items@[j]) && val_wf(out@[j]) == val_wf(items@[j]),
                    decreases items@.len() - i,
                {
                    proof {
                        lemma_vals_size_index(items@, i as int);
                    }
                    let piece = items[i].deep_clone();
                    out.push(piece);
                    i = i + 1;
                }
                proof {
                    lemma_vals_eq_pointwise(out@, items@);
                    lemma_vals_wf_pointwise(out@);
                    lemma_vals_wf_pointwise(items@);
                    lemma_vals_size_pointwise(out@, items@);
                }
                GrowthBookAttributeValue::Array(out)
            },
            GrowthBookAttributeValue::Object(fields) => {
                let mut out: Vec<GrowthBookAttribute> = Vec::new();
                let mut i: usize = 0;
                while i < fields.len()
                    invariant
                        i <= fields@.len(),
                        self == GrowthBookAttributeValue::Object(*fields),
                        out@.len() == i,
                        forall|j: int|
                            0 <= j < i ==> out@[j].key@ == fields@[j].key@ && spec_value_eq(
                                out@[j].value,
                                fields@[j].value,
                            ) && val_size(out@[j].value) == val_size(fields@[j].value) && val_wf(
                                out@[j].value,
                            ) == val_wf(fields@[j].value),
                    decreases fields@.len() - i,
                {
                    proof {
                        lemma_attrs_size_index(fields@, i as int);
                    }
                    let piece = fields[i].value.deep_clone();
                    let key = fields[i].key.as_str().to_owned();
                    out.push(GrowthBookAttribute { key, value: piece });
                    i = i + 1;
                }
                proof {
                    lemma_attrs_eq_pointwise(out@, fields@);
                    lemma_attrs_wf_pointwise(out@);
                    lemma_attrs_wf_pointwise(fields@);
                    lemma_attrs_size_pointwise(out@, fields@);
                }
                GrowthBookAttributeValue::Object(out)
            },
        }
    }
}

proof fn lemma_vals_size_pointwise(xs: Seq<GrowthBookAttributeValue>, ys: Seq<GrowthBookAttributeValue>)
    requires
        xs.len() == ys.len(),
        forall|j: int| 0 <= j < xs.len() ==> val_size(xs[j]) == val_size(ys[j]),
    ensures
        vals_size(xs) == vals_size(ys),
    decreases xs.len(),
{
    if xs.len() > 0 {
        assert(forall|j: int|
            1 <= j < xs.len() ==> xs.drop_first()[j - 1] == xs[j] && ys.drop_first()[j - 1]
                == ys[j]);
        lemma_vals_size_pointwise(xs.drop_first(), ys.drop_first());
    }
}

proof fn lemma_attrs_size_pointwise(xs: Seq<GrowthBookAttribute>, ys: Seq<GrowthBookAttribute>)
    requires
        xs.len() == ys.len(),
        forall|j: int| 0 <= j < xs.len() ==> val_size(xs[j].value) == val_size(ys[j].value),
    ensures
        attrs_size(xs) == attrs_size(ys),
    decreases xs.len(),
{
    if xs.len() > 0 {
        assert(forall|j: int|
            1 <= j < xs.len() ==> xs.drop_first()[j - 1] == xs[j] && ys.drop_first()[j - 1]
                == ys[j]);
        lemma_attrs_size_pointwise(xs.drop_first(), ys.drop_first());
    }
}

} // verus!
