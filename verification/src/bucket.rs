//! Bucket arithmetic: equal weights, bucket ranges, variation choice and
//! namespace inclusion.
//!
//! Weights, coverage and hash buckets are carried in parts per billion
//! (`1_000_000_000` is the whole unit). Range endpoints are carried at scale
//! `10^18`, the product of two parts-per-billion quantities, so building a
//! range from a weight and a coverage never rounds.

use vstd::prelude::*;

use crate::hash::PPB_ONE;

verus! {

use vstd::string::StringExecFns;
use vstd::arithmetic::div_mod::lemma_fundamental_div_mod;

/// One whole unit at range scale: `10^18`.
pub const RANGE_ONE: u64 = 1000000000000000000;

/// A half-open bucket interval `[lo, hi)` at scale `10^18`.
#[derive(Clone, Copy, Debug, PartialEq, Eq, Structural)]
pub struct BucketRange {
    pub lo: u64,
    pub hi: u64,
}

/// Sum of a weight sequence.
pub open spec fn weights_sum(s: Seq<u64>) -> int
    decreases s,
{
    if s.len() == 0 {
        0
    } else {
        s[0] + weights_sum(s.drop_first())
    }
}

/// `n` equal weights of `1/n`, in parts per billion, rounded down.
pub open spec fn equal_weights(n: nat) -> Seq<u64> {
    Seq::new(n, |i: int| ((PPB_ONE as nat) / n) as u64)
}

/// Coverage clamped into `[0, 1]`.
pub open spec fn clamp_coverage(c: int) -> u64 {
    if c < 0 {
        0
    } else if c > PPB_ONE {
        PPB_ONE as u64
    } else {
        c as u64
    }
}

/// Weights are usable when there is one per variation and they sum to within
/// one percent of the whole unit.
pub open spec fn valid_weights(n: nat, ws: Seq<u64>) -> bool {
    ws.len() == n && n > 0 && 990000000 <= weights_sum(ws) <= 1010000000
}

/// The weights actually used: the given ones when usable, else equal weights.
pub open spec fn effective_weights(n: nat, ws: Option<Seq<u64>>) -> Seq<u64> {
    match ws {
        Some(w) => if valid_weights(n, w) {
            w
        } else {
            equal_weights(n)
        },
        None => equal_weights(n),
    }
}

/// Cumulative weight before index `i`.
pub open spec fn cum_weight(ws: Seq<u64>, i: int) -> int {
    weights_sum(ws.take(i))
}

/// The ranges cut from the unit interval: range `i` starts at the cumulative
/// weight before it and covers `ws[i] * cov` of the unit.
pub open spec fn spec_ranges(ws: Seq<u64>, cov: u64) -> Seq<BucketRange> {
    Seq::new(
        ws.len(),
        |i: int|
            BucketRange {
                lo: (cum_weight(ws, i) * (PPB_ONE as int)) as u64,
                hi: (cum_weight(ws, i) * (PPB_ONE as int) + ws[i] * cov) as u64,
            },
    )
}

/// The ranges for `n` variations under the given coverage and weights.
pub open spec fn spec_bucket_ranges(n: nat, cov: int, ws: Option<Seq<u64>>) -> Seq<BucketRange> {
    spec_ranges(effective_weights(n, ws), clamp_coverage(cov))
}

/// The first range containing `p` (at scale `10^18`), or `-1`.
pub open spec fn spec_choose_variation(p: int, rs: Seq<BucketRange>) -> int
    decreases rs,
{
    if rs.len() == 0 {
        -1
    } else if rs[0].lo <= p < rs[0].hi {
        0
    } else {
        let t = spec_choose_variation(p, rs.drop_first());
        if t == -1 {
            -1
        } else {
            1 + t
        }
    }
}

/// Adding an element adds its weight.
pub proof fn lemma_weights_sum_snoc(s: Seq<u64>, x: u64)
    ensures
        weights_sum(s.push(x)) == weights_sum(s) + x,
    decreases s.len(),
{
    if s.len() == 0 {
        assert(s.push(x)[0] == x);
        assert(s.push(x).drop_first() =~= Seq::<u64>::empty());
        assert(weights_sum(Seq::<u64>::empty()) == 0);
    } else {
        assert(s.push(x)[0] == s[0]);
        assert(s.push(x).drop_first() =~= s.drop_first().push(x));
        lemma_weights_sum_snoc(s.drop_first(), x);
    }
}

/// Weight sums are nonnegative.
pub proof fn lemma_weights_sum_nonneg(s: Seq<u64>)
    ensures
        weights_sum(s) >= 0,
    decreases s.len(),
{
    if s.len() > 0 {
        lemma_weights_sum_nonneg(s.drop_first());
    }
}

/// A sum splits at any index.
pub proof fn lemma_weights_sum_split(s: Seq<u64>, i: int)
    requires
        0 <= i <= s.len(),
    ensures
        weights_sum(s) == weights_sum(s.take(i)) + weights_sum(s.skip(i)),
    decreases i,
{
    if i == 0 {
        assert(s.take(0) =~= Seq::<u64>::empty());
        assert(s.skip(0) =~= s);
    } else {
        assert(s.len() > 0);
        lemma_weights_sum_split(s.drop_first(), i - 1);
        assert(s.take(i)[0] == s[0]);
        assert(s.take(i).drop_first() =~= s.drop_first().take(i - 1));
        assert(s.skip(i) =~= s.drop_first().skip(i - 1));
    }
}

/// A prefix sum is at most the whole sum.
pub proof fn lemma_weights_sum_take_le(s: Seq<u64>, i: int)
    requires
        0 <= i <= s.len(),
    ensures
        0 <= weights_sum(s.take(i)) <= weights_sum(s),
{
    lemma_weights_sum_split(s, i);
    lemma_weights_sum_nonneg(s.take(i));
    lemma_weights_sum_nonneg(s.skip(i));
}

/// Each element is at most the whole sum.
pub proof fn lemma_weights_sum_element_le(s: Seq<u64>, i: int)
    requires
        0 <= i < s.len(),
    ensures
        s[i] <= weights_sum(s),
{
    lemma_weights_sum_split(s, i);
    lemma_weights_sum_nonneg(s.take(i));
    lemma_weights_sum_nonneg(s.skip(i).drop_first());
    assert(s.skip(i)[0] == s[i]);
}

/// The sum of a uniform sequence.
pub proof fn lemma_uniform_sum(s: Seq<u64>, v: u64)
    requires
        forall|j: int| 0 <= j < s.len() ==> s[j] == v,
    ensures
        weights_sum(s) == s.len() * v,
    decreases s.len(),
{
    if s.len() == 0 {
    } else {
        assert(forall|j: int| 0 <= j < s.drop_first().len() ==> s.drop_first()[j] == s[j + 1]);
        lemma_uniform_sum(s.drop_first(), v);
        assert(s.len() * v == (s.len() - 1) * v + v) by (nonlinear_arith);
    }
}

/// Equal weights sum to at most the whole unit.
pub proof fn lemma_equal_weights_sum(n: nat)
    ensures
        weights_sum(equal_weights(n)) == n * ((PPB_ONE as nat) / n),
        weights_sum(equal_weights(n)) <= PPB_ONE,
{
    lemma_uniform_sum(equal_weights(n), ((PPB_ONE as nat) / n) as u64);
    if n > 0 {
        lemma_fundamental_div_mod(PPB_ONE as int, n as int);
        assert((PPB_ONE as int) % (n as int) >= 0);
    }
}

/// `n` equal weights, as [`equal_weights`] states them.
pub fn get_equal_weights(n: usize) -> (r: Vec<u64>)
    ensures
        r@ == equal_weights(n as nat),
{
    let mut r: Vec<u64> = Vec::new();
    if n == 0 {
        proof {
            assert(r@ =~= equal_weights(0));
        }
        return r;
    }
    let w: u64 = PPB_ONE / (n as u64);
    let mut i: usize = 0;
    while i < n
        invariant
            i <= n,
            n > 0,
            w == (PPB_ONE as nat) / (n as nat),
            r@.len() == i,
            forall|j: int| 0 <= j < i ==> r@[j] == w,
        decreases n - i,
    {
        r.push(w);
        i = i + 1;
    }
    proof {
        assert(r@ =~= equal_weights(n as nat));
    }
    r
}

/// Ranges for `n` variations: coverage is clamped to the unit interval, the
/// weights are replaced by equal ones when unusable, and range `i` is
/// `[cum_i, cum_i + w_i * cov)` at scale `10^18`, as [`spec_bucket_ranges`]
/// states it.
pub fn get_bucket_ranges(n: usize, coverage: i64, weights: Option<&Vec<u64>>) -> (r: Vec<
    BucketRange,
>)
    ensures
        r@ == spec_bucket_ranges(
            n as nat,
            coverage as int,
            match weights {
                Some(w) => Some(w@),
                None => None,
            },
        ),
{
    let cov: u64 = if coverage < 0 {
        0
    } else if coverage > PPB_ONE as i64 {
        PPB_ONE
    } else {
        coverage as u64
    };
    let ghost ws_opt: Option<Seq<u64>> = match weights {
        Some(w) => Some(w@),
        None => None,
    };
    let ew: Vec<u64> = match weights {
        Some(w) => {
            if w.len() == n && n > 0 {
                let mut sum: u128 = 0;
                let mut i: usize = 0;
                proof {
                    assert(w@.take(0) =~= Seq::<u64>::empty());
                }
                while i < w.len()
                    invariant
                        i <= w@.len(),
                        sum == weights_sum(w@.take(i as int)),
                    decreases w@.len() - i,
                {
                    proof {
                        lemma_weights_sum_snoc(w@.take(i as int), w@[i as int]);
                        assert(w@.take(i as int).push(w@[i as int]) =~= w@.take(i + 1));
                        lemma_weights_sum_nonneg(w@.take(i as int));
                        assert(sum + w@[i as int] <= 0xffffffffffffffffffffffffffffffff) by {
                            lemma_weights_sum_take_le(w@, i as int);
                            lemma_weights_sum_bound(w@);
                        }
                    }
                    sum = sum + (w[i] as u128);
                    i = i + 1;
                }
                proof {
                    assert(w@.take(w@.len() as int) =~= w@);
                }
                if 990000000 <= sum && sum <= 1010000000 {
                    let mut copy: Vec<u64> = Vec::new();
                    let mut i: usize = 0;
                    while i < w.len()
                        invariant
                            i <= w@.len(),
                            copy@ =~= w@.take(i as int),
                        decreases w@.len() - i,
                    {
                        proof {
                            assert(w@.take(i as int).push(w@[i as int]) =~= w@.take(i + 1));
                        }
                        copy.push(w[i]);
                        i = i + 1;
                    }
                    proof {
                        assert(w@.take(w@.len() as int) =~= w@);
                        assert(copy@ =~= w@);
                    }
                    copy
                } else {
                    get_equal_weights(n)
                }
            } else {
                get_equal_weights(n)
            }
        },
        None => get_equal_weights(n),
    };
    proof {
        assert(ew@ == effective_weights(n as nat, ws_opt));
        lemma_equal_weights_sum(n as nat);
        assert(weights_sum(ew@) <= 1010000000);
        lemma_weights_sum_nonneg(ew@);
    }
    let mut r: Vec<BucketRange> = Vec::new();
    let mut cum: u64 = 0;
    let mut i: usize = 0;
    proof {
        assert(ew@.take(0) =~= Seq::<u64>::empty());
    }
    while i < ew.len()
        invariant
            i <= ew@.len(),
            weights_sum(ew@) <= 1010000000,
            cov <= PPB_ONE,
            cum == weights_sum(ew@.take(i as int)),
            r@.len() == i,
            forall|j: int| 0 <= j < i ==> r@[j] == spec_ranges(ew@, cov)[j],
        decreases ew@.len() - i,
    {
        let w = ew[i];
        proof {
            lemma_weights_sum_take_le(ew@, i as int);
            lemma_weights_sum_element_le(ew@, i as int);
            assert((cum as int) * (PPB_ONE as int) <= 1010000000 * 1000000000) by (nonlinear_arith)
                requires
                    0 <= cum as int <= 1010000000,
            ;
            assert((w as int) * (cov as int) <= 1010000000 * 1000000000) by (nonlinear_arith)
                requires
                    0 <= w as int <= 1010000000,
                    0 <= cov as int <= 1000000000,
            ;
            assert((w as int) * (cov as int) >= 0) by (nonlinear_arith)
                requires
                    w as int >= 0,
                    cov as int >= 0,
            ;
        }
        let lo: u64 = cum * PPB_ONE;
        let hi: u64 = lo + w * cov;
        r.push(BucketRange { lo, hi });
        proof {
            lemma_weights_sum_snoc(ew@.take(i as int), ew@[i as int]);
            assert(ew@.take(i as int).push(ew@[i as int]) =~= ew@.take(i + 1));
        }
        cum = cum + w;
        i = i + 1;
    }
    proof {
        assert(r@ =~= spec_ranges(ew@, cov));
        assert(cov == clamp_coverage(coverage as int));
    }
    r
}

/// Weight sums stay far below the `u128` limit.
proof fn lemma_weights_sum_bound(s: Seq<u64>)
    ensures
        weights_sum(s) <= s.len() * 0xffffffffffffffff,
    decreases s.len(),
{
    if s.len() > 0 {
        lemma_weights_sum_bound(s.drop_first());
        assert(s.len() * 0xffffffffffffffff == (s.len() - 1) * 0xffffffffffffffff
            + 0xffffffffffffffff) by (nonlinear_arith);
    }
}

/// The search result is `-1` or an index.
pub proof fn lemma_choose_ge_neg1(p: int, rs: Seq<BucketRange>)
    ensures
        spec_choose_variation(p, rs) >= -1,
        spec_choose_variation(p, rs) < rs.len(),
    decreases rs.len(),
{
    if rs.len() > 0 {
        lemma_choose_ge_neg1(p, rs.drop_first());
    }
}

/// Scanning from `i` relates the scan tail to the whole search.
proof fn lemma_choose_skip(p: int, rs: Seq<BucketRange>, i: int)
    requires
        0 <= i <= rs.len(),
        forall|j: int| 0 <= j < i ==> !(#[trigger] rs[j].lo <= p < rs[j].hi),
    ensures
        spec_choose_variation(p, rs) == if spec_choose_variation(p, rs.skip(i)) == -1 {
            -1
        } else {
            i + spec_choose_variation(p, rs.skip(i))
        },
    decreases i,
{
    if i == 0 {
        assert(rs.skip(0) =~= rs);
    } else {
        assert(rs.len() > 0);
        assert(!(rs[0].lo <= p < rs[0].hi));
        assert(forall|j: int| 0 <= j < i - 1 ==> rs.drop_first()[j] == rs[j + 1]);
        lemma_choose_skip(p, rs.drop_first(), i - 1);
        assert(rs.skip(i) =~= rs.drop_first().skip(i - 1));
        lemma_choose_ge_neg1(p, rs.drop_first().skip(i - 1));
        lemma_choose_ge_neg1(p, rs.drop_first());
    }
}

/// The first range containing the bucket, as [`spec_choose_variation`]
/// states it; `n` is the bucket in parts per billion.
pub fn choose_variation(n: u64, ranges: &Vec<BucketRange>) -> (r: i64)
    requires
        n <= PPB_ONE,
        ranges@.len() <= 0x7fffffffffffffff,
    ensures
        r == spec_choose_variation((n as int) * (PPB_ONE as int), ranges@),
{
    let p: u64 = n * PPB_ONE;
    let mut i: usize = 0;
    while i < ranges.len()
        invariant
            i <= ranges@.len(),
            ranges@.len() <= 0x7fffffffffffffff,
            p == (n as int) * (PPB_ONE as int),
            forall|j: int| 0 <= j < i ==> !(#[trigger] ranges@[j].lo <= p < ranges@[j].hi),
        decreases ranges@.len() - i,
    {
        let lo = ranges[i].lo;
        let hi = ranges[i].hi;
        if lo <= p && p < hi {
            proof {
                lemma_choose_skip(p as int, ranges@, i as int);
                assert(ranges@.skip(i as int)[0] == ranges@[i as int]);
            }
            return i as i64;
        }
        i = i + 1;
    }
    proof {
        lemma_choose_skip(p as int, ranges@, ranges@.len() as int);
        assert(ranges@.skip(ranges@.len() as int).len() == 0);
    }
    -1
}

/// Sum of the widths of a range list.
pub open spec fn widths_sum(rs: Seq<BucketRange>) -> int
    decreases rs,
{
    if rs.len() == 0 {
        0
    } else {
        rs[0].hi - rs[0].lo + widths_sum(rs.drop_first())
    }
}

/// Ranges are well formed: each is an interval, and they appear in order
/// without overlap.
pub open spec fn wf_ranges(rs: Seq<BucketRange>) -> bool {
    (forall|i: int| 0 <= i < rs.len() ==> (#[trigger] rs[i]).lo <= rs[i].hi) && (forall|i: int, j: int|
        0 <= i < j < rs.len() ==> (#[trigger] rs[i]).hi <= (#[trigger] rs[j]).lo)
}

proof fn lemma_cum_weight_mono(ws: Seq<u64>, a: int, b: int)
    requires
        0 <= a <= b <= ws.len(),
    ensures
        cum_weight(ws, a) <= cum_weight(ws, b),
{
    assert(ws.take(b).take(a) =~= ws.take(a));
    lemma_weights_sum_take_le(ws.take(b), a);
}

proof fn lemma_cum_weight_step(ws: Seq<u64>, i: int)
    requires
        0 <= i < ws.len(),
    ensures
        cum_weight(ws, i + 1) == cum_weight(ws, i) + ws[i],
{
    lemma_weights_sum_snoc(ws.take(i), ws[i]);
    assert(ws.take(i).push(ws[i]) =~= ws.take(i + 1));
}

/// Bucket ranges are in order and disjoint: every law about unique
/// variation choice rests on this.
pub proof fn lemma_bucket_ranges_wf(n: nat, cov: int, ws: Option<Seq<u64>>)
    ensures
        wf_ranges(spec_bucket_ranges(n, cov, ws)),
{
    let ew = effective_weights(n, ws);
    let c = clamp_coverage(cov);
    let rs = spec_ranges(ew, c);
    lemma_equal_weights_sum(n);
    lemma_weights_sum_nonneg(ew);
    assert(weights_sum(ew) <= 1010000000);
    assert forall|i: int| 0 <= i < rs.len() implies (#[trigger] rs[i]).lo <= rs[i].hi by {
        lemma_weights_sum_take_le(ew, i);
        lemma_weights_sum_element_le(ew, i);
        assert(0 <= (ew[i] as int) * (c as int) <= 1010000000 * 1000000000) by (nonlinear_arith)
            requires
                0 <= ew[i] as int <= 1010000000,
                0 <= c as int <= 1000000000,
        ;
        assert(0 <= cum_weight(ew, i) * (PPB_ONE as int) <= 1010000000 * 1000000000)
            by (nonlinear_arith)
            requires
                0 <= cum_weight(ew, i) <= 1010000000,
        ;
    }
    assert forall|i: int, j: int| 0 <= i < j < rs.len() implies (#[trigger] rs[i]).hi <= (
    #[trigger] rs[j]).lo by {
        lemma_weights_sum_take_le(ew, i);
        lemma_weights_sum_take_le(ew, j);
        lemma_weights_sum_element_le(ew, i);
        lemma_cum_weight_step(ew, i);
        lemma_cum_weight_mono(ew, i + 1, j);
        assert((ew[i] as int) * (c as int) <= (ew[i] as int) * 1000000000) by (nonlinear_arith)
            requires
                0 <= ew[i] as int,
                0 <= c as int <= 1000000000,
        ;
        assert(0 <= (ew[i] as int) * (c as int)) by (nonlinear_arith)
            requires
                0 <= ew[i] as int,
                0 <= c as int,
        ;
        assert(cum_weight(ew, i) * (PPB_ONE as int) + (ew[i] as int) * 1000000000 == cum_weight(
            ew,
            i + 1,
        ) * (PPB_ONE as int)) by (nonlinear_arith)
            requires
                cum_weight(ew, i + 1) == cum_weight(ew, i) + ew[i],
        ;
        assert(cum_weight(ew, i + 1) * (PPB_ONE as int) <= cum_weight(ew, j) * (PPB_ONE as int))
            by (nonlinear_arith)
            requires
                cum_weight(ew, i + 1) <= cum_weight(ew, j),
        ;
        assert(0 <= cum_weight(ew, i) * (PPB_ONE as int) <= 1010000000 * 1000000000)
            by (nonlinear_arith)
            requires
                0 <= cum_weight(ew, i) <= 1010000000,
        ;
        assert(0 <= cum_weight(ew, j) * (PPB_ONE as int) <= 1010000000 * 1000000000)
            by (nonlinear_arith)
            requires
                0 <= cum_weight(ew, j) <= 1010000000,
        ;
    }
}

/// The choice law: on well-formed ranges the chosen index is the unique
/// range containing the bucket, and `-1` means no range contains it.
pub proof fn lemma_choose_variation_unique(p: int, rs: Seq<BucketRange>)
    requires
        wf_ranges(rs),
    ensures
        spec_choose_variation(p, rs) == -1 ==> forall|i: int|
            0 <= i < rs.len() ==> !((#[trigger] rs[i]).lo <= p < rs[i].hi),
        spec_choose_variation(p, rs) >= 0 ==> {
            let k = spec_choose_variation(p, rs);
            k < rs.len() && rs[k].lo <= p < rs[k].hi && (forall|i: int|
                0 <= i < rs.len() && i != k ==> !((#[trigger] rs[i]).lo <= p < rs[i].hi))
        },
    decreases rs.len(),
{
    lemma_choose_ge_neg1(p, rs);
    if rs.len() > 0 {
        if rs[0].lo <= p < rs[0].hi {
            assert forall|i: int| 0 <= i < rs.len() && i != 0 implies !((#[trigger] rs[i]).lo <= p
                < rs[i].hi) by {
                assert(rs[0].hi <= rs[i].lo);
            }
        } else {
            assert(wf_ranges(rs.drop_first())) by {
                assert(forall|i: int|
                    0 <= i < rs.drop_first().len() ==> rs.drop_first()[i] == rs[i + 1]);
            }
            lemma_choose_variation_unique(p, rs.drop_first());
            lemma_choose_ge_neg1(p, rs.drop_first());
            assert(forall|i: int|
                0 <= i < rs.drop_first().len() ==> rs.drop_first()[i] == rs[i + 1]);
            if spec_choose_variation(p, rs) == -1 {
                assert(spec_choose_variation(p, rs.drop_first()) == -1);
                assert forall|i: int| 0 <= i < rs.len() implies !((#[trigger] rs[i]).lo <= p
                    < rs[i].hi) by {
                    if i > 0 {
                        assert(rs[i] == rs.drop_first()[i - 1]);
                    }
                }
            } else {
                let k = spec_choose_variation(p, rs);
                assert(k == 1 + spec_choose_variation(p, rs.drop_first()));
                assert(rs[k] == rs.drop_first()[k - 1]);
                assert forall|i: int| 0 <= i < rs.len() && i != k implies !((#[trigger] rs[i]).lo
                    <= p < rs[i].hi) by {
                    if i > 0 {
                        assert(rs[i] == rs.drop_first()[i - 1]);
                    }
                }
            }
        }
    }
}

proof fn lemma_widths_sum_pointwise(rs1: Seq<BucketRange>, rs2: Seq<BucketRange>)
    requires
        rs1.len() == rs2.len(),
        forall|i: int|
            0 <= i < rs1.len() ==> (#[trigger] rs1[i]).hi - rs1[i].lo == (#[trigger] rs2[i]).hi
                - rs2[i].lo,
    ensures
        widths_sum(rs1) == widths_sum(rs2),
    decreases rs1.len(),
{
    if rs1.len() > 0 {
        assert(forall|i: int|
            0 <= i < rs1.drop_first().len() ==> rs1.drop_first()[i] == rs1[i + 1]
                && rs2.drop_first()[i] == rs2[i + 1]);
        lemma_widths_sum_pointwise(rs1.drop_first(), rs2.drop_first());
    }
}

proof fn lemma_ranges_widths(ws: Seq<u64>, cov: u64)
    requires
        0 <= weights_sum(ws) <= 1010000000,
        forall|i: int| 0 <= i < ws.len() ==> ws[i] <= weights_sum(ws),
        cov <= PPB_ONE,
    ensures
        widths_sum(spec_ranges(ws, cov)) == (cov as int) * weights_sum(ws),
    decreases ws.len(),
{
    let rs = spec_ranges(ws, cov);
    if ws.len() == 0 {
        assert((cov as int) * 0 == 0) by (nonlinear_arith);
    } else {
        lemma_weights_sum_nonneg(ws.drop_first());
        assert(ws.take(0) =~= Seq::<u64>::empty());
        assert(cum_weight(ws, 0) == 0);
        assert(0 <= (ws[0] as int) * (cov as int) <= 1010000000 * 1000000000) by (nonlinear_arith)
            requires
                0 <= ws[0] as int <= 1010000000,
                0 <= cov as int <= 1000000000,
        ;
        assert(rs[0].hi - rs[0].lo == (ws[0] as int) * (cov as int));
        let tail = ws.drop_first();
        assert(forall|i: int| 0 <= i < tail.len() ==> tail[i] == ws[i + 1]);
        assert(weights_sum(ws) == ws[0] + weights_sum(tail));
        assert(forall|i: int| 0 <= i < tail.len() ==> tail[i] <= weights_sum(tail)) by {
            assert forall|i: int| 0 <= i < tail.len() implies tail[i] <= weights_sum(tail) by {
                lemma_weights_sum_element_le(tail, i);
            }
        }
        lemma_ranges_widths(tail, cov);
        assert(rs.drop_first().len() == spec_ranges(tail, cov).len());
        assert forall|i: int| 0 <= i < rs.drop_first().len() implies (#[trigger] rs.drop_first()[i]).hi
            - rs.drop_first()[i].lo == (#[trigger] spec_ranges(tail, cov)[i]).hi - spec_ranges(
            tail,
            cov,
        )[i].lo by {
            assert(rs.drop_first()[i] == rs[i + 1]);
            lemma_weights_sum_take_le(ws, i + 1);
            lemma_weights_sum_element_le(ws, i + 1);
            assert(0 <= cum_weight(ws, i + 1) * (PPB_ONE as int) <= 1010000000 * 1000000000)
                by (nonlinear_arith)
                requires
                    0 <= cum_weight(ws, i + 1) <= 1010000000,
            ;
            assert(0 <= (ws[i + 1] as int) * (cov as int) <= 1010000000 * 1000000000)
                by (nonlinear_arith)
                requires
                    0 <= ws[i + 1] as int <= 1010000000,
                    0 <= cov as int <= 1000000000,
            ;
            lemma_weights_sum_take_le(tail, i);
            lemma_weights_sum_element_le(tail, i);
            assert(0 <= cum_weight(tail, i) * (PPB_ONE as int) <= 1010000000 * 1000000000)
                by (nonlinear_arith)
                requires
                    0 <= cum_weight(tail, i) <= 1010000000,
            ;
            assert(rs[i + 1].hi - rs[i + 1].lo == (ws[i + 1] as int) * (cov as int));
            assert(spec_ranges(tail, cov)[i].hi - spec_ranges(tail, cov)[i].lo == (tail[i] as int)
                * (cov as int));
        }
        lemma_widths_sum_pointwise(rs.drop_first(), spec_ranges(tail, cov));
        assert((cov as int) * weights_sum(ws) == (ws[0] as int) * (cov as int) + (cov as int)
            * weights_sum(tail)) by (nonlinear_arith)
            requires
                weights_sum(ws) == ws[0] + weights_sum(tail),
        ;
    }
}

/// The bucket-range law: when the weights in effect sum to exactly the whole
/// unit, the widths of the ranges sum to exactly the clamped coverage
/// (`clamp * 10^9` at range scale, with no rounding at all).
pub proof fn lemma_bucket_range_width_law(n: nat, cov: int, ws: Option<Seq<u64>>)
    requires
        weights_sum(effective_weights(n, ws)) == PPB_ONE,
    ensures
        widths_sum(spec_bucket_ranges(n, cov, ws)) == (clamp_coverage(cov) as int) * (
        PPB_ONE as int),
{
    let ew = effective_weights(n, ws);
    assert forall|i: int| 0 <= i < ew.len() implies ew[i] <= weights_sum(ew) by {
        lemma_weights_sum_element_le(ew, i);
    }
    lemma_ranges_widths(ew, clamp_coverage(cov));
}

/// A namespace: an identifier and a slice `[lo, hi)` of the unit interval,
/// in parts per billion.
#[derive(Debug)]
pub struct Namespace {
    pub id: String,
    pub lo: u64,
    pub hi: u64,
}

/// Whether the hash value falls in the namespace: the version-1 bucket of
/// the value under seed `"__" + id` lies in `[lo, hi)`. The seed convention
/// is the one the cross-SDK namespace inclusion vectors pin down; prose
/// descriptions of it circulate in both argument orders, but only this
/// seeding reproduces those vectors.
pub fn in_namespace(hash_value: &str, ns: &Namespace) -> (r: bool)
    ensures
        r == {
            let b = crate::hash::spec_hash_v1(seq!['_', '_'] + ns.id@, hash_value@);
            ns.lo <= b < ns.hi
        },
{
    let mut seed = "__".to_owned();
    proof {
        reveal_strlit("__");
        assert(seed@ =~= seq!['_', '_']);
    }
    seed.append(ns.id.as_str());
    match crate::hash::gb_hash(seed.as_str(), hash_value, 1) {
        Some(b) => ns.lo <= b && b < ns.hi,
        None => false,
    }
}

} // verus!
