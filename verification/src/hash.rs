//! The two deterministic bucketing hashes.
//!
//! Both are built on 32-bit FNV-1a over UTF-8 bytes, with offset basis
//! 2166136261 and prime 16777619. Version 1 reduces `value + seed` modulo
//! a thousand; version 2 re-hashes the decimal text of the first hash of
//! `seed + value` and reduces modulo ten thousand. Buckets are returned in
//! parts per billion, so `220_000_000` stands for `0.22`.

use vstd::prelude::*;

verus! {

use vstd::string::StrSliceExecFns;
use vstd::utf8::encode_utf8;

/// FNV-1a offset basis.
pub const FNV_OFFSET: u32 = 2166136261;

/// FNV-1a prime.
pub const FNV_PRIME: u32 = 16777619;

/// One whole unit in parts per billion.
pub const PPB_ONE: u64 = 1000000000;

/// One FNV-1a round: xor the byte in, multiply by the prime modulo `2^32`.
pub open spec fn fnv1a_step(h: u32, b: u8) -> u32 {
    ((((h ^ (b as u32)) as nat) * (FNV_PRIME as nat)) % 4294967296) as u32
}

/// FNV-1a folded over `bytes` starting from accumulator `h`.
pub open spec fn fnv1a_from(h: u32, bytes: Seq<u8>) -> u32
    decreases bytes,
{
    if bytes.len() == 0 {
        h
    } else {
        fnv1a_from(fnv1a_step(h, bytes[0]), bytes.drop_first())
    }
}

/// 32-bit FNV-1a of a byte sequence.
pub open spec fn fnv1a(bytes: Seq<u8>) -> u32 {
    fnv1a_from(FNV_OFFSET, bytes)
}

/// The decimal text of `n` as ASCII bytes, most significant digit first.
pub open spec fn u64_dec_bytes(n: nat) -> Seq<u8>
    decreases n,
{
    if n < 10 {
        seq![(('0' as u8) + n) as u8]
    } else {
        u64_dec_bytes(n / 10).push((('0' as u8) + n % 10) as u8)
    }
}

/// The version-1 bucket of `(seed, value)`, in parts per billion: FNV-1a of
/// `value + seed` modulo a thousand, scaled up by a million.
pub open spec fn spec_hash_v1(seed: Seq<char>, value: Seq<char>) -> u64 {
    (((fnv1a(encode_utf8(value) + encode_utf8(seed)) as nat) % 1000) * 1000000) as u64
}

/// The version-2 bucket of `(seed, value)`, in parts per billion: FNV-1a of
/// the decimal text of FNV-1a of `seed + value`, modulo ten thousand, scaled
/// up by a hundred thousand.
pub open spec fn spec_hash_v2(seed: Seq<char>, value: Seq<char>) -> u64 {
    (((fnv1a(u64_dec_bytes(fnv1a(encode_utf8(seed) + encode_utf8(value)) as nat)) as nat) % 10000)
        * 100000) as u64
}

/// The bucket for any version: versions other than 1 and 2 have none.
pub open spec fn spec_hash(seed: Seq<char>, value: Seq<char>, version: u8) -> Option<u64> {
    if version == 1 {
        Some(spec_hash_v1(seed, value))
    } else if version == 2 {
        Some(spec_hash_v2(seed, value))
    } else {
        None
    }
}

proof fn lemma_fnv1a_from_snoc(h: u32, s: Seq<u8>, x: u8)
    ensures
        fnv1a_from(h, s.push(x)) == fnv1a_step(fnv1a_from(h, s), x),
    decreases s.len(),
{
    if s.len() == 0 {
        assert(s.push(x)[0] == x);
        assert(s.push(x).drop_first() =~= Seq::<u8>::empty());
        assert(fnv1a_from(fnv1a_step(h, x), Seq::<u8>::empty()) == fnv1a_step(h, x));
    } else {
        assert(s.push(x)[0] == s[0]);
        assert(s.push(x).drop_first() =~= s.drop_first().push(x));
        lemma_fnv1a_from_snoc(fnv1a_step(h, s[0]), s.drop_first(), x);
    }
}

/// 32-bit FNV-1a of a byte slice, as [`fnv1a`] states it.
pub fn fnv1a_hash(bytes: &[u8]) -> (r: u32)
    ensures
        r == fnv1a(bytes@),
{
    let mut h: u32 = FNV_OFFSET;
    let mut i: usize = 0;
    proof {
        assert(bytes@.take(0) =~= Seq::<u8>::empty());
    }
    while i < bytes.len()
        invariant
            i <= bytes@.len(),
            h == fnv1a_from(FNV_OFFSET, bytes@.take(i as int)),
        decreases bytes@.len() - i,
    {
        let b = bytes[i];
        proof {
            lemma_fnv1a_from_snoc(FNV_OFFSET, bytes@.take(i as int), bytes@[i as int]);
            assert(bytes@.take(i as int).push(bytes@[i as int]) =~= bytes@.take(i + 1));
        }
        let x: u32 = h ^ (b as u32);
        let prod: u64 = (x as u64) * (FNV_PRIME as u64);
        h = (prod % 4294967296u64) as u32;
        i = i + 1;
    }
    proof {
        assert(bytes@.take(bytes@.len() as int) =~= bytes@);
    }
    h
}

/// The decimal digits of `n` as ASCII bytes.
pub fn u64_to_dec_bytes(n: u64) -> (r: Vec<u8>)
    ensures
        r@ == u64_dec_bytes(n as nat),
{
    let mut out: Vec<u8> = Vec::new();
    let mut x: u64 = n;
    loop
        invariant_except_break
            u64_dec_bytes(n as nat) =~= u64_dec_bytes(x as nat) + out@,
        ensures
            u64_dec_bytes(n as nat) =~= out@,
        decreases x,
    {
        let b: u8 = ('0' as u8) + (x % 10) as u8;
        if x < 10 {
            proof {
                assert(u64_dec_bytes(x as nat) =~= seq![b]);
                assert(u64_dec_bytes(x as nat) + out@ =~= seq![b] + out@);
            }
            out.insert(0, b);
            break;
        }
        proof {
            assert(u64_dec_bytes(x as nat) =~= u64_dec_bytes((x / 10) as nat).push(b));
            assert(u64_dec_bytes((x / 10) as nat).push(b) + out@ =~= u64_dec_bytes((x / 10) as nat)
                + (seq![b] + out@));
        }
        out.insert(0, b);
        x = x / 10;
    }
    out
}

/// The UTF-8 bytes of `first` followed by those of `second`.
fn concat_utf8(first: &str, second: &str) -> (r: Vec<u8>)
    ensures
        r@ == encode_utf8(first@) + encode_utf8(second@),
{
    let mut bytes = first.as_bytes_vec();
    bytes.extend_from_slice(second.as_bytes());
    bytes
}

/// The bucket of `(seed, value)` under the given hash version, in parts per
/// billion, as [`spec_hash`] states it; `None` for an unknown version.
pub fn gb_hash(seed: &str, value: &str, version: u8) -> (r: Option<u64>)
    ensures
        r == spec_hash(seed@, value@, version),
        r is Some ==> r->0 < PPB_ONE,
{
    if version == 1 {
        let bytes = concat_utf8(value, seed);
        let h = fnv1a_hash(bytes.as_slice());
        let n: u64 = ((h as u64) % 1000) * 1000000;
        Some(n)
    } else if version == 2 {
        let bytes = concat_utf8(seed, value);
        let h1 = fnv1a_hash(bytes.as_slice());
        let digits = u64_to_dec_bytes(h1 as u64);
        let h2 = fnv1a_hash(digits.as_slice());
        let n: u64 = ((h2 as u64) % 10000) * 100000;
        Some(n)
    } else {
        None
    }
}

} // verus!
