//! Decimal rendering of integers as character sequences.
//!
//! Several parts of the evaluation engine need the exact decimal text of an
//! integer: attribute stringification, the second hashing round (which hashes
//! the decimal text of a 32-bit hash), and sticky-bucket keys.

use vstd::prelude::*;

verus! {

/// The character for a single decimal digit (`0 <= d <= 9`).
pub open spec fn digit_char(d: nat) -> char {
    (('0' as u8) + d) as char
}

/// The decimal digits of `n`, most significant first.
pub open spec fn u64_dec_chars(n: nat) -> Seq<char>
    decreases n,
{
    if n < 10 {
        seq![digit_char(n)]
    } else {
        u64_dec_chars(n / 10).push(digit_char(n % 10))
    }
}

/// The decimal text of a signed integer: a leading `-` for negatives.
pub open spec fn i64_dec_chars(i: int) -> Seq<char> {
    if i < 0 {
        seq!['-'] + u64_dec_chars((-i) as nat)
    } else {
        u64_dec_chars(i as nat)
    }
}

/// Relies on `core::iter::Iterator::collect` for `String`: collecting chars
/// yields the string of exactly those chars in order.
#[verifier::external_body]
pub fn chars_to_string(cs: &Vec<char>) -> (r: String)
    ensures
        r@ == cs@,
{
    cs.iter().collect()
}

/// The digits of `n`, most significant first, as exec characters.
pub fn u64_dec_digits(n: u64) -> (r: Vec<char>)
    ensures
        r@ == u64_dec_chars(n as nat),
{
    let mut out: Vec<char> = Vec::new();
    let mut x: u64 = n;
    loop
        invariant_except_break
            u64_dec_chars(n as nat) =~= u64_dec_chars(x as nat) + out@,
        ensures
            u64_dec_chars(n as nat) =~= out@,
        decreases x,
    {
        let d: u8 = (x % 10) as u8;
        let c: char = (('0' as u8) + d) as char;
        if x < 10 {
            proof {
                assert(u64_dec_chars(x as nat) =~= seq![c]);
                assert(u64_dec_chars(x as nat) + out@ =~= seq![c] + out@);
            }
            out.insert(0, c);
            break;
        }
        proof {
            assert(u64_dec_chars(x as nat) =~= u64_dec_chars((x / 10) as nat).push(c));
            assert(u64_dec_chars((x / 10) as nat).push(c) + out@ =~= u64_dec_chars(
                (x / 10) as nat,
            ) + (seq![c] + out@));
        }
        out.insert(0, c);
        x = x / 10;
    }
    out
}

/// The decimal text of `n` as a `String`.
pub fn u64_to_dec_string(n: u64) -> (r: String)
    ensures
        r@ == u64_dec_chars(n as nat),
{
    let digits = u64_dec_digits(n);
    chars_to_string(&digits)
}

/// The digits of a signed integer, with a leading `-` for negatives.
pub fn i64_dec_digits(i: i64) -> (r: Vec<char>)
    ensures
        r@ == i64_dec_chars(i as int),
{
    if i >= 0 {
        u64_dec_digits(i as u64)
    } else {
        let abs: u64 = if i == i64::MIN {
            9223372036854775808u64
        } else {
            (-i) as u64
        };
        let digits = u64_dec_digits(abs);
        let mut r: Vec<char> = Vec::new();
        r.push('-');
        let mut k: usize = 0;
        while k < digits.len()
            invariant
                k <= digits@.len(),
                r@ =~= seq!['-'] + digits@.subrange(0, k as int),
            decreases digits@.len() - k,
        {
            let c = digits[k];
            proof {
                assert((seq!['-'] + digits@.subrange(0, k as int)).push(digits@[k as int]) =~= seq![
                    '-',
                ] + digits@.subrange(0, k + 1));
            }
            r.push(c);
            k = k + 1;
        }
        proof {
            assert(digits@.subrange(0, digits@.len() as int) =~= digits@);
        }
        r
    }
}

/// The decimal text of a signed integer as a `String`.
pub fn i64_to_dec_string(i: i64) -> (r: String)
    ensures
        r@ == i64_dec_chars(i as int),
{
    let digits = i64_dec_digits(i);
    chars_to_string(&digits)
}

} // verus!
