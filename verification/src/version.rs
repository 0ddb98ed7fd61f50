//! Semantic-version normalization.
//!
//! A raw version string is canonicalized into a form whose plain
//! lexicographic order reproduces semantic-version precedence: the leading
//! `v` and any build metadata (from `+` on) are dropped, the string is split
//! on `.` and `-`, a release with exactly three parts gains the sentinel `~`
//! (which sorts after digits and letters, so a release outranks its own
//! prereleases), numeric-leading parts are left-padded to five digits with
//! zeros, and the parts are rejoined with `-`.

use vstd::prelude::*;

verus! {

use vstd::string::StrSliceExecFns;

/// Whether a character is an ASCII digit.
pub open spec fn is_digit(c: char) -> bool {
    48 <= c as u32 <= 57
}

/// Index of the first `+`, or the length when there is none.
pub open spec fn plus_idx(s: Seq<char>) -> nat
    decreases s,
{
    if s.len() == 0 {
        0
    } else if s[0] == '+' {
        0
    } else {
        1 + plus_idx(s.drop_first())
    }
}

/// Index of the first separator (`.` or `-`), or the length.
pub open spec fn sep_idx(s: Seq<char>) -> nat
    decreases s,
{
    if s.len() == 0 {
        0
    } else if s[0] == '.' || s[0] == '-' {
        0
    } else {
        1 + sep_idx(s.drop_first())
    }
}

/// Drops a leading `v` and everything from the first `+` on.
pub open spec fn strip_v_plus(s: Seq<char>) -> Seq<char> {
    let s1 = if s.len() > 0 && s[0] == 'v' {
        s.drop_first()
    } else {
        s
    };
    s1.take(plus_idx(s1) as int)
}

/// The non-empty parts of `s` split on `.` and `-`.
pub open spec fn split_parts(s: Seq<char>) -> Seq<Seq<char>>
    decreases s.len(),
{
    let i = sep_idx(s) as int;
    if i >= s.len() {
        if s.len() == 0 {
            Seq::empty()
        } else {
            seq![s]
        }
    } else {
        let head = s.take(i);
        let rest = split_parts(s.skip(i + 1));
        if head.len() == 0 {
            rest
        } else {
            seq![head] + rest
        }
    }
}

/// A part that starts with a digit is left-padded to five characters with
/// zeros; other parts are kept as they are.
pub open spec fn pad_part(p: Seq<char>) -> Seq<char> {
    if p.len() > 0 && is_digit(p[0]) {
        if p.len() >= 5 {
            p
        } else {
            crate::model_public::char_zeros((5 - p.len()) as nat) + p
        }
    } else {
        p
    }
}

/// Parts joined with `-`.
pub open spec fn join_dash(parts: Seq<Seq<char>>) -> Seq<char>
    decreases parts.len(),
{
    if parts.len() == 0 {
        Seq::empty()
    } else if parts.len() == 1 {
        parts[0]
    } else {
        parts[0] + seq!['-'] + join_dash(parts.drop_first())
    }
}

/// The normalized form of a version string. When nothing remains after
/// stripping and splitting, the original string is returned unchanged.
pub open spec fn spec_normalize_version(s: Seq<char>) -> Seq<char> {
    let parts = split_parts(strip_v_plus(s));
    let parts2 = if parts.len() == 3 {
        parts.push(seq!['~'])
    } else {
        parts
    };
    if parts2.len() == 0 {
        s
    } else {
        join_dash(parts2.map_values(|p: Seq<char>| pad_part(p)))
    }
}

/// Lexicographic order on character sequences, by code point; for strings
/// this coincides with byte order of their UTF-8 forms.
pub open spec fn lex_lt(a: Seq<char>, b: Seq<char>) -> bool
    decreases a.len(),
{
    if b.len() == 0 {
        false
    } else if a.len() == 0 {
        true
    } else if (a[0] as u32) < (b[0] as u32) {
        true
    } else if (a[0] as u32) > (b[0] as u32) {
        false
    } else {
        lex_lt(a.drop_first(), b.drop_first())
    }
}

proof fn lemma_plus_idx_scan(s: Seq<char>, i: int)
    requires
        0 <= i <= s.len(),
        forall|j: int| 0 <= j < i ==> s[j] != '+',
        i == s.len() || s[i] == '+',
    ensures
        plus_idx(s) == i,
    decreases s.len(),
{
    if s.len() > 0 && i > 0 {
        assert(s[0] != '+');
        assert(forall|j: int| 0 <= j < i - 1 ==> s.drop_first()[j] == s[j + 1]);
        if i - 1 < s.drop_first().len() {
            assert(s.drop_first()[i - 1] == s[i]);
        }
        lemma_plus_idx_scan(s.drop_first(), i - 1);
    }
}

proof fn lemma_sep_idx_scan(s: Seq<char>, i: int)
    requires
        0 <= i <= s.len(),
        forall|j: int| 0 <= j < i ==> s[j] != '.' && s[j] != '-',
        i == s.len() || s[i] == '.' || s[i] == '-',
    ensures
        sep_idx(s) == i,
    decreases s.len(),
{
    if s.len() > 0 && i > 0 {
        assert(s[0] != '.' && s[0] != '-');
        assert(forall|j: int| 0 <= j < i - 1 ==> s.drop_first()[j] == s[j + 1]);
        if i - 1 < s.drop_first().len() {
            assert(s.drop_first()[i - 1] == s[i]);
        }
        lemma_sep_idx_scan(s.drop_first(), i - 1);
    }
}

/// The characters of a string slice, in order.
pub fn chars_of(s: &str) -> (r: Vec<char>)
    ensures
        r@ == s@,
{
    let n = s.unicode_len();
    let mut r: Vec<char> = Vec::new();
    let mut i: usize = 0;
    while i < n
        invariant
            n == s@.len(),
            i <= n,
            r@ =~= s@.take(i as int),
        decreases n - i,
    {
        let c = s.get_char(i);
        proof {
            assert(s@.take(i as int).push(s@[i as int]) =~= s@.take(i + 1));
        }
        r.push(c);
        i = i + 1;
    }
    proof {
        assert(s@.take(n as int) =~= s@);
    }
    r
}

pub(crate) fn vec_take(v: &Vec<char>, n: usize) -> (r: Vec<char>)
    requires
        n <= v@.len(),
    ensures
        r@ == v@.take(n as int),
{
    let mut r: Vec<char> = Vec::new();
    let mut i: usize = 0;
    while i < n
        invariant
            i <= n <= v@.len(),
            r@ =~= v@.take(i as int),
        decreases n - i,
    {
        proof {
            assert(v@.take(i as int).push(v@[i as int]) =~= v@.take(i + 1));
        }
        r.push(v[i]);
        i = i + 1;
    }
    r
}

pub(crate) fn vec_skip(v: &Vec<char>, n: usize) -> (r: Vec<char>)
    requires
        n <= v@.len(),
    ensures
        r@ == v@.skip(n as int),
{
    let mut r: Vec<char> = Vec::new();
    let mut i: usize = n;
    while i < v.len()
        invariant
            n <= i <= v@.len(),
            r@ =~= v@.subrange(n as int, i as int),
        decreases v@.len() - i,
    {
        proof {
            assert(v@.subrange(n as int, i as int).push(v@[i as int]) =~= v@.subrange(
                n as int,
                i + 1,
            ));
        }
        r.push(v[i]);
        i = i + 1;
    }
    proof {
        assert(v@.subrange(n as int, v@.len() as int) =~= v@.skip(n as int));
    }
    r
}

fn find_sep(v: &Vec<char>) -> (r: usize)
    ensures
        r == sep_idx(v@),
        r <= v@.len(),
{
    let mut i: usize = 0;
    while i < v.len()
        invariant
            i <= v@.len(),
            forall|j: int| 0 <= j < i ==> v@[j] != '.' && v@[j] != '-',
        decreases v@.len() - i,
    {
        let c = v[i];
        if c == '.' || c == '-' {
            proof {
                lemma_sep_idx_scan(v@, i as int);
            }
            return i;
        }
        i = i + 1;
    }
    proof {
        lemma_sep_idx_scan(v@, v@.len() as int);
    }
    i
}

fn split_parts_exec(v: &Vec<char>) -> (r: Vec<Vec<char>>)
    ensures
        r@.len() == split_parts(v@).len(),
        forall|j: int| 0 <= j < r@.len() ==> r@[j]@ == split_parts(v@)[j],
    decreases v@.len(),
{
    let i = find_sep(v);
    if i >= v.len() {
        let mut r: Vec<Vec<char>> = Vec::new();
        if v.len() > 0 {
            let whole = vec_take(v, v.len());
            proof {
                assert(v@.take(v@.len() as int) =~= v@);
            }
            r.push(whole);
        }
        r
    } else {
        let head = vec_take(v, i);
        let tail = vec_skip(v, i + 1);
        let rest = split_parts_exec(&tail);
        if head.len() == 0 {
            rest
        } else {
            let mut r: Vec<Vec<char>> = Vec::new();
            r.push(head);
            let mut k: usize = 0;
            while k < rest.len()
                invariant
                    k <= rest@.len(),
                    r@.len() == 1 + k,
                    r@[0]@ == v@.take(i as int),
                    forall|j: int| 0 <= j < k ==> r@[j + 1]@ == rest@[j]@,
                decreases rest@.len() - k,
            {
                let mut piece: Vec<char> = Vec::new();
                let mut t: usize = 0;
                while t < rest[k].len()
                    invariant
                        k < rest@.len(),
                        t <= rest@[k as int]@.len(),
                        piece@ =~= rest@[k as int]@.take(t as int),
                    decreases rest@[k as int]@.len() - t,
                {
                    proof {
                        assert(rest@[k as int]@.take(t as int).push(rest@[k as int]@[t as int])
                            =~= rest@[k as int]@.take(t + 1));
                    }
                    piece.push(rest[k][t]);
                    t = t + 1;
                }
                proof {
                    assert(rest@[k as int]@.take(rest@[k as int]@.len() as int) =~= rest@[k as int]@);
                }
                r.push(piece);
                k = k + 1;
            }
            proof {
                let sp = split_parts(v@);
                assert(sp =~= seq![v@.take(i as int)] + split_parts(v@.skip(i + 1)));
                assert(forall|j: int| 0 <= j < r@.len() ==> r@[j]@ == sp[j]);
            }
            r
        }
    }
}

fn pad_part_exec(p: Vec<char>) -> (r: Vec<char>)
    ensures
        r@ == pad_part(p@),
{
    if p.len() > 0 {
        let c = p[0];
        let u = c as u32;
        if 48 <= u && u <= 57 {
            if p.len() >= 5 {
                return p;
            }
            let zeros: usize = 5 - p.len();
            let mut r: Vec<char> = Vec::new();
            let mut z: usize = 0;
            while z < zeros
                invariant
                    z <= zeros,
                    r@ =~= crate::model_public::char_zeros(z as nat),
                decreases zeros - z,
            {
                proof {
                    crate::model_public::lemma_char_zeros_snoc(z as nat);
                }
                r.push('0');
                z = z + 1;
            }
            let mut k: usize = 0;
            while k < p.len()
                invariant
                    k <= p@.len(),
                    zeros == 5 - p@.len(),
                    r@ =~= crate::model_public::char_zeros(zeros as nat) + p@.take(k as int),
                decreases p@.len() - k,
            {
                proof {
                    assert(p@.take(k as int).push(p@[k as int]) =~= p@.take(k + 1));
                }
                r.push(p[k]);
                k = k + 1;
            }
            proof {
                assert(p@.take(p@.len() as int) =~= p@);
            }
            return r;
        }
        p
    } else {
        p
    }
}

proof fn lemma_join_dash_snoc(parts: Seq<Seq<char>>, x: Seq<char>)
    requires
        parts.len() >= 1,
    ensures
        join_dash(parts.push(x)) == join_dash(parts) + seq!['-'] + x,
    decreases parts.len(),
{
    if parts.len() == 1 {
        assert(parts.push(x)[0] == parts[0]);
        assert(parts.push(x).drop_first() =~= seq![x]);
        assert(join_dash(seq![x]) == x);
        assert(join_dash(parts.push(x)) =~= join_dash(parts) + seq!['-'] + x);
    } else {
        assert(parts.push(x)[0] == parts[0]);
        assert(parts.push(x).drop_first() =~= parts.drop_first().push(x));
        lemma_join_dash_snoc(parts.drop_first(), x);
        assert(parts[0] + seq!['-'] + (join_dash(parts.drop_first()) + seq!['-'] + x) =~= (parts[0]
            + seq!['-'] + join_dash(parts.drop_first())) + seq!['-'] + x);
    }
}

/// The normalized form of a version, as [`spec_normalize_version`] states
/// it.
pub fn normalize_version(version: &str) -> (r: String)
    ensures
        r@ == spec_normalize_version(version@),
{
    let chars = chars_of(version);
    let stripped: Vec<char> = {
        let dropped = if chars.len() > 0 && chars[0] == 'v' {
            vec_skip(&chars, 1)
        } else {
            vec_skip(&chars, 0)
        };
        proof {
            assert(chars@.skip(0) =~= chars@);
            assert(chars@.skip(1) =~= chars@.drop_first());
        }
        let mut pi: usize = 0;
        let mut found = false;
        while pi < dropped.len() && !found
            invariant
                pi <= dropped@.len(),
                forall|j: int| 0 <= j < pi ==> dropped@[j] != '+',
                found ==> pi < dropped@.len() && dropped@[pi as int] == '+',
            decreases dropped@.len() - pi, if found {
                0int
            } else {
                1int
            },
        {
            if dropped[pi] == '+' {
                found = true;
            } else {
                pi = pi + 1;
            }
        }
        proof {
            lemma_plus_idx_scan(dropped@, pi as int);
        }
        vec_take(&dropped, pi)
    };
    proof {
        assert(stripped@ == strip_v_plus(version@));
    }
    let parts = split_parts_exec(&stripped);
    let ghost sp = split_parts(stripped@);
    let three = parts.len() == 3;
    let mut padded: Vec<Vec<char>> = Vec::new();
    let ghost sp2 = if sp.len() == 3 {
        sp.push(seq!['~'])
    } else {
        sp
    };
    let mut k: usize = 0;
    while k < parts.len()
        invariant
            k <= parts@.len(),
            parts@.len() == sp.len(),
            forall|j: int| 0 <= j < parts@.len() ==> parts@[j]@ == sp[j],
            padded@.len() == k,
            forall|j: int| 0 <= j < k ==> padded@[j]@ == pad_part(sp[j]),
        decreases parts@.len() - k,
    {
        let mut piece: Vec<char> = Vec::new();
        let mut t: usize = 0;
        while t < parts[k].len()
            invariant
                k < parts@.len(),
                t <= parts@[k as int]@.len(),
                piece@ =~= parts@[k as int]@.take(t as int),
            decreases parts@[k as int]@.len() - t,
        {
            proof {
                assert(parts@[k as int]@.take(t as int).push(parts@[k as int]@[t as int]) =~= parts@[k as int]@.take(t + 1));
            }
            piece.push(parts[k][t]);
            t = t + 1;
        }
        proof {
            assert(parts@[k as int]@.take(parts@[k as int]@.len() as int) =~= parts@[k as int]@);
        }
        let pp = pad_part_exec(piece);
        padded.push(pp);
        k = k + 1;
    }
    if three {
        let mut tilde: Vec<char> = Vec::new();
        tilde.push('~');
        proof {
            assert(tilde@ =~= seq!['~']);
            assert(pad_part(seq!['~']) == seq!['~']);
        }
        padded.push(tilde);
    }
    proof {
        assert(padded@.len() == sp2.len());
        assert(forall|j: int| 0 <= j < padded@.len() ==> padded@[j]@ == pad_part(sp2[j]));
    }
    if padded.len() == 0 {
        let r = version.to_owned();
        proof {
            assert(sp2.map_values(|p: Seq<char>| pad_part(p)).len() == 0);
        }
        return r;
    }
    let mut out: Vec<char> = Vec::new();
    let mut first = true;
    let mut k2: usize = 0;
    let ghost mapped = sp2.map_values(|p: Seq<char>| pad_part(p));
    while k2 < padded.len()
        invariant
            k2 <= padded@.len(),
            padded@.len() == mapped.len(),
            mapped.len() > 0,
            forall|j: int| 0 <= j < padded@.len() ==> padded@[j]@ == mapped[j],
            first == (k2 == 0),
            k2 > 0 ==> out@ == join_dash(mapped.take(k2 as int)),
            k2 == 0 ==> out@.len() == 0,
        decreases padded@.len() - k2,
    {
        if !first {
            out.push('-');
        }
        let mut t: usize = 0;
        let ghost out_before = out@;
        while t < padded[k2].len()
            invariant
                k2 < padded@.len(),
                t <= padded@[k2 as int]@.len(),
                out@ =~= out_before + padded@[k2 as int]@.take(t as int),
            decreases padded@[k2 as int]@.len() - t,
        {
            proof {
                assert(padded@[k2 as int]@.take(t as int).push(padded@[k2 as int]@[t as int]) =~= padded@[k2 as int]@.take(t + 1));
            }
            out.push(padded[k2][t]);
            t = t + 1;
        }
        proof {
            assert(padded@[k2 as int]@.take(padded@[k2 as int]@.len() as int) =~= padded@[k2 as int]@);
            if k2 == 0 {
                assert(out@ =~= mapped[0]);
                assert(mapped.take(1) =~= seq![mapped[0]]);
                assert(join_dash(mapped.take(1)) == mapped[0]);
            } else {
                lemma_join_dash_snoc(mapped.take(k2 as int), mapped[k2 as int]);
                assert(mapped.take(k2 as int).push(mapped[k2 as int]) =~= mapped.take(k2 + 1));
                assert(out@ =~= join_dash(mapped.take(k2 as int)) + seq!['-'] + mapped[k2 as int]);
            }
        }
        first = false;
        k2 = k2 + 1;
    }
    proof {
        assert(mapped.take(mapped.len() as int) =~= mapped);
    }
    crate::numstr::chars_to_string(&out)
}

proof fn lemma_dec_chars_digits(n: nat)
    ensures
        crate::feature::condition::all_digits(crate::numstr::u64_dec_chars(n)),
        crate::feature::condition::digits_num(crate::numstr::u64_dec_chars(n)) == n,
    decreases n,
{
    let s = crate::numstr::u64_dec_chars(n);
    if n < 10 {
        assert(s =~= seq![crate::numstr::digit_char(n)]);
        assert(s.drop_last() =~= Seq::<char>::empty());
        assert(crate::numstr::digit_char(n) as u32 == 48 + n);
        assert(crate::feature::condition::digits_num(Seq::<char>::empty()) == 0);
        assert(crate::feature::condition::digits_num(s) == crate::feature::condition::digits_num(
            s.drop_last(),
        ) * 10 + (s.last() as u32 - 48));
    } else {
        lemma_dec_chars_digits(n / 10);
        let head = crate::numstr::u64_dec_chars(n / 10);
        assert(crate::numstr::digit_char(n % 10) as u32 == 48 + n % 10);
        assert(s =~= head.push(crate::numstr::digit_char(n % 10)));
        assert(s.drop_last() =~= head);
        assert(forall|i: int| 0 <= i < head.len() ==> s[i] == head[i]);
        assert(crate::feature::condition::digits_num(s) == crate::feature::condition::digits_num(
            head,
        ) * 10 + (n % 10));
    }
}

proof fn lemma_dec_chars_len(n: nat, k: nat)
    requires
        n < crate::model_public::pow10(k as int as nat),
        k >= 1,
    ensures
        crate::numstr::u64_dec_chars(n).len() <= k,
    decreases n,
{
    if n < 10 {
    } else {
        assert(k >= 2) by {
            if k == 1 {
                assert(crate::model_public::pow10(1) == 10) by {
                    reveal_with_fuel(crate::model_public::pow10, 2);
                }
            }
        }
        assert(n / 10 < crate::model_public::pow10((k - 1) as nat)) by {
            assert(crate::model_public::pow10(k as nat) == 10 * crate::model_public::pow10(
                (k - 1) as nat,
            ));
        }
        lemma_dec_chars_len(n / 10, (k - 1) as nat);
    }
}

proof fn lemma_zeros_digits(z: nat)
    ensures
        forall|i: int|
            0 <= i < crate::model_public::char_zeros(z).len() ==> crate::model_public::char_zeros(
                z,
            )[i] == '0',
        crate::model_public::char_zeros(z).len() == z,
    decreases z,
{
    if z > 0 {
        lemma_zeros_digits((z - 1) as nat);
    }
}

proof fn lemma_digits_num_prefix_zeros(z: nat, s: Seq<char>)
    requires
        forall|i: int| 0 <= i < s.len() ==> crate::version::is_digit(#[trigger] s[i]),
    ensures
        crate::feature::condition::digits_num(crate::model_public::char_zeros(z) + s)
            == crate::feature::condition::digits_num(s),
    decreases s.len(),
{
    lemma_zeros_digits(z);
    let zs = crate::model_public::char_zeros(z);
    if s.len() == 0 {
        assert(zs + s =~= zs);
        lemma_all_zeros_num(zs);
    } else {
        assert((zs + s).drop_last() =~= zs + s.drop_last());
        assert((zs + s).last() == s.last());
        assert(forall|i: int| 0 <= i < s.drop_last().len() ==> s.drop_last()[i] == s[i]);
        lemma_digits_num_prefix_zeros(z, s.drop_last());
    }
}

proof fn lemma_all_zeros_num(s: Seq<char>)
    requires
        forall|i: int| 0 <= i < s.len() ==> s[i] == '0',
    ensures
        crate::feature::condition::digits_num(s) == 0,
    decreases s.len(),
{
    if s.len() > 0 {
        assert(forall|i: int| 0 <= i < s.drop_last().len() ==> s.drop_last()[i] == s[i]);
        lemma_all_zeros_num(s.drop_last());
        assert(s.last() == '0');
    }
}

proof fn lemma_digits_num_bound(s: Seq<char>)
    requires
        forall|i: int| 0 <= i < s.len() ==> crate::version::is_digit(#[trigger] s[i]),
    ensures
        0 <= crate::feature::condition::digits_num(s) < crate::model_public::pow10(s.len()),
    decreases s.len(),
{
    if s.len() == 0 {
    } else {
        assert(forall|i: int| 0 <= i < s.drop_last().len() ==> s.drop_last()[i] == s[i]);
        lemma_digits_num_bound(s.drop_last());
        let h = crate::feature::condition::digits_num(s.drop_last());
        let p = crate::model_public::pow10((s.len() - 1) as nat);
        assert(crate::model_public::pow10(s.len()) == 10 * p);
        assert(h * 10 + (s.last() as u32 - 48) < 10 * p) by (nonlinear_arith)
            requires
                0 <= h < p,
                s.last() as u32 - 48 <= 9,
        ;
    }
}

proof fn lemma_digits_num_front(s: Seq<char>)
    requires
        s.len() > 0,
        forall|i: int| 0 <= i < s.len() ==> crate::version::is_digit(#[trigger] s[i]),
    ensures
        crate::feature::condition::digits_num(s) == (s[0] as u32 - 48) * crate::model_public::pow10(
            (s.len() - 1) as nat,
        ) + crate::feature::condition::digits_num(s.drop_first()),
    decreases s.len(),
{
    if s.len() == 1 {
        assert(s.drop_first() =~= Seq::<char>::empty());
        assert(s.drop_last() =~= Seq::<char>::empty());
    } else {
        assert(forall|i: int| 0 <= i < s.drop_last().len() ==> s.drop_last()[i] == s[i]);
        lemma_digits_num_front(s.drop_last());
        assert(s.drop_last().drop_first() =~= s.drop_first().drop_last());
        assert(s.drop_first().last() == s.last());
        assert(forall|i: int|
            0 <= i < s.drop_first().len() ==> s.drop_first()[i] == s[i + 1]);
        let a = s[0] as u32 - 48;
        let p = crate::model_public::pow10((s.len() - 2) as nat);
        let tail_head = crate::feature::condition::digits_num(s.drop_first().drop_last());
        assert(crate::feature::condition::digits_num(s.drop_last()) == a * p + tail_head);
        assert(crate::model_public::pow10((s.len() - 1) as nat) == 10 * p);
        assert(crate::feature::condition::digits_num(s.drop_first()) == tail_head * 10 + (
        s.last() as u32 - 48));
        assert(crate::feature::condition::digits_num(s) == crate::feature::condition::digits_num(
            s.drop_last(),
        ) * 10 + (s.last() as u32 - 48));
        assert((a * p + tail_head) * 10 + (s.last() as u32 - 48) == a * (10 * p) + (tail_head * 10
            + (s.last() as u32 - 48))) by (nonlinear_arith);
    }
}

proof fn lemma_same_len_digit_order(a: Seq<char>, b: Seq<char>)
    requires
        a.len() == b.len(),
        forall|i: int| 0 <= i < a.len() ==> crate::version::is_digit(#[trigger] a[i]),
        forall|i: int| 0 <= i < b.len() ==> crate::version::is_digit(#[trigger] b[i]),
        crate::feature::condition::digits_num(a) < crate::feature::condition::digits_num(b),
    ensures
        lex_lt(a, b),
    decreases a.len(),
{
    assert(b.len() > 0) by {
        if b.len() == 0 {
            assert(a =~= Seq::<char>::empty());
        }
    }
    lemma_digits_num_front(a);
    lemma_digits_num_front(b);
    assert(forall|i: int| 0 <= i < a.drop_first().len() ==> a.drop_first()[i] == a[i + 1]);
    assert(forall|i: int| 0 <= i < b.drop_first().len() ==> b.drop_first()[i] == b[i + 1]);
    lemma_digits_num_bound(a.drop_first());
    lemma_digits_num_bound(b.drop_first());
    let da = a[0] as u32 - 48;
    let db = b[0] as u32 - 48;
    let p = crate::model_public::pow10((a.len() - 1) as nat);
    if da < db {
        assert((a[0] as u32) < (b[0] as u32));
    } else if da > db {
        assert(da * p + crate::feature::condition::digits_num(a.drop_first()) >= db * p + p)
            by (nonlinear_arith)
            requires
                da >= db + 1,
                p > 0,
                crate::feature::condition::digits_num(a.drop_first()) >= 0,
        ;
        assert(db * p + p > db * p + crate::feature::condition::digits_num(b.drop_first()));
        assert(false);
    } else {
        assert(crate::feature::condition::digits_num(a.drop_first())
            < crate::feature::condition::digits_num(b.drop_first()));
        lemma_same_len_digit_order(a.drop_first(), b.drop_first());
    }
}

/// The monotonicity of version normalization on numeric parts: two purely
/// numeric parts of up to five digits compare lexicographically, after
/// padding, exactly as the numbers they name compare. This is the step
/// that makes normalized versions order correctly.
pub proof fn lemma_pad_part_numeric_order(a: nat, b: nat)
    requires
        a < b,
        b < 100000,
    ensures
        lex_lt(
            pad_part(crate::numstr::u64_dec_chars(a)),
            pad_part(crate::numstr::u64_dec_chars(b)),
        ),
{
    let sa = crate::numstr::u64_dec_chars(a);
    let sb = crate::numstr::u64_dec_chars(b);
    lemma_dec_chars_digits(a);
    lemma_dec_chars_digits(b);
    assert(crate::model_public::pow10(5) == 100000) by {
        reveal_with_fuel(crate::model_public::pow10, 6);
    }
    lemma_dec_chars_len(a, 5);
    lemma_dec_chars_len(b, 5);
    assert(sa.len() >= 1 && sb.len() >= 1) by {
        reveal_with_fuel(crate::numstr::u64_dec_chars, 2);
    }
    assert(is_digit(sa[0]) && is_digit(sb[0]));
    let pa = pad_part(sa);
    let pb = pad_part(sb);
    assert(pa =~= crate::model_public::char_zeros((5 - sa.len()) as nat) + sa);
    assert(pb =~= crate::model_public::char_zeros((5 - sb.len()) as nat) + sb);
    lemma_zeros_digits((5 - sa.len()) as nat);
    lemma_zeros_digits((5 - sb.len()) as nat);
    lemma_digits_num_prefix_zeros((5 - sa.len()) as nat, sa);
    lemma_digits_num_prefix_zeros((5 - sb.len()) as nat, sb);
    assert(pa.len() == 5 && pb.len() == 5);
    assert(forall|i: int| 0 <= i < pa.len() ==> is_digit(#[trigger] pa[i])) by {
        assert(forall|i: int| 0 <= i < sa.len() ==> is_digit(#[trigger] sa[i]));
    }
    assert(forall|i: int| 0 <= i < pb.len() ==> is_digit(#[trigger] pb[i])) by {
        assert(forall|i: int| 0 <= i < sb.len() ==> is_digit(#[trigger] sb[i]));
    }
    lemma_same_len_digit_order(pa, pb);
}

/// Lexicographic strictly-less on character vectors, as [`lex_lt`] states
/// it.
pub fn lex_lt_exec(a: &Vec<char>, b: &Vec<char>) -> (r: bool)
    ensures
        r == lex_lt(a@, b@),
{
    let mut i: usize = 0;
    let mut r = false;
    proof {
        assert(a@.skip(0) =~= a@);
        assert(b@.skip(0) =~= b@);
    }
    loop
        invariant_except_break
            i <= a@.len(),
            i <= b@.len(),
            lex_lt(a@, b@) == lex_lt(a@.skip(i as int), b@.skip(i as int)),
        ensures
            lex_lt(a@, b@) == r,
        decreases a@.len() - i,
    {
        proof {
            if i < a@.len() {
                assert(a@.skip(i as int)[0] == a@[i as int]);
            }
            if i < b@.len() {
                assert(b@.skip(i as int)[0] == b@[i as int]);
            }
            assert(a@.skip(i as int).len() == a@.len() - i);
            assert(b@.skip(i as int).len() == b@.len() - i);
        }
        if i >= b.len() {
            r = false;
            break;
        }
        if i >= a.len() {
            r = true;
            break;
        }
        let ca = a[i] as u32;
        let cb = b[i] as u32;
        if ca < cb {
            r = true;
            break;
        }
        if ca > cb {
            r = false;
            break;
        }
        proof {
            assert(a@.skip(i as int).drop_first() =~= a@.skip(i + 1));
            assert(b@.skip(i as int).drop_first() =~= b@.skip(i + 1));
        }
        i = i + 1;
    }
    r
}

} // verus!
