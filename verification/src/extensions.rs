//! Dotted-path lookup into an attribute bag.
//!
//! A key such as `father.age` descends into nested object values. A missing
//! attribute is `None`, which is distinct from an explicit null value.

use vstd::prelude::*;

use crate::model_public::{GrowthBookAttribute, GrowthBookAttributeValue};

verus! {

use vstd::string::StrSliceExecFns;

/// Index of the first `.` in `key`, or `key.len()` when there is none.
pub open spec fn dot_idx(key: Seq<char>) -> nat
    decreases key,
{
    if key.len() == 0 {
        0
    } else if key[0] == '.' {
        0
    } else {
        1 + dot_idx(key.drop_first())
    }
}

/// Characterization of [`dot_idx`] from a left-to-right scan.
pub proof fn lemma_dot_idx_scan(key: Seq<char>, i: int)
    requires
        0 <= i <= key.len(),
        forall|j: int| 0 <= j < i ==> key[j] != '.',
        i < key.len() ==> key[i] == '.',
        i == key.len() || key[i] == '.',
    ensures
        dot_idx(key) == i,
    decreases key.len(),
{
    if key.len() > 0 {
        if i == 0 {
        } else {
            assert(key[0] != '.');
            assert(forall|j: int|
                0 <= j < i - 1 ==> key.drop_first()[j] == key[j + 1] && key[j + 1] != '.');
            if i - 1 < key.drop_first().len() {
                assert(key.drop_first()[i - 1] == key[i]);
            }
            lemma_dot_idx_scan(key.drop_first(), i - 1);
        }
    }
}

/// First value in the bag whose key equals `key` exactly.
pub open spec fn spec_lookup(attrs: Seq<GrowthBookAttribute>, key: Seq<char>) -> Option<
    GrowthBookAttributeValue,
>
    decreases attrs,
{
    if attrs.len() == 0 {
        None
    } else if attrs[0].key@ == key {
        Some(attrs[0].value)
    } else {
        spec_lookup(attrs.drop_first(), key)
    }
}

/// Dotted-path lookup: the segment before the first `.` is looked up in the
/// bag; when more segments remain the walk continues inside the value, which
/// must be an object, else the result is missing.
pub open spec fn spec_find_value(attrs: Seq<GrowthBookAttribute>, key: Seq<char>) -> Option<
    GrowthBookAttributeValue,
>
    decreases key.len(),
{
    let i = dot_idx(key) as int;
    if i >= key.len() {
        spec_lookup(attrs, key)
    } else {
        match spec_lookup(attrs, key.take(i)) {
            Some(GrowthBookAttributeValue::Object(fields)) => spec_find_value(
                fields@,
                key.skip(i + 1),
            ),
            _ => None,
        }
    }
}

/// A value looked up in a well-formed bag is well formed.
pub proof fn lemma_lookup_wf(attrs: Seq<GrowthBookAttribute>, key: Seq<char>)
    requires
        crate::model_public::attrs_wf(attrs),
    ensures
        spec_lookup(attrs, key) matches Some(v) ==> crate::model_public::val_wf(v),
    decreases attrs.len(),
{
    if attrs.len() > 0 && attrs[0].key@ != key {
        lemma_lookup_wf(attrs.drop_first(), key);
    }
}

/// A value found in a well-formed bag is well formed.
pub proof fn lemma_find_value_wf(attrs: Seq<GrowthBookAttribute>, key: Seq<char>)
    requires
        crate::model_public::attrs_wf(attrs),
    ensures
        spec_find_value(attrs, key) matches Some(v) ==> crate::model_public::val_wf(v),
    decreases key.len(),
{
    let i = dot_idx(key) as int;
    if i >= key.len() {
        lemma_lookup_wf(attrs, key);
    } else {
        lemma_lookup_wf(attrs, key.take(i));
        match spec_lookup(attrs, key.take(i)) {
            Some(GrowthBookAttributeValue::Object(fields)) => {
                lemma_find_value_wf(fields@, key.skip(i + 1));
            },
            _ => {},
        }
    }
}

/// Looks a whole key up in the bag, without descending.
fn lookup<'a>(attrs: &'a [GrowthBookAttribute], key: &str) -> (r: Option<
    &'a GrowthBookAttributeValue,
>)
    ensures
        match r {
            Some(v) => spec_lookup(attrs@, key@) == Some(*v),
            None => spec_lookup(attrs@, key@) is None,
        },
{
    let n = attrs.len();
    let mut i: usize = 0;
    proof {
        assert(attrs@.skip(0) =~= attrs@);
    }
    while i < n
        invariant
            n == attrs@.len(),
            i <= n,
            spec_lookup(attrs@, key@) == spec_lookup(attrs@.skip(i as int), key@),
        decreases n - i,
    {
        proof {
            assert(attrs@.skip(i as int)[0] == attrs@[i as int]);
            assert(attrs@.skip(i as int).drop_first() =~= attrs@.skip(i + 1));
        }
        if crate::model_public::str_eq(attrs[i].key.as_str(), key) {
            return Some(&attrs[i].value);
        }
        i = i + 1;
    }
    proof {
        assert(attrs@.skip(n as int).len() == 0);
    }
    None
}

/// Dotted-path lookup, as [`spec_find_value`] states it.
pub fn find_value<'a>(attrs: &'a [GrowthBookAttribute], key: &str) -> (r: Option<
    &'a GrowthBookAttributeValue,
>)
    ensures
        match r {
            Some(v) => spec_find_value(attrs@, key@) == Some(*v),
            None => spec_find_value(attrs@, key@) is None,
        },
    decreases key@.len(),
{
    let klen = key.unicode_len();
    let mut di: usize = 0;
    let mut found = false;
    while di < klen && !found
        invariant
            klen == key@.len(),
            di <= klen,
            forall|j: int| 0 <= j < di ==> key@[j] != '.',
            found ==> di < klen && key@[di as int] == '.',
        decreases klen - di, if found {
            0int
        } else {
            1int
        },
    {
        if key.get_char(di) == '.' {
            found = true;
        } else {
            di = di + 1;
        }
    }
    proof {
        lemma_dot_idx_scan(key@, di as int);
    }
    if !found {
        lookup(attrs, key)
    } else {
        let seg = key.substring_char(0, di);
        proof {
            assert(seg@ =~= key@.take(di as int));
        }
        match lookup(attrs, seg) {
            Some(GrowthBookAttributeValue::Object(fields)) => {
                let rest = key.substring_char(di + 1, klen);
                proof {
                    assert(rest@ =~= key@.skip(di + 1));
                }
                find_value(fields.as_slice(), rest)
            },
            _ => None,
        }
    }
}

} // verus!
