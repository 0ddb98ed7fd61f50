//! The hashing test vectors: both hash versions must be bit-identical to
//! the shared corpus, with buckets reported in parts per billion.

use growthbook_rust_sdk::hash::gb_hash;

#[test]
fn hash_v1_vectors() {
    // (seed, value, bucket in parts per billion)
    let cases: Vec<(&str, &str, u64)> = vec![
        ("", "a", 220_000_000),
        ("", "b", 77_000_000),
        ("b", "a", 946_000_000),
        ("ef", "d", 652_000_000),
        ("asdf", "8952klfjas09ujk", 549_000_000),
        ("", "123", 11_000_000),
        ("", "___)((*\":&", 563_000_000),
    ];
    for (seed, value, expected) in cases {
        assert_eq!(gb_hash(seed, value, 1), Some(expected), "seed={seed} value={value}");
    }
}

#[test]
fn hash_v2_vectors() {
    let cases: Vec<(&str, &str, u64)> = vec![
        ("seed", "a", 50_500_000),
        ("seed", "b", 269_600_000),
        ("foo", "ab", 257_500_000),
        ("foo", "def", 201_900_000),
        ("89123klj", "8952klfjas09ujkasdf", 124_000_000),
        ("90850943850283058242805", "123", 751_600_000),
        ("()**(%$##$%#$#", "___)((*\":&", 12_800_000),
    ];
    for (seed, value, expected) in cases {
        assert_eq!(gb_hash(seed, value, 2), Some(expected), "seed={seed} value={value}");
    }
}

#[test]
fn hash_unknown_version_has_no_bucket() {
    assert_eq!(gb_hash("abc", "def", 99), None);
    assert_eq!(gb_hash("abc", "def", 0), None);
}
