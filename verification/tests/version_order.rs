//! Version normalization and ordering.

use growthbook_rust_sdk::version::normalize_version;

fn version_lt(a: &str, b: &str) -> bool {
    normalize_version(a) < normalize_version(b)
}

#[test]
fn normalize_pads_and_appends_sentinel() {
    assert_eq!(normalize_version("1.2.3"), "00001-00002-00003-~");
    assert_eq!(normalize_version("v1.2.3"), "00001-00002-00003-~");
    assert_eq!(normalize_version("1.2.3+build7"), "00001-00002-00003-~");
    assert_eq!(normalize_version("1.0.0-rc.1"), "00001-00000-00000-rc-00001");
    assert_eq!(normalize_version("10.12.13"), "00010-00012-00013-~");
}

#[test]
fn release_outranks_its_prereleases() {
    assert!(version_lt("1.0.0-rc.1", "1.0.0"));
    assert!(version_lt("1.0.0-alpha", "1.0.0-rc.1"));
    assert!(!version_lt("1.0.0", "1.0.0-rc.1"));
}

#[test]
fn numeric_parts_compare_numerically() {
    assert!(version_lt("1.2.3-a.5", "1.2.3-a.10"));
    assert!(version_lt("9.99.8", "10.0.0"));
    assert!(version_lt("1.9.0", "1.10.0"));
}

#[test]
fn alphanumeric_parts_compare_lexically() {
    assert!(version_lt("1.2.3-R2", "1.2.3-r100"));
}

#[test]
fn version_range_conditions() {
    // attrs.version = 10.12.13 is inside ($vgt 9.99.8, $vlt 11.0.1)
    assert!(version_lt("9.99.8", "10.12.13"));
    assert!(version_lt("10.12.13", "11.0.1"));
    // 60.0.0 is not inside ($vgt 30.0.0, $vlt 50.0.0)
    assert!(version_lt("30.0.0", "60.0.0"));
    assert!(!version_lt("60.0.0", "50.0.0"));
}
