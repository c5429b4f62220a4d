use versionhub::semver_value::SemVer;
use versionhub::text::white_space;
use versionhub::versions::{get_vulnerable_versions, loose_normalize_str, loose_parse, parse_range, RangeOp};

fn strings(v: &[&str]) -> Vec<String> {
    v.iter().map(|s| s.to_string()).collect()
}

#[test]
fn test_vulnerable_range_less_than() {
    let all_versions = vec!["1.0.0".to_string(), "2.0.0".to_string(), "5.0.1".to_string()];
    let range = "< 5.0.1".to_string();
    let result = get_vulnerable_versions(all_versions, range);
    assert_eq!(result, vec!["1.0.0", "2.0.0"]);
}

#[test]
fn test_compound_range() {
    let all_versions = vec![
        "0.9.0".to_string(),
        "0.10.2".to_string(),
        "0.10.5".to_string(),
        "0.11.0".to_string(),
    ];
    let range = ">= 0.10.0, < 0.10.5".to_string();
    let result = get_vulnerable_versions(all_versions, range);
    assert_eq!(result, vec!["0.10.2"]);
}

#[test]
fn test_pre_release_versions() {
    let all_versions = vec!["1.0.0-beta.25".to_string(), "1.0.0".to_string(), "2.0.0".to_string()];
    let range = "< 1.0.0".to_string();
    let result = get_vulnerable_versions(all_versions, range);
    assert_eq!(result, vec!["1.0.0-beta.25"]);
}

#[test]
fn go_style_versions_in_range() {
    let all = strings(&["v1.3.0", "v1.3.1", "v1.4.0-rc.1", "v1.4.1", "v1.4.2", "junk"]);
    let result = get_vulnerable_versions(all, ">=v1.3.1, <v1.4.2".to_string());
    assert_eq!(result, vec!["v1.3.1", "v1.4.0-rc.1", "v1.4.1"]);
}

#[test]
fn each_operator() {
    let all = strings(&["1.0.0", "1.5.0", "2.0.0"]);
    assert_eq!(get_vulnerable_versions(all.clone(), ">1.0.0".to_string()), vec!["1.5.0", "2.0.0"]);
    assert_eq!(get_vulnerable_versions(all.clone(), "<=1.5.0".to_string()), vec!["1.0.0", "1.5.0"]);
    assert_eq!(get_vulnerable_versions(all.clone(), ">=1.5".to_string()), vec!["1.5.0", "2.0.0"]);
    assert_eq!(get_vulnerable_versions(all.clone(), "=1.5".to_string()), vec!["1.5.0"]);
    assert_eq!(get_vulnerable_versions(all.clone(), "1.5".to_string()), vec!["1.5.0"]);
    assert_eq!(get_vulnerable_versions(all, "  2 ".to_string()), vec!["2.0.0"]);
}

#[test]
fn bare_version_same_as_equality() {
    let all = strings(&["0.9.9", "1.2.0", "1.2.1"]);
    let bare = get_vulnerable_versions(all.clone(), " 1.2".to_string());
    let eq = get_vulnerable_versions(all, "= 1.2".to_string());
    assert_eq!(bare, eq);
    assert_eq!(bare, vec!["1.2.0"]);
}

#[test]
fn unparseable_range_parts_are_ignored() {
    let all = strings(&["1.0.0", "2.0.0", "not-a-version"]);
    assert_eq!(get_vulnerable_versions(all.clone(), "".to_string()), vec!["1.0.0", "2.0.0"]);
    assert_eq!(get_vulnerable_versions(all.clone(), ">= banana, <2".to_string()), vec!["1.0.0"]);
    assert_eq!(parse_range(">= banana, <2, ,x").len(), 1);
}

#[test]
fn comma_is_conjunction() {
    let all = strings(&["0.1.0", "1.0.0", "1.5.0", "2.0.0", "3.0.0"]);
    let both = get_vulnerable_versions(all.clone(), ">=1.0.0,<3.0.0".to_string());
    let step = get_vulnerable_versions(get_vulnerable_versions(all, ">=1.0.0".to_string()), "<3.0.0".to_string());
    assert_eq!(both, step);
    assert_eq!(both, vec!["1.0.0", "1.5.0", "2.0.0"]);
}

#[test]
fn filtering_twice_changes_nothing() {
    let all = strings(&["1.0.0", "1.1.0", "x", "2.0.0-alpha", "2.0.0"]);
    let once = get_vulnerable_versions(all, "<2.0.0".to_string());
    let twice = get_vulnerable_versions(once.clone(), "<2.0.0".to_string());
    assert_eq!(once, twice);
    assert_eq!(once, vec!["1.0.0", "1.1.0", "2.0.0-alpha"]);
}

#[test]
fn input_order_is_kept() {
    let all = strings(&["2.0.0", "1.0.0", "1.5.0"]);
    assert_eq!(get_vulnerable_versions(all, ">=1".to_string()), vec!["2.0.0", "1.0.0", "1.5.0"]);
}

#[test]
fn loose_normalization() {
    assert_eq!(loose_normalize_str("v1.2"), "1.2.0");
    assert_eq!(loose_normalize_str("  vv3 "), "3.0.0");
    assert_eq!(loose_normalize_str("1-rc1"), "1.0.0-rc1");
    assert_eq!(loose_normalize_str("1.2+build.5"), "1.2.0+build.5");
    assert_eq!(loose_normalize_str("1.2.3.4"), "1.2.3.4");
    assert_eq!(loose_normalize_str(""), ".0.0");
    assert_eq!(loose_normalize_str("\u{3000}1.0\t"), "1.0.0");
}

#[test]
fn loose_parse_values() {
    let v: SemVer = loose_parse("v1.4.0-rc.2+meta").unwrap();
    assert_eq!((v.major(), v.minor(), v.patch()), (1, 4, 0));
    assert_eq!(v.pre(), "rc.2");
    assert_eq!(v.build(), "meta");
    assert!(loose_parse("1.2.3.4").is_none());
    assert!(loose_parse("").is_none());
    assert!(loose_parse("01.2.3").is_none());
}

#[test]
fn range_conditions_read() {
    let c = parse_range(">=1.0, <= 2, >3, <4, =5, 6");
    let ops: Vec<RangeOp> = c.iter().map(|x| x.op).collect();
    assert_eq!(ops, vec![RangeOp::Ge, RangeOp::Le, RangeOp::Gt, RangeOp::Lt, RangeOp::Eq, RangeOp::Eq]);
    let majors: Vec<u64> = c.iter().map(|x| x.target.major()).collect();
    assert_eq!(majors, vec![1, 2, 3, 4, 5, 6]);
}

#[test]
fn build_metadata_counts_for_equality() {
    let all = strings(&["1.0.0+a", "1.0.0"]);
    assert_eq!(get_vulnerable_versions(all, "=1.0.0".to_string()), vec!["1.0.0"]);
}

#[test]
fn white_space_matches_std() {
    for u in 0u32..=0x10FFFF {
        if let Some(c) = char::from_u32(u) {
            assert_eq!(white_space(c), c.is_whitespace(), "{:?}", c);
        }
    }
}

#[test]
fn v_prefix_is_ignored() {
    assert_eq!(loose_normalize_str("v1.2.3"), loose_normalize_str("1.2.3"));
    let all = strings(&["v1.2.3", "1.2.3", "v1.2.4"]);
    assert_eq!(get_vulnerable_versions(all, "=1.2.3".to_string()), vec!["v1.2.3", "1.2.3"]);
}

#[test]
fn missing_numbers_are_zero() {
    assert_eq!(loose_normalize_str("4"), loose_normalize_str("4.0"));
    assert_eq!(loose_normalize_str("4.1"), loose_normalize_str("4.1.0"));
    let all = strings(&["4", "4.0", "4.0.0", "4.0.1"]);
    assert_eq!(get_vulnerable_versions(all, "=4".to_string()), vec!["4", "4.0", "4.0.0"]);
}

#[test]
fn strict_versions_read_unchanged() {
    for text in ["1.2.3", "0.0.0", "1.0.0-alpha.1", "2.3.4+build.5", "1.0.0-rc.1+x-y", "10.20.30"] {
        assert_eq!(loose_normalize_str(text), text);
        let strict = semver::Version::parse(text).unwrap();
        let loose = loose_parse(text).unwrap();
        assert_eq!((loose.major(), loose.minor(), loose.patch()), (strict.major, strict.minor, strict.patch));
        assert_eq!(loose.pre(), strict.pre.as_str());
        assert_eq!(loose.build(), strict.build.as_str());
    }
}
