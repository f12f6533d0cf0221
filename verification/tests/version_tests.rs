use buffrs::version::{
    extract_exact_version, is_exact_requirement, select_version, to_exact_requirement,
    version_to_artifact_string, Version, VersionReq,
};

fn v(s: &str) -> Version {
    Version::parse(s).unwrap()
}

fn req(s: &str) -> VersionReq {
    VersionReq::parse(s).unwrap()
}

#[test]
fn test_select_version_caret() {
    let available = vec![v("1.0.0"), v("1.1.0"), v("1.2.0"), v("2.0.0")];
    assert_eq!(select_version(&req("^1.0.0"), &available), Some(v("1.2.0")));
    assert_eq!(select_version(&req("^1.1.0"), &available), Some(v("1.2.0")));
    assert_eq!(select_version(&req("^2.0.0"), &available), Some(v("2.0.0")));
}

#[test]
fn test_select_version_caret_zero_major() {
    let available = vec![v("0.1.0"), v("0.1.5"), v("0.2.0"), v("0.2.3")];
    assert_eq!(select_version(&req("^0.1.0"), &available), Some(v("0.1.5")));
    assert_eq!(select_version(&req("^0.2.0"), &available), Some(v("0.2.3")));
}

#[test]
fn test_select_version_caret_zero_minor() {
    let available = vec![v("0.0.1"), v("0.0.2"), v("0.0.3")];
    assert_eq!(select_version(&req("^0.0.1"), &available), Some(v("0.0.1")));
}

#[test]
fn test_select_version_tilde() {
    let available = vec![v("1.0.0"), v("1.0.5"), v("1.1.0"), v("1.2.0")];
    assert_eq!(select_version(&req("~1.0.0"), &available), Some(v("1.0.5")));
    assert_eq!(select_version(&req("~1.1.0"), &available), Some(v("1.1.0")));
}

#[test]
fn test_select_version_exact() {
    let available = vec![v("1.0.0"), v("1.1.0"), v("1.2.0")];
    assert_eq!(select_version(&req("=1.1.0"), &available), Some(v("1.1.0")));
    assert_eq!(select_version(&req("=1.3.0"), &available), None);
}

#[test]
fn test_select_version_ranges() {
    let available = vec![v("1.0.0"), v("1.5.0"), v("2.0.0"), v("2.5.0")];
    assert_eq!(select_version(&req(">=1.0.0, <2.0.0"), &available), Some(v("1.5.0")));
    assert_eq!(select_version(&req(">1.5.0"), &available), Some(v("2.5.0")));
    assert_eq!(select_version(&req("<=1.5.0"), &available), Some(v("1.5.0")));
}

#[test]
fn test_select_version_complex_ranges() {
    let available = vec![v("1.0.0"), v("1.2.0"), v("1.5.0"), v("2.0.0"), v("2.1.0"), v("3.0.0")];
    assert_eq!(select_version(&req(">=1.0.0, <=2.1.0"), &available), Some(v("2.1.0")));
    assert_eq!(select_version(&req(">=1.1.0, <1.6.0"), &available), Some(v("1.5.0")));
}

#[test]
fn test_select_version_wildcard() {
    let available = vec![v("1.0.0"), v("2.0.0"), v("3.0.0")];
    assert_eq!(select_version(&req("*"), &available), Some(v("3.0.0")));
}

#[test]
fn test_select_version_wildcard_minor() {
    let available = vec![v("1.0.0"), v("1.5.0"), v("1.9.0"), v("2.0.0")];
    assert_eq!(select_version(&req("1.*"), &available), Some(v("1.9.0")));
}

#[test]
fn test_select_version_wildcard_patch() {
    let available = vec![v("1.2.0"), v("1.2.3"), v("1.2.9"), v("1.3.0")];
    assert_eq!(select_version(&req("1.2.*"), &available), Some(v("1.2.9")));
}

#[test]
fn test_select_version_prerelease() {
    let available = vec![v("1.0.0"), v("1.1.0-alpha.1"), v("1.1.0-beta.1"), v("1.1.0")];
    assert_eq!(select_version(&req("^1.0.0"), &available), Some(v("1.1.0")));
    assert_eq!(select_version(&req("=1.1.0-alpha.1"), &available), Some(v("1.1.0-alpha.1")));
}

#[test]
fn test_select_version_prerelease_ordering() {
    let available = vec![
        v("1.0.0-alpha.1"),
        v("1.0.0-alpha.2"),
        v("1.0.0-beta.1"),
        v("1.0.0-rc.1"),
        v("1.0.0"),
    ];
    assert_eq!(select_version(&req("=1.0.0-beta.1"), &available), Some(v("1.0.0-beta.1")));
    assert_eq!(select_version(&req(">=1.0.0-alpha.1"), &available), Some(v("1.0.0")));
}

#[test]
fn test_select_version_prerelease_only_available() {
    let available = vec![v("1.0.0-alpha.1"), v("1.0.0-alpha.2"), v("1.0.0-beta.1")];
    assert_eq!(select_version(&req("^1.0.0"), &available), None);
    assert_eq!(select_version(&req(">=1.0.0-alpha.1"), &available), Some(v("1.0.0-beta.1")));
}

#[test]
fn test_select_version_empty() {
    let available: Vec<Version> = vec![];
    assert_eq!(select_version(&req("^1.0.0"), &available), None);
}

#[test]
fn test_select_version_single() {
    let available = vec![v("1.0.0")];
    assert_eq!(select_version(&req("^1.0.0"), &available), Some(v("1.0.0")));
    assert_eq!(select_version(&req("^2.0.0"), &available), None);
}

#[test]
fn test_select_version_no_match() {
    let available = vec![v("1.0.0"), v("1.1.0"), v("1.2.0")];
    assert_eq!(select_version(&req("^2.0.0"), &available), None);
    assert_eq!(select_version(&req(">=3.0.0"), &available), None);
}

#[test]
fn test_select_version_unsorted_input() {
    let available = vec![v("1.2.0"), v("1.0.0"), v("1.5.0"), v("1.1.0")];
    assert_eq!(select_version(&req("^1.0.0"), &available), Some(v("1.5.0")));
}

#[test]
fn test_select_version_duplicates() {
    let available = vec![v("1.0.0"), v("1.0.0"), v("1.1.0"), v("1.1.0")];
    assert_eq!(select_version(&req("^1.0.0"), &available), Some(v("1.1.0")));
}

#[test]
fn test_is_exact_requirement() {
    assert!(is_exact_requirement(&req("=1.0.0")));
    assert!(is_exact_requirement(&req("=1.0.0-alpha")));
    assert!(!is_exact_requirement(&req("^1.0.0")));
    assert!(!is_exact_requirement(&req("~1.0.0")));
    assert!(!is_exact_requirement(&req(">=1.0.0")));
    assert!(!is_exact_requirement(&req(">=1.0.0, <2.0.0")));
    assert!(!is_exact_requirement(&req("*")));
}

#[test]
fn test_is_exact_requirement_edge_cases() {
    assert!(is_exact_requirement(&req("=1.0.0")));
    assert!(is_exact_requirement(&req("=1.0.0")));
}

#[test]
fn test_extract_exact_version() {
    assert_eq!(extract_exact_version(&req("=1.2.3")), Some(v("1.2.3")));
    assert_eq!(extract_exact_version(&req("=1.2.3-alpha.1")), Some(v("1.2.3-alpha.1")));
    assert_eq!(extract_exact_version(&req("^1.2.3")), None);
    assert_eq!(extract_exact_version(&req(">=1.0.0, <2.0.0")), None);
}

#[test]
fn test_extract_exact_version_roundtrip() {
    let version = v("1.2.3");
    let exact_req = to_exact_requirement(&version);
    let extracted = extract_exact_version(&exact_req);
    assert_eq!(extracted, Some(version));
}

#[test]
fn test_to_exact_requirement() {
    let version = v("1.2.3");
    let exact = to_exact_requirement(&version);
    assert!(is_exact_requirement(&exact));
    assert!(exact.matches(&version));
    assert!(!exact.matches(&v("1.2.4")));
}

#[test]
fn test_to_exact_requirement_prerelease() {
    let version = v("1.2.3-beta.1");
    let exact = to_exact_requirement(&version);
    assert!(is_exact_requirement(&exact));
    assert!(exact.matches(&version));
    assert!(!exact.matches(&v("1.2.3")));
    assert!(!exact.matches(&v("1.2.3-beta.2")));
}

#[test]
fn test_version_to_artifact_string() {
    assert_eq!(version_to_artifact_string(&v("1.2.3")), "1.2.3");
    assert_eq!(version_to_artifact_string(&v("1.2.3-alpha.1")), "1.2.3-alpha.1");
    assert_eq!(version_to_artifact_string(&v("0.0.1")), "0.0.1");
}

#[test]
fn test_version_to_artifact_string_edge_cases() {
    assert_eq!(version_to_artifact_string(&v("0.0.0")), "0.0.0");
    assert_eq!(version_to_artifact_string(&v("999.999.999")), "999.999.999");
    assert_eq!(version_to_artifact_string(&v("1.0.0-rc.1+build.123")), "1.0.0-rc.1");
}

#[test]
fn test_greedy_resolution_limitation_documented() {
    let available_c = vec![v("1.0.0"), v("1.2.0"), v("1.3.0"), v("1.5.0")];
    assert_eq!(select_version(&req("^1.0.0"), &available_c), Some(v("1.5.0")));
    assert_eq!(select_version(&req(">=1.2.0, <1.4.0"), &available_c), Some(v("1.3.0")));
}

#[test]
fn version_display_includes_pre_release_and_build() {
    assert_eq!(v("1.2.3").to_string(), "1.2.3");
    assert_eq!(v("1.0.0-rc.1+build.123").to_string(), "1.0.0-rc.1+build.123");
    assert_eq!(v("10.20.30").major(), 10);
    assert_eq!(v("10.20.30").minor(), 20);
    assert_eq!(v("10.20.30").patch(), 30);
}

#[test]
fn version_compare_orders_pre_releases_first() {
    assert_eq!(v("1.0.0-alpha").compare(&v("1.0.0")), -1);
    assert_eq!(v("1.0.0").compare(&v("1.0.0")), 0);
    assert_eq!(v("2.0.0").compare(&v("1.9.9")), 1);
    assert_eq!(v("1.0.0-alpha.2").compare(&v("1.0.0-alpha.10")), -1);
}

#[test]
fn version_parse_refuses_malformed_text() {
    assert!(Version::parse("1.2").is_none());
    assert!(Version::parse("not a version").is_none());
    assert!(VersionReq::parse("><1").is_none());
}

#[test]
fn version_from_parts_checks_texts() {
    assert_eq!(Version::from_parts(1, 2, 3, "", ""), Some(v("1.2.3")));
    assert_eq!(Version::from_parts(1, 2, 3, "beta.1", "b7"), Some(v("1.2.3-beta.1+b7")));
    assert!(Version::from_parts(1, 2, 3, "bad pre", "").is_none());
    assert!(Version::from_parts(1, 2, 3, "", "bad build!").is_none());
}

#[test]
fn requirement_display_and_copy() {
    let r = req(">=1.0.0, <2.0.0");
    assert_eq!(r.to_string(), ">=1.0.0, <2.0.0");
    assert!(r.same(&r.duplicate()));
    assert!(!r.same(&req("^1.0.0")));
    assert_eq!(VersionReq::star().to_string(), "*");
}

#[test]
fn version_text_tells_versions_apart() {
    let texts = ["1.0.0", "1.0.0-a", "1.0.0-a.b", "1.0.0+a", "1.0.0-a+b", "10.0.0", "1.10.0", "1.1.0"];
    let shown: Vec<String> = texts.iter().map(|t| Version::parse(t).unwrap().to_string()).collect();
    for (i, a) in shown.iter().enumerate() {
        assert_eq!(a, texts[i]);
        for b in shown.iter().skip(i + 1) {
            assert_ne!(a, b);
        }
    }
}

#[test]
fn select_version_ignores_order_and_repeats() {
    let a = vec![v("1.0.0"), v("1.4.0"), v("1.2.0"), v("2.0.0")];
    let b = vec![v("2.0.0"), v("1.2.0"), v("1.4.0"), v("1.0.0"), v("1.4.0"), v("1.2.0")];
    for r in ["^1.0.0", "~1.2", ">=1.3, <3", "=1.0.0", "^3"] {
        assert_eq!(select_version(&req(r), &a), select_version(&req(r), &b));
    }
    assert_eq!(select_version(&req("^1.0.0"), &b), Some(v("1.4.0")));
}

#[test]
fn version_texts_follow_the_identifier_rule() {
    assert!(Version::from_parts(1, 0, 0, "alpha.0", "").is_some());
    assert!(Version::from_parts(1, 0, 0, "alpha.01", "").is_none());
    assert!(Version::from_parts(1, 0, 0, "0a.x-y", "").is_some());
    assert!(Version::from_parts(1, 0, 0, "a..b", "").is_none());
    assert!(Version::from_parts(1, 0, 0, ".a", "").is_none());
    assert!(Version::from_parts(1, 0, 0, "a.", "").is_none());
    assert!(Version::from_parts(1, 0, 0, "", "001.build").is_some());
    assert!(Version::from_parts(1, 0, 0, "", "b+c").is_none());
    assert!(Version::from_parts(1, 0, 0, "é", "").is_none());
}

#[test]
fn artifact_text_parses_back_without_build() {
    let full = v("1.2.3-rc.1+build.5");
    let back = Version::parse(&version_to_artifact_string(&full)).unwrap();
    assert_eq!(back, v("1.2.3-rc.1"));
    assert_eq!(Version::parse(&version_to_artifact_string(&v("0.10.0"))).unwrap(), v("0.10.0"));
}

#[test]
fn version_text_grammar() {
    assert!(Version::parse("01.0.0").is_none());
    assert!(Version::parse("1.0").is_none());
    assert!(Version::parse("1.0.0-").is_none());
    assert!(Version::parse("1.0.0+").is_none());
    assert!(Version::parse(" 1.0.0").is_none());
    assert!(Version::parse("1.0.0-01").is_none());
    assert!(Version::parse("18446744073709551616.0.0").is_none());
    assert_eq!(Version::parse("18446744073709551615.0.0+001").unwrap().to_string(), "18446744073709551615.0.0+001");
}

#[test]
fn exact_requirement_of_a_pre_release_matches_that_pre_release_only() {
    let exact = to_exact_requirement(&v("1.2.3-rc.1+build.5"));
    assert!(exact.matches(&v("1.2.3-rc.1")));
    assert!(exact.matches(&v("1.2.3-rc.1+other")));
    assert!(!exact.matches(&v("1.2.3")));
    assert!(!exact.matches(&v("1.2.3-rc.2")));
    assert!(!exact.matches(&v("1.2.4-rc.1")));
}
