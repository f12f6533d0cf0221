use buffrs::package::PackageName;
use buffrs::pubgrub_resolver::{
    dependencies_within_bounds, range_between, version_req_to_ranges, BuffrsDependencyProvider, Dependencies,
    PackageDependency, PackageInfo, PubGrubPackage,
};
use buffrs::version::{Version, VersionReq};

fn v(s: &str) -> Version {
    Version::parse(s).unwrap()
}

fn sv(s: &str) -> semver::Version {
    semver::Version::parse(s).unwrap()
}

fn req(s: &str) -> VersionReq {
    VersionReq::parse(s).unwrap()
}

fn pkg(s: &str) -> PackageName {
    PackageName::unchecked(s)
}

#[test]
fn test_version_req_to_ranges_exact() {
    let ranges = version_req_to_ranges(&req("=1.2.3"));
    assert!(ranges.contains(&sv("1.2.3")));
    assert!(!ranges.contains(&sv("1.2.4")));
    assert!(!ranges.contains(&sv("1.2.2")));
}

#[test]
fn test_version_req_to_ranges_caret() {
    let ranges = version_req_to_ranges(&req("^1.2.3"));
    assert!(ranges.contains(&sv("1.2.3")));
    assert!(ranges.contains(&sv("1.9.9")));
    assert!(!ranges.contains(&sv("2.0.0")));
    assert!(!ranges.contains(&sv("1.2.2")));
}

#[test]
fn test_version_req_to_ranges_caret_zero() {
    let ranges = version_req_to_ranges(&req("^0.2.3"));
    assert!(ranges.contains(&sv("0.2.3")));
    assert!(ranges.contains(&sv("0.2.9")));
    assert!(!ranges.contains(&sv("0.3.0")));
    assert!(!ranges.contains(&sv("0.2.2")));
}

#[test]
fn test_version_req_to_ranges_tilde() {
    let ranges = version_req_to_ranges(&req("~1.2.3"));
    assert!(ranges.contains(&sv("1.2.3")));
    assert!(ranges.contains(&sv("1.2.9")));
    assert!(!ranges.contains(&sv("1.3.0")));
    assert!(!ranges.contains(&sv("1.2.2")));
}

#[test]
fn test_version_req_to_ranges_greater() {
    let ranges = version_req_to_ranges(&req(">1.0.0"));
    assert!(!ranges.contains(&sv("1.0.0")));
    assert!(ranges.contains(&sv("1.0.1")));
    assert!(ranges.contains(&sv("2.0.0")));
}

#[test]
fn test_version_req_to_ranges_greater_eq() {
    let ranges = version_req_to_ranges(&req(">=1.0.0"));
    assert!(ranges.contains(&sv("1.0.0")));
    assert!(ranges.contains(&sv("1.0.1")));
    assert!(!ranges.contains(&sv("0.9.9")));
}

#[test]
fn test_version_req_to_ranges_less() {
    let ranges = version_req_to_ranges(&req("<2.0.0"));
    assert!(ranges.contains(&sv("1.9.9")));
    assert!(!ranges.contains(&sv("2.0.0")));
}

#[test]
fn test_version_req_to_ranges_less_eq() {
    let ranges = version_req_to_ranges(&req("<=2.0.0"));
    assert!(ranges.contains(&sv("2.0.0")));
    assert!(ranges.contains(&sv("1.9.9")));
    assert!(!ranges.contains(&sv("2.0.1")));
}

#[test]
fn test_version_req_to_ranges_combined() {
    let ranges = version_req_to_ranges(&req(">=1.0.0, <2.0.0"));
    assert!(ranges.contains(&sv("1.0.0")));
    assert!(ranges.contains(&sv("1.5.0")));
    assert!(!ranges.contains(&sv("2.0.0")));
    assert!(!ranges.contains(&sv("0.9.0")));
}

#[test]
fn test_version_req_to_ranges_wildcard() {
    let ranges = version_req_to_ranges(&req("*"));
    assert!(ranges.contains(&sv("0.0.0")));
    assert!(ranges.contains(&sv("999.999.999")));
}

#[test]
fn wildcard_minor_range_excludes_next_minor() {
    let ranges = version_req_to_ranges(&req("1.2.*"));
    assert!(ranges.contains(&sv("1.2.0")));
    assert!(ranges.contains(&sv("1.2.99")));
    assert!(!ranges.contains(&sv("1.3.0")));
    assert!(!ranges.contains(&sv("1.1.9")));
}

#[test]
fn caret_zero_zero_pins_patch() {
    let ranges = version_req_to_ranges(&req("^0.0.3"));
    assert!(ranges.contains(&sv("0.0.3")));
    assert!(!ranges.contains(&sv("0.0.4")));
}

fn info(versions: &[&str], deps: Vec<(&str, Vec<(&str, &str)>)>) -> PackageInfo {
    PackageInfo {
        versions: versions.iter().map(|s| v(s)).collect(),
        dependencies: deps
            .into_iter()
            .map(|(ver, ds)| {
                (
                    v(ver),
                    ds.into_iter()
                        .map(|(n, r)| PackageDependency { package: pkg(n), version_req: req(r) })
                        .collect(),
                )
            })
            .collect(),
    }
}

#[test]
fn choose_version_prefers_highest_in_range() {
    let mut provider = BuffrsDependencyProvider::new(vec![]);
    provider.add_package(pkg("foo"), info(&["1.0.0", "1.1.0", "1.2.0", "2.0.0"], vec![]));
    let range = version_req_to_ranges(&req("^1.0.0"));
    let chosen = provider.choose_version(&PubGrubPackage::Package(pkg("foo")), &range);
    assert_eq!(chosen, Some(v("1.2.0")));
    let root = provider.choose_version(&PubGrubPackage::Root, &range);
    assert_eq!(root, Some(v("0.0.0")));
    let unknown = provider.choose_version(&PubGrubPackage::Package(pkg("bar")), &range);
    assert_eq!(unknown, None);
}

#[test]
fn choose_version_takes_preferred_when_allowed() {
    let mut provider = BuffrsDependencyProvider::new(vec![]);
    provider.add_package(pkg("foo"), info(&["1.0.0", "1.1.0", "1.2.0"], vec![]));
    provider.set_preferred_version(pkg("foo"), v("1.1.0"));
    let range = version_req_to_ranges(&req("^1.0.0"));
    assert_eq!(provider.choose_version(&PubGrubPackage::Package(pkg("foo")), &range), Some(v("1.1.0")));
    let narrow = version_req_to_ranges(&req(">=1.2.0"));
    assert_eq!(provider.choose_version(&PubGrubPackage::Package(pkg("foo")), &narrow), Some(v("1.2.0")));
}

#[test]
fn choose_version_skips_versions_without_metadata() {
    let mut provider = BuffrsDependencyProvider::new(vec![]);
    provider.add_package(pkg("foo"), info(&["1.0.0", "1.1.0"], vec![("1.0.0", vec![])]));
    let range = version_req_to_ranges(&req("^1.0.0"));
    assert_eq!(provider.choose_version(&PubGrubPackage::Package(pkg("foo")), &range), Some(v("1.0.0")));
}

#[test]
fn prioritize_prefers_constrained_packages() {
    let mut provider = BuffrsDependencyProvider::new(vec![]);
    provider.add_package(pkg("foo"), info(&["1.0.0", "1.1.0", "2.0.0"], vec![]));
    let range = version_req_to_ranges(&req("^1.0.0"));
    assert_eq!(provider.prioritize(&PubGrubPackage::Root, &range), u32::MAX);
    assert_eq!(provider.prioritize(&PubGrubPackage::Package(pkg("foo")), &range), u32::MAX - 2);
    assert_eq!(provider.prioritize(&PubGrubPackage::Package(pkg("nope")), &range), 0);
}

#[test]
fn get_dependencies_of_root_and_packages() {
    let root = vec![PackageDependency { package: pkg("foo"), version_req: req("^1.0.0") }];
    let mut provider = BuffrsDependencyProvider::new(root);
    provider.add_package(pkg("foo"), info(&["1.0.0"], vec![("1.0.0", vec![("bar", ">=2.0.0")])]));
    match provider.get_dependencies(&PubGrubPackage::Root, &v("0.0.0")) {
        Dependencies::Available(list) => {
            assert_eq!(list.len(), 1);
            assert_eq!(list[0].0.to_string(), "foo");
            assert!(list[0].1.contains(&sv("1.5.0")));
            assert!(!list[0].1.contains(&sv("2.0.0")));
        }
        other => panic!("unexpected {:?}", other),
    }
    match provider.get_dependencies(&PubGrubPackage::Package(pkg("foo")), &v("1.0.0")) {
        Dependencies::Available(list) => {
            assert_eq!(list.len(), 1);
            assert_eq!(list[0].0.to_string(), "bar");
            assert!(list[0].1.contains(&sv("2.1.0")));
        }
        other => panic!("unexpected {:?}", other),
    }
    match provider.get_dependencies(&PubGrubPackage::Package(pkg("foo")), &v("9.9.9")) {
        Dependencies::Available(list) => assert!(list.is_empty()),
        other => panic!("unexpected {:?}", other),
    }
    match provider.get_dependencies(&PubGrubPackage::Package(pkg("missing")), &v("1.0.0")) {
        Dependencies::Unavailable(msg) => assert_eq!(msg, "package missing not found in registry"),
        other => panic!("unexpected {:?}", other),
    }
}

#[test]
fn get_versions_returns_registered_versions() {
    let mut provider = BuffrsDependencyProvider::new(vec![]);
    provider.add_package(pkg("foo"), info(&["1.0.0", "1.1.0"], vec![]));
    assert_eq!(provider.get_versions(&pkg("foo")), Some(vec![v("1.0.0"), v("1.1.0")]));
    assert_eq!(provider.get_versions(&pkg("bar")), None);
    provider.add_package(pkg("foo"), info(&["3.0.0"], vec![]));
    assert_eq!(provider.get_versions(&pkg("foo")), Some(vec![v("3.0.0")]));
}

#[test]
fn ranges_between_and_reversed_bounds() {
    let r = range_between(&v("1.0.0"), &v("2.0.0"));
    assert!(r.contains(&sv("1.0.0")));
    assert!(r.contains(&sv("1.9.9")));
    assert!(!r.contains(&sv("2.0.0")));
    let reversed = range_between(&v("2.0.0"), &v("1.0.0"));
    assert!(!reversed.contains(&sv("1.5.0")));
    assert!(!reversed.contains(&sv("2.0.0")));
    assert_eq!(PubGrubPackage::Root.to_string(), "root");
}

#[test]
fn dependencies_within_bounds_flags_overflowing_requirements() {
    let fine = vec![
        PackageDependency { package: pkg("a"), version_req: req("^1.2") },
        PackageDependency { package: pkg("b"), version_req: req(">=0.1.0, <2.0.0") },
    ];
    assert!(dependencies_within_bounds(&fine));
    let max = u64::MAX.to_string();
    let overflowing = vec![
        PackageDependency { package: pkg("a"), version_req: req("^1.2") },
        PackageDependency { package: pkg("c"), version_req: req(&format!("^{max}")) },
    ];
    assert!(!dependencies_within_bounds(&overflowing));
    assert!(!dependencies_within_bounds(&vec![PackageDependency {
        package: pkg("d"),
        version_req: req(&format!("~1.{max}")),
    }]));
    assert!(dependencies_within_bounds(&vec![]));
}

#[test]
fn partial_comparators_follow_semver() {
    let cases: &[(&str, &[&str], &[&str])] = &[
        ("~1", &["1.0.0", "1.5.0", "1.99.0"], &["0.9.9", "2.0.0"]),
        (">1", &["2.0.0", "3.1.0"], &["1.0.0", "1.5.0"]),
        (">1.2", &["1.3.0", "2.0.0"], &["1.2.0", "1.2.9"]),
        ("=1.2", &["1.2.0", "1.2.7"], &["1.3.0", "1.1.9"]),
        ("=1", &["1.0.0", "1.9.9"], &["2.0.0", "0.9.0"]),
        ("<=1", &["1.9.9", "0.1.0"], &["2.0.0"]),
        ("<=1.2", &["1.2.9", "1.0.0"], &["1.3.0"]),
        (">=1.2", &["1.2.0", "5.0.0"], &["1.1.9"]),
        ("<1.2", &["1.1.9"], &["1.2.0"]),
        ("^0", &["0.0.0", "0.9.9"], &["1.0.0"]),
        ("~1.2", &["1.2.0", "1.2.9"], &["1.3.0"]),
    ];
    for (r, inside, outside) in cases {
        let ranges = version_req_to_ranges(&req(r));
        let semver_req = semver::VersionReq::parse(r).unwrap();
        for s in inside.iter() {
            assert!(ranges.contains(&sv(s)), "{r} should hold {s}");
            assert!(semver_req.matches(&sv(s)));
        }
        for s in outside.iter() {
            assert!(!ranges.contains(&sv(s)), "{r} should not hold {s}");
            assert!(!semver_req.matches(&sv(s)));
        }
    }
}
