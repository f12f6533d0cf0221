use buffrs::lock::{Digest, DigestAlgorithm, FileRequirement, FileRequirementError, LockError, LockedDependency, LockedPackage, Lockfile};
use buffrs::manifest::Manifest;
use buffrs::package::{Package, PackageName};
use buffrs::registry::RegistryRef;
use buffrs::version::{Version, VersionReq};

fn v(s: &str) -> Version {
    Version::parse(s).unwrap()
}

fn package(name: &str, version: &str, tgz: &[u8]) -> Package {
    Package {
        name: PackageName::unchecked(name),
        version: v(version),
        manifest: Manifest::new(None, vec![]),
        tgz: tgz.to_vec(),
    }
}

fn registry() -> RegistryRef {
    RegistryRef::from_str("https://example.com/artifactory").unwrap()
}

#[test]
fn lock_and_validate_package() {
    let p = package("lib", "1.0.0", b"archive");
    let locked = LockedPackage::lock(&p, registry(), "libs".to_string(), 2);
    assert_eq!(locked.name.as_str(), "lib");
    assert_eq!(locked.dependants, 2);
    assert_eq!(locked.digest.value.len(), 32);
    assert!(locked.digest.to_string().starts_with("sha256:"));
    assert!(locked.validate(&p).is_ok());
    let other = package("lib", "1.0.0", b"different");
    match locked.validate(&other) {
        Err(LockError::Mismatch { property, .. }) => assert_eq!(property, "digest"),
        other => panic!("unexpected {other:?}"),
    }
    let newer = package("lib", "1.0.1", b"archive");
    match locked.validate(&newer) {
        Err(LockError::Mismatch { property, expected, actual }) => {
            assert_eq!(property, "version");
            assert_eq!(expected, "1.0.0");
            assert_eq!(actual, "1.0.1");
        }
        other => panic!("unexpected {other:?}"),
    }
}

#[test]
fn lockfile_lookup_and_multiversion_state() {
    let a = LockedPackage::lock(&package("lib", "1.0.0", b"a"), registry(), "libs".to_string(), 1);
    let b = LockedPackage::lock(&package("lib", "2.0.0", b"b"), registry(), "libs".to_string(), 1);
    let c = LockedPackage::lock(&package("api", "0.1.0", b"c"), registry(), "apis".to_string(), 1);
    let lock = Lockfile::from_packages(vec![a, b, c]);
    assert_eq!(lock.get(&PackageName::unchecked("lib")).unwrap().version, v("1.0.0"));
    let found = lock.find(&PackageName::unchecked("lib"), &VersionReq::parse("^2.0.0").unwrap(), None, Some("libs"));
    assert_eq!(found.unwrap().version, v("2.0.0"));
    assert!(lock.find(&PackageName::unchecked("lib"), &VersionReq::parse("^2.0.0").unwrap(), None, Some("apis")).is_none());
    let state = lock.multiversion_state();
    assert!(state.has_multiversion());
    assert_eq!(state.multiversion_packages.len(), 1);
    assert_eq!(state.multiversion_packages[0].as_str(), "lib");
    assert!(!Lockfile::new().multiversion_state().has_multiversion());
}

#[test]
fn file_requirement_points_at_the_archive() {
    let locked = LockedPackage::lock(&package("lib", "1.0.0", b"a"), registry(), "libs".to_string(), 1);
    let file = FileRequirement::from_locked(&locked).unwrap();
    assert_eq!(file.url().as_str(), "https://example.com/artifactory/libs/lib/lib-1.0.0.tgz");
    let unresolved = RegistryRef::from_str("alias").unwrap();
    let digest = DigestAlgorithm::SHA256.digest(b"a");
    assert!(FileRequirement::new(&unresolved, &"libs".to_string(), &PackageName::unchecked("lib"), &v("1.0.0"), &digest).is_err());
}

#[test]
fn digest_text_reads_back() {
    let d = DigestAlgorithm::SHA256.digest(b"hello");
    let text = d.to_string();
    assert_eq!(text, "sha256:2cf24dba5fb0a30e26e83b2ac5b9e29e1b161e5c1fa7425e73043362938b9824");
    let back = Digest::parse(&text).unwrap();
    assert_eq!(back.algorithm, DigestAlgorithm::SHA256);
    assert_eq!(back.value, d.value);
}

#[test]
fn digest_parse_accepts_upper_case_and_rejects_other_text() {
    let d = Digest::parse("sha256:0AfF").unwrap();
    assert_eq!(d.value, vec![0x0a, 0xff]);
    assert!(Digest::parse("sha256:abc").is_none());
    assert!(Digest::parse("sha256:zz").is_none());
    assert!(Digest::parse("md5:00").is_none());
    assert!(Digest::parse("sha25").is_none());
    assert_eq!(Digest::parse("sha256:").unwrap().value, Vec::<u8>::new());
}

#[test]
fn lockfile_file_requirements_in_order() {
    let a = LockedPackage::lock(&package("a", "1.0.0", b"a"), registry(), "libs".to_string(), 1);
    let b = LockedPackage::lock(&package("b", "2.0.0", b"b"), registry(), "apis".to_string(), 1);
    let files = Lockfile::from_packages(vec![a, b]).file_requirements().unwrap();
    assert_eq!(files.len(), 2);
    assert_eq!(files[0].url().as_str(), "https://example.com/artifactory/libs/a/a-1.0.0.tgz");
    assert_eq!(files[1].url().as_str(), "https://example.com/artifactory/apis/b/b-2.0.0.tgz");

    let c = LockedPackage::lock(&package("c", "1.0.0", b"c"), registry(), "libs".to_string(), 1);
    let unresolved = LockedPackage::lock(
        &package("d", "1.0.0", b"d"),
        RegistryRef::from_str("alias").unwrap(),
        "libs".to_string(),
        1,
    );
    let err = Lockfile::from_packages(vec![c, unresolved]).file_requirements().unwrap_err();
    assert!(matches!(err, FileRequirementError::Registry(_)));
    assert!(Lockfile::new().file_requirements().unwrap().is_empty());
}

#[test]
fn canonical_packages_sort_records_and_their_dependencies() {
    let mut b = LockedPackage::lock(&package("b", "1.0.0", b"b"), registry(), "libs".to_string(), 1);
    b.dependencies = vec![PackageName::unchecked("z"), PackageName::unchecked("a")];
    b.dependencies_resolved = vec![
        LockedDependency { name: PackageName::unchecked("z"), version: v("1.0.0") },
        LockedDependency { name: PackageName::unchecked("a"), version: v("2.0.0") },
        LockedDependency { name: PackageName::unchecked("a"), version: v("1.0.0") },
    ];
    let a2 = LockedPackage::lock(&package("a", "2.0.0", b"a2"), registry(), "libs".to_string(), 1);
    let a1 = LockedPackage::lock(&package("a", "1.0.0", b"a1"), registry(), "libs".to_string(), 3);
    let lock = Lockfile::from_packages(vec![b, a2, a1]);
    let out = lock.canonical_packages();
    let keys: Vec<(String, String)> = out.iter().map(|p| (p.name.as_str().to_string(), p.version.to_string())).collect();
    assert_eq!(
        keys,
        vec![
            ("a".to_string(), "1.0.0".to_string()),
            ("a".to_string(), "2.0.0".to_string()),
            ("b".to_string(), "1.0.0".to_string())
        ]
    );
    assert_eq!(out[0].dependants, 3);
    let names: Vec<&str> = out[2].dependencies.iter().map(|n| n.as_str()).collect();
    assert_eq!(names, vec!["a", "z"]);
    let resolved: Vec<(String, String)> =
        out[2].dependencies_resolved.iter().map(|d| (d.name.as_str().to_string(), d.version.to_string())).collect();
    assert_eq!(
        resolved,
        vec![
            ("a".to_string(), "1.0.0".to_string()),
            ("a".to_string(), "2.0.0".to_string()),
            ("z".to_string(), "1.0.0".to_string())
        ]
    );
    // the lockfile itself keeps its order
    assert_eq!(lock.packages()[0].name.as_str(), "b");
}

#[test]
fn rearranged_lockfiles_give_the_same_canonical_records() {
    let make = |deps: Vec<&str>, resolved: Vec<(&str, &str)>| {
        let mut p = LockedPackage::lock(&package("b", "1.0.0", b"b"), registry(), "libs".to_string(), 2);
        p.dependencies = deps.into_iter().map(PackageName::unchecked).collect();
        p.dependencies_resolved =
            resolved.into_iter().map(|(n, ver)| LockedDependency { name: PackageName::unchecked(n), version: v(ver) }).collect();
        p
    };
    let a = || LockedPackage::lock(&package("a", "1.0.0", b"a"), registry(), "libs".to_string(), 1);
    let c = || LockedPackage::lock(&package("c", "0.1.0", b"c"), registry(), "apis".to_string(), 1);
    let l1 = Lockfile::from_packages(vec![make(vec!["x", "y"], vec![("x", "1.0.0"), ("y", "2.0.0")]), a(), c()]);
    let l2 = Lockfile::from_packages(vec![c(), a(), make(vec!["y", "x"], vec![("y", "2.0.0"), ("x", "1.0.0")])]);
    let text = |l: &Lockfile| -> Vec<String> {
        l.canonical_packages()
            .iter()
            .map(|p| {
                let deps: Vec<&str> = p.dependencies.iter().map(|n| n.as_str()).collect();
                let resolved: Vec<String> =
                    p.dependencies_resolved.iter().map(|d| format!("{}@{}", d.name.as_str(), d.version.to_string())).collect();
                format!(
                    "{} {} {} {} {} {:?} {:?}",
                    p.name.as_str(),
                    p.version.to_string(),
                    p.digest.to_string(),
                    p.repository,
                    p.dependants,
                    deps,
                    resolved
                )
            })
            .collect()
    };
    assert_eq!(text(&l1), text(&l2));
    assert!(text(&l1)[1].starts_with("b 1.0.0"));
}
