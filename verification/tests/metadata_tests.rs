use buffrs::metadata::{build_namespaces_metadata, cmake_safe_name, PackageRef};
use buffrs::namespace_scan::{namespace_info_of, NamespaceScanResult};
use buffrs::package::PackageName;
use buffrs::version::Version;

#[test]
fn test_cmake_safe_name() {
    assert_eq!(cmake_safe_name("lib-base@0.1.0"), "LIB_BASE_0_1_0");
    assert_eq!(cmake_safe_name("api.service.v2"), "API_SERVICE_V2");
    assert_eq!(cmake_safe_name("MyPackage"), "MYPACKAGE");
}

#[test]
fn test_package_ref_vendor_dir() {
    let pkg = PackageRef { name: "lib-base".to_string(), version: "0.1.0".to_string() };
    assert_eq!(pkg.vendor_dir(false), "lib-base");
    assert_eq!(pkg.vendor_dir(true), "lib-base@0.1.0");
}

#[test]
fn cmake_safe_name_replaces_non_ascii() {
    assert_eq!(cmake_safe_name("äb-1"), "_B_1");
    assert_eq!(cmake_safe_name(""), "");
}

#[test]
fn package_ref_new_uses_version_text() {
    let r = PackageRef::new(&PackageName::unchecked("lib"), &Version::parse("1.2.3-rc.1").unwrap());
    assert_eq!(r.name, "lib");
    assert_eq!(r.version, "1.2.3-rc.1");
    assert_eq!(r.vendor_dir(true), "lib@1.2.3-rc.1");
}

#[test]
fn namespaces_metadata_lists_owners() {
    let mut scan = NamespaceScanResult::new();
    let info = namespace_info_of("package a.b;", "x.proto".to_string()).unwrap();
    scan.record_package(&PackageName::unchecked("lib"), &Version::parse("0.1.0").unwrap(), vec![info]);
    let meta = build_namespaces_metadata(&scan);
    assert_eq!(meta.namespaces.len(), 1);
    assert_eq!(meta.namespaces[0].0, "a.b");
    assert_eq!(meta.namespaces[0].1[0].name, "lib");
    assert_eq!(meta.namespaces[0].1[0].version, "0.1.0");
    assert_eq!(meta.namespaces[0].1[0].source_file, "x.proto");
}
