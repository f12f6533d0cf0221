use buffrs::namespace_scan::{content_hash, extract_proto_package, namespace_info_of, NamespaceScanResult};
use buffrs::package::PackageName;
use buffrs::version::Version;

#[test]
fn test_extract_proto_package_simple() {
    let contents = r#"
syntax = "proto3";
package lib.base.v1;

message Foo {}
"#;
    assert_eq!(extract_proto_package(contents), Some("lib.base.v1".to_string()));
}

#[test]
fn test_extract_proto_package_with_comments() {
    let contents = r#"
// This is a comment
syntax = "proto3";
/* Block comment */
package api.service.v2;

// Another comment
message Bar {}
"#;
    assert_eq!(extract_proto_package(contents), Some("api.service.v2".to_string()));
}

#[test]
fn test_extract_proto_package_no_package() {
    let contents = r#"
syntax = "proto3";

message Foo {}
"#;
    assert_eq!(extract_proto_package(contents), None);
}

#[test]
fn test_extract_proto_package_comment_package() {
    let contents = r#"
syntax = "proto3";
// package fake.package;
package real.package;
"#;
    assert_eq!(extract_proto_package(contents), Some("real.package".to_string()));
}

#[test]
fn test_extract_proto_package_block_comment_package() {
    let contents = r#"
syntax = "proto3";
/* package fake.package; */
package real.package.v1;
"#;
    assert_eq!(extract_proto_package(contents), Some("real.package.v1".to_string()));
}

#[test]
fn content_hash_is_deterministic() {
    let content1 = "syntax = \"proto3\";\npackage test;\n";
    let content2 = "syntax = \"proto3\";\npackage test;\n";
    let content3 = "syntax = \"proto3\";\npackage test;\nmessage Foo {}\n";

    let hash1 = content_hash(content1);
    let hash2 = content_hash(content2);
    let hash3 = content_hash(content3);

    assert_eq!(hash1, hash2);
    assert_ne!(hash1, hash3);
    assert_eq!(hash1.len(), 64);
}

#[test]
fn content_hash_of_empty_text() {
    assert_eq!(content_hash(""), "e3b0c44298fc1c149afbf4c8996fb92427ae41e4649b934ca495991b7852b855");
}

#[test]
fn extract_proto_package_edge_cases() {
    assert_eq!(extract_proto_package("package;"), None);
    assert_eq!(extract_proto_package("mypackage foo;"), None);
    assert_eq!(extract_proto_package("package foo bar;\npackage baz;"), Some("baz".to_string()));
    assert_eq!(extract_proto_package("package   spaced . name ;"), None);
    assert_eq!(extract_proto_package("/* unterminated package a; "), None);
    assert_eq!(extract_proto_package("package\ta.b\t;"), Some("a.b".to_string()));
}

fn name(s: &str) -> PackageName {
    PackageName::unchecked(s)
}

fn v(s: &str) -> Version {
    Version::parse(s).unwrap()
}

#[test]
fn record_package_groups_declarations_by_namespace() {
    let mut scan = NamespaceScanResult::new();
    let a = namespace_info_of("package lib.base;", "a.proto".to_string()).unwrap();
    let b = namespace_info_of("package lib.base;", "b.proto".to_string()).unwrap();
    let c = namespace_info_of("package lib.base; message X {}", "a.proto".to_string()).unwrap();
    scan.record_package(&name("lib"), &v("0.1.0"), vec![a]);
    scan.record_package(&name("lib"), &v("0.1.0"), vec![b]);
    assert_eq!(scan.namespace_to_packages().len(), 1);
    assert_eq!(scan.namespace_to_packages()[0].1.len(), 2);
    assert!(scan.conflicts().is_empty());
    assert!(scan.content_conflicts().is_empty());
    scan.record_package(&name("lib"), &v("0.2.0"), vec![c]);
    assert_eq!(scan.packages().len(), 3);
    assert_eq!(scan.conflicts().len(), 1);
    assert_eq!(scan.content_conflicts().len(), 1);
    assert!(namespace_info_of("message Foo {}", "c.proto".to_string()).is_none());
}

#[test]
fn extract_proto_package_passes_over_a_keyword_without_name() {
    assert_eq!(extract_proto_package("package ;\npackage a.b;\n"), Some("a.b".to_string()));
    assert_eq!(extract_proto_package("package ;\n"), None);
}

#[test]
fn content_differing_within_one_package_version_is_no_conflict() {
    let mut scan = NamespaceScanResult::new();
    let x = namespace_info_of("package a.b;", "x.proto".to_string()).unwrap();
    let y = namespace_info_of("package a.b; message Y {}", "y.proto".to_string()).unwrap();
    scan.record_package(&name("lib"), &v("1.0.0"), vec![x, y]);
    assert!(scan.content_conflicts().is_empty());
    assert!(scan.conflicts().is_empty());
}
