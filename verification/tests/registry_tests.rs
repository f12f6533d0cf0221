use buffrs::manifest::Dependency;
use buffrs::package::PackageName;
use buffrs::registry::{
    dependency_version_string, sanity_check_url, ParsedUrl, RegistryConfig, RegistryError, RegistryRef,
    RegistryUri,
};
use buffrs::version::VersionReq;

fn get_dependency(version: &str) -> Dependency {
    let registry = RegistryRef::from_str("https://my-registry.com").unwrap();
    let repository = String::from("my-repo");
    let package = PackageName::unchecked("package");
    let version = VersionReq::parse(version).unwrap();
    Dependency::new(&registry, repository, package, version)
}

#[test]
fn valid_version() {
    let dependency = get_dependency("=0.0.1");
    assert!(dependency_version_string(&dependency).is_ok_and(|version| version == "0.0.1"));

    let dependency = get_dependency("=0.0.1-23");
    assert!(dependency_version_string(&dependency).is_ok_and(|version| version == "0.0.1-23"));

    let dependency = get_dependency("=0.0.1-ab");
    assert!(dependency_version_string(&dependency).is_ok_and(|version| version == "0.0.1-ab"));
}

#[test]
fn unsupported_version_operator() {
    let dependency = get_dependency("^0.0.1");
    assert!(dependency_version_string(&dependency)
        .is_err_and(|err| matches!(err, RegistryError::VersionNotPinned(_))));

    let dependency = get_dependency("~0.0.1");
    assert!(dependency_version_string(&dependency)
        .is_err_and(|err| matches!(err, RegistryError::VersionNotPinned(_))));

    let dependency = get_dependency("<=0.0.1");
    assert!(dependency_version_string(&dependency)
        .is_err_and(|err| matches!(err, RegistryError::VersionNotPinned(_))));
}

#[test]
fn incomplete_version() {
    let dependency = get_dependency("=1.0");
    assert!(dependency_version_string(&dependency).is_err());

    let dependency = get_dependency("=1");
    assert!(dependency_version_string(&dependency).is_err());
}

#[test]
fn from_str_url() {
    let reg = RegistryRef::from_str("https://conan-us.globusmedical.com/artifactory").unwrap();
    assert!(matches!(reg, RegistryRef::Url(_)));
}

#[test]
fn from_str_alias() {
    let reg = RegistryRef::from_str("globus").unwrap();
    assert!(matches!(reg, RegistryRef::Alias(ref a) if a == "globus"));
}

#[test]
fn from_str_legacy_resolved_alias() {
    let input = "globus (https://conan-us.globusmedical.com/artifactory)";
    let reg = RegistryRef::from_str(input).unwrap();
    match reg {
        RegistryRef::ResolvedAlias { ref alias, ref url } => {
            assert_eq!(alias, "globus");
            assert_eq!(url.to_string(), "https://conan-us.globusmedical.com/artifactory");
        }
        other => panic!("expected ResolvedAlias, got {other:?}"),
    }
}

#[test]
fn from_str_legacy_resolved_alias_not_triggered_for_plain_alias() {
    let reg = RegistryRef::from_str("my-registry").unwrap();
    assert!(matches!(reg, RegistryRef::Alias(ref a) if a == "my-registry"));
}

#[test]
fn from_str_legacy_resolved_alias_bad_url_stays_alias() {
    let reg = RegistryRef::from_str("name (not-a-url)").unwrap();
    assert!(matches!(reg, RegistryRef::Alias(_)));
}

#[test]
fn registry_ref_display() {
    let reg = RegistryRef::from_str("globus (https://conan-us.globusmedical.com/artifactory)").unwrap();
    assert_eq!(reg.to_string(), "globus (https://conan-us.globusmedical.com/artifactory)");
    assert_eq!(RegistryRef::UseDefault.to_string(), "<default>");
    assert_eq!(RegistryRef::from_str("alias").unwrap().to_string(), "alias");
}

#[test]
fn sanity_check_rules() {
    let ftp = ParsedUrl::parse("ftp://example.com/artifactory").unwrap();
    assert!(matches!(sanity_check_url(&ftp), Err(RegistryError::InvalidScheme(ref s)) if s == "ftp"));
    let jfrog = ParsedUrl::parse("https://acme.jfrog.io/other").unwrap();
    assert!(matches!(sanity_check_url(&jfrog), Err(RegistryError::JfrogPathMissing)));
    let jfrog_ok = ParsedUrl::parse("https://acme.jfrog.io/artifactory").unwrap();
    assert!(sanity_check_url(&jfrog_ok).is_ok());
    assert!(matches!(RegistryUri::from_str("not a url"), Err(RegistryError::InvalidUrl(_))));
    let uri = RegistryUri::from_str("https://example.com/artifactory").unwrap();
    assert_eq!(uri.host(), Some("example.com"));
    assert_eq!(uri.path(), "/artifactory");
}

#[test]
fn alias_resolution_through_configuration() {
    let company = RegistryUri::from_str("https://artifactory.company.com/artifactory").unwrap();
    let config = RegistryConfig { registries: vec![("company".to_string(), company)], default_registry: Some("company".to_string()) };
    let alias = RegistryRef::from_str("company").unwrap();
    match alias.with_alias_resolved(Some(&config)).unwrap() {
        RegistryRef::ResolvedAlias { alias, url } => {
            assert_eq!(alias, "company");
            assert_eq!(url.to_string(), "https://artifactory.company.com/artifactory");
        }
        other => panic!("unexpected {other:?}"),
    }
    assert!(matches!(alias.with_alias_resolved(None), Err(RegistryError::NoConfiguration(_))));
    assert!(matches!(
        RegistryRef::from_str("other").unwrap().with_alias_resolved(Some(&config)),
        Err(RegistryError::UnknownAlias(_))
    ));
    assert!(matches!(RegistryRef::UseDefault.with_alias_resolved(None), Ok(RegistryRef::UseDefault)));
    assert!(matches!(
        RegistryRef::UseDefault.with_alias_resolved(Some(&config)),
        Ok(RegistryRef::ResolvedAlias { .. })
    ));
    let empty = RegistryConfig { registries: vec![], default_registry: None };
    assert!(matches!(RegistryRef::UseDefault.with_alias_resolved(Some(&empty)), Err(RegistryError::NoDefaultRegistry)));
}

#[test]
fn serialized_registry_references() {
    let url = RegistryRef::from_str("https://example.com/artifactory").unwrap();
    assert_eq!(url.serialized().unwrap(), "https://example.com/artifactory");
    assert_eq!(url.serialize_resolved().unwrap(), "https://example.com/artifactory");

    let resolved = RegistryRef::from_str("main (https://example.com/artifactory)").unwrap();
    assert_eq!(resolved.serialized().unwrap(), "https://example.com/artifactory");
    assert_eq!(resolved.serialize_resolved().unwrap(), "https://example.com/artifactory");

    let alias = RegistryRef::from_str("main").unwrap();
    assert_eq!(alias.serialized().unwrap(), "main");
    assert!(matches!(alias.serialize_resolved(), Err(RegistryError::Unresolved(t)) if t == "main"));

    assert!(matches!(RegistryRef::UseDefault.serialized(), Err(RegistryError::UnresolvedDefault)));
    assert!(matches!(RegistryRef::UseDefault.serialize_resolved(), Err(RegistryError::Unresolved(t)) if t == "<default>"));
}
