use buffrs::manifest::{
    is_default_namespace_policy, is_default_resolver, Dependency, DependencyManifest, Edition,
    LocalDependencyManifest, Manifest, ManifestError, NamespaceOverlapPolicy, PackageManifest, PackageType,
    PublishableManifest, RawManifest, RemoteDependencyManifest, ResolvedManifest, ResolverMode,
};
use buffrs::package::PackageName;
use buffrs::registry::{RegistryConfig, RegistryRef, RegistryUri};
use buffrs::version::{Version, VersionReq};

fn name(s: &str) -> PackageName {
    PackageName::unchecked(s)
}

fn req(s: &str) -> VersionReq {
    VersionReq::parse(s).unwrap()
}

#[test]
fn editions_read_back_from_their_text() {
    for edition in ["0.50", "0.10", "0.9", "0.8", "0.7"] {
        assert_eq!(Edition::from_text(edition).as_text(), edition);
    }
    assert_eq!(Edition::from_text("0.1"), Edition::Unknown);
    assert_eq!(Edition::latest(), Edition::Canary);
    assert_eq!(Edition::Unknown.as_text(), "unknown");
}

#[test]
fn defaults_are_detected() {
    assert!(is_default_resolver(&ResolverMode::Default));
    assert!(!is_default_resolver(&ResolverMode::MultiVersion));
    assert!(is_default_namespace_policy(&NamespaceOverlapPolicy::Rewrite));
    assert!(!is_default_namespace_policy(&NamespaceOverlapPolicy::Forbidden));
}

#[test]
fn dependency_fields_without_registry_use_default() {
    let m = DependencyManifest::from_fields(
        None,
        None,
        Some(req("=0.1.0")),
        Some("libs".to_string()),
        None,
        ResolverMode::Default,
        NamespaceOverlapPolicy::Rewrite,
    )
    .unwrap();
    match m {
        DependencyManifest::Remote(r) => assert!(matches!(r.registry, RegistryRef::UseDefault)),
        other => panic!("expected remote, got {other:?}"),
    }
    let local = DependencyManifest::from_fields(
        None,
        Some("../lib".to_string()),
        None,
        None,
        None,
        ResolverMode::Default,
        NamespaceOverlapPolicy::Rewrite,
    )
    .unwrap();
    assert!(local.is_local());
    let invalid = DependencyManifest::from_fields(
        None,
        None,
        Some(req("=0.1.0")),
        None,
        None,
        ResolverMode::Default,
        NamespaceOverlapPolicy::Rewrite,
    );
    assert!(matches!(invalid, Err(ManifestError::InvalidDependencyManifest)));
}

#[test]
fn raw_manifest_editions() {
    let raw = RawManifest::from_fields(None, None, vec![]).unwrap();
    assert_eq!(raw.edition(), Edition::Unknown);
    let raw = RawManifest::from_fields(Some("0.9".to_string()), None, vec![]).unwrap();
    assert_eq!(raw.edition(), Edition::Canary09);
    assert!(matches!(
        RawManifest::from_fields(Some("9.9".to_string()), None, vec![]),
        Err(ManifestError::UnsupportedEdition(ref e)) if e == "9.9"
    ));
}

fn config() -> RegistryConfig {
    RegistryConfig {
        registries: vec![(
            "company".to_string(),
            RegistryUri::from_str("https://artifactory.company.com/artifactory").unwrap(),
        )],
        default_registry: Some("company".to_string()),
    }
}

#[test]
fn manifest_from_raw_names_and_resolves_dependencies() {
    let remote = DependencyManifest::Remote(RemoteDependencyManifest {
        package: Some(name("lib-algo-base")),
        version: req("=0.1.0"),
        repository: "libs".to_string(),
        registry: RegistryRef::UseDefault,
        resolver: ResolverMode::Default,
        namespace_overlap: NamespaceOverlapPolicy::Rewrite,
    });
    let raw = RawManifest::from_fields(Some("0.50".to_string()), None, vec![(name("algo"), remote)]).unwrap();
    let manifest = Manifest::from_raw(&raw, Some(&config())).unwrap();
    assert_eq!(manifest.edition, Edition::Canary);
    assert_eq!(manifest.dependencies.len(), 1);
    assert_eq!(manifest.dependencies[0].package.as_str(), "lib-algo-base");
    match &manifest.dependencies[0].manifest {
        DependencyManifest::Remote(r) => assert!(matches!(r.registry, RegistryRef::ResolvedAlias { .. })),
        other => panic!("expected remote, got {other:?}"),
    }
    let without_config = Manifest::from_raw(&raw, None).unwrap();
    match &without_config.dependencies[0].manifest {
        DependencyManifest::Remote(r) => assert!(matches!(r.registry, RegistryRef::UseDefault)),
        other => panic!("expected remote, got {other:?}"),
    }
}

#[test]
fn manifest_without_dependencies_is_empty() {
    let raw = RawManifest::from_fields(None, None, vec![]).unwrap();
    let manifest = Manifest::from_raw(&raw, None).unwrap();
    assert!(manifest.dependencies.is_empty());
    assert!(manifest.assert_fully_resolved().is_ok());
}

fn local_dependency(with_publish: bool) -> Dependency {
    let publish = if with_publish {
        Some(RemoteDependencyManifest {
            package: None,
            version: req("=0.2.0"),
            repository: "libs".to_string(),
            registry: RegistryRef::from_str("https://example.com/artifactory").unwrap(),
            resolver: ResolverMode::MultiVersion,
            namespace_overlap: NamespaceOverlapPolicy::IdenticalOnly,
        })
    } else {
        None
    };
    Dependency {
        package: name("local-lib"),
        manifest: DependencyManifest::Local(LocalDependencyManifest { package: None, path: "../local".to_string(), publish }),
    }
}

#[test]
fn resolved_manifest_replaces_local_dependencies() {
    let manifest = Manifest::new(None, vec![local_dependency(true)]);
    assert!(matches!(manifest.assert_fully_resolved(), Err(ManifestError::LocalDependency { .. })));
    let resolved = ResolvedManifest::new_from_manifest(manifest).unwrap();
    assert!(matches!(resolved.0.dependencies[0].manifest, DependencyManifest::Remote(_)));
    assert!(resolved.0.assert_fully_resolved().is_ok());

    let manifest = Manifest::new(None, vec![local_dependency(false)]);
    match ResolvedManifest::new_from_manifest(manifest) {
        Err(ManifestError::LocalDependency { dependency, package }) => {
            assert_eq!(dependency, "local-lib");
            assert_eq!(package, "package");
        }
        other => panic!("unexpected {other:?}"),
    }
}

#[test]
fn dependency_edges_and_text() {
    let d = local_dependency(true);
    assert_eq!(d.resolver_mode(), ResolverMode::MultiVersion);
    assert!(d.allows_multiversion());
    assert_eq!(d.namespace_overlap_policy(), NamespaceOverlapPolicy::IdenticalOnly);
    assert_eq!(d.to_string(), "local-lib@../local");
    let r = Dependency::new(&RegistryRef::UseDefault, "libs".to_string(), name("lib"), req("^1.2.0"));
    assert_eq!(r.to_string(), "libs/lib@^1.2.0");
    let pinned = r.with_version(&Version::parse("1.2.5").unwrap());
    assert_eq!(pinned.to_string(), "libs/lib@=1.2.5");
    assert!(!d.with_version(&Version::parse("1.0.0").unwrap()).to_string().contains('='));
}

#[test]
fn publishable_manifest_names() {
    assert_eq!(<Manifest as PublishableManifest>::file_name(), "Proto.toml.orig");
    assert!(<Manifest as PublishableManifest>::header().is_none());
    assert_eq!(<ResolvedManifest as PublishableManifest>::file_name(), "Proto.toml");
    assert!(<ResolvedManifest as PublishableManifest>::header().unwrap().starts_with("# THIS FILE IS AUTOMATICALLY GENERATED"));
}

#[test]
fn raw_manifest_round_trip_from_manifest() {
    let manifest = Manifest::new(None, vec![local_dependency(true)]);
    let raw = RawManifest::from_manifest(&manifest);
    assert_eq!(raw.edition(), Edition::Canary);
    assert_eq!(raw.dependencies().len(), 1);
    assert_eq!(raw.dependencies()[0].0.as_str(), "local-lib");
}

fn package_section(n: &str, version: &str, kind: PackageType) -> PackageManifest {
    PackageManifest { kind, name: name(n), version: Version::parse(version).unwrap(), description: None }
}

#[test]
fn manifest_without_dependencies_parses_as_empty() {
    let raw = RawManifest::from_fields(
        Some("0.50".to_string()),
        Some(package_section("test-package", "1.0.0", PackageType::Lib)),
        vec![],
    )
    .expect("should parse successfully");
    let manifest = Manifest::from_raw(&raw, None).expect("should parse successfully");
    assert!(manifest.dependencies.is_empty(), "expected zero dependencies, got {:?}", manifest.dependencies);
    assert!(manifest.package.is_some());
    assert_eq!(manifest.package.as_ref().unwrap().name.to_string(), "test-package");
}

#[test]
fn manifest_with_empty_dependencies_table() {
    let raw = RawManifest::from_fields(
        Some("0.50".to_string()),
        Some(package_section("another-package", "2.0.0", PackageType::Api)),
        vec![],
    )
    .expect("should parse successfully");
    let manifest = Manifest::from_raw(&raw, None).expect("should parse successfully");
    assert!(manifest.dependencies.is_empty());
}

#[test]
fn dependency_without_registry_uses_default() {
    let dependency = DependencyManifest::from_fields(
        None,
        None,
        Some(req("=0.1.3-SPINE-4384")),
        Some("grpc".to_string()),
        None,
        ResolverMode::Default,
        NamespaceOverlapPolicy::Rewrite,
    )
    .expect("should parse successfully");
    let raw = RawManifest::from_fields(
        Some("0.50".to_string()),
        Some(package_section("test-package", "1.0.0", PackageType::Lib)),
        vec![(name("lib-algo-base"), dependency)],
    )
    .expect("should parse successfully");
    let manifest = Manifest::from_raw(&raw, None).expect("should parse successfully");
    assert_eq!(manifest.dependencies.len(), 1);
    let dep = &manifest.dependencies[0];
    assert_eq!(dep.package.to_string(), "lib-algo-base");
    match &dep.manifest {
        DependencyManifest::Remote(remote) => {
            assert!(
                matches!(remote.registry, RegistryRef::UseDefault),
                "expected UseDefault registry, got {:?}",
                remote.registry
            );
        }
        other => panic!("expected Remote dependency, got {:?}", other),
    }
}

#[test]
fn edition_preserved_on_roundtrip() {
    for edition in &["0.10", "0.9", "0.8", "0.7", "0.50"] {
        let raw = RawManifest::from_fields(
            Some(edition.to_string()),
            Some(package_section("test-pkg", "1.0.0", PackageType::Lib)),
            vec![],
        )
        .unwrap_or_else(|e| panic!("should parse edition {edition}: {e:?}"));
        let manifest = Manifest::from_raw(&raw, None).unwrap_or_else(|e| panic!("should parse edition {edition}: {e:?}"));
        let written = RawManifest::from_manifest(&manifest);
        assert_eq!(written.edition().as_text(), *edition, "Edition {edition} was mutated during round-trip!");
    }
}

#[test]
fn package_type_text_both_ways() {
    assert_eq!(PackageType::from_text("lib"), Some(PackageType::Lib));
    assert_eq!(PackageType::from_text("api"), Some(PackageType::Api));
    assert_eq!(PackageType::from_text("Lib"), None);
    assert_eq!(PackageType::from_text(""), None);
    assert_eq!(PackageType::Lib.to_text(), "lib");
    assert_eq!(PackageType::Api.to_text(), "api");
}
