use buffrs::lock::{LockedPackage, Lockfile};
use buffrs::manifest::{
    Dependency, DependencyManifest, LocalDependencyManifest, Manifest, NamespaceOverlapPolicy, RemoteDependencyManifest,
    ResolverMode,
};
use buffrs::package::{Package, PackageName};
use buffrs::registry::RegistryRef;
use buffrs::resolver::{
    choose_available, make_remote_dependant, manifest_has_multiversion, plan_resolution, requirements_of,
    DependencyGraph, DiscoveryQueue, RemoteDecision, ResolutionPlan, ResolveError, ResolvedDependency,
    ResolvedPackageId,
};
use buffrs::version::{Version, VersionReq};

fn v(s: &str) -> Version {
    Version::parse(s).unwrap()
}

fn req(s: &str) -> VersionReq {
    VersionReq::parse(s).unwrap()
}

fn name(s: &str) -> PackageName {
    PackageName::unchecked(s)
}

fn registry() -> RegistryRef {
    RegistryRef::from_str("https://example.com/artifactory").unwrap()
}

fn remote(version: &str, resolver: ResolverMode) -> RemoteDependencyManifest {
    RemoteDependencyManifest {
        package: None,
        version: req(version),
        repository: "libs".to_string(),
        registry: registry(),
        resolver,
        namespace_overlap: NamespaceOverlapPolicy::Rewrite,
    }
}

fn package(n: &str, version: &str) -> Package {
    Package { name: name(n), version: v(version), manifest: Manifest::new(None, vec![]), tgz: vec![] }
}

fn remote_entry(n: &str, version: &str) -> ResolvedDependency {
    ResolvedDependency::Remote {
        package: package(n, version),
        registry: registry(),
        repository: "libs".to_string(),
        dependants: vec![],
        depends_on: vec![],
    }
}

#[test]
fn graph_insert_get_and_vendor_names() {
    let mut graph = DependencyGraph::new(false);
    let a1 = ResolvedPackageId::new(name("lib"), v("1.0.0"));
    graph.insert(a1.duplicate(), remote_entry("lib", "1.0.0"));
    assert!(graph.get(&a1).is_some());
    assert_eq!(a1.vendor_dir_name(&graph), "lib");
    let a2 = ResolvedPackageId::new(name("lib"), v("2.0.0"));
    graph.insert(a2.duplicate(), remote_entry("lib", "2.0.0"));
    assert_eq!(a1.vendor_dir_name(&graph), "lib@1.0.0");
    assert_eq!(graph.ids_for_name(&name("lib")).len(), 2);
    assert!(graph.get_single_by_name(&name("lib")).is_none());
    assert!(graph.needs_namespace_rewrite(&a1));
    let api = ResolvedPackageId::new(name("api"), v("0.1.0"));
    graph.insert(api.duplicate(), remote_entry("api", "0.1.0"));
    assert_eq!(graph.vendor_module_names(), vec!["api".to_string(), "lib@1.0.0".to_string(), "lib@2.0.0".to_string()]);
    graph.insert(api.duplicate(), remote_entry("api", "0.1.0"));
    assert_eq!(graph.len(), 3);
}

#[test]
fn policies_and_permissions() {
    let mut graph = DependencyGraph::new(false);
    assert!(!graph.is_multiversion_permitted(&name("lib")));
    graph.permit_multiversion(&name("lib"));
    assert!(graph.is_multiversion_permitted(&name("lib")));
    assert_eq!(graph.namespace_policy(&name("lib")), NamespaceOverlapPolicy::Rewrite);
    graph.update_namespace_policy(&name("lib"), NamespaceOverlapPolicy::Forbidden);
    assert_eq!(graph.namespace_policy(&name("lib")), NamespaceOverlapPolicy::Forbidden);
    graph.update_namespace_policy(&name("lib"), NamespaceOverlapPolicy::IdenticalOnly);
    assert_eq!(graph.namespace_policy(&name("lib")), NamespaceOverlapPolicy::IdenticalOnly);
    graph.update_namespace_policy(&name("lib"), NamespaceOverlapPolicy::Forbidden);
    assert_eq!(graph.namespace_policy(&name("lib")), NamespaceOverlapPolicy::IdenticalOnly);
    graph.update_namespace_policy(&name("lib"), NamespaceOverlapPolicy::Rewrite);
    assert_eq!(graph.namespace_policy(&name("lib")), NamespaceOverlapPolicy::Rewrite);
    assert!(DependencyGraph::new(true).is_multiversion_permitted(&name("any")));
}

#[test]
fn remote_edges_reuse_or_collide() {
    let mut graph = DependencyGraph::new(false);
    let id = ResolvedPackageId::new(name("lib"), v("1.2.0"));
    graph.insert(id.duplicate(), remote_entry("lib", "1.2.0"));
    match graph.check_remote(&name("app"), &name("lib"), &remote("^1.0.0", ResolverMode::Default)) {
        Ok(RemoteDecision::Existing(found)) => assert!(found.same(&id)),
        other => panic!("unexpected {other:?}"),
    }
    assert_eq!(graph.get(&id).unwrap().dependants().len(), 1);
    assert!(matches!(
        graph.check_remote(&name("app"), &name("lib"), &remote("^2.0.0", ResolverMode::Default)),
        Err(ResolveError::VersionCollision { .. })
    ));
    graph.permit_multiversion(&name("lib"));
    assert!(matches!(
        graph.check_remote(&name("app"), &name("lib"), &remote("^2.0.0", ResolverMode::MultiVersion)),
        Ok(RemoteDecision::Resolve)
    ));
    assert!(matches!(
        graph.check_remote(&name("app"), &name("other"), &remote("^2.0.0", ResolverMode::Default)),
        Ok(RemoteDecision::Resolve)
    ));
}

#[test]
fn local_entries_collide_with_remote_requests() {
    let mut graph = DependencyGraph::new(false);
    let id = ResolvedPackageId::new(name("lib"), v("1.0.0"));
    graph.insert(
        id.duplicate(),
        ResolvedDependency::Local {
            package: package("lib", "1.0.0"),
            path: "/src/lib".to_string(),
            dependants: vec![],
            depends_on: vec![],
        },
    );
    assert!(matches!(
        graph.check_remote(&name("app"), &name("lib"), &remote("=1.0.0", ResolverMode::Default)),
        Err(ResolveError::CollidesWithLocal { .. })
    ));
    let dependant = make_remote_dependant(&name("app"), &remote("=1.0.0", ResolverMode::Default));
    assert!(matches!(graph.attach_local(&id, dependant), Ok(true)));
    assert!(graph.resolved_local_package(&name("lib")).is_ok());
    assert!(matches!(graph.resolved_local_package(&name("nope")), Err(ResolveError::LocalNotResolved(_))));
}

#[test]
fn lockfile_plans() {
    let locked = LockedPackage::lock(&package("lib", "1.1.0"), registry(), "libs".to_string(), 1);
    let lock = Lockfile::from_packages(vec![locked]);
    match plan_resolution(&lock, &name("lib"), &remote("^1.0.0", ResolverMode::Default), false) {
        Ok(ResolutionPlan::Locked { version, cache_allowed }) => {
            assert_eq!(version, v("1.1.0"));
            assert!(cache_allowed);
        }
        other => panic!("unexpected {other:?}"),
    }
    assert!(matches!(
        plan_resolution(&lock, &name("lib"), &remote("^2.0.0", ResolverMode::Default), false),
        Ok(ResolutionPlan::Fresh)
    ));
}

#[test]
fn versions_are_chosen_from_the_listing() {
    let available = vec![v("1.0.0"), v("1.4.0"), v("2.0.0")];
    assert_eq!(choose_available(&name("lib"), "libs", &req("^1.0.0"), &available).unwrap(), v("1.4.0"));
    match choose_available(&name("lib"), "libs", &req("^3.0.0"), &available) {
        Err(ResolveError::NoMatchingVersion { available, .. }) => assert_eq!(available, "1.0.0, 1.4.0, 2.0.0"),
        other => panic!("unexpected {other:?}"),
    }
    assert!(matches!(
        choose_available(&name("lib"), "libs", &req("^1.0.0"), &vec![]),
        Err(ResolveError::NoVersions { .. })
    ));
}

#[test]
fn discovery_visits_each_name_once() {
    let mut queue = DiscoveryQueue::new();
    queue.push(name("a"), remote("^1.0.0", ResolverMode::Default));
    queue.push(name("b"), remote("^1.0.0", ResolverMode::Default));
    queue.push(name("a"), remote("^2.0.0", ResolverMode::Default));
    queue.mark_discovered(&name("b"));
    let first = queue.next_to_discover().unwrap();
    assert_eq!(first.0.as_str(), "a");
    assert!(queue.next_to_discover().is_none());
    assert!(queue.is_discovered(&name("a")));
}

#[test]
fn dependency_requirements_for_resolution() {
    let deps = vec![
        Dependency { package: name("r"), manifest: DependencyManifest::Remote(remote("^1.0.0", ResolverMode::MultiVersion)) },
        Dependency {
            package: name("l"),
            manifest: DependencyManifest::Local(LocalDependencyManifest { package: None, path: "../l".to_string(), publish: None }),
        },
    ];
    assert!(manifest_has_multiversion(&deps));
    let reqs = requirements_of(&deps);
    assert_eq!(reqs[0].version_req.to_string(), "^1.0.0");
    assert_eq!(reqs[1].version_req.to_string(), "*");
}

#[test]
fn lockfile_pinning_another_registry_is_refused_for_non_roots() {
    let other = RegistryRef::from_str("https://other.example.com/artifactory").unwrap();
    let locked = LockedPackage::lock(&package("lib", "1.1.0"), other, "libs".to_string(), 1);
    let lock = Lockfile::from_packages(vec![locked]);
    assert!(matches!(
        plan_resolution(&lock, &name("lib"), &remote("^1.0.0", ResolverMode::Default), false),
        Err(ResolveError::MismatchedRegistry { .. })
    ));
    assert!(matches!(
        plan_resolution(&lock, &name("lib"), &remote("^1.0.0", ResolverMode::Default), true),
        Ok(ResolutionPlan::Fresh)
    ));
    assert!(matches!(
        plan_resolution(&lock, &name("lib"), &remote("^2.0.0", ResolverMode::Default), false),
        Ok(ResolutionPlan::Fresh)
    ));
}
