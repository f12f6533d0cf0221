use buffrs::assembly::assemble_graph;
use buffrs::manifest::{
    Dependency, DependencyManifest, LocalDependencyManifest, Manifest, NamespaceOverlapPolicy, RemoteDependencyManifest,
    ResolverMode,
};
use buffrs::package::{Package, PackageName};
use buffrs::registry::RegistryRef;
use buffrs::resolver::{DiscoveryQueue, ResolveError, ResolvedPackageId};
use buffrs::version::{Version, VersionReq};

fn v(s: &str) -> Version {
    Version::parse(s).unwrap()
}

fn name(s: &str) -> PackageName {
    PackageName::unchecked(s)
}

fn remote_manifest(version: &str) -> RemoteDependencyManifest {
    RemoteDependencyManifest {
        package: None,
        version: VersionReq::parse(version).unwrap(),
        repository: "libs".to_string(),
        registry: RegistryRef::from_str("https://example.com/artifactory").unwrap(),
        resolver: ResolverMode::Default,
        namespace_overlap: NamespaceOverlapPolicy::Rewrite,
    }
}

fn remote(n: &str, version: &str) -> Dependency {
    Dependency { package: name(n), manifest: DependencyManifest::Remote(remote_manifest(version)) }
}

fn local_dep(n: &str) -> Dependency {
    Dependency {
        package: name(n),
        manifest: DependencyManifest::Local(LocalDependencyManifest { package: None, path: format!("../{n}"), publish: None }),
    }
}

fn package(n: &str, version: &str, deps: Vec<Dependency>) -> Package {
    Package { name: name(n), version: v(version), manifest: Manifest::new(None, deps), tgz: vec![] }
}

fn id(n: &str, version: &str) -> ResolvedPackageId {
    ResolvedPackageId::new(name(n), v(version))
}

#[test]
fn assembled_graph_has_roots_entries_and_edges() {
    let manifest = Manifest::new(None, vec![remote("app-api", "^1.0"), local_dep("local-lib")]);
    let resolved = vec![
        (name("app-api"), v("1.2.0")),
        (name("base"), v("2.0.0")),
        (name("local-lib"), v("0.1.0")),
    ];
    let downloaded = vec![
        package("app-api", "1.1.0", vec![]),
        package("app-api", "1.2.0", vec![remote("base", "^2")]),
        package("base", "2.0.0", vec![]),
    ];
    let local = vec![(name("local-lib"), package("local-lib", "0.1.0", vec![remote("base", "^2")]), "/src/local-lib".to_string())];
    let graph = assemble_graph(&manifest, &resolved, &downloaded, &local, false).unwrap();
    assert_eq!(graph.roots().len(), 2);
    assert!(graph.roots()[0].same(&id("app-api", "1.2.0")));
    assert!(graph.roots()[1].same(&id("local-lib", "0.1.0")));
    assert_eq!(graph.len(), 3);
    let api = graph.get(&id("app-api", "1.2.0")).unwrap();
    assert!(!api.is_local());
    assert_eq!(api.depends_on().len(), 1);
    assert!(api.depends_on()[0].same(&id("base", "2.0.0")));
    let lib = graph.get(&id("local-lib", "0.1.0")).unwrap();
    assert!(lib.is_local());
    assert!(lib.depends_on()[0].same(&id("base", "2.0.0")));
    // the shared package is placed once, with a dependant for each edge
    let base = graph.get(&id("base", "2.0.0")).unwrap();
    assert_eq!(base.dependants().len(), 2);
    assert_eq!(base.dependants()[0].name.as_str(), "app-api");
    assert_eq!(base.dependants()[1].name.as_str(), "local-lib");
    assert!(base.depends_on().is_empty());
    assert_eq!(graph.get(&id("app-api", "1.2.0")).unwrap().dependants()[0].name.as_str(), ".");
}

#[test]
fn assembly_reports_what_is_missing() {
    let manifest = Manifest::new(None, vec![remote("app-api", "^1.0")]);
    let downloaded = vec![package("app-api", "1.2.0", vec![remote("base", "^2")])];
    let unresolved = assemble_graph(&manifest, &vec![(name("app-api"), v("1.2.0"))], &downloaded, &vec![], false);
    assert!(matches!(unresolved, Err(ResolveError::Unresolved(n)) if n == "base"));
    let missing = assemble_graph(
        &manifest,
        &vec![(name("app-api"), v("1.2.0")), (name("base"), v("2.0.0"))],
        &downloaded,
        &vec![],
        false,
    );
    match missing {
        Err(ResolveError::NotDownloaded { package, version }) => {
            assert_eq!(package, "base");
            assert_eq!(version, "2.0.0");
        }
        other => panic!("unexpected {other:?}"),
    }
    let no_local = assemble_graph(&Manifest::new(None, vec![local_dep("lib")]), &vec![], &vec![], &vec![], false);
    assert!(matches!(no_local, Err(ResolveError::LocalNotFound { .. })));
}

#[test]
fn local_package_in_place_of_a_remote_one_is_refused() {
    let manifest = Manifest::new(None, vec![remote("lib", "^1"), local_dep("lib")]);
    let resolved = vec![(name("lib"), v("1.0.0"))];
    let downloaded = vec![package("lib", "1.0.0", vec![])];
    let local = vec![(name("lib"), package("lib", "1.0.0", vec![]), "/src/lib".to_string())];
    let r = assemble_graph(&manifest, &resolved, &downloaded, &local, false);
    assert!(matches!(r, Err(ResolveError::LocalCollidesWithRemote { .. })));
}

#[test]
fn recorded_versions_feed_resolution_and_discovery() {
    let mut queue = DiscoveryQueue::new();
    queue.mark_discovered(&name("api"));
    let fetched = vec![
        (v("1.0.0"), Some(vec![remote("base", "^1"), remote("api", "^1"), local_dep("tools")])),
        (v("1.1.0"), None),
        (v("2.0.0"), Some(vec![remote("extra", "=0.3.0")])),
    ];
    let info = queue.record_versions(&name("api"), "libs", fetched).unwrap();
    assert_eq!(info.versions, vec![v("1.0.0"), v("1.1.0"), v("2.0.0")]);
    assert_eq!(info.dependencies.len(), 2);
    assert_eq!(info.dependencies[0].0, v("1.0.0"));
    let reqs: Vec<&str> = info.dependencies[0].1.iter().map(|d| d.package.as_str()).collect();
    assert_eq!(reqs, vec!["base", "api", "tools"]);
    assert_eq!(info.dependencies[1].0, v("2.0.0"));
    let next: Vec<String> = std::iter::from_fn(|| queue.next_to_discover()).map(|(n, _)| n.to_string()).collect();
    assert_eq!(next, vec!["base".to_string(), "extra".to_string()]);
}

#[test]
fn recording_no_versions_is_refused() {
    let mut queue = DiscoveryQueue::new();
    match queue.record_versions(&name("api"), "libs", vec![]) {
        Err(ResolveError::NoVersions { package, repository }) => {
            assert_eq!(package, "api");
            assert_eq!(repository, "libs");
        }
        other => panic!("unexpected {other:?}"),
    }
    assert!(queue.next_to_discover().is_none());
}

#[test]
fn remote_edge_to_a_local_entry_records_no_dependant() {
    let manifest = Manifest::new(None, vec![local_dep("lib"), remote("app", "^1")]);
    let resolved = vec![(name("lib"), v("0.1.0")), (name("app"), v("1.0.0"))];
    let downloaded = vec![package("app", "1.0.0", vec![remote("lib", "^0.1")])];
    let local = vec![(name("lib"), package("lib", "0.1.0", vec![]), "/src/lib".to_string())];
    let graph = assemble_graph(&manifest, &resolved, &downloaded, &local, false).unwrap();
    assert_eq!(graph.len(), 2);
    let lib = graph.get(&id("lib", "0.1.0")).unwrap();
    assert!(lib.is_local());
    assert_eq!(lib.dependants().len(), 1);
    let app = graph.get(&id("app", "1.0.0")).unwrap();
    assert!(app.depends_on()[0].same(&id("lib", "0.1.0")));
    assert_eq!(graph.ids_for_name(&name("lib")).len(), 1);
}
