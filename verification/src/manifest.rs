//! The package manifest (`Proto.toml`): editions, dependencies and their
//! normalization after parsing.

use crate::package::PackageName;
use crate::registry::{opt_config, spec_resolved, RegistryConfig, RegistryError, RegistryRef, RegistryRefView};
use crate::text::{copy_opt_string, push_char, push_str, str_eq};
use crate::version::{spec_req_text, spec_to_exact, to_exact_requirement, ComparatorView, Version, VersionReq, VersionView};
use vstd::prelude::*;

verus! {

/// The name of the manifest file.
pub const MANIFEST_FILE: &'static str = "Proto.toml";

/// The canary edition of this version of the manifest format.
pub const CANARY_EDITION: &'static str = "0.50";

/// Edition of the manifest.
#[derive(Debug, Clone, Copy, PartialEq, Eq, Structural)]
pub enum Edition {
    /// The canary edition of manifests (0.50), with multi-version dependency support
    Canary,
    /// The canary edition used by 0.10.x
    Canary10,
    /// The canary edition used by 0.9.x
    Canary09,
    /// The canary edition used by 0.8.x
    Canary08,
    /// The canary edition used by 0.7.x
    Canary07,
    /// Unknown edition of manifests
    Unknown,
}

/// The text of each known edition.
pub open spec fn edition_text(e: Edition) -> Seq<char> {
    match e {
        Edition::Canary => seq!['0', '.', '5', '0'],
        Edition::Canary10 => seq!['0', '.', '1', '0'],
        Edition::Canary09 => seq!['0', '.', '9'],
        Edition::Canary08 => seq!['0', '.', '8'],
        Edition::Canary07 => seq!['0', '.', '7'],
        Edition::Unknown => seq!['u', 'n', 'k', 'n', 'o', 'w', 'n'],
    }
}

/// The edition a text names; `Unknown` for any other text.
pub open spec fn spec_edition_of(t: Seq<char>) -> Edition {
    if t == edition_text(Edition::Canary) {
        Edition::Canary
    } else if t == edition_text(Edition::Canary10) {
        Edition::Canary10
    } else if t == edition_text(Edition::Canary09) {
        Edition::Canary09
    } else if t == edition_text(Edition::Canary08) {
        Edition::Canary08
    } else if t == edition_text(Edition::Canary07) {
        Edition::Canary07
    } else {
        Edition::Unknown
    }
}

impl Edition {
    /// The current / latest edition.
    pub fn latest() -> (r: Edition)
        ensures
            r == Edition::Canary,
    {
        Edition::Canary
    }

    /// The edition that the text names (`0.50`, `0.10`, `0.9`, `0.8`, `0.7`),
    /// `Unknown` for any other text.
    pub fn from_text(value: &str) -> (r: Edition)
        ensures
            r == spec_edition_of(value@),
    {
        proof {
            reveal_strlit("0.50");
            reveal_strlit("0.10");
            reveal_strlit("0.9");
            reveal_strlit("0.8");
            reveal_strlit("0.7");
        }
        assert("0.50"@ =~= edition_text(Edition::Canary));
        assert("0.10"@ =~= edition_text(Edition::Canary10));
        assert("0.9"@ =~= edition_text(Edition::Canary09));
        assert("0.8"@ =~= edition_text(Edition::Canary08));
        assert("0.7"@ =~= edition_text(Edition::Canary07));
        if str_eq(value, "0.50") {
            Edition::Canary
        } else if str_eq(value, "0.10") {
            Edition::Canary10
        } else if str_eq(value, "0.9") {
            Edition::Canary09
        } else if str_eq(value, "0.8") {
            Edition::Canary08
        } else if str_eq(value, "0.7") {
            Edition::Canary07
        } else {
            Edition::Unknown
        }
    }

    /// The text of the edition (`unknown` for an unknown one).
    pub fn as_text(&self) -> (r: &'static str)
        ensures
            r@ == edition_text(*self),
    {
        proof {
            reveal_strlit("0.50");
            reveal_strlit("0.10");
            reveal_strlit("0.9");
            reveal_strlit("0.8");
            reveal_strlit("0.7");
            reveal_strlit("unknown");
        }
        match self {
            Edition::Canary => {
                assert("0.50"@ =~= edition_text(Edition::Canary));
                "0.50"
            },
            Edition::Canary10 => {
                assert("0.10"@ =~= edition_text(Edition::Canary10));
                "0.10"
            },
            Edition::Canary09 => {
                assert("0.9"@ =~= edition_text(Edition::Canary09));
                "0.9"
            },
            Edition::Canary08 => {
                assert("0.8"@ =~= edition_text(Edition::Canary08));
                "0.8"
            },
            Edition::Canary07 => {
                assert("0.7"@ =~= edition_text(Edition::Canary07));
                "0.7"
            },
            Edition::Unknown => {
                assert("unknown"@ =~= edition_text(Edition::Unknown));
                "unknown"
            },
        }
    }
}

/// Every known edition reads back from its text.
pub proof fn lemma_edition_text_round_trip(e: Edition)
    requires
        e != Edition::Unknown,
    ensures
        spec_edition_of(edition_text(e)) == e,
{
    assert(edition_text(Edition::Canary) != edition_text(Edition::Canary10));
    assert(edition_text(Edition::Canary)[2] != edition_text(Edition::Canary09)[2]);
    assert(edition_text(Edition::Canary)[2] != edition_text(Edition::Canary08)[2]);
    assert(edition_text(Edition::Canary)[2] != edition_text(Edition::Canary07)[2]);
    assert(edition_text(Edition::Canary10)[2] != edition_text(Edition::Canary09)[2]);
    assert(edition_text(Edition::Canary10)[2] != edition_text(Edition::Canary08)[2]);
    assert(edition_text(Edition::Canary10)[2] != edition_text(Edition::Canary07)[2]);
    assert(edition_text(Edition::Canary09)[2] != edition_text(Edition::Canary08)[2]);
    assert(edition_text(Edition::Canary09)[2] != edition_text(Edition::Canary07)[2]);
    assert(edition_text(Edition::Canary08)[2] != edition_text(Edition::Canary07)[2]);
}

/// The type of a package.
#[derive(Debug, Clone, Copy, PartialEq, Eq, Structural)]
pub enum PackageType {
    /// A library of shared protocol definitions
    Lib,
    /// An API package
    Api,
}

/// The text of a package type in `Proto.toml`.
pub open spec fn package_type_text(k: PackageType) -> Seq<char> {
    match k {
        PackageType::Lib => "lib"@,
        PackageType::Api => "api"@,
    }
}

impl PackageType {
    /// The package type a `type` field names (`lib` or `api`); `None` for any other text.
    pub fn from_text(text: &str) -> (r: Option<PackageType>)
        ensures
            (match r {
                Some(k) => package_type_text(k) == text@,
                None => forall|k: PackageType| package_type_text(k) != text@,
            }),
    {
        proof {
            reveal_strlit("lib");
            reveal_strlit("api");
        }
        if str_eq(text, "lib") {
            Some(PackageType::Lib)
        } else if str_eq(text, "api") {
            Some(PackageType::Api)
        } else {
            proof {
                assert forall|k: PackageType| package_type_text(k) != text@ by {
                    match k {
                        PackageType::Lib => {},
                        PackageType::Api => {},
                    }
                }
            }
            None
        }
    }

    /// The text of the package type, as `Proto.toml` writes it.
    pub fn to_text(&self) -> (r: String)
        ensures
            r@ == package_type_text(*self),
    {
        match self {
            PackageType::Lib => "lib".to_string(),
            PackageType::Api => "api".to_string(),
        }
    }
}

/// Resolver mode for a dependency edge: whether several versions of a package
/// may coexist.
#[derive(Debug, Clone, Copy, PartialEq, Eq, Structural)]
pub enum ResolverMode {
    /// Single-version resolution (one version per package name)
    Default,
    /// Allow multiple versions of this package if constraints require it
    MultiVersion,
}

/// What happens when several versions of a package declare the same protobuf namespace.
#[derive(Debug, Clone, Copy, PartialEq, Eq, Structural)]
pub enum NamespaceOverlapPolicy {
    /// Rewrite package declarations to carry a version suffix
    Rewrite,
    /// Allow the overlap only where the files' contents are identical
    IdenticalOnly,
    /// Refuse two versions that declare the same namespace
    Forbidden,
}

impl ResolverMode {
    /// The default mode: single-version resolution.
    pub fn default() -> (r: ResolverMode)
        ensures
            r == ResolverMode::Default,
    {
        ResolverMode::Default
    }
}

impl NamespaceOverlapPolicy {
    /// The default policy: rewrite.
    pub fn default() -> (r: NamespaceOverlapPolicy)
        ensures
            r == NamespaceOverlapPolicy::Rewrite,
    {
        NamespaceOverlapPolicy::Rewrite
    }
}

/// How permissive a policy is: rewrite > identical only > forbidden.
pub open spec fn permissiveness(p: NamespaceOverlapPolicy) -> int {
    match p {
        NamespaceOverlapPolicy::Rewrite => 2,
        NamespaceOverlapPolicy::IdenticalOnly => 1,
        NamespaceOverlapPolicy::Forbidden => 0,
    }
}

/// Whether the resolver mode is the default one (and so left out when written).
pub fn is_default_resolver(mode: &ResolverMode) -> (r: bool)
    ensures
        r == (*mode == ResolverMode::Default),
{
    match mode {
        ResolverMode::Default => true,
        ResolverMode::MultiVersion => false,
    }
}

/// Whether the namespace policy is the default one (and so left out when written).
pub fn is_default_namespace_policy(policy: &NamespaceOverlapPolicy) -> (r: bool)
    ensures
        r == (*policy == NamespaceOverlapPolicy::Rewrite),
{
    match policy {
        NamespaceOverlapPolicy::Rewrite => true,
        _ => false,
    }
}

/// Abstract value of a [`PackageManifest`].
pub struct PackageManifestView {
    pub kind: PackageType,
    pub name: Seq<char>,
    pub version: VersionView,
    pub description: Option<Seq<char>>,
}

/// Manifest section of a package.
#[derive(Debug)]
pub struct PackageManifest {
    /// Type of the package
    pub kind: PackageType,
    /// Name of the package
    pub name: PackageName,
    /// Version of the package
    pub version: Version,
    /// Description of the package
    pub description: Option<String>,
}

/// The view of an optional text.
pub open spec fn opt_text(o: Option<String>) -> Option<Seq<char>> {
    match o {
        Some(s) => Some(s@),
        None => None,
    }
}

/// The view of an optional package name.
pub open spec fn opt_name(o: Option<PackageName>) -> Option<Seq<char>> {
    match o {
        Some(n) => Some(n@),
        None => None,
    }
}

impl View for PackageManifest {
    type V = PackageManifestView;

    open spec fn view(&self) -> PackageManifestView {
        PackageManifestView {
            kind: self.kind,
            name: self.name@,
            version: self.version@,
            description: opt_text(self.description),
        }
    }
}

impl PackageManifest {
    /// A copy of this package section.
    pub fn duplicate(&self) -> (r: PackageManifest)
        ensures
            r@ == self@,
    {
        PackageManifest {
            kind: self.kind,
            name: self.name.duplicate(),
            version: self.version.duplicate(),
            description: copy_opt_string(&self.description),
        }
    }
}

/// Abstract value of a [`RemoteDependencyManifest`].
pub struct RemoteView {
    pub package: Option<Seq<char>>,
    pub version: Seq<ComparatorView>,
    pub repository: Seq<char>,
    pub registry: RegistryRefView,
    pub resolver: ResolverMode,
    pub namespace_overlap: NamespaceOverlapPolicy,
}

/// A dependency on a package in a registry.
#[derive(Debug)]
pub struct RemoteDependencyManifest {
    /// Actual package name (where it differs from the dependency's key)
    pub package: Option<PackageName>,
    /// Version requirement
    pub version: VersionReq,
    /// Repository to pull the dependency from
    pub repository: String,
    /// Registry to pull from
    pub registry: RegistryRef,
    /// Resolver mode for this dependency edge
    pub resolver: ResolverMode,
    /// Namespace overlap policy when several versions coexist
    pub namespace_overlap: NamespaceOverlapPolicy,
}

impl View for RemoteDependencyManifest {
    type V = RemoteView;

    open spec fn view(&self) -> RemoteView {
        RemoteView {
            package: opt_name(self.package),
            version: self.version@,
            repository: self.repository@,
            registry: self.registry@,
            resolver: self.resolver,
            namespace_overlap: self.namespace_overlap,
        }
    }
}

fn copy_opt_name(o: &Option<PackageName>) -> (r: Option<PackageName>)
    ensures
        opt_name(r) == opt_name(*o),
{
    match o {
        Some(n) => Some(n.duplicate()),
        None => None,
    }
}

impl RemoteDependencyManifest {
    /// A copy of this dependency.
    pub fn duplicate(&self) -> (r: RemoteDependencyManifest)
        ensures
            r@ == self@,
    {
        RemoteDependencyManifest {
            package: copy_opt_name(&self.package),
            version: self.version.duplicate(),
            repository: self.repository.clone(),
            registry: self.registry.duplicate(),
            resolver: self.resolver,
            namespace_overlap: self.namespace_overlap,
        }
    }
}

/// Abstract value of a [`LocalDependencyManifest`].
pub struct LocalView {
    pub package: Option<Seq<char>>,
    pub path: Seq<char>,
    pub publish: Option<RemoteView>,
}

/// A dependency on a package on the filesystem.
#[derive(Debug)]
pub struct LocalDependencyManifest {
    /// Actual package name (where it differs from the dependency's key)
    pub package: Option<PackageName>,
    /// Path to the local package
    pub path: String,
    /// The registry dependency that stands for it when published
    pub publish: Option<RemoteDependencyManifest>,
}

impl View for LocalDependencyManifest {
    type V = LocalView;

    open spec fn view(&self) -> LocalView {
        LocalView {
            package: opt_name(self.package),
            path: self.path@,
            publish: match self.publish {
                Some(p) => Some(p@),
                None => None,
            },
        }
    }
}

impl LocalDependencyManifest {
    /// A copy of this dependency.
    pub fn duplicate(&self) -> (r: LocalDependencyManifest)
        ensures
            r@ == self@,
    {
        LocalDependencyManifest {
            package: copy_opt_name(&self.package),
            path: self.path.clone(),
            publish: match &self.publish {
                Some(p) => Some(p.duplicate()),
                None => None,
            },
        }
    }
}

/// Abstract value of a [`DependencyManifest`].
pub enum DependencyManifestView {
    Remote(RemoteView),
    Local(LocalView),
}

/// The manifest of one dependency.
#[derive(Debug)]
pub enum DependencyManifest {
    /// A dependency on a package in a registry
    Remote(RemoteDependencyManifest),
    /// A dependency on a package on the filesystem
    Local(LocalDependencyManifest),
}

impl View for DependencyManifest {
    type V = DependencyManifestView;

    open spec fn view(&self) -> DependencyManifestView {
        match self {
            DependencyManifest::Remote(m) => DependencyManifestView::Remote(m@),
            DependencyManifest::Local(m) => DependencyManifestView::Local(m@),
        }
    }
}

/// Why a manifest could not be read or used.
#[derive(Debug)]
pub enum ManifestError {
    /// The manifest names an edition this version does not support
    UnsupportedEdition(String),
    /// A dependency has neither a path nor a version and a repository
    InvalidDependencyManifest,
    /// A registry reference could not be resolved
    Registry(RegistryError),
    /// A dependency of the named package is local and has no registry counterpart
    LocalDependency {
        /// The dependency
        dependency: String,
        /// The package that depends on it (`package` where the manifest has none)
        package: String,
    },
}

impl DependencyManifest {
    /// Whether this is a local dependency.
    pub fn is_local(&self) -> (r: bool)
        ensures
            r == (self@ is Local),
    {
        match self {
            DependencyManifest::Local(_) => true,
            DependencyManifest::Remote(_) => false,
        }
    }

    /// A copy of this dependency manifest.
    pub fn duplicate(&self) -> (r: DependencyManifest)
        ensures
            r@ == self@,
    {
        match self {
            DependencyManifest::Remote(m) => DependencyManifest::Remote(m.duplicate()),
            DependencyManifest::Local(m) => DependencyManifest::Local(m.duplicate()),
        }
    }

    /// The dependency manifest that the fields of a manifest's dependency
    /// entry describe: a local one where a path is given (a registry
    /// counterpart where a version and a repository are given too), else a
    /// remote one where a version and a repository are given; a missing
    /// registry is the configuration's default. `InvalidDependencyManifest`
    /// where there is neither a path nor a version and a repository.
    pub fn from_fields(
        package: Option<PackageName>,
        path: Option<String>,
        version: Option<VersionReq>,
        repository: Option<String>,
        registry: Option<RegistryRef>,
        resolver: ResolverMode,
        namespace_overlap: NamespaceOverlapPolicy,
    ) -> (r: Result<DependencyManifest, ManifestError>)
        ensures
            (match path {
                Some(p) => r matches Ok(DependencyManifest::Local(l)) && l@ == (LocalView {
                    package: opt_name(package),
                    path: p@,
                    publish: match (version, repository) {
                        (Some(v), Some(repo)) => Some(RemoteView {
                            package: opt_name(package),
                            version: v@,
                            repository: repo@,
                            registry: match registry { Some(g) => g@, None => RegistryRefView::UseDefault },
                            resolver,
                            namespace_overlap,
                        }),
                        _ => None,
                    },
                }),
                None => match (version, repository) {
                    (Some(v), Some(repo)) => r matches Ok(DependencyManifest::Remote(m)) && m@ == (RemoteView {
                        package: opt_name(package),
                        version: v@,
                        repository: repo@,
                        registry: match registry { Some(g) => g@, None => RegistryRefView::UseDefault },
                        resolver,
                        namespace_overlap,
                    }),
                    _ => r matches Err(ManifestError::InvalidDependencyManifest),
                },
            }),
    {
        let registry = match registry {
            Some(g) => g,
            None => RegistryRef::UseDefault,
        };
        match path {
            Some(path) => {
                let publish = match (version, repository) {
                    (Some(version), Some(repository)) => Some(RemoteDependencyManifest {
                        package: copy_opt_name(&package),
                        version,
                        repository,
                        registry,
                        resolver,
                        namespace_overlap,
                    }),
                    _ => None,
                };
                Ok(DependencyManifest::Local(LocalDependencyManifest { package, path, publish }))
            },
            None => match (version, repository) {
                (Some(version), Some(repository)) => Ok(DependencyManifest::Remote(RemoteDependencyManifest {
                    package,
                    version,
                    repository,
                    registry,
                    resolver,
                    namespace_overlap,
                })),
                _ => Err(ManifestError::InvalidDependencyManifest),
            },
        }
    }
}

/// Abstract value of a [`Dependency`].
pub struct DependencyView {
    pub package: Seq<char>,
    pub manifest: DependencyManifestView,
}

/// One dependency of a package.
#[derive(Debug)]
pub struct Dependency {
    /// Package name of this dependency
    pub package: PackageName,
    /// Where and in what version to find it
    pub manifest: DependencyManifest,
}

impl View for Dependency {
    type V = DependencyView;

    open spec fn view(&self) -> DependencyView {
        DependencyView { package: self.package@, manifest: self.manifest@ }
    }
}

/// The views of dependencies.
pub open spec fn dependencies_view(s: Seq<Dependency>) -> Seq<DependencyView> {
    s.map_values(|d: Dependency| d@)
}

/// The resolver mode of a dependency edge (the default for a local
/// dependency without a registry counterpart).
pub open spec fn spec_resolver_mode(d: DependencyView) -> ResolverMode {
    match d.manifest {
        DependencyManifestView::Remote(m) => m.resolver,
        DependencyManifestView::Local(l) => match l.publish {
            Some(p) => p.resolver,
            None => ResolverMode::Default,
        },
    }
}

/// The namespace overlap policy of a dependency edge (the default for a
/// local dependency without a registry counterpart).
pub open spec fn spec_overlap_policy(d: DependencyView) -> NamespaceOverlapPolicy {
    match d.manifest {
        DependencyManifestView::Remote(m) => m.namespace_overlap,
        DependencyManifestView::Local(l) => match l.publish {
            Some(p) => p.namespace_overlap,
            None => NamespaceOverlapPolicy::Rewrite,
        },
    }
}

/// The text of a dependency: `repository/package@requirement` for a remote
/// one, `package@path` for a local one.
pub open spec fn dependency_text(d: DependencyView) -> Seq<char> {
    match d.manifest {
        DependencyManifestView::Remote(m) => m.repository + seq!['/'] + d.package + seq!['@'] + spec_req_text(m.version),
        DependencyManifestView::Local(l) => d.package + seq!['@'] + l.path,
    }
}

impl Dependency {
    /// A remote dependency on a package of a registry's repository, with the
    /// default resolver mode and namespace policy.
    pub fn new(registry: &RegistryRef, repository: String, package: PackageName, version: VersionReq) -> (r: Dependency)
        ensures
            r@ == (DependencyView {
                package: package@,
                manifest: DependencyManifestView::Remote(RemoteView {
                    package: None,
                    version: version@,
                    repository: repository@,
                    registry: registry@,
                    resolver: ResolverMode::Default,
                    namespace_overlap: NamespaceOverlapPolicy::Rewrite,
                }),
            }),
    {
        Dependency {
            package,
            manifest: DependencyManifest::Remote(RemoteDependencyManifest {
                package: None,
                repository,
                version,
                registry: registry.duplicate(),
                resolver: ResolverMode::default(),
                namespace_overlap: NamespaceOverlapPolicy::default(),
            }),
        }
    }

    /// A copy of this dependency with its requirement pinned to the version
    /// (`=major.minor.patch[-pre]`); a local dependency stays as it is.
    pub fn with_version(&self, version: &Version) -> (r: Dependency)
        ensures
            r@ == (match self@.manifest {
                DependencyManifestView::Remote(m) => DependencyView {
                    package: self@.package,
                    manifest: DependencyManifestView::Remote(RemoteView { version: spec_to_exact(version@), ..m }),
                },
                DependencyManifestView::Local(_) => self@,
            }),
    {
        match &self.manifest {
            DependencyManifest::Remote(m) => {
                let mut pinned = m.duplicate();
                pinned.version = to_exact_requirement(version);
                Dependency { package: self.package.duplicate(), manifest: DependencyManifest::Remote(pinned) }
            },
            DependencyManifest::Local(_) => self.duplicate(),
        }
    }

    /// A copy of this dependency.
    pub fn duplicate(&self) -> (r: Dependency)
        ensures
            r@ == self@,
    {
        Dependency { package: self.package.duplicate(), manifest: self.manifest.duplicate() }
    }

    /// The resolver mode of this dependency edge.
    pub fn resolver_mode(&self) -> (r: ResolverMode)
        ensures
            r == spec_resolver_mode(self@),
    {
        match &self.manifest {
            DependencyManifest::Remote(m) => m.resolver,
            DependencyManifest::Local(m) => match &m.publish {
                Some(p) => p.resolver,
                None => ResolverMode::default(),
            },
        }
    }

    /// The namespace overlap policy of this dependency edge.
    pub fn namespace_overlap_policy(&self) -> (r: NamespaceOverlapPolicy)
        ensures
            r == spec_overlap_policy(self@),
    {
        match &self.manifest {
            DependencyManifest::Remote(m) => m.namespace_overlap,
            DependencyManifest::Local(m) => match &m.publish {
                Some(p) => p.namespace_overlap,
                None => NamespaceOverlapPolicy::default(),
            },
        }
    }

    /// Whether this dependency allows several versions of its package.
    pub fn allows_multiversion(&self) -> (r: bool)
        ensures
            r == (spec_resolver_mode(self@) == ResolverMode::MultiVersion),
    {
        match self.resolver_mode() {
            ResolverMode::MultiVersion => true,
            ResolverMode::Default => false,
        }
    }

    /// The text of the dependency: `repository/package@requirement` or `package@path`.
    pub fn to_string(&self) -> (s: String)
        ensures
            s@ == dependency_text(self@),
    {
        match &self.manifest {
            DependencyManifest::Remote(m) => {
                let mut s = m.repository.clone();
                push_char(&mut s, '/');
                push_str(&mut s, self.package.as_str());
                push_char(&mut s, '@');
                let req = m.version.to_string();
                push_str(&mut s, req.as_str());
                assert(s@ =~= dependency_text(self@));
                s
            },
            DependencyManifest::Local(m) => {
                let mut s = self.package.to_string();
                push_char(&mut s, '@');
                push_str(&mut s, m.path.as_str());
                assert(s@ =~= dependency_text(self@));
                s
            },
        }
    }
}

/// Copies of dependencies, in order.
pub fn copy_dependencies(deps: &Vec<Dependency>) -> (r: Vec<Dependency>)
    ensures
        dependencies_view(r@) == dependencies_view(deps@),
{
    let mut r: Vec<Dependency> = Vec::new();
    let mut i: usize = 0;
    while i < deps.len()
        invariant
            i <= deps@.len(),
            dependencies_view(r@) == dependencies_view(deps@).take(i as int),
        decreases deps@.len() - i,
    {
        let ghost before = r@;
        r.push(deps[i].duplicate());
        assert(dependencies_view(r@) =~= dependencies_view(before).push(deps@[i as int]@));
        i = i + 1;
        assert(dependencies_view(r@) =~= dependencies_view(deps@).take(i as int));
    }
    assert(dependencies_view(deps@).take(i as int) =~= dependencies_view(deps@));
    r
}

/// Abstract value of a [`Manifest`].
pub struct ManifestView {
    pub edition: Edition,
    pub package: Option<PackageManifestView>,
    pub dependencies: Seq<DependencyView>,
}

/// The view of an optional package section.
pub open spec fn opt_package_view(o: Option<PackageManifest>) -> Option<PackageManifestView> {
    match o {
        Some(p) => Some(p@),
        None => None,
    }
}

/// A manifest as the rest of the program uses it.
#[derive(Debug)]
pub struct Manifest {
    /// Edition of this manifest
    pub edition: Edition,
    /// Metadata about the root package
    pub package: Option<PackageManifest>,
    /// The packages the root package depends on
    pub dependencies: Vec<Dependency>,
}

impl View for Manifest {
    type V = ManifestView;

    open spec fn view(&self) -> ManifestView {
        ManifestView {
            edition: self.edition,
            package: opt_package_view(self.package),
            dependencies: dependencies_view(self.dependencies@),
        }
    }
}

/// A manifest as written in `Proto.toml`: an edition that this version
/// supports, or none at all; dependencies by key, in the order written.
#[derive(Debug)]
pub enum RawManifest {
    /// A manifest of a known edition
    Canary {
        /// The edition
        edition: Edition,
        /// The package section
        package: Option<PackageManifest>,
        /// Dependencies by key
        dependencies: Vec<(PackageName, DependencyManifest)>,
    },
    /// A manifest that names no edition
    Unknown {
        /// The package section
        package: Option<PackageManifest>,
        /// Dependencies by key
        dependencies: Vec<(PackageName, DependencyManifest)>,
    },
}

/// The views of keyed dependency manifests.
pub open spec fn keyed_view(s: Seq<(PackageName, DependencyManifest)>) -> Seq<(Seq<char>, DependencyManifestView)> {
    s.map_values(|e: (PackageName, DependencyManifest)| (e.0@, e.1@))
}

/// Abstract value of a [`RawManifest`]: edition (`Unknown` where none is
/// written), package section, keyed dependencies.
pub struct RawManifestView {
    pub edition: Edition,
    pub package: Option<PackageManifestView>,
    pub dependencies: Seq<(Seq<char>, DependencyManifestView)>,
}

impl View for RawManifest {
    type V = RawManifestView;

    open spec fn view(&self) -> RawManifestView {
        match self {
            RawManifest::Canary { edition, package, dependencies } => RawManifestView {
                edition: *edition,
                package: opt_package_view(*package),
                dependencies: keyed_view(dependencies@),
            },
            RawManifest::Unknown { package, dependencies } => RawManifestView {
                edition: Edition::Unknown,
                package: opt_package_view(*package),
                dependencies: keyed_view(dependencies@),
            },
        }
    }
}

impl RawManifest {
    /// The manifest that the top-level fields of `Proto.toml` describe: without
    /// an edition an `Unknown` manifest; with one that this version supports a
    /// manifest of it; `UnsupportedEdition` for any other edition.
    pub fn from_fields(
        edition: Option<String>,
        package: Option<PackageManifest>,
        dependencies: Vec<(PackageName, DependencyManifest)>,
    ) -> (r: Result<RawManifest, ManifestError>)
        ensures
            (match edition {
                None => r matches Ok(m) && m is Unknown && m@ == (RawManifestView {
                    edition: Edition::Unknown,
                    package: opt_package_view(package),
                    dependencies: keyed_view(dependencies@),
                }),
                Some(e) => if spec_edition_of(e@) == Edition::Unknown {
                    r matches Err(ManifestError::UnsupportedEdition(t)) && t@ == e@
                } else {
                    r matches Ok(m) && m is Canary && m@ == (RawManifestView {
                        edition: spec_edition_of(e@),
                        package: opt_package_view(package),
                        dependencies: keyed_view(dependencies@),
                    })
                },
            }),
    {
        match edition {
            None => Ok(RawManifest::Unknown { package, dependencies }),
            Some(e) => {
                let parsed = Edition::from_text(e.as_str());
                match parsed {
                    Edition::Unknown => Err(ManifestError::UnsupportedEdition(e)),
                    _ => Ok(RawManifest::Canary { edition: parsed, package, dependencies }),
                }
            },
        }
    }

    /// The package section.
    pub fn package(&self) -> (r: Option<&PackageManifest>)
        ensures
            (match r {
                Some(p) => self@.package == Some(p@),
                None => self@.package is None,
            }),
    {
        match self {
            RawManifest::Canary { package, .. } => package.as_ref(),
            RawManifest::Unknown { package, .. } => package.as_ref(),
        }
    }

    /// The dependencies by key.
    pub fn dependencies(&self) -> (r: &Vec<(PackageName, DependencyManifest)>)
        ensures
            keyed_view(r@) == self@.dependencies,
    {
        match self {
            RawManifest::Canary { dependencies, .. } => dependencies,
            RawManifest::Unknown { dependencies, .. } => dependencies,
        }
    }

    /// The edition (`Unknown` where none is written).
    pub fn edition(&self) -> (r: Edition)
        ensures
            r == self@.edition,
    {
        match self {
            RawManifest::Canary { edition, .. } => *edition,
            RawManifest::Unknown { .. } => Edition::Unknown,
        }
    }

    /// The manifest as it is written: its dependencies keyed by package name,
    /// its edition kept where known.
    pub fn from_manifest(manifest: &Manifest) -> (r: RawManifest)
        ensures
            r@ == (RawManifestView {
                edition: manifest@.edition,
                package: manifest@.package,
                dependencies: manifest@.dependencies.map_values(|d: DependencyView| (d.package, d.manifest)),
            }),
            (manifest.edition == Edition::Unknown) == (r is Unknown),
    {
        let mut dependencies: Vec<(PackageName, DependencyManifest)> = Vec::new();
        let mut i: usize = 0;
        let ghost target = manifest@.dependencies.map_values(|d: DependencyView| (d.package, d.manifest));
        while i < manifest.dependencies.len()
            invariant
                i <= manifest.dependencies@.len(),
                target == manifest@.dependencies.map_values(|d: DependencyView| (d.package, d.manifest)),
                manifest@.dependencies == dependencies_view(manifest.dependencies@),
                keyed_view(dependencies@) == target.take(i as int),
            decreases manifest.dependencies@.len() - i,
        {
            let d = &manifest.dependencies[i];
            let ghost before = dependencies@;
            dependencies.push((d.package.duplicate(), d.manifest.duplicate()));
            assert(keyed_view(dependencies@) =~= keyed_view(before).push((d@.package, d@.manifest)));
            i = i + 1;
            assert(keyed_view(dependencies@) =~= target.take(i as int));
        }
        assert(target.take(i as int) =~= target);
        let package = match &manifest.package {
            Some(p) => Some(p.duplicate()),
            None => None,
        };
        match manifest.edition {
            Edition::Unknown => RawManifest::Unknown { package, dependencies },
            e => RawManifest::Canary { edition: e, package, dependencies },
        }
    }
}

/// A remote dependency with its registry reference resolved, `None` where
/// resolution fails.
pub open spec fn resolve_remote(m: RemoteView, config: Option<RegistryConfig>) -> Option<RemoteView> {
    match spec_resolved(m.registry, config) {
        Some(g) => Some(RemoteView { registry: g, ..m }),
        None => None,
    }
}

/// One dependency entry of a written manifest as the program uses it: its
/// package name is the explicit one (for a local dependency, that of its
/// registry counterpart next), else the key; registry aliases are resolved.
pub open spec fn normalize_dependency(key: Seq<char>, m: DependencyManifestView, config: Option<RegistryConfig>) -> Option<DependencyView> {
    match m {
        DependencyManifestView::Remote(r) => match resolve_remote(r, config) {
            Some(rr) => Some(DependencyView {
                package: match r.package { Some(p) => p, None => key },
                manifest: DependencyManifestView::Remote(rr),
            }),
            None => None,
        },
        DependencyManifestView::Local(l) => {
            let package = match l.package {
                Some(p) => p,
                None => match l.publish {
                    Some(pb) => match pb.package { Some(p) => p, None => key },
                    None => key,
                },
            };
            match l.publish {
                Some(pb) => match resolve_remote(pb, config) {
                    Some(rr) => Some(DependencyView {
                        package,
                        manifest: DependencyManifestView::Local(LocalView { publish: Some(rr), ..l }),
                    }),
                    None => None,
                },
                None => Some(DependencyView { package, manifest: m }),
            }
        },
    }
}

/// All dependency entries normalized, in order; `None` where any fails.
pub open spec fn normalize_all(s: Seq<(Seq<char>, DependencyManifestView)>, config: Option<RegistryConfig>) -> Option<Seq<DependencyView>>
    decreases s.len(),
{
    if s.len() == 0 {
        Some(Seq::empty())
    } else {
        match (normalize_all(s.drop_last(), config), normalize_dependency(s.last().0, s.last().1, config)) {
            (Some(prev), Some(d)) => Some(prev.push(d)),
            _ => None,
        }
    }
}

/// The package name for error messages: the manifest's package, or `package`.
pub open spec fn package_label(p: Option<PackageManifestView>) -> Seq<char> {
    match p {
        Some(p) => p.name,
        None => seq!['p', 'a', 'c', 'k', 'a', 'g', 'e'],
    }
}

/// The index of the first local dependency, if any.
pub open spec fn first_local(s: Seq<DependencyView>) -> Option<int> {
    if exists|i: int| 0 <= i < s.len() && (#[trigger] s[i]).manifest is Local {
        Some(choose|i: int| 0 <= i < s.len() && (#[trigger] s[i]).manifest is Local
            && forall|j: int| 0 <= j < i ==> !((#[trigger] s[j]).manifest is Local))
    } else {
        None
    }
}

/// The index of the first local dependency without a registry counterpart, if any.
pub open spec fn first_unpublishable(s: Seq<DependencyView>) -> Option<int> {
    if exists|i: int| 0 <= i < s.len() && is_unpublishable(#[trigger] s[i]) {
        Some(choose|i: int| 0 <= i < s.len() && is_unpublishable(#[trigger] s[i])
            && forall|j: int| 0 <= j < i ==> !is_unpublishable(#[trigger] s[j]))
    } else {
        None
    }
}

/// A local dependency without a registry counterpart.
pub open spec fn is_unpublishable(d: DependencyView) -> bool {
    d.manifest matches DependencyManifestView::Local(l) && l.publish is None
}

/// A dependency as it is published: a local one replaced by its registry counterpart.
pub open spec fn publish_form(d: DependencyView) -> DependencyView {
    match d.manifest {
        DependencyManifestView::Local(l) => match l.publish {
            Some(p) => DependencyView { package: d.package, manifest: DependencyManifestView::Remote(p) },
            None => d,
        },
        _ => d,
    }
}

/// The dependencies as they are published.
pub open spec fn published_dependencies(ds: Seq<DependencyView>) -> Seq<DependencyView> {
    ds.map_values(|d: DependencyView| publish_form(d))
}

/// The package name for error messages.
fn package_label_of(package: &Option<PackageManifest>) -> (r: String)
    ensures
        r@ == package_label(opt_package_view(*package)),
{
    match package {
        Some(p) => p.name.to_string(),
        None => {
            let mut s = String::new();
            push_str(&mut s, "package");
            proof {
                reveal_strlit("package");
            }
            assert(s@ =~= seq!['p', 'a', 'c', 'k', 'a', 'g', 'e']);
            s
        },
    }
}

impl Manifest {
    /// A manifest of the latest edition.
    pub fn new(package: Option<PackageManifest>, dependencies: Vec<Dependency>) -> (r: Manifest)
        ensures
            r@ == (ManifestView {
                edition: Edition::Canary,
                package: opt_package_view(package),
                dependencies: dependencies_view(dependencies@),
            }),
    {
        Manifest { edition: Edition::latest(), package, dependencies }
    }

    /// The manifest that a written manifest describes: each dependency named
    /// by its explicit package name or else its key, registry aliases
    /// resolved through the configuration; the error of the first dependency
    /// whose registry cannot be resolved.
    pub fn from_raw(raw: &RawManifest, config: Option<&RegistryConfig>) -> (r: Result<Manifest, ManifestError>)
        ensures
            r is Ok <==> normalize_all(raw@.dependencies, opt_config(config)) is Some,
            r matches Ok(m) ==> m@ == (ManifestView {
                edition: raw@.edition,
                package: raw@.package,
                dependencies: normalize_all(raw@.dependencies, opt_config(config))->0,
            }),
            r matches Err(e) ==> e is Registry,
    {
        let entries = raw.dependencies();
        let ghost all = raw@.dependencies;
        let mut dependencies: Vec<Dependency> = Vec::new();
        let mut i: usize = 0;
        while i < entries.len()
            invariant
                i <= entries@.len(),
                all == keyed_view(entries@),
                all == raw@.dependencies,
                normalize_all(all.take(i as int), opt_config(config)) == Some(dependencies_view(dependencies@)),
            decreases entries@.len() - i,
        {
            assert(all.take(i + 1).drop_last() =~= all.take(i as int));
            let (key, manifest) = (&entries[i].0, &entries[i].1);
            assert(all[i as int] == (key@, manifest@));
            let d = match normalize_entry(key, manifest, config) {
                Ok(d) => d,
                Err(e) => {
                    proof {
                        lemma_normalize_all_fails(all, i as int, opt_config(config));
                    }
                    return Err(e);
                },
            };
            let ghost before = dependencies@;
            dependencies.push(d);
            assert(dependencies_view(dependencies@) =~= dependencies_view(before).push(d@));
            i = i + 1;
        }
        assert(all.take(i as int) =~= all);
        let package = match raw.package() {
            Some(p) => Some(p.duplicate()),
            None => None,
        };
        Ok(Manifest { edition: raw.edition(), package, dependencies })
    }

    /// Checks that every dependency is a registry dependency; names the first
    /// local one otherwise.
    pub fn assert_fully_resolved(&self) -> (r: Result<(), ManifestError>)
        ensures
            (match first_local(self@.dependencies) {
                None => r is Ok,
                Some(i) => r matches Err(ManifestError::LocalDependency { dependency, package })
                    && dependency@ == self@.dependencies[i].package
                    && package@ == package_label(self@.package),
            }),
    {
        let ghost ds = self@.dependencies;
        let mut i: usize = 0;
        while i < self.dependencies.len()
            invariant
                ds == dependencies_view(self.dependencies@),
                i <= ds.len(),
                forall|j: int| 0 <= j < i ==> !((#[trigger] ds[j]).manifest is Local),
            decreases ds.len() - i,
        {
            assert(ds[i as int] == self.dependencies@[i as int]@);
            if self.dependencies[i].manifest.is_local() {
                proof {
                    let w = choose|w: int| 0 <= w < ds.len() && (#[trigger] ds[w]).manifest is Local
                        && forall|j: int| 0 <= j < w ==> !((#[trigger] ds[j]).manifest is Local);
                    assert(0 <= i < ds.len() && ds[i as int].manifest is Local
                        && forall|j: int| 0 <= j < i ==> !((#[trigger] ds[j]).manifest is Local));
                    if w < i {
                        assert(!(ds[w].manifest is Local));
                    }
                    if (i as int) < w {
                        assert(!(ds[i as int].manifest is Local));
                    }
                }
                return Err(ManifestError::LocalDependency {
                    dependency: self.dependencies[i].package.to_string(),
                    package: package_label_of(&self.package),
                });
            }
            i = i + 1;
        }
        assert(first_local(ds) is None) by {
            if exists|k: int| 0 <= k < ds.len() && (#[trigger] ds[k]).manifest is Local {
                let k = choose|k: int| 0 <= k < ds.len() && (#[trigger] ds[k]).manifest is Local;
                assert(!(ds[k].manifest is Local));
            }
        }
        Ok(())
    }

    /// A copy of this manifest.
    pub fn duplicate(&self) -> (r: Manifest)
        ensures
            r@ == self@,
    {
        let package = match &self.package {
            Some(p) => Some(p.duplicate()),
            None => None,
        };
        Manifest { edition: self.edition, package, dependencies: copy_dependencies(&self.dependencies) }
    }
}

/// One dependency entry normalized.
fn normalize_entry(key: &PackageName, manifest: &DependencyManifest, config: Option<&RegistryConfig>) -> (r: Result<Dependency, ManifestError>)
    ensures
        (match normalize_dependency(key@, manifest@, opt_config(config)) {
            Some(d) => r matches Ok(x) && x@ == d,
            None => r matches Err(ManifestError::Registry(_)),
        }),
{
    match manifest {
        DependencyManifest::Remote(m) => {
            let package = match &m.package {
                Some(p) => p.duplicate(),
                None => key.duplicate(),
            };
            match m.registry.with_alias_resolved(config) {
                Ok(registry) => {
                    let mut resolved = m.duplicate();
                    resolved.registry = registry;
                    Ok(Dependency { package, manifest: DependencyManifest::Remote(resolved) })
                },
                Err(e) => Err(ManifestError::Registry(e)),
            }
        },
        DependencyManifest::Local(l) => {
            let package = match &l.package {
                Some(p) => p.duplicate(),
                None => match &l.publish {
                    Some(pb) => match &pb.package {
                        Some(p) => p.duplicate(),
                        None => key.duplicate(),
                    },
                    None => key.duplicate(),
                },
            };
            match &l.publish {
                Some(pb) => match pb.registry.with_alias_resolved(config) {
                    Ok(registry) => {
                        let mut resolved = pb.duplicate();
                        resolved.registry = registry;
                        let local = LocalDependencyManifest {
                            package: copy_opt_name(&l.package),
                            path: l.path.clone(),
                            publish: Some(resolved),
                        };
                        Ok(Dependency { package, manifest: DependencyManifest::Local(local) })
                    },
                    Err(e) => Err(ManifestError::Registry(e)),
                },
                None => Ok(Dependency { package, manifest: DependencyManifest::Local(l.duplicate()) }),
            }
        },
    }
}

/// Each normalized dependency keeps the kind of its entry and is named by the
/// explicit package name of the entry where it has one, whatever its key:
/// a registry dependency's `package`; a local dependency's `package`, else
/// that of its registry counterpart; and by its key only where no such name is given.
pub proof fn lemma_normalized_names(s: Seq<(Seq<char>, DependencyManifestView)>, config: Option<RegistryConfig>)
    requires
        normalize_all(s, config) is Some,
    ensures
        normalize_all(s, config)->0.len() == s.len(),
        forall|i: int| 0 <= i < s.len() ==> {
            let d = #[trigger] normalize_all(s, config)->0[i];
            let m = s[i].1;
            &&& (m is Local <==> d.manifest is Local)
            &&& (m is Remote && m->Remote_0.package is Some ==> d.package == m->Remote_0.package->0)
            &&& (m is Remote && m->Remote_0.package is None ==> d.package == s[i].0)
            &&& (m is Local && m->Local_0.package is Some ==> d.package == m->Local_0.package->0)
            &&& (m is Local && m->Local_0.package is None && m->Local_0.publish is Some
                && m->Local_0.publish->0.package is Some ==> d.package == m->Local_0.publish->0.package->0)
            &&& (m is Local && m->Local_0.package is None
                && (m->Local_0.publish is None || m->Local_0.publish->0.package is None) ==> d.package == s[i].0)
        },
    decreases s.len(),
{
    if s.len() > 0 {
        let prev = s.drop_last();
        lemma_normalized_names(prev, config);
        let ds = normalize_all(s, config)->0;
        let pd = normalize_all(prev, config)->0;
        assert(ds == pd.push(normalize_dependency(s.last().0, s.last().1, config)->0));
        assert forall|i: int| 0 <= i < s.len() - 1 implies ds[i] == pd[i] && s[i] == prev[i] by {}
    }
}

/// Normalizing fails where the entry at `i` fails.
proof fn lemma_normalize_all_fails(s: Seq<(Seq<char>, DependencyManifestView)>, i: int, config: Option<RegistryConfig>)
    requires
        0 <= i < s.len(),
        normalize_dependency(s[i].0, s[i].1, config) is None,
    ensures
        normalize_all(s, config) is None,
    decreases s.len(),
{
    if i < s.len() - 1 {
        lemma_normalize_all_fails(s.drop_last(), i, config);
    }
}

/// A manifest whose dependencies are all registry dependencies, ready to publish.
#[derive(Debug)]
pub struct ResolvedManifest(pub Manifest);

impl ResolvedManifest {
    /// The manifest with each local dependency replaced by its registry
    /// counterpart; names the first local dependency that has none.
    pub fn new_from_manifest(manifest: Manifest) -> (r: Result<ResolvedManifest, ManifestError>)
        ensures
            (match first_unpublishable(manifest@.dependencies) {
                None => r matches Ok(m) && m.0@ == (ManifestView {
                    dependencies: published_dependencies(manifest@.dependencies),
                    ..manifest@
                }),
                Some(i) => r matches Err(ManifestError::LocalDependency { dependency, package })
                    && dependency@ == manifest@.dependencies[i].package
                    && package@ == package_label(manifest@.package),
            }),
    {
        let ghost ds = manifest@.dependencies;
        let mut out: Vec<Dependency> = Vec::new();
        let mut i: usize = 0;
        while i < manifest.dependencies.len()
            invariant
                ds == dependencies_view(manifest.dependencies@),
                i <= ds.len(),
                forall|j: int| 0 <= j < i ==> !is_unpublishable(#[trigger] ds[j]),
                dependencies_view(out@) == ds.map_values(|d: DependencyView| publish_form(d)).take(i as int),
            decreases ds.len() - i,
        {
            let d = &manifest.dependencies[i];
            assert(ds[i as int] == d@);
            let ghost before = out@;
            match &d.manifest {
                DependencyManifest::Local(l) => match &l.publish {
                    Some(p) => {
                        out.push(Dependency { package: d.package.duplicate(), manifest: DependencyManifest::Remote(p.duplicate()) });
                    },
                    None => {
                        proof {
                            let w = choose|w: int| 0 <= w < ds.len() && is_unpublishable(#[trigger] ds[w])
                                && forall|j: int| 0 <= j < w ==> !is_unpublishable(#[trigger] ds[j]);
                            assert(0 <= i < ds.len() && is_unpublishable(ds[i as int])
                                && forall|j: int| 0 <= j < i ==> !is_unpublishable(#[trigger] ds[j]));
                            if w < i {
                                assert(!is_unpublishable(ds[w]));
                            }
                            if (i as int) < w {
                                assert(!is_unpublishable(ds[i as int]));
                            }
                        }
                        return Err(ManifestError::LocalDependency {
                            dependency: d.package.to_string(),
                            package: package_label_of(&manifest.package),
                        });
                    },
                },
                DependencyManifest::Remote(_) => {
                    out.push(d.duplicate());
                },
            }
            assert(dependencies_view(out@) =~= dependencies_view(before).push(publish_form(ds[i as int])));
            i = i + 1;
            assert(dependencies_view(out@) =~= ds.map_values(|d: DependencyView| publish_form(d)).take(i as int));
        }
        assert(ds.map_values(|d: DependencyView| publish_form(d)).take(i as int) =~= ds.map_values(|d: DependencyView| publish_form(d)));
        assert(first_unpublishable(ds) is None) by {
            if exists|k: int| 0 <= k < ds.len() && is_unpublishable(#[trigger] ds[k]) {
                let k = choose|k: int| 0 <= k < ds.len() && is_unpublishable(#[trigger] ds[k]);
                assert(!is_unpublishable(ds[k]));
            }
        }
        Ok(ResolvedManifest(Manifest { edition: manifest.edition, package: manifest.package, dependencies: out }))
    }
}

/// The header written above a normalized manifest.
pub const RESOLVED_MANIFEST_HEADER: &'static str = "# THIS FILE IS AUTOMATICALLY GENERATED BY BUFFRS
#
# When uploading packages to the registry buffrs will automatically
# \"normalize\" Proto.toml files for maximal compatibility
# with all versions of buffrs and also rewrite `path` dependencies
# to registry dependencies.
#
# If you are reading this file be aware that the original Proto.toml
# will likely look very different (and much more reasonable).
# See Proto.toml.orig for the original contents.
";

/// The header and the file name under which a manifest is published.
pub trait PublishableManifest {
    /// The header for the manifest file, if any.
    fn header() -> Option<&'static str>;
    /// The name of the manifest file.
    fn file_name() -> String;
}

/// `Proto.toml.orig`
pub open spec fn original_manifest_name() -> Seq<char> {
    seq!['P', 'r', 'o', 't', 'o', '.', 't', 'o', 'm', 'l', '.', 'o', 'r', 'i', 'g']
}

/// `Proto.toml`
pub open spec fn manifest_name() -> Seq<char> {
    seq!['P', 'r', 'o', 't', 'o', '.', 't', 'o', 'm', 'l']
}

impl PublishableManifest for Manifest {
    /// No header.
    fn header() -> (r: Option<&'static str>)
        ensures
            r is None,
    {
        None
    }

    /// `Proto.toml.orig`
    fn file_name() -> (r: String)
        ensures
            r@ == original_manifest_name(),
    {
        let mut s = String::new();
        push_str(&mut s, MANIFEST_FILE);
        push_str(&mut s, ".orig");
        proof {
            reveal_strlit("Proto.toml");
            reveal_strlit(".orig");
        }
        assert(s@ =~= original_manifest_name());
        s
    }
}

impl PublishableManifest for ResolvedManifest {
    /// The generated-file header.
    fn header() -> (r: Option<&'static str>)
        ensures
            r == Some(RESOLVED_MANIFEST_HEADER),
    {
        Some(RESOLVED_MANIFEST_HEADER)
    }

    /// `Proto.toml`
    fn file_name() -> (r: String)
        ensures
            r@ == manifest_name(),
    {
        let mut s = String::new();
        push_str(&mut s, MANIFEST_FILE);
        proof {
            reveal_strlit("Proto.toml");
        }
        assert(s@ =~= manifest_name());
        s
    }
}


/// Where normalizing for publication succeeds, every dependency of the
/// result is a registry dependency.
pub proof fn lemma_published_dependencies_remote(ds: Seq<DependencyView>)
    requires
        first_unpublishable(ds) is None,
    ensures
        forall|i: int| 0 <= i < ds.len() ==> (#[trigger] published_dependencies(ds)[i]).manifest is Remote,
{
    assert forall|i: int| 0 <= i < ds.len() implies (#[trigger] published_dependencies(ds)[i]).manifest is Remote by {
        if is_unpublishable(ds[i]) {
            assert(exists|k: int| 0 <= k < ds.len() && is_unpublishable(#[trigger] ds[k]));
        }
    }
}

} // verus!
