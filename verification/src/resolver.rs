//! The dependency graph of an installation, and the decisions that build it:
//! what to do with each dependency edge, given what the graph already holds.
//!
//! Downloading packages and reading manifests happen outside; the functions
//! here take what those produced and say what follows.

use crate::lock::{LockedPackage, Lockfile};
use crate::manifest::{
    dependencies_view, permissiveness, Dependency, DependencyManifest, DependencyManifestView, DependencyView, NamespaceOverlapPolicy,
    RemoteDependencyManifest, RemoteView, ResolverMode, spec_overlap_policy, spec_resolver_mode,
};
use crate::package::{latest, Package, PackageName, PackageView};
use crate::pubgrub_resolver::{PackageDependency, PackageInfo};
use crate::registry::{RegistryRef, RegistryRefView};
use crate::text::{insert_sorted_unique, lemma_split_before, push_char, push_str, strictly_sorted, strings_view};
use crate::version::{
    extract_exact_version, select_version, spec_extract_exact, spec_req_matches, spec_select, version_display,
    versions_view, ComparatorView, Version, VersionReq, VersionView, lemma_version_display_injective, version_view_ok,
};
use vstd::prelude::*;

verus! {

/// Identifies one resolved package: its name and version.
#[derive(Debug)]
pub struct ResolvedPackageId {
    name: PackageName,
    version: Version,
}

/// Abstract value of a [`ResolvedPackageId`]: name and version.
pub type IdView = (Seq<char>, VersionView);

impl View for ResolvedPackageId {
    type V = IdView;

    closed spec fn view(&self) -> IdView {
        (self.name@, self.version@)
    }
}

impl ResolvedPackageId {
    /// The identifier of a package version.
    pub fn new(name: PackageName, version: Version) -> (r: ResolvedPackageId)
        ensures
            r@ == (name@, version@),
    {
        ResolvedPackageId { name, version }
    }

    /// The package name.
    pub fn name(&self) -> (r: &PackageName)
        ensures
            r@ == self@.0,
    {
        &self.name
    }

    /// The package version.
    pub fn version(&self) -> (r: &Version)
        ensures
            r@ == self@.1,
    {
        &self.version
    }

    /// `name@version`
    pub fn to_string(&self) -> (s: String)
        ensures
            s@ == self@.0 + seq!['@'] + version_display(self@.1),
    {
        let mut s = self.name.to_string();
        push_char(&mut s, '@');
        let v = self.version.to_string();
        push_str(&mut s, v.as_str());
        s
    }

    /// The directory of the package in the vendor folder: `name@version` where
    /// the graph holds more than one version of the name, else the name.
    pub fn vendor_dir_name(&self, graph: &DependencyGraph) -> (s: String)
        ensures
            s@ == spec_vendor_dir(self@, graph.entry_ids()),
    {
        let n = graph.count_name(&self.name);
        if n > 1 {
            self.to_string()
        } else {
            self.name.to_string()
        }
    }

    /// A copy of this identifier.
    pub fn duplicate(&self) -> (r: ResolvedPackageId)
        ensures
            r@ == self@,
    {
        ResolvedPackageId { name: self.name.duplicate(), version: self.version.duplicate() }
    }

    /// Whether two identifiers are the same.
    pub fn same(&self, other: &ResolvedPackageId) -> (r: bool)
        ensures
            r == (self@ == other@),
    {
        self.name.same(&other.name) && self.version == other.version
    }
}

/// How many identifiers carry the name.
pub open spec fn count_with_name(ids: Seq<IdView>, name: Seq<char>) -> nat
    decreases ids.len(),
{
    if ids.len() == 0 {
        0
    } else {
        count_with_name(ids.drop_last(), name) + if ids.last().0 == name { 1nat } else { 0nat }
    }
}

/// A name counted at least once is carried by some identifier.
proof fn lemma_count_positive_has(ids: Seq<IdView>, name: Seq<char>)
    requires
        count_with_name(ids, name) > 0,
    ensures
        exists|i: int| 0 <= i < ids.len() && (#[trigger] ids[i]).0 == name,
    decreases ids.len(),
{
    if ids.last().0 == name {
        assert(ids[ids.len() - 1].0 == name);
    } else {
        lemma_count_positive_has(ids.drop_last(), name);
        let k = choose|k: int| 0 <= k < ids.drop_last().len() && (#[trigger] ids.drop_last()[k]).0 == name;
        assert(ids[k] == ids.drop_last()[k]);
    }
}

/// The vendor directory of a package: `name@version` where the identifiers
/// hold more than one version of its name, else the name.
pub open spec fn spec_vendor_dir(id: IdView, ids: Seq<IdView>) -> Seq<char> {
    if count_with_name(ids, id.0) > 1 {
        id.0 + seq!['@'] + version_display(id.1)
    } else {
        id.0
    }
}

/// A package that asked for a dependency, and how.
#[derive(Debug)]
pub struct Dependant {
    /// Package that requested the dependency
    pub name: PackageName,
    /// Version requirement
    pub version_req: VersionReq,
    /// Whether this edge allows multi-version resolution
    pub allows_multiversion: bool,
    /// Namespace overlap policy for this edge
    pub namespace_overlap_policy: NamespaceOverlapPolicy,
}

/// Abstract value of a [`Dependant`].
pub struct DependantView {
    pub name: Seq<char>,
    pub version_req: Seq<ComparatorView>,
    pub allows_multiversion: bool,
    pub namespace_overlap_policy: NamespaceOverlapPolicy,
}

impl View for Dependant {
    type V = DependantView;

    open spec fn view(&self) -> DependantView {
        DependantView {
            name: self.name@,
            version_req: self.version_req@,
            allows_multiversion: self.allows_multiversion,
            namespace_overlap_policy: self.namespace_overlap_policy,
        }
    }
}

/// The views of dependants.
pub open spec fn dependants_view(s: Seq<Dependant>) -> Seq<DependantView> {
    s.map_values(|d: Dependant| d@)
}

/// The views of identifiers.
pub open spec fn ids_view(s: Seq<ResolvedPackageId>) -> Seq<IdView> {
    s.map_values(|d: ResolvedPackageId| d@)
}

/// A dependency placed in the graph.
#[derive(Debug)]
pub enum ResolvedDependency {
    /// A package from a registry
    Remote {
        /// The package as downloaded
        package: Package,
        /// The registry it came from
        registry: RegistryRef,
        /// The repository in the registry
        repository: String,
        /// Packages that requested it
        dependants: Vec<Dependant>,
        /// Its own dependencies
        depends_on: Vec<ResolvedPackageId>,
    },
    /// A package on the filesystem
    Local {
        /// The package as built
        package: Package,
        /// Where it is
        path: String,
        /// Packages that requested it
        dependants: Vec<Dependant>,
        /// Its own dependencies
        depends_on: Vec<ResolvedPackageId>,
    },
}

/// Abstract value of a [`ResolvedDependency`].
pub struct EntryView {
    pub is_local: bool,
    pub package: PackageView,
    pub registry: Option<RegistryRefView>,
    pub location: Seq<char>,
    pub dependants: Seq<DependantView>,
    pub depends_on: Seq<IdView>,
}

impl View for ResolvedDependency {
    type V = EntryView;

    open spec fn view(&self) -> EntryView {
        match self {
            ResolvedDependency::Remote { package, registry, repository, dependants, depends_on } => EntryView {
                is_local: false,
                package: package@,
                registry: Some(registry@),
                location: repository@,
                dependants: dependants_view(dependants@),
                depends_on: ids_view(depends_on@),
            },
            ResolvedDependency::Local { package, path, dependants, depends_on } => EntryView {
                is_local: true,
                package: package@,
                registry: None,
                location: path@,
                dependants: dependants_view(dependants@),
                depends_on: ids_view(depends_on@),
            },
        }
    }
}

impl ResolvedDependency {
    /// The package.
    pub fn package(&self) -> (r: &Package)
        ensures
            r@ == self@.package,
    {
        match self {
            ResolvedDependency::Remote { package, .. } => package,
            ResolvedDependency::Local { package, .. } => package,
        }
    }

    /// Its own dependencies.
    pub fn depends_on(&self) -> (r: &Vec<ResolvedPackageId>)
        ensures
            ids_view(r@) == self@.depends_on,
    {
        match self {
            ResolvedDependency::Remote { depends_on, .. } => depends_on,
            ResolvedDependency::Local { depends_on, .. } => depends_on,
        }
    }

    /// The packages that requested it.
    pub fn dependants(&self) -> (r: &Vec<Dependant>)
        ensures
            dependants_view(r@) == self@.dependants,
    {
        match self {
            ResolvedDependency::Remote { dependants, .. } => dependants,
            ResolvedDependency::Local { dependants, .. } => dependants,
        }
    }

    /// Whether it is a local package.
    pub fn is_local(&self) -> (r: bool)
        ensures
            r == self@.is_local,
    {
        match self {
            ResolvedDependency::Remote { .. } => false,
            ResolvedDependency::Local { .. } => true,
        }
    }
}

/// Whether no two entries share an identifier.
pub open spec fn distinct_ids(s: Seq<IdView>) -> bool {
    forall|i: int, j: int| 0 <= i < s.len() && 0 <= j < s.len() && i != j ==> #[trigger] s[i] != #[trigger] s[j]
}

/// The direct and transitive dependencies of the root package.
#[derive(Debug)]
pub struct DependencyGraph {
    allow_multiple_versions: bool,
    multiversion_permitted: Vec<PackageName>,
    namespace_policies: Vec<(PackageName, NamespaceOverlapPolicy)>,
    roots: Vec<ResolvedPackageId>,
    entries: Vec<(ResolvedPackageId, ResolvedDependency)>,
}

/// The identifiers of graph entries, in order.
pub open spec fn entries_ids(s: Seq<(ResolvedPackageId, ResolvedDependency)>) -> Seq<IdView> {
    s.map_values(|e: (ResolvedPackageId, ResolvedDependency)| e.0@)
}

/// The entry views of graph entries, in order.
pub open spec fn entries_values(s: Seq<(ResolvedPackageId, ResolvedDependency)>) -> Seq<EntryView> {
    s.map_values(|e: (ResolvedPackageId, ResolvedDependency)| e.1@)
}

/// The position of an identifier among identifiers, if any.
pub open spec fn index_of_id(ids: Seq<IdView>, id: IdView) -> Option<int> {
    if exists|i: int| 0 <= i < ids.len() && ids[i] == id {
        Some(choose|i: int| 0 <= i < ids.len() && ids[i] == id)
    } else {
        None
    }
}

/// The most permissive of two policies (the first where they are equally so).
pub open spec fn more_permissive(current: NamespaceOverlapPolicy, new: NamespaceOverlapPolicy) -> NamespaceOverlapPolicy {
    if permissiveness(new) > permissiveness(current) { new } else { current }
}

impl DependencyGraph {
    #[verifier::type_invariant]
    spec fn wf(self) -> bool {
        distinct_ids(entries_ids(self.entries@))
    }

    /// Whether several versions are allowed for every package.
    pub closed spec fn allows_all(&self) -> bool {
        self.allow_multiple_versions
    }

    /// The names that some edge granted multi-version permission.
    pub closed spec fn permitted_names(&self) -> Set<Seq<char>> {
        self.multiversion_permitted@.map_values(|n: PackageName| n@).to_set()
    }

    /// The policy recorded for a name.
    pub closed spec fn recorded_policy(&self, name: Seq<char>) -> Option<NamespaceOverlapPolicy> {
        latest(self.namespace_policies@, name)
    }

    /// The identifiers of the entries, in order.
    pub closed spec fn entry_ids(&self) -> Seq<IdView> {
        entries_ids(self.entries@)
    }

    /// The entries, in the order of their identifiers.
    pub closed spec fn entry_values(&self) -> Seq<EntryView> {
        entries_values(self.entries@)
    }

    /// The roots.
    pub closed spec fn root_ids(&self) -> Seq<IdView> {
        ids_view(self.roots@)
    }

    /// The entry of an identifier, if any.
    pub open spec fn entry_of(&self, id: IdView) -> Option<EntryView> {
        match index_of_id(self.entry_ids(), id) {
            Some(i) => Some(self.entry_values()[i]),
            None => None,
        }
    }

    /// The effective namespace policy of a name: the recorded one, else `Rewrite`.
    pub open spec fn policy_of(&self, name: Seq<char>) -> NamespaceOverlapPolicy {
        match self.recorded_policy(name) {
            Some(p) => p,
            None => NamespaceOverlapPolicy::Rewrite,
        }
    }

    /// Whether several versions of the name may coexist.
    pub open spec fn multiversion_ok(&self, name: Seq<char>) -> bool {
        self.allows_all() || self.permitted_names().contains(name)
    }

    /// An empty graph.
    pub fn new(allow_multiple_versions: bool) -> (r: DependencyGraph)
        ensures
            r.allows_all() == allow_multiple_versions,
            r.permitted_names().is_empty(),
            forall|n: Seq<char>| #[trigger] r.recorded_policy(n) is None,
            r.entry_ids().len() == 0,
            r.root_ids().len() == 0,
    {
        let r = DependencyGraph {
            allow_multiple_versions,
            multiversion_permitted: Vec::new(),
            namespace_policies: Vec::new(),
            roots: Vec::new(),
            entries: Vec::new(),
        };
        assert(r.permitted_names() =~= Set::empty());
        r
    }

    /// The entry of an identifier.
    pub fn get(&self, id: &ResolvedPackageId) -> (r: Option<&ResolvedDependency>)
        ensures
            (match r {
                Some(e) => self.entry_of(id@) == Some(e@),
                None => self.entry_of(id@) is None,
            }),
    {
        match self.find_id(id) {
            Some(i) => Some(&self.entries[i].1),
            None => None,
        }
    }

    /// The position of an identifier.
    fn find_id(&self, id: &ResolvedPackageId) -> (r: Option<usize>)
        ensures
            (match r {
                Some(i) => i < self.entries@.len() && index_of_id(self.entry_ids(), id@) == Some(i as int)
                    && self.entries@[i as int].0@ == id@,
                None => index_of_id(self.entry_ids(), id@) is None,
            }),
    {
        proof {
            use_type_invariant(self);
        }
        let ghost ids = self.entry_ids();
        let mut i: usize = 0;
        while i < self.entries.len()
            invariant
                ids == entries_ids(self.entries@),
                distinct_ids(ids),
                i <= self.entries@.len(),
                forall|j: int| 0 <= j < i ==> ids[j] != id@,
            decreases self.entries@.len() - i,
        {
            assert(ids[i as int] == self.entries@[i as int].0@);
            if self.entries[i].0.same(id) {
                proof {
                    let w = choose|w: int| 0 <= w < ids.len() && ids[w] == id@;
                    assert(w == i);
                }
                return Some(i);
            }
            i = i + 1;
        }
        None
    }

    /// The resolved root dependencies.
    pub fn roots(&self) -> (r: &Vec<ResolvedPackageId>)
        ensures
            ids_view(r@) == self.root_ids(),
    {
        &self.roots
    }

    /// Sets the resolved root dependencies.
    pub fn set_roots(&mut self, roots: Vec<ResolvedPackageId>)
        ensures
            final(self).root_ids() == ids_view(roots@),
            final(self).entry_ids() == old(self).entry_ids(),
            final(self).entry_values() == old(self).entry_values(),
            final(self).allows_all() == old(self).allows_all(),
            final(self).permitted_names() == old(self).permitted_names(),
            forall|n: Seq<char>| #[trigger] final(self).recorded_policy(n) == old(self).recorded_policy(n),
    {
        proof {
            use_type_invariant(&*self);
        }
        self.roots = roots;
    }

    /// Whether several versions are allowed for every package.
    pub fn allow_multiple_versions(&self) -> (r: bool)
        ensures
            r == self.allows_all(),
    {
        self.allow_multiple_versions
    }

    /// Whether several versions of the package may coexist: allowed for every
    /// package, or granted for this one by some dependency edge.
    pub fn is_multiversion_permitted(&self, name: &PackageName) -> (r: bool)
        ensures
            r == self.multiversion_ok(name@),
    {
        if self.allow_multiple_versions {
            return true;
        }
        let mut i: usize = 0;
        while i < self.multiversion_permitted.len()
            invariant
                i <= self.multiversion_permitted@.len(),
                forall|j: int| 0 <= j < i ==> self.multiversion_permitted@[j]@ != name@,
            decreases self.multiversion_permitted@.len() - i,
        {
            if self.multiversion_permitted[i].same(name) {
                assert(self.multiversion_permitted@.map_values(|n: PackageName| n@)[i as int] == name@);
                return true;
            }
            i = i + 1;
        }
        assert(!self.permitted_names().contains(name@)) by {
            let s = self.multiversion_permitted@.map_values(|n: PackageName| n@);
            if s.contains(name@) {
                let j = choose|j: int| 0 <= j < s.len() && s[j] == name@;
                assert(self.multiversion_permitted@[j]@ == name@);
            }
        }
        false
    }

    /// The effective namespace overlap policy of a package: the recorded one,
    /// else the default (`Rewrite`).
    pub fn namespace_policy(&self, name: &PackageName) -> (r: NamespaceOverlapPolicy)
        ensures
            r == self.policy_of(name@),
    {
        match crate::package::find_latest(&self.namespace_policies, name) {
            Some(i) => self.namespace_policies[i].1,
            None => NamespaceOverlapPolicy::Rewrite,
        }
    }

    /// Grants multi-version permission for a package name.
    pub fn permit_multiversion(&mut self, name: &PackageName)
        ensures
            final(self).permitted_names() == old(self).permitted_names().insert(name@),
            final(self).allows_all() == old(self).allows_all(),
            forall|n: Seq<char>| #[trigger] final(self).recorded_policy(n) == old(self).recorded_policy(n),
            final(self).entry_ids() == old(self).entry_ids(),
            final(self).entry_values() == old(self).entry_values(),
            final(self).root_ids() == old(self).root_ids(),
    {
        proof {
            use_type_invariant(&*self);
        }
        let ghost before = self.multiversion_permitted@.map_values(|n: PackageName| n@);
        let mut names: Vec<PackageName> = Vec::new();
        std::mem::swap(&mut names, &mut self.multiversion_permitted);
        names.push(name.duplicate());
        self.multiversion_permitted = names;
        assert(self.multiversion_permitted@.map_values(|n: PackageName| n@) =~= before.push(name@));
        assert(self.permitted_names() =~= before.to_set().insert(name@)) by {
            let after = before.push(name@);
            assert forall|x: Seq<char>| after.to_set().contains(x) == before.to_set().insert(name@).contains(x) by {
                if x == name@ {
                    assert(after[before.len() as int] == x);
                } else {
                    if after.contains(x) {
                        let j = choose|j: int| 0 <= j < after.len() && after[j] == x;
                        assert(before[j] == x);
                    }
                    if before.contains(x) {
                        let j = choose|j: int| 0 <= j < before.len() && before[j] == x;
                        assert(after[j] == x);
                    }
                }
            }
        }
    }

    /// Records a namespace policy for a package name: the most permissive of
    /// the recorded one and the new one; the new one as given where the name
    /// has none recorded yet.
    pub fn update_namespace_policy(&mut self, name: &PackageName, policy: NamespaceOverlapPolicy)
        ensures
            forall|n: Seq<char>| #[trigger] final(self).recorded_policy(n) == if n == name@ {
                Some(match old(self).recorded_policy(name@) {
                    Some(current) => more_permissive(current, policy),
                    None => policy,
                })
            } else {
                old(self).recorded_policy(n)
            },
            final(self).allows_all() == old(self).allows_all(),
            final(self).permitted_names() == old(self).permitted_names(),
            final(self).entry_ids() == old(self).entry_ids(),
            final(self).entry_values() == old(self).entry_values(),
            final(self).root_ids() == old(self).root_ids(),
    {
        let chosen = match crate::package::find_latest(&self.namespace_policies, name) {
            Some(i) => {
                let current = self.namespace_policies[i].1;
                let new_permissiveness: u8 = match policy {
                    NamespaceOverlapPolicy::Rewrite => 2,
                    NamespaceOverlapPolicy::IdenticalOnly => 1,
                    NamespaceOverlapPolicy::Forbidden => 0,
                };
                let current_permissiveness: u8 = match current {
                    NamespaceOverlapPolicy::Rewrite => 2,
                    NamespaceOverlapPolicy::IdenticalOnly => 1,
                    NamespaceOverlapPolicy::Forbidden => 0,
                };
                if new_permissiveness > current_permissiveness { policy } else { current }
            },
            None => policy,
        };
        proof {
            use_type_invariant(&*self);
        }
        let ghost old_policies = self.namespace_policies@;
        let mut policies: Vec<(PackageName, NamespaceOverlapPolicy)> = Vec::new();
        std::mem::swap(&mut policies, &mut self.namespace_policies);
        policies.push((name.duplicate(), chosen));
        self.namespace_policies = policies;
        proof {
            assert forall|n: Seq<char>| #[trigger] self.recorded_policy(n) == if n == name@ {
                Some(match old(self).recorded_policy(name@) {
                    Some(current) => more_permissive(current, policy),
                    None => policy,
                })
            } else {
                old(self).recorded_policy(n)
            } by {
                assert(self.namespace_policies@.drop_last() =~= old_policies);
            }
        }
    }

    /// How many entries carry the name.
    pub fn count_name(&self, name: &PackageName) -> (r: usize)
        ensures
            r == count_with_name(self.entry_ids(), name@),
    {
        let ghost ids = self.entry_ids();
        let mut c: usize = 0;
        let mut i: usize = 0;
        while i < self.entries.len()
            invariant
                ids == entries_ids(self.entries@),
                i <= self.entries@.len(),
                c == count_with_name(ids.take(i as int), name@),
                c <= i,
            decreases self.entries@.len() - i,
        {
            assert(ids.take(i + 1).drop_last() =~= ids.take(i as int));
            assert(ids.take(i + 1).last() == self.entries@[i as int].0@);
            if self.entries[i].0.name().same(name) {
                c = c + 1;
            }
            i = i + 1;
        }
        assert(ids.take(i as int) =~= ids);
        c
    }

    /// Whether the package needs its namespaces rewritten: the graph holds
    /// more than one version of its name and the name's policy is `Rewrite`.
    pub fn needs_namespace_rewrite(&self, id: &ResolvedPackageId) -> (r: bool)
        ensures
            r == (count_with_name(self.entry_ids(), id@.0) > 1 && self.policy_of(id@.0) == NamespaceOverlapPolicy::Rewrite),
    {
        let count = self.count_name(id.name());
        if count <= 1 {
            return false;
        }
        match self.namespace_policy(id.name()) {
            NamespaceOverlapPolicy::Rewrite => true,
            _ => false,
        }
    }

    /// The identifiers with the name, in entry order.
    pub fn ids_for_name(&self, name: &PackageName) -> (r: Vec<ResolvedPackageId>)
        ensures
            ids_view(r@) == self.entry_ids().filter(|x: IdView| x.0 == name@),
    {
        let ghost ids = self.entry_ids();
        let ghost pred = |x: IdView| x.0 == name@;
        let mut r: Vec<ResolvedPackageId> = Vec::new();
        let mut i: usize = 0;
        while i < self.entries.len()
            invariant
                ids == entries_ids(self.entries@),
                pred == (|x: IdView| x.0 == name@),
                i <= self.entries@.len(),
                ids_view(r@) == ids.take(i as int).filter(pred),
            decreases self.entries@.len() - i,
        {
            assert(ids.take(i + 1).drop_last() =~= ids.take(i as int));
            assert(ids.take(i + 1).last() == self.entries@[i as int].0@);
            reveal(Seq::filter);
            if self.entries[i].0.name().same(name) {
                let ghost before = r@;
                r.push(self.entries[i].0.duplicate());
                assert(ids_view(r@) =~= ids_view(before).push(ids[i as int]));
            }
            i = i + 1;
        }
        assert(ids.take(i as int) =~= ids);
        r
    }

    /// The only entry with the name; `None` where there is none or more than one.
    pub fn get_single_by_name(&self, name: &PackageName) -> (r: Option<&ResolvedDependency>)
        ensures
            (match r {
                Some(e) => count_with_name(self.entry_ids(), name@) == 1
                    && exists|i: int| 0 <= i < self.entry_ids().len() && self.entry_ids()[i].0 == name@
                        && self.entry_values()[i] == e@,
                None => count_with_name(self.entry_ids(), name@) != 1,
            }),
    {
        let count = self.count_name(name);
        if count != 1 {
            return None;
        }
        match self.first_with_name(name) {
            Some(i) => {
                assert(self.entry_values()[i as int] == self.entries@[i as int].1@);
                Some(&self.entries[i].1)
            },
            None => {
                proof {
                    lemma_count_positive_has(self.entry_ids(), name@);
                }
                None
            },
        }
    }

    /// The position of the first entry with the name.
    fn first_with_name(&self, name: &PackageName) -> (r: Option<usize>)
        ensures
            (match r {
                Some(i) => i < self.entry_ids().len() && self.entry_ids()[i as int].0 == name@
                    && i < self.entry_values().len()
                    && forall|j: int| 0 <= j < i ==> (#[trigger] self.entry_ids()[j]).0 != name@,
                None => forall|j: int| 0 <= j < self.entry_ids().len() ==> (#[trigger] self.entry_ids()[j]).0 != name@,
            }),
            r matches Some(i) ==> i < self.entries@.len(),
    {
        let ghost ids = self.entry_ids();
        let mut i: usize = 0;
        while i < self.entries.len()
            invariant
                ids == entries_ids(self.entries@),
                i <= self.entries@.len(),
                forall|j: int| 0 <= j < i ==> (#[trigger] ids[j]).0 != name@,
            decreases self.entries@.len() - i,
        {
            assert(ids[i as int] == self.entries@[i as int].0@);
            if self.entries[i].0.name().same(name) {
                return Some(i);
            }
            i = i + 1;
        }
        None
    }

    /// The entry at a position, with its identifier.
    pub fn entry_at(&self, i: usize) -> (r: (&ResolvedPackageId, &ResolvedDependency))
        requires
            i < self.entry_ids().len(),
        ensures
            r.0@ == self.entry_ids()[i as int],
            r.1@ == self.entry_values()[i as int],
    {
        (&self.entries[i].0, &self.entries[i].1)
    }

    /// The number of entries.
    pub fn len(&self) -> (r: usize)
        ensures
            r == self.entry_ids().len(),
            r == self.entry_values().len(),
            distinct_ids(self.entry_ids()),
    {
        proof {
            use_type_invariant(self);
        }
        self.entries.len()
    }

    /// Gives each entry, by position, its own dependencies.
    pub fn set_edges(&mut self, edges: Vec<Vec<ResolvedPackageId>>)
        requires
            edges@.len() == old(self).entry_ids().len(),
        ensures
            final(self).entry_ids() == old(self).entry_ids(),
            final(self).entry_values().len() == old(self).entry_values().len(),
            forall|k: int| 0 <= k < old(self).entry_values().len() ==> #[trigger] final(self).entry_values()[k]
                == (EntryView { depends_on: ids_view(edges@[k]@), ..old(self).entry_values()[k] }),
            final(self).root_ids() == old(self).root_ids(),
            final(self).allows_all() == old(self).allows_all(),
            final(self).permitted_names() == old(self).permitted_names(),
            forall|n: Seq<char>| #[trigger] final(self).recorded_policy(n) == old(self).recorded_policy(n),
    {
        proof {
            use_type_invariant(&*self);
        }
        let ghost ids0 = self.entry_ids();
        let ghost vals0 = self.entry_values();
        let ghost edges0 = edges@;
        let mut entries: Vec<(ResolvedPackageId, ResolvedDependency)> = Vec::new();
        std::mem::swap(&mut entries, &mut self.entries);
        let ghost all = entries@;
        let mut edges = edges;
        let mut out: Vec<(ResolvedPackageId, ResolvedDependency)> = Vec::new();
        let n = entries.len();
        while entries.len() > 0
            invariant
                all.len() == n,
                ids0 == entries_ids(all),
                vals0 == entries_values(all),
                edges0.len() == n,
                out@.len() + entries@.len() == n,
                entries@ == all.skip(out@.len() as int),
                edges@ == edges0.skip(out@.len() as int),
                forall|k: int| 0 <= k < out@.len() ==> (#[trigger] out@[k]).0@ == ids0[k]
                    && out@[k].1@ == (EntryView { depends_on: ids_view(edges0[k]@), ..vals0[k] }),
            decreases entries@.len(),
        {
            let ghost at = out@.len() as int;
            assert(entries@[0] == all[at]);
            assert(edges@[0] == edges0[at]);
            let (id, e) = entries.remove(0);
            let d = edges.remove(0);
            let e2 = match e {
                ResolvedDependency::Remote { package, registry, repository, dependants, depends_on: _ } =>
                    ResolvedDependency::Remote { package, registry, repository, dependants, depends_on: d },
                ResolvedDependency::Local { package, path, dependants, depends_on: _ } =>
                    ResolvedDependency::Local { package, path, dependants, depends_on: d },
            };
            out.push((id, e2));
            assert(entries@ =~= all.skip(out@.len() as int));
            assert(edges@ =~= edges0.skip(out@.len() as int));
        }
        proof {
            assert(entries_ids(out@) =~= ids0);
        }
        self.entries = out;
        proof {
            assert(self.entry_values().len() == vals0.len());
        }
    }

    /// The vendor directory names of the entries, sorted, each once.
    pub fn vendor_module_names(&self) -> (r: Vec<String>)
        ensures
            strictly_sorted(strings_view(r@)),
            strings_view(r@).to_set() == self.entry_ids().map_values(|id: IdView| spec_vendor_dir(id, self.entry_ids())).to_set(),
    {
        let ghost ids = self.entry_ids();
        let ghost dirs = ids.map_values(|id: IdView| spec_vendor_dir(id, ids));
        let mut r: Vec<String> = Vec::new();
        let mut i: usize = 0;
        while i < self.entries.len()
            invariant
                ids == self.entry_ids(),
                ids == entries_ids(self.entries@),
                dirs == ids.map_values(|id: IdView| spec_vendor_dir(id, ids)),
                i <= self.entries@.len(),
                strictly_sorted(strings_view(r@)),
                strings_view(r@).to_set() == dirs.take(i as int).to_set(),
            decreases self.entries@.len() - i,
        {
            assert(ids[i as int] == self.entries@[i as int].0@);
            let d = self.entries[i].0.vendor_dir_name(self);
            insert_sorted_unique(&mut r, d);
            assert(dirs.take(i + 1) =~= dirs.take(i as int).push(dirs[i as int]));
            assert(dirs.take(i + 1).to_set() =~= dirs.take(i as int).to_set().insert(dirs[i as int])) by {
                let a = dirs.take(i as int);
                let b = dirs.take(i + 1);
                assert forall|x: Seq<char>| b.to_set().contains(x) == a.to_set().insert(dirs[i as int]).contains(x) by {
                    if b.contains(x) {
                        let j = choose|j: int| 0 <= j < b.len() && b[j] == x;
                        if j < i {
                            assert(a[j] == x);
                        }
                    }
                    if a.contains(x) {
                        let j = choose|j: int| 0 <= j < a.len() && a[j] == x;
                        assert(b[j] == x);
                    }
                    if x == dirs[i as int] {
                        assert(b[i as int] == x);
                    }
                }
            }
            i = i + 1;
        }
        assert(dirs.take(i as int) =~= dirs);
        r
    }

    /// Places an entry under an identifier, replacing one that is there.
    pub fn insert(&mut self, id: ResolvedPackageId, entry: ResolvedDependency)
        ensures
            final(self).entry_of(id@) == Some(entry@),
            forall|x: IdView| x != id@ ==> #[trigger] final(self).entry_of(x) == old(self).entry_of(x),
            old(self).entry_of(id@) is None ==> final(self).entry_ids() == old(self).entry_ids().push(id@)
                && final(self).entry_values() == old(self).entry_values().push(entry@),
            old(self).entry_of(id@) is Some ==> final(self).entry_ids() == old(self).entry_ids(),
            final(self).allows_all() == old(self).allows_all(),
            final(self).permitted_names() == old(self).permitted_names(),
            forall|n: Seq<char>| #[trigger] final(self).recorded_policy(n) == old(self).recorded_policy(n),
            final(self).root_ids() == old(self).root_ids(),
    {
        proof {
            use_type_invariant(&*self);
        }
        let ghost old_ids = self.entry_ids();
        let ghost old_vals = self.entry_values();
        let ghost idv = id@;
        let ghost ev = entry@;
        let pos = self.find_id(&id);
        let mut entries: Vec<(ResolvedPackageId, ResolvedDependency)> = Vec::new();
        std::mem::swap(&mut entries, &mut self.entries);
        match pos {
            Some(i) => {
                entries.set(i, (id, entry));
                proof {
                    let ni = entries_ids(entries@);
                    let nv = entries_values(entries@);
                    assert(ni =~= old_ids.update(i as int, idv));
                    assert(ni =~= old_ids);
                    assert(nv =~= old_vals.update(i as int, ev));
                }
            },
            None => {
                entries.push((id, entry));
                proof {
                    let ni = entries_ids(entries@);
                    assert(ni =~= old_ids.push(idv));
                    assert(entries_values(entries@) =~= old_vals.push(ev));
                    assert forall|a: int, b: int| 0 <= a < ni.len() && 0 <= b < ni.len() && a != b
                        implies #[trigger] ni[a] != #[trigger] ni[b] by {
                        if a < old_ids.len() && b < old_ids.len() {
                        } else if a == old_ids.len() {
                            assert(old_ids[b] != idv);
                        } else {
                            assert(old_ids[a] != idv);
                        }
                    }
                }
            },
        }
        self.entries = entries;
        proof {
            let ni = self.entry_ids();
            let nv = self.entry_values();
            assert(distinct_ids(ni));
            let k = match pos { Some(i) => i as int, None => old_ids.len() as int };
            assert(ni[k] == idv && nv[k] == ev);
            assert(index_of_id(ni, idv) == Some(k)) by {
                let w = choose|w: int| 0 <= w < ni.len() && ni[w] == idv;
                assert(w == k);
            }
            assert forall|x: IdView| x != idv implies #[trigger] self.entry_of(x) == old(self).entry_of(x) by {
                if exists|j: int| 0 <= j < old_ids.len() && old_ids[j] == x {
                    let j = choose|j: int| 0 <= j < old_ids.len() && old_ids[j] == x;
                    assert(ni[j] == x);
                    let w = choose|w: int| 0 <= w < ni.len() && ni[w] == x;
                    assert(w == j);
                    assert(nv[j] == old_vals[j]);
                } else {
                    if exists|w: int| 0 <= w < ni.len() && ni[w] == x {
                        let w = choose|w: int| 0 <= w < ni.len() && ni[w] == x;
                        assert(w != k);
                        assert(old_ids[w] == x);
                    }
                }
            }
        }
    }

    /// Adds a dependant to the entry of an identifier; `false` (and nothing
    /// changes) where the graph has no such entry.
    pub fn add_dependant(&mut self, id: &ResolvedPackageId, dependant: Dependant) -> (r: bool)
        ensures
            r == (old(self).entry_of(id@) is Some),
            final(self).entry_ids() == old(self).entry_ids(),
            r ==> final(self).entry_of(id@) == Some(EntryView {
                dependants: old(self).entry_of(id@)->0.dependants.push(dependant@),
                ..old(self).entry_of(id@)->0
            }),
            forall|x: IdView| x != id@ ==> #[trigger] final(self).entry_of(x) == old(self).entry_of(x),
            !r ==> final(self).entry_values() == old(self).entry_values(),
            final(self).allows_all() == old(self).allows_all(),
            final(self).permitted_names() == old(self).permitted_names(),
            forall|n: Seq<char>| #[trigger] final(self).recorded_policy(n) == old(self).recorded_policy(n),
            final(self).root_ids() == old(self).root_ids(),
    {
        proof {
            use_type_invariant(&*self);
        }
        let ghost old_ids = self.entry_ids();
        let ghost old_vals = self.entry_values();
        let pos = self.find_id(id);
        match pos {
            None => false,
            Some(i) => {
                let mut entries: Vec<(ResolvedPackageId, ResolvedDependency)> = Vec::new();
                std::mem::swap(&mut entries, &mut self.entries);
                let ghost before = entries@[i as int].1@;
                let (eid, mut entry) = entries.remove(i);
                match &mut entry {
                    ResolvedDependency::Remote { dependants, .. } => {
                        dependants.push(dependant);
                    },
                    ResolvedDependency::Local { dependants, .. } => {
                        dependants.push(dependant);
                    },
                }
                let ghost after = entry@;
                assert(after == EntryView { dependants: before.dependants.push(dependant@), ..before }) by {
                    assert(after.dependants =~= before.dependants.push(dependant@));
                }
                entries.insert(i, (eid, entry));
                proof {
                    let ni = entries_ids(entries@);
                    let nv = entries_values(entries@);
                    assert(ni =~= old_ids);
                    assert(nv =~= old_vals.update(i as int, after));
                }
                self.entries = entries;
                proof {
                    let ni = self.entry_ids();
                    assert(ni == old_ids);
                    assert forall|x: IdView| x != id@ implies #[trigger] self.entry_of(x) == old(self).entry_of(x) by {
                        if exists|j: int| 0 <= j < old_ids.len() && old_ids[j] == x {
                            let j = choose|j: int| 0 <= j < old_ids.len() && old_ids[j] == x;
                            assert(j != i);
                        }
                    }
                }
                true
            },
        }
    }
}

/// Why a dependency graph could not be built.
#[derive(Debug)]
pub enum ResolveError {
    /// A remote requirement matches a package that is resolved locally
    CollidesWithLocal {
        /// The requested package
        package: String,
        /// The requirement's text
        requirement: String,
        /// The local package's path
        path: String,
    },
    /// In single-version mode, a requirement that the resolved version does not meet
    VersionCollision {
        /// The requested package
        package: String,
        /// The requirement's text
        requirement: String,
        /// The version already resolved
        resolved: String,
    },
    /// A local dependency collides with an already resolved remote one
    LocalCollidesWithRemote {
        /// `name@version` of the local package
        id: String,
    },
    /// The built local package does not meet the requirement of its manifest
    LocalVersionMismatch {
        /// The package
        package: String,
        /// The requirement's text
        requirement: String,
        /// The version that was built
        found: String,
    },
    /// No resolved package carries the name of a non-root local dependency
    LocalNotResolved(String),
    /// More than one resolved package carries the name of a local dependency
    LocalAmbiguous(String),
    /// The lockfile pins the dependency to another registry
    MismatchedRegistry {
        /// The package
        package: String,
    },
    /// The registry lists no version of the package
    NoVersions {
        /// The package
        package: String,
        /// The repository
        repository: String,
    },
    /// No available version meets the requirement
    NoMatchingVersion {
        /// The package
        package: String,
        /// The requirement's text
        requirement: String,
        /// The available versions, comma-separated
        available: String,
    },
    /// Resolution produced no version for the package
    Unresolved(String),
    /// The package resolution picked was not among those downloaded
    NotDownloaded {
        /// The package
        package: String,
        /// The version resolution picked
        version: String,
    },
    /// A local dependency that was not discovered before resolution
    LocalNotFound {
        /// The dependency
        package: String,
        /// The package that refers to it
        referrer: String,
    },
}

/// What the graph answers to a remote dependency edge.
#[derive(Debug)]
pub enum RemoteDecision {
    /// The edge is served by a package already in the graph
    Existing(ResolvedPackageId),
    /// The dependency has to be resolved and downloaded
    Resolve,
}

/// The position of the first entry with the name whose version the
/// requirement matches, if any.
pub open spec fn first_matching(ids: Seq<IdView>, name: Seq<char>, req: Seq<ComparatorView>) -> Option<int> {
    if exists|i: int| 0 <= i < ids.len() && #[trigger] ids[i].0 == name && spec_req_matches(req, ids[i].1) {
        Some(choose|i: int| 0 <= i < ids.len() && #[trigger] ids[i].0 == name && spec_req_matches(req, ids[i].1)
            && forall|j: int| 0 <= j < i ==> !(#[trigger] ids[j].0 == name && spec_req_matches(req, ids[j].1)))
    } else {
        None
    }
}

/// The position of the first entry with the name, if any.
pub open spec fn first_named(ids: Seq<IdView>, name: Seq<char>) -> Option<int> {
    if exists|i: int| 0 <= i < ids.len() && #[trigger] ids[i].0 == name {
        Some(choose|i: int| 0 <= i < ids.len() && #[trigger] ids[i].0 == name
            && forall|j: int| 0 <= j < i ==> #[trigger] ids[j].0 != name)
    } else {
        None
    }
}

/// The dependant that a remote dependency edge records.
pub open spec fn remote_dependant(requester: Seq<char>, m: RemoteView) -> DependantView {
    DependantView {
        name: requester,
        version_req: m.version,
        allows_multiversion: m.resolver == ResolverMode::MultiVersion,
        namespace_overlap_policy: m.namespace_overlap,
    }
}

/// The dependant a remote dependency edge records.
pub fn make_remote_dependant(requester: &PackageName, manifest: &RemoteDependencyManifest) -> (r: Dependant)
    ensures
        r@ == remote_dependant(requester@, manifest@),
{
    Dependant {
        name: requester.duplicate(),
        version_req: manifest.version.duplicate(),
        allows_multiversion: match manifest.resolver {
            ResolverMode::MultiVersion => true,
            ResolverMode::Default => false,
        },
        namespace_overlap_policy: manifest.namespace_overlap,
    }
}

/// What the graph answers to a remote edge, without the error texts: serve it
/// from a package already there, refuse it, or resolve it.
pub enum RemoteOutcome {
    AddDependant(int),
    CollidesLocal(int),
    Reuse(int),
    TooOld(int),
    CollidesLocalPath(int),
    Resolve,
}

/// What a remote dependency edge leads to. A resolved package with the name
/// and a matching version serves it (a local one refuses it); else, where
/// several versions may not coexist, the first package with the name serves
/// it where its version matches and refuses it otherwise (a local one
/// always); else the dependency is resolved.
pub open spec fn remote_outcome(g: DependencyGraph, package: Seq<char>, m: RemoteView) -> RemoteOutcome {
    let ids = g.entry_ids();
    match first_matching(ids, package, m.version) {
        Some(i) => if g.entry_values()[i].is_local { RemoteOutcome::CollidesLocal(i) } else { RemoteOutcome::AddDependant(i) },
        None => if !g.multiversion_ok(package) {
            match first_named(ids, package) {
                Some(i) => if g.entry_values()[i].is_local {
                    RemoteOutcome::CollidesLocalPath(i)
                } else if spec_req_matches(m.version, g.entry_values()[i].package.version) {
                    RemoteOutcome::Reuse(i)
                } else {
                    RemoteOutcome::TooOld(i)
                },
                None => RemoteOutcome::Resolve,
            }
        } else {
            RemoteOutcome::Resolve
        },
    }
}

/// Where some entry carries the name, the first one does.
proof fn lemma_first_named_found(ids: Seq<IdView>, name: Seq<char>, w: int)
    requires
        0 <= w < ids.len(),
        ids[w].0 == name,
    ensures
        first_named(ids, name) matches Some(i) && 0 <= i < ids.len() && ids[i].0 == name,
    decreases w,
{
    if exists|j: int| 0 <= j < w && #[trigger] ids[j].0 == name {
        let j = choose|j: int| 0 <= j < w && #[trigger] ids[j].0 == name;
        lemma_first_named_found(ids, name, j);
    } else {
        assert(0 <= w < ids.len() && ids[w].0 == name && forall|j: int| 0 <= j < w ==> #[trigger] ids[j].0 != name);
    }
}

/// The first entry carrying a name carries it; there is one where any does.
proof fn lemma_first_named(ids: Seq<IdView>, name: Seq<char>)
    ensures
        first_named(ids, name) matches Some(i) ==> 0 <= i < ids.len() && ids[i].0 == name,
        (exists|i: int| 0 <= i < ids.len() && #[trigger] ids[i].0 == name) ==> first_named(ids, name) is Some,
{
    if exists|i: int| 0 <= i < ids.len() && #[trigger] ids[i].0 == name {
        let w = choose|i: int| 0 <= i < ids.len() && #[trigger] ids[i].0 == name;
        lemma_first_named_found(ids, name, w);
    }
}

/// Where some entry carries the name at a version the requirement matches,
/// the first such one does.
proof fn lemma_first_matching_found(ids: Seq<IdView>, name: Seq<char>, req: Seq<ComparatorView>, w: int)
    requires
        0 <= w < ids.len(),
        ids[w].0 == name,
        spec_req_matches(req, ids[w].1),
    ensures
        first_matching(ids, name, req) matches Some(i) && 0 <= i < ids.len() && ids[i].0 == name,
    decreases w,
{
    if exists|j: int| 0 <= j < w && #[trigger] ids[j].0 == name && spec_req_matches(req, ids[j].1) {
        let j = choose|j: int| 0 <= j < w && #[trigger] ids[j].0 == name && spec_req_matches(req, ids[j].1);
        lemma_first_matching_found(ids, name, req, j);
    } else {
        assert(0 <= w < ids.len() && ids[w].0 == name && spec_req_matches(req, ids[w].1)
            && forall|j: int| 0 <= j < w ==> !(#[trigger] ids[j].0 == name && spec_req_matches(req, ids[j].1)));
    }
}

/// The first entry carrying a name at a matching version carries the name.
proof fn lemma_first_matching(ids: Seq<IdView>, name: Seq<char>, req: Seq<ComparatorView>)
    ensures
        first_matching(ids, name, req) matches Some(i) ==> 0 <= i < ids.len() && ids[i].0 == name,
{
    if exists|i: int| 0 <= i < ids.len() && #[trigger] ids[i].0 == name && spec_req_matches(req, ids[i].1) {
        let w = choose|i: int| 0 <= i < ids.len() && #[trigger] ids[i].0 == name && spec_req_matches(req, ids[i].1);
        lemma_first_matching_found(ids, name, req, w);
    }
}

/// Without multi-version permission for a name the graph already holds, a
/// remote edge to it is never resolved anew, so the graph never gets a second
/// version of the name: the edge is served by an entry with that name or
/// refused; and where every entry with the name is a local package, it is
/// refused as colliding with the local package. An edge that is served is
/// served by a registry entry carrying the name.
#[verifier::rlimit(40)]
pub proof fn lemma_single_version_remote_edges(g: DependencyGraph, package: Seq<char>, m: RemoteView)
    ensures
        !g.multiversion_ok(package) && (exists|i: int| 0 <= i < g.entry_ids().len() && (#[trigger] g.entry_ids()[i]).0 == package)
            ==> !(remote_outcome(g, package, m) is Resolve),
        !g.multiversion_ok(package) && (exists|i: int| 0 <= i < g.entry_ids().len() && (#[trigger] g.entry_ids()[i]).0 == package)
            && (forall|i: int| 0 <= i < g.entry_ids().len() && (#[trigger] g.entry_ids()[i]).0 == package ==> g.entry_values()[i].is_local)
            ==> remote_outcome(g, package, m) is CollidesLocal || remote_outcome(g, package, m) is CollidesLocalPath,
        remote_outcome(g, package, m) matches RemoteOutcome::AddDependant(i) ==> 0 <= i < g.entry_ids().len()
            && g.entry_ids()[i].0 == package && !g.entry_values()[i].is_local,
        remote_outcome(g, package, m) matches RemoteOutcome::Reuse(i) ==> 0 <= i < g.entry_ids().len()
            && g.entry_ids()[i].0 == package && !g.entry_values()[i].is_local,
{
    let ids = g.entry_ids();
    let vals = g.entry_values();
    lemma_first_matching(ids, package, m.version);
    lemma_first_named(ids, package);
    match first_matching(ids, package, m.version) {
        Some(i) => {
            assert(ids[i].0 == package);
        },
        None => {
            match first_named(ids, package) {
                Some(i) => {
                    assert(ids[i].0 == package);
                },
                None => {},
            }
        },
    }
}

impl DependencyGraph {
    /// The first entry with the name whose version the requirement matches.
    fn first_matching_entry(&self, name: &PackageName, req: &VersionReq) -> (r: Option<usize>)
        ensures
            (match r {
                Some(i) => first_matching(self.entry_ids(), name@, req@) == Some(i as int) && i < self.entries@.len(),
                None => first_matching(self.entry_ids(), name@, req@) is None,
            }),
    {
        let ghost ids = self.entry_ids();
        let mut i: usize = 0;
        while i < self.entries.len()
            invariant
                ids == entries_ids(self.entries@),
                i <= self.entries@.len(),
                forall|j: int| 0 <= j < i ==> !(#[trigger] ids[j].0 == name@ && spec_req_matches(req@, ids[j].1)),
            decreases self.entries@.len() - i,
        {
            assert(ids[i as int] == self.entries@[i as int].0@);
            let id = &self.entries[i].0;
            if id.name().same(name) && req.matches(id.version()) {
                proof {
                    let w = choose|w: int| 0 <= w < ids.len() && #[trigger] ids[w].0 == name@ && spec_req_matches(req@, ids[w].1)
                        && forall|j: int| 0 <= j < w ==> !(#[trigger] ids[j].0 == name@ && spec_req_matches(req@, ids[j].1));
                    if w < i {
                        assert(!(ids[w].0 == name@ && spec_req_matches(req@, ids[w].1)));
                    }
                    if (i as int) < w {
                        assert(!(ids[i as int].0 == name@ && spec_req_matches(req@, ids[i as int].1)));
                    }
                }
                return Some(i);
            }
            i = i + 1;
        }
        None
    }

    /// What the graph answers to a remote dependency edge of the requester.
    /// Where a resolved package with the name and a matching version exists,
    /// the edge is recorded as its dependant (`CollidesWithLocal` if it is
    /// local); else, where several versions of the package may not coexist, a
    /// resolved package with the name serves the edge if its version matches
    /// (`VersionCollision` if not, `CollidesWithLocal` if it is local); else
    /// the dependency has to be resolved.
    pub fn check_remote(&mut self, requester: &PackageName, package: &PackageName, manifest: &RemoteDependencyManifest)
        -> (r: Result<RemoteDecision, ResolveError>)
        ensures
            (match remote_outcome(*old(self), package@, manifest@) {
                RemoteOutcome::AddDependant(i) => r matches Ok(RemoteDecision::Existing(id))
                    && id@ == old(self).entry_ids()[i]
                    && final(self).entry_of(id@) == Some(EntryView {
                        dependants: old(self).entry_values()[i].dependants.push(remote_dependant(requester@, manifest@)),
                        ..old(self).entry_values()[i]
                    })
                    && forall|x: IdView| x != id@ ==> #[trigger] final(self).entry_of(x) == old(self).entry_of(x),
                RemoteOutcome::CollidesLocal(_) => r matches Err(ResolveError::CollidesWithLocal { .. })
                    && *final(self) == *old(self),
                RemoteOutcome::Reuse(i) => r matches Ok(RemoteDecision::Existing(id))
                    && id@ == old(self).entry_ids()[i] && *final(self) == *old(self),
                RemoteOutcome::TooOld(_) => r matches Err(ResolveError::VersionCollision { .. })
                    && *final(self) == *old(self),
                RemoteOutcome::CollidesLocalPath(_) => r matches Err(ResolveError::CollidesWithLocal { .. })
                    && *final(self) == *old(self),
                RemoteOutcome::Resolve => r matches Ok(RemoteDecision::Resolve) && *final(self) == *old(self),
            }),
            final(self).entry_ids() == old(self).entry_ids(),
            final(self).allows_all() == old(self).allows_all(),
            final(self).permitted_names() == old(self).permitted_names(),
            forall|n: Seq<char>| #[trigger] final(self).recorded_policy(n) == old(self).recorded_policy(n),
            final(self).root_ids() == old(self).root_ids(),
    {
        proof {
            use_type_invariant(&*self);
        }
        match self.first_matching_entry(package, &manifest.version) {
            Some(i) => {
                let (id, entry) = self.entry_at(i);
                if entry.is_local() {
                    let path = match entry {
                        ResolvedDependency::Local { path, .. } => path.clone(),
                        ResolvedDependency::Remote { repository, .. } => repository.clone(),
                    };
                    return Err(ResolveError::CollidesWithLocal {
                        package: package.to_string(),
                        requirement: manifest.version.to_string(),
                        path,
                    });
                }
                let id = id.duplicate();
                proof {
                    let ids = self.entry_ids();
                    assert(index_of_id(ids, id@) == Some(i as int)) by {
                        let w = choose|w: int| 0 <= w < ids.len() && ids[w] == id@;
                        assert(w == i);
                    }
                }
                let added = self.add_dependant(&id, make_remote_dependant(requester, manifest));
                return Ok(RemoteDecision::Existing(id));
            },
            None => {},
        }
        if !self.is_multiversion_permitted(package) {
            match self.first_with_name(package) {
                Some(i) => {
                    let (id, entry) = self.entry_at(i);
                    proof {
                        let ids = self.entry_ids();
                        assert(first_named(ids, package@) == Some(i as int)) by {
                            let w = choose|w: int| 0 <= w < ids.len() && #[trigger] ids[w].0 == package@
                                && forall|j: int| 0 <= j < w ==> #[trigger] ids[j].0 != package@;
                            if w < i {
                                assert(ids[w].0 != package@);
                            }
                            if (i as int) < w {
                                assert(ids[i as int].0 != package@);
                            }
                        }
                    }
                    match entry {
                        ResolvedDependency::Remote { package: resolved, .. } => {
                            if !manifest.version.matches(resolved.version()) {
                                return Err(ResolveError::VersionCollision {
                                    package: package.to_string(),
                                    requirement: manifest.version.to_string(),
                                    resolved: resolved.version().to_string(),
                                });
                            }
                        },
                        ResolvedDependency::Local { path, .. } => {
                            return Err(ResolveError::CollidesWithLocal {
                                package: package.to_string(),
                                requirement: manifest.version.to_string(),
                                path: path.clone(),
                            });
                        },
                    }
                    return Ok(RemoteDecision::Existing(id.duplicate()));
                },
                None => {
                    proof {
                        let ids = self.entry_ids();
                        assert(first_named(ids, package@) is None) by {
                            if exists|k: int| 0 <= k < ids.len() && #[trigger] ids[k].0 == package@ {
                                let k = choose|k: int| 0 <= k < ids.len() && #[trigger] ids[k].0 == package@;
                                assert(ids[k].0 != package@);
                            }
                        }
                    }
                },
            }
        }
        Ok(RemoteDecision::Resolve)
    }
}

/// The dependant that a local dependency edge records: any version, with the
/// resolver mode and policy of its registry counterpart (the defaults without one).
pub open spec fn local_dependant(requester: Seq<char>, publish: Option<RemoteView>) -> DependantView {
    DependantView {
        name: requester,
        version_req: Seq::empty(),
        allows_multiversion: match publish { Some(p) => p.resolver == ResolverMode::MultiVersion, None => false },
        namespace_overlap_policy: match publish { Some(p) => p.namespace_overlap, None => NamespaceOverlapPolicy::Rewrite },
    }
}

/// The dependant a local dependency edge records.
pub fn make_local_dependant(requester: &PackageName, publish: &Option<RemoteDependencyManifest>) -> (r: Dependant)
    ensures
        r@ == local_dependant(requester@, match publish { Some(p) => Some(p@), None => None }),
{
    let (allows_multiversion, namespace_overlap_policy) = match publish {
        Some(p) => (match p.resolver { ResolverMode::MultiVersion => true, ResolverMode::Default => false }, p.namespace_overlap),
        None => (false, NamespaceOverlapPolicy::Rewrite),
    };
    Dependant { name: requester.duplicate(), version_req: VersionReq::star(), allows_multiversion, namespace_overlap_policy }
}

impl DependencyGraph {
    /// Records what a dependency edge grants its package: multi-version
    /// permission where the edge allows it, and its namespace policy.
    pub fn note_edge(&mut self, dependency: &Dependency)
        ensures
            final(self).permitted_names() == if spec_resolver_mode(dependency@) == ResolverMode::MultiVersion {
                old(self).permitted_names().insert(dependency@.package)
            } else {
                old(self).permitted_names()
            },
            forall|n: Seq<char>| #[trigger] final(self).recorded_policy(n) == if n == dependency@.package {
                Some(match old(self).recorded_policy(n) {
                    Some(current) => more_permissive(current, spec_overlap_policy(dependency@)),
                    None => spec_overlap_policy(dependency@),
                })
            } else {
                old(self).recorded_policy(n)
            },
            final(self).allows_all() == old(self).allows_all(),
            final(self).entry_ids() == old(self).entry_ids(),
            final(self).entry_values() == old(self).entry_values(),
            final(self).root_ids() == old(self).root_ids(),
    {
        if dependency.allows_multiversion() {
            self.permit_multiversion(&dependency.package);
        }
        self.update_namespace_policy(&dependency.package, dependency.namespace_overlap_policy());
    }

    /// Checks a root local package against the requirement of its registry
    /// counterpart: the built version must meet it (`LocalVersionMismatch`),
    /// and where several versions may not coexist, so must the version of the
    /// single package of that name already in the graph (`VersionCollision`).
    pub fn check_root_local(&self, version_req: Option<&VersionReq>, package: &Package) -> (r: Result<(), ResolveError>)
        ensures
            (match version_req {
                None => r is Ok,
                Some(q) => if !spec_req_matches(q@, package@.version) {
                    r matches Err(ResolveError::LocalVersionMismatch { .. })
                } else if !self.multiversion_ok(package@.name) && count_with_name(self.entry_ids(), package@.name) == 1
                    && (exists|i: int| 0 <= i < self.entry_ids().len() && self.entry_ids()[i].0 == package@.name
                        && !spec_req_matches(q@, self.entry_values()[i].package.version)) {
                    r matches Err(ResolveError::VersionCollision { .. })
                } else {
                    r is Ok
                },
            }),
    {
        let req = match version_req {
            None => return Ok(()),
            Some(q) => q,
        };
        if !req.matches(package.version()) {
            return Err(ResolveError::LocalVersionMismatch {
                package: package.name().to_string(),
                requirement: req.to_string(),
                found: package.version().to_string(),
            });
        }
        if !self.is_multiversion_permitted(package.name()) {
            match self.get_single_by_name(package.name()) {
                Some(entry) => {
                    let existing = entry.package();
                    if !req.matches(existing.version()) {
                        return Err(ResolveError::VersionCollision {
                            package: package.name().to_string(),
                            requirement: req.to_string(),
                            resolved: existing.version().to_string(),
                        });
                    }
                    proof {
                        assert forall|i: int| 0 <= i < self.entry_ids().len() && self.entry_ids()[i].0 == package@.name
                            implies spec_req_matches(req@, self.entry_values()[i].package.version) by {
                            let w = choose|w: int| 0 <= w < self.entry_ids().len() && self.entry_ids()[w].0 == package@.name
                                && self.entry_values()[w] == entry@;
                            lemma_single_name(self.entry_ids(), package@.name, i, w);
                        }
                    }
                },
                None => {},
            }
        }
        Ok(())
    }

    /// The package of a non-root local dependency, taken from the graph: the
    /// one resolved package with the name (`LocalNotResolved` where there is
    /// none, `LocalAmbiguous` where there are several).
    pub fn resolved_local_package(&self, name: &PackageName) -> (r: Result<&Package, ResolveError>)
        ensures
            count_with_name(self.entry_ids(), name@) == 0 ==> r matches Err(ResolveError::LocalNotResolved(_)),
            count_with_name(self.entry_ids(), name@) > 1 ==> r matches Err(ResolveError::LocalAmbiguous(_)),
            count_with_name(self.entry_ids(), name@) == 1 ==> (r matches Ok(p)
                && exists|i: int| 0 <= i < self.entry_ids().len() && self.entry_ids()[i].0 == name@
                    && self.entry_values()[i].package == p@),
    {
        let count = self.count_name(name);
        if count == 0 {
            return Err(ResolveError::LocalNotResolved(name.to_string()));
        }
        if count > 1 {
            return Err(ResolveError::LocalAmbiguous(name.to_string()));
        }
        match self.get_single_by_name(name) {
            Some(entry) => Ok(entry.package()),
            None => Err(ResolveError::LocalNotResolved(name.to_string())),
        }
    }

    /// Records a local dependency edge on a package already in the graph: as a
    /// dependant where the entry is local (`Ok(true)`); `LocalCollidesWithRemote`
    /// where it is remote; `Ok(false)` (nothing changes) where there is no entry.
    pub fn attach_local(&mut self, id: &ResolvedPackageId, dependant: Dependant) -> (r: Result<bool, ResolveError>)
        ensures
            (match old(self).entry_of(id@) {
                None => r matches Ok(false) && *final(self) == *old(self),
                Some(e) => if e.is_local {
                    r matches Ok(true) && final(self).entry_of(id@) == Some(EntryView { dependants: e.dependants.push(dependant@), ..e })
                } else {
                    r matches Err(ResolveError::LocalCollidesWithRemote { .. }) && *final(self) == *old(self)
                },
            }),
            forall|x: IdView| x != id@ ==> #[trigger] final(self).entry_of(x) == old(self).entry_of(x),
            final(self).entry_ids() == old(self).entry_ids(),
            final(self).allows_all() == old(self).allows_all(),
            final(self).permitted_names() == old(self).permitted_names(),
            forall|n: Seq<char>| #[trigger] final(self).recorded_policy(n) == old(self).recorded_policy(n),
            final(self).root_ids() == old(self).root_ids(),
    {
        let local = match self.get(id) {
            None => return Ok(false),
            Some(e) => e.is_local(),
        };
        if !local {
            return Err(ResolveError::LocalCollidesWithRemote { id: id.to_string() });
        }
        let added = self.add_dependant(id, dependant);
        Ok(true)
    }

    /// Records a remote dependency edge on a package already in the graph (as
    /// a dependant where the entry is remote); `false` where there is no entry.
    pub fn attach_existing(&mut self, id: &ResolvedPackageId, dependant: Dependant) -> (r: bool)
        ensures
            r == (old(self).entry_of(id@) is Some),
            (match old(self).entry_of(id@) {
                Some(e) => if e.is_local {
                    *final(self) == *old(self)
                } else {
                    final(self).entry_of(id@) == Some(EntryView { dependants: e.dependants.push(dependant@), ..e })
                },
                None => *final(self) == *old(self),
            }),
            forall|x: IdView| x != id@ ==> #[trigger] final(self).entry_of(x) == old(self).entry_of(x),
            final(self).entry_ids() == old(self).entry_ids(),
            final(self).root_ids() == old(self).root_ids(),
            final(self).allows_all() == old(self).allows_all(),
            final(self).permitted_names() == old(self).permitted_names(),
            forall|n: Seq<char>| #[trigger] final(self).recorded_policy(n) == old(self).recorded_policy(n),
    {
        let local = match self.get(id) {
            None => return false,
            Some(e) => e.is_local(),
        };
        if !local {
            let added = self.add_dependant(id, dependant);
        }
        true
    }
}

/// With one identifier of a name, any two positions carrying it are the same.
proof fn lemma_single_name(ids: Seq<IdView>, name: Seq<char>, i: int, j: int)
    requires
        count_with_name(ids, name) == 1,
        0 <= i < ids.len(),
        0 <= j < ids.len(),
        ids[i].0 == name,
        ids[j].0 == name,
    ensures
        i == j,
    decreases ids.len(),
{
    let n = ids.len() - 1;
    if i != j {
        if i == n || j == n {
            let k = if i == n { j } else { i };
            assert(count_with_name(ids.drop_last(), name) == 0);
            assert(ids.drop_last()[k].0 == name);
            lemma_count_zero(ids.drop_last(), name, k);
        } else {
            assert(ids.drop_last()[i] == ids[i] && ids.drop_last()[j] == ids[j]);
            if ids.last().0 == name {
                lemma_count_zero(ids.drop_last(), name, i);
            } else {
                lemma_single_name(ids.drop_last(), name, i, j);
            }
        }
    }
}

/// No identifier carries a name counted zero times.
proof fn lemma_count_zero(ids: Seq<IdView>, name: Seq<char>, k: int)
    requires
        count_with_name(ids, name) == 0,
        0 <= k < ids.len(),
    ensures
        ids[k].0 != name,
    decreases ids.len(),
{
    if k < ids.len() - 1 {
        assert(ids.drop_last()[k] == ids[k]);
        lemma_count_zero(ids.drop_last(), name, k);
    }
}

/// How a remote dependency is to be fetched.
#[derive(Debug)]
pub enum ResolutionPlan {
    /// The lockfile pins it; the cache may serve it where the pinned version
    /// meets the requirement
    Locked {
        /// The pinned version
        version: Version,
        /// Whether the cache may serve it
        cache_allowed: bool,
    },
    /// Not in the lockfile: pick a version from the registry
    Fresh,
}

/// Whether a lockfile record pins the package, in a version the requirement
/// allows, to another registry or repository than the manifest names.
pub open spec fn locked_elsewhere(p: LockedPackage, name: Seq<char>, m: RemoteView) -> bool {
    &&& p.name@ == name
    &&& spec_req_matches(m.version, p.version@)
    &&& !(p.registry@ == m.registry && p.repository@ == m.repository)
}

/// Whether some record of the lockfile pins a non-root dependency elsewhere.
pub open spec fn plan_refused(records: Seq<LockedPackage>, name: Seq<char>, m: RemoteView, is_root: bool) -> bool {
    !is_root && exists|i: int| 0 <= i < records.len() && #[trigger] locked_elsewhere(records[i], name, m)
}

/// Whether a lockfile record pins some version of the package that the
/// manifest allows, under another registry or repository.
fn find_elsewhere(lockfile: &Lockfile, package: &PackageName, manifest: &RemoteDependencyManifest) -> (r: bool)
    ensures
        r == exists|i: int| 0 <= i < lockfile.records().len() && #[trigger] locked_elsewhere(lockfile.records()[i], package@, manifest@),
{
    let ps = lockfile.packages();
    let mut i: usize = 0;
    while i < ps.len()
        invariant
            ps@ == lockfile.records(),
            i <= ps@.len(),
            forall|j: int| 0 <= j < i ==> !#[trigger] locked_elsewhere(ps@[j], package@, manifest@),
        decreases ps@.len() - i,
    {
        let p = &ps[i];
        if p.name.same(package) && manifest.version.matches(&p.version)
            && !(p.registry.same(&manifest.registry) && crate::text::str_eq(p.repository.as_str(), manifest.repository.as_str())) {
            assert(locked_elsewhere(ps@[i as int], package@, manifest@));
            return true;
        }
        i = i + 1;
    }
    false
}

/// Decides how to fetch a remote dependency. A non-root dependency that the
/// lockfile pins, in an allowed version, to another registry or repository
/// is refused with `MismatchedRegistry`; otherwise it comes from its first
/// matching lockfile record, else fresh from the registry.
pub fn plan_resolution(lockfile: &Lockfile, package: &PackageName, manifest: &RemoteDependencyManifest, is_root: bool)
    -> (r: Result<ResolutionPlan, ResolveError>)
    ensures
        r is Err <==> plan_refused(lockfile.records(), package@, manifest@, is_root),
        (match r {
            Ok(ResolutionPlan::Locked { version, cache_allowed }) => exists|i: int| 0 <= i < lockfile.records().len()
                && crate::lock::record_matches(lockfile.records()[i], package@, manifest@.version, Some(manifest@.registry), Some(manifest@.repository))
                && lockfile.records()[i].version@ == version@
                && cache_allowed == spec_req_matches(manifest@.version, version@),
            Ok(ResolutionPlan::Fresh) => forall|j: int| 0 <= j < lockfile.records().len() ==>
                !crate::lock::record_matches(#[trigger] lockfile.records()[j], package@, manifest@.version,
                    Some(manifest@.registry), Some(manifest@.repository)),
            Err(e) => e matches ResolveError::MismatchedRegistry { package: p } && p@ == package@,
        }),
{
    if !is_root && find_elsewhere(lockfile, package, manifest) {
        return Err(ResolveError::MismatchedRegistry { package: package.to_string() });
    }
    match lockfile.find(package, &manifest.version, Some(&manifest.registry), Some(manifest.repository.as_str())) {
        Some(locked) => {
            let cache_allowed = manifest.version.matches(&locked.version);
            Ok(ResolutionPlan::Locked { version: locked.version.duplicate(), cache_allowed })
        },
        None => Ok(ResolutionPlan::Fresh),
    }
}

/// The version an exact requirement pins, which needs no registry listing.
pub fn pinned_version(version_req: &VersionReq) -> (r: Option<Version>)
    ensures
        crate::version::opt_version_view(r) == spec_extract_exact(version_req@),
{
    extract_exact_version(version_req)
}

/// The versions as text, separated by `, `.
pub open spec fn versions_list_text(s: Seq<VersionView>) -> Seq<char>
    decreases s.len(),
{
    if s.len() == 0 {
        Seq::empty()
    } else if s.len() == 1 {
        version_display(s[0])
    } else {
        versions_list_text(s.drop_last()) + seq![',', ' '] + version_display(s.last())
    }
}

/// Picks the version of a dependency from those its registry lists: the
/// highest one the requirement matches; `NoVersions` where the list is empty,
/// `NoMatchingVersion` (listing them) where none matches.
pub fn choose_available(package: &PackageName, repository: &str, version_req: &VersionReq, available: &Vec<Version>)
    -> (r: Result<Version, ResolveError>)
    ensures
        available@.len() == 0 ==> (r matches Err(ResolveError::NoVersions { package: p, repository: q })
            && p@ == package@ && q@ == repository@),
        available@.len() > 0 ==> (match spec_select(version_req@, versions_view(available@)) {
            Some(v) => r matches Ok(x) && x@ == v,
            None => r matches Err(ResolveError::NoMatchingVersion { package: p, requirement: q, available: a })
                && p@ == package@ && a@ == versions_list_text(versions_view(available@)),
        }),
{
    if available.len() == 0 {
        return Err(ResolveError::NoVersions { package: package.to_string(), repository: repository.to_owned() });
    }
    match select_version(version_req, available.as_slice()) {
        Some(v) => Ok(v),
        None => Err(ResolveError::NoMatchingVersion {
            package: package.to_string(),
            requirement: version_req.to_string(),
            available: versions_text(available),
        }),
    }
}

/// The versions as text, separated by `, `.
fn versions_text(vs: &Vec<Version>) -> (r: String)
    ensures
        r@ == versions_list_text(versions_view(vs@)),
{
    let ghost views = versions_view(vs@);
    let mut s = String::new();
    let mut i: usize = 0;
    while i < vs.len()
        invariant
            views == versions_view(vs@),
            i <= vs@.len(),
            s@ == versions_list_text(views.take(i as int)),
        decreases vs@.len() - i,
    {
        assert(views.take(i + 1).drop_last() =~= views.take(i as int));
        if i > 0 {
            push_str(&mut s, ", ");
            proof {
                reveal_strlit(", ");
            }
        }
        let t = vs[i].to_string();
        push_str(&mut s, t.as_str());
        proof {
            if i == 0 {
                assert(s@ =~= versions_list_text(views.take(1)));
            } else {
                assert(s@ =~= versions_list_text(views.take(i + 1)));
            }
        }
        i = i + 1;
    }
    assert(views.take(i as int) =~= views);
    s
}

/// Whether any dependency edge allows several versions of its package.
pub open spec fn any_multiversion(deps: Seq<DependencyView>) -> bool {
    exists|i: int| 0 <= i < deps.len() && spec_resolver_mode(#[trigger] deps[i]) == ResolverMode::MultiVersion
}

/// Whether any dependency allows several versions of its package (which
/// conflict-driven resolution cannot give, so resolution is greedy then).
pub fn manifest_has_multiversion(deps: &Vec<Dependency>) -> (r: bool)
    ensures
        r == any_multiversion(crate::manifest::dependencies_view(deps@)),
{
    let ghost dv = crate::manifest::dependencies_view(deps@);
    let mut i: usize = 0;
    while i < deps.len()
        invariant
            dv == crate::manifest::dependencies_view(deps@),
            i <= deps@.len(),
            forall|j: int| 0 <= j < i ==> spec_resolver_mode(#[trigger] dv[j]) != ResolverMode::MultiVersion,
        decreases deps@.len() - i,
    {
        assert(dv[i as int] == deps@[i as int]@);
        if deps[i].allows_multiversion() {
            return true;
        }
        i = i + 1;
    }
    false
}

/// The requirement a dependency puts on its package for resolution: its own
/// for a remote one; that of its registry counterpart for a local one, or any
/// version without one.
pub open spec fn edge_requirement(d: DependencyView) -> Seq<ComparatorView> {
    match d.manifest {
        DependencyManifestView::Remote(m) => m.version,
        DependencyManifestView::Local(l) => match l.publish {
            Some(p) => p.version,
            None => Seq::empty(),
        },
    }
}

/// The requirements of dependencies, in order, as resolution takes them.
pub fn requirements_of(deps: &Vec<Dependency>) -> (r: Vec<PackageDependency>)
    ensures
        r@.len() == deps@.len(),
        forall|i: int| 0 <= i < deps@.len() ==> (#[trigger] r@[i]).package@ == deps@[i].package@
            && r@[i].version_req@ == edge_requirement(deps@[i]@),
{
    let mut r: Vec<PackageDependency> = Vec::new();
    let mut i: usize = 0;
    while i < deps.len()
        invariant
            i <= deps@.len(),
            r@.len() == i,
            forall|k: int| 0 <= k < i ==> (#[trigger] r@[k]).package@ == deps@[k].package@
                && r@[k].version_req@ == edge_requirement(deps@[k]@),
        decreases deps@.len() - i,
    {
        let d = &deps[i];
        let req = match &d.manifest {
            DependencyManifest::Remote(m) => m.version.duplicate(),
            DependencyManifest::Local(l) => match &l.publish {
                Some(p) => p.version.duplicate(),
                None => VersionReq::star(),
            },
        };
        r.push(PackageDependency { package: d.package.duplicate(), version_req: req });
        i = i + 1;
    }
    r
}

/// The requirement a root local dependency puts on its package: that of its
/// registry counterpart, else exactly the version that was built.
pub fn local_root_requirement(publish: &Option<RemoteDependencyManifest>, version: &Version) -> (r: VersionReq)
    ensures
        r@ == match publish {
            Some(p) => p@.version,
            None => crate::version::spec_to_exact(version@),
        },
{
    match publish {
        Some(p) => p.version.duplicate(),
        None => crate::version::to_exact_requirement(version),
    }
}

/// The version resolution picked for a package; `Unresolved` where it picked none.
pub fn resolved_version_of<'a>(resolved: &'a Vec<(PackageName, Version)>, name: &PackageName) -> (r: Result<&'a Version, ResolveError>)
    ensures
        (match latest(resolved@, name@) {
            Some(v) => r matches Ok(x) && x@ == v@,
            None => r matches Err(ResolveError::Unresolved(n)) && n@ == name@,
        }),
{
    match crate::package::find_latest(resolved, name) {
        Some(i) => Ok(&resolved[i].1),
        None => Err(ResolveError::Unresolved(name.to_string())),
    }
}

/// Packages waiting to be discovered (their versions and dependencies
/// fetched), in order, and the names already discovered.
#[derive(Debug)]
pub struct DiscoveryQueue {
    pending: Vec<(PackageName, RemoteDependencyManifest)>,
    next: usize,
    discovered: Vec<PackageName>,
}

impl DiscoveryQueue {
    /// The entries not taken yet, in order.
    pub closed spec fn waiting(&self) -> Seq<(Seq<char>, RemoteView)> {
        self.pending@.subrange(self.next as int, self.pending@.len() as int).map_values(
            |e: (PackageName, RemoteDependencyManifest)| (e.0@, e.1@))
    }

    /// The names already discovered.
    pub closed spec fn done(&self) -> Set<Seq<char>> {
        self.discovered@.map_values(|n: PackageName| n@).to_set()
    }

    #[verifier::type_invariant]
    spec fn wf(self) -> bool {
        self.next <= self.pending@.len()
    }

    /// An empty queue.
    pub fn new() -> (r: DiscoveryQueue)
        ensures
            r.waiting().len() == 0,
            r.done().is_empty(),
    {
        let r = DiscoveryQueue { pending: Vec::new(), next: 0, discovered: Vec::new() };
        assert(r.waiting() =~= Seq::empty());
        assert(r.done() =~= Set::empty());
        r
    }

    /// Queues a package to discover.
    pub fn push(&mut self, name: PackageName, manifest: RemoteDependencyManifest)
        ensures
            final(self).waiting() == old(self).waiting().push((name@, manifest@)),
            final(self).done() == old(self).done(),
    {
        proof {
            use_type_invariant(&*self);
        }
        let ghost entry = (name@, manifest@);
        let mut q = DiscoveryQueue::new();
        std::mem::swap(&mut q, self);
        let DiscoveryQueue { mut pending, next, discovered } = q;
        let ghost old_pending = pending@;
        pending.push((name, manifest));
        let ghost new_pending = pending@;
        *self = DiscoveryQueue { pending, next, discovered };
        assert(new_pending.subrange(next as int, new_pending.len() as int)
            =~= old_pending.subrange(next as int, old_pending.len() as int).push(new_pending.last()));
        assert(self.waiting() =~= old(self).waiting().push(entry));
    }

    /// Whether a name was discovered.
    pub fn is_discovered(&self, name: &PackageName) -> (r: bool)
        ensures
            r == self.done().contains(name@),
    {
        let mut i: usize = 0;
        while i < self.discovered.len()
            invariant
                i <= self.discovered@.len(),
                forall|j: int| 0 <= j < i ==> self.discovered@[j]@ != name@,
            decreases self.discovered@.len() - i,
        {
            if self.discovered[i].same(name) {
                assert(self.discovered@.map_values(|n: PackageName| n@)[i as int] == name@);
                return true;
            }
            i = i + 1;
        }
        assert(!self.done().contains(name@)) by {
            let s = self.discovered@.map_values(|n: PackageName| n@);
            if s.contains(name@) {
                let j = choose|j: int| 0 <= j < s.len() && s[j] == name@;
                assert(self.discovered@[j]@ == name@);
            }
        }
        false
    }

    /// Marks a name as discovered.
    pub fn mark_discovered(&mut self, name: &PackageName)
        ensures
            final(self).done() == old(self).done().insert(name@),
            final(self).waiting() == old(self).waiting(),
    {
        proof {
            use_type_invariant(&*self);
        }
        let ghost before = self.discovered@.map_values(|n: PackageName| n@);
        let mut q = DiscoveryQueue::new();
        std::mem::swap(&mut q, self);
        let DiscoveryQueue { pending, next, mut discovered } = q;
        discovered.push(name.duplicate());
        *self = DiscoveryQueue { pending, next, discovered };
        let ghost after = self.discovered@.map_values(|n: PackageName| n@);
        assert(after =~= before.push(name@));
        assert(after.to_set() =~= before.to_set().insert(name@)) by {
            assert forall|x: Seq<char>| after.to_set().contains(x) == before.to_set().insert(name@).contains(x) by {
                if x == name@ {
                    assert(after[before.len() as int] == x);
                } else {
                    if after.contains(x) {
                        let j = choose|j: int| 0 <= j < after.len() && after[j] == x;
                        assert(before[j] == x);
                    }
                    if before.contains(x) {
                        let j = choose|j: int| 0 <= j < before.len() && before[j] == x;
                        assert(after[j] == x);
                    }
                }
            }
        }
    }

    /// Takes the next package that was not discovered yet, skipping those
    /// that were, and marks it discovered; `None` once nothing is waiting.
    pub fn next_to_discover(&mut self) -> (r: Option<(PackageName, RemoteDependencyManifest)>)
        ensures
            (match r {
                Some(e) => !old(self).done().contains(e.0@)
                    && final(self).done() == old(self).done().insert(e.0@)
                    && exists|k: int| 0 <= k < old(self).waiting().len() && old(self).waiting()[k] == (e.0@, e.1@)
                        && final(self).waiting() == old(self).waiting().skip(k + 1)
                        && forall|j: int| 0 <= j < k ==> old(self).done().contains(#[trigger] old(self).waiting()[j].0),
                None => final(self).waiting().len() == 0 && final(self).done() == old(self).done()
                    && forall|j: int| 0 <= j < old(self).waiting().len() ==> old(self).done().contains(#[trigger] old(self).waiting()[j].0),
            }),
    {
        proof {
            use_type_invariant(&*self);
        }
        let ghost w0 = self.waiting();
        let ghost start = self.next as int;
        while self.next < self.pending.len()
            invariant
                0 <= start <= self.next <= self.pending@.len(),
                w0 == old(self).waiting(),
                w0 == self.pending@.subrange(start, self.pending@.len() as int).map_values(
                    |e: (PackageName, RemoteDependencyManifest)| (e.0@, e.1@)),
                self.done() == old(self).done(),
                forall|j: int| 0 <= j < self.next - start ==> old(self).done().contains(#[trigger] w0[j].0),
            decreases self.pending@.len() - self.next,
        {
            let i = self.next;
            proof {
                let sub = self.pending@.subrange(start, self.pending@.len() as int);
                assert(0 <= start <= i);
                assert(i < self.pending@.len());
                assert(sub.len() == self.pending@.len() - start);
                assert(sub[i - start] == self.pending@[i as int]);
                assert(w0[i - start] == (sub[i - start].0@, sub[i - start].1@));
            }
            let seen = self.is_discovered(&self.pending[i].0);
            self.next = i + 1;
            if !seen {
                let name = self.pending[i].0.duplicate();
                let manifest = self.pending[i].1.duplicate();
                proof {
                    let len = self.pending@.len() as int;
                    assert(self.pending@.subrange(self.next as int, len)
                        =~= self.pending@.subrange(start, len).skip(i - start + 1));
                    assert(self.waiting() =~= w0.skip(i - start + 1));
                }
                self.mark_discovered(&name);
                return Some((name, manifest));
            }
        }
        assert(self.pending@.subrange(self.next as int, self.pending@.len() as int) =~= Seq::empty());
        assert(self.waiting() =~= Seq::<(Seq<char>, RemoteView)>::empty());
        None
    }
}

/// A version as fetched: its manifest's dependencies, where it could be read.
pub type Fetched = (Version, Option<Vec<Dependency>>);

/// The requirements of dependencies, by name, as resolution takes them.
pub open spec fn edge_requirements(ds: Seq<Dependency>) -> Seq<(Seq<char>, Seq<ComparatorView>)> {
    ds.map_values(|d: Dependency| (d.package@, edge_requirement(d@)))
}

/// Requirements by name.
pub open spec fn requirements_view(ps: Seq<PackageDependency>) -> Seq<(Seq<char>, Seq<ComparatorView>)> {
    ps.map_values(|p: PackageDependency| (p.package@, p.version_req@))
}

/// The dependency table of fetched versions: each version whose manifest was
/// read, in order, with its requirements.
pub open spec fn fetched_table(f: Seq<Fetched>) -> Seq<(VersionView, Seq<(Seq<char>, Seq<ComparatorView>)>)>
    decreases f.len(),
{
    if f.len() == 0 {
        Seq::empty()
    } else {
        let rest = fetched_table(f.drop_last());
        match f.last().1 {
            Some(ds) => rest.push((f.last().0@, edge_requirements(ds@))),
            None => rest,
        }
    }
}

/// The remote dependencies, in order, that are not among the discovered names.
pub open spec fn remote_unseen(ds: Seq<DependencyView>, done: Set<Seq<char>>) -> Seq<(Seq<char>, RemoteView)>
    decreases ds.len(),
{
    if ds.len() == 0 {
        Seq::empty()
    } else {
        let rest = remote_unseen(ds.drop_last(), done);
        match ds.last().manifest {
            DependencyManifestView::Remote(m) => if done.contains(ds.last().package) {
                rest
            } else {
                rest.push((ds.last().package, m))
            },
            DependencyManifestView::Local(_) => rest,
        }
    }
}

/// The remote dependencies of fetched versions, in order, not discovered yet.
pub open spec fn newly_found(f: Seq<Fetched>, done: Set<Seq<char>>) -> Seq<(Seq<char>, RemoteView)>
    decreases f.len(),
{
    if f.len() == 0 {
        Seq::empty()
    } else {
        let rest = newly_found(f.drop_last(), done);
        match f.last().1 {
            Some(ds) => rest + remote_unseen(dependencies_view(ds@), done),
            None => rest,
        }
    }
}

impl DiscoveryQueue {
    /// Records what was fetched of a package: every version the registry
    /// lists, the requirements of those whose manifest could be read, and, to
    /// discover next, their remote dependencies not discovered yet.
    /// `NoVersions` (and nothing changes) where the registry lists none.
    pub fn record_versions(&mut self, name: &PackageName, repository: &str, fetched: Vec<Fetched>)
        -> (r: Result<PackageInfo, ResolveError>)
        ensures
            (r is Err) == (fetched@.len() == 0),
            (match r {
                Ok(info) => versions_view(info.versions@) == fetched@.map_values(|e: Fetched| e.0@)
                    && info.dependencies@.map_values(|e: (Version, Vec<PackageDependency>)| (e.0@, requirements_view(e.1@)))
                        == fetched_table(fetched@)
                    && final(self).waiting() == old(self).waiting() + newly_found(fetched@, old(self).done())
                    && final(self).done() == old(self).done(),
                Err(e) => e matches ResolveError::NoVersions { package, repository: q } && package@ == name@
                    && q@ == repository@ && final(self).waiting() == old(self).waiting() && final(self).done() == old(self).done(),
            }),
    {
        if fetched.len() == 0 {
            return Err(ResolveError::NoVersions { package: name.to_string(), repository: repository.to_string() });
        }
        let ghost done0 = self.done();
        let ghost w0 = self.waiting();
        let ghost f = fetched@;
        let mut versions: Vec<Version> = Vec::new();
        let mut table: Vec<(Version, Vec<PackageDependency>)> = Vec::new();
        let mut k: usize = 0;
        while k < fetched.len()
            invariant
                f == fetched@,
                k <= f.len(),
                versions_view(versions@) == f.take(k as int).map_values(|e: Fetched| e.0@),
                table@.map_values(|e: (Version, Vec<PackageDependency>)| (e.0@, requirements_view(e.1@)))
                    == fetched_table(f.take(k as int)),
                self.waiting() == w0 + newly_found(f.take(k as int), done0),
                self.done() == done0,
            decreases f.len() - k,
        {
            assert(f.take(k + 1).drop_last() =~= f.take(k as int));
            let ghost vb = versions@;
            versions.push(fetched[k].0.duplicate());
            assert(versions_view(versions@) =~= versions_view(vb).push(f[k as int].0@));
            assert(f.take(k + 1).map_values(|e: Fetched| e.0@) =~= f.take(k as int).map_values(|e: Fetched| e.0@).push(f[k as int].0@));
            match &fetched[k].1 {
                Some(ds) => {
                    let reqs = requirements_of(ds);
                    let ghost before = table@;
                    table.push((fetched[k].0.duplicate(), reqs));
                    assert(requirements_view(reqs@) =~= edge_requirements(ds@));
                    assert(table@.map_values(|e: (Version, Vec<PackageDependency>)| (e.0@, requirements_view(e.1@)))
                        =~= before.map_values(|e: (Version, Vec<PackageDependency>)| (e.0@, requirements_view(e.1@)))
                            .push((f[k as int].0@, edge_requirements(ds@))));
                    let ghost dv = dependencies_view(ds@);
                    let mut j: usize = 0;
                    while j < ds.len()
                        invariant
                            f == fetched@,
                            k < f.len(),
                            f[k as int].1 == Some(*ds),
                            dv == dependencies_view(ds@),
                            j <= ds@.len(),
                            self.waiting() == w0 + newly_found(f.take(k as int), done0) + remote_unseen(dv.take(j as int), done0),
                            self.done() == done0,
                        decreases ds@.len() - j,
                    {
                        assert(dv.take(j + 1).drop_last() =~= dv.take(j as int));
                        assert(dv[j as int] == ds@[j as int]@);
                        match &ds[j].manifest {
                            DependencyManifest::Remote(m) => {
                                if !self.is_discovered(&ds[j].package) {
                                    self.push(ds[j].package.duplicate(), m.duplicate());
                                }
                            },
                            DependencyManifest::Local(_) => {},
                        }
                        j = j + 1;
                    }
                    assert(dv.take(ds@.len() as int) =~= dv);
                    assert(w0 + newly_found(f.take(k + 1), done0)
                        =~= w0 + newly_found(f.take(k as int), done0) + remote_unseen(dv, done0));
                },
                None => {},
            }
            k = k + 1;
        }
        assert(f.take(f.len() as int) =~= f);
        Ok(PackageInfo { versions, dependencies: table })
    }
}

/// Records a preferred version for a package unless one is recorded already
/// (the first preference wins).
pub fn prefer_first(prefs: &mut Vec<(PackageName, Version)>, name: &PackageName, version: &Version)
    ensures
        crate::package::latest(old(prefs)@, name@) is Some ==> final(prefs)@ == old(prefs)@,
        crate::package::latest(old(prefs)@, name@) is None ==> final(prefs)@.len() == old(prefs)@.len() + 1
            && final(prefs)@.drop_last() == old(prefs)@
            && final(prefs)@.last().0@ == name@ && final(prefs)@.last().1@ == version@,
{
    match crate::package::find_latest(prefs, name) {
        Some(_) => {},
        None => {
            prefs.push((name.duplicate(), version.duplicate()));
            assert(prefs@.drop_last() =~= old(prefs)@);
        },
    }
}


/// Recording a policy never makes a name's policy less permissive, and the
/// result is one of the two policies: the most permissive wins.
pub proof fn lemma_most_permissive_wins(current: NamespaceOverlapPolicy, new: NamespaceOverlapPolicy)
    ensures
        permissiveness(more_permissive(current, new)) >= permissiveness(current),
        permissiveness(more_permissive(current, new)) >= permissiveness(new),
        more_permissive(current, new) == current || more_permissive(current, new) == new,
{
}

/// A package whose name the graph holds once goes in a directory named after it alone.
pub proof fn lemma_single_version_plain_dir(id: IdView, ids: Seq<IdView>)
    requires
        count_with_name(ids, id.0) <= 1,
    ensures
        spec_vendor_dir(id, ids) == id.0,
{
}

/// Distinct packages of a graph never share a vendor directory: a name with one
/// version keeps the plain name, the versions of a name with several get
/// `name@version`, and no two of these collide, for package names without `@`
/// and valid versions.
pub proof fn lemma_vendor_dirs_distinct(ids: Seq<IdView>, i: int, j: int)
    requires
        distinct_ids(ids),
        0 <= i < ids.len(),
        0 <= j < ids.len(),
        i != j,
        forall|k: int| 0 <= k < ids.len() ==> !(#[trigger] ids[k]).0.contains('@') && version_view_ok(ids[k].1),
    ensures
        spec_vendor_dir(ids[i], ids) != spec_vendor_dir(ids[j], ids),
{
    let ni = ids[i].0;
    let nj = ids[j].0;
    let di = spec_vendor_dir(ids[i], ids);
    let dj = spec_vendor_dir(ids[j], ids);
    let ti = seq!['@'] + version_display(ids[i].1);
    let tj = seq!['@'] + version_display(ids[j].1);
    if count_with_name(ids, ni) == 0 {
        lemma_count_zero(ids, ni, i);
    }
    if count_with_name(ids, nj) == 0 {
        lemma_count_zero(ids, nj, j);
    }
    if di == dj {
        if ni == nj {
            if count_with_name(ids, ni) == 1 {
                lemma_single_name(ids, ni, i, j);
            }
            assert(di =~= ni + ti);
            assert(dj =~= nj + tj);
            assert(version_display(ids[i].1) =~= di.skip(ni.len() as int + 1));
            assert(version_display(ids[j].1) =~= dj.skip(nj.len() as int + 1));
            lemma_version_display_injective(ids[i].1, ids[j].1);
            assert(ids[i] == ids[j]);
        } else if count_with_name(ids, ni) > 1 && count_with_name(ids, nj) > 1 {
            assert(di =~= ni + ti);
            assert(dj =~= nj + tj);
            assert forall|k: int| 0 <= k < ni.len() implies (#[trigger] ni[k]) != '@' by {
                if ni[k] == '@' {
                    assert(ni.contains('@'));
                }
            }
            assert forall|k: int| 0 <= k < nj.len() implies (#[trigger] nj[k]) != '@' by {
                if nj[k] == '@' {
                    assert(nj.contains('@'));
                }
            }
            lemma_split_before(ni, ti, nj, tj, |c: char| c == '@');
        } else if count_with_name(ids, ni) > 1 {
            assert(di =~= ni + ti);
            assert(di[ni.len() as int] == '@');
            assert(nj[ni.len() as int] == '@');
            assert(nj.contains('@'));
        } else if count_with_name(ids, nj) > 1 {
            assert(dj =~= nj + tj);
            assert(dj[nj.len() as int] == '@');
            assert(ni[nj.len() as int] == '@');
            assert(ni.contains('@'));
        }
    }
}

} // verus!
