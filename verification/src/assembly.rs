//! The dependency graph of a resolution that picked one version per package:
//! which entries, roots and edges it has, given the versions picked, the
//! packages downloaded at those versions and the local packages built.

use crate::manifest::{Dependency, DependencyManifest, DependencyManifestView, DependencyView, Manifest, ManifestView};
use crate::package::{latest, Package, PackageName};
use crate::resolver::{
    distinct_ids, ids_view, index_of_id, local_dependant, make_local_dependant, make_remote_dependant, remote_dependant,
    resolved_version_of, DependantView, DependencyGraph, EntryView, IdView, ResolveError, ResolvedDependency,
    ResolvedPackageId,
};
use crate::version::Version;
use vstd::prelude::*;

verus! {

/// The position of the local package last listed under a name.
pub open spec fn local_index(local: Seq<(PackageName, Package, String)>, name: Seq<char>) -> Option<int>
    decreases local.len(),
{
    if local.len() == 0 {
        None
    } else if local.last().0@ == name {
        Some(local.len() - 1)
    } else {
        local_index(local.drop_last(), name)
    }
}

/// The identifier of a local package.
pub open spec fn local_id(local: Seq<(PackageName, Package, String)>, i: int) -> IdView {
    (local[i].1.name@, local[i].1.version@)
}

/// The package a dependency stands for: a remote one, its name at the
/// version resolution picked; a local one, the local package listed under its name.
pub open spec fn dependency_target(
    d: DependencyView,
    resolved: Seq<(PackageName, Version)>,
    local: Seq<(PackageName, Package, String)>,
) -> Option<IdView> {
    match d.manifest {
        DependencyManifestView::Remote(_) => match latest(resolved, d.package) {
            Some(v) => Some((d.package, v@)),
            None => None,
        },
        DependencyManifestView::Local(_) => match local_index(local, d.package) {
            Some(i) => Some(local_id(local, i)),
            None => None,
        },
    }
}

/// Whether a graph entry holds what its identifier names: a remote entry, a
/// downloaded package at the version resolution picked for its name; a local
/// entry, a local package.
pub open spec fn entry_sourced(
    id: IdView,
    e: EntryView,
    resolved: Seq<(PackageName, Version)>,
    downloaded: Seq<Package>,
    local: Seq<(PackageName, Package, String)>,
) -> bool {
    &&& e.package.name == id.0
    &&& e.package.version == id.1
    &&& if e.is_local {
        exists|j: int| 0 <= j < local.len() && (#[trigger] local[j]).1@ == e.package
    } else {
        &&& latest(resolved, id.0) matches Some(v) && v@ == id.1
        &&& exists|j: int| 0 <= j < downloaded.len() && (#[trigger] downloaded[j])@ == e.package
    }
}

/// Whether a dependency can be placed: a remote one is resolved and downloaded
/// at the version picked; a local one is listed.
pub open spec fn dependency_available(
    d: DependencyView,
    resolved: Seq<(PackageName, Version)>,
    downloaded: Seq<Package>,
    local: Seq<(PackageName, Package, String)>,
) -> bool {
    match d.manifest {
        DependencyManifestView::Remote(_) => latest(resolved, d.package) matches Some(v)
            && exists|j: int| 0 <= j < downloaded.len() && (#[trigger] downloaded[j])@.name == d.package
                && downloaded[j]@.version == v@,
        DependencyManifestView::Local(_) => local_index(local, d.package) is Some,
    }
}

/// Whether every dependency of the root, of the downloaded packages and of the
/// local packages can be placed, and no local package has the name and version
/// of a downloaded one.
pub open spec fn assembly_closed(
    roots: Seq<DependencyView>,
    resolved: Seq<(PackageName, Version)>,
    downloaded: Seq<Package>,
    local: Seq<(PackageName, Package, String)>,
) -> bool {
    &&& forall|k: int| 0 <= k < roots.len() ==> dependency_available(#[trigger] roots[k], resolved, downloaded, local)
    &&& forall|j: int, k: int| 0 <= j < downloaded.len() && 0 <= k < downloaded[j]@.dependencies.len()
        ==> dependency_available(#[trigger] downloaded[j]@.dependencies[k], resolved, downloaded, local)
    &&& forall|j: int, k: int| 0 <= j < local.len() && 0 <= k < local[j].1@.dependencies.len()
        ==> dependency_available(#[trigger] local[j].1@.dependencies[k], resolved, downloaded, local)
    &&& no_local_shadowing(downloaded, local)
}

/// Whether no local package has the name and version of a downloaded one.
pub open spec fn no_local_shadowing(downloaded: Seq<Package>, local: Seq<(PackageName, Package, String)>) -> bool {
    forall|i: int, j: int| 0 <= i < local.len() && 0 <= j < downloaded.len()
        ==> !((#[trigger] local[i]).1@.name == (#[trigger] downloaded[j])@.name
            && local[i].1@.version == downloaded[j]@.version)
}

/// A dependency edge: the name of the package that requests, and the dependency.
pub type Edge = (Seq<char>, DependencyView);

/// The dependant an edge records.
pub open spec fn edge_dependant(e: Edge) -> DependantView {
    match e.1.manifest {
        DependencyManifestView::Remote(m) => remote_dependant(e.0, m),
        DependencyManifestView::Local(l) => local_dependant(e.0, l.publish),
    }
}

/// The dependants that edges give an entry, in order: one for each edge that
/// stands for it, but for a remote edge to a local entry, which records none.
pub open spec fn dependants_from(
    edges: Seq<Edge>,
    x: IdView,
    x_local: bool,
    resolved: Seq<(PackageName, Version)>,
    local: Seq<(PackageName, Package, String)>,
) -> Seq<DependantView>
    decreases edges.len(),
{
    if edges.len() == 0 {
        Seq::empty()
    } else {
        let rest = dependants_from(edges.drop_last(), x, x_local, resolved, local);
        let e = edges.last();
        if dependency_target(e.1, resolved, local) == Some(x) && !(x_local && e.1.manifest is Remote) {
            rest.push(edge_dependant(e))
        } else {
            rest
        }
    }
}

/// The name that requests the root's dependencies: the root package's, else `.`.
pub open spec fn root_requester(m: ManifestView) -> Seq<char> {
    match m.package {
        Some(p) => p.name,
        None => "."@,
    }
}

/// The edges of the root's dependencies.
pub open spec fn root_edges(root: Seq<char>, roots: Seq<DependencyView>) -> Seq<Edge> {
    roots.map_values(|d: DependencyView| (root, d))
}

/// The edges of a package's dependencies, requested by its name.
pub open spec fn own_edges(id: IdView, e: EntryView) -> Seq<Edge> {
    e.package.dependencies.map_values(|d: DependencyView| (id.0, d))
}

/// The edges of the packages of the first `n` entries, in entry order.
pub open spec fn package_edges(ids: Seq<IdView>, vals: Seq<EntryView>, n: int) -> Seq<Edge>
    decreases n,
{
    if n <= 0 {
        Seq::empty()
    } else {
        package_edges(ids, vals, n - 1) + own_edges(ids[n - 1], vals[n - 1])
    }
}

/// Whether each entry's dependants are those the edges give it.
pub open spec fn dependants_recorded(
    ids: Seq<IdView>,
    vals: Seq<EntryView>,
    edges: Seq<Edge>,
    resolved: Seq<(PackageName, Version)>,
    local: Seq<(PackageName, Package, String)>,
) -> bool {
    forall|k: int| 0 <= k < ids.len() ==> (#[trigger] vals[k]).dependants == dependants_from(edges, ids[k], vals[k].is_local, resolved, local)
}

/// Whether the package every edge stands for is an entry.
pub open spec fn edges_placed(
    ids: Seq<IdView>,
    edges: Seq<Edge>,
    resolved: Seq<(PackageName, Version)>,
    local: Seq<(PackageName, Package, String)>,
) -> bool {
    forall|t: int| 0 <= t < edges.len() ==> (dependency_target((#[trigger] edges[t]).1, resolved, local) matches Some(x) && ids.contains(x))
}

/// No edge stands for an entry that no edge reaches.
proof fn lemma_unreached_no_dependants(
    edges: Seq<Edge>,
    x: IdView,
    x_local: bool,
    resolved: Seq<(PackageName, Version)>,
    local: Seq<(PackageName, Package, String)>,
)
    requires
        forall|t: int| 0 <= t < edges.len() ==> dependency_target((#[trigger] edges[t]).1, resolved, local) != Some(x),
    ensures
        dependants_from(edges, x, x_local, resolved, local) == Seq::<DependantView>::empty(),
    decreases edges.len(),
{
    if edges.len() > 0 {
        assert forall|t: int| 0 <= t < edges.drop_last().len() implies dependency_target((#[trigger] edges.drop_last()[t]).1, resolved, local) != Some(x) by {
            assert(edges.drop_last()[t] == edges[t]);
        }
        lemma_unreached_no_dependants(edges.drop_last(), x, x_local, resolved, local);
        assert(edges.last() == edges[edges.len() - 1]);
    }
}

/// The edges of the first `n` entries depend only on their names and packages.
proof fn lemma_package_edges_same(ids1: Seq<IdView>, vals1: Seq<EntryView>, ids2: Seq<IdView>, vals2: Seq<EntryView>, n: int)
    requires
        0 <= n,
        n <= ids1.len() && n <= ids2.len() && n <= vals1.len() && n <= vals2.len(),
        forall|a: int| 0 <= a < n ==> ids1[a] == ids2[a] && (#[trigger] vals1[a]).package == vals2[a].package,
    ensures
        package_edges(ids1, vals1, n) == package_edges(ids2, vals2, n),
    decreases n,
{
    if n > 0 {
        lemma_package_edges_same(ids1, vals1, ids2, vals2, n - 1);
        assert(vals1[n - 1].package == vals2[n - 1].package);
    }
}

/// An edge to an entry already there adds its dependant to that entry alone
/// (none where a remote edge reaches a local entry).
proof fn lemma_attach_recorded(
    ids: Seq<IdView>,
    vals0: Seq<EntryView>,
    vals: Seq<EntryView>,
    edges: Seq<Edge>,
    e: Edge,
    id: IdView,
    resolved: Seq<(PackageName, Version)>,
    local: Seq<(PackageName, Package, String)>,
)
    requires
        vals0.len() == ids.len(),
        vals.len() == ids.len(),
        dependants_recorded(ids, vals0, edges, resolved, local),
        edges_placed(ids, edges, resolved, local),
        ids.contains(id),
        dependency_target(e.1, resolved, local) == Some(id),
        forall|k: int| 0 <= k < ids.len() && ids[k] != id ==> #[trigger] vals[k] == vals0[k],
        forall|k: int| 0 <= k < ids.len() && ids[k] == id ==> (#[trigger] vals[k]).is_local == vals0[k].is_local
            && vals[k].dependants == (if !(vals0[k].is_local && e.1.manifest is Remote) {
                vals0[k].dependants.push(edge_dependant(e))
            } else {
                vals0[k].dependants
            }),
    ensures
        dependants_recorded(ids, vals, edges.push(e), resolved, local),
        edges_placed(ids, edges.push(e), resolved, local),
{
    let ne = edges.push(e);
    assert(ne.drop_last() =~= edges);
    assert forall|k: int| 0 <= k < ids.len() implies (#[trigger] vals[k]).dependants
        == dependants_from(ne, ids[k], vals[k].is_local, resolved, local) by {
        assert(vals0[k].dependants == dependants_from(edges, ids[k], vals0[k].is_local, resolved, local));
        if ids[k] != id {
            assert(vals[k] == vals0[k]);
        }
    }
    assert forall|t: int| 0 <= t < ne.len() implies (dependency_target((#[trigger] ne[t]).1, resolved, local) matches Some(x)
        && ids.contains(x)) by {
        if t < edges.len() {
            assert(ne[t] == edges[t]);
        }
    }
}

/// An edge to a package not yet there places it as a new entry whose one
/// dependant is the edge's.
proof fn lemma_insert_recorded(
    ids0: Seq<IdView>,
    vals0: Seq<EntryView>,
    edges: Seq<Edge>,
    e: Edge,
    id: IdView,
    entry: EntryView,
    resolved: Seq<(PackageName, Version)>,
    local: Seq<(PackageName, Package, String)>,
)
    requires
        vals0.len() == ids0.len(),
        dependants_recorded(ids0, vals0, edges, resolved, local),
        edges_placed(ids0, edges, resolved, local),
        !ids0.contains(id),
        dependency_target(e.1, resolved, local) == Some(id),
        entry.dependants == seq![edge_dependant(e)],
        !(entry.is_local && e.1.manifest is Remote),
    ensures
        dependants_recorded(ids0.push(id), vals0.push(entry), edges.push(e), resolved, local),
        edges_placed(ids0.push(id), edges.push(e), resolved, local),
{
    let ne = edges.push(e);
    let ids = ids0.push(id);
    let vals = vals0.push(entry);
    assert(ne.drop_last() =~= edges);
    assert forall|t: int| 0 <= t < edges.len() implies dependency_target((#[trigger] edges[t]).1, resolved, local) != Some(id) by {
        let x = dependency_target(edges[t].1, resolved, local)->0;
        assert(ids0.contains(x));
    }
    lemma_unreached_no_dependants(edges, id, entry.is_local, resolved, local);
    assert forall|k: int| 0 <= k < ids.len() implies (#[trigger] vals[k]).dependants
        == dependants_from(ne, ids[k], vals[k].is_local, resolved, local) by {
        if k < ids0.len() {
            assert(vals[k] == vals0[k] && ids[k] == ids0[k]);
            assert(vals0[k].dependants == dependants_from(edges, ids0[k], vals0[k].is_local, resolved, local));
            assert(ids0[k] != id) by {
                if ids0[k] == id {
                    assert(ids0.contains(id));
                }
            }
        } else {
            assert(vals[k] == entry && ids[k] == id);
            assert(dependants_from(ne, id, entry.is_local, resolved, local) =~= seq![edge_dependant(e)]);
        }
    }
    assert forall|t: int| 0 <= t < ne.len() implies (dependency_target((#[trigger] ne[t]).1, resolved, local) matches Some(x)
        && ids.contains(x)) by {
        if t < edges.len() {
            assert(ne[t] == edges[t]);
            let x = dependency_target(edges[t].1, resolved, local)->0;
            assert(ids0.contains(x));
            let w = choose|w: int| 0 <= w < ids0.len() && ids0[w] == x;
            assert(ids[w] == x);
        } else {
            assert(ids[ids0.len() as int] == id);
        }
    }
}

/// Whether resolution picked each local package at its own version.
pub open spec fn locals_resolved(resolved: Seq<(PackageName, Version)>, local: Seq<(PackageName, Package, String)>) -> bool {
    forall|j: int| 0 <= j < local.len() ==> (latest(resolved, (#[trigger] local[j]).1.name@) matches Some(v)
        && v@ == local[j].1.version@)
}

/// Whether no two entries carry the same package name.
pub open spec fn one_version_per_name(ids: Seq<IdView>) -> bool {
    forall|a: int, b: int| 0 <= a < ids.len() && 0 <= b < ids.len() && (#[trigger] ids[a]).0 == (#[trigger] ids[b]).0 ==> a == b
}

/// Whether a graph is the one assembled from the root's dependencies: its
/// roots are the packages the root's dependencies stand for, in order; every
/// entry holds the package its identifier names; and every entry depends, in
/// order, on the packages its own dependencies stand for, each an entry; and
/// every entry's dependants are those the edges give it, the root's edges
/// (requested by `root`) first, then those of each entry's package in entry order.
pub open spec fn assembled(
    g: DependencyGraph,
    root: Seq<char>,
    roots: Seq<DependencyView>,
    resolved: Seq<(PackageName, Version)>,
    downloaded: Seq<Package>,
    local: Seq<(PackageName, Package, String)>,
    allow_multiple: bool,
) -> bool {
    let ids = g.entry_ids();
    let vals = g.entry_values();
    &&& g.root_ids().len() == roots.len()
    &&& forall|k: int| 0 <= k < roots.len() ==> dependency_target(#[trigger] roots[k], resolved, local) == Some(g.root_ids()[k])
    &&& forall|k: int| 0 <= k < roots.len() ==> ids.contains(#[trigger] g.root_ids()[k])
    &&& vals.len() == ids.len()
    &&& forall|k: int| 0 <= k < ids.len() ==> entry_sourced(#[trigger] ids[k], vals[k], resolved, downloaded, local)
    &&& forall|k: int| 0 <= k < ids.len() ==> (#[trigger] vals[k]).depends_on.len() == vals[k].package.dependencies.len()
    &&& forall|k: int, j: int| 0 <= k < ids.len() && 0 <= j < vals[k].depends_on.len()
        ==> dependency_target(#[trigger] vals[k].package.dependencies[j], resolved, local) == Some(vals[k].depends_on[j])
            && ids.contains(vals[k].depends_on[j])
    &&& forall|k: int| 0 <= k < ids.len() ==> (#[trigger] vals[k]).dependants == dependants_from(
        root_edges(root, roots) + package_edges(ids, vals, ids.len() as int), ids[k], vals[k].is_local, resolved, local)
    &&& g.allows_all() == allow_multiple
    &&& g.permitted_names().is_empty()
    &&& forall|n: Seq<char>| #[trigger] g.recorded_policy(n) is None
}

/// What an assembly error says of the inputs.
pub open spec fn assembly_error(
    e: ResolveError,
    resolved: Seq<(PackageName, Version)>,
    downloaded: Seq<Package>,
    local: Seq<(PackageName, Package, String)>,
) -> bool {
    match e {
        ResolveError::Unresolved(n) => latest(resolved, n@) is None,
        ResolveError::NotDownloaded { package, version } => latest(resolved, package@) matches Some(v)
            && version@ == crate::version::version_display(v@)
            && forall|j: int| 0 <= j < downloaded.len() ==> !((#[trigger] downloaded[j])@.name == package@
                && downloaded[j]@.version == v@),
        ResolveError::LocalNotFound { package, .. } => local_index(local, package@) is None,
        ResolveError::LocalCollidesWithRemote { .. } => !no_local_shadowing(downloaded, local),
        _ => false,
    }
}

/// Whether the entries hold what their identifiers name, with no edges yet.
pub open spec fn entries_pending(
    ids: Seq<IdView>,
    vals: Seq<EntryView>,
    resolved: Seq<(PackageName, Version)>,
    downloaded: Seq<Package>,
    local: Seq<(PackageName, Package, String)>,
) -> bool {
    &&& vals.len() == ids.len()
    &&& distinct_ids(ids)
    &&& forall|k: int| 0 <= k < ids.len() ==> entry_sourced(#[trigger] ids[k], vals[k], resolved, downloaded, local)
    &&& forall|k: int| 0 <= k < ids.len() ==> (#[trigger] vals[k]).depends_on.len() == 0
}

/// The identifiers an entry can have: those of the versions resolution picked,
/// then those of the local packages.
pub open spec fn candidate_ids(resolved: Seq<(PackageName, Version)>, local: Seq<(PackageName, Package, String)>) -> Seq<IdView> {
    resolved.map_values(|e: (PackageName, Version)| (e.0@, e.1@)) + local.map_values(
        |t: (PackageName, Package, String)| (t.1.name@, t.1.version@))
}

/// With distinct identifiers, the entry of the identifier at a position is the
/// value at that position.
proof fn lemma_entry_at(g: DependencyGraph, k: int)
    requires
        distinct_ids(g.entry_ids()),
        g.entry_values().len() == g.entry_ids().len(),
        0 <= k < g.entry_ids().len(),
    ensures
        index_of_id(g.entry_ids(), g.entry_ids()[k]) == Some(k),
        g.entry_of(g.entry_ids()[k]) == Some(g.entry_values()[k]),
{
    let ids = g.entry_ids();
    let w = choose|w: int| 0 <= w < ids.len() && ids[w] == ids[k];
    assert(w == k);
}

/// Distinct identifiers drawn from the candidates are no more than the candidates.
proof fn lemma_ids_bounded(ids: Seq<IdView>, cands: Seq<IdView>)
    requires
        distinct_ids(ids),
        forall|k: int| 0 <= k < ids.len() ==> cands.contains(#[trigger] ids[k]),
    ensures
        ids.len() <= cands.len(),
{
    assert(ids.no_duplicates()) by {
        assert forall|i: int, j: int| 0 <= i < ids.len() && 0 <= j < ids.len() && i != j implies ids[i] != ids[j] by {
            assert(ids[i] != ids[j]);
        }
    }
    ids.unique_seq_to_set();
    cands.lemma_cardinality_of_set();
    assert(ids.to_set().subset_of(cands.to_set())) by {
        assert forall|x: IdView| ids.to_set().contains(x) implies cands.to_set().contains(x) by {
            let k = choose|k: int| 0 <= k < ids.len() && ids[k] == x;
            assert(cands.contains(ids[k]));
        }
    }
    vstd::seq_lib::seq_to_set_is_finite(cands);
    vstd::set_lib::lemma_len_subset(ids.to_set(), cands.to_set());
}

/// The value last recorded under a name is recorded at some position.
proof fn lemma_latest_member(s: Seq<(PackageName, Version)>, n: Seq<char>)
    requires
        latest(s, n) is Some,
    ensures
        exists|i: int| 0 <= i < s.len() && s[i].0@ == n && s[i].1 == latest(s, n)->0,
    decreases s.len(),
{
    if s.last().0@ == n {
        assert(s[s.len() - 1].0@ == n);
    } else {
        lemma_latest_member(s.drop_last(), n);
        let i = choose|i: int| 0 <= i < s.len() - 1 && s.drop_last()[i].0@ == n && s.drop_last()[i].1 == latest(s.drop_last(), n)->0;
        assert(s[i] == s.drop_last()[i]);
    }
}

/// The position of the downloaded package with a name and version.
fn find_downloaded(downloaded: &Vec<Package>, name: &PackageName, version: &Version) -> (r: Option<usize>)
    ensures
        (match r {
            Some(j) => j < downloaded@.len() && downloaded@[j as int]@.name == name@
                && downloaded@[j as int]@.version == version@,
            None => forall|j: int| 0 <= j < downloaded@.len() ==> !((#[trigger] downloaded@[j])@.name == name@
                && downloaded@[j]@.version == version@),
        }),
{
    let mut j: usize = 0;
    while j < downloaded.len()
        invariant
            j <= downloaded@.len(),
            forall|a: int| 0 <= a < j ==> !((#[trigger] downloaded@[a])@.name == name@ && downloaded@[a]@.version == version@),
        decreases downloaded@.len() - j,
    {
        if downloaded[j].name.same(name) && downloaded[j].version == *version {
            return Some(j);
        }
        j = j + 1;
    }
    None
}

/// The position of the local package last listed under a name.
fn find_local(local: &Vec<(PackageName, Package, String)>, name: &PackageName) -> (r: Option<usize>)
    ensures
        (match r {
            Some(i) => i < local@.len() && local_index(local@, name@) == Some(i as int),
            None => local_index(local@, name@) is None,
        }),
{
    let mut i: usize = local.len();
    assert(local@.take(i as int) =~= local@);
    while i > 0
        invariant
            i <= local@.len(),
            local_index(local@, name@) == local_index(local@.take(i as int), name@),
        decreases i,
    {
        assert(local@.take(i as int).drop_last() =~= local@.take(i - 1));
        if local[i - 1].0.same(name) {
            return Some(i - 1);
        }
        i = i - 1;
    }
    None
}

/// Places the package a dependency stands for in the graph: as a dependant of
/// the entry already there, or as a new entry without edges.
#[verifier::rlimit(40)]
fn place(
    g: &mut DependencyGraph,
    requester: &PackageName,
    d: &Dependency,
    resolved: &Vec<(PackageName, Version)>,
    downloaded: &Vec<Package>,
    local: &Vec<(PackageName, Package, String)>,
    Ghost(edges): Ghost<Seq<Edge>>,
) -> (r: Result<ResolvedPackageId, ResolveError>)
    requires
        entries_pending(old(g).entry_ids(), old(g).entry_values(), resolved@, downloaded@, local@),
        forall|k: int| 0 <= k < old(g).entry_ids().len() ==> candidate_ids(resolved@, local@).contains(#[trigger] old(g).entry_ids()[k]),
        dependants_recorded(old(g).entry_ids(), old(g).entry_values(), edges, resolved@, local@),
        edges_placed(old(g).entry_ids(), edges, resolved@, local@),
    ensures
        r is Ok ==> dependants_recorded(final(g).entry_ids(), final(g).entry_values(), edges.push((requester@, d@)), resolved@, local@)
            && edges_placed(final(g).entry_ids(), edges.push((requester@, d@)), resolved@, local@),
        forall|x: IdView| old(g).entry_ids().contains(x) ==> #[trigger] final(g).entry_ids().contains(x),
        entries_pending(final(g).entry_ids(), final(g).entry_values(), resolved@, downloaded@, local@),
        forall|k: int| 0 <= k < final(g).entry_ids().len() ==> candidate_ids(resolved@, local@).contains(#[trigger] final(g).entry_ids()[k]),
        old(g).entry_ids().len() <= final(g).entry_ids().len(),
        forall|k: int| #![trigger final(g).entry_ids()[k]] #![trigger final(g).entry_values()[k]]
            0 <= k < old(g).entry_ids().len() ==> final(g).entry_ids()[k] == old(g).entry_ids()[k]
                && final(g).entry_values()[k].package == old(g).entry_values()[k].package,
        final(g).root_ids() == old(g).root_ids(),
        final(g).allows_all() == old(g).allows_all(),
        final(g).permitted_names() == old(g).permitted_names(),
        forall|n: Seq<char>| #[trigger] final(g).recorded_policy(n) == old(g).recorded_policy(n),
        (match r {
            Ok(id) => dependency_target(d@, resolved@, local@) == Some(id@) && final(g).entry_ids().contains(id@),
            Err(e) => assembly_error(e, resolved@, downloaded@, local@),
        }),
        dependency_available(d@, resolved@, downloaded@, local@) && no_local_shadowing(downloaded@, local@) ==> r is Ok,
{
    let ghost ids0 = g.entry_ids();
    let ghost vals0 = g.entry_values();
    let ghost cands = candidate_ids(resolved@, local@);
    match &d.manifest {
        DependencyManifest::Remote(m) => {
            let version = match resolved_version_of(resolved, &d.package) {
                Ok(v) => v,
                Err(e) => return Err(e),
            };
            let id = ResolvedPackageId::new(d.package.duplicate(), version.duplicate());
            proof {
                lemma_latest_member(resolved@, d.package@);
                let i = choose|i: int| 0 <= i < resolved@.len() && resolved@[i].0@ == d.package@
                    && resolved@[i].1 == latest(resolved@, d.package@)->0;
                assert(cands[i] == (resolved@[i].0@, resolved@[i].1@));
            }
            let found = g.get(&id).is_some();
            if found {
                let _ = g.attach_existing(&id, make_remote_dependant(requester, m));
                let _ = g.len(); // its identifiers are distinct
                proof {
                    let ids = g.entry_ids();
                    let vals = g.entry_values();
                    assert(ids == ids0);
                    assert forall|k: int| #![trigger ids[k]] #![trigger vals[k]] 0 <= k < ids.len() implies entry_sourced(ids[k], vals[k], resolved@, downloaded@, local@)
                        && vals[k].depends_on.len() == 0 && vals[k].package == vals0[k].package by {
                        lemma_entry_at(*g, k);
                        lemma_entry_at(*old(g), k);
                    }
                    let w = choose|w: int| 0 <= w < ids0.len() && ids0[w] == id@;
                    assert(ids.contains(id@)) by { assert(ids[w] == id@); }
                    assert forall|k: int| 0 <= k < ids.len() && ids[k] != id@ implies #[trigger] vals[k] == vals0[k] by {
                        lemma_entry_at(*g, k);
                        lemma_entry_at(*old(g), k);
                    }
                    assert forall|k: int| 0 <= k < ids.len() && ids[k] == id@ implies (#[trigger] vals[k]).is_local == vals0[k].is_local
                        && vals[k].dependants == (if !(vals0[k].is_local && d@.manifest is Remote) {
                            vals0[k].dependants.push(edge_dependant((requester@, d@)))
                        } else {
                            vals0[k].dependants
                        }) by {
                        lemma_entry_at(*g, k);
                        lemma_entry_at(*old(g), k);
                    }
                    lemma_attach_recorded(ids, vals0, vals, edges, (requester@, d@), id@, resolved@, local@);
                }
                return Ok(id);
            }
            let j = match find_downloaded(downloaded, &d.package, version) {
                Some(j) => j,
                None => return Err(ResolveError::NotDownloaded { package: d.package.to_string(), version: version.to_string() }),
            };
            let entry = ResolvedDependency::Remote {
                package: downloaded[j].duplicate(),
                registry: m.registry.duplicate(),
                repository: m.repository.clone(),
                dependants: vec![make_remote_dependant(requester, m)],
                depends_on: Vec::new(),
            };
            g.insert(id.duplicate(), entry);
            let _ = g.len(); // its identifiers are distinct
            proof {
                let ids = g.entry_ids();
                let vals = g.entry_values();
                assert(ids == ids0.push(id@));
                assert(vals == vals0.push(entry@));
                assert(entry_sourced(id@, entry@, resolved@, downloaded@, local@)) by {
                    assert(downloaded@[j as int]@ == entry@.package);
                }
                assert(ids[ids0.len() as int] == id@);
                assert(!ids0.contains(id@)) by {
                    if ids0.contains(id@) {
                        let w = choose|w: int| 0 <= w < ids0.len() && ids0[w] == id@;
                        assert(index_of_id(ids0, id@) is Some);
                    }
                }
                assert(entry@.dependants =~= seq![edge_dependant((requester@, d@))]);
                lemma_insert_recorded(ids0, vals0, edges, (requester@, d@), id@, entry@, resolved@, local@);
                assert forall|x: IdView| ids0.contains(x) implies #[trigger] ids.contains(x) by {
                    let w = choose|w: int| 0 <= w < ids0.len() && ids0[w] == x;
                    assert(ids[w] == x);
                }
            }
            Ok(id)
        },
        DependencyManifest::Local(l) => {
            let i = match find_local(local, &d.package) {
                Some(i) => i,
                None => return Err(ResolveError::LocalNotFound { package: d.package.to_string(), referrer: requester.to_string() }),
            };
            let p = &local[i].1;
            let id = ResolvedPackageId::new(p.name.duplicate(), p.version.duplicate());
            proof {
                assert(cands[resolved@.len() + i] == local_id(local@, i as int));
            }
            let existing = g.get(&id);
            let is_local = match existing {
                Some(e) => Some(e.is_local()),
                None => None,
            };
            match is_local {
                Some(false) => {
                    proof {
                        let k = index_of_id(ids0, id@)->0;
                        assert(0 <= k < ids0.len() && ids0[k] == id@);
                        assert(entry_sourced(ids0[k], vals0[k], resolved@, downloaded@, local@));
                        let w = choose|w: int| 0 <= w < downloaded@.len() && downloaded@[w]@ == vals0[k].package;
                        assert(!no_local_shadowing(downloaded@, local@)) by {
                            assert(local@[i as int].1@.name == downloaded@[w]@.name);
                        }
                    }
                    return Err(ResolveError::LocalCollidesWithRemote { id: id.to_string() });
                },
                Some(true) => {
                    let _ = g.attach_local(&id, make_local_dependant(requester, &l.publish));
                    let _ = g.len(); // its identifiers are distinct
                    proof {
                        let ids = g.entry_ids();
                        let vals = g.entry_values();
                        assert(ids == ids0);
                        assert forall|k: int| #![trigger ids[k]] #![trigger vals[k]] 0 <= k < ids.len() implies entry_sourced(ids[k], vals[k], resolved@, downloaded@, local@)
                            && vals[k].depends_on.len() == 0 && vals[k].package == vals0[k].package by {
                            lemma_entry_at(*g, k);
                            lemma_entry_at(*old(g), k);
                        }
                        let w = choose|w: int| 0 <= w < ids0.len() && ids0[w] == id@;
                        assert(ids.contains(id@)) by { assert(ids[w] == id@); }
                        assert forall|k: int| 0 <= k < ids.len() && ids[k] != id@ implies #[trigger] vals[k] == vals0[k] by {
                            lemma_entry_at(*g, k);
                            lemma_entry_at(*old(g), k);
                        }
                        assert forall|k: int| 0 <= k < ids.len() && ids[k] == id@ implies (#[trigger] vals[k]).is_local == vals0[k].is_local
                            && vals[k].dependants == (if !(vals0[k].is_local && d@.manifest is Remote) {
                                vals0[k].dependants.push(edge_dependant((requester@, d@)))
                            } else {
                                vals0[k].dependants
                            }) by {
                            lemma_entry_at(*g, k);
                            lemma_entry_at(*old(g), k);
                        }
                        lemma_attach_recorded(ids, vals0, vals, edges, (requester@, d@), id@, resolved@, local@);
                    }
                    return Ok(id);
                },
                None => {},
            }
            let entry = ResolvedDependency::Local {
                package: p.duplicate(),
                path: local[i].2.clone(),
                dependants: vec![make_local_dependant(requester, &l.publish)],
                depends_on: Vec::new(),
            };
            g.insert(id.duplicate(), entry);
            let _ = g.len(); // its identifiers are distinct
            proof {
                let ids = g.entry_ids();
                let vals = g.entry_values();
                assert(ids == ids0.push(id@));
                assert(vals == vals0.push(entry@));
                assert(entry_sourced(id@, entry@, resolved@, downloaded@, local@)) by {
                    assert(local@[i as int].1@ == entry@.package);
                }
                assert(ids[ids0.len() as int] == id@);
                assert(!ids0.contains(id@)) by {
                    if ids0.contains(id@) {
                        let w = choose|w: int| 0 <= w < ids0.len() && ids0[w] == id@;
                        assert(index_of_id(ids0, id@) is Some);
                    }
                }
                assert(entry@.dependants =~= seq![edge_dependant((requester@, d@))]);
                lemma_insert_recorded(ids0, vals0, edges, (requester@, d@), id@, entry@, resolved@, local@);
                assert forall|x: IdView| ids0.contains(x) implies #[trigger] ids.contains(x) by {
                    let w = choose|w: int| 0 <= w < ids0.len() && ids0[w] == x;
                    assert(ids[w] == x);
                }
            }
            Ok(id)
        },
    }
}

/// A copy of a list of dependencies.
fn duplicate_dependencies(v: &Vec<Dependency>) -> (r: Vec<Dependency>)
    ensures
        r@.len() == v@.len(),
        forall|k: int| 0 <= k < v@.len() ==> (#[trigger] r@[k])@ == v@[k]@,
{
    let mut r: Vec<Dependency> = Vec::new();
    let mut k: usize = 0;
    while k < v.len()
        invariant
            k <= v@.len(),
            r@.len() == k,
            forall|a: int| 0 <= a < k ==> (#[trigger] r@[a])@ == v@[a]@,
        decreases v@.len() - k,
    {
        r.push(v[k].duplicate());
        k = k + 1;
    }
    r
}

/// Under `assembly_closed`, every dependency of an entry's package can be placed.
proof fn lemma_entry_deps_available(
    id: IdView,
    e: EntryView,
    roots: Seq<DependencyView>,
    resolved: Seq<(PackageName, Version)>,
    downloaded: Seq<Package>,
    local: Seq<(PackageName, Package, String)>,
)
    requires
        entry_sourced(id, e, resolved, downloaded, local),
        assembly_closed(roots, resolved, downloaded, local),
    ensures
        forall|x: int| 0 <= x < e.package.dependencies.len()
            ==> dependency_available(#[trigger] e.package.dependencies[x], resolved, downloaded, local),
{
    assert forall|x: int| 0 <= x < e.package.dependencies.len()
        implies dependency_available(#[trigger] e.package.dependencies[x], resolved, downloaded, local) by {
        if e.is_local {
            let j = choose|j: int| 0 <= j < local.len() && (#[trigger] local[j]).1@ == e.package;
            assert(local[j].1@.dependencies[x] == e.package.dependencies[x]);
        } else {
            let j = choose|j: int| 0 <= j < downloaded.len() && (#[trigger] downloaded[j])@ == e.package;
            assert(downloaded[j]@.dependencies[x] == e.package.dependencies[x]);
        }
    }
}

/// The dependency graph of a resolution that picked one version per package.
///
/// The roots are the packages the root manifest's dependencies stand for, in
/// order (a remote one at the version picked for its name, taken from the
/// downloaded packages; a local one, the local package listed under its name);
/// each package is placed once, and every later edge to it adds a dependant;
/// every entry depends, in order, on the packages its own dependencies stand
/// for, and records a dependant for each edge that reaches it. Fails where a dependency was not resolved, not downloaded or not
/// listed, or where a local package takes the place of a remote one.
#[verifier::rlimit(80)]
pub fn assemble_graph(
    manifest: &Manifest,
    resolved: &Vec<(PackageName, Version)>,
    downloaded: &Vec<Package>,
    local: &Vec<(PackageName, Package, String)>,
    allow_multiple: bool,
) -> (r: Result<DependencyGraph, ResolveError>)
    ensures
        (match r {
            Ok(g) => assembled(g, root_requester(manifest@), manifest@.dependencies, resolved@, downloaded@, local@, allow_multiple),
            Err(e) => assembly_error(e, resolved@, downloaded@, local@),
        }),
        assembly_closed(manifest@.dependencies, resolved@, downloaded@, local@) ==> r is Ok,
        locals_resolved(resolved@, local@) ==> (r matches Ok(g) ==> one_version_per_name(g.entry_ids())),
{
    let root_name = match &manifest.package {
        Some(p) => p.name.duplicate(),
        None => PackageName::unchecked("."),
    };
    let ghost cands = candidate_ids(resolved@, local@);
    let ghost mdeps = manifest@.dependencies;
    let ghost closed = assembly_closed(mdeps, resolved@, downloaded@, local@);
    let ghost root = root_requester(manifest@);
    let ghost mut edges: Seq<Edge> = Seq::empty();
    let mut g = DependencyGraph::new(allow_multiple);
    let _ = g.len(); // it has no entries yet
    let mut roots: Vec<ResolvedPackageId> = Vec::new();
    let ghost mut rpos: Seq<int> = Seq::empty();
    let mut k: usize = 0;
    while k < manifest.dependencies.len()
        invariant
            mdeps == manifest@.dependencies,
            mdeps.len() == manifest.dependencies@.len(),
            forall|a: int| 0 <= a < mdeps.len() ==> (#[trigger] manifest.dependencies@[a])@ == mdeps[a],
            closed == assembly_closed(mdeps, resolved@, downloaded@, local@),
            cands == candidate_ids(resolved@, local@),
            k <= mdeps.len(),
            entries_pending(g.entry_ids(), g.entry_values(), resolved@, downloaded@, local@),
            forall|a: int| 0 <= a < g.entry_ids().len() ==> cands.contains(#[trigger] g.entry_ids()[a]),
            roots@.len() == k,
            rpos.len() == k,
            forall|a: int| 0 <= a < k ==> dependency_target(#[trigger] mdeps[a], resolved@, local@) == Some(roots@[a]@)
                && 0 <= rpos[a] < g.entry_ids().len() && g.entry_ids()[rpos[a]] == roots@[a]@,
            g.allows_all() == allow_multiple,
            g.permitted_names().is_empty(),
            forall|n: Seq<char>| #[trigger] g.recorded_policy(n) is None,
            root_name@ == root,
            edges == root_edges(root, mdeps.take(k as int)),
            dependants_recorded(g.entry_ids(), g.entry_values(), edges, resolved@, local@),
            edges_placed(g.entry_ids(), edges, resolved@, local@),
        decreases mdeps.len() - k,
    {
        let ghost ids0 = g.entry_ids();
        let id = match place(&mut g, &root_name, &manifest.dependencies[k], resolved, downloaded, local, Ghost(edges)) {
            Ok(id) => id,
            Err(e) => {
                proof {
                    if closed {
                        assert(dependency_available(mdeps[k as int], resolved@, downloaded@, local@));
                    }
                }
                return Err(e);
            },
        };
        proof {
            let w = choose|w: int| 0 <= w < g.entry_ids().len() && g.entry_ids()[w] == id@;
            assert forall|a: int| 0 <= a < k implies 0 <= #[trigger] rpos[a] < g.entry_ids().len()
                && g.entry_ids()[rpos[a]] == roots@[a]@ by {
                assert(dependency_target(mdeps[a], resolved@, local@) == Some(roots@[a]@));
                assert(g.entry_ids()[rpos[a]] == ids0[rpos[a]]);
            }
            rpos = rpos.push(w);
            assert(root_edges(root, mdeps.take(k + 1)) =~= edges.push((root_name@, manifest.dependencies@[k as int]@)));
            edges = edges.push((root_name@, manifest.dependencies@[k as int]@));
        }
        roots.push(id);
        k = k + 1;
    }
    let mut out_edges: Vec<Vec<ResolvedPackageId>> = Vec::new();
    let ghost mut epos: Seq<Seq<int>> = Seq::empty();
    let ghost mut pdeps: Seq<Seq<DependencyView>> = Seq::empty();
    let mut i: usize = 0;
    while i < g.len()
        invariant
            mdeps == manifest@.dependencies,
            closed == assembly_closed(mdeps, resolved@, downloaded@, local@),
            cands == candidate_ids(resolved@, local@),
            entries_pending(g.entry_ids(), g.entry_values(), resolved@, downloaded@, local@),
            forall|a: int| 0 <= a < g.entry_ids().len() ==> cands.contains(#[trigger] g.entry_ids()[a]),
            i <= g.entry_ids().len(),
            roots@.len() == mdeps.len(),
            rpos.len() == mdeps.len(),
            forall|a: int| 0 <= a < mdeps.len() ==> dependency_target(#[trigger] mdeps[a], resolved@, local@) == Some(roots@[a]@)
                && 0 <= rpos[a] < g.entry_ids().len() && g.entry_ids()[rpos[a]] == roots@[a]@,
            out_edges@.len() == i,
            epos.len() == i,
            pdeps.len() == i,
            forall|a: int| 0 <= a < i ==> (#[trigger] pdeps[a]) == g.entry_values()[a].package.dependencies
                && out_edges@[a]@.len() == pdeps[a].len() && epos[a].len() == pdeps[a].len(),
            forall|a: int, b: int| 0 <= a < i && 0 <= b < pdeps[a].len()
                ==> dependency_target(#[trigger] pdeps[a][b], resolved@, local@) == Some(out_edges@[a]@[b]@)
                    && 0 <= epos[a][b] < g.entry_ids().len() && g.entry_ids()[epos[a][b]] == out_edges@[a]@[b]@,
            g.allows_all() == allow_multiple,
            g.permitted_names().is_empty(),
            forall|n: Seq<char>| #[trigger] g.recorded_policy(n) is None,
            edges == root_edges(root, mdeps) + package_edges(g.entry_ids(), g.entry_values(), i as int),
            dependants_recorded(g.entry_ids(), g.entry_values(), edges, resolved@, local@),
            edges_placed(g.entry_ids(), edges, resolved@, local@),
        decreases cands.len() - i,
    {
        proof {
            lemma_ids_bounded(g.entry_ids(), cands);
        }
        let (id_i, e_i) = g.entry_at(i);
        let requester = id_i.name().duplicate();
        let deps = duplicate_dependencies(&e_i.package().manifest.dependencies);
        let ghost di = g.entry_values()[i as int].package.dependencies;
        proof {
            assert(entry_sourced(g.entry_ids()[i as int], g.entry_values()[i as int], resolved@, downloaded@, local@));
            if closed {
                lemma_entry_deps_available(g.entry_ids()[i as int], g.entry_values()[i as int], mdeps, resolved@, downloaded@, local@);
            }
        }
        let mut subs: Vec<ResolvedPackageId> = Vec::new();
        let ghost mut sp: Seq<int> = Seq::empty();
        let mut b: usize = 0;
        while b < deps.len()
            invariant
                mdeps == manifest@.dependencies,
                closed == assembly_closed(mdeps, resolved@, downloaded@, local@),
                cands == candidate_ids(resolved@, local@),
                entries_pending(g.entry_ids(), g.entry_values(), resolved@, downloaded@, local@),
                forall|a: int| 0 <= a < g.entry_ids().len() ==> cands.contains(#[trigger] g.entry_ids()[a]),
                i < g.entry_ids().len(),
                i < cands.len(),
                di == g.entry_values()[i as int].package.dependencies,
                deps@.len() == di.len(),
                forall|x: int| 0 <= x < di.len() ==> (#[trigger] deps@[x])@ == di[x],
                closed ==> forall|x: int| 0 <= x < di.len() ==> dependency_available(#[trigger] di[x], resolved@, downloaded@, local@),
                closed ==> no_local_shadowing(downloaded@, local@),
                b <= di.len(),
                subs@.len() == b,
                sp.len() == b,
                forall|x: int| 0 <= x < b ==> dependency_target(#[trigger] di[x], resolved@, local@) == Some(subs@[x]@)
                    && 0 <= sp[x] < g.entry_ids().len() && g.entry_ids()[sp[x]] == subs@[x]@,
                roots@.len() == mdeps.len(),
                rpos.len() == mdeps.len(),
                forall|a: int| 0 <= a < mdeps.len() ==> dependency_target(#[trigger] mdeps[a], resolved@, local@) == Some(roots@[a]@)
                    && 0 <= rpos[a] < g.entry_ids().len() && g.entry_ids()[rpos[a]] == roots@[a]@,
                out_edges@.len() == i,
                epos.len() == i,
                pdeps.len() == i,
                forall|a: int| 0 <= a < i ==> (#[trigger] pdeps[a]) == g.entry_values()[a].package.dependencies
                    && out_edges@[a]@.len() == pdeps[a].len() && epos[a].len() == pdeps[a].len(),
                forall|a: int, c: int| 0 <= a < i && 0 <= c < pdeps[a].len()
                    ==> dependency_target(#[trigger] pdeps[a][c], resolved@, local@) == Some(out_edges@[a]@[c]@)
                        && 0 <= epos[a][c] < g.entry_ids().len() && g.entry_ids()[epos[a][c]] == out_edges@[a]@[c]@,
                g.allows_all() == allow_multiple,
                g.permitted_names().is_empty(),
                forall|n: Seq<char>| #[trigger] g.recorded_policy(n) is None,
                requester@ == g.entry_ids()[i as int].0,
                edges == root_edges(root, mdeps) + package_edges(g.entry_ids(), g.entry_values(), i as int)
                    + di.take(b as int).map_values(|x: DependencyView| (requester@, x)),
                dependants_recorded(g.entry_ids(), g.entry_values(), edges, resolved@, local@),
                edges_placed(g.entry_ids(), edges, resolved@, local@),
            decreases di.len() - b,
        {
            let ghost ids0 = g.entry_ids();
            let ghost vals0 = g.entry_values();
            let id = match place(&mut g, &requester, &deps[b], resolved, downloaded, local, Ghost(edges)) {
                Ok(id) => id,
                Err(e) => {
                    proof {
                        if closed {
                            assert(dependency_available(di[b as int], resolved@, downloaded@, local@));
                        }
                    }
                    return Err(e);
                },
            };
            proof {
                let w = choose|w: int| 0 <= w < g.entry_ids().len() && g.entry_ids()[w] == id@;
                assert(g.entry_values()[i as int].package == vals0[i as int].package);
                assert forall|x: int| 0 <= x < b implies 0 <= #[trigger] sp[x] < g.entry_ids().len()
                    && g.entry_ids()[sp[x]] == subs@[x]@ by {
                    assert(dependency_target(di[x], resolved@, local@) == Some(subs@[x]@));
                    assert(g.entry_ids()[sp[x]] == ids0[sp[x]]);
                }
                assert forall|a: int| 0 <= a < mdeps.len() implies 0 <= #[trigger] rpos[a] < g.entry_ids().len()
                    && g.entry_ids()[rpos[a]] == roots@[a]@ by {
                    assert(dependency_target(mdeps[a], resolved@, local@) == Some(roots@[a]@));
                    assert(g.entry_ids()[rpos[a]] == ids0[rpos[a]]);
                }
                assert forall|a: int| 0 <= a < i implies (#[trigger] pdeps[a]) == g.entry_values()[a].package.dependencies by {
                    assert(g.entry_values()[a].package == vals0[a].package);
                }
                assert forall|a: int, c: int| 0 <= a < i && 0 <= c < pdeps[a].len()
                    implies 0 <= #[trigger] epos[a][c] < g.entry_ids().len() && g.entry_ids()[epos[a][c]] == out_edges@[a]@[c]@ by {
                    assert(dependency_target(pdeps[a][c], resolved@, local@) == Some(out_edges@[a]@[c]@));
                    assert(g.entry_ids()[epos[a][c]] == ids0[epos[a][c]]);
                }
                sp = sp.push(w);
                lemma_package_edges_same(ids0, vals0, g.entry_ids(), g.entry_values(), i as int);
                assert(di.take(b + 1).map_values(|x: DependencyView| (requester@, x))
                    =~= di.take(b as int).map_values(|x: DependencyView| (requester@, x)).push((requester@, deps@[b as int]@)));
                edges = edges.push((requester@, deps@[b as int]@));
            }
            subs.push(id);
            b = b + 1;
        }
        proof {
            assert(di.take(di.len() as int) =~= di);
            assert(package_edges(g.entry_ids(), g.entry_values(), i + 1)
                =~= package_edges(g.entry_ids(), g.entry_values(), i as int) + di.map_values(|x: DependencyView| (requester@, x)));
        }
        out_edges.push(subs);
        proof {
            epos = epos.push(sp);
            pdeps = pdeps.push(di);
            assert(out_edges@[i as int] == subs);
        }
        i = i + 1;
    }
    let ghost ids1 = g.entry_ids();
    let ghost vals1 = g.entry_values();
    let ghost edges1 = out_edges@;
    g.set_edges(out_edges);
    g.set_roots(roots);
    let _ = g.len(); // its identifiers are distinct
    proof {
        let ids = g.entry_ids();
        let vals = g.entry_values();
        assert(ids == ids1);
        assert forall|k: int| 0 <= k < ids.len() implies entry_sourced(#[trigger] ids[k], vals[k], resolved@, downloaded@, local@) by {
            assert(vals[k] == (EntryView { depends_on: ids_view(edges1[k]@), ..vals1[k] }));
        }
        assert forall|k: int| 0 <= k < ids.len() implies (#[trigger] vals[k]).depends_on.len() == vals[k].package.dependencies.len() by {
            assert(vals[k] == (EntryView { depends_on: ids_view(edges1[k]@), ..vals1[k] }));
            assert(pdeps[k] == vals1[k].package.dependencies);
        }
        assert forall|k: int, j: int| 0 <= k < ids.len() && 0 <= j < vals[k].depends_on.len()
            implies dependency_target(#[trigger] vals[k].package.dependencies[j], resolved@, local@) == Some(vals[k].depends_on[j])
                && ids.contains(vals[k].depends_on[j]) by {
            assert(vals[k] == (EntryView { depends_on: ids_view(edges1[k]@), ..vals1[k] }));
            assert(pdeps[k] == vals1[k].package.dependencies);
            assert(vals[k].depends_on[j] == edges1[k]@[j]@);
            assert(dependency_target(pdeps[k][j], resolved@, local@) == Some(edges1[k]@[j]@));
            assert(ids[epos[k][j]] == edges1[k]@[j]@);
        }
        assert forall|k: int| 0 <= k < mdeps.len() implies ids.contains(#[trigger] g.root_ids()[k]) by {
            assert(g.root_ids()[k] == roots@[k]@);
            assert(dependency_target(mdeps[k], resolved@, local@) == Some(roots@[k]@));
            assert(ids[rpos[k]] == roots@[k]@);
        }
        assert forall|k: int| 0 <= k < mdeps.len() implies dependency_target(#[trigger] mdeps[k], resolved@, local@) == Some(g.root_ids()[k]) by {
            assert(g.root_ids()[k] == roots@[k]@);
        }
        assert forall|a: int| 0 <= a < ids.len() implies ids1[a] == ids[a] && (#[trigger] vals1[a]).package == vals[a].package by {
            assert(vals[a] == (EntryView { depends_on: ids_view(edges1[a]@), ..vals1[a] }));
        }
        lemma_package_edges_same(ids1, vals1, ids, vals, ids.len() as int);
        assert forall|k: int| 0 <= k < ids.len() implies (#[trigger] vals[k]).dependants == dependants_from(
            root_edges(root, mdeps) + package_edges(ids, vals, ids.len() as int), ids[k], vals[k].is_local, resolved@, local@) by {
            assert(vals[k] == (EntryView { depends_on: ids_view(edges1[k]@), ..vals1[k] }));
            assert(vals1[k].dependants == dependants_from(edges, ids1[k], vals1[k].is_local, resolved@, local@));
        }
        if locals_resolved(resolved@, local@) {
            assert forall|k: int| 0 <= k < ids.len() implies (latest(resolved@, (#[trigger] ids[k]).0) matches Some(v)
                && v@ == ids[k].1) by {
                assert(entry_sourced(ids[k], vals[k], resolved@, downloaded@, local@));
                if vals[k].is_local {
                    let j = choose|j: int| 0 <= j < local@.len() && (#[trigger] local@[j]).1@ == vals[k].package;
                    assert(local@[j].1@.name == local@[j].1.name@);
                }
            }
        }
    }
    Ok(g)
}

} // verus!
