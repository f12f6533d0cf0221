//! Version sets and the dependency provider that conflict-aware resolution
//! consults: which versions a requirement allows, which version to try for
//! a package, which packages to decide first, and what a version depends on.

use crate::package::{find_latest, latest, PackageName};
use crate::text::push_str;
use crate::version::{
    comparators_view, copy_versions, max_kept, opt_version_view, spec_req_matches, spec_version_order, version_view_ok,
    versions_view, ComparatorView, Op, Version, VersionReq, VersionView,
};
use pubgrub::Ranges;
use semver::{BuildMetadata as SemverBuild, Prerelease as SemverPre, Version as SemverVersion};
use vstd::prelude::*;

verus! {

/// `version_ranges::Ranges` (which `pubgrub` re-exports): a set of versions
/// held as sorted intervals.
#[verifier::external_type_specification]
#[verifier::external_body]
#[verifier::reject_recursive_types(V)]
pub struct ExRanges<V>(Ranges<V>);

/// The `Version` of the `semver` crate, which resolution's version sets hold.
#[verifier::external_type_specification]
#[verifier::external_body]
pub struct ExSemverVersion(SemverVersion);

/// The versions that a version set holds, each taken by its plain values.
pub uninterp spec fn spec_set_versions(r: Ranges<SemverVersion>) -> Set<VersionView>;

/// The versions that compare equal to a version.
pub open spec fn singleton_set(v: VersionView) -> Set<VersionView> {
    Set::new(|x: VersionView| spec_version_order(x, v) == 0)
}

/// The versions below a version.
pub open spec fn lower_set(v: VersionView) -> Set<VersionView> {
    Set::new(|x: VersionView| spec_version_order(x, v) < 0)
}

/// The versions from `lo` (included) up to `hi` (excluded).
pub open spec fn between_set(lo: VersionView, hi: VersionView) -> Set<VersionView> {
    Set::new(|x: VersionView| spec_version_order(x, lo) >= 0 && spec_version_order(x, hi) < 0)
}

/// `Ranges::full`: the set of all versions.
#[verifier::external_body]
fn ranges_full() -> (r: Ranges<SemverVersion>)
    ensures
        spec_set_versions(r) == Set::<VersionView>::full(),
{
    Ranges::full()
}

/// `Ranges::empty`: the set of no version.
#[verifier::external_body]
fn ranges_empty() -> (r: Ranges<SemverVersion>)
    ensures
        spec_set_versions(r) == Set::<VersionView>::empty(),
{
    Ranges::empty()
}

/// `Ranges::singleton`: the interval from the version to the version, both
/// included, which holds the versions that compare equal to it.
#[verifier::external_body]
fn ranges_singleton(v: &Version) -> (r: Ranges<SemverVersion>)
    requires
        version_view_ok(v@),
    ensures
        spec_set_versions(r) == singleton_set(v@),
{
    Ranges::singleton(SemverVersion {
        major: v.major(),
        minor: v.minor(),
        patch: v.patch(),
        pre: SemverPre::new(v.pre()).unwrap(),
        build: SemverBuild::new(v.build()).unwrap(),
    })
}

/// `Ranges::strictly_lower_than`: the versions below the version.
#[verifier::external_body]
fn ranges_strictly_lower_than(v: &Version) -> (r: Ranges<SemverVersion>)
    requires
        version_view_ok(v@),
    ensures
        spec_set_versions(r) == lower_set(v@),
{
    Ranges::strictly_lower_than(SemverVersion {
        major: v.major(),
        minor: v.minor(),
        patch: v.patch(),
        pre: SemverPre::new(v.pre()).unwrap(),
        build: SemverBuild::new(v.build()).unwrap(),
    })
}

/// `Ranges::between`: the versions from `lo` (included) up to `hi`
/// (excluded). The crate's sets hold only intervals that some version fits
/// in (checked in debug builds), so `lo` must lie below `hi`.
#[verifier::external_body]
fn ranges_between(lo: &Version, hi: &Version) -> (r: Ranges<SemverVersion>)
    requires
        version_view_ok(lo@),
        version_view_ok(hi@),
        spec_version_order(lo@, hi@) < 0,
    ensures
        spec_set_versions(r) == between_set(lo@, hi@),
{
    let a = SemverVersion::new(lo.major(), lo.minor(), lo.patch());
    let b = SemverVersion::new(hi.major(), hi.minor(), hi.patch());
    Ranges::between(
        SemverVersion { pre: SemverPre::new(lo.pre()).unwrap(), build: SemverBuild::new(lo.build()).unwrap(), ..a },
        SemverVersion { pre: SemverPre::new(hi.pre()).unwrap(), build: SemverBuild::new(hi.build()).unwrap(), ..b },
    )
}

/// `Ranges::complement`: the versions the set does not hold.
#[verifier::external_body]
fn ranges_complement(r: &Ranges<SemverVersion>) -> (c: Ranges<SemverVersion>)
    ensures
        spec_set_versions(c) == spec_set_versions(*r).complement(),
{
    r.complement()
}

/// `Ranges::intersection`: the versions both sets hold.
#[verifier::external_body]
fn ranges_intersection(a: &Ranges<SemverVersion>, b: &Ranges<SemverVersion>) -> (r: Ranges<SemverVersion>)
    ensures
        spec_set_versions(r) == spec_set_versions(*a).intersect(spec_set_versions(*b)),
{
    a.intersection(b)
}

/// `Ranges::union`: the versions either set holds.
#[verifier::external_body]
fn ranges_union(a: &Ranges<SemverVersion>, b: &Ranges<SemverVersion>) -> (r: Ranges<SemverVersion>)
    ensures
        spec_set_versions(r) == spec_set_versions(*a).union(spec_set_versions(*b)),
{
    a.union(b)
}

/// `Ranges::contains`: whether the set holds the version.
#[verifier::external_body]
fn ranges_contains(r: &Ranges<SemverVersion>, v: &Version) -> (b: bool)
    requires
        version_view_ok(v@),
    ensures
        b == spec_set_versions(*r).contains(v@),
{
    r.contains(&SemverVersion {
        major: v.major(),
        minor: v.minor(),
        patch: v.patch(),
        pre: SemverPre::new(v.pre()).unwrap(),
        build: SemverBuild::new(v.build()).unwrap(),
    })
}

/// Whether the version set holds the version.
fn set_contains(range: &Ranges<SemverVersion>, v: &Version) -> (r: bool)
    ensures
        r == spec_set_versions(*range).contains(v@),
{
    proof {
        use_type_invariant(v);
    }
    ranges_contains(range, v)
}

/// The version `major.minor.patch` with the given pre-release and no build
/// metadata; missing numbers are 0.
pub open spec fn comparator_version(c: ComparatorView) -> VersionView {
    VersionView {
        major: c.major,
        minor: match c.minor { Some(m) => m, None => 0 },
        patch: match c.patch { Some(p) => p, None => 0 },
        pre: c.pre,
        build: Seq::empty(),
    }
}

/// The plain version `major.minor.patch`.
pub open spec fn plain_version(major: u64, minor: u64, patch: u64) -> VersionView {
    VersionView { major, minor, patch, pre: Seq::empty(), build: Seq::empty() }
}

/// Whether the comparator leaves out the minor or the patch number.
pub open spec fn is_partial(c: ComparatorView) -> bool {
    c.minor is None || c.patch is None
}

/// Whether the first version past a partial comparator's prefix stays within
/// `u64`: the major number where the minor is left out, else the minor number.
pub open spec fn partial_fits(c: ComparatorView) -> bool {
    match c.minor {
        Some(m) => m < u64::MAX,
        None => c.major < u64::MAX,
    }
}

/// Whether the bounds that a comparator implies stay within `u64`.
pub open spec fn comparator_fits(c: ComparatorView) -> bool {
    match c.op {
        Op::Exact | Op::Greater | Op::LessEq => is_partial(c) ==> partial_fits(c),
        Op::Tilde => partial_fits(c),
        Op::Caret => if c.major > 0 {
            c.major < u64::MAX
        } else {
            match c.minor {
                Some(m) => if m > 0 { m < u64::MAX } else {
                    match c.patch { Some(p) => p < u64::MAX, None => true }
                },
                None => true,
            }
        },
        Op::Wildcard => partial_fits(c),
        _ => true,
    }
}

/// The exclusive upper end of a caret requirement `^major.minor.patch`.
pub open spec fn caret_upper(c: ComparatorView) -> VersionView {
    if c.major > 0 {
        plain_version((c.major + 1) as u64, 0, 0)
    } else {
        match c.minor {
            Some(m) => if m > 0 {
                plain_version(0, (m + 1) as u64, 0)
            } else {
                match c.patch {
                    Some(p) => plain_version(0, 0, (p + 1) as u64),
                    None => plain_version(0, 1, 0),
                }
            },
            None => plain_version(1, 0, 0),
        }
    }
}

/// The versions from `lo` up to `hi` (excluded); none where `lo` does not lie below `hi`.
pub open spec fn interval_set(lo: VersionView, hi: VersionView) -> Set<VersionView> {
    if spec_version_order(lo, hi) < 0 {
        between_set(lo, hi)
    } else {
        Set::empty()
    }
}

/// The first version past a partial comparator's prefix: `(X+1).0.0` for
/// `X`, `X.(Y+1).0` for `X.Y` (and for `X.Y.Z`, whose prefix `~` keeps).
pub open spec fn partial_upper(c: ComparatorView) -> VersionView {
    match c.minor {
        Some(m) => plain_version(c.major, (m + 1) as u64, 0),
        None => plain_version((c.major + 1) as u64, 0, 0),
    }
}

/// The versions one comparator allows, as `semver` reads it, built from
/// version sets. A full comparator `=v` allows the versions equal to `v`, `>v`
/// those neither below nor equal to it, `>=v` those not below it, `<v` those
/// below it, `<=v` those below or equal to it. A comparator that leaves out
/// numbers speaks of its prefix (`X` or `X.Y`): `=`, `~` and `*` allow the
/// versions with that prefix, `>` those past it, `>=` those from its start
/// on, `<` those before it, `<=` those up to its end. `~X.Y.Z` allows the
/// versions from `X.Y.Z` up to `X.(Y+1).0`; `^` allows the versions from the
/// comparator's version up to its caret end.
pub open spec fn comparator_set(c: ComparatorView) -> Set<VersionView> {
    let v = comparator_version(c);
    match c.op {
        Op::Exact => if is_partial(c) { interval_set(v, partial_upper(c)) } else { singleton_set(v) },
        Op::Greater => if is_partial(c) {
            lower_set(partial_upper(c)).complement()
        } else {
            lower_set(v).complement().intersect(singleton_set(v).complement())
        },
        Op::GreaterEq => lower_set(v).complement(),
        Op::Less => lower_set(v),
        Op::LessEq => if is_partial(c) { lower_set(partial_upper(c)) } else { lower_set(v).union(singleton_set(v)) },
        Op::Tilde => interval_set(v, partial_upper(c)),
        Op::Caret => interval_set(v, caret_upper(c)),
        Op::Wildcard => interval_set(v, partial_upper(c)),
    }
}

/// The versions a requirement allows: those every comparator allows.
pub open spec fn req_set(req: Seq<ComparatorView>) -> Set<VersionView> {
    Set::new(|v: VersionView| forall|i: int| 0 <= i < req.len() ==> #[trigger] comparator_set(req[i]).contains(v))
}

/// The interval `[min, max)`; the empty set where `min` does not lie below `max`.
pub fn range_between(min: &Version, max: &Version) -> (r: Ranges<SemverVersion>)
    ensures
        spec_set_versions(r) == interval_set(min@, max@),
{
    proof {
        use_type_invariant(min);
        use_type_invariant(max);
    }
    if min.compare(max) < 0 {
        ranges_between(min, max)
    } else {
        ranges_empty()
    }
}

/// The upper end of a caret comparator (`^1.2.3` := `>=1.2.3, <2.0.0`,
/// `^0.2.3` := `>=0.2.3, <0.3.0`, `^0.0.3` := `>=0.0.3, <0.0.4`).
fn caret_upper_version(c: &crate::version::Comparator) -> (v: Version)
    requires
        c@.op == Op::Caret,
        comparator_fits(c@),
    ensures
        v@ == caret_upper(c@),
{
    let major = c.major();
    if major > 0 {
        Version::new(major + 1, 0, 0)
    } else {
        match c.minor() {
            Some(m) => if m > 0 {
                Version::new(0, m + 1, 0)
            } else {
                match c.patch() {
                    Some(p) => Version::new(0, 0, p + 1),
                    None => Version::new(0, 1, 0),
                }
            },
            None => Version::new(1, 0, 0),
        }
    }
}

/// The first version past a partial comparator's prefix.
fn partial_upper_version(c: &crate::version::Comparator) -> (v: Version)
    requires
        partial_fits(c@),
    ensures
        v@ == partial_upper(c@),
{
    match c.minor() {
        Some(m) => Version::new(c.major(), m + 1, 0),
        None => Version::new(c.major() + 1, 0, 0),
    }
}

/// Converts one comparator to the set of versions it allows.
pub fn comparator_to_ranges(c: &crate::version::Comparator) -> (r: Ranges<SemverVersion>)
    requires
        comparator_fits(c@),
    ensures
        spec_set_versions(r) == comparator_set(c@),
{
    let v = c.version();
    proof {
        use_type_invariant(&v);
    }
    let partial = c.minor().is_none() || c.patch().is_none();
    match c.op() {
        Op::Exact => if partial {
            range_between(&v, &partial_upper_version(c))
        } else {
            ranges_singleton(&v)
        },
        Op::Greater => if partial {
            let end = partial_upper_version(c);
            proof {
                use_type_invariant(&end);
            }
            ranges_complement(&ranges_strictly_lower_than(&end))
        } else {
            let below = ranges_strictly_lower_than(&v);
            let same = ranges_singleton(&v);
            ranges_intersection(&ranges_complement(&below), &ranges_complement(&same))
        },
        Op::GreaterEq => ranges_complement(&ranges_strictly_lower_than(&v)),
        Op::Less => ranges_strictly_lower_than(&v),
        Op::LessEq => if partial {
            let end = partial_upper_version(c);
            proof {
                use_type_invariant(&end);
            }
            ranges_strictly_lower_than(&end)
        } else {
            ranges_union(&ranges_strictly_lower_than(&v), &ranges_singleton(&v))
        },
        Op::Tilde => range_between(&v, &partial_upper_version(c)),
        Op::Caret => range_between(&v, &caret_upper_version(c)),
        Op::Wildcard => range_between(&v, &partial_upper_version(c)),
    }
}

/// Converts a version requirement to the set of versions it allows: the
/// intersection of its comparators' sets (all versions where there is no
/// comparator).
pub fn version_req_to_ranges(req: &VersionReq) -> (r: Ranges<SemverVersion>)
    requires
        forall|i: int| 0 <= i < req@.len() ==> comparator_fits(#[trigger] req@[i]),
    ensures
        spec_set_versions(r) == req_set(req@),
{
    let cs = req.comparators();
    let mut result = ranges_full();
    let mut i: usize = 0;
    while i < cs.len()
        invariant
            comparators_view(cs@) == req@,
            forall|k: int| 0 <= k < req@.len() ==> comparator_fits(#[trigger] req@[k]),
            i <= cs@.len(),
            spec_set_versions(result) == Set::new(|v: VersionView|
                forall|j: int| 0 <= j < i ==> #[trigger] comparator_set(req@[j]).contains(v)),
        decreases cs@.len() - i,
    {
        assert(req@[i as int] == cs@[i as int]@);
        let ghost before = spec_set_versions(result);
        let set = comparator_to_ranges(&cs[i]);
        result = ranges_intersection(&result, &set);
        i = i + 1;
        assert(spec_set_versions(result) =~= Set::new(|v: VersionView|
            forall|j: int| 0 <= j < i ==> #[trigger] comparator_set(req@[j]).contains(v))) by {
            assert forall|v: VersionView| spec_set_versions(result).contains(v) implies
                (forall|j: int| 0 <= j < i ==> #[trigger] comparator_set(req@[j]).contains(v)) by {
                assert forall|j: int| 0 <= j < i implies #[trigger] comparator_set(req@[j]).contains(v) by {
                    if j < i - 1 {
                        assert(before.contains(v));
                    }
                }
            }
            assert forall|v: VersionView| (forall|j: int| 0 <= j < i ==> #[trigger] comparator_set(req@[j]).contains(v))
                implies spec_set_versions(result).contains(v) by {
                assert(comparator_set(req@[i - 1]).contains(v));
                assert forall|j: int| 0 <= j < i - 1 implies #[trigger] comparator_set(req@[j]).contains(v) by {
                    assert(comparator_set(req@[j]).contains(v));
                }
            }
        }
    }
    assert(spec_set_versions(result) =~= req_set(req@));
    result
}

/// A package identifier for resolution: the resolution root or a named package.
#[derive(Debug)]
pub enum PubGrubPackage {
    /// The root package being resolved
    Root,
    /// A regular package dependency
    Package(PackageName),
}

/// Abstract value of a [`PubGrubPackage`].
pub enum PackageIdView {
    Root,
    Package(Seq<char>),
}

impl View for PubGrubPackage {
    type V = PackageIdView;

    open spec fn view(&self) -> PackageIdView {
        match self {
            PubGrubPackage::Root => PackageIdView::Root,
            PubGrubPackage::Package(n) => PackageIdView::Package(n@),
        }
    }
}

impl PubGrubPackage {
    /// The identifier of a named package.
    pub fn from_name(name: PackageName) -> (r: PubGrubPackage)
        ensures
            r@ == PackageIdView::Package(name@),
    {
        PubGrubPackage::Package(name)
    }

    /// The text of the identifier: `root`, or the package name.
    pub fn to_string(&self) -> (s: String)
        ensures
            s@ == (match self@ {
                PackageIdView::Root => seq!['r', 'o', 'o', 't'],
                PackageIdView::Package(n) => n,
            }),
    {
        match self {
            PubGrubPackage::Root => {
                let mut s = String::new();
                push_str(&mut s, "root");
                proof {
                    reveal_strlit("root");
                }
                assert(s@ =~= seq!['r', 'o', 'o', 't']);
                s
            },
            PubGrubPackage::Package(n) => n.to_string(),
        }
    }

    /// A copy of this identifier.
    pub fn duplicate(&self) -> (r: PubGrubPackage)
        ensures
            r@ == self@,
    {
        match self {
            PubGrubPackage::Root => PubGrubPackage::Root,
            PubGrubPackage::Package(n) => PubGrubPackage::Package(n.duplicate()),
        }
    }
}

/// A dependency with its version requirement.
#[derive(Debug)]
pub struct PackageDependency {
    /// The package name
    pub package: PackageName,
    /// The version requirement for this dependency
    pub version_req: VersionReq,
}

/// Package data that resolution consults.
#[derive(Debug)]
pub struct PackageInfo {
    /// Available versions of this package
    pub versions: Vec<Version>,
    /// Dependencies of versions, by version; a later entry for a version
    /// replaces an earlier one
    pub dependencies: Vec<(Version, Vec<PackageDependency>)>,
}

/// The dependencies last recorded for a version, if any.
pub open spec fn deps_of(table: Seq<(Version, Vec<PackageDependency>)>, v: VersionView) -> Option<Seq<PackageDependency>>
    decreases table.len(),
{
    if table.len() == 0 {
        None
    } else if table.last().0@ == v {
        Some(table.last().1@)
    } else {
        deps_of(table.drop_last(), v)
    }
}

/// A version that resolution may pick: one whose dependencies are known, or
/// any where no dependency data is known at all.
pub open spec fn viable(info: PackageInfo, v: VersionView) -> bool {
    info.dependencies@.len() == 0 || deps_of(info.dependencies@, v) is Some
}

/// The version resolution tries for a package: the preferred version where
/// the range allows it and it is viable, else the greatest viable version in
/// the range.
pub open spec fn spec_choose(info: Option<PackageInfo>, preferred: Option<Version>, range: Ranges<SemverVersion>) -> Option<VersionView> {
    match info {
        None => None,
        Some(info) => {
            if preferred is Some && spec_set_versions(range).contains(preferred->0@) && viable(info, preferred->0@) {
                Some(preferred->0@)
            } else {
                max_kept(versions_view(info.versions@), |v: VersionView| spec_set_versions(range).contains(v) && viable(info, v))
            }
        },
    }
}

/// How many versions of the sequence the predicate keeps.
pub open spec fn count_kept(s: Seq<VersionView>, keep: spec_fn(VersionView) -> bool) -> nat
    decreases s.len(),
{
    if s.len() == 0 {
        0
    } else {
        count_kept(s.drop_last(), keep) + if keep(s.last()) { 1nat } else { 0nat }
    }
}

/// The number of viable versions of a package in the range.
pub open spec fn viable_in_range(info: PackageInfo, range: Ranges<SemverVersion>) -> nat {
    count_kept(versions_view(info.versions@), |v: VersionView| spec_set_versions(range).contains(v) && viable(info, v))
}

/// The priority of a package: the root first, then the package with the
/// fewest viable versions in its range; an unknown package last.
pub open spec fn spec_priority(info: Option<PackageInfo>, is_root: bool, range: Ranges<SemverVersion>) -> u32 {
    if is_root {
        u32::MAX
    } else {
        match info {
            None => 0,
            Some(info) => (u32::MAX - (viable_in_range(info, range) as u32)) as u32,
        }
    }
}

/// Whether every comparator of the requirement keeps its bounds within `u64`.
pub open spec fn req_fits(req: Seq<ComparatorView>) -> bool {
    forall|i: int| 0 <= i < req.len() ==> comparator_fits(#[trigger] req[i])
}

/// Whether every requirement of the dependencies keeps its bounds within `u64`.
pub open spec fn deps_fit(deps: Seq<PackageDependency>) -> bool {
    forall|i: int| 0 <= i < deps.len() ==> req_fits((#[trigger] deps[i]).version_req@)
}

/// Whether the bounds that a comparator implies stay within `u64`.
pub fn comparator_within_bounds(c: &crate::version::Comparator) -> (r: bool)
    ensures
        r == comparator_fits(c@),
{
    let partial = c.minor().is_none() || c.patch().is_none();
    let prefix_fits = match c.minor() {
        Some(m) => m < u64::MAX,
        None => c.major() < u64::MAX,
    };
    match c.op() {
        Op::Exact | Op::Greater | Op::LessEq => !partial || prefix_fits,
        Op::Tilde => prefix_fits,
        Op::Caret => if c.major() > 0 {
            c.major() < u64::MAX
        } else {
            match c.minor() {
                Some(m) => if m > 0 { m < u64::MAX } else {
                    match c.patch() {
                        Some(p) => p < u64::MAX,
                        None => true,
                    }
                },
                None => true,
            }
        },
        Op::Wildcard => prefix_fits,
        _ => true,
    }
}

/// Whether every requirement of the dependencies keeps its bounds within
/// `u64`, as turning them into version sets needs.
pub fn dependencies_within_bounds(deps: &Vec<PackageDependency>) -> (r: bool)
    ensures
        r == deps_fit(deps@),
{
    let mut i: usize = 0;
    while i < deps.len()
        invariant
            i <= deps@.len(),
            forall|k: int| 0 <= k < i ==> req_fits((#[trigger] deps@[k]).version_req@),
        decreases deps@.len() - i,
    {
        let cs = deps[i].version_req.comparators();
        let mut j: usize = 0;
        while j < cs.len()
            invariant
                i < deps@.len(),
                comparators_view(cs@) == deps@[i as int].version_req@,
                j <= cs@.len(),
                forall|m: int| 0 <= m < j ==> comparator_fits(#[trigger] deps@[i as int].version_req@[m]),
            decreases cs@.len() - j,
        {
            if !comparator_within_bounds(&cs[j]) {
                assert(!req_fits(deps@[i as int].version_req@)) by {
                    assert(deps@[i as int].version_req@[j as int] == cs@[j as int]@);
                }
                return false;
            }
            assert(deps@[i as int].version_req@[j as int] == cs@[j as int]@);
            j = j + 1;
        }
        i = i + 1;
    }
    true
}

/// Why resolution failed.
#[derive(Debug, Clone)]
pub struct ResolutionError {
    /// A human-readable explanation of why resolution failed
    pub message: String,
}

/// Dependencies of a package version, as resolution takes them.
#[derive(Debug)]
pub enum Dependencies {
    /// The dependencies, each a package and the versions it allows; a later
    /// entry for a package replaces an earlier one
    Available(Vec<(PubGrubPackage, Ranges<SemverVersion>)>),
    /// The package is unknown; the text says why
    Unavailable(String),
}

/// Whether the list holds, in order, each dependency with the versions its requirement allows.
pub open spec fn constraints_of(list: Seq<(PubGrubPackage, Ranges<SemverVersion>)>, deps: Seq<PackageDependency>) -> bool {
    &&& list.len() == deps.len()
    &&& forall|i: int| 0 <= i < deps.len() ==> (#[trigger] list[i]).0@ == PackageIdView::Package(deps[i].package@)
    &&& forall|i: int| 0 <= i < deps.len() ==> spec_set_versions((#[trigger] list[i]).1) == req_set(deps[i].version_req@)
}

/// The text `package NAME not found in registry`.
pub open spec fn not_found_message(name: Seq<char>) -> Seq<char> {
    seq!['p', 'a', 'c', 'k', 'a', 'g', 'e', ' '] + name
        + seq![' ', 'n', 'o', 't', ' ', 'f', 'o', 'u', 'n', 'd', ' ', 'i', 'n', ' ', 'r', 'e', 'g', 'i', 's', 't', 'r', 'y']
}

/// A dependency provider over package data gathered before resolution.
pub struct BuffrsDependencyProvider {
    packages: Vec<(PackageName, PackageInfo)>,
    root_deps: Vec<PackageDependency>,
    preferred_versions: Vec<(PackageName, Version)>,
}

impl BuffrsDependencyProvider {
    /// The registered package data: the value of a name is its last registration.
    pub closed spec fn package_entries(&self) -> Seq<(PackageName, PackageInfo)> {
        self.packages@
    }

    /// The preferred versions: the value of a name is the last one set.
    pub closed spec fn preferred_entries(&self) -> Seq<(PackageName, Version)> {
        self.preferred_versions@
    }

    /// The root package's dependencies.
    pub closed spec fn root_dependencies(&self) -> Seq<PackageDependency> {
        self.root_deps@
    }

    /// The package data registered under a name.
    pub open spec fn info_of(&self, name: Seq<char>) -> Option<PackageInfo> {
        latest(self.package_entries(), name)
    }

    /// The preferred version set for a name.
    pub open spec fn preferred_of(&self, name: Seq<char>) -> Option<Version> {
        latest(self.preferred_entries(), name)
    }

    /// The dependencies that resolution takes for a package version: the root's
    /// own, those recorded for the version, none where nothing is recorded for it.
    pub open spec fn dependencies_for(&self, package: PackageIdView, version: VersionView) -> Seq<PackageDependency> {
        match package {
            PackageIdView::Root => self.root_dependencies(),
            PackageIdView::Package(name) => match self.info_of(name) {
                Some(info) => match deps_of(info.dependencies@, version) {
                    Some(d) => d,
                    None => Seq::empty(),
                },
                None => Seq::empty(),
            },
        }
    }

    /// A provider with the given root dependencies and no package data.
    pub fn new(root_deps: Vec<PackageDependency>) -> (r: BuffrsDependencyProvider)
        ensures
            r.root_dependencies() == root_deps@,
            r.package_entries().len() == 0,
            r.preferred_entries().len() == 0,
    {
        BuffrsDependencyProvider { packages: Vec::new(), root_deps, preferred_versions: Vec::new() }
    }

    /// Registers the data of a package, replacing what was registered under its name.
    pub fn add_package(&mut self, name: PackageName, info: PackageInfo)
        ensures
            final(self).package_entries() == old(self).package_entries().push((name, info)),
            final(self).preferred_entries() == old(self).preferred_entries(),
            final(self).root_dependencies() == old(self).root_dependencies(),
    {
        self.packages.push((name, info));
    }

    /// Sets the version to prefer for a package (such as one pinned in a lockfile).
    pub fn set_preferred_version(&mut self, name: PackageName, version: Version)
        ensures
            final(self).preferred_entries() == old(self).preferred_entries().push((name, version)),
            final(self).package_entries() == old(self).package_entries(),
            final(self).root_dependencies() == old(self).root_dependencies(),
    {
        self.preferred_versions.push((name, version));
    }

    /// The available versions of a package, or `None` where it is unknown.
    pub fn get_versions(&self, name: &PackageName) -> (r: Option<Vec<Version>>)
        ensures
            (match self.info_of(name@) {
                Some(info) => r matches Some(vs) && versions_view(vs@) == versions_view(info.versions@),
                None => r is None,
            }),
    {
        match find_latest(&self.packages, name) {
            Some(i) => Some(copy_versions(&self.packages[i].1.versions)),
            None => None,
        }
    }

    /// The version to try for a package in a range: `0.0.0` for the root; for a
    /// named package the preferred version where the range allows it and its
    /// dependencies are known (or none are known for any version), else the
    /// greatest such version; `None` for an unknown package or where no version fits.
    pub fn choose_version(&self, package: &PubGrubPackage, range: &Ranges<SemverVersion>) -> (r: Option<Version>)
        ensures
            (match package@ {
                PackageIdView::Root => opt_version_view(r) == Some(plain_version(0, 0, 0)),
                PackageIdView::Package(name) => opt_version_view(r) == spec_choose(self.info_of(name), self.preferred_of(name), *range),
            }),
            (match (package@, r) {
                (PackageIdView::Package(name), Some(v)) => spec_set_versions(*range).contains(v@) && viable(self.info_of(name)->0, v@),
                _ => true,
            }),
    {
        match package {
            PubGrubPackage::Root => Some(Version::new(0, 0, 0)),
            PubGrubPackage::Package(name) => {
                let idx = find_latest(&self.packages, name);
                match idx {
                    None => None,
                    Some(i) => {
                        let info = &self.packages[i].1;
                        match find_latest(&self.preferred_versions, name) {
                            Some(j) => {
                                let p = &self.preferred_versions[j].1;
                                if set_contains(range, p) && is_viable(info, p) {
                                    return Some(p.duplicate());
                                }
                            },
                            None => {},
                        }
                        let r = max_viable_in_range(info, range);
                        proof {
                            lemma_max_kept_keeps(versions_view(info.versions@),
                                |v: VersionView| spec_set_versions(*range).contains(v) && viable(*info, v));
                        }
                        r
                    },
                }
            },
        }
    }

    /// How early resolution should decide a package: the root first
    /// (`u32::MAX`), then packages with fewer viable versions in their range
    /// (`u32::MAX` less that number, cut to its low 32 bits); an unknown package gets 0.
    pub fn prioritize(&self, package: &PubGrubPackage, range: &Ranges<SemverVersion>) -> (r: u32)
        ensures
            (match package@ {
                PackageIdView::Root => r == spec_priority(None, true, *range),
                PackageIdView::Package(name) => r == spec_priority(self.info_of(name), false, *range),
            }),
    {
        match package {
            PubGrubPackage::Root => u32::MAX,
            PubGrubPackage::Package(name) => {
                match find_latest(&self.packages, name) {
                    None => 0,
                    Some(i) => {
                        let count = count_viable_in_range(&self.packages[i].1, range);
                        let low = count as u32;
                        u32::MAX - low
                    },
                }
            },
        }
    }

    /// Whether the bounds of the requirements that resolution takes for a
    /// package version stay within `u64` (as `get_dependencies` needs).
    pub fn dependencies_fit(&self, package: &PubGrubPackage, version: &Version) -> (r: bool)
        ensures
            r == deps_fit(self.dependencies_for(package@, version@)),
    {
        match package {
            PubGrubPackage::Root => dependencies_within_bounds(&self.root_deps),
            PubGrubPackage::Package(name) => match find_latest(&self.packages, name) {
                None => true,
                Some(i) => match find_deps(&self.packages[i].1.dependencies, version) {
                    Some(k) => dependencies_within_bounds(&self.packages[i].1.dependencies[k].1),
                    None => true,
                },
            },
        }
    }

    /// The dependencies of a package version, each with the versions its
    /// requirement allows; `Unavailable` for an unknown package.
    pub fn get_dependencies(&self, package: &PubGrubPackage, version: &Version) -> (r: Dependencies)
        requires
            deps_fit(self.dependencies_for(package@, version@)),
        ensures
            (match (package@, r) {
                (PackageIdView::Package(name), Dependencies::Unavailable(msg)) =>
                    self.info_of(name) is None && msg@ == not_found_message(name),
                (p, Dependencies::Available(list)) =>
                    (p is Root || self.info_of(p->Package_0) is Some)
                    && constraints_of(list@, self.dependencies_for(p, version@)),
                _ => false,
            }),
    {
        match package {
            PubGrubPackage::Root => Dependencies::Available(constraints_for(&self.root_deps)),
            PubGrubPackage::Package(name) => {
                match find_latest(&self.packages, name) {
                    None => {
                        let mut msg = String::new();
                        push_str(&mut msg, "package ");
                        push_str(&mut msg, name.as_str());
                        push_str(&mut msg, " not found in registry");
                        proof {
                            reveal_strlit("package ");
                            reveal_strlit(" not found in registry");
                        }
                        assert(msg@ =~= not_found_message(name@));
                        Dependencies::Unavailable(msg)
                    },
                    Some(i) => {
                        let info = &self.packages[i].1;
                        match find_deps(&info.dependencies, version) {
                            Some(k) => Dependencies::Available(constraints_for(&info.dependencies[k].1)),
                            None => {
                                let empty: Vec<PackageDependency> = Vec::new();
                                Dependencies::Available(constraints_for(&empty))
                            },
                        }
                    },
                }
            },
        }
    }
}

/// Whether dependency data is known for the version, or for no version at all.
fn is_viable(info: &PackageInfo, v: &Version) -> (r: bool)
    ensures
        r == viable(*info, v@),
{
    info.dependencies.len() == 0 || find_deps(&info.dependencies, v).is_some()
}

/// The position of the dependency entry last recorded for the version.
fn find_deps(table: &Vec<(Version, Vec<PackageDependency>)>, v: &Version) -> (r: Option<usize>)
    ensures
        (match r {
            Some(i) => i < table@.len() && deps_of(table@, v@) == Some(table@[i as int].1@),
            None => deps_of(table@, v@) is None,
        }),
{
    let mut i: usize = table.len();
    assert(table@.take(i as int) =~= table@);
    while i > 0
        invariant
            i <= table@.len(),
            deps_of(table@, v@) == deps_of(table@.take(i as int), v@),
        decreases i,
    {
        assert(table@.take(i as int).drop_last() =~= table@.take(i - 1));
        if table[i - 1].0 == *v {
            return Some(i - 1);
        }
        i = i - 1;
    }
    None
}

/// The greatest viable version in the range (the last of equal greatest ones).
fn max_viable_in_range(info: &PackageInfo, range: &Ranges<SemverVersion>) -> (r: Option<Version>)
    ensures
        opt_version_view(r) == max_kept(versions_view(info.versions@), |v: VersionView| spec_set_versions(*range).contains(v) && viable(*info, v)),
{
    let ghost keep = |v: VersionView| spec_set_versions(*range).contains(v) && viable(*info, v);
    let ghost views = versions_view(info.versions@);
    let vs = &info.versions;
    let mut best: Option<usize> = None;
    let mut i: usize = 0;
    while i < vs.len()
        invariant
            views == versions_view(vs@),
            keep == (|v: VersionView| spec_set_versions(*range).contains(v) && viable(*info, v)),
            vs == &info.versions,
            i <= vs@.len(),
            match best {
                None => max_kept(views.take(i as int), keep) is None,
                Some(b) => b < i && max_kept(views.take(i as int), keep) == Some(vs@[b as int]@),
            },
        decreases vs@.len() - i,
    {
        assert(views.take(i + 1).drop_last() =~= views.take(i as int));
        assert(views.take(i + 1).last() == vs@[i as int]@);
        let ok = set_contains(range, &vs[i]) && is_viable(info, &vs[i]);
        if ok {
            match best {
                None => {
                    best = Some(i);
                },
                Some(b) => {
                    if vs[b].compare(&vs[i]) <= 0 {
                        best = Some(i);
                    }
                },
            }
        }
        i = i + 1;
    }
    assert(views.take(vs@.len() as int) =~= views);
    match best {
        None => None,
        Some(b) => Some(vs[b].duplicate()),
    }
}

/// The number of viable versions in the range.
fn count_viable_in_range(info: &PackageInfo, range: &Ranges<SemverVersion>) -> (r: usize)
    ensures
        r == viable_in_range(*info, *range),
{
    let ghost keep = |v: VersionView| spec_set_versions(*range).contains(v) && viable(*info, v);
    let ghost views = versions_view(info.versions@);
    let vs = &info.versions;
    let mut count: usize = 0;
    let mut i: usize = 0;
    while i < vs.len()
        invariant
            views == versions_view(vs@),
            keep == (|v: VersionView| spec_set_versions(*range).contains(v) && viable(*info, v)),
            vs == &info.versions,
            i <= vs@.len(),
            count == count_kept(views.take(i as int), keep),
            count <= i,
        decreases vs@.len() - i,
    {
        assert(views.take(i + 1).drop_last() =~= views.take(i as int));
        assert(views.take(i + 1).last() == vs@[i as int]@);
        if set_contains(range, &vs[i]) && is_viable(info, &vs[i]) {
            count = count + 1;
        }
        i = i + 1;
    }
    assert(views.take(vs@.len() as int) =~= views);
    count
}

/// Each dependency with the versions its requirement allows, in order.
fn constraints_for(deps: &Vec<PackageDependency>) -> (r: Vec<(PubGrubPackage, Ranges<SemverVersion>)>)
    requires
        deps_fit(deps@),
    ensures
        constraints_of(r@, deps@),
{
    let mut r: Vec<(PubGrubPackage, Ranges<SemverVersion>)> = Vec::new();
    let mut i: usize = 0;
    while i < deps.len()
        invariant
            deps_fit(deps@),
            i <= deps@.len(),
            r@.len() == i,
            forall|k: int| 0 <= k < i ==> (#[trigger] r@[k]).0@ == PackageIdView::Package(deps@[k].package@),
            forall|k: int| 0 <= k < i ==> spec_set_versions((#[trigger] r@[k]).1) == req_set(deps@[k].version_req@),
        decreases deps@.len() - i,
    {
        assert(req_fits(deps@[i as int].version_req@));
        let range = version_req_to_ranges(&deps[i].version_req);
        r.push((PubGrubPackage::Package(deps[i].package.duplicate()), range));
        i = i + 1;
    }
    r
}

/// What `max_kept` picks is a kept member of the sequence, and it picks
/// nothing exactly when nothing is kept.
pub proof fn lemma_max_kept_keeps(s: Seq<VersionView>, keep: spec_fn(VersionView) -> bool)
    ensures
        max_kept(s, keep) matches Some(m) ==> keep(m) && s.contains(m),
        max_kept(s, keep) is None <==> forall|i: int| 0 <= i < s.len() ==> !keep(#[trigger] s[i]),
    decreases s.len(),
{
    if s.len() > 0 {
        lemma_max_kept_keeps(s.drop_last(), keep);
        let prev = max_kept(s.drop_last(), keep);
        if let Some(m) = prev {
            let j = choose|j: int| 0 <= j < s.drop_last().len() && s.drop_last()[j] == m;
            assert(s[j] == m);
        }
        assert(s[s.len() - 1] == s.last());
        if max_kept(s, keep) is None {
            assert forall|i: int| 0 <= i < s.len() implies !keep(#[trigger] s[i]) by {
                if i < s.len() - 1 {
                    assert(s[i] == s.drop_last()[i]);
                }
            }
        }
        if forall|i: int| 0 <= i < s.len() ==> !keep(#[trigger] s[i]) {
            assert forall|i: int| 0 <= i < s.drop_last().len() implies !keep(#[trigger] s.drop_last()[i]) by {
                assert(s.drop_last()[i] == s[i]);
            }
        }
    }
}


/// The version chosen for a named package lies in the range, and its
/// dependencies are known (or none are known for any version).
pub proof fn lemma_choice_in_range(info: PackageInfo, preferred: Option<Version>, range: Ranges<SemverVersion>)
    ensures
        spec_choose(Some(info), preferred, range) matches Some(v) ==> spec_set_versions(range).contains(v) && viable(info, v),
{
    lemma_max_kept_keeps(versions_view(info.versions@), |v: VersionView| spec_set_versions(range).contains(v) && viable(info, v));
}

/// A comparator as `semver` writes one: the patch number only after a minor
/// one, and none in a wildcard.
pub open spec fn well_formed_comparator(c: ComparatorView) -> bool {
    &&& c.minor is None ==> c.patch is None
    &&& c.op is Wildcard ==> c.patch is None
}

/// For a plain version and a comparator without pre-release, the version set
/// of the comparator holds the version exactly where `semver` matches it.
proof fn lemma_comparator_set_matches(c: ComparatorView, v: VersionView)
    requires
        crate::version::is_plain(v),
        c.pre.len() == 0,
        well_formed_comparator(c),
        comparator_fits(c),
    ensures
        comparator_set(c).contains(v) == crate::version::plain_comparator_matches(c, v),
{
    reveal(spec_version_order);
    let cv = comparator_version(c);
    let pu = partial_upper(c);
    let cu = caret_upper(c);
    assert(crate::version::is_plain(cv));
    assert(crate::version::is_plain(pu));
    assert(crate::version::is_plain(cu));
    let below_cv = spec_version_order(v, cv) < 0;
    let equal_cv = spec_version_order(v, cv) == 0;
    assert(lower_set(cv).contains(v) == below_cv);
    assert(singleton_set(cv).contains(v) == equal_cv);
    assert(lower_set(pu).contains(v) == (spec_version_order(v, pu) < 0));
    match c.op {
        Op::Exact | Op::Wildcard | Op::Tilde => {
            if c.op is Tilde || is_partial(c) || c.op is Wildcard {
                assert(spec_version_order(cv, pu) < 0);
                assert(interval_set(cv, pu) == between_set(cv, pu));
                assert(between_set(cv, pu).contains(v) == (spec_version_order(v, cv) >= 0 && spec_version_order(v, pu) < 0));
                if c.minor is None {
                    assert(comparator_set(c).contains(v) == (v.major == c.major));
                } else if c.patch is None {
                    assert(comparator_set(c).contains(v) == (v.major == c.major && v.minor == c.minor->0));
                }
            }
        },
        Op::Caret => {
            assert(spec_version_order(cv, cu) < 0);
            assert(interval_set(cv, cu) == between_set(cv, cu));
            assert(between_set(cv, cu).contains(v) == (spec_version_order(v, cv) >= 0 && spec_version_order(v, cu) < 0));
        },
        _ => {},
    }
}

/// The version set of a requirement holds a plain version exactly where
/// `semver` matches the requirement against it, for comparators without
/// pre-release whose bounds stay within `u64`.
pub proof fn lemma_requirement_set_is_matching(req: Seq<ComparatorView>, v: VersionView)
    requires
        crate::version::is_plain(v),
        forall|i: int| 0 <= i < req.len() ==> (#[trigger] req[i]).pre.len() == 0 && well_formed_comparator(req[i]),
        req_fits(req),
    ensures
        req_set(req).contains(v) == spec_req_matches(req, v),
{
    assert forall|i: int| 0 <= i < req.len() implies #[trigger] comparator_set(req[i]).contains(v)
        == crate::version::plain_comparator_matches(req[i], v) by {
        assert(comparator_fits(req[i]));
        lemma_comparator_set_matches(req[i], v);
    }
    assert(crate::version::without_pre(req, v));
    assert(req_set(req).contains(v) == forall|i: int| 0 <= i < req.len() ==> #[trigger] comparator_set(req[i]).contains(v));
    if req_set(req).contains(v) {
        assert forall|i: int| 0 <= i < req.len() implies #[trigger] crate::version::plain_comparator_matches(req[i], v) by {
            assert(comparator_set(req[i]).contains(v));
        }
    }
    if spec_req_matches(req, v) {
        assert forall|i: int| 0 <= i < req.len() implies #[trigger] comparator_set(req[i]).contains(v) by {
            assert(crate::version::plain_comparator_matches(req[i], v));
        }
    }
}

} // verus!
