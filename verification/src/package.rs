//! Package names and packages.

use crate::manifest::{dependencies_view, opt_package_view, Dependency, DependencyView, Edition, Manifest, PackageManifestView};
use crate::version::{Version, VersionView};
use vstd::prelude::*;

verus! {

/// The name of a package, such as `lib-base`.
#[derive(Debug)]
pub struct PackageName {
    name: String,
}

impl View for PackageName {
    type V = Seq<char>;

    closed spec fn view(&self) -> Seq<char> {
        self.name@
    }
}

impl PackageName {
    /// A package name taken as it is.
    pub fn unchecked(name: &str) -> (r: PackageName)
        ensures
            r@ == name@,
    {
        PackageName { name: name.to_owned() }
    }

    /// The name as text.
    pub fn as_str(&self) -> (r: &str)
        ensures
            r@ == self@,
    {
        self.name.as_str()
    }

    /// The name as an owned string.
    pub fn to_string(&self) -> (r: String)
        ensures
            r@ == self@,
    {
        self.name.clone()
    }

    /// A copy of this name.
    pub fn duplicate(&self) -> (r: PackageName)
        ensures
            r@ == self@,
    {
        PackageName { name: self.name.clone() }
    }

    /// Whether two names are the same text.
    pub fn same(&self, other: &PackageName) -> (r: bool)
        ensures
            r == (self@ == other@),
    {
        self.name == other.name
    }
}

/// The value last recorded under a name in a table of `(name, value)`
/// entries, where a later entry replaces an earlier one with the same name.
pub open spec fn latest<T>(s: Seq<(PackageName, T)>, name: Seq<char>) -> Option<T>
    decreases s.len(),
{
    if s.len() == 0 {
        None
    } else if s.last().0@ == name {
        Some(s.last().1)
    } else {
        latest(s.drop_last(), name)
    }
}

/// The position of the entry that holds the value last recorded under the name.
pub fn find_latest<T>(s: &Vec<(PackageName, T)>, name: &PackageName) -> (r: Option<usize>)
    ensures
        (match r {
            Some(i) => i < s@.len() && s@[i as int].0@ == name@ && latest(s@, name@) == Some(s@[i as int].1),
            None => latest(s@, name@) is None,
        }),
{
    let mut i: usize = s.len();
    assert(s@.take(i as int) =~= s@);
    while i > 0
        invariant
            i <= s@.len(),
            latest(s@, name@) == latest(s@.take(i as int), name@),
        decreases i,
    {
        assert(s@.take(i as int).drop_last() =~= s@.take(i - 1));
        if s[i - 1].0.same(name) {
            return Some(i - 1);
        }
        i = i - 1;
    }
    None
}

impl PartialEq for PackageName {
    fn eq(&self, other: &PackageName) -> (r: bool) {
        self.name == other.name
    }
}

impl vstd::std_specs::cmp::PartialEqSpecImpl for PackageName {
    open spec fn obeys_eq_spec() -> bool {
        true
    }

    open spec fn eq_spec(&self, other: &PackageName) -> bool {
        self@ == other@
    }
}

impl Eq for PackageName {}

impl Clone for PackageName {
    fn clone(&self) -> (r: PackageName)
        ensures
            r@ == self@,
    {
        self.duplicate()
    }
}

/// Abstract value of a [`Package`].
pub struct PackageView {
    pub name: Seq<char>,
    pub version: VersionView,
    pub edition: Edition,
    pub section: Option<PackageManifestView>,
    pub dependencies: Seq<DependencyView>,
    pub tgz: Seq<u8>,
}

/// A materialized package: its name, version, manifest and compressed archive.
#[derive(Debug)]
pub struct Package {
    /// The package name
    pub name: PackageName,
    /// The package version
    pub version: Version,
    /// The package's manifest
    pub manifest: Manifest,
    /// The package archive (`.tgz`)
    pub tgz: Vec<u8>,
}

impl View for Package {
    type V = PackageView;

    open spec fn view(&self) -> PackageView {
        PackageView {
            name: self.name@,
            version: self.version@,
            edition: self.manifest.edition,
            section: opt_package_view(self.manifest.package),
            dependencies: dependencies_view(self.manifest.dependencies@),
            tgz: self.tgz@,
        }
    }
}

impl Package {
    /// The package name.
    pub fn name(&self) -> (r: &PackageName)
        ensures
            r@ == self@.name,
    {
        &self.name
    }

    /// The package version.
    pub fn version(&self) -> (r: &Version)
        ensures
            r@ == self@.version,
    {
        &self.version
    }

    /// A copy of this package.
    pub fn duplicate(&self) -> (r: Package)
        ensures
            r@ == self@,
            r.manifest@ == self.manifest@,
    {
        Package {
            name: self.name.duplicate(),
            version: self.version.duplicate(),
            manifest: self.manifest.duplicate(),
            tgz: self.tgz.clone(),
        }
    }
}

} // verus!
