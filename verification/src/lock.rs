//! The lockfile (`Proto.lock`): the exact packages an installation used.

use crate::digest::{from_hex, hex_decode, hex_lower, is_hex_text, lemma_hex_round_trip, sha256_digest, spec_sha256, to_hex_lower};
use crate::package::{Package, PackageName};
use crate::registry::{joinable, spec_url_set_path, ParsedUrl, RegistryError, RegistryRef, RegistryRefView, UrlView};
use crate::metadata::is_permutation;
use crate::text::{chars_of, lemma_text_lt_order, lemma_text_lt_transitive, push_char, push_str, str_eq, str_lt, text_lt};
use crate::version::{spec_req_matches, version_display, Version, VersionReq, VersionView};
use vstd::prelude::*;

verus! {

/// File name of the lockfile.
pub const LOCKFILE: &'static str = "Proto.lock";

/// The algorithm of a digest.
#[derive(Debug, Clone, Copy, PartialEq, Eq, Structural)]
pub enum DigestAlgorithm {
    /// SHA-256
    SHA256,
}

/// A digest of a package archive.
#[derive(Debug)]
pub struct Digest {
    /// The algorithm
    pub algorithm: DigestAlgorithm,
    /// The digest bytes
    pub value: Vec<u8>,
}

/// `sha256`
pub open spec fn algorithm_name(a: DigestAlgorithm) -> Seq<char> {
    seq!['s', 'h', 'a', '2', '5', '6']
}

/// The text of a digest: `algorithm:hex`.
pub open spec fn digest_text(a: DigestAlgorithm, value: Seq<u8>) -> Seq<char> {
    algorithm_name(a) + seq![':'] + hex_lower(value)
}

/// `sha256:`, the text before the hexadecimal digest.
pub open spec fn digest_prefix() -> Seq<char> {
    algorithm_name(DigestAlgorithm::SHA256) + seq![':']
}

/// Whether a text is a digest's text: `sha256:` and hexadecimal digits.
pub open spec fn is_digest_text(t: Seq<char>) -> bool {
    &&& t.len() >= digest_prefix().len()
    &&& t.take(digest_prefix().len() as int) == digest_prefix()
    &&& is_hex_text(t.skip(digest_prefix().len() as int))
}

/// The text of a digest reads back as the digest: it is a digest's text, and
/// its digits decode to the digest's bytes.
pub proof fn lemma_digest_text_round_trip(a: DigestAlgorithm, value: Seq<u8>)
    ensures
        is_digest_text(digest_text(a, value)),
        hex_decode(digest_text(a, value).skip(digest_prefix().len() as int)) == value,
{
    let t = digest_text(a, value);
    assert(t.take(7) =~= digest_prefix());
    assert(t.skip(7) =~= hex_lower(value));
    lemma_hex_round_trip(value);
}

impl DigestAlgorithm {
    /// The digest of the bytes under this algorithm.
    pub fn digest(&self, data: &[u8]) -> (r: Digest)
        ensures
            r.algorithm == *self,
            r.value@ == spec_sha256(data@),
    {
        Digest { algorithm: *self, value: sha256_digest(data) }
    }
}

impl Digest {
    /// Reads a digest from its text, `sha256:` and the hexadecimal digest
    /// (digits of either case); `None` for any other text.
    pub fn parse(text: &str) -> (r: Option<Digest>)
        ensures
            match r {
                Some(d) => is_digest_text(text@) && d.algorithm == DigestAlgorithm::SHA256
                    && d.value@ == hex_decode(text@.skip(digest_prefix().len() as int)),
                None => !is_digest_text(text@),
            },
    {
        let chars = chars_of(text);
        let prefix = chars_of("sha256:");
        proof {
            reveal_strlit("sha256:");
        }
        assert(prefix@ =~= digest_prefix());
        if chars.len() < prefix.len() {
            return None;
        }
        let mut i: usize = 0;
        while i < prefix.len()
            invariant
                prefix@ == digest_prefix(),
                chars@ == text@,
                prefix@.len() <= chars@.len(),
                i <= prefix@.len(),
                forall|k: int| 0 <= k < i ==> chars@[k] == prefix@[k],
            decreases prefix@.len() - i,
        {
            if chars[i] != prefix[i] {
                assert(chars@.take(7)[i as int] != digest_prefix()[i as int]);
                return None;
            }
            i = i + 1;
        }
        assert(chars@.take(7) =~= digest_prefix());
        match from_hex(&chars, prefix.len()) {
            Some(value) => Some(Digest { algorithm: DigestAlgorithm::SHA256, value }),
            None => None,
        }
    }

    /// Whether two digests are equal.
    pub fn same(&self, other: &Digest) -> (r: bool)
        ensures
            r == (self.algorithm == other.algorithm && self.value@ == other.value@),
    {
        if self.algorithm != other.algorithm || self.value.len() != other.value.len() {
            return false;
        }
        let mut i: usize = 0;
        while i < self.value.len()
            invariant
                self.value@.len() == other.value@.len(),
                i <= self.value@.len(),
                forall|k: int| 0 <= k < i ==> self.value@[k] == other.value@[k],
            decreases self.value@.len() - i,
        {
            if self.value[i] != other.value[i] {
                return false;
            }
            i = i + 1;
        }
        assert(self.value@ =~= other.value@);
        true
    }

    /// The text of the digest: `sha256:` and the lower-case hexadecimal digest.
    pub fn to_string(&self) -> (r: String)
        ensures
            r@ == digest_text(self.algorithm, self.value@),
    {
        let mut s = String::new();
        push_str(&mut s, "sha256");
        push_char(&mut s, ':');
        let hex = to_hex_lower(self.value.as_slice());
        push_str(&mut s, hex.as_str());
        proof {
            reveal_strlit("sha256");
        }
        assert(s@ =~= digest_text(self.algorithm, self.value@));
        s
    }

    /// A copy of this digest.
    pub fn duplicate(&self) -> (r: Digest)
        ensures
            r.algorithm == self.algorithm,
            r.value@ == self.value@,
    {
        Digest { algorithm: self.algorithm, value: self.value.clone() }
    }
}

/// A dependency of a locked package, by name and version.
#[derive(Debug)]
pub struct LockedDependency {
    /// The dependency's name
    pub name: PackageName,
    /// The dependency's version
    pub version: Version,
}

/// A package as a lockfile captures it.
#[derive(Debug)]
pub struct LockedPackage {
    /// The name of the package
    pub name: PackageName,
    /// The digest of the package archive
    pub digest: Digest,
    /// The registry the package was downloaded from
    pub registry: RegistryRef,
    /// The repository in the registry
    pub repository: String,
    /// The exact version of the package
    pub version: Version,
    /// Names of the package's dependencies
    pub dependencies: Vec<PackageName>,
    /// The resolved versions of the package's dependencies
    pub dependencies_resolved: Vec<LockedDependency>,
    /// How many packages depend on this one
    pub dependants: usize,
}

/// The names of a package's dependencies, in order.
pub open spec fn dependency_names(p: Package) -> Seq<Seq<char>> {
    p@.dependencies.map_values(|d: crate::manifest::DependencyView| d.package)
}

/// The views of package names.
pub open spec fn names_view(s: Seq<PackageName>) -> Seq<Seq<char>> {
    s.map_values(|n: PackageName| n@)
}

/// Which property of a package does not match its locked record, if any, in
/// the order name, version, digest.
pub enum LockCheck {
    Fine,
    Name,
    Version,
    Digest,
}

/// Why a package does not match its locked record.
#[derive(Debug)]
pub enum LockError {
    /// A property differs from the locked one
    Mismatch {
        /// `name`, `version` or `digest`
        property: String,
        /// The locked value
        expected: String,
        /// The package's value
        actual: String,
    },
}

impl LockedPackage {
    /// Captures the source, version and digest of a package.
    pub fn lock(package: &Package, registry: RegistryRef, repository: String, dependants: usize) -> (r: LockedPackage)
        ensures
            r.name@ == package@.name,
            r.version@ == package@.version,
            r.digest.algorithm == DigestAlgorithm::SHA256,
            r.digest.value@ == spec_sha256(package@.tgz),
            r.registry@ == registry@,
            r.repository@ == repository@,
            names_view(r.dependencies@) == dependency_names(*package),
            r.dependencies_resolved@.len() == 0,
            r.dependants == dependants,
    {
        let deps = &package.manifest.dependencies;
        let ghost target = dependency_names(*package);
        let mut names: Vec<PackageName> = Vec::new();
        let mut i: usize = 0;
        while i < deps.len()
            invariant
                i <= deps@.len(),
                target == crate::manifest::dependencies_view(deps@).map_values(|d: crate::manifest::DependencyView| d.package),
                names_view(names@) == target.take(i as int),
            decreases deps@.len() - i,
        {
            let ghost before = names@;
            names.push(deps[i].package.duplicate());
            assert(names_view(names@) =~= names_view(before).push(deps@[i as int].package@));
            i = i + 1;
            assert(names_view(names@) =~= target.take(i as int));
        }
        assert(target.take(i as int) =~= target);
        LockedPackage {
            name: package.name.duplicate(),
            digest: DigestAlgorithm::SHA256.digest(package.tgz.as_slice()),
            registry,
            repository,
            version: package.version.duplicate(),
            dependencies: names,
            dependencies_resolved: Vec::new(),
            dependants,
        }
    }

    /// This record with the resolved versions of its dependencies.
    pub fn with_resolved_dependencies(self, dependencies: Vec<LockedDependency>) -> (r: LockedPackage)
        ensures
            r.dependencies_resolved@ == dependencies@,
            r.name == self.name,
            r.version == self.version,
            r.digest == self.digest,
            r.registry == self.registry,
            r.repository == self.repository,
            r.dependencies == self.dependencies,
            r.dependants == self.dependants,
    {
        let mut r = self;
        r.dependencies_resolved = dependencies;
        r
    }

    /// Which property of the package differs from this record.
    pub open spec fn check(&self, package: Package) -> LockCheck {
        if self.name@ != package@.name {
            LockCheck::Name
        } else if self.version@ != package@.version {
            LockCheck::Version
        } else if !(self.digest.algorithm == DigestAlgorithm::SHA256 && self.digest.value@ == spec_sha256(package@.tgz)) {
            LockCheck::Digest
        } else {
            LockCheck::Fine
        }
    }

    /// Checks that a package is the one this record captured: same name,
    /// same version, same digest of its archive; names the first that differs.
    pub fn validate(&self, package: &Package) -> (r: Result<(), LockError>)
        ensures
            (match self.check(*package) {
                LockCheck::Fine => r is Ok,
                LockCheck::Name => r matches Err(LockError::Mismatch { property, expected, actual })
                    && property@ == seq!['n', 'a', 'm', 'e'] && expected@ == self.name@ && actual@ == package@.name,
                LockCheck::Version => r matches Err(LockError::Mismatch { property, expected, actual })
                    && property@ == seq!['v', 'e', 'r', 's', 'i', 'o', 'n']
                    && expected@ == version_display(self.version@) && actual@ == version_display(package@.version),
                LockCheck::Digest => r matches Err(LockError::Mismatch { property, expected, actual })
                    && property@ == seq!['d', 'i', 'g', 'e', 's', 't']
                    && expected@ == digest_text(self.digest.algorithm, self.digest.value@)
                    && actual@ == digest_text(DigestAlgorithm::SHA256, spec_sha256(package@.tgz)),
            }),
    {
        let digest = DigestAlgorithm::SHA256.digest(package.tgz.as_slice());
        proof {
            reveal_strlit("name");
            reveal_strlit("version");
            reveal_strlit("digest");
        }
        if !self.name.same(package.name()) {
            let property = "name".to_owned();
            assert(property@ =~= seq!['n', 'a', 'm', 'e']);
            return Err(LockError::Mismatch { property, expected: self.name.to_string(), actual: package.name().to_string() });
        }
        if !(self.version == *package.version()) {
            let property = "version".to_owned();
            assert(property@ =~= seq!['v', 'e', 'r', 's', 'i', 'o', 'n']);
            return Err(LockError::Mismatch {
                property,
                expected: self.version.to_string(),
                actual: package.version().to_string(),
            });
        }
        if !self.digest.same(&digest) {
            let property = "digest".to_owned();
            assert(property@ =~= seq!['d', 'i', 'g', 'e', 's', 't']);
            return Err(LockError::Mismatch { property, expected: self.digest.to_string(), actual: digest.to_string() });
        }
        Ok(())
    }
}

/// The packages of an installation.
#[derive(Debug)]
pub struct Lockfile {
    packages: Vec<LockedPackage>,
}

/// The package names that are locked in more than one version.
#[derive(Debug)]
pub struct LockfileMultiversionState {
    /// Package names that have multiple versions locked, each once.
    pub multiversion_packages: Vec<PackageName>,
}

impl LockfileMultiversionState {
    /// Whether any package is locked in more than one version.
    pub fn has_multiversion(&self) -> (r: bool)
        ensures
            r == (self.multiversion_packages@.len() > 0),
    {
        self.multiversion_packages.len() > 0
    }
}

/// How many records carry the name.
pub open spec fn name_count(s: Seq<LockedPackage>, name: Seq<char>) -> nat
    decreases s.len(),
{
    if s.len() == 0 {
        0
    } else {
        name_count(s.drop_last(), name) + if s.last().name@ == name { 1nat } else { 0nat }
    }
}

/// Whether a record matches a lookup: same name, a version the requirement
/// matches, and the registry and repository where they are given.
pub open spec fn record_matches(p: LockedPackage, name: Seq<char>, req: Seq<crate::version::ComparatorView>,
    registry: Option<RegistryRefView>, repository: Option<Seq<char>>) -> bool {
    &&& p.name@ == name
    &&& spec_req_matches(req, p.version@)
    &&& (registry matches Some(g) ==> p.registry@ == g)
    &&& (repository matches Some(r) ==> p.repository@ == r)
}

impl Lockfile {
    /// The locked packages, in order.
    pub closed spec fn records(&self) -> Seq<LockedPackage> {
        self.packages@
    }

    /// A lockfile of the given packages.
    pub fn from_packages(packages: Vec<LockedPackage>) -> (r: Lockfile)
        ensures
            r.records() == packages@,
    {
        Lockfile { packages }
    }

    /// An empty lockfile.
    pub fn new() -> (r: Lockfile)
        ensures
            r.records().len() == 0,
    {
        Lockfile { packages: Vec::new() }
    }

    /// The locked packages.
    pub fn packages(&self) -> (r: &Vec<LockedPackage>)
        ensures
            r@ == self.records(),
    {
        &self.packages
    }

    /// The first locked package with the name.
    pub fn get(&self, name: &PackageName) -> (r: Option<&LockedPackage>)
        ensures
            (match r {
                Some(p) => exists|i: int| 0 <= i < self.records().len() && self.records()[i] == *p
                    && p.name@ == name@ && forall|j: int| 0 <= j < i ==> (#[trigger] self.records()[j]).name@ != name@,
                None => forall|j: int| 0 <= j < self.records().len() ==> (#[trigger] self.records()[j]).name@ != name@,
            }),
    {
        let mut i: usize = 0;
        while i < self.packages.len()
            invariant
                i <= self.packages@.len(),
                forall|j: int| 0 <= j < i ==> (#[trigger] self.packages@[j]).name@ != name@,
            decreases self.packages@.len() - i,
        {
            if self.packages[i].name.same(name) {
                assert(self.records()[i as int] == self.packages@[i as int]);
                return Some(&self.packages[i]);
            }
            i = i + 1;
        }
        None
    }

    /// The names locked in more than one version, each once.
    pub fn multiversion_state(&self) -> (r: LockfileMultiversionState)
        ensures
            forall|n: Seq<char>| names_view(r.multiversion_packages@).contains(n) <==> name_count(self.records(), n) > 1,
            names_view(r.multiversion_packages@).no_duplicates(),
    {
        let ps = &self.packages;
        let mut out: Vec<PackageName> = Vec::new();
        let mut i: usize = 0;
        while i < ps.len()
            invariant
                i <= ps@.len(),
                names_view(out@).no_duplicates(),
                forall|n: Seq<char>| names_view(out@).contains(n) <==>
                    (name_count(ps@, n) > 1 && exists|k: int| 0 <= k < i && (#[trigger] ps@[k]).name@ == n),
            decreases ps@.len() - i,
        {
            let name = &ps[i].name;
            let count = count_name(ps, name);
            let already = contains_name(&out, name);
            let ghost old_out = names_view(out@);
            if count > 1 && !already {
                out.push(name.duplicate());
                assert(names_view(out@) =~= old_out.push(name@));
            }
            assert forall|n: Seq<char>| names_view(out@).contains(n) <==>
                (name_count(ps@, n) > 1 && exists|k: int| 0 <= k < i + 1 && (#[trigger] ps@[k]).name@ == n) by {
                let here = exists|k: int| 0 <= k < i && (#[trigger] ps@[k]).name@ == n;
                if n == name@ {
                    assert(ps@[i as int].name@ == n);
                    if count > 1 && !already {
                        assert(names_view(out@)[old_out.len() as int] == n);
                    }
                } else {
                    if names_view(out@).contains(n) {
                        let j = choose|j: int| 0 <= j < names_view(out@).len() && names_view(out@)[j] == n;
                        if j < old_out.len() {
                            assert(old_out[j] == n);
                        }
                        assert(old_out.contains(n));
                    }
                    if old_out.contains(n) {
                        let j = choose|j: int| 0 <= j < old_out.len() && old_out[j] == n;
                        assert(names_view(out@)[j] == n);
                    }
                    if exists|k: int| 0 <= k < i + 1 && (#[trigger] ps@[k]).name@ == n {
                        let k = choose|k: int| 0 <= k < i + 1 && (#[trigger] ps@[k]).name@ == n;
                        assert(k < i);
                    }
                }
            }
            i = i + 1;
        }
        proof {
            assert forall|n: Seq<char>| name_count(ps@, n) > 1 implies exists|k: int| 0 <= k < ps@.len() && (#[trigger] ps@[k]).name@ == n by {
                lemma_count_positive(ps@, n);
            }
        }
        LockfileMultiversionState { multiversion_packages: out }
    }

    /// The first locked package with the name, a version the requirement
    /// matches, and the registry and repository where they are given.
    pub fn find(&self, name: &PackageName, version_req: &VersionReq, registry: Option<&RegistryRef>, repository: Option<&str>)
        -> (r: Option<&LockedPackage>)
        ensures
            (match r {
                Some(p) => exists|i: int| 0 <= i < self.records().len() && self.records()[i] == *p
                    && record_matches(*p, name@, version_req@, opt_ref_view(registry), opt_str_view(repository))
                    && forall|j: int| 0 <= j < i ==> !record_matches(#[trigger] self.records()[j], name@, version_req@,
                        opt_ref_view(registry), opt_str_view(repository)),
                None => forall|j: int| 0 <= j < self.records().len() ==> !record_matches(#[trigger] self.records()[j], name@,
                    version_req@, opt_ref_view(registry), opt_str_view(repository)),
            }),
    {
        let mut i: usize = 0;
        while i < self.packages.len()
            invariant
                i <= self.packages@.len(),
                forall|j: int| 0 <= j < i ==> !record_matches(#[trigger] self.packages@[j], name@, version_req@,
                    opt_ref_view(registry), opt_str_view(repository)),
            decreases self.packages@.len() - i,
        {
            let p = &self.packages[i];
            let registry_ok = match registry {
                Some(g) => p.registry.same(g),
                None => true,
            };
            let repository_ok = match repository {
                Some(r) => crate::text::str_eq(p.repository.as_str(), r),
                None => true,
            };
            if p.name.same(name) && version_req.matches(&p.version) && registry_ok && repository_ok {
                assert(self.records()[i as int] == *p);
                return Some(p);
            }
            i = i + 1;
        }
        None
    }
}

/// The view of an optional registry reference.
pub open spec fn opt_ref_view(r: Option<&RegistryRef>) -> Option<RegistryRefView> {
    match r {
        Some(g) => Some(g@),
        None => None,
    }
}

/// The view of an optional text.
pub open spec fn opt_str_view(r: Option<&str>) -> Option<Seq<char>> {
    match r {
        Some(s) => Some(s@),
        None => None,
    }
}

/// A name counted at least once occurs in the records.
proof fn lemma_count_positive(s: Seq<LockedPackage>, n: Seq<char>)
    requires
        name_count(s, n) > 0,
    ensures
        exists|k: int| 0 <= k < s.len() && (#[trigger] s[k]).name@ == n,
    decreases s.len(),
{
    if s.last().name@ == n {
        assert(s[s.len() - 1].name@ == n);
    } else {
        lemma_count_positive(s.drop_last(), n);
        let k = choose|k: int| 0 <= k < s.drop_last().len() && (#[trigger] s.drop_last()[k]).name@ == n;
        assert(s[k] == s.drop_last()[k]);
    }
}

/// How many records carry the name.
fn count_name(ps: &Vec<LockedPackage>, name: &PackageName) -> (r: usize)
    ensures
        r == name_count(ps@, name@),
{
    let mut c: usize = 0;
    let mut i: usize = 0;
    while i < ps.len()
        invariant
            i <= ps@.len(),
            c == name_count(ps@.take(i as int), name@),
            c <= i,
        decreases ps@.len() - i,
    {
        assert(ps@.take(i + 1).drop_last() =~= ps@.take(i as int));
        if ps[i].name.same(name) {
            c = c + 1;
        }
        i = i + 1;
    }
    assert(ps@.take(i as int) =~= ps@);
    c
}

/// Whether the names contain the name.
fn contains_name(names: &Vec<PackageName>, name: &PackageName) -> (r: bool)
    ensures
        r == names_view(names@).contains(name@),
{
    let mut i: usize = 0;
    while i < names.len()
        invariant
            i <= names@.len(),
            forall|j: int| 0 <= j < i ==> names@[j]@ != name@,
        decreases names@.len() - i,
    {
        if names[i].same(name) {
            assert(names_view(names@)[i as int] == name@);
            return true;
        }
        i = i + 1;
    }
    assert forall|j: int| 0 <= j < names_view(names@).len() implies names_view(names@)[j] != name@ by {
        assert(names_view(names@)[j] == names@[j]@);
    }
    false
}

/// A file to fetch: a package, where its archive lies, and its digest.
#[derive(Debug)]
pub struct FileRequirement {
    package: PackageName,
    url: ParsedUrl,
    digest: Digest,
}

/// The path of a locked archive under a registry path: `path/repository/name/name-version.tgz`.
pub open spec fn locked_archive_path(base: Seq<char>, repository: Seq<char>, name: Seq<char>, version: VersionView) -> Seq<char> {
    base + seq!['/'] + repository + seq!['/'] + name + seq!['/'] + name + seq!['-'] + version_display(version)
        + seq!['.', 't', 'g', 'z']
}

/// Whether a URL can take an archive path (see `joinable`).
pub open spec fn fits_file_address(u: UrlView, path: Seq<char>) -> bool {
    joinable(u, path)
}

/// Whether the file of a locked package can be named: its registry names a
/// URL that can take the archive's path.
pub open spec fn locked_file_available(p: LockedPackage) -> bool {
    match p.registry@ {
        RegistryRefView::Url(u) | RegistryRefView::ResolvedAlias(_, u) =>
            fits_file_address(u, locked_archive_path(u.path, p.repository@, p.name@, p.version@)),
        _ => false,
    }
}

/// Whether the error is the one naming the file of a locked package fails
/// with: `TooLong` for a URL that cannot take the path, `Registry` for a
/// registry that names no URL.
pub open spec fn locked_file_error(e: FileRequirementError, p: LockedPackage) -> bool {
    match p.registry@ {
        RegistryRefView::Url(_) | RegistryRefView::ResolvedAlias(_, _) => e is TooLong,
        _ => e is Registry,
    }
}

impl FileRequirement {
    /// The package.
    pub closed spec fn package_name(&self) -> Seq<char> {
        self.package@
    }

    /// Where the archive lies.
    pub closed spec fn location(&self) -> UrlView {
        self.url@
    }

    /// The digest of the archive.
    pub closed spec fn digest_value(&self) -> (DigestAlgorithm, Seq<u8>) {
        (self.digest.algorithm, self.digest.value@)
    }

    /// Where the archive lies.
    pub fn url(&self) -> (r: &ParsedUrl)
        ensures
            r@ == self.location(),
    {
        &self.url
    }

    /// The file of a package version in a registry: the registry URL with its
    /// path extended by `repository/name/name-version.tgz`; `Registry` with
    /// the reference's error where it names no URL (an unresolved alias),
    /// `TooLong` where the URL cannot take that path.
    pub fn new(registry: &RegistryRef, repository: &String, name: &PackageName, version: &Version, digest: &Digest)
        -> (r: Result<FileRequirement, FileRequirementError>)
        ensures
            (match registry@ {
                RegistryRefView::Url(u) | RegistryRefView::ResolvedAlias(_, u) =>
                    if fits_file_address(u, locked_archive_path(u.path, repository@, name@, version@)) {
                        r matches Ok(f)
                            && f.location() == spec_url_set_path(u, locked_archive_path(u.path, repository@, name@, version@))
                            && f.package_name() == name@
                            && f.digest_value() == (digest.algorithm, digest.value@)
                    } else {
                        r matches Err(FileRequirementError::TooLong)
                    },
                _ => r matches Err(FileRequirementError::Registry(_)),
            }),
    {
        let uri = match registry.to_uri() {
            Ok(u) => u,
            Err(e) => return Err(FileRequirementError::Registry(e)),
        };
        let mut path = uri.path().to_owned();
        push_char(&mut path, '/');
        push_str(&mut path, repository.as_str());
        push_char(&mut path, '/');
        push_str(&mut path, name.as_str());
        push_char(&mut path, '/');
        push_str(&mut path, name.as_str());
        push_char(&mut path, '-');
        let v = version.to_string();
        push_str(&mut path, v.as_str());
        push_str(&mut path, ".tgz");
        proof {
            reveal_strlit(".tgz");
        }
        assert(path@ =~= locked_archive_path(uri@.path, repository@, name@, version@));
        let url = uri.url();
        if !url.can_join(path.as_str()) {
            return Err(FileRequirementError::TooLong);
        }
        Ok(FileRequirement { package: name.duplicate(), url: url.with_path(path.as_str()), digest: digest.duplicate() })
    }

    /// The file a locked package lies in.
    pub fn from_locked(package: &LockedPackage) -> (r: Result<FileRequirement, FileRequirementError>)
        ensures
            locked_file_available(*package) ==> (r matches Ok(f) && is_locked_file(f, *package)),
            !locked_file_available(*package) ==> (r matches Err(e) && locked_file_error(e, *package)),
    {
        FileRequirement::new(&package.registry, &package.repository, &package.name, &package.version, &package.digest)
    }
}

/// Whether the file names the archive of the locked package: its address in
/// the registry, the package, and the digest.
pub open spec fn is_locked_file(f: FileRequirement, p: LockedPackage) -> bool {
    match p.registry@ {
        RegistryRefView::Url(u) | RegistryRefView::ResolvedAlias(_, u) =>
            f.location() == spec_url_set_path(u, locked_archive_path(u.path, p.repository@, p.name@, p.version@))
            && f.package_name() == p.name@
            && f.digest_value() == (p.digest.algorithm, p.digest.value@),
        _ => false,
    }
}

impl Lockfile {
    /// The files of all locked packages, in order; the error of the first
    /// package whose file cannot be named.
    pub fn file_requirements(&self) -> (r: Result<Vec<FileRequirement>, FileRequirementError>)
        ensures
            (forall|i: int| 0 <= i < self.records().len() ==> locked_file_available(#[trigger] self.records()[i]))
                ==> (r matches Ok(v) && v@.len() == self.records().len()
                    && forall|i: int| 0 <= i < v@.len() ==> is_locked_file(#[trigger] v@[i], self.records()[i])),
            r matches Err(e) ==> exists|i: int| 0 <= i < self.records().len()
                && !locked_file_available(#[trigger] self.records()[i])
                && locked_file_error(e, self.records()[i])
                && forall|j: int| 0 <= j < i ==> locked_file_available(#[trigger] self.records()[j]),
            r is Ok ==> forall|i: int| 0 <= i < self.records().len() ==> locked_file_available(#[trigger] self.records()[i]),
    {
        let mut out: Vec<FileRequirement> = Vec::new();
        let mut i: usize = 0;
        while i < self.packages.len()
            invariant
                i <= self.packages@.len(),
                out@.len() == i,
                forall|k: int| 0 <= k < i ==> locked_file_available(#[trigger] self.packages@[k]),
                forall|k: int| 0 <= k < i ==> is_locked_file(#[trigger] out@[k], self.packages@[k]),
                self.records() == self.packages@,
            decreases self.packages@.len() - i,
        {
            match FileRequirement::from_locked(&self.packages[i]) {
                Ok(f) => {
                    out.push(f);
                },
                Err(e) => {
                    return Err(e);
                },
            }
            i = i + 1;
        }
        Ok(out)
    }
}

/// Why the file of a package could not be named.
#[derive(Debug)]
pub enum FileRequirementError {
    /// The registry reference names no URL
    Registry(RegistryError),
    /// The URL and path are too long to join
    TooLong,
}

/// A sort key: a text, then a second text for equal first ones.
pub type SortKey = (Seq<char>, Seq<char>);

/// Whether key `a` sorts before key `b`.
pub open spec fn key_lt(a: SortKey, b: SortKey) -> bool {
    text_lt(a.0, b.0) || (a.0 == b.0 && text_lt(a.1, b.1))
}

/// Whether the keys are sorted.
pub open spec fn keys_sorted(s: Seq<SortKey>) -> bool {
    forall|a: int, b: int| 0 <= a < b < s.len() ==> !key_lt(#[trigger] s[b], #[trigger] s[a])
}

/// The order of keys is a strict order.
proof fn lemma_key_lt(a: SortKey, b: SortKey, c: SortKey)
    ensures
        key_lt(a, b) ==> !key_lt(b, a),
        key_lt(a, b) && key_lt(b, c) ==> key_lt(a, c),
{
    lemma_text_lt_order(a.0, b.0);
    lemma_text_lt_order(a.1, b.1);
    lemma_text_lt_order(a.0, a.0);
    if key_lt(a, b) && key_lt(b, c) {
        if text_lt(a.0, b.0) && text_lt(b.0, c.0) {
            lemma_text_lt_transitive(a.0, b.0, c.0);
        } else if a.0 == b.0 && b.0 == c.0 {
            lemma_text_lt_transitive(a.1, b.1, c.1);
        }
    }
}

/// The views of exec sort keys.
pub open spec fn keys_view(s: Seq<(String, String)>) -> Seq<SortKey> {
    s.map_values(|k: (String, String)| (k.0@, k.1@))
}

fn key_less(a: &(String, String), b: &(String, String)) -> (r: bool)
    ensures
        r == key_lt((a.0@, a.1@), (b.0@, b.1@)),
{
    str_lt(a.0.as_str(), b.0.as_str()) || (str_eq(a.0.as_str(), b.0.as_str()) && str_lt(a.1.as_str(), b.1.as_str()))
}

fn key_insertion_point(keys: &Vec<(String, String)>, order: &Vec<usize>, i: usize) -> (pos: usize)
    requires
        i < keys@.len(),
        forall|k: int| 0 <= k < order@.len() ==> 0 <= #[trigger] order@[k] < keys@.len(),
    ensures
        pos <= order@.len(),
        forall|a: int| 0 <= a < pos ==> !key_lt(keys_view(keys@)[i as int], #[trigger] keys_view(keys@)[order@[a] as int]),
        pos < order@.len() ==> key_lt(keys_view(keys@)[i as int], keys_view(keys@)[order@[pos as int] as int]),
{
    let mut pos: usize = 0;
    while pos < order.len()
        invariant
            i < keys@.len(),
            pos <= order@.len(),
            forall|k: int| 0 <= k < order@.len() ==> 0 <= #[trigger] order@[k] < keys@.len(),
            forall|a: int| 0 <= a < pos ==> !key_lt(keys_view(keys@)[i as int], #[trigger] keys_view(keys@)[order@[a] as int]),
        decreases order@.len() - pos,
    {
        if key_less(&keys[i], &keys[order[pos]]) {
            return pos;
        }
        pos = pos + 1;
    }
    pos
}

/// The positions of the keys in sorted order (equal keys in their order).
fn sorted_key_order(keys: &Vec<(String, String)>) -> (r: Vec<usize>)
    ensures
        is_permutation(r@.map_values(|k: usize| k as int), keys@.len() as int),
        keys_sorted(r@.map_values(|k: usize| keys_view(keys@)[k as int])),
{
    let ghost kv = keys_view(keys@);
    let n = keys.len();
    let mut order: Vec<usize> = Vec::new();
    let mut i: usize = 0;
    while i < n
        invariant
            n == keys@.len(),
            kv == keys_view(keys@),
            i <= n,
            is_permutation(order@.map_values(|k: usize| k as int), i as int),
            keys_sorted(order@.map_values(|k: usize| kv[k as int])),
        decreases n - i,
    {
        let ghost before = order@;
        let ghost ks = before.map_values(|k: usize| kv[k as int]);
        let ghost new = kv[i as int];
        assert forall|k: int| 0 <= k < order@.len() implies 0 <= #[trigger] order@[k] < keys@.len() by {
            assert(order@.map_values(|k: usize| k as int)[k] == order@[k] as int);
        }
        let pos = key_insertion_point(keys, &order, i);
        order.insert(pos, i);
        proof {
            let p = pos as int;
            assert(order@ =~= before.insert(p, i));
            let ps = order@.map_values(|k: usize| k as int);
            let olds = before.map_values(|k: usize| k as int);
            assert forall|k: int| 0 <= k < i + 1 implies 0 <= #[trigger] ps[k] < i + 1 by {
                if k < p {
                    assert(ps[k] == olds[k]);
                } else if k > p {
                    assert(ps[k] == olds[k - 1]);
                }
            }
            assert forall|a: int, b: int| 0 <= a < b < i + 1 implies #[trigger] ps[a] != #[trigger] ps[b] by {
                if a != p && b != p {
                    let oa = if a < p { a } else { a - 1 };
                    let ob = if b < p { b } else { b - 1 };
                    assert(ps[a] == olds[oa] && ps[b] == olds[ob]);
                } else if a == p {
                    assert(ps[b] == olds[b - 1]);
                } else {
                    assert(ps[a] == olds[a]);
                }
            }
            let nks = order@.map_values(|k: usize| kv[k as int]);
            assert(nks =~= ks.insert(p, new));
            assert forall|a: int, b: int| 0 <= a < b < nks.len() implies !key_lt(#[trigger] nks[b], #[trigger] nks[a]) by {
                if a != p && b != p {
                    let oa = if a < p { a } else { a - 1 };
                    let ob = if b < p { b } else { b - 1 };
                    assert(nks[a] == ks[oa] && nks[b] == ks[ob]);
                } else if a == p {
                    let ob = b - 1;
                    assert(nks[b] == ks[ob]);
                    assert(key_lt(new, ks[p]));
                    lemma_key_lt(ks[ob], new, ks[p]);
                    lemma_key_lt(new, ks[p], new);
                } else {
                    assert(nks[a] == ks[a]);
                    assert(!key_lt(new, kv[before[a] as int]));
                }
            }
        }
        i = i + 1;
    }
    order
}

/// The sort key of a dependency name.
pub open spec fn name_key(n: PackageName) -> SortKey {
    (n@, Seq::empty())
}

/// The sort key of a resolved dependency: name, then version text.
pub open spec fn dep_key(d: LockedDependency) -> SortKey {
    (d.name@, version_display(d.version@))
}

/// The sort key of a locked package: name, then version text.
pub open spec fn locked_key(p: LockedPackage) -> SortKey {
    (p.name@, version_display(p.version@))
}

/// Whether `b` holds the elements of `a` in the order `p` gives, by view.
pub open spec fn names_permuted(b: Seq<PackageName>, a: Seq<PackageName>, p: Seq<int>) -> bool {
    &&& is_permutation(p, a.len() as int)
    &&& b.len() == a.len()
    &&& forall|k: int| 0 <= k < b.len() ==> (#[trigger] b[k])@ == a[p[k]]@
}

/// Whether `b` holds the resolved dependencies of `a` in the order `p` gives.
pub open spec fn deps_permuted(b: Seq<LockedDependency>, a: Seq<LockedDependency>, p: Seq<int>) -> bool {
    &&& is_permutation(p, a.len() as int)
    &&& b.len() == a.len()
    &&& forall|k: int| 0 <= k < b.len() ==> (#[trigger] b[k]).name@ == a[p[k]].name@ && b[k].version@ == a[p[k]].version@
}

/// Whether `b` is the locked package `a` in canonical form: the same record,
/// with its dependency names and resolved dependencies reordered and sorted.
pub open spec fn canonical_copy(b: LockedPackage, a: LockedPackage) -> bool {
    &&& b.name@ == a.name@
    &&& b.version@ == a.version@
    &&& b.registry@ == a.registry@
    &&& b.repository@ == a.repository@
    &&& b.digest.algorithm == a.digest.algorithm && b.digest.value@ == a.digest.value@
    &&& b.dependants == a.dependants
    &&& exists|p: Seq<int>| names_permuted(b.dependencies@, a.dependencies@, p)
    &&& keys_sorted(b.dependencies@.map_values(|n: PackageName| name_key(n)))
    &&& exists|p: Seq<int>| deps_permuted(b.dependencies_resolved@, a.dependencies_resolved@, p)
    &&& keys_sorted(b.dependencies_resolved@.map_values(|d: LockedDependency| dep_key(d)))
}

/// The dependency names, sorted.
fn sorted_names(v: &Vec<PackageName>) -> (r: Vec<PackageName>)
    ensures
        exists|p: Seq<int>| names_permuted(r@, v@, p),
        keys_sorted(r@.map_values(|n: PackageName| name_key(n))),
{
    let mut keys: Vec<(String, String)> = Vec::new();
    let mut i: usize = 0;
    while i < v.len()
        invariant
            i <= v@.len(),
            keys@.len() == i,
            forall|k: int| 0 <= k < i ==> keys_view(keys@)[k] == name_key(#[trigger] v@[k]),
        decreases v@.len() - i,
    {
        keys.push((v[i].to_string(), String::new()));
        proof {
            assert(keys_view(keys@)[i as int] == (v@[i as int]@, Seq::<char>::empty()));
        }
        i = i + 1;
    }
    let order = sorted_key_order(&keys);
    let ghost perm = order@.map_values(|x: usize| x as int);
    let mut out: Vec<PackageName> = Vec::new();
    let mut k: usize = 0;
    while k < order.len()
        invariant
            k <= order@.len(),
            order@.len() == v@.len(),
            keys@.len() == v@.len(),
            perm == order@.map_values(|x: usize| x as int),
            is_permutation(perm, v@.len() as int),
            forall|j: int| 0 <= j < v@.len() ==> keys_view(keys@)[j] == name_key(#[trigger] v@[j]),
            out@.len() == k,
            forall|j: int| 0 <= j < k ==> (#[trigger] out@[j])@ == v@[perm[j]]@,
        decreases order@.len() - k,
    {
        assert(perm[k as int] == order@[k as int] as int);
        out.push(v[order[k]].duplicate());
        k = k + 1;
    }
    proof {
        let ks = order@.map_values(|x: usize| keys_view(keys@)[x as int]);
        assert(out@.map_values(|n: PackageName| name_key(n)) =~= ks) by {
            assert forall|j: int| 0 <= j < ks.len() implies out@.map_values(|n: PackageName| name_key(n))[j] == #[trigger] ks[j] by {
                assert(perm[j] == order@[j] as int);
            }
        }
        assert(names_permuted(out@, v@, perm));
    }
    out
}

/// The resolved dependencies, sorted.
fn sorted_resolved(v: &Vec<LockedDependency>) -> (r: Vec<LockedDependency>)
    ensures
        exists|p: Seq<int>| deps_permuted(r@, v@, p),
        keys_sorted(r@.map_values(|d: LockedDependency| dep_key(d))),
{
    let mut keys: Vec<(String, String)> = Vec::new();
    let mut i: usize = 0;
    while i < v.len()
        invariant
            i <= v@.len(),
            keys@.len() == i,
            forall|k: int| 0 <= k < i ==> keys_view(keys@)[k] == dep_key(#[trigger] v@[k]),
        decreases v@.len() - i,
    {
        keys.push((v[i].name.to_string(), v[i].version.to_string()));
        i = i + 1;
    }
    let order = sorted_key_order(&keys);
    let ghost perm = order@.map_values(|x: usize| x as int);
    let mut out: Vec<LockedDependency> = Vec::new();
    let mut k: usize = 0;
    while k < order.len()
        invariant
            k <= order@.len(),
            order@.len() == v@.len(),
            keys@.len() == v@.len(),
            perm == order@.map_values(|x: usize| x as int),
            is_permutation(perm, v@.len() as int),
            forall|j: int| 0 <= j < v@.len() ==> keys_view(keys@)[j] == dep_key(#[trigger] v@[j]),
            out@.len() == k,
            forall|j: int| 0 <= j < k ==> (#[trigger] out@[j]).name@ == v@[perm[j]].name@ && out@[j].version@ == v@[perm[j]].version@,
        decreases order@.len() - k,
    {
        assert(perm[k as int] == order@[k as int] as int);
        let d = &v[order[k]];
        out.push(LockedDependency { name: d.name.duplicate(), version: d.version.duplicate() });
        k = k + 1;
    }
    proof {
        let ks = order@.map_values(|x: usize| keys_view(keys@)[x as int]);
        assert(out@.map_values(|d: LockedDependency| dep_key(d)) =~= ks) by {
            assert forall|j: int| 0 <= j < ks.len() implies out@.map_values(|d: LockedDependency| dep_key(d))[j] == #[trigger] ks[j] by {
                assert(perm[j] == order@[j] as int);
            }
        }
        assert(deps_permuted(out@, v@, perm));
    }
    out
}

/// A locked package in canonical form.
fn canonical_copy_of(p: &LockedPackage) -> (r: LockedPackage)
    ensures
        canonical_copy(r, *p),
{
    let dependencies = sorted_names(&p.dependencies);
    let dependencies_resolved = sorted_resolved(&p.dependencies_resolved);
    let r = LockedPackage {
        name: p.name.duplicate(),
        digest: p.digest.duplicate(),
        registry: p.registry.duplicate(),
        repository: p.repository.clone(),
        version: p.version.duplicate(),
        dependencies,
        dependencies_resolved,
        dependants: p.dependants,
    };
    proof {
        let pn = choose|q: Seq<int>| names_permuted(dependencies@, p.dependencies@, q);
        assert(names_permuted(r.dependencies@, p.dependencies@, pn));
        let pd = choose|q: Seq<int>| deps_permuted(dependencies_resolved@, p.dependencies_resolved@, q);
        assert(deps_permuted(r.dependencies_resolved@, p.dependencies_resolved@, pd));
    }
    r
}

/// Whether `c` holds the records `r` in canonical form: each record's canonical
/// copy, the records sorted by name, then version text.
pub open spec fn canonical_of(c: Seq<LockedPackage>, r: Seq<LockedPackage>) -> bool {
    &&& keys_sorted(c.map_values(|p: LockedPackage| locked_key(p)))
    &&& exists|p: Seq<int>| is_permutation(p, r.len() as int)
        && c.len() == r.len()
        && forall|k: int| 0 <= k < c.len() ==> canonical_copy(#[trigger] c[k], r[p[k]])
}

impl Lockfile {
    /// The records as the lockfile is written: each with its dependency lists
    /// sorted, sorted by name, then version text, so that the same records
    /// always give the same file (`lemma_canonical_records_agree`).
    pub fn canonical_packages(&self) -> (r: Vec<LockedPackage>)
        ensures
            canonical_of(r@, self.records()),
    {
        let ps = &self.packages;
        let mut keys: Vec<(String, String)> = Vec::new();
        let mut i: usize = 0;
        while i < ps.len()
            invariant
                i <= ps@.len(),
                keys@.len() == i,
                forall|k: int| 0 <= k < i ==> keys_view(keys@)[k] == locked_key(#[trigger] ps@[k]),
            decreases ps@.len() - i,
        {
            keys.push((ps[i].name.to_string(), ps[i].version.to_string()));
            i = i + 1;
        }
        let order = sorted_key_order(&keys);
        let ghost perm = order@.map_values(|x: usize| x as int);
        let mut out: Vec<LockedPackage> = Vec::new();
        let mut k: usize = 0;
        while k < order.len()
            invariant
                k <= order@.len(),
                order@.len() == ps@.len(),
                keys@.len() == ps@.len(),
                perm == order@.map_values(|x: usize| x as int),
                is_permutation(perm, ps@.len() as int),
                forall|j: int| 0 <= j < ps@.len() ==> keys_view(keys@)[j] == locked_key(#[trigger] ps@[j]),
                out@.len() == k,
                forall|j: int| 0 <= j < k ==> canonical_copy(#[trigger] out@[j], ps@[perm[j]]),
            decreases order@.len() - k,
        {
            assert(perm[k as int] == order@[k as int] as int);
            out.push(canonical_copy_of(&ps[order[k]]));
            k = k + 1;
        }
        proof {
            let ks = order@.map_values(|x: usize| keys_view(keys@)[x as int]);
            assert(out@.map_values(|p: LockedPackage| locked_key(p)) =~= ks) by {
                assert forall|j: int| 0 <= j < ks.len() implies out@.map_values(|p: LockedPackage| locked_key(p))[j] == #[trigger] ks[j] by {
                    assert(perm[j] == order@[j] as int);
                    assert(canonical_copy(out@[j], ps@[perm[j]]));
                }
            }
            assert(self.records() == ps@);
        }
        out
    }
}

/// Keys that neither sorts before the other are the same.
proof fn lemma_key_total(a: SortKey, b: SortKey)
    ensures
        !key_lt(a, b) && !key_lt(b, a) ==> a == b,
{
    lemma_text_lt_order(a.0, b.0);
    lemma_text_lt_order(a.1, b.1);
}

/// A sequence rearranged by a permutation holds the same elements, counted
/// with repeats.
proof fn lemma_permutation_multiset<A>(a: Seq<A>, b: Seq<A>, p: Seq<int>)
    requires
        is_permutation(p, b.len() as int),
        a.len() == b.len(),
        forall|k: int| 0 <= k < a.len() ==> a[k] == b[#[trigger] p[k]],
    ensures
        a.to_multiset() == b.to_multiset(),
    decreases a.len(),
{
    broadcast use vstd::seq_lib::group_to_multiset_ensures;
    let n = a.len() as int;
    if n == 0 {
        assert(a.to_multiset() =~= vstd::multiset::Multiset::<A>::empty());
        assert(b.to_multiset() =~= vstd::multiset::Multiset::<A>::empty());
    } else {
        let i = p[n - 1];
        let x = a[n - 1];
        let b2 = b.remove(i);
        let p2 = Seq::new((n - 1) as nat, |k: int| if p[k] < i { p[k] } else { p[k] - 1 });
        assert forall|k: int| 0 <= k < n - 1 implies 0 <= #[trigger] p2[k] < n - 1 by {
            assert(p[k] != p[n - 1]);
        }
        assert forall|c: int, d: int| 0 <= c < d < n - 1 implies #[trigger] p2[c] != #[trigger] p2[d] by {
            assert(p[c] != p[d]);
            assert(p[c] != i && p[d] != i);
        }
        assert forall|k: int| 0 <= k < n - 1 implies a.drop_last()[k] == b2[#[trigger] p2[k]] by {
            assert(p[k] != i);
            assert(a[k] == b[p[k]]);
        }
        lemma_permutation_multiset(a.drop_last(), b2, p2);
        assert(a =~= a.drop_last().push(x));
        assert(b[i] == x);
        assert(b.to_multiset().count(x) > 0) by {
            assert(b.contains(x));
        }
        assert(b.to_multiset() =~= b2.to_multiset().insert(x));
    }
}

/// Two sequences sorted by a key that hold the same elements, counted with
/// repeats, are the same sequence, where elements with equal keys are equal.
proof fn lemma_sorted_unique<T>(s1: Seq<T>, s2: Seq<T>, key: spec_fn(T) -> SortKey)
    requires
        s1.to_multiset() == s2.to_multiset(),
        keys_sorted(s1.map_values(key)),
        keys_sorted(s2.map_values(key)),
        forall|x: T, y: T| s1.contains(x) && s1.contains(y) && key(x) == key(y) ==> x == y,
    ensures
        s1 == s2,
    decreases s1.len(),
{
    broadcast use vstd::seq_lib::group_to_multiset_ensures;
    assert(s1.len() == s1.to_multiset().len());
    assert(s2.len() == s2.to_multiset().len());
    if s1.len() == 0 {
        assert(s1 =~= s2);
    } else {
        let x = s1[0];
        let y = s2[0];
        assert(s1.contains(x));
        assert(s1.to_multiset().count(x) > 0);
        assert(s2.contains(x));
        let j = choose|j: int| 0 <= j < s2.len() && s2[j] == x;
        assert(s2.contains(y));
        assert(s2.to_multiset().count(y) > 0);
        assert(s1.contains(y));
        let i = choose|i: int| 0 <= i < s1.len() && s1[i] == y;
        if j > 0 {
            assert(!key_lt(s2.map_values(key)[j], s2.map_values(key)[0]));
        }
        if i > 0 {
            assert(!key_lt(s1.map_values(key)[i], s1.map_values(key)[0]));
        }
        lemma_key_total(key(x), key(y));
        assert(x == y);
        let t1 = s1.drop_first();
        let t2 = s2.drop_first();
        assert(s1.remove(0) =~= t1);
        assert(s2.remove(0) =~= t2);
        assert(t1.to_multiset() == t2.to_multiset());
        assert(keys_sorted(t1.map_values(key))) by {
            assert forall|a: int, b: int| 0 <= a < b < t1.len() implies !key_lt(#[trigger] t1.map_values(key)[b], #[trigger] t1.map_values(key)[a]) by {
                assert(t1.map_values(key)[b] == s1.map_values(key)[b + 1]);
                assert(t1.map_values(key)[a] == s1.map_values(key)[a + 1]);
            }
        }
        assert(keys_sorted(t2.map_values(key))) by {
            assert forall|a: int, b: int| 0 <= a < b < t2.len() implies !key_lt(#[trigger] t2.map_values(key)[b], #[trigger] t2.map_values(key)[a]) by {
                assert(t2.map_values(key)[b] == s2.map_values(key)[b + 1]);
                assert(t2.map_values(key)[a] == s2.map_values(key)[a + 1]);
            }
        }
        assert forall|u: T, v: T| t1.contains(u) && t1.contains(v) && key(u) == key(v) implies u == v by {
            let a = choose|a: int| 0 <= a < t1.len() && t1[a] == u;
            let b = choose|b: int| 0 <= b < t1.len() && t1[b] == v;
            assert(s1[a + 1] == u && s1[b + 1] == v);
            assert(s1.contains(u) && s1.contains(v));
        }
        lemma_sorted_unique(t1, t2, key);
        assert(s1 =~= s2) by {
            assert forall|k: int| 0 <= k < s1.len() implies s1[k] == s2[k] by {
                if k > 0 {
                    assert(s1[k] == t1[k - 1] && s2[k] == t2[k - 1]);
                }
            }
        }
    }
}

/// A locked package as the lockfile writes it: its texts and values, its
/// dependency names and the keys (name, version text) of its resolved
/// dependencies, in order.
pub struct WrittenRecord {
    pub name: Seq<char>,
    pub version: Seq<char>,
    pub registry: RegistryRefView,
    pub repository: Seq<char>,
    pub algorithm: DigestAlgorithm,
    pub digest: Seq<u8>,
    pub dependants: usize,
    pub dependencies: Seq<Seq<char>>,
    pub resolved: Seq<SortKey>,
}

/// A locked package as the lockfile writes it.
pub open spec fn written_record(p: LockedPackage) -> WrittenRecord {
    WrittenRecord {
        name: p.name@,
        version: version_display(p.version@),
        registry: p.registry@,
        repository: p.repository@,
        algorithm: p.digest.algorithm,
        digest: p.digest.value@,
        dependants: p.dependants,
        dependencies: names_view(p.dependencies@),
        resolved: p.dependencies_resolved@.map_values(|d: LockedDependency| dep_key(d)),
    }
}

/// What a locked package holds, whatever the order of its dependency lists.
pub struct RecordContents {
    pub name: Seq<char>,
    pub version: Seq<char>,
    pub registry: RegistryRefView,
    pub repository: Seq<char>,
    pub algorithm: DigestAlgorithm,
    pub digest: Seq<u8>,
    pub dependants: usize,
    pub dependencies: vstd::multiset::Multiset<Seq<char>>,
    pub resolved: vstd::multiset::Multiset<SortKey>,
}

/// What a locked package holds, whatever the order of its dependency lists.
pub open spec fn record_contents(p: LockedPackage) -> RecordContents {
    let w = written_record(p);
    RecordContents {
        name: w.name,
        version: w.version,
        registry: w.registry,
        repository: w.repository,
        algorithm: w.algorithm,
        digest: w.digest,
        dependants: w.dependants,
        dependencies: w.dependencies.to_multiset(),
        resolved: w.resolved.to_multiset(),
    }
}

/// A record's canonical copy holds what the record holds, its lists sorted.
proof fn lemma_canonical_copy_contents(b: LockedPackage, a: LockedPackage)
    requires
        canonical_copy(b, a),
    ensures
        record_contents(b) == record_contents(a),
{
    let pn = choose|p: Seq<int>| names_permuted(b.dependencies@, a.dependencies@, p);
    assert forall|k: int| 0 <= k < names_view(b.dependencies@).len()
        implies names_view(b.dependencies@)[k] == names_view(a.dependencies@)[#[trigger] pn[k]] by {
        assert(b.dependencies@[k]@ == a.dependencies@[pn[k]]@);
    }
    lemma_permutation_multiset(names_view(b.dependencies@), names_view(a.dependencies@), pn);
    let pd = choose|p: Seq<int>| deps_permuted(b.dependencies_resolved@, a.dependencies_resolved@, p);
    let kb = b.dependencies_resolved@.map_values(|d: LockedDependency| dep_key(d));
    let ka = a.dependencies_resolved@.map_values(|d: LockedDependency| dep_key(d));
    assert forall|k: int| 0 <= k < kb.len() implies kb[k] == ka[#[trigger] pd[k]] by {
        assert(b.dependencies_resolved@[k].name@ == a.dependencies_resolved@[pd[k]].name@);
    }
    lemma_permutation_multiset(kb, ka, pd);
}

/// Canonical records hold what the records hold, counted with repeats.
proof fn lemma_canonical_contents(c: Seq<LockedPackage>, r: Seq<LockedPackage>)
    requires
        canonical_of(c, r),
    ensures
        c.map_values(|x: LockedPackage| record_contents(x)).to_multiset()
            == r.map_values(|x: LockedPackage| record_contents(x)).to_multiset(),
{
    let p = choose|p: Seq<int>| is_permutation(p, r.len() as int) && c.len() == r.len()
        && forall|k: int| 0 <= k < c.len() ==> canonical_copy(#[trigger] c[k], r[p[k]]);
    let mc = c.map_values(|x: LockedPackage| record_contents(x));
    let mr = r.map_values(|x: LockedPackage| record_contents(x));
    assert forall|k: int| 0 <= k < mc.len() implies mc[k] == mr[#[trigger] p[k]] by {
        lemma_canonical_copy_contents(c[k], r[p[k]]);
    }
    lemma_permutation_multiset(mc, mr, p);
}

/// Lockfiles that hold the same records, up to the order of the records and
/// of each record's dependency lists, are written the same: their canonical
/// records agree field for field, where no two records share a name and version.
pub proof fn lemma_canonical_records_agree(c1: Seq<LockedPackage>, r1: Seq<LockedPackage>, c2: Seq<LockedPackage>, r2: Seq<LockedPackage>)
    requires
        canonical_of(c1, r1),
        canonical_of(c2, r2),
        r1.map_values(|x: LockedPackage| record_contents(x)).to_multiset()
            == r2.map_values(|x: LockedPackage| record_contents(x)).to_multiset(),
        forall|i: int, j: int| 0 <= i < r1.len() && 0 <= j < r1.len() && locked_key(#[trigger] r1[i]) == locked_key(#[trigger] r1[j]) ==> i == j,
    ensures
        c1.map_values(|x: LockedPackage| written_record(x)) == c2.map_values(|x: LockedPackage| written_record(x)),
{
    lemma_canonical_contents(c1, r1);
    lemma_canonical_contents(c2, r2);
    let m1 = c1.map_values(|x: LockedPackage| record_contents(x));
    let m2 = c2.map_values(|x: LockedPackage| record_contents(x));
    let ck = |x: RecordContents| (x.name, x.version);
    assert(m1.map_values(ck) =~= c1.map_values(|p: LockedPackage| locked_key(p)));
    assert(m2.map_values(ck) =~= c2.map_values(|p: LockedPackage| locked_key(p)));
    let p1 = choose|p: Seq<int>| is_permutation(p, r1.len() as int) && c1.len() == r1.len()
        && forall|k: int| 0 <= k < c1.len() ==> canonical_copy(#[trigger] c1[k], r1[p[k]]);
    assert forall|x: RecordContents, y: RecordContents| m1.contains(x) && m1.contains(y) && ck(x) == ck(y) implies x == y by {
        let a = choose|a: int| 0 <= a < m1.len() && m1[a] == x;
        let b = choose|b: int| 0 <= b < m1.len() && m1[b] == y;
        lemma_canonical_copy_contents(c1[a], r1[p1[a]]);
        lemma_canonical_copy_contents(c1[b], r1[p1[b]]);
        assert(locked_key(r1[p1[a]]) == locked_key(r1[p1[b]]));
    }
    lemma_sorted_unique(m1, m2, ck);
    assert forall|k: int| 0 <= k < c1.len() implies #[trigger] written_record(c1[k]) == written_record(c2[k]) by {
        assert(m1[k] == m2[k]);
        let w1 = written_record(c1[k]);
        let w2 = written_record(c2[k]);
        let p2 = choose|p: Seq<int>| is_permutation(p, r2.len() as int) && c2.len() == r2.len()
            && forall|j: int| 0 <= j < c2.len() ==> canonical_copy(#[trigger] c2[j], r2[p[j]]);
        assert(canonical_copy(c1[k], r1[p1[k]]));
        assert(canonical_copy(c2[k], r2[p2[k]]));
        let nk = |n: Seq<char>| (n, Seq::<char>::empty());
        assert(w1.dependencies.map_values(nk) =~= c1[k].dependencies@.map_values(|n: PackageName| name_key(n)));
        assert(w2.dependencies.map_values(nk) =~= c2[k].dependencies@.map_values(|n: PackageName| name_key(n)));
        lemma_sorted_unique(w1.dependencies, w2.dependencies, nk);
        let id = |t: SortKey| t;
        assert(w1.resolved.map_values(id) =~= c1[k].dependencies_resolved@.map_values(|d: LockedDependency| dep_key(d)));
        assert(w2.resolved.map_values(id) =~= c2[k].dependencies_resolved@.map_values(|d: LockedDependency| dep_key(d)));
        lemma_sorted_unique(w1.resolved, w2.resolved, id);
    }
    assert(c1.map_values(|x: LockedPackage| written_record(x)) =~= c2.map_values(|x: LockedPackage| written_record(x)));
}

} // verus!
