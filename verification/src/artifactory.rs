//! What a registry client decides: artifact locations, the versions a search
//! answer lists, and what the server's status codes mean.

use crate::manifest::{Dependency, DependencyManifest, DependencyManifestView, DependencyView};
use crate::package::{Package, PackageName};
use crate::registry::{
    dependency_version_string, joinable, spec_dependency_version, spec_url_parse, spec_url_set_path, spec_url_set_query, ParsedUrl,
    RegistryError, RegistryUri, UrlView, VersionText,
};
use crate::text::{chars_of, has_suffix, push_char, push_str, str_eq, sub_string};
use crate::version::{
    artifact_version_text, max_kept, opt_version_view, spec_parse_version, version_display, version_to_artifact_string,
    versions_view, Version, VersionView,
};
use vstd::prelude::*;

verus! {

/// Environment variable for a custom CA bundle file.
pub const ENV_CA_BUNDLE: &'static str = "BUFFRS_CA_BUNDLE";

/// The policy for validating the registry server's certificates.
#[derive(Debug, Clone, Copy, PartialEq, Eq, Structural)]
pub enum CertValidationPolicy {
    /// Validate the certificate
    Validate,
    /// Do not validate the certificate
    NoValidation,
}

impl CertValidationPolicy {
    /// The default policy: validate.
    pub fn default() -> (r: CertValidationPolicy)
        ensures
            r == CertValidationPolicy::Validate,
    {
        CertValidationPolicy::Validate
    }
}

/// Why a registry operation failed.
#[derive(Debug)]
pub enum ArtifactoryError {
    /// The server redirected the request
    Redirect,
    /// The server refused the credentials
    Unauthorized,
    /// The server answered with an error status
    Status(u16),
    /// The answer has no content type
    MissingContentType,
    /// The answer has another content type
    WrongMimeType(String),
    /// No version of the package was found
    NoVersionFound,
    /// A local dependency cannot be downloaded from a registry
    LocalDownload(String),
    /// The package has local dependencies and cannot be published
    LocalDependencies {
        /// The package
        package: String,
        /// Its local dependencies, comma-separated
        dependencies: String,
    },
    /// The artifact's address is not a URL
    InvalidArtifactUrl(String),
    /// An unexpected status while checking whether an artifact exists
    UnexpectedStatus {
        /// The status
        status: u16,
        /// The artifact's address
        url: String,
    },
    /// A dependency's version is not one a registry can name
    Version(RegistryError),
}

/// The path of an artifact under a base path: `base/repository/name/name-version.tgz`.
pub open spec fn artifact_path_text(base: Seq<char>, repository: Seq<char>, name: Seq<char>, version: Seq<char>) -> Seq<char> {
    base + seq!['/'] + repository + seq!['/'] + name + seq!['/'] + name + seq!['-'] + version + seq!['.', 't', 'g', 'z']
}

/// The path of an artifact under a base path.
pub fn artifact_path(base: &str, repository: &str, name: &str, version: &str) -> (r: String)
    ensures
        r@ == artifact_path_text(base@, repository@, name@, version@),
{
    let mut s = base.to_owned();
    push_char(&mut s, '/');
    push_str(&mut s, repository);
    push_char(&mut s, '/');
    push_str(&mut s, name);
    push_char(&mut s, '/');
    push_str(&mut s, name);
    push_char(&mut s, '-');
    push_str(&mut s, version);
    push_str(&mut s, ".tgz");
    proof {
        reveal_strlit(".tgz");
    }
    assert(s@ =~= artifact_path_text(base@, repository@, name@, version@));
    s
}


/// Where a package version is downloaded from: the registry URL with its path
/// extended by `repository/name/name-version.tgz` (the version without build metadata).
pub fn download_url(registry: &RegistryUri, repository: &str, name: &PackageName, version: &Version) -> (r: Option<ParsedUrl>)
    ensures
        (match r {
            Some(u) => u@ == spec_url_set_path(registry@, artifact_path_text(registry@.path, repository@, name@,
                artifact_version_text(version@))),
            None => !joinable(registry@, artifact_path_text(registry@.path, repository@, name@, artifact_version_text(version@))),
        }),
{
    let v = version_to_artifact_string(version);
    let path = artifact_path(registry.path(), repository, name.as_str(), v.as_str());
    let url = registry.url();
    if !url.can_join(path.as_str()) {
        return None;
    }
    Some(url.with_path(path.as_str()))
}

/// Where a pinned remote dependency is downloaded from; `LocalDownload` for a
/// local dependency, the version error where its requirement pins no full version.
pub fn dependency_download_url(registry: &RegistryUri, dependency: &Dependency) -> (r: Result<Option<ParsedUrl>, ArtifactoryError>)
    ensures
        (match dependency@.manifest {
            DependencyManifestView::Local(_) => r matches Err(ArtifactoryError::LocalDownload(n)) && n@ == dependency@.package,
            DependencyManifestView::Remote(m) => match spec_dependency_version(dependency@) {
                VersionText::Text(t) => {
                    let path = artifact_path_text(registry@.path, m.repository, dependency@.package, t);
                    match r {
                        Ok(Some(u)) => u@ == spec_url_set_path(registry@, path),
                        Ok(None) => !joinable(registry@, path),
                        Err(_) => false,
                    }
                },
                _ => r matches Err(ArtifactoryError::Version(_)),
            },
        }),
{
    let manifest = match &dependency.manifest {
        DependencyManifest::Local(_) => return Err(ArtifactoryError::LocalDownload(dependency.package.to_string())),
        DependencyManifest::Remote(m) => m,
    };
    let version = match dependency_version_string(dependency) {
        Ok(v) => v,
        Err(e) => return Err(ArtifactoryError::Version(e)),
    };
    let path = artifact_path(registry.path(), manifest.repository.as_str(), dependency.package.as_str(), version.as_str());
    let url = registry.url();
    if !url.can_join(path.as_str()) {
        return Ok(None);
    }
    Ok(Some(url.with_path(path.as_str())))
}

/// The path of the repository listing under a registry path.
pub open spec fn repositories_path(base: Seq<char>) -> Seq<char> {
    base + "/api/repositories"@
}

/// The address of the repository listing, which answers where the registry
/// can be reached; `None` where the address would be too long.
pub fn repositories_url(registry: &RegistryUri) -> (r: Option<ParsedUrl>)
    ensures
        if joinable(registry@, repositories_path(registry@.path)) {
            r matches Some(u) && u@ == spec_url_set_path(registry@, repositories_path(registry@.path))
        } else {
            r is None
        },
{
    let url = registry.url();
    let mut path = String::new();
    push_str(&mut path, registry.path());
    push_str(&mut path, "/api/repositories");
    proof {
        reveal_strlit("/api/repositories");
    }
    assert(path@ =~= repositories_path(registry@.path));
    if !url.can_join(path.as_str()) {
        return None;
    }
    Some(url.with_path(path.as_str()))
}

/// `artifactory/api/search/artifact`
pub open spec fn search_path() -> Seq<char> {
    "artifactory/api/search/artifact"@
}

/// `name=NAME&repos=REPOSITORY`
pub open spec fn search_query(name: Seq<char>, repository: Seq<char>) -> Seq<char> {
    "name="@ + name + "&repos="@ + repository
}

/// The address of an artifact search for a package in a repository.
pub fn search_url(registry: &RegistryUri, repository: &str, name: &PackageName) -> (r: Option<ParsedUrl>)
    ensures
        if joinable(registry@, search_path())
            && joinable(spec_url_set_path(registry@, search_path()), search_query(name@, repository@)) {
            r matches Some(u)
                && u@ == spec_url_set_query(spec_url_set_path(registry@, search_path()), search_query(name@, repository@))
        } else {
            r is None
        },
{
    let url = registry.url();
    let path = "artifactory/api/search/artifact";
    proof {
        reveal_strlit("artifactory/api/search/artifact");
    }
    if !url.can_join(path) {
        return None;
    }
    let with_path = url.with_path(path);
    let mut query = String::new();
    push_str(&mut query, "name=");
    push_str(&mut query, name.as_str());
    push_str(&mut query, "&repos=");
    push_str(&mut query, repository);
    assert(query@ =~= search_query(name@, repository@));
    if !with_path.can_join(query.as_str()) {
        return None;
    }
    Some(with_path.with_query(query.as_str()))
}

/// `.tgz`
pub open spec fn tgz_suffix() -> Seq<char> {
    seq!['.', 't', 'g', 'z']
}

/// The text after the last `/` (all of it where there is none).
pub open spec fn last_segment(t: Seq<char>) -> Seq<char>
    decreases t.len(),
{
    if t.len() == 0 {
        t
    } else if t.last() == '/' {
        Seq::empty()
    } else {
        last_segment(t.drop_last()).push(t.last())
    }
}

/// The text with every trailing `.tgz` removed.
pub open spec fn trim_tgz(t: Seq<char>) -> Seq<char>
    decreases t.len(),
{
    if t.len() >= 4 && has_suffix(t, tgz_suffix()) {
        trim_tgz(t.take(t.len() - 4))
    } else {
        t
    }
}

/// The version that a search result's address names for a package: its last
/// segment, trailing `.tgz` removed, must read `name-version` with a version
/// that parses and prints back as written.
pub open spec fn spec_artifact_version(name: Seq<char>, uri: Seq<char>) -> Option<VersionView> {
    let artifact = trim_tgz(last_segment(uri));
    let prefix = name.push('-');
    if artifact.len() >= prefix.len() && artifact.take(prefix.len() as int) == prefix {
        match spec_parse_version(artifact.skip(prefix.len() as int)) {
            Some(v) => if version_display(v) == artifact.skip(prefix.len() as int) { Some(v) } else { None },
            None => None,
        }
    } else {
        None
    }
}

/// The versions that search results name, in order.
pub open spec fn spec_search_versions(name: Seq<char>, uris: Seq<Seq<char>>) -> Seq<VersionView>
    decreases uris.len(),
{
    if uris.len() == 0 {
        Seq::empty()
    } else {
        let prev = spec_search_versions(name, uris.drop_last());
        match spec_artifact_version(name, uris.last()) {
            Some(v) => prev.push(v),
            None => prev,
        }
    }
}

/// The last segment of an address.
fn last_segment_of(t: &Vec<char>) -> (r: usize)
    ensures
        r <= t@.len(),
        t@.subrange(r as int, t@.len() as int) == last_segment(t@),
{
    let mut i: usize = t.len();
    assert(t@.subrange(i as int, i as int) =~= Seq::<char>::empty());
    assert(t@.take(i as int) =~= t@);
    assert(last_segment(t@) =~= last_segment(t@.take(i as int)) + t@.subrange(i as int, t@.len() as int));
    while i > 0
        invariant
            i <= t@.len(),
            last_segment(t@) == last_segment(t@.take(i as int)) + t@.subrange(i as int, t@.len() as int),
            forall|k: int| i <= k < t@.len() ==> t@[k] != '/',
        decreases i,
    {
        assert(t@.take(i as int).drop_last() =~= t@.take(i - 1));
        if t[i - 1] == '/' {
            assert(last_segment(t@.take(i as int)) =~= Seq::<char>::empty());
            assert(t@.subrange(i as int, t@.len() as int) =~= last_segment(t@));
            return i;
        }
        assert(last_segment(t@.take(i as int)) == last_segment(t@.take(i - 1)).push(t@[i - 1]));
        assert(t@.subrange(i - 1, t@.len() as int) =~= seq![t@[i - 1]] + t@.subrange(i as int, t@.len() as int));
        i = i - 1;
    }
    assert(t@.take(0) =~= Seq::<char>::empty());
    0
}

/// The version a search result names for a package.
fn artifact_version(name: &PackageName, uri: &str) -> (r: Option<Version>)
    ensures
        opt_version_view(r) == spec_artifact_version(name@, uri@),
{
    let t = chars_of(uri);
    let start = last_segment_of(&t);
    let mut end = t.len();
    let ghost seg = t@.subrange(start as int, t@.len() as int);
    assert(seg.take(seg.len() as int) =~= seg);
    while end - start >= 4 && t[end - 4] == '.' && t[end - 3] == 't' && t[end - 2] == 'g' && t[end - 1] == 'z'
        invariant
            start <= end <= t@.len(),
            seg == t@.subrange(start as int, t@.len() as int),
            trim_tgz(seg) == trim_tgz(t@.subrange(start as int, end as int)),
        decreases end,
    {
        let ghost cur = t@.subrange(start as int, end as int);
        assert(cur.subrange(cur.len() - 4, cur.len() as int) =~= tgz_suffix());
        assert(cur.take(cur.len() - 4) =~= t@.subrange(start as int, end - 4));
        end = end - 4;
    }
    let ghost artifact = t@.subrange(start as int, end as int);
    proof {
        if artifact.len() >= 4 && has_suffix(artifact, tgz_suffix()) {
            assert(artifact.subrange(artifact.len() - 4, artifact.len() as int)[0] == t@[end - 4]);
            assert(artifact.subrange(artifact.len() - 4, artifact.len() as int)[1] == t@[end - 3]);
            assert(artifact.subrange(artifact.len() - 4, artifact.len() as int)[2] == t@[end - 2]);
            assert(artifact.subrange(artifact.len() - 4, artifact.len() as int)[3] == t@[end - 1]);
        }
        assert(trim_tgz(artifact) == artifact);
    }
    let n = chars_of(name.as_str());
    if end - start < 1 || n.len() > end - start - 1 {
        return None;
    }
    let plen = n.len() + 1;
    let mut k: usize = 0;
    while k < n.len()
        invariant
            start + plen <= end <= t@.len(),
            artifact == t@.subrange(start as int, end as int),
            trim_tgz(last_segment(uri@)) == artifact,
            n@ == name@,
            plen == n@.len() + 1,
            k <= n@.len(),
            forall|m: int| 0 <= m < k ==> t@[start + m] == n@[m],
        decreases n@.len() - k,
    {
        if t[start + k] != n[k] {
            assert(artifact.take(plen as int)[k as int] == t@[start + k]);
            assert(artifact.take(plen as int)[k as int] != n@.push('-')[k as int]);
            return None;
        }
        k = k + 1;
    }
    if t[start + n.len()] != '-' {
        assert(artifact.take(plen as int)[n@.len() as int] != n@.push('-')[n@.len() as int]);
        return None;
    }
    assert(artifact.take(plen as int) =~= name@.push('-'));
    let rest = sub_string(&t, start + plen, end);
    assert(rest@ =~= artifact.skip(plen as int));
    match Version::parse(rest.as_str()) {
        Some(v) => {
            let shown = v.to_string();
            if str_eq(shown.as_str(), rest.as_str()) {
                Some(v)
            } else {
                None
            }
        },
        None => None,
    }
}

/// The versions that the addresses of search results name for a package, in
/// order: for each address whose last segment, trailing `.tgz` removed, reads
/// `name-version` with a version that parses and prints back as written.
pub fn versions_from_search(name: &PackageName, uris: &Vec<String>) -> (r: Vec<Version>)
    ensures
        versions_view(r@) == spec_search_versions(name@, crate::text::strings_view(uris@)),
{
    let ghost us = crate::text::strings_view(uris@);
    let mut r: Vec<Version> = Vec::new();
    let mut i: usize = 0;
    while i < uris.len()
        invariant
            us == crate::text::strings_view(uris@),
            i <= uris@.len(),
            versions_view(r@) == spec_search_versions(name@, us.take(i as int)),
        decreases uris@.len() - i,
    {
        assert(us.take(i + 1).drop_last() =~= us.take(i as int));
        assert(us.take(i + 1).last() == uris@[i as int]@);
        match artifact_version(name, uris[i].as_str()) {
            Some(v) => {
                let ghost before = r@;
                r.push(v);
                assert(versions_view(r@) =~= versions_view(before).push(v@));
            },
            None => {},
        }
        i = i + 1;
    }
    assert(us.take(i as int) =~= us);
    r
}

/// The latest of the versions (the last of equal greatest ones);
/// `NoVersionFound` where there is none.
pub fn latest_version(versions: &Vec<Version>) -> (r: Result<Version, ArtifactoryError>)
    ensures
        (match max_kept(versions_view(versions@), |v: VersionView| true) {
            Some(m) => r matches Ok(v) && v@ == m,
            None => r matches Err(ArtifactoryError::NoVersionFound),
        }),
{
    let ghost keep = |v: VersionView| true;
    let ghost views = versions_view(versions@);
    let mut best: Option<usize> = None;
    let mut i: usize = 0;
    while i < versions.len()
        invariant
            views == versions_view(versions@),
            keep == (|v: VersionView| true),
            i <= versions@.len(),
            match best {
                None => max_kept(views.take(i as int), keep) is None,
                Some(b) => b < i && max_kept(views.take(i as int), keep) == Some(versions@[b as int]@),
            },
        decreases versions@.len() - i,
    {
        assert(views.take(i + 1).drop_last() =~= views.take(i as int));
        assert(views.take(i + 1).last() == versions@[i as int]@);
        match best {
            None => {
                best = Some(i);
            },
            Some(b) => {
                if versions[b].compare(&versions[i]) <= 0 {
                    best = Some(i);
                }
            },
        }
        i = i + 1;
    }
    assert(views.take(i as int) =~= views);
    match best {
        None => Err(ArtifactoryError::NoVersionFound),
        Some(b) => Ok(versions[b].duplicate()),
    }
}

/// The address a package is published at: `registry/repository/name/name-version.tgz`.
pub open spec fn publish_address(registry: Seq<char>, repository: Seq<char>, name: Seq<char>, version: VersionView) -> Seq<char> {
    registry + seq!['/'] + repository + seq!['/'] + name + seq!['/'] + name + seq!['-'] + version_display(version)
        + tgz_suffix()
}

/// The local dependencies of a package, by name.
pub open spec fn local_dependency_names(deps: Seq<DependencyView>) -> Seq<Seq<char>>
    decreases deps.len(),
{
    if deps.len() == 0 {
        Seq::empty()
    } else {
        let prev = local_dependency_names(deps.drop_last());
        if deps.last().manifest is Local { prev.push(deps.last().package) } else { prev }
    }
}

/// Where a package is published, checked first for local dependencies (which
/// a registry cannot serve: `LocalDependencies`, naming them); then the address
/// `registry/repository/name/name-version.tgz` as a URL (`InvalidArtifactUrl`
/// where it is not one).
pub fn publish_target(registry: &RegistryUri, repository: &str, package: &Package) -> (r: Result<ParsedUrl, ArtifactoryError>)
    ensures
        local_dependency_names(package@.dependencies).len() > 0 ==> (r matches Err(ArtifactoryError::LocalDependencies {
            package: p, dependencies: d }) && p@ == package@.name
            && d@ == crate::metadata::join_with(local_dependency_names(package@.dependencies), seq![',', ' '])),
        local_dependency_names(package@.dependencies).len() == 0 ==> (match spec_url_parse(
            publish_address(registry@.serialization, repository@, package@.name, package@.version)) {
            Some(u) => r matches Ok(x) && x@ == u,
            None => r matches Err(ArtifactoryError::InvalidArtifactUrl(_)),
        }),
{
    let deps = &package.manifest.dependencies;
    let ghost dv = crate::manifest::dependencies_view(deps@);
    let mut names: Vec<String> = Vec::new();
    let mut i: usize = 0;
    while i < deps.len()
        invariant
            dv == crate::manifest::dependencies_view(deps@),
            i <= deps@.len(),
            crate::text::strings_view(names@) == local_dependency_names(dv.take(i as int)),
        decreases deps@.len() - i,
    {
        assert(dv.take(i + 1).drop_last() =~= dv.take(i as int));
        assert(dv.take(i + 1).last() == deps@[i as int]@);
        if deps[i].manifest.is_local() {
            let ghost before = names@;
            names.push(deps[i].package.to_string());
            assert(crate::text::strings_view(names@) =~= crate::text::strings_view(before).push(deps@[i as int].package@));
        }
        i = i + 1;
    }
    assert(dv.take(i as int) =~= dv);
    if names.len() > 0 {
        return Err(ArtifactoryError::LocalDependencies {
            package: package.name().to_string(),
            dependencies: join_comma(&names),
        });
    }
    let mut address = registry.to_string();
    push_char(&mut address, '/');
    push_str(&mut address, repository);
    push_char(&mut address, '/');
    push_str(&mut address, package.name().as_str());
    push_char(&mut address, '/');
    push_str(&mut address, package.name().as_str());
    push_char(&mut address, '-');
    let v = package.version().to_string();
    push_str(&mut address, v.as_str());
    push_str(&mut address, ".tgz");
    proof {
        reveal_strlit(".tgz");
    }
    assert(address@ =~= publish_address(registry@.serialization, repository@, package@.name, package@.version));
    match ParsedUrl::parse(address.as_str()) {
        Some(u) => Ok(u),
        None => Err(ArtifactoryError::InvalidArtifactUrl(address)),
    }
}

/// Texts joined by `, `.
fn join_comma(items: &Vec<String>) -> (r: String)
    ensures
        r@ == crate::metadata::join_with(crate::text::strings_view(items@), seq![',', ' ']),
{
    let ghost v = crate::text::strings_view(items@);
    let mut s = String::new();
    let mut i: usize = 0;
    while i < items.len()
        invariant
            v == crate::text::strings_view(items@),
            i <= items@.len(),
            s@ == crate::metadata::join_with(v.take(i as int), seq![',', ' ']),
        decreases items@.len() - i,
    {
        assert(v.take(i + 1).drop_last() =~= v.take(i as int));
        assert(v.take(i + 1).last() == items@[i as int]@);
        if i > 0 {
            push_char(&mut s, ',');
            push_char(&mut s, ' ');
        }
        push_str(&mut s, items[i].as_str());
        proof {
            if i == 0 {
                assert(s@ =~= crate::metadata::join_with(v.take(1), seq![',', ' ']));
            } else {
                assert(s@ =~= crate::metadata::join_with(v.take(i + 1), seq![',', ' ']));
            }
        }
        i = i + 1;
    }
    assert(v.take(i as int) =~= v);
    s
}

/// What a publish does after asking whether the artifact exists.
#[derive(Debug, PartialEq, Eq, Structural)]
pub enum PublishStep {
    /// The artifact exists already; publishing again is skipped
    AlreadyPublished,
    /// The artifact does not exist; upload it
    Upload,
}

/// What the status of the existence check means: a success status means the
/// artifact exists (skip), 404 that it does not (upload); 401 is
/// `Unauthorized`; any other status is unexpected.
pub fn publish_step(status: u16, url: &str) -> (r: Result<PublishStep, ArtifactoryError>)
    ensures
        200 <= status < 300 ==> r == Ok::<PublishStep, ArtifactoryError>(PublishStep::AlreadyPublished),
        status == 404 ==> r == Ok::<PublishStep, ArtifactoryError>(PublishStep::Upload),
        status == 401 ==> r matches Err(ArtifactoryError::Unauthorized),
        !(200 <= status < 300) && status != 404 && status != 401 ==> (r matches Err(ArtifactoryError::UnexpectedStatus { status: s, url: u })
            && s == status && u@ == url@),
{
    if 200 <= status && status < 300 {
        Ok(PublishStep::AlreadyPublished)
    } else if status == 404 {
        Ok(PublishStep::Upload)
    } else if status == 401 {
        Err(ArtifactoryError::Unauthorized)
    } else {
        Err(ArtifactoryError::UnexpectedStatus { status, url: url.to_owned() })
    }
}

/// Checks the status of a registry answer: a redirection is refused
/// (`Redirect`), 401 is `Unauthorized`, any other client or server error is
/// `Status`; anything else passes.
pub fn validate_status(status: u16) -> (r: Result<(), ArtifactoryError>)
    ensures
        300 <= status < 400 ==> r matches Err(ArtifactoryError::Redirect),
        status == 401 ==> r matches Err(ArtifactoryError::Unauthorized),
        400 <= status < 600 && status != 401 ==> (r matches Err(ArtifactoryError::Status(s)) && s == status),
        (status < 300 || status >= 600) ==> r is Ok,
{
    if 300 <= status && status < 400 {
        Err(ArtifactoryError::Redirect)
    } else if status == 401 {
        Err(ArtifactoryError::Unauthorized)
    } else if 400 <= status && status < 600 {
        Err(ArtifactoryError::Status(status))
    } else {
        Ok(())
    }
}

/// The content type of a search answer.
pub const SEARCH_RESULT_MIME: &'static str = "application/vnd.org.jfrog.artifactory.search.ArtifactSearchResult+json";

/// The content type of a package archive.
pub const ARCHIVE_MIME: &'static str = "application/x-gzip";

/// Checks that an answer has the expected content type: `MissingContentType`
/// where it has none, `WrongMimeType` where it has another.
pub fn check_content_type(content_type: Option<&str>, expected: &str) -> (r: Result<(), ArtifactoryError>)
    ensures
        (match content_type {
            None => r matches Err(ArtifactoryError::MissingContentType),
            Some(c) => if c@ == expected@ {
                r is Ok
            } else {
                r matches Err(ArtifactoryError::WrongMimeType(t)) && t@ == c@
            },
        }),
{
    match content_type {
        None => Err(ArtifactoryError::MissingContentType),
        Some(c) => if str_eq(c, expected) {
            Ok(())
        } else {
            Err(ArtifactoryError::WrongMimeType(c.to_owned()))
        },
    }
}

} // verus!
