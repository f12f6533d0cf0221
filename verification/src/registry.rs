//! Registry references: registry URLs, aliases and their resolution.

use crate::manifest::{Dependency, DependencyManifest, DependencyManifestView, DependencyView};
use crate::text::{
    chars_contain, chars_of, copy_opt_string, has_infix, has_suffix, push_char, push_str, str_ends_with,
    str_eq, sub_string,
};
use crate::text::{dec_digits, u64_to_dec};
use crate::version::{spec_req_text, Op};
use vstd::prelude::*;

verus! {

/// What a registry logic reads of a parsed URL.
pub struct UrlView {
    /// The whole URL as the `url` crate serializes it
    pub serialization: Seq<char>,
    /// The scheme, such as `https`
    pub scheme: Seq<char>,
    /// The host, where there is one
    pub host: Option<Seq<char>>,
    /// The path, such as `/artifactory`
    pub path: Seq<char>,
}

/// What `url::Url::parse` gives for the text, held as plain values.
pub uninterp spec fn spec_url_parse(text: Seq<char>) -> Option<UrlView>;

/// `url::Url`, carried through as the `url` crate made it.
#[verifier::external_type_specification]
#[verifier::external_body]
pub struct ExUrl(url::Url);

/// A URL as the `url` crate parsed it: the crate's value, and what the
/// registry logic reads of it.
#[derive(Debug)]
pub struct ParsedUrl {
    inner: url::Url,
    serialization: String,
    scheme: String,
    host: Option<String>,
    path: String,
}

impl View for ParsedUrl {
    type V = UrlView;

    closed spec fn view(&self) -> UrlView {
        UrlView {
            serialization: self.serialization@,
            scheme: self.scheme@,
            host: match self.host {
                Some(h) => Some(h@),
                None => None,
            },
            path: self.path@,
        }
    }
}

/// `url::Url::parse`: the serialization, scheme, host and path of the parsed URL;
/// `None` where the crate refuses the text.
#[verifier::external_body]
fn url_parse(text: &str) -> (r: Option<ParsedUrl>)
    ensures
        (match r {
            Some(u) => spec_url_parse(text@) == Some(u@),
            None => spec_url_parse(text@) is None,
        }),
{
    let Ok(x) = url::Url::parse(text) else { return None };
    let (serialization, scheme) = (x.as_str().to_string(), x.scheme().to_string());
    let (host, path) = (x.host_str().map(str::to_string), x.path().to_string());
    Some(ParsedUrl { inner: x, serialization, scheme, host, path })
}

/// What `url::Url::set_path` makes of a URL.
pub uninterp spec fn spec_url_set_path(u: UrlView, path: Seq<char>) -> UrlView;

/// What `url::Url::set_query` with `Some(query)` makes of a URL.
pub uninterp spec fn spec_url_set_query(u: UrlView, query: Seq<char>) -> UrlView;

/// Whether a URL can take a path or query: the `url` crate percent-encodes
/// each character into at most 12 bytes and holds positions as `u32`, so the
/// URL's characters and the text's characters, 12 bytes each, stay below
/// `u32::MAX`.
pub open spec fn joinable(u: UrlView, text: Seq<char>) -> bool {
    12 * (u.serialization.len() + text.len()) < u32::MAX
}

/// `url::Url::set_path` on a copy of the URL. The crate panics where the
/// result's length leaves `u32`, which `joinable` rules out.
#[verifier::external_body]
fn url_set_path(u: &ParsedUrl, path: &str) -> (r: ParsedUrl)
    requires
        joinable(u@, path@),
    ensures
        r@ == spec_url_set_path(u@, path@),
{
    let mut x = u.inner.clone();
    x.set_path(path);
    let (serialization, scheme) = (x.as_str().to_string(), x.scheme().to_string());
    let (host, p) = (x.host_str().map(str::to_string), x.path().to_string());
    ParsedUrl { inner: x, serialization, scheme, host, path: p }
}

/// `url::Url::set_query` with `Some(query)` on a copy of the URL. The crate
/// panics where the result's length leaves `u32`, which `joinable` rules out.
#[verifier::external_body]
fn url_set_query(u: &ParsedUrl, query: &str) -> (r: ParsedUrl)
    requires
        joinable(u@, query@),
    ensures
        r@ == spec_url_set_query(u@, query@),
{
    let mut x = u.inner.clone();
    x.set_query(Some(query));
    let (serialization, scheme) = (x.as_str().to_string(), x.scheme().to_string());
    let (host, path) = (x.host_str().map(str::to_string), x.path().to_string());
    ParsedUrl { inner: x, serialization, scheme, host, path }
}

/// `Clone` of `url::Url`: an equal value.
#[verifier::external_body]
fn url_clone(u: &url::Url) -> (r: url::Url)
    ensures
        r == *u,
{
    u.clone()
}

impl ParsedUrl {
    /// Parses a URL; `None` where it is not one.
    pub fn parse(text: &str) -> (r: Option<ParsedUrl>)
        ensures
            (match r {
                Some(u) => spec_url_parse(text@) == Some(u@),
                None => spec_url_parse(text@) is None,
            }),
    {
        url_parse(text)
    }

    /// The URL as text.
    pub fn as_str(&self) -> (r: &str)
        ensures
            r@ == self@.serialization,
    {
        self.serialization.as_str()
    }

    /// The scheme.
    pub fn scheme(&self) -> (r: &str)
        ensures
            r@ == self@.scheme,
    {
        self.scheme.as_str()
    }

    /// The host, where there is one.
    pub fn host_str(&self) -> (r: Option<&str>)
        ensures
            (match (r, self@.host) {
                (Some(a), Some(b)) => a@ == b,
                (None, None) => true,
                _ => false,
            }),
    {
        match &self.host {
            Some(h) => Some(h.as_str()),
            None => None,
        }
    }

    /// Whether this URL can take the text as its path or query.
    pub fn can_join(&self, text: &str) -> (r: bool)
        ensures
            r == joinable(self@, text@),
    {
        let a = self.serialization.as_str().unicode_len();
        let b = text.unicode_len();
        if a as u64 >= 0x1_0000_0000u64 || b as u64 >= 0x1_0000_0000u64 {
            return false;
        }
        12 * (a as u64 + b as u64) < 0xffff_ffffu64
    }

    /// This URL with its path replaced, as the `url` crate does it.
    pub fn with_path(&self, path: &str) -> (r: ParsedUrl)
        requires
            joinable(self@, path@),
        ensures
            r@ == spec_url_set_path(self@, path@),
    {
        url_set_path(self, path)
    }

    /// This URL with its query replaced, as the `url` crate does it.
    pub fn with_query(&self, query: &str) -> (r: ParsedUrl)
        requires
            joinable(self@, query@),
        ensures
            r@ == spec_url_set_query(self@, query@),
    {
        url_set_query(self, query)
    }

    /// The value of the `url` crate that this URL holds: the one its parse,
    /// or the path or query change that made it, gave back.
    pub closed spec fn url_value(&self) -> url::Url {
        self.inner
    }

    /// The underlying URL of the `url` crate.
    pub fn as_url(&self) -> (r: &url::Url)
        ensures
            *r == self.url_value(),
    {
        &self.inner
    }

    /// The path.
    pub fn path(&self) -> (r: &str)
        ensures
            r@ == self@.path,
    {
        self.path.as_str()
    }

    /// A copy of this URL.
    pub fn duplicate(&self) -> (r: ParsedUrl)
        ensures
            r@ == self@,
            r.url_value() == self.url_value(),
    {
        ParsedUrl {
            inner: url_clone(&self.inner),
            serialization: self.serialization.clone(),
            scheme: self.scheme.clone(),
            host: copy_opt_string(&self.host),
            path: self.path.clone(),
        }
    }
}

/// Why a registry reference could not be made or used.
#[derive(Debug)]
pub enum RegistryError {
    /// The text is not a URL
    InvalidUrl(String),
    /// The URL's scheme is neither `http` nor `https`
    InvalidScheme(String),
    /// A `*.jfrog.io` URL whose path does not end with `/artifactory`
    JfrogPathMissing,
    /// The URL has no host
    MissingHost(String),
    /// No configuration was given to resolve the alias
    NoConfiguration(String),
    /// The configuration defines no registry under the alias
    UnknownAlias(String),
    /// No registry was named and the configuration names no default
    NoDefaultRegistry,
    /// The reference is an alias that was not resolved to a URL
    Unresolved(String),
    /// A local dependency has no version to name in a registry
    LocalVersion(String),
    /// The requirement has no comparator to take a version from
    UnsupportedVersionRequirement(String),
    /// The requirement does not pin one version with `=`
    VersionNotPinned(String),
    /// The pinned version has no minor number
    MissingMinor,
    /// The pinned version has no patch number
    MissingPatch,
    /// The reference stands for the configuration's default registry, which
    /// was not resolved
    UnresolvedDefault,
}

/// `http`
pub open spec fn http_text() -> Seq<char> {
    seq!['h', 't', 't', 'p']
}

/// `https`
pub open spec fn https_text() -> Seq<char> {
    seq!['h', 't', 't', 'p', 's']
}

/// `.jfrog.io`
pub open spec fn jfrog_suffix() -> Seq<char> {
    seq!['.', 'j', 'f', 'r', 'o', 'g', '.', 'i', 'o']
}

/// `/artifactory`
pub open spec fn artifactory_suffix() -> Seq<char> {
    seq!['/', 'a', 'r', 't', 'i', 'f', 'a', 'c', 't', 'o', 'r', 'y']
}

/// The first rule a URL breaks to be a registry URL, if any: its scheme must
/// be `http` or `https`; it must have a host; on a `*.jfrog.io` host its path
/// must end with `/artifactory`.
pub enum UrlCheck {
    Fine,
    BadScheme,
    JfrogPath,
    NoHost,
}

/// Which rule the URL breaks first, checked in the order above.
pub open spec fn url_check(u: UrlView) -> UrlCheck {
    if u.scheme != http_text() && u.scheme != https_text() {
        UrlCheck::BadScheme
    } else {
        match u.host {
            Some(h) => if has_suffix(h, jfrog_suffix()) && !has_suffix(u.path, artifactory_suffix()) {
                UrlCheck::JfrogPath
            } else {
                UrlCheck::Fine
            },
            None => UrlCheck::NoHost,
        }
    }
}

/// Whether the URL is fit to name a registry.
pub open spec fn registry_url_ok(u: UrlView) -> bool {
    url_check(u) is Fine
}

/// Ensures that the URL is valid for a registry: its scheme is `http` or
/// `https`, it has a host, and on a `*.jfrog.io` host its path ends with `/artifactory`.
pub fn sanity_check_url(url: &ParsedUrl) -> (r: Result<(), RegistryError>)
    ensures
        (match url_check(url@) {
            UrlCheck::Fine => r is Ok,
            UrlCheck::BadScheme => r matches Err(RegistryError::InvalidScheme(s)) && s@ == url@.scheme,
            UrlCheck::JfrogPath => r matches Err(RegistryError::JfrogPathMissing),
            UrlCheck::NoHost => r matches Err(RegistryError::MissingHost(s)) && s@ == url@.serialization,
        }),
{
    let scheme = url.scheme();
    proof {
        reveal_strlit("http");
        reveal_strlit("https");
        reveal_strlit(".jfrog.io");
        reveal_strlit("/artifactory");
    }
    assert("http"@ =~= http_text());
    assert("https"@ =~= https_text());
    assert(".jfrog.io"@ =~= jfrog_suffix());
    assert("/artifactory"@ =~= artifactory_suffix());
    if !(str_eq(scheme, "http") || str_eq(scheme, "https")) {
        let s = scheme.to_owned();
        assert(s@ == scheme@);
        return Err(RegistryError::InvalidScheme(s));
    }
    match url.host_str() {
        Some(host) => {
            if str_ends_with(host, ".jfrog.io") && !str_ends_with(url.path(), "/artifactory") {
                Err(RegistryError::JfrogPathMissing)
            } else {
                Ok(())
            }
        },
        None => Err(RegistryError::MissingHost(url.as_str().to_owned())),
    }
}

/// The URL of a registry.
#[derive(Debug)]
pub struct RegistryUri {
    url: ParsedUrl,
}

impl View for RegistryUri {
    type V = UrlView;

    closed spec fn view(&self) -> UrlView {
        self.url@
    }
}

/// The registry URL that the text names: a URL that passes the registry checks.
pub open spec fn spec_registry_uri(text: Seq<char>) -> Option<UrlView> {
    match spec_url_parse(text) {
        Some(u) => if registry_url_ok(u) { Some(u) } else { None },
        None => None,
    }
}

impl RegistryUri {
    #[verifier::type_invariant]
    spec fn wf(self) -> bool {
        registry_url_ok(self.url@)
    }

    /// Whether the URL is fit to name a registry; it always is.
    pub closed spec fn valid(self) -> bool {
        registry_url_ok(self.url@)
    }

    /// Parses a registry URL: `InvalidUrl` where the text is not a URL, else
    /// the error of [`sanity_check_url`] where it fails.
    pub fn from_str(value: &str) -> (r: Result<RegistryUri, RegistryError>)
        ensures
            (match spec_url_parse(value@) {
                None => r matches Err(RegistryError::InvalidUrl(s)) && s@ == value@,
                Some(u) => match url_check(u) {
                    UrlCheck::Fine => r matches Ok(x) && x@ == u,
                    UrlCheck::BadScheme => r matches Err(RegistryError::InvalidScheme(s)) && s@ == u.scheme,
                    UrlCheck::JfrogPath => r matches Err(RegistryError::JfrogPathMissing),
                    UrlCheck::NoHost => r matches Err(RegistryError::MissingHost(s)) && s@ == u.serialization,
                },
            }),
            r is Ok <==> spec_registry_uri(value@) is Some,
            r matches Ok(x) ==> spec_registry_uri(value@) == Some(x@),
    {
        match url_parse(value) {
            None => Err(RegistryError::InvalidUrl(value.to_owned())),
            Some(url) => {
                match sanity_check_url(&url) {
                    Ok(()) => Ok(RegistryUri { url }),
                    Err(e) => Err(e),
                }
            },
        }
    }

    /// The host of the registry.
    pub fn host(&self) -> (r: Option<&str>)
        ensures
            (match (r, self@.host) {
                (Some(a), Some(b)) => a@ == b,
                (None, None) => true,
                _ => false,
            }),
    {
        self.url.host_str()
    }

    /// The path of the registry URL.
    pub fn path(&self) -> (r: &str)
        ensures
            r@ == self@.path,
    {
        self.url.path()
    }

    /// The URL as text.
    pub fn to_string(&self) -> (r: String)
        ensures
            r@ == self@.serialization,
    {
        self.url.as_str().to_owned()
    }

    /// The parsed URL.
    pub fn url(&self) -> (r: &ParsedUrl)
        ensures
            r@ == self@,
    {
        &self.url
    }

    /// A copy of this registry URL.
    pub fn duplicate(&self) -> (r: RegistryUri)
        ensures
            r@ == self@,
    {
        proof {
            use_type_invariant(self);
        }
        RegistryUri { url: self.url.duplicate() }
    }
}

/// A reference to a registry.
#[derive(Debug)]
pub enum RegistryRef {
    /// A URL to a registry
    Url(RegistryUri),
    /// An alias to a registry
    Alias(String),
    /// A resolved alias to a registry
    ResolvedAlias {
        /// The alias
        alias: String,
        /// The resolved URL
        url: RegistryUri,
    },
    /// Use the configuration's default registry (a manifest that names none)
    UseDefault,
}

/// Abstract value of a [`RegistryRef`].
pub enum RegistryRefView {
    Url(UrlView),
    Alias(Seq<char>),
    ResolvedAlias(Seq<char>, UrlView),
    UseDefault,
}

impl View for RegistryRef {
    type V = RegistryRefView;

    open spec fn view(&self) -> RegistryRefView {
        match self {
            RegistryRef::Url(u) => RegistryRefView::Url(u@),
            RegistryRef::Alias(a) => RegistryRefView::Alias(a@),
            RegistryRef::ResolvedAlias { alias, url } => RegistryRefView::ResolvedAlias(alias@, url@),
            RegistryRef::UseDefault => RegistryRefView::UseDefault,
        }
    }
}

/// Whether ` (` stands at `i`.
pub open spec fn paren_at(t: Seq<char>, i: int) -> bool {
    0 <= i && i + 1 < t.len() && t[i] == ' ' && t[i + 1] == '('
}

/// The index of the first ` (` in the text, if any.
pub open spec fn first_open_paren(t: Seq<char>) -> Option<int> {
    if exists|i: int| #[trigger] paren_at(t, i) {
        Some(choose|i: int| #[trigger] paren_at(t, i) && forall|j: int| 0 <= j < i ==> !#[trigger] paren_at(t, j))
    } else {
        None
    }
}

/// `://`
pub open spec fn scheme_separator() -> Seq<char> {
    seq![':', '/', '/']
}

/// The alias and URL of text in the legacy `alias (url)` form: a non-empty
/// alias without `://` before the first ` (`, and a registry URL between it and
/// a closing `)` at the very end.
pub open spec fn spec_legacy_alias(t: Seq<char>) -> Option<(Seq<char>, UrlView)> {
    match first_open_paren(t) {
        None => None,
        Some(o) => {
            let alias = t.take(o);
            if alias.len() == 0 || has_infix(alias, scheme_separator()) {
                None
            } else if o + 2 > t.len() - 1 || t.last() != ')' {
                None
            } else {
                match spec_registry_uri(t.subrange(o + 2, t.len() - 1)) {
                    Some(u) => Some((alias, u)),
                    None => None,
                }
            }
        },
    }
}

/// The reference that text names: a registry URL, else the legacy
/// `alias (url)` form, else an alias.
pub open spec fn spec_registry_ref(t: Seq<char>) -> RegistryRefView {
    match spec_registry_uri(t) {
        Some(u) => RegistryRefView::Url(u),
        None => match spec_legacy_alias(t) {
            Some((a, u)) => RegistryRefView::ResolvedAlias(a, u),
            None => RegistryRefView::Alias(t),
        },
    }
}

/// The text of a reference: the URL, the alias, `alias (url)`, or `<default>`.
pub open spec fn registry_ref_text(r: RegistryRefView) -> Seq<char> {
    match r {
        RegistryRefView::Url(u) => u.serialization,
        RegistryRefView::Alias(a) => a,
        RegistryRefView::ResolvedAlias(a, u) => a + seq![' ', '('] + u.serialization + seq![')'],
        RegistryRefView::UseDefault => seq!['<', 'd', 'e', 'f', 'a', 'u', 'l', 't', '>'],
    }
}

/// The index of the first ` (`.
fn find_open_paren(t: &Vec<char>) -> (r: Option<usize>)
    ensures
        (match r {
            Some(o) => paren_at(t@, o as int) && forall|j: int| 0 <= j < o ==> !#[trigger] paren_at(t@, j),
            None => forall|j: int| !#[trigger] paren_at(t@, j),
        }),
{
    let n = t.len();
    let mut i: usize = 0;
    while i < n && 1 < n - i
        invariant
            n == t@.len(),
            i <= n,
            forall|j: int| 0 <= j < i ==> !#[trigger] paren_at(t@, j),
        decreases n - i,
    {
        if t[i] == ' ' && t[i + 1] == '(' {
            return Some(i);
        }
        i = i + 1;
    }
    assert forall|j: int| !#[trigger] paren_at(t@, j) by {
        if 0 <= j < i {
        }
    }
    None
}

/// Parses the legacy `alias (url)` form written by older versions.
fn parse_legacy_resolved_alias(value: &str) -> (r: Option<RegistryRef>)
    ensures
        (match spec_legacy_alias(value@) {
            Some((a, u)) => r matches Some(x) && x@ == RegistryRefView::ResolvedAlias(a, u),
            None => r is None,
        }),
{
    let t = chars_of(value);
    let n = t.len();
    let o = match find_open_paren(&t) {
        None => {
            assert(first_open_paren(value@) is None);
            return None;
        },
        Some(o) => o,
    };
    assert(paren_at(t@, o as int));
    assert(first_open_paren(value@) == Some(o as int)) by {
        let w = choose|w: int| #[trigger] paren_at(t@, w) && forall|j: int| 0 <= j < w ==> !#[trigger] paren_at(t@, j);
        assert(paren_at(t@, o as int) && forall|j: int| 0 <= j < o ==> !#[trigger] paren_at(t@, j));
        if w < o {
            assert(!paren_at(t@, w));
        }
        if o < w {
            assert(!paren_at(t@, o as int));
        }
    }
    let alias_chars = {
        let mut v: Vec<char> = Vec::new();
        let mut k: usize = 0;
        while k < o
            invariant
                k <= o < t@.len(),
                v@ == t@.take(k as int),
            decreases o - k,
        {
            v.push(t[k]);
            assert(v@ =~= t@.take(k + 1));
            k = k + 1;
        }
        v
    };
    let sep: Vec<char> = vec![':', '/', '/'];
    assert(sep@ =~= scheme_separator());
    if o == 0 || chars_contain(&alias_chars, &sep) {
        return None;
    }
    if o + 2 > n - 1 || t[n - 1] != ')' {
        return None;
    }
    let url_text = sub_string(&t, o + 2, n - 1);
    match RegistryUri::from_str(url_text.as_str()) {
        Ok(url) => {
            let alias = sub_string(&t, 0, o);
            assert(alias@ =~= t@.take(o as int));
            Some(RegistryRef::ResolvedAlias { alias, url })
        },
        Err(_) => None,
    }
}

impl RegistryRef {
    /// Parses a registry reference: a registry URL, the legacy `alias (url)`
    /// form, or else an alias. It never fails.
    pub fn from_str(value: &str) -> (r: Result<RegistryRef, RegistryError>)
        ensures
            r matches Ok(x) && x@ == spec_registry_ref(value@),
    {
        match RegistryUri::from_str(value) {
            Ok(uri) => Ok(RegistryRef::Url(uri)),
            Err(_) => {
                match parse_legacy_resolved_alias(value) {
                    Some(resolved) => Ok(resolved),
                    None => Ok(RegistryRef::Alias(value.to_owned())),
                }
            },
        }
    }

    /// The text of the reference: the URL, the alias, `alias (url)` for a
    /// resolved alias, `<default>` for the configuration's default.
    pub fn to_string(&self) -> (s: String)
        ensures
            s@ == registry_ref_text(self@),
    {
        match self {
            RegistryRef::Url(u) => u.to_string(),
            RegistryRef::Alias(a) => a.clone(),
            RegistryRef::ResolvedAlias { alias, url } => {
                let mut s = alias.clone();
                push_str(&mut s, " (");
                push_str(&mut s, url.url().as_str());
                push_char(&mut s, ')');
                proof {
                    reveal_strlit(" (");
                }
                assert(s@ =~= registry_ref_text(self@));
                s
            },
            RegistryRef::UseDefault => {
                let mut s = String::new();
                push_str(&mut s, "<default>");
                proof {
                    reveal_strlit("<default>");
                }
                assert(s@ =~= registry_ref_text(self@));
                s
            },
        }
    }

    /// A copy of this reference.
    pub fn duplicate(&self) -> (r: RegistryRef)
        ensures
            r@ == self@,
    {
        match self {
            RegistryRef::Url(u) => RegistryRef::Url(u.duplicate()),
            RegistryRef::Alias(a) => RegistryRef::Alias(a.clone()),
            RegistryRef::ResolvedAlias { alias, url } => RegistryRef::ResolvedAlias { alias: alias.clone(), url: url.duplicate() },
            RegistryRef::UseDefault => RegistryRef::UseDefault,
        }
    }

    /// Whether two references are the same.
    pub fn same(&self, other: &RegistryRef) -> (r: bool)
        ensures
            r == (self@ == other@),
    {
        match (self, other) {
            (RegistryRef::Url(a), RegistryRef::Url(b)) => same_url(a.url(), b.url()),
            (RegistryRef::Alias(a), RegistryRef::Alias(b)) => str_eq(a.as_str(), b.as_str()),
            (RegistryRef::ResolvedAlias { alias: a, url: u }, RegistryRef::ResolvedAlias { alias: b, url: v }) =>
                str_eq(a.as_str(), b.as_str()) && same_url(u.url(), v.url()),
            (RegistryRef::UseDefault, RegistryRef::UseDefault) => true,
            _ => false,
        }
    }

    /// The text that records a resolved reference: the URL of a URL or of a
    /// resolved alias; `Unresolved` for an alias or the default.
    pub fn serialize_resolved(&self) -> (r: Result<String, RegistryError>)
        ensures
            (match self@ {
                RegistryRefView::Url(u) => r matches Ok(t) && t@ == u.serialization,
                RegistryRefView::ResolvedAlias(_, u) => r matches Ok(t) && t@ == u.serialization,
                _ => r matches Err(RegistryError::Unresolved(s)) && s@ == registry_ref_text(self@),
            }),
    {
        match self {
            RegistryRef::Url(u) => Ok(u.to_string()),
            RegistryRef::ResolvedAlias { url, .. } => Ok(url.to_string()),
            _ => Err(RegistryError::Unresolved(self.to_string())),
        }
    }

    /// The text that records a reference in a manifest: the URL of a URL or
    /// of a resolved alias, the alias of an alias; `UnresolvedDefault` for the
    /// configuration's default, which must be resolved first.
    pub fn serialized(&self) -> (r: Result<String, RegistryError>)
        ensures
            (match self@ {
                RegistryRefView::Url(u) => r matches Ok(t) && t@ == u.serialization,
                RegistryRefView::ResolvedAlias(_, u) => r matches Ok(t) && t@ == u.serialization,
                RegistryRefView::Alias(a) => r matches Ok(t) && t@ == a,
                RegistryRefView::UseDefault => r matches Err(RegistryError::UnresolvedDefault),
            }),
    {
        match self {
            RegistryRef::Url(u) => Ok(u.to_string()),
            RegistryRef::ResolvedAlias { url, .. } => Ok(url.to_string()),
            RegistryRef::Alias(a) => Ok(a.clone()),
            RegistryRef::UseDefault => Err(RegistryError::UnresolvedDefault),
        }
    }

    /// The registry URL of a URL or a resolved alias; `Unresolved` for an alias
    /// or the default.
    pub fn to_uri(&self) -> (r: Result<RegistryUri, RegistryError>)
        ensures
            (match self@ {
                RegistryRefView::Url(u) => r matches Ok(x) && x@ == u,
                RegistryRefView::ResolvedAlias(_, u) => r matches Ok(x) && x@ == u,
                _ => r matches Err(RegistryError::Unresolved(s)) && s@ == registry_ref_text(self@),
            }),
    {
        match self {
            RegistryRef::Url(u) => Ok(u.duplicate()),
            RegistryRef::ResolvedAlias { url, .. } => Ok(url.duplicate()),
            _ => Err(RegistryError::Unresolved(self.to_string())),
        }
    }

    /// The reference with an alias or the default resolved through the
    /// configuration. An alias needs a configuration that defines it; the
    /// default stays as it is without a configuration, and is otherwise the
    /// configuration's default registry, itself resolved. URLs and resolved
    /// aliases stay as they are.
    pub fn with_alias_resolved(&self, config: Option<&RegistryConfig>) -> (r: Result<RegistryRef, RegistryError>)
        ensures
            r is Ok <==> spec_resolved(self@, opt_config(config)) is Some,
            r matches Ok(x) ==> spec_resolved(self@, opt_config(config)) == Some(x@),
            (match (self@, config) {
                (RegistryRefView::Alias(a), None) => r matches Err(RegistryError::NoConfiguration(s)) && s@ == a,
                (RegistryRefView::Alias(a), Some(c)) => match c.lookup_spec(a) {
                    Some(u) => r matches Ok(x) && x@ == RegistryRefView::ResolvedAlias(a, u),
                    None => r matches Err(RegistryError::UnknownAlias(s)) && s@ == a,
                },
                (RegistryRefView::UseDefault, None) => r matches Ok(x) && x@ == RegistryRefView::UseDefault,
                (RegistryRefView::UseDefault, Some(c)) => match c.default_spec() {
                    None => r matches Err(RegistryError::NoDefaultRegistry),
                    Some(d) => match spec_registry_ref(d) {
                        RegistryRefView::Alias(a) => match c.lookup_spec(a) {
                            Some(u) => r matches Ok(x) && x@ == RegistryRefView::ResolvedAlias(a, u),
                            None => r matches Err(RegistryError::UnknownAlias(s)) && s@ == a,
                        },
                        other => r matches Ok(x) && x@ == other,
                    },
                },
                (other, _) => r matches Ok(x) && x@ == other,
            }),
    {
        match self {
            RegistryRef::Alias(alias) => match config {
                Some(config) => match config.lookup_registry(alias.as_str()) {
                    Ok(url) => Ok(RegistryRef::ResolvedAlias { alias: alias.clone(), url: url.duplicate() }),
                    Err(e) => Err(e),
                },
                None => Err(RegistryError::NoConfiguration(alias.clone())),
            },
            RegistryRef::UseDefault => match config {
                Some(config) => {
                    let default_ref = match config.default_registry_ref() {
                        Ok(d) => d,
                        Err(e) => return Err(e),
                    };
                    match &default_ref {
                        RegistryRef::Alias(alias) => match config.lookup_registry(alias.as_str()) {
                            Ok(url) => Ok(RegistryRef::ResolvedAlias { alias: alias.clone(), url: url.duplicate() }),
                            Err(e) => Err(e),
                        },
                        _ => Ok(default_ref),
                    }
                },
                None => Ok(RegistryRef::UseDefault),
            },
            _ => Ok(self.duplicate()),
        }
    }
}

/// The configuration behind an optional reference.
pub open spec fn opt_config(config: Option<&RegistryConfig>) -> Option<RegistryConfig> {
    match config {
        Some(c) => Some(*c),
        None => None,
    }
}

/// What resolving a reference through an optional configuration gives;
/// `None` where it fails.
pub open spec fn spec_resolved(r: RegistryRefView, config: Option<RegistryConfig>) -> Option<RegistryRefView> {
    match (r, config) {
        (RegistryRefView::Alias(_), None) => None,
        (RegistryRefView::Alias(a), Some(c)) => match c.lookup_spec(a) {
            Some(u) => Some(RegistryRefView::ResolvedAlias(a, u)),
            None => None,
        },
        (RegistryRefView::UseDefault, None) => Some(RegistryRefView::UseDefault),
        (RegistryRefView::UseDefault, Some(c)) => match c.default_spec() {
            None => None,
            Some(d) => match spec_registry_ref(d) {
                RegistryRefView::Alias(a) => match c.lookup_spec(a) {
                    Some(u) => Some(RegistryRefView::ResolvedAlias(a, u)),
                    None => None,
                },
                other => Some(other),
            },
        },
        (other, _) => Some(other),
    }
}

/// Whether two parsed URLs are the same.
fn same_url(a: &ParsedUrl, b: &ParsedUrl) -> (r: bool)
    ensures
        r == (a@ == b@),
{
    let hosts_same = match (a.host_str(), b.host_str()) {
        (Some(x), Some(y)) => str_eq(x, y),
        (None, None) => true,
        _ => false,
    };
    str_eq(a.as_str(), b.as_str()) && str_eq(a.scheme(), b.scheme()) && hosts_same && str_eq(a.path(), b.path())
}

/// The registries a configuration defines by alias, and its default registry.
#[derive(Debug)]
pub struct RegistryConfig {
    /// Registry URLs by alias; a later entry for an alias replaces an earlier one
    pub registries: Vec<(String, RegistryUri)>,
    /// The registry to use where none is named (an alias or a URL)
    pub default_registry: Option<String>,
}

/// The URL last recorded under an alias.
pub open spec fn alias_lookup(s: Seq<(String, RegistryUri)>, alias: Seq<char>) -> Option<UrlView>
    decreases s.len(),
{
    if s.len() == 0 {
        None
    } else if s.last().0@ == alias {
        Some(s.last().1@)
    } else {
        alias_lookup(s.drop_last(), alias)
    }
}

impl RegistryConfig {
    /// The URL defined for an alias.
    pub open spec fn lookup_spec(&self, alias: Seq<char>) -> Option<UrlView> {
        alias_lookup(self.registries@, alias)
    }

    /// The text of the default registry.
    pub open spec fn default_spec(&self) -> Option<Seq<char>> {
        match self.default_registry {
            Some(d) => Some(d@),
            None => None,
        }
    }

    /// The URL defined for an alias; `UnknownAlias` where there is none.
    pub fn lookup_registry(&self, alias: &str) -> (r: Result<&RegistryUri, RegistryError>)
        ensures
            (match self.lookup_spec(alias@) {
                Some(u) => r matches Ok(x) && x@ == u,
                None => r matches Err(RegistryError::UnknownAlias(s)) && s@ == alias@,
            }),
    {
        let mut i: usize = self.registries.len();
        assert(self.registries@.take(i as int) =~= self.registries@);
        while i > 0
            invariant
                i <= self.registries@.len(),
                self.lookup_spec(alias@) == alias_lookup(self.registries@.take(i as int), alias@),
            decreases i,
        {
            assert(self.registries@.take(i as int).drop_last() =~= self.registries@.take(i - 1));
            if str_eq(self.registries[i - 1].0.as_str(), alias) {
                return Ok(&self.registries[i - 1].1);
            }
            i = i - 1;
        }
        Err(RegistryError::UnknownAlias(alias.to_owned()))
    }

    /// The default registry as a reference; `NoDefaultRegistry` where none is set.
    pub fn default_registry_ref(&self) -> (r: Result<RegistryRef, RegistryError>)
        ensures
            (match self.default_spec() {
                Some(d) => r matches Ok(x) && x@ == spec_registry_ref(d),
                None => r matches Err(RegistryError::NoDefaultRegistry),
            }),
    {
        match &self.default_registry {
            Some(d) => RegistryRef::from_str(d.as_str()),
            None => Err(RegistryError::NoDefaultRegistry),
        }
    }
}

/// What the version of a dependency reads in a registry: the exact
/// `major.minor.patch[-pre]` of a requirement whose first comparator is `=`
/// with all three numbers; the reason otherwise.
pub enum VersionText {
    Text(Seq<char>),
    Local,
    NoComparator,
    NotPinned,
    NoMinor,
    NoPatch,
}

/// The registry version text of a dependency, or why there is none.
pub open spec fn spec_dependency_version(d: DependencyView) -> VersionText {
    match d.manifest {
        DependencyManifestView::Local(_) => VersionText::Local,
        DependencyManifestView::Remote(m) => if m.version.len() == 0 {
            VersionText::NoComparator
        } else if m.version[0].op != Op::Exact {
            VersionText::NotPinned
        } else {
            match (m.version[0].minor, m.version[0].patch) {
                (None, _) => VersionText::NoMinor,
                (Some(_), None) => VersionText::NoPatch,
                (Some(minor), Some(patch)) => VersionText::Text(
                    dec_digits(m.version[0].major as nat) + seq!['.'] + dec_digits(minor as nat) + seq!['.']
                        + dec_digits(patch as nat)
                        + (if m.version[0].pre.len() == 0 { Seq::empty() } else { seq!['-'] + m.version[0].pre }),
                ),
            }
        },
    }
}

/// The version of a dependency as a registry names it (`1.2.3`, `1.2.3-beta`):
/// only a remote dependency pinned with `=` to a full version has one.
pub fn dependency_version_string(dependency: &Dependency) -> (r: Result<String, RegistryError>)
    ensures
        (match spec_dependency_version(dependency@) {
            VersionText::Text(t) => r matches Ok(s) && s@ == t,
            VersionText::Local => r matches Err(RegistryError::LocalVersion(n)) && n@ == dependency@.package,
            VersionText::NoComparator => r matches Err(RegistryError::UnsupportedVersionRequirement(q))
                && q@ == spec_req_text(dependency@.manifest->Remote_0.version),
            VersionText::NotPinned => r matches Err(RegistryError::VersionNotPinned(q))
                && q@ == spec_req_text(dependency@.manifest->Remote_0.version),
            VersionText::NoMinor => r matches Err(RegistryError::MissingMinor),
            VersionText::NoPatch => r matches Err(RegistryError::MissingPatch),
        }),
{
    let manifest = match &dependency.manifest {
        DependencyManifest::Remote(m) => m,
        DependencyManifest::Local(_) => return Err(RegistryError::LocalVersion(dependency.package.to_string())),
    };
    let cs = manifest.version.comparators();
    if cs.len() == 0 {
        return Err(RegistryError::UnsupportedVersionRequirement(manifest.version.to_string()));
    }
    let c = &cs[0];
    assert(manifest.version@[0] == c@);
    if c.op() != Op::Exact {
        return Err(RegistryError::VersionNotPinned(manifest.version.to_string()));
    }
    let minor = match c.minor() {
        Some(m) => m,
        None => return Err(RegistryError::MissingMinor),
    };
    let patch = match c.patch() {
        Some(p) => p,
        None => return Err(RegistryError::MissingPatch),
    };
    let mut s = u64_to_dec(c.major());
    push_char(&mut s, '.');
    let m = u64_to_dec(minor);
    push_str(&mut s, m.as_str());
    push_char(&mut s, '.');
    let p = u64_to_dec(patch);
    push_str(&mut s, p.as_str());
    if !c.pre().is_empty() {
        push_char(&mut s, '-');
        push_str(&mut s, c.pre());
    }
    assert(s@ =~= spec_dependency_version(dependency@)->Text_0);
    Ok(s)
}

} // verus!
