//! Scanning protobuf files for their `package` declarations.

use crate::digest::{hex_lower, sha256_digest, spec_sha256, to_hex_lower};
use crate::package::PackageName;
use crate::text::{chars_of, string_from_chars};
use crate::version::{Version, VersionView};
use vstd::string::StringSliceAdditionalSpecFns;
use vstd::prelude::*;

verus! {

/// Where the comment stripper stands: in code, in a `/* */` comment, or in a `//` comment.
pub enum StripState {
    Code,
    Block,
    Line,
}

/// The text with `//` and `/* */` comments removed. A line comment keeps
/// its closing newline; an unterminated comment runs to the end.
pub open spec fn strip_comments(s: Seq<char>, st: StripState) -> Seq<char>
    decreases s.len(),
{
    if s.len() == 0 {
        Seq::empty()
    } else {
        match st {
            StripState::Block => if s[0] == '*' && s.len() > 1 && s[1] == '/' {
                strip_comments(s.skip(2), StripState::Code)
            } else {
                strip_comments(s.skip(1), StripState::Block)
            },
            StripState::Line => if s[0] == '\n' {
                seq!['\n'] + strip_comments(s.skip(1), StripState::Code)
            } else {
                strip_comments(s.skip(1), StripState::Line)
            },
            StripState::Code => if s[0] == '/' && s.len() > 1 && s[1] == '/' {
                strip_comments(s.skip(2), StripState::Line)
            } else if s[0] == '/' && s.len() > 1 && s[1] == '*' {
                strip_comments(s.skip(2), StripState::Block)
            } else {
                seq![s[0]] + strip_comments(s.skip(1), StripState::Code)
            },
        }
    }
}

/// ASCII letters, digits and `_`.
pub open spec fn is_word_char(c: char) -> bool {
    ('A' <= c && c <= 'Z') || ('a' <= c && c <= 'z') || ('0' <= c && c <= '9') || c == '_'
}

/// Space, tab, carriage return, newline.
pub open spec fn is_space_char(c: char) -> bool {
    c == ' ' || c == '\t' || c == '\r' || c == '\n'
}

/// Characters of a protobuf package name: word characters and `.`.
pub open spec fn is_package_char(c: char) -> bool {
    is_word_char(c) || c == '.'
}

/// The keyword `package`.
pub open spec fn package_keyword() -> Seq<char> {
    seq!['p', 'a', 'c', 'k', 'a', 'g', 'e']
}

/// The first index at or after `j` that does not hold a space character.
pub open spec fn skip_spaces(t: Seq<char>, j: int) -> int
    decreases t.len() - j,
{
    if j < t.len() && is_space_char(t[j]) {
        skip_spaces(t, j + 1)
    } else {
        j
    }
}

/// The first index at or after `j` that does not hold a package-name character.
pub open spec fn skip_package_chars(t: Seq<char>, j: int) -> int
    decreases t.len() - j,
{
    if j < t.len() && is_package_char(t[j]) {
        skip_package_chars(t, j + 1)
    } else {
        j
    }
}

/// Whether the keyword `package` stands at `i` as a word followed by a space character.
pub open spec fn keyword_at(t: Seq<char>, i: int) -> bool {
    &&& 0 <= i && i + 7 <= t.len()
    &&& t.subrange(i, i + 7) == package_keyword()
    &&& (i == 0 || !is_word_char(t[i - 1]))
    &&& (i + 7 == t.len() || is_space_char(t[i + 7]))
}

/// The first valid `package NAME;` statement at or after `i`: a keyword with
/// no name after it, or whose name is not followed by `;`, is passed over.
pub open spec fn find_package(t: Seq<char>, i: int) -> Option<Seq<char>>
    decreases t.len() - i,
{
    if i < 0 || i + 7 > t.len() {
        None
    } else if keyword_at(t, i) {
        let start = skip_spaces(t, i + 7);
        let j = skip_package_chars(t, start);
        let k = skip_spaces(t, j);
        if start < j && k < t.len() && t[k] == ';' {
            Some(t.subrange(start, j))
        } else {
            find_package(t, i + 1)
        }
    } else {
        find_package(t, i + 1)
    }
}

/// The package that a protobuf file declares: the first `package NAME;`
/// statement outside comments.
pub open spec fn spec_proto_package(contents: Seq<char>) -> Option<Seq<char>> {
    find_package(strip_comments(contents, StripState::Code), 0)
}

/// Removes comments from the characters.
fn strip_comment_chars(s: &Vec<char>) -> (out: Vec<char>)
    ensures
        out@ == strip_comments(s@, StripState::Code),
{
    let mut out: Vec<char> = Vec::new();
    let mut pos: usize = 0;
    let mut st = StripState::Code;
    assert(s@.skip(0) =~= s@);
    while pos < s.len()
        invariant
            pos <= s.len(),
            out@ + strip_comments(s@.skip(pos as int), st) == strip_comments(s@, StripState::Code),
        decreases s.len() - pos,
    {
        let ghost rest = s@.skip(pos as int);
        let c = s[pos];
        let has_next = pos + 1 < s.len();
        match st {
            StripState::Block => {
                if c == '*' && has_next && s[pos + 1] == '/' {
                    assert(rest.skip(2) =~= s@.skip(pos + 2));
                    pos = pos + 2;
                    st = StripState::Code;
                } else {
                    assert(rest.skip(1) =~= s@.skip(pos + 1));
                    pos = pos + 1;
                }
            },
            StripState::Line => {
                assert(rest.skip(1) =~= s@.skip(pos + 1));
                if c == '\n' {
                    let ghost before = out@;
                    out.push('\n');
                    assert(out@ + strip_comments(s@.skip(pos + 1), StripState::Code) =~= before + (seq!['\n'] + strip_comments(rest.skip(1), StripState::Code)));
                    st = StripState::Code;
                }
                pos = pos + 1;
            },
            StripState::Code => {
                if c == '/' && has_next && s[pos + 1] == '/' {
                    assert(rest.skip(2) =~= s@.skip(pos + 2));
                    pos = pos + 2;
                    st = StripState::Line;
                } else if c == '/' && has_next && s[pos + 1] == '*' {
                    assert(rest.skip(2) =~= s@.skip(pos + 2));
                    pos = pos + 2;
                    st = StripState::Block;
                } else {
                    assert(rest.skip(1) =~= s@.skip(pos + 1));
                    let ghost before = out@;
                    out.push(c);
                    assert(out@ + strip_comments(s@.skip(pos + 1), StripState::Code) =~= before + (seq![c] + strip_comments(rest.skip(1), StripState::Code)));
                    pos = pos + 1;
                }
            },
        }
    }
    assert(out@ =~= out@ + strip_comments(s@.skip(pos as int), st));
    out
}

fn is_word(c: char) -> (r: bool)
    ensures
        r == is_word_char(c),
{
    ('A' <= c && c <= 'Z') || ('a' <= c && c <= 'z') || ('0' <= c && c <= '9') || c == '_'
}

fn is_space(c: char) -> (r: bool)
    ensures
        r == is_space_char(c),
{
    c == ' ' || c == '\t' || c == '\r' || c == '\n'
}

fn spaces_end(t: &Vec<char>, j: usize) -> (r: usize)
    requires
        j <= t@.len(),
    ensures
        r == skip_spaces(t@, j as int),
        j <= r <= t@.len(),
    decreases t@.len() - j,
{
    if j < t.len() && is_space(t[j]) {
        spaces_end(t, j + 1)
    } else {
        j
    }
}

fn package_chars_end(t: &Vec<char>, j: usize) -> (r: usize)
    requires
        j <= t@.len(),
    ensures
        r == skip_package_chars(t@, j as int),
        j <= r <= t@.len(),
    decreases t@.len() - j,
{
    if j < t.len() && (is_word(t[j]) || t[j] == '.') {
        package_chars_end(t, j + 1)
    } else {
        j
    }
}

fn keyword_at_exec(t: &Vec<char>, i: usize) -> (r: bool)
    requires
        i + 7 <= t@.len(),
    ensures
        r == keyword_at(t@, i as int),
{
    let n = t.len();
    let kw = t[i] == 'p' && t[i + 1] == 'a' && t[i + 2] == 'c' && t[i + 3] == 'k' && t[i + 4] == 'a'
        && t[i + 5] == 'g' && t[i + 6] == 'e';
    assert(kw == (t@.subrange(i as int, i + 7) =~= package_keyword()));
    let prev_ok = i == 0 || !is_word(t[i - 1]);
    let next_ok = i + 7 == n || is_space(t[i + 7]);
    kw && prev_ok && next_ok
}

/// Extracts the protobuf `package` statement from file contents: the name in
/// the first `package NAME;` outside `//` and `/* */` comments.
pub fn extract_proto_package(contents: &str) -> (r: Option<String>)
    ensures
        (match r {
            Some(p) => spec_proto_package(contents@) == Some(p@),
            None => spec_proto_package(contents@) is None,
        }),
{
    let chars = chars_of(contents);
    let t = strip_comment_chars(&chars);
    let mut i: usize = 0;
    let n = t.len();
    while i < n && n - i >= 7
        invariant
            n == t@.len(),
            i <= n,
            t@ == strip_comments(contents@, StripState::Code),
            find_package(t@, 0) == find_package(t@, i as int),
        decreases n - i,
    {
        if keyword_at_exec(&t, i) {
            let start = spaces_end(&t, i + 7);
            let j = package_chars_end(&t, start);
            let k = spaces_end(&t, j);
            if start < j && k < t.len() && t[k] == ';' {
                let mut name: Vec<char> = Vec::new();
                let mut m = start;
                while m < j
                    invariant
                        start <= m <= j <= t@.len(),
                        name@ == t@.subrange(start as int, m as int),
                    decreases j - m,
                {
                    name.push(t[m]);
                    m = m + 1;
                }
                assert(name@ =~= t@.subrange(start as int, j as int));
                return Some(string_from_chars(&name));
            }
        }
        i = i + 1;
    }
    None
}


/// The SHA-256 digest of a text's UTF-8 bytes, as 64 lower-case hexadecimal digits.
pub fn content_hash(content: &str) -> (r: String)
    ensures
        r@ == hex_lower(spec_sha256(content.spec_bytes())),
        r@.len() == 64,
{
    let digest = sha256_digest(content.as_bytes());
    to_hex_lower(digest.as_slice())
}

/// A protobuf namespace declaration.
#[derive(Debug)]
pub struct NamespaceInfo {
    /// The protobuf package name (e.g. `lib.base.v1`)
    pub namespace: String,
    /// The file that holds the declaration
    pub source_file: String,
    /// SHA-256 of the file's contents, in hexadecimal
    pub content_hash: String,
}

/// The namespaces that one package declares.
#[derive(Debug)]
pub struct PackageNamespaces {
    /// Package name
    pub name: PackageName,
    /// Package version
    pub version: Version,
    /// The namespaces that the package declares
    pub namespaces: Vec<NamespaceInfo>,
}

/// One declaration of a namespace: package name, version, source file, content hash.
pub type NamespaceOwnerRecord = (PackageName, Version, String, String);

/// Abstract value of a [`NamespaceOwnerRecord`].
pub type OwnerView = (Seq<char>, VersionView, Seq<char>, Seq<char>);

/// The view of an owner record.
pub open spec fn owner_view(o: NamespaceOwnerRecord) -> OwnerView {
    (o.0@, o.1@, o.2@, o.3@)
}

/// The views of owner records.
pub open spec fn owners_view(s: Seq<NamespaceOwnerRecord>) -> Seq<OwnerView> {
    s.map_values(|o: NamespaceOwnerRecord| owner_view(o))
}

/// Abstract value of one namespace and the packages that declare it.
pub type NamespaceEntryView = (Seq<char>, Seq<OwnerView>);

/// The view of a namespace entry.
pub open spec fn entry_view(e: (String, Vec<NamespaceOwnerRecord>)) -> NamespaceEntryView {
    (e.0@, owners_view(e.1@))
}

/// The views of namespace entries.
pub open spec fn entries_view(s: Seq<(String, Vec<NamespaceOwnerRecord>)>) -> Seq<NamespaceEntryView> {
    s.map_values(|e: (String, Vec<NamespaceOwnerRecord>)| entry_view(e))
}

/// A namespace that more than one package@version declares.
pub open spec fn is_version_conflict(e: NamespaceEntryView) -> bool {
    e.1.len() > 1 && exists|k: int| 0 <= k < e.1.len() && !(#[trigger] e.1[k].0 == e.1[0].0 && e.1[k].1 == e.1[0].1)
}

/// Whether two declarations differ in content and come from different
/// package versions.
pub open spec fn differ_across_versions(a: OwnerView, b: OwnerView) -> bool {
    a.3 != b.3 && !(a.0 == b.0 && a.1 == b.1)
}

/// A namespace that different package versions declare with contents that differ.
pub open spec fn is_content_conflict(e: NamespaceEntryView) -> bool {
    exists|k: int, m: int| 0 <= k < e.1.len() && 0 <= m < e.1.len()
        && #[trigger] differ_across_versions(e.1[k], e.1[m])
}

/// The entries that are version conflicts, in order.
pub open spec fn version_conflict_entries(s: Seq<NamespaceEntryView>) -> Seq<NamespaceEntryView>
    decreases s.len(),
{
    if s.len() == 0 {
        s
    } else if is_version_conflict(s.last()) {
        version_conflict_entries(s.drop_last()).push(s.last())
    } else {
        version_conflict_entries(s.drop_last())
    }
}

/// The entries that are content conflicts, in order.
pub open spec fn content_conflict_entries(s: Seq<NamespaceEntryView>) -> Seq<NamespaceEntryView>
    decreases s.len(),
{
    if s.len() == 0 {
        s
    } else if is_content_conflict(s.last()) {
        content_conflict_entries(s.drop_last()).push(s.last())
    } else {
        content_conflict_entries(s.drop_last())
    }
}

/// The result of scanning packages for the namespaces they declare.
#[derive(Debug)]
pub struct NamespaceScanResult {
    /// Each namespace, once, with the packages that declare it (package,
    /// version, source file, content hash), in the order they were scanned.
    pub(crate) namespace_to_packages: Vec<(String, Vec<NamespaceOwnerRecord>)>,
    /// All packages with their namespace declarations.
    pub(crate) packages: Vec<PackageNamespaces>,
}

/// A copy of an owner record.
fn copy_owner(o: &NamespaceOwnerRecord) -> (r: NamespaceOwnerRecord)
    ensures
        owner_view(r) == owner_view(*o),
{
    (o.0.duplicate(), o.1.duplicate(), o.2.clone(), o.3.clone())
}

/// A copy of a namespace entry.
fn copy_entry(e: &(String, Vec<NamespaceOwnerRecord>)) -> (r: (String, Vec<NamespaceOwnerRecord>))
    ensures
        entry_view(r) == entry_view(*e),
{
    let mut owners: Vec<NamespaceOwnerRecord> = Vec::new();
    let mut i: usize = 0;
    while i < e.1.len()
        invariant
            i <= e.1@.len(),
            owners_view(owners@) == owners_view(e.1@).take(i as int),
        decreases e.1@.len() - i,
    {
        let o = copy_owner(&e.1[i]);
        let ghost before = owners@;
        owners.push(o);
        assert(owners_view(owners@) =~= owners_view(before).push(owner_view(e.1@[i as int])));
        i = i + 1;
        assert(owners_view(owners@) =~= owners_view(e.1@).take(i as int));
    }
    assert(owners_view(e.1@).take(i as int) =~= owners_view(e.1@));
    (e.0.clone(), owners)
}

fn is_version_conflict_exec(e: &(String, Vec<NamespaceOwnerRecord>)) -> (r: bool)
    ensures
        r == is_version_conflict(entry_view(*e)),
{
    let owners = &e.1;
    if owners.len() <= 1 {
        return false;
    }
    let ghost ov = owners_view(owners@);
    assert(ov == entry_view(*e).1);
    let mut k: usize = 0;
    while k < owners.len()
        invariant
            ov == owners_view(owners@),
            owners@.len() > 1,
            k <= owners@.len(),
            ov == entry_view(*e).1,
            forall|m: int| 0 <= m < k ==> (#[trigger] ov[m].0 == ov[0].0 && ov[m].1 == ov[0].1),
        decreases owners@.len() - k,
    {
        assert(ov[k as int] == owner_view(owners@[k as int]));
        assert(ov[0] == owner_view(owners@[0]));
        let same_name = owners[k].0.same(&owners[0].0);
        let same_version = owners[k].1 == owners[0].1;
        assert(same_name == (ov[k as int].0 == ov[0].0));
        assert(same_version == (ov[k as int].1 == ov[0].1));
        if !same_name || !same_version {
            assert(ov[k as int].0 != ov[0].0 || ov[k as int].1 != ov[0].1);
            assert(is_version_conflict(entry_view(*e)));
            return true;
        }
        assert(ov[k as int].0 == ov[0].0 && ov[k as int].1 == ov[0].1);
        k = k + 1;
    }
    false
}

fn is_content_conflict_exec(e: &(String, Vec<NamespaceOwnerRecord>)) -> (r: bool)
    ensures
        r == is_content_conflict(entry_view(*e)),
{
    let owners = &e.1;
    let ghost ov = owners_view(owners@);
    assert(ov == entry_view(*e).1);
    let mut k: usize = 0;
    while k < owners.len()
        invariant
            ov == owners_view(owners@),
            k <= owners@.len(),
            ov == entry_view(*e).1,
            forall|a: int, b: int| 0 <= a < k && 0 <= b < ov.len() ==> !#[trigger] differ_across_versions(ov[a], ov[b]),
        decreases owners@.len() - k,
    {
        let mut m: usize = 0;
        while m < owners.len()
            invariant
                ov == owners_view(owners@),
                k < owners@.len(),
                m <= owners@.len(),
                ov == entry_view(*e).1,
                forall|a: int, b: int| 0 <= a < k && 0 <= b < ov.len() ==> !#[trigger] differ_across_versions(ov[a], ov[b]),
                forall|b: int| 0 <= b < m ==> !#[trigger] differ_across_versions(ov[k as int], ov[b]),
            decreases owners@.len() - m,
        {
            assert(ov[k as int] == owner_view(owners@[k as int]));
            assert(ov[m as int] == owner_view(owners@[m as int]));
            let same_name = owners[k].0.same(&owners[m].0);
            let same_version = owners[k].1 == owners[m].1;
            let same_hash = owners[k].3 == owners[m].3;
            assert(same_hash == (ov[k as int].3 == ov[m as int].3));
            if !same_hash && !(same_name && same_version) {
                assert(differ_across_versions(ov[k as int], ov[m as int]));
                return true;
            }
            m = m + 1;
        }
        k = k + 1;
    }
    false
}

impl NamespaceScanResult {
    #[verifier::type_invariant]
    spec fn wf(self) -> bool {
        distinct_namespaces(entries_view(self.namespace_to_packages@))
    }

    /// Each namespace with the packages that declare it, in scan order.
    pub closed spec fn entries(&self) -> Seq<NamespaceEntryView> {
        entries_view(self.namespace_to_packages@)
    }

    /// The packages scanned, with their declarations, in scan order.
    pub closed spec fn scanned(&self) -> Seq<PackageNamespaces> {
        self.packages@
    }

    /// An empty scan result.
    pub fn new() -> (r: NamespaceScanResult)
        ensures
            r.entries().len() == 0,
            r.scanned().len() == 0,
    {
        NamespaceScanResult { namespace_to_packages: Vec::new(), packages: Vec::new() }
    }

    /// Each namespace with the packages that declare it, in scan order; no
    /// namespace occurs twice.
    pub fn namespace_to_packages(&self) -> (r: &Vec<(String, Vec<NamespaceOwnerRecord>)>)
        ensures
            entries_view(r@) == self.entries(),
            distinct_namespaces(self.entries()),
    {
        proof {
            use_type_invariant(self);
        }
        &self.namespace_to_packages
    }

    /// The packages scanned, with their declarations, in scan order.
    pub fn packages(&self) -> (r: &Vec<PackageNamespaces>)
        ensures
            r@ == self.scanned(),
    {
        &self.packages
    }

    /// Namespaces that more than one package@version declares, in scan order.
    pub fn conflicts(&self) -> (r: Vec<(String, Vec<NamespaceOwnerRecord>)>)
        ensures
            entries_view(r@) == version_conflict_entries(self.entries()),
            distinct_namespaces(entries_view(r@)),
    {
        proof {
            use_type_invariant(self);
        }
        let ghost all = entries_view(self.namespace_to_packages@);
        let mut r: Vec<(String, Vec<NamespaceOwnerRecord>)> = Vec::new();
        let mut i: usize = 0;
        while i < self.namespace_to_packages.len()
            invariant
                all == entries_view(self.namespace_to_packages@),
                distinct_namespaces(all),
                i <= all.len(),
                entries_view(r@) == version_conflict_entries(all.take(i as int)),
                distinct_namespaces(entries_view(r@)),
                forall|x: int| #![trigger entries_view(r@)[x]] 0 <= x < r@.len() ==> exists|j: int| 0 <= j < i && (#[trigger] all[j]).0 == entries_view(r@)[x].0,
            decreases all.len() - i,
        {
            proof {
                assert(all.take(i + 1).drop_last() =~= all.take(i as int));
            }
            assert(all[i as int] == entry_view(self.namespace_to_packages@[i as int]));
            if is_version_conflict_exec(&self.namespace_to_packages[i]) {
                let c = copy_entry(&self.namespace_to_packages[i]);
                let ghost before = r@;
                r.push(c);
                assert(entries_view(r@) =~= entries_view(before).push(all[i as int]));
                proof {
                    let rv = entries_view(r@);
                    assert forall|x: int| #![trigger rv[x]] 0 <= x < r@.len() implies exists|j: int| 0 <= j < i + 1 && (#[trigger] all[j]).0 == rv[x].0 by {
                        if x < before.len() {
                            let j = choose|j: int| 0 <= j < i && (#[trigger] all[j]).0 == entries_view(before)[x].0;
                            assert(all[j].0 == rv[x].0);
                        } else {
                            assert(all[i as int].0 == rv[x].0);
                        }
                    }
                    assert forall|a: int, b: int| 0 <= a < rv.len() && 0 <= b < rv.len() && a != b
                        implies (#[trigger] rv[a]).0 != (#[trigger] rv[b]).0 by {
                        if a < before.len() && b < before.len() {
                            assert(rv[a] == entries_view(before)[a] && rv[b] == entries_view(before)[b]);
                        } else if a == before.len() {
                            let j = choose|j: int| 0 <= j < i && (#[trigger] all[j]).0 == entries_view(before)[b].0;
                            assert(rv[b] == entries_view(before)[b]);
                            assert(all[j].0 != all[i as int].0);
                        } else {
                            let j = choose|j: int| 0 <= j < i && (#[trigger] all[j]).0 == entries_view(before)[a].0;
                            assert(rv[a] == entries_view(before)[a]);
                            assert(all[j].0 != all[i as int].0);
                        }
                    }
                }
            }
            i = i + 1;
        }
        assert(all.take(i as int) =~= all);
        r
    }

    /// Namespaces that different package versions declare with contents that
    /// differ, in scan order.
    pub fn content_conflicts(&self) -> (r: Vec<(String, Vec<NamespaceOwnerRecord>)>)
        ensures
            entries_view(r@) == content_conflict_entries(self.entries()),
            distinct_namespaces(entries_view(r@)),
    {
        proof {
            use_type_invariant(self);
        }
        let ghost all = entries_view(self.namespace_to_packages@);
        let mut r: Vec<(String, Vec<NamespaceOwnerRecord>)> = Vec::new();
        let mut i: usize = 0;
        while i < self.namespace_to_packages.len()
            invariant
                all == entries_view(self.namespace_to_packages@),
                distinct_namespaces(all),
                i <= all.len(),
                entries_view(r@) == content_conflict_entries(all.take(i as int)),
                distinct_namespaces(entries_view(r@)),
                forall|x: int| #![trigger entries_view(r@)[x]] 0 <= x < r@.len() ==> exists|j: int| 0 <= j < i && (#[trigger] all[j]).0 == entries_view(r@)[x].0,
            decreases all.len() - i,
        {
            proof {
                assert(all.take(i + 1).drop_last() =~= all.take(i as int));
            }
            assert(all[i as int] == entry_view(self.namespace_to_packages@[i as int]));
            if is_content_conflict_exec(&self.namespace_to_packages[i]) {
                let c = copy_entry(&self.namespace_to_packages[i]);
                let ghost before = r@;
                r.push(c);
                assert(entries_view(r@) =~= entries_view(before).push(all[i as int]));
                proof {
                    let rv = entries_view(r@);
                    assert forall|x: int| #![trigger rv[x]] 0 <= x < r@.len() implies exists|j: int| 0 <= j < i + 1 && (#[trigger] all[j]).0 == rv[x].0 by {
                        if x < before.len() {
                            let j = choose|j: int| 0 <= j < i && (#[trigger] all[j]).0 == entries_view(before)[x].0;
                            assert(all[j].0 == rv[x].0);
                        } else {
                            assert(all[i as int].0 == rv[x].0);
                        }
                    }
                    assert forall|a: int, b: int| 0 <= a < rv.len() && 0 <= b < rv.len() && a != b
                        implies (#[trigger] rv[a]).0 != (#[trigger] rv[b]).0 by {
                        if a < before.len() && b < before.len() {
                            assert(rv[a] == entries_view(before)[a] && rv[b] == entries_view(before)[b]);
                        } else if a == before.len() {
                            let j = choose|j: int| 0 <= j < i && (#[trigger] all[j]).0 == entries_view(before)[b].0;
                            assert(rv[b] == entries_view(before)[b]);
                            assert(all[j].0 != all[i as int].0);
                        } else {
                            let j = choose|j: int| 0 <= j < i && (#[trigger] all[j]).0 == entries_view(before)[a].0;
                            assert(rv[a] == entries_view(before)[a]);
                            assert(all[j].0 != all[i as int].0);
                        }
                    }
                }
            }
            i = i + 1;
        }
        assert(all.take(i as int) =~= all);
        r
    }
}

/// The namespace declaration of a protobuf file, if it has one: its package,
/// the file's path, and the hash of its contents.
pub fn namespace_info_of(contents: &str, source_file: String) -> (r: Option<NamespaceInfo>)
    ensures
        (match spec_proto_package(contents@) {
            Some(ns) => r matches Some(info) && info.namespace@ == ns && info.source_file@ == source_file@
                && info.content_hash@ == hex_lower(spec_sha256(contents.spec_bytes())),
            None => r is None,
        }),
{
    match extract_proto_package(contents) {
        Some(namespace) => Some(NamespaceInfo { namespace, source_file, content_hash: content_hash(contents) }),
        None => None,
    }
}

/// The entries with one more declaration of a namespace: appended to the
/// namespace's entry, or as a new entry at the end where it has none.
pub open spec fn add_owner(s: Seq<NamespaceEntryView>, ns: Seq<char>, owner: OwnerView) -> Seq<NamespaceEntryView> {
    if exists|i: int| 0 <= i < s.len() && (#[trigger] s[i]).0 == ns {
        let i = choose|i: int| 0 <= i < s.len() && (#[trigger] s[i]).0 == ns;
        s.update(i, (ns, s[i].1.push(owner)))
    } else {
        s.push((ns, seq![owner]))
    }
}

/// The entries with the declarations of a package's namespaces added, in order.
pub open spec fn add_package_owners(s: Seq<NamespaceEntryView>, infos: Seq<(Seq<char>, Seq<char>, Seq<char>)>,
    name: Seq<char>, version: VersionView) -> Seq<NamespaceEntryView>
    decreases infos.len(),
{
    if infos.len() == 0 {
        s
    } else {
        let prev = add_package_owners(s, infos.drop_last(), name, version);
        let info = infos.last();
        add_owner(prev, info.0, (name, version, info.1, info.2))
    }
}

/// Whether no two entries are for the same namespace.
pub open spec fn distinct_namespaces(s: Seq<NamespaceEntryView>) -> bool {
    forall|i: int, j: int| 0 <= i < s.len() && 0 <= j < s.len() && i != j ==> (#[trigger] s[i]).0 != (#[trigger] s[j]).0
}

/// The views of namespace declarations: namespace, source file, content hash.
pub open spec fn infos_view(s: Seq<NamespaceInfo>) -> Seq<(Seq<char>, Seq<char>, Seq<char>)> {
    s.map_values(|i: NamespaceInfo| (i.namespace@, i.source_file@, i.content_hash@))
}

impl NamespaceInfo {
    /// A copy of this declaration.
    pub fn duplicate(&self) -> (r: NamespaceInfo)
        ensures
            r.namespace@ == self.namespace@,
            r.source_file@ == self.source_file@,
            r.content_hash@ == self.content_hash@,
    {
        NamespaceInfo {
            namespace: self.namespace.clone(),
            source_file: self.source_file.clone(),
            content_hash: self.content_hash.clone(),
        }
    }
}

impl NamespaceScanResult {
    /// Records the namespaces a package declares: each declaration joins its
    /// namespace's entry (a new entry where the namespace is new), and the
    /// package is listed with its declarations.
    pub fn record_package(&mut self, name: &PackageName, version: &Version, namespaces: Vec<NamespaceInfo>)
        ensures
            final(self).entries() == add_package_owners(old(self).entries(), infos_view(namespaces@), name@, version@),
            final(self).scanned().len() == old(self).scanned().len() + 1,
            final(self).scanned().drop_last() == old(self).scanned(),
            final(self).scanned().last().name@ == name@,
            final(self).scanned().last().version@ == version@,
            infos_view(final(self).scanned().last().namespaces@) == infos_view(namespaces@),
    {
        proof {
            use_type_invariant(&*self);
        }
        let ghost infos = infos_view(namespaces@);
        let ghost start = entries_view(self.namespace_to_packages@);
        let mut k: usize = 0;
        while k < namespaces.len()
            invariant
                k <= namespaces@.len(),
                infos == infos_view(namespaces@),
                distinct_namespaces(entries_view(self.namespace_to_packages@)),
                entries_view(self.namespace_to_packages@) == add_package_owners(start, infos.take(k as int), name@, version@),
                self.packages@ == old(self).packages@,
            decreases namespaces@.len() - k,
        {
            assert(infos.take(k + 1).drop_last() =~= infos.take(k as int));
            let info = &namespaces[k];
            let owner: NamespaceOwnerRecord = (name.duplicate(), version.duplicate(), info.source_file.clone(), info.content_hash.clone());
            self.add_declaration(&info.namespace, owner);
            k = k + 1;
        }
        assert(infos.take(k as int) =~= infos);
        let mut copies: Vec<NamespaceInfo> = Vec::new();
        let mut i: usize = 0;
        while i < namespaces.len()
            invariant
                i <= namespaces@.len(),
                infos == infos_view(namespaces@),
                infos_view(copies@) == infos.take(i as int),
            decreases namespaces@.len() - i,
        {
            let ghost before = copies@;
            copies.push(namespaces[i].duplicate());
            assert(infos_view(copies@) =~= infos_view(before).push(infos[i as int]));
            i = i + 1;
            assert(infos_view(copies@) =~= infos.take(i as int));
        }
        assert(infos.take(i as int) =~= infos);
        let ghost old_packages = self.packages@;
        let mut packages: Vec<PackageNamespaces> = Vec::new();
        std::mem::swap(&mut packages, &mut self.packages);
        packages.push(PackageNamespaces { name: name.duplicate(), version: version.duplicate(), namespaces: copies });
        self.packages = packages;
        assert(self.packages@.drop_last() =~= old_packages);
    }

    /// Adds one declaration of a namespace.
    fn add_declaration(&mut self, ns: &String, owner: NamespaceOwnerRecord)
        ensures
            distinct_namespaces(entries_view(final(self).namespace_to_packages@)),
            entries_view(final(self).namespace_to_packages@) == add_owner(
                entries_view(old(self).namespace_to_packages@), ns@, owner_view(owner)),
            final(self).packages@ == old(self).packages@,
    {
        proof {
            use_type_invariant(&*self);
        }
        let ghost all = entries_view(self.namespace_to_packages@);
        let ghost ov = owner_view(owner);
        let mut i: usize = 0;
        while i < self.namespace_to_packages.len()
            invariant
                i <= all.len(),
                all == entries_view(self.namespace_to_packages@),
                all == entries_view(old(self).namespace_to_packages@),
                ov == owner_view(owner),
                distinct_namespaces(all),
                self.packages@ == old(self).packages@,
                forall|j: int| 0 <= j < i ==> (#[trigger] all[j]).0 != ns@,
            decreases all.len() - i,
        {
            assert(all[i as int] == entry_view(self.namespace_to_packages@[i as int]));
            if crate::text::str_eq(self.namespace_to_packages[i].0.as_str(), ns.as_str()) {
                let mut entries: Vec<(String, Vec<NamespaceOwnerRecord>)> = Vec::new();
                std::mem::swap(&mut entries, &mut self.namespace_to_packages);
                let (key, mut owners) = entries.remove(i);
                let ghost old_owners = owners_view(owners@);
                let ghost raw_before = owners@;
                assert(all[i as int].1 == old_owners);
                owners.push(owner);
                assert(owners@ == raw_before.push(owner));
                assert(owners_view(owners@) =~= old_owners.push(ov));
                entries.insert(i, (key, owners));
                proof {
                    let nv = entries_view(entries@);
                    assert(nv =~= all.update(i as int, (all[i as int].0, all[i as int].1.push(ov))));
                    assert forall|a: int, b: int| 0 <= a < nv.len() && 0 <= b < nv.len() && a != b
                        implies (#[trigger] nv[a]).0 != (#[trigger] nv[b]).0 by {
                        assert(nv[a].0 == all[a].0 && nv[b].0 == all[b].0);
                    }
                }
                self.namespace_to_packages = entries;
                proof {
                    let nv = entries_view(self.namespace_to_packages@);
                    let w = choose|w: int| 0 <= w < all.len() && (#[trigger] all[w]).0 == ns@;
                    assert(w == i);
                    assert(nv =~= all.update(i as int, (ns@, all[i as int].1.push(ov))));
                }
                return;
            }
            i = i + 1;
        }
        let mut owners: Vec<NamespaceOwnerRecord> = Vec::new();
        owners.push(owner);
        let ghost before = self.namespace_to_packages@;
        let mut entries: Vec<(String, Vec<NamespaceOwnerRecord>)> = Vec::new();
        std::mem::swap(&mut entries, &mut self.namespace_to_packages);
        entries.push((ns.clone(), owners));
        proof {
            let nv = entries_view(entries@);
            assert(owners_view(entries@.last().1@) =~= seq![ov]);
            assert(nv =~= all.push((ns@, seq![ov])));
            assert forall|a: int, b: int| 0 <= a < nv.len() && 0 <= b < nv.len() && a != b
                implies (#[trigger] nv[a]).0 != (#[trigger] nv[b]).0 by {
                if a < all.len() && b < all.len() {
                } else if a == all.len() {
                    assert(all[b].0 != ns@);
                } else {
                    assert(all[a].0 != ns@);
                }
            }
        }
        self.namespace_to_packages = entries;
        proof {
            let nv = entries_view(self.namespace_to_packages@);
            assert(owners_view(self.namespace_to_packages@.last().1@) =~= seq![ov]);
            assert(nv =~= all.push((ns@, seq![ov])));
        }
    }
}

/// The entries that `version_conflict_entries` keeps are the entries of the
/// list that pass the test, and only those.
proof fn lemma_version_conflict_entries_members(s: Seq<NamespaceEntryView>, e: NamespaceEntryView)
    ensures
        version_conflict_entries(s).contains(e) <==> s.contains(e) && is_version_conflict(e),
    decreases s.len(),
{
    if s.len() > 0 {
        lemma_version_conflict_entries_members(s.drop_last(), e);
        let r = version_conflict_entries(s.drop_last());
        if s.drop_last().contains(e) {
            let k = choose|k: int| 0 <= k < s.drop_last().len() && s.drop_last()[k] == e;
            assert(s[k] == e);
        }
        if s.contains(e) && s.last() != e {
            let k = choose|k: int| 0 <= k < s.len() && s[k] == e;
            assert(k != s.len() - 1);
            assert(s.drop_last()[k] == e);
        }
        if s.last() == e {
            assert(s[s.len() - 1] == e);
        }
        if is_version_conflict(s.last()) {
            let r2 = r.push(s.last());
            if r.contains(e) {
                let k = choose|k: int| 0 <= k < r.len() && r[k] == e;
                assert(r2[k] == e);
            }
            if r2.contains(e) && e != s.last() {
                let k = choose|k: int| 0 <= k < r2.len() && r2[k] == e;
                assert(r[k] == e);
            }
            assert(r2[r.len() as int] == s.last());
        }
    }
}

/// The entries that `content_conflict_entries` keeps are the entries of the
/// list that pass the test, and only those.
proof fn lemma_content_conflict_entries_members(s: Seq<NamespaceEntryView>, e: NamespaceEntryView)
    ensures
        content_conflict_entries(s).contains(e) <==> s.contains(e) && is_content_conflict(e),
    decreases s.len(),
{
    if s.len() > 0 {
        lemma_content_conflict_entries_members(s.drop_last(), e);
        let r = content_conflict_entries(s.drop_last());
        if s.drop_last().contains(e) {
            let k = choose|k: int| 0 <= k < s.drop_last().len() && s.drop_last()[k] == e;
            assert(s[k] == e);
        }
        if s.contains(e) && s.last() != e {
            let k = choose|k: int| 0 <= k < s.len() && s[k] == e;
            assert(k != s.len() - 1);
            assert(s.drop_last()[k] == e);
        }
        if s.last() == e {
            assert(s[s.len() - 1] == e);
        }
        if is_content_conflict(s.last()) {
            let r2 = r.push(s.last());
            if r.contains(e) {
                let k = choose|k: int| 0 <= k < r.len() && r[k] == e;
                assert(r2[k] == e);
            }
            if r2.contains(e) && e != s.last() {
                let k = choose|k: int| 0 <= k < r2.len() && r2[k] == e;
                assert(r[k] == e);
            }
            assert(r2[r.len() as int] == s.last());
        }
    }
}

/// The namespace conflicts of a scan are exactly its namespaces that two
/// declarations from different packages, or from different versions of one
/// package, share: a namespace is among them if and only if two of its
/// owners differ in package name or in version.
pub proof fn lemma_conflicts_are_namespaces_of_several_owners(s: Seq<NamespaceEntryView>, e: NamespaceEntryView)
    ensures
        version_conflict_entries(s).contains(e) <==> s.contains(e) && exists|k: int, m: int|
            #![trigger e.1[k], e.1[m]] 0 <= k < e.1.len() && 0 <= m < e.1.len() && (e.1[k].0 != e.1[m].0 || e.1[k].1 != e.1[m].1),
{
    lemma_version_conflict_entries_members(s, e);
    if exists|k: int, m: int| #![trigger e.1[k], e.1[m]] 0 <= k < e.1.len() && 0 <= m < e.1.len() && (e.1[k].0 != e.1[m].0 || e.1[k].1 != e.1[m].1) {
        let (k, m) = choose|k: int, m: int| #![trigger e.1[k], e.1[m]] 0 <= k < e.1.len() && 0 <= m < e.1.len() && (e.1[k].0 != e.1[m].0 || e.1[k].1 != e.1[m].1);
        assert(k != m);
        if e.1[k].0 == e.1[0].0 && e.1[k].1 == e.1[0].1 {
            assert(!(e.1[m].0 == e.1[0].0 && e.1[m].1 == e.1[0].1));
        } else {
            assert(!(e.1[k].0 == e.1[0].0 && e.1[k].1 == e.1[0].1));
        }
    }
    if is_version_conflict(e) {
        let k = choose|k: int| 0 <= k < e.1.len() && !(#[trigger] e.1[k].0 == e.1[0].0 && e.1[k].1 == e.1[0].1);
        assert(e.1[k].0 != e.1[0].0 || e.1[k].1 != e.1[0].1);
    }
}

/// The content conflicts of a scan are exactly its namespaces that two
/// declarations from different package versions (different packages, or
/// different versions of one) declare with different contents.
pub proof fn lemma_content_conflicts_differ_across_versions(s: Seq<NamespaceEntryView>, e: NamespaceEntryView)
    ensures
        content_conflict_entries(s).contains(e) <==> s.contains(e) && exists|k: int, m: int|
            0 <= k < e.1.len() && 0 <= m < e.1.len() && (#[trigger] e.1[k]).3 != (#[trigger] e.1[m]).3
                && (e.1[k].0 != e.1[m].0 || e.1[k].1 != e.1[m].1),
{
    lemma_content_conflict_entries_members(s, e);
    if is_content_conflict(e) {
        let (k, m) = choose|k: int, m: int| 0 <= k < e.1.len() && 0 <= m < e.1.len()
            && #[trigger] differ_across_versions(e.1[k], e.1[m]);
        assert(e.1[k].3 != e.1[m].3 && (e.1[k].0 != e.1[m].0 || e.1[k].1 != e.1[m].1));
    }
    if exists|k: int, m: int| 0 <= k < e.1.len() && 0 <= m < e.1.len() && (#[trigger] e.1[k]).3 != (#[trigger] e.1[m]).3
        && (e.1[k].0 != e.1[m].0 || e.1[k].1 != e.1[m].1) {
        let (k, m) = choose|k: int, m: int| 0 <= k < e.1.len() && 0 <= m < e.1.len() && (#[trigger] e.1[k]).3 != (#[trigger] e.1[m]).3
            && (e.1[k].0 != e.1[m].0 || e.1[k].1 != e.1[m].1);
        assert(differ_across_versions(e.1[k], e.1[m]));
    }
}

} // verus!
