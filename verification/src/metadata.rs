//! Metadata for build systems: the dependency graph, the namespaces each
//! package declares, and CMake variables describing both.

use crate::namespace_scan::{
    entries_view, NamespaceEntryView, NamespaceOwnerRecord, NamespaceScanResult, OwnerView, PackageNamespaces,
};
use crate::registry::registry_ref_text;
use crate::resolver::{count_with_name, distinct_ids, lemma_vendor_dirs_distinct, spec_vendor_dir, DependencyGraph, EntryView, IdView, ResolvedDependency, ResolvedPackageId};
use crate::package::PackageName;
use crate::text::{chars_of, lemma_text_lt_order, lemma_text_lt_transitive, push_char, push_str, str_eq, str_lt, string_from_chars, text_lt};
use crate::version::{version_display, version_view_ok, Version, VersionView};
use vstd::prelude::*;

verus! {

/// Metadata directory name within the vendor folder.
pub const METADATA_DIR: &'static str = "_buffrs_meta";

/// Graph metadata filename.
pub const GRAPH_JSON: &'static str = "graph.json";

/// Namespaces metadata filename.
pub const NAMESPACES_JSON: &'static str = "namespaces.json";

/// CMake targets filename.
pub const BUFFRS_CMAKE: &'static str = "buffrs.cmake";

/// A package by name and version text.
#[derive(Debug)]
pub struct PackageRef {
    /// Package name.
    pub name: String,
    /// Package version.
    pub version: String,
}

/// `name@version`
pub open spec fn at_text(name: Seq<char>, version: Seq<char>) -> Seq<char> {
    name + seq!['@'] + version
}

impl PackageRef {
    /// The reference to a package version.
    pub fn new(name: &PackageName, version: &Version) -> (r: PackageRef)
        ensures
            r.name@ == name@,
            r.version@ == version_display(version@),
    {
        PackageRef { name: name.to_string(), version: version.to_string() }
    }

    /// The vendor directory of the package: `name@version` where versions are
    /// told apart, else the name.
    pub fn vendor_dir(&self, version_qualified: bool) -> (r: String)
        ensures
            r@ == if version_qualified { at_text(self.name@, self.version@) } else { self.name@ },
    {
        if version_qualified {
            let mut s = self.name.clone();
            push_char(&mut s, '@');
            push_str(&mut s, self.version.as_str());
            assert(s@ =~= at_text(self.name@, self.version@));
            s
        } else {
            self.name.clone()
        }
    }

    /// A copy of this reference.
    pub fn duplicate(&self) -> (r: PackageRef)
        ensures
            r.name@ == self.name@,
            r.version@ == self.version@,
    {
        PackageRef { name: self.name.clone(), version: self.version.clone() }
    }
}

/// ASCII letters and digits.
pub open spec fn is_ascii_alnum(c: char) -> bool {
    ('A' <= c && c <= 'Z') || ('a' <= c && c <= 'z') || ('0' <= c && c <= '9')
}

/// The character of a CMake variable name that stands for `c`: letters upper-cased,
/// digits kept, anything else `_`.
pub open spec fn cmake_char(c: char) -> char {
    if 'a' <= c && c <= 'z' {
        ((c as u32) - 32) as char
    } else if is_ascii_alnum(c) {
        c
    } else {
        '_'
    }
}

/// A name as a CMake-safe variable name.
pub open spec fn spec_cmake_safe(name: Seq<char>) -> Seq<char> {
    name.map_values(|c: char| cmake_char(c))
}

fn cmake_char_exec(c: char) -> (r: char)
    ensures
        r == cmake_char(c),
{
    if 'a' <= c && c <= 'z' {
        let code = (c as u32) - 32;
        assert(code < 0xD800);
        char_from_ascii(code)
    } else if ('A' <= c && c <= 'Z') || ('0' <= c && c <= '9') {
        c
    } else {
        '_'
    }
}

/// The character of an ASCII code.
fn char_from_ascii(code: u32) -> (c: char)
    requires
        code < 128,
    ensures
        c == code as char,
{
    let b = code as u8;
    let c = b as char;
    assert(c == code as char);
    c
}

/// Converts a name to a CMake-safe variable name: ASCII letters upper-cased,
/// ASCII digits kept, every other character `_`.
pub fn cmake_safe_name(name: &str) -> (r: String)
    ensures
        r@ == spec_cmake_safe(name@),
{
    let cs = chars_of(name);
    let mut out: Vec<char> = Vec::new();
    let mut i: usize = 0;
    while i < cs.len()
        invariant
            i <= cs@.len(),
            cs@ == name@,
            out@ == spec_cmake_safe(cs@.take(i as int)),
        decreases cs@.len() - i,
    {
        out.push(cmake_char_exec(cs[i]));
        assert(out@ =~= spec_cmake_safe(cs@.take(i + 1)));
        i = i + 1;
    }
    assert(cs@.take(i as int) =~= cs@);
    string_from_chars(&out)
}

/// A package that declares a namespace.
#[derive(Debug)]
pub struct NamespaceOwner {
    /// Package name.
    pub name: String,
    /// Package version.
    pub version: String,
    /// A file declaring the namespace.
    pub source_file: String,
}

/// Each namespace with the packages that declare it.
#[derive(Debug)]
pub struct NamespacesMetadata {
    /// Namespaces with their owners, in scan order; normally one owner each,
    /// several pointing at a potential conflict
    pub namespaces: Vec<(String, Vec<NamespaceOwner>)>,
}

/// The owner entry of a declaration: name, version text, source file.
pub open spec fn owner_entry(o: OwnerView) -> (Seq<char>, Seq<char>, Seq<char>) {
    (o.0, version_display(o.1), o.2)
}

/// The views of owner entries.
pub open spec fn owners_entries(s: Seq<NamespaceOwner>) -> Seq<(Seq<char>, Seq<char>, Seq<char>)> {
    s.map_values(|o: NamespaceOwner| (o.name@, o.version@, o.source_file@))
}

/// Whether the metadata lists the scan's namespaces, in order, each with its
/// declarations as owner entries.
pub open spec fn namespaces_match(meta: Seq<(String, Vec<NamespaceOwner>)>, scan: Seq<NamespaceEntryView>) -> bool {
    &&& meta.len() == scan.len()
    &&& forall|i: int| 0 <= i < scan.len() ==> (#[trigger] meta[i]).0@ == scan[i].0
        && owners_entries(meta[i].1@) == scan[i].1.map_values(|o: OwnerView| owner_entry(o))
}

fn owner_entries_of(owners: &Vec<NamespaceOwnerRecord>) -> (r: Vec<NamespaceOwner>)
    ensures
        owners_entries(r@) == crate::namespace_scan::owners_view(owners@).map_values(|o: OwnerView| owner_entry(o)),
{
    let ghost target = crate::namespace_scan::owners_view(owners@).map_values(|o: OwnerView| owner_entry(o));
    let mut r: Vec<NamespaceOwner> = Vec::new();
    let mut i: usize = 0;
    while i < owners.len()
        invariant
            i <= owners@.len(),
            target == crate::namespace_scan::owners_view(owners@).map_values(|o: OwnerView| owner_entry(o)),
            owners_entries(r@) == target.take(i as int),
        decreases owners@.len() - i,
    {
        let o = &owners[i];
        let entry = NamespaceOwner { name: o.0.to_string(), version: o.1.to_string(), source_file: o.2.clone() };
        let ghost before = r@;
        r.push(entry);
        assert(owners_entries(r@) =~= owners_entries(before).push((o.0@, version_display(o.1@), o.2@)));
        i = i + 1;
        assert(owners_entries(r@) =~= target.take(i as int));
    }
    assert(target.take(i as int) =~= target);
    r
}

/// The namespaces metadata of a scan: every namespace with the name, version
/// and source file of each package that declares it.
pub fn build_namespaces_metadata(namespace_scan: &NamespaceScanResult) -> (r: NamespacesMetadata)
    ensures
        namespaces_match(r.namespaces@, namespace_scan.entries()),
{
    let entries = namespace_scan.namespace_to_packages();
    let ghost scan = entries_view(entries@);
    let mut out: Vec<(String, Vec<NamespaceOwner>)> = Vec::new();
    let mut i: usize = 0;
    while i < entries.len()
        invariant
            scan == entries_view(entries@),
            i <= scan.len(),
            out@.len() == i,
            forall|k: int| 0 <= k < i ==> (#[trigger] out@[k]).0@ == scan[k].0
                && owners_entries(out@[k].1@) == scan[k].1.map_values(|o: OwnerView| owner_entry(o)),
        decreases scan.len() - i,
    {
        let e = &entries[i];
        assert(scan[i as int] == crate::namespace_scan::entry_view(*e));
        let owners = owner_entries_of(&e.1);
        out.push((e.0.clone(), owners));
        i = i + 1;
    }
    NamespacesMetadata { namespaces: out }
}

/// The texts joined by a separator.
pub open spec fn join_with(s: Seq<Seq<char>>, sep: Seq<char>) -> Seq<char>
    decreases s.len(),
{
    if s.len() == 0 {
        Seq::empty()
    } else if s.len() == 1 {
        s[0]
    } else {
        join_with(s.drop_last(), sep) + sep + s.last()
    }
}

/// The texts as a CMake list of quoted items (empty for no item).
pub open spec fn quoted_list(s: Seq<Seq<char>>) -> Seq<char> {
    if s.len() == 0 {
        Seq::empty()
    } else {
        "\""@ + join_with(s, "\" \""@) + "\""@
    }
}

/// Joins texts with a separator.
fn join_texts(items: &Vec<String>, sep: &str) -> (r: String)
    ensures
        r@ == join_with(crate::text::strings_view(items@), sep@),
{
    let ghost v = crate::text::strings_view(items@);
    let mut s = String::new();
    let mut i: usize = 0;
    while i < items.len()
        invariant
            v == crate::text::strings_view(items@),
            i <= items@.len(),
            s@ == join_with(v.take(i as int), sep@),
        decreases items@.len() - i,
    {
        assert(v.take(i + 1).drop_last() =~= v.take(i as int));
        assert(v.take(i + 1).last() == items@[i as int]@);
        if i > 0 {
            push_str(&mut s, sep);
        }
        push_str(&mut s, items[i].as_str());
        proof {
            if i == 0 {
                assert(s@ =~= join_with(v.take(1), sep@));
            } else {
                assert(s@ =~= join_with(v.take(i + 1), sep@));
            }
        }
        i = i + 1;
    }
    assert(v.take(i as int) =~= v);
    s
}

/// Texts as a CMake list of quoted items.
fn quoted(items: &Vec<String>) -> (r: String)
    ensures
        r@ == quoted_list(crate::text::strings_view(items@)),
{
    if items.len() == 0 {
        return String::new();
    }
    let mut s = String::new();
    push_str(&mut s, "\"");
    let joined = join_texts(items, "\" \"");
    push_str(&mut s, joined.as_str());
    push_str(&mut s, "\"");
    s
}

/// `name@version` of an identifier.
pub open spec fn id_text(id: IdView) -> Seq<char> {
    at_text(id.0, version_display(id.1))
}

/// The namespaces the scan found for a package version: those of the first
/// scanned package with its name and version, none where it was not scanned.
pub open spec fn scanned_namespaces(pkgs: Seq<PackageNamespaces>, id: IdView) -> Seq<Seq<char>> {
    if exists|i: int| 0 <= i < pkgs.len() && (#[trigger] pkgs[i]).name@ == id.0 && pkgs[i].version@ == id.1 {
        let i = choose|i: int| 0 <= i < pkgs.len() && (#[trigger] pkgs[i]).name@ == id.0 && pkgs[i].version@ == id.1
            && forall|j: int| 0 <= j < i ==> !((#[trigger] pkgs[j]).name@ == id.0 && pkgs[j].version@ == id.1);
        pkgs[i].namespaces@.map_values(|n: crate::namespace_scan::NamespaceInfo| n.namespace@)
    } else {
        Seq::empty()
    }
}

/// The namespace names the scan found for a package version.
fn namespaces_of(scan: &NamespaceScanResult, id: &ResolvedPackageId) -> (r: Vec<String>)
    ensures
        crate::text::strings_view(r@) == scanned_namespaces(scan.scanned(), id@),
{
    let pkgs = scan.packages();
    let mut i: usize = 0;
    while i < pkgs.len()
        invariant
            i <= pkgs@.len(),
            pkgs@ == scan.scanned(),
            forall|j: int| 0 <= j < i ==> !((#[trigger] pkgs@[j]).name@ == id@.0 && pkgs@[j].version@ == id@.1),
        decreases pkgs@.len() - i,
    {
        let p = &pkgs[i];
        if p.name.same(id.name()) && p.version == *id.version() {
            proof {
                let w = choose|w: int| 0 <= w < pkgs@.len() && (#[trigger] pkgs@[w]).name@ == id@.0 && pkgs@[w].version@ == id@.1
                    && forall|j: int| 0 <= j < w ==> !((#[trigger] pkgs@[j]).name@ == id@.0 && pkgs@[j].version@ == id@.1);
                if w < i {
                    assert(!(pkgs@[w].name@ == id@.0 && pkgs@[w].version@ == id@.1));
                }
                if (i as int) < w {
                    assert(!(pkgs@[i as int].name@ == id@.0 && pkgs@[i as int].version@ == id@.1));
                }
            }
            let ghost target = p.namespaces@.map_values(|n: crate::namespace_scan::NamespaceInfo| n.namespace@);
            let mut out: Vec<String> = Vec::new();
            let mut k: usize = 0;
            while k < p.namespaces.len()
                invariant
                    k <= p.namespaces@.len(),
                    target == p.namespaces@.map_values(|n: crate::namespace_scan::NamespaceInfo| n.namespace@),
                    crate::text::strings_view(out@) == target.take(k as int),
                decreases p.namespaces@.len() - k,
            {
                let ghost before = out@;
                out.push(p.namespaces[k].namespace.clone());
                assert(crate::text::strings_view(out@) =~= crate::text::strings_view(before).push(target[k as int]));
                k = k + 1;
                assert(crate::text::strings_view(out@) =~= target.take(k as int));
            }
            assert(target.take(k as int) =~= target);
            assert(scanned_namespaces(pkgs@, id@) == target);
            return out;
        }
        i = i + 1;
    }
    let out: Vec<String> = Vec::new();
    assert(crate::text::strings_view(out@) =~= Seq::<Seq<char>>::empty());
    out
}

/// The `name@version` texts of identifiers.
fn id_texts(ids: &Vec<ResolvedPackageId>) -> (r: Vec<String>)
    ensures
        crate::text::strings_view(r@) == crate::resolver::ids_view(ids@).map_values(|id: IdView| id_text(id)),
{
    let ghost target = crate::resolver::ids_view(ids@).map_values(|id: IdView| id_text(id));
    let mut out: Vec<String> = Vec::new();
    let mut i: usize = 0;
    while i < ids.len()
        invariant
            i <= ids@.len(),
            target == crate::resolver::ids_view(ids@).map_values(|id: IdView| id_text(id)),
            crate::text::strings_view(out@) == target.take(i as int),
        decreases ids@.len() - i,
    {
        let ghost before = out@;
        out.push(ids[i].to_string());
        assert(crate::text::strings_view(out@) =~= crate::text::strings_view(before).push(target[i as int]));
        i = i + 1;
        assert(crate::text::strings_view(out@) =~= target.take(i as int));
    }
    assert(target.take(i as int) =~= target);
    out
}

/// The CMake lines listing packages: `  "name@version"` each.
pub open spec fn package_lines(ids: Seq<IdView>) -> Seq<char>
    decreases ids.len(),
{
    if ids.len() == 0 {
        Seq::empty()
    } else {
        package_lines(ids.drop_last()) + "  \""@ + id_text(ids.last()) + "\"\n"@
    }
}

/// The CMake variables of one package.
#[verifier::opaque]
pub open spec fn package_section(id: IdView, e: EntryView, ids: Seq<IdView>, pkgs: Seq<PackageNamespaces>) -> Seq<char> {
    section_head(id, ids) + section_tail(id, e, pkgs)
}

/// The first lines of a package's CMake section: its name, version and vendor directory.
pub open spec fn section_head(id: IdView, ids: Seq<IdView>) -> Seq<char> {
    let safe = spec_cmake_safe(id_text(id));
    "# Package: "@ + id_text(id) + "\n"@
        + "set(BUFFRS_PKG_"@ + safe + "_NAME \""@ + id.0 + "\")\n"@
        + "set(BUFFRS_PKG_"@ + safe + "_VERSION \""@ + version_display(id.1) + "\")\n"@
        + "set(BUFFRS_PKG_"@ + safe + "_VENDOR_DIR \""@ + spec_vendor_dir(id, ids) + "\")\n"@
}

/// The last lines of a package's CMake section: its dependencies and namespaces.
pub open spec fn section_tail(id: IdView, e: EntryView, pkgs: Seq<PackageNamespaces>) -> Seq<char> {
    let safe = spec_cmake_safe(id_text(id));
    "set(BUFFRS_PKG_"@ + safe + "_DEPENDENCIES "@ + dependencies_list(e) + ")\n"@
        + "set(BUFFRS_PKG_"@ + safe + "_NAMESPACES "@ + quoted_list(scanned_namespaces(pkgs, id)) + ")\n"@
        + "\n"@
}

/// The quoted `name@version` of each dependency of an entry.
pub open spec fn dependencies_list(e: EntryView) -> Seq<char> {
    quoted_list(e.depends_on.map_values(|d: IdView| id_text(d)))
}

/// The CMake variables of the first `n` packages of the graph.
pub open spec fn package_sections(ids: Seq<IdView>, es: Seq<EntryView>, n: int, pkgs: Seq<PackageNamespaces>) -> Seq<char>
    decreases n,
{
    if n <= 0 {
        Seq::empty()
    } else {
        package_sections(ids, es, n - 1, pkgs) + package_section(ids[n - 1], es[n - 1], ids, pkgs)
    }
}

/// The CMake script describing a graph: a guard against double inclusion,
/// the list of packages, each package's name, version, vendor directory,
/// dependencies and namespaces, and the list of roots.
pub open spec fn cmake_script(tool_version: Seq<char>, ids: Seq<IdView>, es: Seq<EntryView>, roots: Seq<IdView>,
    pkgs: Seq<PackageNamespaces>) -> Seq<char> {
    "# Auto-generated by buffrs. Do not edit.\n"@
        + "# Generated by buffrs version "@ + tool_version + "\n\n"@
        + "# Guard against multiple inclusion\n"@
        + "if(DEFINED _BUFFRS_METADATA_INCLUDED)\n"@
        + "  return()\n"@
        + "endif()\n"@
        + "set(_BUFFRS_METADATA_INCLUDED TRUE)\n\n"@
        + "# All resolved packages\n"@
        + "set(BUFFRS_PACKAGES\n"@
        + package_lines(ids)
        + ")\n\n"@
        + package_sections(ids, es, ids.len() as int, pkgs)
        + "# Root (direct) dependencies\n"@
        + "set(BUFFRS_ROOT_PACKAGES\n"@
        + package_lines(roots)
        + ")\n"@
}

/// Appends `  "name@version"` lines for identifiers.
fn push_package_lines(s: &mut String, ids: &Vec<String>)
    ensures
        final(s)@ == old(s)@ + package_lines_of(crate::text::strings_view(ids@)),
{
    let ghost v = crate::text::strings_view(ids@);
    let ghost start = s@;
    let mut i: usize = 0;
    while i < ids.len()
        invariant
            v == crate::text::strings_view(ids@),
            i <= ids@.len(),
            s@ == start + package_lines_of(v.take(i as int)),
        decreases ids@.len() - i,
    {
        assert(v.take(i + 1).drop_last() =~= v.take(i as int));
        assert(v.take(i + 1).last() == ids@[i as int]@);
        push_str(s, "  \"");
        push_str(s, ids[i].as_str());
        push_str(s, "\"\n");
        i = i + 1;
        assert(s@ =~= start + package_lines_of(v.take(i as int)));
    }
    assert(v.take(i as int) =~= v);
}

/// `  "text"` lines for texts.
pub open spec fn package_lines_of(texts: Seq<Seq<char>>) -> Seq<char>
    decreases texts.len(),
{
    if texts.len() == 0 {
        Seq::empty()
    } else {
        package_lines_of(texts.drop_last()) + "  \""@ + texts.last() + "\"\n"@
    }
}

/// Package lines of identifiers are those of their texts.
proof fn lemma_package_lines(ids: Seq<IdView>)
    ensures
        package_lines(ids) == package_lines_of(ids.map_values(|id: IdView| id_text(id))),
    decreases ids.len(),
{
    if ids.len() > 0 {
        lemma_package_lines(ids.drop_last());
        assert(ids.drop_last().map_values(|id: IdView| id_text(id)) =~= ids.map_values(|id: IdView| id_text(id)).drop_last());
    }
}

/// Builds the CMake script that describes the graph to build systems.
pub fn build_cmake_targets(graph: &DependencyGraph, namespace_scan: &NamespaceScanResult, tool_version: &str) -> (r: String)
    ensures
        r@ == cmake_script(tool_version@, graph.entry_ids(), graph.entry_values(), graph.root_ids(), namespace_scan.scanned()),
{
    let ghost ids = graph.entry_ids();
    let ghost es = graph.entry_values();
    let ghost pkgs = namespace_scan.scanned();
    let mut cmake = String::new();
    push_str(&mut cmake, "# Auto-generated by buffrs. Do not edit.\n");
    push_str(&mut cmake, "# Generated by buffrs version ");
    push_str(&mut cmake, tool_version);
    push_str(&mut cmake, "\n\n");
    push_str(&mut cmake, "# Guard against multiple inclusion\n");
    push_str(&mut cmake, "if(DEFINED _BUFFRS_METADATA_INCLUDED)\n");
    push_str(&mut cmake, "  return()\n");
    push_str(&mut cmake, "endif()\n");
    push_str(&mut cmake, "set(_BUFFRS_METADATA_INCLUDED TRUE)\n\n");
    push_str(&mut cmake, "# All resolved packages\n");
    push_str(&mut cmake, "set(BUFFRS_PACKAGES\n");
    let n = graph.len();
    let mut all_ids: Vec<String> = Vec::new();
    let mut i: usize = 0;
    while i < n
        invariant
            n == ids.len(),
            ids == graph.entry_ids(),
            i <= n,
            crate::text::strings_view(all_ids@) == ids.take(i as int).map_values(|id: IdView| id_text(id)),
        decreases n - i,
    {
        let (id, _) = graph.entry_at(i);
        let ghost before = all_ids@;
        all_ids.push(id.to_string());
        assert(crate::text::strings_view(all_ids@) =~= crate::text::strings_view(before).push(id_text(ids[i as int])));
        i = i + 1;
        assert(crate::text::strings_view(all_ids@) =~= ids.take(i as int).map_values(|id: IdView| id_text(id)));
    }
    assert(ids.take(i as int) =~= ids);
    let ghost head = cmake@;
    push_package_lines(&mut cmake, &all_ids);
    proof {
        lemma_package_lines(ids);
    }
    push_str(&mut cmake, ")\n\n");
    let ghost before_sections = cmake@;
    let mut k: usize = 0;
    while k < n
        invariant
            n == ids.len(),
            ids == graph.entry_ids(),
            es == graph.entry_values(),
            pkgs == namespace_scan.scanned(),
            k <= n,
            cmake@ == before_sections + package_sections(ids, es, k as int, pkgs),
        decreases n - k,
    {
        let (id, entry) = graph.entry_at(k);
        let section = package_section_text(graph, namespace_scan, id, entry);
        let ghost prev = package_sections(ids, es, k as int, pkgs);
        push_str(&mut cmake, section.as_str());
        proof {
            assert(package_sections(ids, es, k + 1, pkgs) == prev + section@);
            assert((before_sections + prev) + section@ =~= before_sections + (prev + section@));
        }
        k = k + 1;
    }
    push_str(&mut cmake, "# Root (direct) dependencies\n");
    push_str(&mut cmake, "set(BUFFRS_ROOT_PACKAGES\n");
    let root_texts = id_texts(graph.roots());
    push_package_lines(&mut cmake, &root_texts);
    proof {
        lemma_package_lines(graph.root_ids());
    }
    push_str(&mut cmake, ")\n");
    assert(cmake@ =~= cmake_script(tool_version@, ids, es, graph.root_ids(), pkgs));
    cmake
}

/// The CMake variables of one package of the graph.
fn package_section_text(graph: &DependencyGraph, scan: &NamespaceScanResult, id: &ResolvedPackageId, entry: &ResolvedDependency)
    -> (r: String)
    ensures
        r@ == package_section(id@, entry@, graph.entry_ids(), scan.scanned()),
{
    let at = id.to_string();
    let safe = cmake_safe_name(at.as_str());
    let mut s = String::new();
    push_str(&mut s, "# Package: ");
    push_str(&mut s, at.as_str());
    push_str(&mut s, "\n");
    push_str(&mut s, "set(BUFFRS_PKG_");
    push_str(&mut s, safe.as_str());
    push_str(&mut s, "_NAME \"");
    push_str(&mut s, id.name().as_str());
    push_str(&mut s, "\")\n");
    push_str(&mut s, "set(BUFFRS_PKG_");
    push_str(&mut s, safe.as_str());
    push_str(&mut s, "_VERSION \"");
    let v = id.version().to_string();
    push_str(&mut s, v.as_str());
    push_str(&mut s, "\")\n");
    push_str(&mut s, "set(BUFFRS_PKG_");
    push_str(&mut s, safe.as_str());
    push_str(&mut s, "_VENDOR_DIR \"");
    let dir = id.vendor_dir_name(graph);
    push_str(&mut s, dir.as_str());
    push_str(&mut s, "\")\n");
    push_str(&mut s, "set(BUFFRS_PKG_");
    push_str(&mut s, safe.as_str());
    push_str(&mut s, "_DEPENDENCIES ");
    let deps = id_texts(entry.depends_on());
    let dq = quoted(&deps);
    push_str(&mut s, dq.as_str());
    push_str(&mut s, ")\n");
    push_str(&mut s, "set(BUFFRS_PKG_");
    push_str(&mut s, safe.as_str());
    push_str(&mut s, "_NAMESPACES ");
    let nss = namespaces_of(scan, id);
    let nq = quoted(&nss);
    push_str(&mut s, nq.as_str());
    push_str(&mut s, ")\n");
    push_str(&mut s, "\n");
    proof {
        reveal(package_section);
    }
    assert(s@ =~= package_section(id@, entry@, graph.entry_ids(), scan.scanned()));
    s
}

/// Metadata of one resolved package.
#[derive(Debug)]
pub struct PackageMetadata {
    /// Package name.
    pub name: String,
    /// Package version.
    pub version: String,
    /// Vendor directory name (with the version where several versions coexist).
    pub vendor_dir: String,
    /// Registry (for remote packages).
    pub registry: Option<String>,
    /// Repository name (for remote packages).
    pub repository: Option<String>,
    /// Local path (for local packages).
    pub local_path: Option<String>,
    /// Direct dependencies of this package.
    pub dependencies: Vec<PackageRef>,
    /// Protobuf namespaces the package declares.
    pub namespaces: Vec<String>,
}

/// The dependency graph as build systems read it.
#[derive(Debug)]
pub struct GraphMetadata {
    /// Version of the tool that wrote the metadata.
    pub buffrs_version: String,
    /// Root dependencies (direct dependencies of the manifest).
    pub roots: Vec<PackageRef>,
    /// All resolved packages, sorted by name, then version.
    pub packages: Vec<PackageMetadata>,
}

/// Abstract value of a [`PackageMetadata`].
pub struct PackageMetadataView {
    pub name: Seq<char>,
    pub version: Seq<char>,
    pub vendor_dir: Seq<char>,
    pub registry: Option<Seq<char>>,
    pub repository: Option<Seq<char>>,
    pub local_path: Option<Seq<char>>,
    pub dependencies: Seq<(Seq<char>, Seq<char>)>,
    pub namespaces: Seq<Seq<char>>,
}

/// The views of package references.
pub open spec fn refs_view(s: Seq<PackageRef>) -> Seq<(Seq<char>, Seq<char>)> {
    s.map_values(|r: PackageRef| (r.name@, r.version@))
}

/// The view of an optional text.
pub open spec fn opt_view(o: Option<String>) -> Option<Seq<char>> {
    match o {
        Some(s) => Some(s@),
        None => None,
    }
}

impl View for PackageMetadata {
    type V = PackageMetadataView;

    open spec fn view(&self) -> PackageMetadataView {
        PackageMetadataView {
            name: self.name@,
            version: self.version@,
            vendor_dir: self.vendor_dir@,
            registry: opt_view(self.registry),
            repository: opt_view(self.repository),
            local_path: opt_view(self.local_path),
            dependencies: refs_view(self.dependencies@),
            namespaces: crate::text::strings_view(self.namespaces@),
        }
    }
}

/// The reference to a package version: its name and version text.
pub open spec fn ref_of(id: IdView) -> (Seq<char>, Seq<char>) {
    (id.0, version_display(id.1))
}

/// The metadata of one entry of the graph.
pub open spec fn package_meta(id: IdView, e: EntryView, ids: Seq<IdView>, pkgs: Seq<PackageNamespaces>) -> PackageMetadataView {
    PackageMetadataView {
        name: id.0,
        version: version_display(id.1),
        vendor_dir: spec_vendor_dir(id, ids),
        registry: if e.is_local { None } else { Some(registry_ref_text(e.registry->0)) },
        repository: if e.is_local { None } else { Some(e.location) },
        local_path: if e.is_local { Some(e.location) } else { None },
        dependencies: e.depends_on.map_values(|d: IdView| ref_of(d)),
        namespaces: scanned_namespaces(pkgs, id),
    }
}

/// Whether `a` sorts before `b`: by name, then by version text.
pub open spec fn meta_lt(a: PackageMetadataView, b: PackageMetadataView) -> bool {
    text_lt(a.name, b.name) || (a.name == b.name && text_lt(a.version, b.version))
}

/// The order of metadata is a strict order.
proof fn lemma_meta_lt(a: PackageMetadataView, b: PackageMetadataView, c: PackageMetadataView)
    ensures
        meta_lt(a, b) ==> !meta_lt(b, a),
        meta_lt(a, b) && meta_lt(b, c) ==> meta_lt(a, c),
{
    lemma_text_lt_order(a.name, b.name);
    lemma_text_lt_order(a.version, b.version);
    lemma_text_lt_order(a.name, a.name);
    if meta_lt(a, b) && meta_lt(b, c) {
        if text_lt(a.name, b.name) && text_lt(b.name, c.name) {
            lemma_text_lt_transitive(a.name, b.name, c.name);
        } else if a.name == b.name && b.name == c.name {
            lemma_text_lt_transitive(a.version, b.version, c.version);
        }
    }
}

/// Whether `p` lists each of `0..n` once.
pub open spec fn is_permutation(p: Seq<int>, n: int) -> bool {
    &&& p.len() == n
    &&& forall|k: int| 0 <= k < n ==> 0 <= #[trigger] p[k] < n
    &&& forall|a: int, b: int| 0 <= a < b < n ==> #[trigger] p[a] != #[trigger] p[b]
}

/// Whether the metadata is sorted by name, then version.
pub open spec fn meta_sorted(s: Seq<PackageMetadataView>) -> bool {
    forall|a: int, b: int| 0 <= a < b < s.len() ==> !meta_lt(#[trigger] s[b], #[trigger] s[a])
}

/// The views of metadata entries.
pub open spec fn metas_view(s: Seq<PackageMetadata>) -> Seq<PackageMetadataView> {
    s.map_values(|m: PackageMetadata| m@)
}

/// Whether `a` sorts before `b`.
fn meta_less(a: &PackageMetadata, b: &PackageMetadata) -> (r: bool)
    ensures
        r == meta_lt(a@, b@),
{
    str_lt(a.name.as_str(), b.name.as_str()) || (str_eq(a.name.as_str(), b.name.as_str()) && str_lt(a.version.as_str(), b.version.as_str()))
}

/// The references of identifiers.
fn refs_of(ids: &Vec<ResolvedPackageId>) -> (r: Vec<PackageRef>)
    ensures
        refs_view(r@) == crate::resolver::ids_view(ids@).map_values(|d: IdView| ref_of(d)),
{
    let ghost target = crate::resolver::ids_view(ids@).map_values(|d: IdView| ref_of(d));
    let mut out: Vec<PackageRef> = Vec::new();
    let mut i: usize = 0;
    while i < ids.len()
        invariant
            i <= ids@.len(),
            target == crate::resolver::ids_view(ids@).map_values(|d: IdView| ref_of(d)),
            refs_view(out@) == target.take(i as int),
        decreases ids@.len() - i,
    {
        let ghost before = out@;
        out.push(PackageRef::new(ids[i].name(), ids[i].version()));
        assert(refs_view(out@) =~= refs_view(before).push(target[i as int]));
        i = i + 1;
        assert(refs_view(out@) =~= target.take(i as int));
    }
    assert(target.take(i as int) =~= target);
    out
}

impl PackageMetadata {
    /// A copy of this metadata.
    pub fn duplicate(&self) -> (r: PackageMetadata)
        ensures
            r@ == self@,
    {
        let mut deps: Vec<PackageRef> = Vec::new();
        let mut i: usize = 0;
        while i < self.dependencies.len()
            invariant
                i <= self.dependencies@.len(),
                refs_view(deps@) == refs_view(self.dependencies@).take(i as int),
            decreases self.dependencies@.len() - i,
        {
            let ghost before = deps@;
            deps.push(self.dependencies[i].duplicate());
            assert(refs_view(deps@) =~= refs_view(before).push(refs_view(self.dependencies@)[i as int]));
            i = i + 1;
            assert(refs_view(deps@) =~= refs_view(self.dependencies@).take(i as int));
        }
        assert(refs_view(self.dependencies@).take(i as int) =~= refs_view(self.dependencies@));
        PackageMetadata {
            name: self.name.clone(),
            version: self.version.clone(),
            vendor_dir: self.vendor_dir.clone(),
            registry: crate::text::copy_opt_string(&self.registry),
            repository: crate::text::copy_opt_string(&self.repository),
            local_path: crate::text::copy_opt_string(&self.local_path),
            dependencies: deps,
            namespaces: crate::text::copy_strings(&self.namespaces),
        }
    }
}

/// The metadata of one entry.
fn package_metadata_of(graph: &DependencyGraph, scan: &NamespaceScanResult, id: &ResolvedPackageId, entry: &ResolvedDependency)
    -> (r: PackageMetadata)
    ensures
        r@ == package_meta(id@, entry@, graph.entry_ids(), scan.scanned()),
{
    let (registry, repository, local_path) = match entry {
        ResolvedDependency::Remote { registry, repository, .. } => (Some(registry.to_string()), Some(repository.clone()), None),
        ResolvedDependency::Local { path, .. } => (None, None, Some(path.clone())),
    };
    PackageMetadata {
        name: id.name().to_string(),
        version: id.version().to_string(),
        vendor_dir: id.vendor_dir_name(graph),
        registry,
        repository,
        local_path,
        dependencies: refs_of(entry.depends_on()),
        namespaces: namespaces_of(scan, id),
    }
}

/// Where entry `i` goes among the ordered positions: before the first entry
/// it sorts before, else at the end.
fn insertion_point(metas: &Vec<PackageMetadata>, order: &Vec<usize>, i: usize) -> (pos: usize)
    requires
        i < metas@.len(),
        forall|k: int| 0 <= k < order@.len() ==> 0 <= #[trigger] order@[k] < metas@.len(),
    ensures
        pos <= order@.len(),
        forall|a: int| 0 <= a < pos ==> !meta_lt(metas@[i as int]@, #[trigger] metas@[order@[a] as int]@),
        pos < order@.len() ==> meta_lt(metas@[i as int]@, metas@[order@[pos as int] as int]@),
{
    let mut pos: usize = 0;
    while pos < order.len()
        invariant
            i < metas@.len(),
            pos <= order@.len(),
            forall|k: int| 0 <= k < order@.len() ==> 0 <= #[trigger] order@[k] < metas@.len(),
            forall|a: int| 0 <= a < pos ==> !meta_lt(metas@[i as int]@, #[trigger] metas@[order@[a] as int]@),
        decreases order@.len() - pos,
    {
        if meta_less(&metas[i], &metas[order[pos]]) {
            return pos;
        }
        pos = pos + 1;
    }
    pos
}

/// The positions of the metadata entries in sorted order (name, then
/// version; equal ones in their original order).
fn sorted_order(metas: &Vec<PackageMetadata>) -> (r: Vec<usize>)
    ensures
        is_permutation(r@.map_values(|k: usize| k as int), metas@.len() as int),
        meta_sorted(r@.map_values(|k: usize| metas@[k as int]@)),
{
    let n = metas.len();
    let mut order: Vec<usize> = Vec::new();
    let mut i: usize = 0;
    while i < n
        invariant
            n == metas@.len(),
            i <= n,
            is_permutation(order@.map_values(|k: usize| k as int), i as int),
            meta_sorted(order@.map_values(|k: usize| metas@[k as int]@)),
        decreases n - i,
    {
        let ghost before = order@;
        let ghost ks = before.map_values(|k: usize| metas@[k as int]@);
        let ghost new = metas@[i as int]@;
        assert forall|k: int| 0 <= k < order@.len() implies 0 <= #[trigger] order@[k] < metas@.len() by {
            assert(order@.map_values(|k: usize| k as int)[k] == order@[k] as int);
        }
        let pos = insertion_point(metas, &order, i);
        order.insert(pos, i);
        proof {
            let p = pos as int;
            assert(order@ =~= before.insert(p, i));
            let ps = order@.map_values(|k: usize| k as int);
            let olds = before.map_values(|k: usize| k as int);
            assert forall|k: int| 0 <= k < i + 1 implies 0 <= #[trigger] ps[k] < i + 1 by {
                if k < p {
                    assert(ps[k] == olds[k]);
                } else if k > p {
                    assert(ps[k] == olds[k - 1]);
                }
            }
            assert forall|a: int, b: int| 0 <= a < b < i + 1 implies #[trigger] ps[a] != #[trigger] ps[b] by {
                if a != p && b != p {
                    let oa = if a < p { a } else { a - 1 };
                    let ob = if b < p { b } else { b - 1 };
                    assert(ps[a] == olds[oa] && ps[b] == olds[ob]);
                } else if a == p {
                    assert(ps[b] == olds[b - 1]);
                } else {
                    assert(ps[a] == olds[a]);
                }
            }
            let nks = order@.map_values(|k: usize| metas@[k as int]@);
            assert(nks =~= ks.insert(p, new));
            assert forall|a: int, b: int| 0 <= a < b < nks.len() implies !meta_lt(#[trigger] nks[b], #[trigger] nks[a]) by {
                if a != p && b != p {
                    let oa = if a < p { a } else { a - 1 };
                    let ob = if b < p { b } else { b - 1 };
                    assert(nks[a] == ks[oa] && nks[b] == ks[ob]);
                } else if a == p {
                    let ob = b - 1;
                    assert(nks[b] == ks[ob]);
                    assert(meta_lt(new, ks[p]));
                    lemma_meta_lt(ks[ob], new, ks[p]);
                    lemma_meta_lt(new, ks[p], new);
                } else {
                    assert(nks[a] == ks[a]);
                    assert(!meta_lt(new, metas@[before[a] as int]@));
                }
            }
        }
        i = i + 1;
    }
    order
}

/// Builds the graph metadata: the roots, and every package of the graph with
/// its vendor directory, source, dependencies and namespaces, sorted by name,
/// then version.
pub fn build_graph_metadata(graph: &DependencyGraph, namespace_scan: &NamespaceScanResult, tool_version: &str)
    -> (r: GraphMetadata)
    ensures
        r.buffrs_version@ == tool_version@,
        refs_view(r.roots@) == graph.root_ids().map_values(|d: IdView| ref_of(d)),
        meta_sorted(metas_view(r.packages@)),
        exists|p: Seq<int>| is_permutation(p, graph.entry_ids().len() as int)
            && forall|k: int| 0 <= k < p.len() ==> #[trigger] metas_view(r.packages@)[k]
                == package_meta(graph.entry_ids()[p[k]], graph.entry_values()[p[k]], graph.entry_ids(), namespace_scan.scanned()),
{
    let ghost ids = graph.entry_ids();
    let ghost es = graph.entry_values();
    let ghost pkgs = namespace_scan.scanned();
    let roots = refs_of(graph.roots());
    let n = graph.len();
    let mut unsorted: Vec<PackageMetadata> = Vec::new();
    let mut i: usize = 0;
    while i < n
        invariant
            n == ids.len(),
            ids == graph.entry_ids(),
            es == graph.entry_values(),
            pkgs == namespace_scan.scanned(),
            i <= n,
            unsorted@.len() == i,
            forall|k: int| 0 <= k < i ==> (#[trigger] unsorted@[k])@ == package_meta(ids[k], es[k], ids, pkgs),
        decreases n - i,
    {
        let (id, entry) = graph.entry_at(i);
        unsorted.push(package_metadata_of(graph, namespace_scan, id, entry));
        i = i + 1;
    }
    let order = sorted_order(&unsorted);
    let ghost perm = order@.map_values(|x: usize| x as int);
    let ghost views = metas_view(unsorted@);
    let mut packages: Vec<PackageMetadata> = Vec::new();
    let mut k: usize = 0;
    while k < order.len()
        invariant
            k <= order@.len(),
            order@.len() == n,
            unsorted@.len() == n,
            views == metas_view(unsorted@),
            perm == order@.map_values(|x: usize| x as int),
            is_permutation(perm, n as int),
            metas_view(packages@) == order@.take(k as int).map_values(|x: usize| unsorted@[x as int]@),
        decreases order@.len() - k,
    {
        assert(perm[k as int] == order@[k as int] as int);
        let ghost before = packages@;
        packages.push(unsorted[order[k]].duplicate());
        assert(metas_view(packages@) =~= metas_view(before).push(unsorted@[order@[k as int] as int]@));
        k = k + 1;
        assert(metas_view(packages@) =~= order@.take(k as int).map_values(|x: usize| unsorted@[x as int]@));
    }
    assert(order@.take(k as int) =~= order@);
    proof {
        assert forall|y: int| 0 <= y < perm.len() implies #[trigger] metas_view(packages@)[y]
            == package_meta(ids[perm[y]], es[perm[y]], ids, pkgs) by {
            assert(perm[y] == order@[y] as int);
            assert(0 <= perm[y] < n);
        }
    }
    GraphMetadata { buffrs_version: tool_version.to_owned(), roots, packages }
}


/// A CMake-safe name has the length of the name, and holds only upper-case
/// ASCII letters, digits and `_`.
pub proof fn lemma_cmake_safe_chars(name: Seq<char>)
    ensures
        spec_cmake_safe(name).len() == name.len(),
        forall|i: int| 0 <= i < name.len() ==> {
            let c = #[trigger] spec_cmake_safe(name)[i];
            ('A' <= c && c <= 'Z') || ('0' <= c && c <= '9') || c == '_'
        },
{
    assert forall|i: int| 0 <= i < name.len() implies {
        let c = #[trigger] spec_cmake_safe(name)[i];
        ('A' <= c && c <= 'Z') || ('0' <= c && c <= '9') || c == '_'
    } by {
        let x = name[i];
        if 'a' <= x && x <= 'z' {
            assert(((x as u32) - 32) as char == cmake_char(x));
            assert('A' as u32 <= (x as u32) - 32 <= 'Z' as u32);
        }
    }
}

/// A name carried at a position is counted at least once.
proof fn lemma_count_at_least_one(ids: Seq<IdView>, n: Seq<char>, a: int)
    requires
        0 <= a < ids.len(),
        ids[a].0 == n,
    ensures
        count_with_name(ids, n) >= 1,
    decreases ids.len(),
{
    if a < ids.len() - 1 {
        assert(ids.drop_last()[a] == ids[a]);
        lemma_count_at_least_one(ids.drop_last(), n, a);
    }
}

/// A name carried at two positions is counted at least twice.
proof fn lemma_count_at_least_two(ids: Seq<IdView>, n: Seq<char>, a: int, b: int)
    requires
        0 <= a < ids.len(),
        0 <= b < ids.len(),
        a != b,
        ids[a].0 == n,
        ids[b].0 == n,
    ensures
        count_with_name(ids, n) >= 2,
    decreases ids.len(),
{
    let last = ids.len() - 1;
    if a == last {
        assert(ids.drop_last()[b] == ids[b]);
        lemma_count_at_least_one(ids.drop_last(), n, b);
    } else if b == last {
        assert(ids.drop_last()[a] == ids[a]);
        lemma_count_at_least_one(ids.drop_last(), n, a);
    } else {
        assert(ids.drop_last()[a] == ids[a] && ids.drop_last()[b] == ids[b]);
        lemma_count_at_least_two(ids.drop_last(), n, a, b);
    }
}

/// A name counted at least once is carried at some position; counted at
/// least twice, at two.
proof fn lemma_count_positions(ids: Seq<IdView>, n: Seq<char>)
    ensures
        count_with_name(ids, n) >= 1 ==> exists|a: int| 0 <= a < ids.len() && (#[trigger] ids[a]).0 == n,
        count_with_name(ids, n) >= 2 ==> exists|a: int, b: int| 0 <= a < b < ids.len() && (#[trigger] ids[a]).0 == n
            && (#[trigger] ids[b]).0 == n,
    decreases ids.len(),
{
    if ids.len() > 0 {
        let d = ids.drop_last();
        lemma_count_positions(d, n);
        let last = ids.len() - 1;
        if count_with_name(d, n) >= 1 {
            let a = choose|a: int| 0 <= a < d.len() && (#[trigger] d[a]).0 == n;
            assert(ids[a] == d[a]);
        }
        if count_with_name(d, n) >= 2 {
            let (a, b) = choose|a: int, b: int| 0 <= a < b < d.len() && (#[trigger] d[a]).0 == n && (#[trigger] d[b]).0 == n;
            assert(ids[a] == d[a] && ids[b] == d[b]);
        }
        if ids[last].0 == n && count_with_name(d, n) >= 1 {
            let a = choose|a: int| 0 <= a < d.len() && (#[trigger] d[a]).0 == n;
            assert(ids[a] == d[a]);
        }
    }
}

/// The vendor directory a package of the graph goes in: `name@version` where
/// another package of the graph has its name, else the name.
pub open spec fn installed_dir(ids: Seq<IdView>, i: int) -> Seq<char> {
    if exists|j: int| 0 <= j < ids.len() && j != i && (#[trigger] ids[j]).0 == ids[i].0 {
        ids[i].0 + seq!['@'] + version_display(ids[i].1)
    } else {
        ids[i].0
    }
}

/// The installer's vendor directory of a package (`vendor_dir_name`) is
/// `name@version` where another package of the graph has its name, else the name.
proof fn lemma_vendor_dir_is_installed_dir(ids: Seq<IdView>, i: int)
    requires
        0 <= i < ids.len(),
    ensures
        spec_vendor_dir(ids[i], ids) == installed_dir(ids, i),
{
    let n = ids[i].0;
    lemma_count_positions(ids, n);
    if exists|j: int| 0 <= j < ids.len() && j != i && (#[trigger] ids[j]).0 == n {
        let j = choose|j: int| 0 <= j < ids.len() && j != i && (#[trigger] ids[j]).0 == n;
        lemma_count_at_least_two(ids, n, i, j);
    }
    if count_with_name(ids, n) >= 2 {
        let (a, b) = choose|a: int, b: int| 0 <= a < b < ids.len() && (#[trigger] ids[a]).0 == n && (#[trigger] ids[b]).0 == n;
        if a != i {
            assert(ids[a].0 == n);
        } else {
            assert(ids[b].0 == n);
        }
    }
}

/// Each package of the graph metadata (`graph.json`) names the vendor
/// directory the installer uses for it (`vendor_dir_name`): `name@version`
/// where another package of the graph has its name, else the name.
pub proof fn lemma_metadata_vendor_dir(ids: Seq<IdView>, es: Seq<EntryView>, pkgs: Seq<PackageNamespaces>, i: int)
    requires
        0 <= i < ids.len(),
    ensures
        package_meta(ids[i], es[i], ids, pkgs).vendor_dir == installed_dir(ids, i),
        package_meta(ids[i], es[i], ids, pkgs).vendor_dir == spec_vendor_dir(ids[i], ids),
{
    lemma_vendor_dir_is_installed_dir(ids, i);
}

/// No two packages of the graph metadata share a vendor directory, for
/// package names without `@` and valid versions.
pub proof fn lemma_metadata_vendor_dirs_distinct(ids: Seq<IdView>, es: Seq<EntryView>, pkgs: Seq<PackageNamespaces>, i: int, j: int)
    requires
        distinct_ids(ids),
        0 <= i < ids.len(),
        0 <= j < ids.len(),
        i != j,
        forall|k: int| 0 <= k < ids.len() ==> !(#[trigger] ids[k]).0.contains('@') && version_view_ok(ids[k].1),
    ensures
        package_meta(ids[i], es[i], ids, pkgs).vendor_dir != package_meta(ids[j], es[j], ids, pkgs).vendor_dir,
{
    lemma_metadata_vendor_dir(ids, es, pkgs, i);
    lemma_metadata_vendor_dir(ids, es, pkgs, j);
    lemma_vendor_dirs_distinct(ids, i, j);
}

/// The CMake section of each package sets its `VENDOR_DIR` variable to the
/// vendor directory the installer uses for it: `name@version` where another
/// package of the graph has its name, else the name.
#[verifier::rlimit(60)]
pub proof fn lemma_cmake_vendor_dir(ids: Seq<IdView>, es: Seq<EntryView>, pkgs: Seq<PackageNamespaces>, i: int)
    requires
        0 <= i < ids.len(),
    ensures
        exists|a: Seq<char>, b: Seq<char>| package_section(ids[i], es[i], ids, pkgs)
            == a + ("_VENDOR_DIR \""@ + installed_dir(ids, i) + "\")\n"@) + b,
{
    reveal(package_section);
    lemma_vendor_dir_is_installed_dir(ids, i);
    let id = ids[i];
    let safe = spec_cmake_safe(id_text(id));
    let a = "# Package: "@ + id_text(id) + "\n"@
        + "set(BUFFRS_PKG_"@ + safe + "_NAME \""@ + id.0 + "\")\n"@
        + "set(BUFFRS_PKG_"@ + safe + "_VERSION \""@ + version_display(id.1) + "\")\n"@
        + "set(BUFFRS_PKG_"@ + safe;
    let m = "_VENDOR_DIR \""@ + installed_dir(ids, i) + "\")\n"@;
    let h = section_head(id, ids);
    let t = section_tail(id, es[i], pkgs);
    assert(h =~= a + m);
    assert(package_section(id, es[i], ids, pkgs) == h + t);
    assert(package_section(ids[i], es[i], ids, pkgs) == a + m + t);
}


} // verus!
