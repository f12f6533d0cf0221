//! Self-update decisions: release names, archive names, and where the binary
//! is staged and backed up.

use crate::text::{has_suffix, push_str, str_ends_with, str_eq, sub_string, chars_of};
use vstd::prelude::*;

verus! {

/// The repository that publishes releases.
pub const GITHUB_REPO: &'static str = "globusmedical/ext-buffrs";

/// The prefix of release tags.
pub const RELEASE_TAG_PREFIX: &'static str = "gm/v";

/// The release archive for a version on a platform: `v{version}-{target}.zip`
/// on Windows, `v{version}-{target}.tar.gz` elsewhere.
pub open spec fn spec_archive_name(version: Seq<char>, target: Seq<char>, windows: bool) -> Seq<char> {
    seq!['v'] + version + seq!['-'] + target + if windows { ".zip"@ } else { ".tar.gz"@ }
}

/// The name of the release archive for a version and target triple.
pub fn archive_asset_name(version: &str, target_triple: &str, windows: bool) -> (r: String)
    ensures
        r@ == spec_archive_name(version@, target_triple@, windows),
{
    let mut s = String::new();
    push_str(&mut s, "v");
    push_str(&mut s, version);
    push_str(&mut s, "-");
    push_str(&mut s, target_triple);
    if windows {
        push_str(&mut s, ".zip");
    } else {
        push_str(&mut s, ".tar.gz");
    }
    proof {
        reveal_strlit("v");
        reveal_strlit("-");
    }
    assert(s@ =~= spec_archive_name(version@, target_triple@, windows));
    s
}

/// Where a release archive is downloaded from.
pub open spec fn spec_release_url(version: Seq<char>, asset: Seq<char>) -> Seq<char> {
    "https://github.com/"@ + GITHUB_REPO@ + "/releases/download/"@ + RELEASE_TAG_PREFIX@ + version + seq!['/'] + asset
}

/// The download address of a release archive.
pub fn release_download_url(version: &str, asset_name: &str) -> (r: String)
    ensures
        r@ == spec_release_url(version@, asset_name@),
{
    let mut s = String::new();
    push_str(&mut s, "https://github.com/");
    push_str(&mut s, GITHUB_REPO);
    push_str(&mut s, "/releases/download/");
    push_str(&mut s, RELEASE_TAG_PREFIX);
    push_str(&mut s, version);
    push_str(&mut s, "/");
    push_str(&mut s, asset_name);
    proof {
        reveal_strlit("/");
    }
    assert(s@ =~= spec_release_url(version@, asset_name@));
    s
}

/// Why an update could not proceed.
#[derive(Debug)]
pub enum UpdateError {
    /// The release tag does not start with the release prefix
    UnexpectedTag(String),
}

/// The version a release tag names: the tag without its `gm/v` prefix.
pub fn release_version(tag_name: &str) -> (r: Result<String, UpdateError>)
    ensures
        (match r {
            Ok(v) => RELEASE_TAG_PREFIX@ + v@ == tag_name@,
            Err(UpdateError::UnexpectedTag(t)) => t@ == tag_name@
                && !(tag_name@.len() >= RELEASE_TAG_PREFIX@.len()
                    && tag_name@.take(RELEASE_TAG_PREFIX@.len() as int) == RELEASE_TAG_PREFIX@),
        }),
{
    let t = chars_of(tag_name);
    let p = chars_of(RELEASE_TAG_PREFIX);
    if p.len() > t.len() {
        return Err(UpdateError::UnexpectedTag(tag_name.to_owned()));
    }
    let mut k: usize = 0;
    while k < p.len()
        invariant
            p@.len() <= t@.len(),
            p@ == RELEASE_TAG_PREFIX@,
            t@ == tag_name@,
            k <= p@.len(),
            forall|m: int| 0 <= m < k ==> t@[m] == p@[m],
        decreases p@.len() - k,
    {
        if t[k] != p[k] {
            assert(t@.take(p@.len() as int)[k as int] != p@[k as int]);
            return Err(UpdateError::UnexpectedTag(tag_name.to_owned()));
        }
        k = k + 1;
    }
    let v = sub_string(&t, p.len(), t.len());
    assert(p@ + v@ =~= t@);
    Ok(v)
}

/// Whether to install a release: when it differs from the running version,
/// or when forced.
pub fn update_needed(latest: &str, current: &str, force: bool) -> (r: bool)
    ensures
        r == (force || latest@ != current@),
{
    force || !str_eq(latest, current)
}

/// Whether an archive entry is the binary: its path ends with the binary's name.
pub fn is_binary_entry(path: &str, binary_name: &str) -> (r: bool)
    ensures
        r == has_suffix(path@, binary_name@),
{
    str_ends_with(path, binary_name)
}

/// Whether the text holds no backslash.
pub open spec fn no_backslash(t: Seq<char>) -> bool {
    forall|i: int| 0 <= i < t.len() ==> (#[trigger] t[i]) != '\\'
}

/// Whether the text holds no path separator: no `/` and no backslash.
pub open spec fn no_separator(t: Seq<char>) -> bool {
    forall|i: int| 0 <= i < t.len() ==> (#[trigger] t[i]) != '/' && t[i] != '\\'
}

/// Where the last `/`-separated component of a path starts.
pub open spec fn name_start(p: Seq<char>) -> int
    decreases p.len(),
{
    if p.len() == 0 {
        0
    } else if p.last() == '/' {
        p.len() as int
    } else {
        name_start(p.drop_last())
    }
}

/// The last `/`-separated component of a path.
pub open spec fn last_component(p: Seq<char>) -> Seq<char> {
    p.subrange(name_start(p), p.len() as int)
}

/// The position of the last `.` in a text, or -1.
pub open spec fn last_dot(n: Seq<char>) -> int
    decreases n.len(),
{
    if n.len() == 0 {
        -1
    } else if n.last() == '.' {
        n.len() - 1
    } else {
        last_dot(n.drop_last())
    }
}

/// Whether a path names a file the same way on every platform: written with
/// `/` separators only, not starting with `//` (a network share on Windows),
/// and ending in a component that is a name: not empty, not `.` or `..`, and
/// without `:` (a drive on Windows).
pub open spec fn portable_file_path(p: Seq<char>) -> bool {
    let n = last_component(p);
    &&& no_backslash(p)
    &&& !(p.len() >= 2 && p[0] == '/' && p[1] == '/')
    &&& n.len() > 0
    &&& n != seq!['.']
    &&& n != seq!['.', '.']
    &&& forall|i: int| 0 <= i < n.len() ==> (#[trigger] n[i]) != ':'
}

/// The path with its file name's extension set: the part after the name's last
/// `.` replaced, where that `.` does not start the name; else `.` and the
/// extension appended.
pub open spec fn with_extension_text(p: Seq<char>, extension: Seq<char>) -> Seq<char> {
    let s = name_start(p);
    let d = last_dot(last_component(p));
    if d > 0 {
        p.subrange(0, s + d + 1) + extension
    } else {
        p + seq!['.'] + extension
    }
}

/// `std::path::PathBuf::set_extension` on the path, taken back as text. It
/// panics on an extension with a path separator, which is left out here. For a
/// non-empty extension and a path that names a file the same way on every
/// platform, it replaces the file name's extension as its documentation says;
/// of other paths (with a backslash, a drive, a network share, no file name)
/// nothing is said, since what they name depends on the platform.
#[verifier::external_body]
fn path_with_extension(path: &str, extension: &str) -> (r: String)
    requires
        no_separator(extension@),
    ensures
        portable_file_path(path@) && extension@.len() > 0 ==> r@ == with_extension_text(path@, extension@),
{
    let mut p = std::path::PathBuf::from(path);
    p.set_extension(extension);
    p.to_string_lossy().into_owned()
}

/// Where the new binary is staged: the executable's path with the extension `tmp`.
pub fn get_temp_path(current_exe: &str) -> (r: String)
    ensures
        portable_file_path(current_exe@) ==> r@ == with_extension_text(current_exe@, "tmp"@),
{
    proof {
        reveal_strlit("tmp");
    }
    path_with_extension(current_exe, "tmp")
}

/// Where the running binary is backed up: the executable's path with the extension `bak`.
pub fn get_backup_path(current_exe: &str) -> (r: String)
    ensures
        portable_file_path(current_exe@) ==> r@ == with_extension_text(current_exe@, "bak"@),
{
    proof {
        reveal_strlit("bak");
    }
    path_with_extension(current_exe, "bak")
}

} // verus!
