//! Semantic versions, version requirements and version selection.
//!
//! Versions and requirements are held as plain values; parsing, requirement
//! matching and version ordering are those of the `semver` crate.

use crate::text::{dec_digits, is_digit_char, lemma_dec_digits_injective, lemma_dec_digits_shape, lemma_split_before, push_char, push_str, u64_to_dec};
use semver::Op::{Caret as SCaret, Exact as SExact, Greater as SGreater, GreaterEq as SGreaterEq};
use semver::Op::{Less as SLess, LessEq as SLessEq, Tilde as STilde, Wildcard as SWildcard};
use semver::{BuildMetadata as SemverBuild, Prerelease as SemverPre};
use vstd::prelude::*;

verus! {

/// Abstract value of a [`Version`].
pub struct VersionView {
    pub major: u64,
    pub minor: u64,
    pub patch: u64,
    pub pre: Seq<char>,
    pub build: Seq<char>,
}

/// Comparison operator of a requirement comparator.
#[derive(Debug, Clone, Copy, PartialEq, Eq, Structural)]
pub enum Op {
    /// `=`
    Exact,
    /// `>`
    Greater,
    /// `>=`
    GreaterEq,
    /// `<`
    Less,
    /// `<=`
    LessEq,
    /// `~`
    Tilde,
    /// `^`
    Caret,
    /// `*`
    Wildcard,
}

/// Abstract value of a [`Comparator`].
pub struct ComparatorView {
    pub op: Op,
    pub major: u64,
    pub minor: Option<u64>,
    pub patch: Option<u64>,
    pub pre: Seq<char>,
}


/// What `semver::VersionReq::parse` gives for the text.
pub uninterp spec fn spec_parse_req(text: Seq<char>) -> Option<Seq<ComparatorView>>;

/// Whether `semver::VersionReq::matches` accepts the version, where a
/// pre-release is involved.
pub uninterp spec fn spec_semver_matches(req: Seq<ComparatorView>, v: VersionView) -> bool;

/// The order of `semver::Version` (`Ord::cmp`) as -1, 0 or 1, where a
/// pre-release or build metadata is involved.
pub uninterp spec fn spec_semver_precedence(a: VersionView, b: VersionView) -> int;

/// A version without pre-release and build metadata.
pub open spec fn is_plain(v: VersionView) -> bool {
    v.pre.len() == 0 && v.build.len() == 0
}

/// -1, 0 or 1 as `a` is below, equal to or above `b`.
pub open spec fn number_order(a: int, b: int) -> int {
    if a < b { -1 } else if a > b { 1 } else { 0 }
}

/// The order of plain versions: by major, then minor, then patch number.
pub open spec fn plain_order(a: VersionView, b: VersionView) -> int {
    if a.major != b.major {
        number_order(a.major as int, b.major as int)
    } else if a.minor != b.minor {
        number_order(a.minor as int, b.minor as int)
    } else {
        number_order(a.patch as int, b.patch as int)
    }
}

/// The order of `semver::Version` (`Ord::cmp`, derived over major, minor,
/// patch, pre-release, build) as -1, 0 or 1: by the numbers for two plain
/// versions.
#[verifier::opaque]
pub open spec fn spec_version_order(a: VersionView, b: VersionView) -> int {
    if is_plain(a) && is_plain(b) { plain_order(a, b) } else { spec_semver_precedence(a, b) }
}

/// Whether a comparator without pre-release matches a version without one,
/// as `semver` decides it: `=` and `*` on the numbers given, `>` and `<` by
/// the first number given that differs, `~` on major (and minor where given)
/// with the patch not below a given one, `^` on the leftmost non-zero number
/// given with the rest not below.
pub open spec fn plain_comparator_matches(c: ComparatorView, v: VersionView) -> bool {
    let exact = v.major == c.major && (c.minor matches Some(m) ==> v.minor == m) && (c.patch matches Some(p) ==> v.patch == p);
    let greater = if v.major != c.major { v.major > c.major } else {
        match c.minor {
            None => false,
            Some(m) => if v.minor != m { v.minor > m } else {
                match c.patch { None => false, Some(p) => v.patch > p }
            },
        }
    };
    let less = if v.major != c.major { v.major < c.major } else {
        match c.minor {
            None => false,
            Some(m) => if v.minor != m { v.minor < m } else {
                match c.patch { None => false, Some(p) => v.patch < p }
            },
        }
    };
    match c.op {
        Op::Exact | Op::Wildcard => exact,
        Op::Greater => greater,
        Op::GreaterEq => exact || greater,
        Op::Less => less,
        Op::LessEq => exact || less,
        Op::Tilde => v.major == c.major && (c.minor matches Some(m) ==> v.minor == m)
            && (c.patch matches Some(p) ==> v.patch >= p),
        Op::Caret => v.major == c.major && match c.minor {
            None => true,
            Some(m) => match c.patch {
                None => if c.major > 0 { v.minor >= m } else { v.minor == m },
                Some(p) => if c.major > 0 {
                    v.minor > m || (v.minor == m && v.patch >= p)
                } else if m > 0 {
                    v.minor == m && v.patch >= p
                } else {
                    v.minor == m && v.patch == p
                },
            },
        },
    }
}

/// Whether the version and the comparators carry no pre-release.
pub open spec fn without_pre(req: Seq<ComparatorView>, v: VersionView) -> bool {
    v.pre.len() == 0 && forall|i: int| 0 <= i < req.len() ==> (#[trigger] req[i]).pre.len() == 0
}

/// Whether the requirement is one `=` comparator with all three numbers.
pub open spec fn exact_full(req: Seq<ComparatorView>) -> bool {
    req.len() == 1 && req[0].op == Op::Exact && req[0].minor is Some && req[0].patch is Some
}

/// Whether a full `=` comparator matches a version: the same numbers and the
/// same pre-release.
pub open spec fn exact_comparator_matches(c: ComparatorView, v: VersionView) -> bool {
    v.major == c.major && c.minor == Some(v.minor) && c.patch == Some(v.patch) && v.pre == c.pre
}

/// Whether `semver::VersionReq::matches` accepts the version: where neither
/// carries a pre-release, every comparator matches it; a full `=` comparator
/// matches the version with its numbers and pre-release.
pub open spec fn spec_req_matches(req: Seq<ComparatorView>, v: VersionView) -> bool {
    if without_pre(req, v) {
        forall|i: int| 0 <= i < req.len() ==> #[trigger] plain_comparator_matches(req[i], v)
    } else if exact_full(req) {
        exact_comparator_matches(req[0], v)
    } else {
        spec_semver_matches(req, v)
    }
}

/// A character of a `semver` identifier: an ASCII letter or digit, `-`, or
/// the `.` between identifiers.
pub open spec fn ident_char(c: char) -> bool {
    let n = c as int;
    (48 <= n <= 57) || (65 <= n <= 90) || (97 <= n <= 122) || n == 45 || n == 46
}

/// Text made of identifier characters only.
pub open spec fn ident_text(t: Seq<char>) -> bool {
    forall|i: int| 0 <= i < t.len() ==> ident_char(#[trigger] t[i])
}

/// Whether an all-digit identifier of more than one digit, starting with `0`,
/// spans positions `s` to `e` of the text.
pub open spec fn zero_led_number(t: Seq<char>, s: int, e: int) -> bool {
    &&& 0 <= s && s + 1 < e <= t.len()
    &&& (s == 0 || t[s - 1] == '.') && (e == t.len() || t[e] == '.')
    &&& t[s] == '0'
    &&& forall|j: int| s <= j < e ==> is_digit_char(#[trigger] t[j])
}

/// Dot-separated identifiers as `semver` reads them, the empty text included:
/// ASCII letters, digits and `-`, no identifier empty, and, where
/// `numbers_checked`, no all-digit identifier of several digits led by `0`.
#[verifier::opaque]
pub open spec fn identifiers_ok(t: Seq<char>, numbers_checked: bool) -> bool {
    &&& ident_text(t)
    &&& t.len() > 0 ==> t[0] != '.' && t[t.len() - 1] != '.'
    &&& forall|i: int| 0 <= i < t.len() - 1 && #[trigger] t[i] == '.' ==> t[i + 1] != '.'
    &&& numbers_checked ==> forall|s: int, e: int| !#[trigger] zero_led_number(t, s, e)
}

/// Accepted identifiers are made of identifier characters.
pub proof fn lemma_identifiers_are_ident_text(t: Seq<char>, numbers_checked: bool)
    ensures
        identifiers_ok(t, numbers_checked) ==> ident_text(t),
        identifiers_ok(Seq::empty(), numbers_checked),
{
    reveal(identifiers_ok);
}

/// A pre-release text that the `semver` crate accepts (the empty text included).
pub open spec fn pre_ok(text: Seq<char>) -> bool {
    identifiers_ok(text, true)
}

/// A build metadata text that the `semver` crate accepts (the empty text included).
pub open spec fn build_ok(text: Seq<char>) -> bool {
    identifiers_ok(text, false)
}

/// A version whose pre-release and build texts `semver` accepts.
pub open spec fn version_view_ok(v: VersionView) -> bool {
    pre_ok(v.pre) && build_ok(v.build)
}

/// A semantic version: `major.minor.patch`, an optional pre-release and
/// optional build metadata.
#[derive(Debug)]
pub struct Version {
    major: u64,
    minor: u64,
    patch: u64,
    pre: String,
    build: String,
}

impl View for Version {
    type V = VersionView;

    closed spec fn view(&self) -> VersionView {
        VersionView {
            major: self.major,
            minor: self.minor,
            patch: self.patch,
            pre: self.pre@,
            build: self.build@,
        }
    }
}

/// One comparator of a version requirement, such as `>=1.2`.
#[derive(Debug)]
pub struct Comparator {
    op: Op,
    major: u64,
    minor: Option<u64>,
    patch: Option<u64>,
    pre: String,
}

impl View for Comparator {
    type V = ComparatorView;

    closed spec fn view(&self) -> ComparatorView {
        ComparatorView {
            op: self.op,
            major: self.major,
            minor: self.minor,
            patch: self.patch,
            pre: self.pre@,
        }
    }
}

/// A version requirement: the conjunction of its comparators (`*` when empty).
#[derive(Debug)]
pub struct VersionReq {
    comparators: Vec<Comparator>,
}

/// The views of a sequence of comparators.
pub open spec fn comparators_view(s: Seq<Comparator>) -> Seq<ComparatorView> {
    s.map_values(|c: Comparator| c@)
}

impl View for VersionReq {
    type V = Seq<ComparatorView>;

    closed spec fn view(&self) -> Seq<ComparatorView> {
        comparators_view(self.comparators@)
    }
}

/// Whether every comparator's pre-release text is one that `semver` accepts.
pub open spec fn req_ok(req: Seq<ComparatorView>) -> bool {
    forall|i: int| 0 <= i < req.len() ==> pre_ok(#[trigger] req[i].pre)
}

impl VersionReq {
    #[verifier::type_invariant]
    spec fn wf(self) -> bool {
        req_ok(self@)
    }
}

/// The views of a sequence of versions.
pub open spec fn versions_view(s: Seq<Version>) -> Seq<VersionView> {
    s.map_values(|v: Version| v@)
}

/// The view of an optional version.
pub open spec fn opt_version_view(o: Option<Version>) -> Option<VersionView> {
    match o {
        Some(v) => Some(v@),
        None => None,
    }
}

impl Version {
    /// A version's pre-release and build texts are ones that `semver` accepts.
    #[verifier::type_invariant]
    pub open spec fn wf(self) -> bool {
        version_view_ok(self@)
    }

    /// The version `major.minor.patch`, with no pre-release and no build metadata.
    pub fn new(major: u64, minor: u64, patch: u64) -> (v: Version)
        ensures
            v@ == (VersionView { major, minor, patch, pre: Seq::empty(), build: Seq::empty() }),
    {
        proof {
            lemma_identifiers_are_ident_text(Seq::empty(), true);
            lemma_identifiers_are_ident_text(Seq::empty(), false);
        }
        Version { major, minor, patch, pre: String::new(), build: String::new() }
    }

    /// The major number.
    pub fn major(&self) -> (r: u64)
        ensures
            r == self@.major,
    {
        self.major
    }

    /// The minor number.
    pub fn minor(&self) -> (r: u64)
        ensures
            r == self@.minor,
    {
        self.minor
    }

    /// The patch number.
    pub fn patch(&self) -> (r: u64)
        ensures
            r == self@.patch,
    {
        self.patch
    }

    /// The pre-release text (empty when there is none).
    pub fn pre(&self) -> (r: &str)
        ensures
            r@ == self@.pre,
    {
        self.pre.as_str()
    }

    /// The build metadata text (empty when there is none).
    pub fn build(&self) -> (r: &str)
        ensures
            r@ == self@.build,
    {
        self.build.as_str()
    }

    /// A copy of this version.
    pub fn duplicate(&self) -> (r: Version)
        ensures
            r@ == self@,
    {
        proof {
            use_type_invariant(self);
        }
        Version {
            major: self.major,
            minor: self.minor,
            patch: self.patch,
            pre: self.pre.clone(),
            build: self.build.clone(),
        }
    }
}


/// Whether `semver::Prerelease::new` accepts the text: exactly dot-separated,
/// non-empty identifiers of ASCII letters, digits and `-`, none of them an
/// all-digit identifier of several digits led by `0` (the empty text too).
#[verifier::external_body]
fn semver_prerelease_accepted(text: &str) -> (r: bool)
    ensures
        r == identifiers_ok(text@, true),
{
    SemverPre::new(text).is_ok()
}

/// Whether `semver::BuildMetadata::new` accepts the text: exactly
/// dot-separated, non-empty identifiers of ASCII letters, digits and `-` (the
/// empty text too).
#[verifier::external_body]
fn semver_build_accepted(text: &str) -> (r: bool)
    ensures
        r == identifiers_ok(text@, false),
{
    SemverBuild::new(text).is_ok()
}

/// `semver::Version::parse`, its result held as plain values: a text is
/// accepted exactly where it is the text of a version (`major.minor.patch`,
/// numbers without leading zeros and within `u64`, then `-pre` and `+build`
/// where not empty, with texts that `semver` accepts), and gives that version.
#[verifier::external_body]
fn semver_parse_version(text: &str) -> (r: Option<Version>)
    ensures
        opt_version_view(r) == spec_parse_version(text@),
        r matches Some(v) ==> pre_ok(v@.pre) && build_ok(v@.build),
{
    match semver::Version::parse(text) {
        Ok(v) => Some(Version {
            major: v.major,
            minor: v.minor,
            patch: v.patch,
            pre: v.pre.as_str().to_string(),
            build: v.build.as_str().to_string(),
        }),
        Err(_) => None,
    }
}

/// `semver::VersionReq::parse`, its comparators held as plain values. The
/// pre-release texts of the parsed comparators are ones that `semver` accepts,
/// made of identifier characters.
#[verifier::external_body]
fn semver_parse_req(text: &str) -> (r: Option<VersionReq>)
    ensures
        (match r {
            Some(q) => spec_parse_req(text@) == Some(q@),
            None => spec_parse_req(text@) is None,
        }),
        r matches Some(q) ==> forall|i: int| 0 <= i < q@.len() ==> pre_ok(#[trigger] q@[i].pre),
{
    let Ok(req) = semver::VersionReq::parse(text) else { return None };
    let mut comparators = Vec::new();
    for c in req.comparators {
        let op = match c.op {
            SExact => Op::Exact, SGreater => Op::Greater, SGreaterEq => Op::GreaterEq, SLess => Op::Less,
            SLessEq => Op::LessEq, STilde => Op::Tilde, SCaret => Op::Caret, SWildcard => Op::Wildcard,
            _ => return None,
        };
        comparators.push(Comparator { op, major: c.major, minor: c.minor, patch: c.patch, pre: c.pre.to_string() });
    }
    Some(VersionReq { comparators })
}

/// `semver::VersionReq::matches` on the requirement and version built from
/// the plain values. Where neither carries a pre-release, it is the
/// comparator-by-comparator check of `semver`'s `eval.rs`, stated in
/// `plain_comparator_matches`; for one `=` comparator with all three numbers
/// it is `matches_exact` with `pre_is_compatible` (the same numbers and the
/// same pre-release); otherwise it is only named.
#[verifier::external_body]
fn semver_matches(req: &VersionReq, v: &Version) -> (r: bool)
    requires
        req_ok(req@),
        version_view_ok(v@),
    ensures
        r == spec_req_matches(req@, v@),
        !without_pre(req@, v@) && !exact_full(req@) ==> r == spec_semver_matches(req@, v@),
{
    let mut cs = Vec::new();
    for c in &req.comparators {
        let op = match c.op {
            Op::Exact => SExact, Op::Greater => SGreater, Op::GreaterEq => SGreaterEq, Op::Less => SLess,
            Op::LessEq => SLessEq, Op::Tilde => STilde, Op::Caret => SCaret, Op::Wildcard => SWildcard,
        };
        cs.push(semver::Comparator { op, major: c.major, minor: c.minor, patch: c.patch, pre: SemverPre::new(&c.pre).unwrap() });
    }
    let sv = semver::Version { major: v.major, minor: v.minor, patch: v.patch,
        pre: SemverPre::new(&v.pre).unwrap(), build: SemverBuild::new(&v.build).unwrap() };
    semver::VersionReq { comparators: cs }.matches(&sv)
}

/// What a total order gives, once `a` and `b` compare as `r` (-1, 0, 1):
/// `b` compares as `-r` to `a`, `r` is 0 exactly when they are equal, and any
/// third version falls in line with both (transitivity).
pub open spec fn order_facts(a: VersionView, b: VersionView, r: i8) -> bool {
    &&& -1 <= r <= 1
    &&& spec_version_order(a, b) == r
    &&& spec_version_order(b, a) == 0 - r
    &&& (r == 0) == (a == b)
    &&& forall|c: VersionView| r >= 0 && #[trigger] spec_version_order(b, c) >= 0 ==> spec_version_order(a, c) >= 0
    &&& forall|c: VersionView| r >= 0 && #[trigger] spec_version_order(b, c) > 0 ==> spec_version_order(a, c) > 0
    &&& forall|c: VersionView| r >= 0 && #[trigger] spec_version_order(c, a) >= 0 ==> spec_version_order(c, b) >= 0
    &&& forall|c: VersionView| r >= 0 && #[trigger] spec_version_order(c, a) > 0 ==> spec_version_order(c, b) > 0
    &&& forall|c: VersionView| r <= 0 && #[trigger] spec_version_order(a, c) >= 0 ==> spec_version_order(b, c) >= 0
    &&& forall|c: VersionView| r <= 0 && #[trigger] spec_version_order(a, c) > 0 ==> spec_version_order(b, c) > 0
    &&& forall|c: VersionView| r <= 0 && #[trigger] spec_version_order(c, b) >= 0 ==> spec_version_order(c, a) >= 0
    &&& forall|c: VersionView| r <= 0 && #[trigger] spec_version_order(c, b) > 0 ==> spec_version_order(c, a) > 0
    &&& forall|c: VersionView| r > 0 && #[trigger] spec_version_order(c, a) >= 0 ==> spec_version_order(c, b) > 0
    &&& forall|c: VersionView| r > 0 && #[trigger] spec_version_order(b, c) >= 0 ==> spec_version_order(a, c) > 0
    &&& forall|c: VersionView| r < 0 && #[trigger] spec_version_order(c, b) >= 0 ==> spec_version_order(c, a) > 0
    &&& forall|c: VersionView| r < 0 && #[trigger] spec_version_order(a, c) >= 0 ==> spec_version_order(b, c) > 0
}

/// `Ord::cmp` of `semver::Version` as -1, 0 or 1. The order is total, as
/// `Ord` documents: it is zero exactly on equal versions, antisymmetric and
/// transitive; for two plain versions it is the order of the numbers (the
/// derived `Ord` compares major, minor, patch, then the empty texts).
#[verifier::external_body]
fn semver_order(a: &Version, b: &Version) -> (r: i8)
    requires
        version_view_ok(a@),
        version_view_ok(b@),
    ensures
        r == spec_version_order(a@, b@),
        !(is_plain(a@) && is_plain(b@)) ==> r == spec_semver_precedence(a@, b@),
        order_facts(a@, b@, r),
{
    let x = semver::Version { major: a.major, minor: a.minor, patch: a.patch,
        pre: SemverPre::new(&a.pre).unwrap(), build: SemverBuild::new(&a.build).unwrap() };
    let y = semver::Version { major: b.major, minor: b.minor, patch: b.patch,
        pre: SemverPre::new(&b.pre).unwrap(), build: SemverBuild::new(&b.build).unwrap() };
    match x.cmp(&y) {
        std::cmp::Ordering::Less => -1,
        std::cmp::Ordering::Equal => 0,
        std::cmp::Ordering::Greater => 1,
    }
}


/// The text that `semver` displays for a requirement (`Display for VersionReq`).
pub uninterp spec fn spec_req_text(req: Seq<ComparatorView>) -> Seq<char>;

/// `Display for semver::VersionReq`, on the requirement built from the plain values.
#[verifier::external_body]
fn semver_req_display(req: &VersionReq) -> (r: String)
    requires
        req_ok(req@),
    ensures
        r@ == spec_req_text(req@),
{
    let mut cs = Vec::new();
    for c in req.comparators.iter() {
        let op = match c.op {
            Op::Exact => SExact, Op::Greater => SGreater, Op::GreaterEq => SGreaterEq, Op::Less => SLess,
            Op::LessEq => SLessEq, Op::Tilde => STilde, Op::Caret => SCaret, Op::Wildcard => SWildcard,
        };
        let pre = SemverPre::new(&c.pre).unwrap();
        cs.push(semver::Comparator { op, major: c.major, minor: c.minor, patch: c.patch, pre });
    }
    semver::VersionReq { comparators: cs }.to_string()
}

/// The text of a version as `semver` displays it:
/// `major.minor.patch`, then `-pre` and `+build` where they are not empty.
pub open spec fn version_display(v: VersionView) -> Seq<char> {
    dec_digits(v.major as nat) + seq!['.'] + dec_digits(v.minor as nat) + seq!['.']
        + dec_digits(v.patch as nat) + pre_part(v.pre) + build_part(v.build)
}

/// What `semver::Version::parse` gives for a text: the version whose text it
/// is (`major.minor.patch`, each number without leading zeros, then `-` and a
/// pre-release and `+` and build metadata where these are not empty), for
/// pre-release and build texts that `semver` accepts; none for any other text.
pub open spec fn spec_parse_version(text: Seq<char>) -> Option<VersionView> {
    if exists|v: VersionView| version_view_ok(v) && #[trigger] version_display(v) == text {
        Some(choose|v: VersionView| version_view_ok(v) && #[trigger] version_display(v) == text)
    } else {
        None
    }
}

/// `-pre`, or nothing for an empty pre-release.
pub open spec fn pre_part(pre: Seq<char>) -> Seq<char> {
    if pre.len() == 0 { Seq::empty() } else { seq!['-'] + pre }
}

/// `+build`, or nothing for empty build metadata.
pub open spec fn build_part(build: Seq<char>) -> Seq<char> {
    if build.len() == 0 { Seq::empty() } else { seq!['+'] + build }
}

/// The text of a version in artifact names: `major.minor.patch`, then `-pre`
/// where the pre-release is not empty; build metadata is left out.
pub open spec fn artifact_version_text(v: VersionView) -> Seq<char> {
    dec_digits(v.major as nat) + seq!['.'] + dec_digits(v.minor as nat) + seq!['.']
        + dec_digits(v.patch as nat)
        + (if v.pre.len() == 0 { Seq::empty() } else { seq!['-'] + v.pre })
}

/// Whether the requirement consists of exactly one `=` comparator.
pub open spec fn spec_is_exact(req: Seq<ComparatorView>) -> bool {
    req.len() == 1 && req[0].op == Op::Exact
}

/// The version that an exact requirement names (missing numbers are 0, no build metadata).
pub open spec fn spec_extract_exact(req: Seq<ComparatorView>) -> Option<VersionView> {
    if spec_is_exact(req) {
        Some(VersionView {
            major: req[0].major,
            minor: match req[0].minor { Some(m) => m, None => 0 },
            patch: match req[0].patch { Some(p) => p, None => 0 },
            pre: req[0].pre,
            build: Seq::empty(),
        })
    } else {
        None
    }
}

/// The exact requirement `=major.minor.patch-pre` for a version.
pub open spec fn spec_to_exact(v: VersionView) -> Seq<ComparatorView> {
    seq![ComparatorView { op: Op::Exact, major: v.major, minor: Some(v.minor), patch: Some(v.patch), pre: v.pre }]
}

/// What `s.iter().filter(keep).max()` gives: of the kept versions the
/// greatest, and the last of equal greatest ones (`Iterator::max`).
pub open spec fn max_kept(s: Seq<VersionView>, keep: spec_fn(VersionView) -> bool) -> Option<VersionView>
    decreases s.len(),
{
    if s.len() == 0 {
        None
    } else {
        let prev = max_kept(s.drop_last(), keep);
        let x = s.last();
        if !keep(x) {
            prev
        } else {
            match prev {
                None => Some(x),
                Some(m) => if spec_version_order(m, x) > 0 { Some(m) } else { Some(x) },
            }
        }
    }
}

/// What `available.iter().filter(|v| req.matches(v)).max()` gives.
pub open spec fn spec_select(req: Seq<ComparatorView>, s: Seq<VersionView>) -> Option<VersionView> {
    max_kept(s, |v: VersionView| spec_req_matches(req, v))
}

impl Version {
    /// Parses a version such as `1.2.3-alpha.1+build.5`; `None` where `semver` refuses the text.
    pub fn parse(text: &str) -> (r: Option<Version>)
        ensures
            opt_version_view(r) == spec_parse_version(text@),
    {
        semver_parse_version(text)
    }

    /// The version with the given numbers and texts; `None` where `semver`
    /// refuses the pre-release or the build metadata text.
    pub fn from_parts(major: u64, minor: u64, patch: u64, pre: &str, build: &str) -> (r: Option<Version>)
        ensures
            r is Some <==> pre_ok(pre@) && build_ok(build@),
            r matches Some(v) ==> v@ == (VersionView { major, minor, patch, pre: pre@, build: build@ }),
    {
        proof {
            lemma_identifiers_are_ident_text(Seq::empty(), true);
            lemma_identifiers_are_ident_text(Seq::empty(), false);
        }
        let pre_fine = pre.is_empty() || semver_prerelease_accepted(pre);
        let build_fine = build.is_empty() || semver_build_accepted(build);
        if pre_fine && build_fine {
            proof {
                if pre@.len() == 0 {
                    assert(pre@ =~= Seq::<char>::empty());
                }
                if build@.len() == 0 {
                    assert(build@ =~= Seq::<char>::empty());
                }
            }
            Some(Version { major, minor, patch, pre: pre.to_owned(), build: build.to_owned() })
        } else {
            None
        }
    }

    /// The order of versions: -1, 0 or 1 as this version is lower than, equal to
    /// or greater than the other.
    pub fn compare(&self, other: &Version) -> (r: i8)
        ensures
            r == spec_version_order(self@, other@),
            order_facts(self@, other@, r),
    {
        proof {
            use_type_invariant(self);
            use_type_invariant(other);
        }
        semver_order(self, other)
    }

    /// The text of the version (`major.minor.patch[-pre][+build]`).
    pub fn to_string(&self) -> (s: String)
        ensures
            s@ == version_display(self@),
    {
        let mut s = u64_to_dec(self.major);
        push_char(&mut s, '.');
        let minor = u64_to_dec(self.minor);
        push_str(&mut s, minor.as_str());
        push_char(&mut s, '.');
        let patch = u64_to_dec(self.patch);
        push_str(&mut s, patch.as_str());
        if !self.pre.as_str().is_empty() {
            push_char(&mut s, '-');
            push_str(&mut s, self.pre.as_str());
        }
        if !self.build.as_str().is_empty() {
            push_char(&mut s, '+');
            push_str(&mut s, self.build.as_str());
        }
        assert(s@ =~= version_display(self@));
        s
    }
}

impl Comparator {
    #[verifier::type_invariant]
    spec fn wf(self) -> bool {
        pre_ok(self.pre@)
    }

    /// The version `major.minor.patch-pre` that the comparator names, missing
    /// numbers taken as 0, without build metadata.
    pub fn version(&self) -> (v: Version)
        ensures
            v@ == (VersionView {
                major: self@.major,
                minor: match self@.minor { Some(m) => m, None => 0 },
                patch: match self@.patch { Some(p) => p, None => 0 },
                pre: self@.pre,
                build: Seq::empty(),
            }),
    {
        proof {
            use_type_invariant(self);
        }
        let minor = match self.minor { Some(m) => m, None => 0 };
        let patch = match self.patch { Some(p) => p, None => 0 };
        proof {
            lemma_identifiers_are_ident_text(Seq::empty(), false);
        }
        Version { major: self.major, minor, patch, pre: self.pre.clone(), build: String::new() }
    }

    /// The operator.
    pub fn op(&self) -> (r: Op)
        ensures
            r == self@.op,
    {
        self.op
    }

    /// The major number.
    pub fn major(&self) -> (r: u64)
        ensures
            r == self@.major,
    {
        self.major
    }

    /// The minor number, if given.
    pub fn minor(&self) -> (r: Option<u64>)
        ensures
            r == self@.minor,
    {
        self.minor
    }

    /// The patch number, if given.
    pub fn patch(&self) -> (r: Option<u64>)
        ensures
            r == self@.patch,
    {
        self.patch
    }

    /// The pre-release text (empty when there is none).
    pub fn pre(&self) -> (r: &str)
        ensures
            r@ == self@.pre,
    {
        self.pre.as_str()
    }
}

impl VersionReq {
    /// Parses a requirement such as `>=1.0.0, <2.0.0`; `None` where `semver` refuses the text.
    pub fn parse(text: &str) -> (r: Option<VersionReq>)
        ensures
            (match r {
                Some(q) => spec_parse_req(text@) == Some(q@),
                None => spec_parse_req(text@) is None,
            }),
    {
        semver_parse_req(text)
    }

    /// The requirement `*`, which every version without pre-release matches.
    pub fn star() -> (r: VersionReq)
        ensures
            r@ == Seq::<ComparatorView>::empty(),
    {
        let r = VersionReq { comparators: Vec::new() };
        assert(r@ =~= Seq::<ComparatorView>::empty());
        r
    }

    /// The comparators, in order.
    pub fn comparators(&self) -> (r: &Vec<Comparator>)
        ensures
            comparators_view(r@) == self@,
    {
        &self.comparators
    }

    /// The text of the requirement, as `semver` displays it (`*` where it is empty).
    pub fn to_string(&self) -> (r: String)
        ensures
            r@ == spec_req_text(self@),
    {
        proof {
            use_type_invariant(self);
        }
        semver_req_display(self)
    }

    /// A copy of this requirement.
    pub fn duplicate(&self) -> (r: VersionReq)
        ensures
            r@ == self@,
    {
        proof {
            use_type_invariant(self);
        }
        let mut comparators: Vec<Comparator> = Vec::new();
        let mut i: usize = 0;
        while i < self.comparators.len()
            invariant
                i <= self.comparators@.len(),
                comparators_view(comparators@) == comparators_view(self.comparators@).take(i as int),
            decreases self.comparators@.len() - i,
        {
            let c = &self.comparators[i];
            proof {
                use_type_invariant(c);
            }
            let d = Comparator { op: c.op, major: c.major, minor: c.minor, patch: c.patch, pre: c.pre.clone() };
            let ghost before = comparators@;
            comparators.push(d);
            assert(comparators_view(comparators@) =~= comparators_view(before).push(c@));
            i = i + 1;
            assert(comparators_view(comparators@) =~= comparators_view(self.comparators@).take(i as int));
        }
        assert(comparators_view(self.comparators@).take(i as int) =~= comparators_view(self.comparators@));
        VersionReq { comparators }
    }

    /// Whether two requirements are the same.
    pub fn same(&self, other: &VersionReq) -> (r: bool)
        ensures
            r == (self@ == other@),
    {
        if self.comparators.len() != other.comparators.len() {
            assert(self@.len() != other@.len());
            return false;
        }
        let mut i: usize = 0;
        while i < self.comparators.len()
            invariant
                self.comparators@.len() == other.comparators@.len(),
                i <= self.comparators@.len(),
                forall|k: int| 0 <= k < i ==> self@[k] == other@[k],
            decreases self.comparators@.len() - i,
        {
            let a = &self.comparators[i];
            let b = &other.comparators[i];
            let same = a.op == b.op && a.major == b.major && a.minor == b.minor && a.patch == b.patch
                && crate::text::str_eq(a.pre.as_str(), b.pre.as_str());
            assert(self@[i as int] == a@ && other@[i as int] == b@);
            if !same {
                return false;
            }
            i = i + 1;
        }
        assert(self@ =~= other@);
        true
    }

    /// Whether the version meets the requirement (as `semver` decides it).
    pub fn matches(&self, v: &Version) -> (r: bool)
        ensures
            r == spec_req_matches(self@, v@),
    {
        proof {
            use_type_invariant(self);
            use_type_invariant(v);
        }
        semver_matches(self, v)
    }
}

/// Selects the best matching version: the highest of the available versions
/// that the requirement matches, or `None` where none matches.
pub fn select_version(req: &VersionReq, available: &[Version]) -> (r: Option<Version>)
    ensures
        opt_version_view(r) == spec_select(req@, versions_view(available@)),
        r is Some <==> exists|i: int| 0 <= i < available@.len() && spec_req_matches(req@, #[trigger] available@[i]@),
        r matches Some(m) ==> exists|i: int| 0 <= i < available@.len() && #[trigger] available@[i]@ == m@ && spec_req_matches(req@, m@),
        r matches Some(m) ==> forall|i: int| 0 <= i < available@.len() && spec_req_matches(req@, #[trigger] available@[i]@)
            ==> available@[i]@ == m@ || spec_version_order(m@, available@[i]@) >= 0,
{
    let ghost views = versions_view(available@);
    let mut best: Option<usize> = None;
    let mut i: usize = 0;
    while i < available.len()
        invariant
            views == versions_view(available@),
            i <= available@.len(),
            match best {
                None => spec_select(req@, views.take(i as int)) is None,
                Some(b) => b < i && spec_select(req@, views.take(i as int)) == Some(available@[b as int]@),
            },
            best is Some <==> exists|j: int| 0 <= j < i && spec_req_matches(req@, #[trigger] available@[j]@),
            best matches Some(b) ==> spec_req_matches(req@, available@[b as int]@),
            best matches Some(b) ==> forall|j: int| 0 <= j < i && spec_req_matches(req@, #[trigger] available@[j]@)
                ==> available@[j]@ == available@[b as int]@ || spec_version_order(available@[b as int]@, available@[j]@) >= 0,
        decreases available@.len() - i,
    {
        assert(views.take(i + 1).drop_last() =~= views.take(i as int));
        let ok = req.matches(&available[i]);
        if ok {
            match best {
                None => {
                    best = Some(i);
                },
                Some(b) => {
                    let c = available[b].compare(&available[i]);
                    if c <= 0 {
                        proof {
                            let bv = available@[b as int]@;
                            let xv = available@[i as int]@;
                            assert forall|j: int| 0 <= j < i + 1 && spec_req_matches(req@, #[trigger] available@[j]@)
                                implies available@[j]@ == xv || spec_version_order(xv, available@[j]@) >= 0 by {
                                if j < i && available@[j]@ != bv {
                                    assert(spec_version_order(bv, available@[j]@) >= 0);
                                }
                            }
                        }
                        best = Some(i);
                    }
                },
            }
        }
        i = i + 1;
    }
    assert(views.take(available@.len() as int) =~= views);
    match best {
        None => None,
        Some(b) => Some(available[b].duplicate()),
    }
}

/// Copies of the versions, in order.
pub fn copy_versions(vs: &Vec<Version>) -> (r: Vec<Version>)
    ensures
        versions_view(r@) == versions_view(vs@),
{
    let mut r: Vec<Version> = Vec::new();
    let mut i: usize = 0;
    while i < vs.len()
        invariant
            i <= vs@.len(),
            versions_view(r@) == versions_view(vs@).take(i as int),
        decreases vs@.len() - i,
    {
        let ghost before = r@;
        r.push(vs[i].duplicate());
        assert(versions_view(r@) =~= versions_view(before).push(vs@[i as int]@));
        i = i + 1;
        assert(versions_view(r@) =~= versions_view(vs@).take(i as int));
    }
    assert(versions_view(vs@).take(i as int) =~= versions_view(vs@));
    r
}

/// Whether the requirement has exactly one comparator and that comparator is `=`.
pub fn is_exact_requirement(req: &VersionReq) -> (r: bool)
    ensures
        r == spec_is_exact(req@),
{
    let cs = req.comparators();
    cs.len() == 1 && cs[0].op() == Op::Exact
}

/// The version that an exact requirement names; `None` where the requirement is not exact.
pub fn extract_exact_version(req: &VersionReq) -> (r: Option<Version>)
    ensures
        opt_version_view(r) == spec_extract_exact(req@),
{
    if !is_exact_requirement(req) {
        return None;
    }
    let c = &req.comparators()[0];
    let minor = match c.minor() { Some(m) => m, None => 0 };
    let patch = match c.patch() { Some(p) => p, None => 0 };
    proof {
        use_type_invariant(c);
        lemma_identifiers_are_ident_text(Seq::empty(), false);
    }
    Some(Version { major: c.major, minor, patch, pre: c.pre.clone(), build: String::new() })
}

/// The exact requirement `=major.minor.patch[-pre]` for a version.
pub fn to_exact_requirement(version: &Version) -> (r: VersionReq)
    ensures
        r@ == spec_to_exact(version@),
{
    proof {
        use_type_invariant(version);
    }
    let c = Comparator {
        op: Op::Exact,
        major: version.major,
        minor: Some(version.minor),
        patch: Some(version.patch),
        pre: version.pre.clone(),
    };
    let mut comparators = Vec::new();
    comparators.push(c);
    let r = VersionReq { comparators };
    assert(r@ =~= spec_to_exact(version@));
    r
}

/// The text of a version in artifact paths: `major.minor.patch[-pre]`.
pub fn version_to_artifact_string(version: &Version) -> (s: String)
    ensures
        s@ == artifact_version_text(version@),
{
    let mut s = u64_to_dec(version.major());
    push_char(&mut s, '.');
    let minor = u64_to_dec(version.minor());
    push_str(&mut s, minor.as_str());
    push_char(&mut s, '.');
    let patch = u64_to_dec(version.patch());
    push_str(&mut s, patch.as_str());
    if !version.pre().is_empty() {
        push_char(&mut s, '-');
        push_str(&mut s, version.pre());
    }
    assert(s@ =~= artifact_version_text(version@));
    s
}

/// Parsing the text of a version gives the version back.
pub proof fn lemma_parse_display_round_trip(v: VersionView)
    requires
        version_view_ok(v),
    ensures
        spec_parse_version(version_display(v)) == Some(v),
{
    let t = version_display(v);
    assert(version_view_ok(v) && version_display(v) == t);
    let w = choose|w: VersionView| version_view_ok(w) && #[trigger] version_display(w) == t;
    lemma_version_display_injective(w, v);
}

/// The artifact text of a version parses back to the version without its
/// build metadata.
pub proof fn lemma_artifact_text_parses_back(v: VersionView)
    requires
        version_view_ok(v),
    ensures
        spec_parse_version(artifact_version_text(v)) == Some(VersionView { build: Seq::empty(), ..v }),
{
    let w = VersionView { build: Seq::empty(), ..v };
    lemma_identifiers_are_ident_text(Seq::empty(), false);
    assert(artifact_version_text(v) =~= version_display(w));
    lemma_parse_display_round_trip(w);
}

/// Round trip: the exact requirement made from a version names that version,
/// without its build metadata.
pub proof fn lemma_exact_requirement_round_trip(v: VersionView)
    ensures
        spec_is_exact(spec_to_exact(v)),
        spec_extract_exact(spec_to_exact(v)) == Some(VersionView { build: Seq::empty(), ..v }),
{
}


/// The exact requirement made from a version matches exactly the versions with
/// its numbers and pre-release, whatever their build metadata.
pub proof fn lemma_exact_requirement_matches(v: VersionView, w: VersionView)
    ensures
        spec_req_matches(spec_to_exact(v), w) == (w.major == v.major && w.minor == v.minor && w.patch == v.patch && w.pre == v.pre),
{
    let req = spec_to_exact(v);
    if without_pre(req, w) {
        assert(req[0].pre.len() == 0);
        assert(w.pre =~= v.pre);
        if forall|i: int| 0 <= i < req.len() ==> #[trigger] plain_comparator_matches(req[i], w) {
            assert(plain_comparator_matches(req[0], w));
        }
    }
}

/// A number's digits followed by a dot read back as the number and the rest.
proof fn lemma_digits_then_dot(a: nat, ra: Seq<char>, b: nat, rb: Seq<char>)
    requires
        dec_digits(a) + (seq!['.'] + ra) == dec_digits(b) + (seq!['.'] + rb),
    ensures
        a == b,
        ra == rb,
{
    lemma_dec_digits_shape(a);
    lemma_dec_digits_shape(b);
    assert('.' as int == 46);
    lemma_split_before(dec_digits(a), seq!['.'] + ra, dec_digits(b), seq!['.'] + rb, |c: char| c == '.');
    lemma_dec_digits_injective(a, b);
    assert(ra =~= (seq!['.'] + ra).skip(1));
    assert(rb =~= (seq!['.'] + rb).skip(1));
}

/// The pre-release and build parts of a version's text read back as the texts.
proof fn lemma_suffix_parts(a: VersionView, b: VersionView)
    requires
        version_view_ok(a),
        version_view_ok(b),
        pre_part(a.pre) + build_part(a.build) == pre_part(b.pre) + build_part(b.build),
    ensures
        a.pre == b.pre,
        a.build == b.build,
{
    lemma_identifiers_are_ident_text(a.pre, true);
    lemma_identifiers_are_ident_text(b.pre, true);
    lemma_identifiers_are_ident_text(a.build, false);
    lemma_identifiers_are_ident_text(b.build, false);
    let pa = pre_part(a.pre);
    let pb = pre_part(b.pre);
    let ba = build_part(a.build);
    let bb = build_part(b.build);
    assert('-' as int == 45 && '+' as int == 43);
    assert forall|i: int| 0 <= i < pa.len() implies (#[trigger] pa[i]) != '+' by {
        if i > 0 {
            assert(pa[i] == a.pre[i - 1]);
        }
    }
    assert forall|i: int| 0 <= i < pb.len() implies (#[trigger] pb[i]) != '+' by {
        if i > 0 {
            assert(pb[i] == b.pre[i - 1]);
        }
    }
    lemma_split_before(pa, ba, pb, bb, |c: char| c == '+');
    if a.pre.len() > 0 || b.pre.len() > 0 {
        assert(pa.len() > 0 && pb.len() > 0);
        assert(a.pre =~= pa.skip(1));
        assert(b.pre =~= pb.skip(1));
    }
    if a.build.len() > 0 || b.build.len() > 0 {
        assert(ba.len() > 0 && bb.len() > 0);
        assert(a.build =~= ba.skip(1));
        assert(b.build =~= bb.skip(1));
    }
}

/// A version's text determines the version: two valid versions that display
/// alike are the same version.
pub proof fn lemma_version_display_injective(a: VersionView, b: VersionView)
    requires
        version_view_ok(a),
        version_view_ok(b),
        version_display(a) == version_display(b),
    ensures
        a == b,
{
    let ta = pre_part(a.pre) + build_part(a.build);
    let tb = pre_part(b.pre) + build_part(b.build);
    let za = dec_digits(a.patch as nat) + ta;
    let zb = dec_digits(b.patch as nat) + tb;
    let ya = dec_digits(a.minor as nat) + (seq!['.'] + za);
    let yb = dec_digits(b.minor as nat) + (seq!['.'] + zb);
    assert(version_display(a) =~= dec_digits(a.major as nat) + (seq!['.'] + ya));
    assert(version_display(b) =~= dec_digits(b.major as nat) + (seq!['.'] + yb));
    lemma_digits_then_dot(a.major as nat, ya, b.major as nat, yb);
    lemma_digits_then_dot(a.minor as nat, za, b.minor as nat, zb);
    lemma_dec_digits_shape(a.patch as nat);
    lemma_dec_digits_shape(b.patch as nat);
    assert('-' as int == 45 && '+' as int == 43);
    lemma_split_before(dec_digits(a.patch as nat), ta, dec_digits(b.patch as nat), tb, |c: char| !is_digit_char(c));
    lemma_dec_digits_injective(a.patch as nat, b.patch as nat);
    lemma_suffix_parts(a, b);
}

/// Whether the order of versions behaves on a set of versions as `Ord`
/// documents it: antisymmetric, zero exactly on equal versions, transitive.
/// `Version::compare` states these facts of the versions it compares; of
/// versions without pre-release and build metadata they are proved
/// (`lemma_plain_versions_ordered`).
pub open spec fn ordered_on(vs: Set<VersionView>) -> bool {
    &&& forall|x: VersionView, y: VersionView| vs.contains(x) && vs.contains(y)
        ==> #[trigger] spec_version_order(x, y) == 0 - spec_version_order(y, x)
            && (spec_version_order(x, y) == 0 <==> x == y)
    &&& forall|x: VersionView, y: VersionView, z: VersionView| vs.contains(x) && vs.contains(y) && vs.contains(z)
        && #[trigger] spec_version_order(x, y) >= 0 && #[trigger] spec_version_order(y, z) >= 0
        ==> spec_version_order(x, z) >= 0
}

/// The order of versions without pre-release and build metadata is a total order.
pub proof fn lemma_plain_versions_ordered(vs: Set<VersionView>)
    requires
        forall|v: VersionView| vs.contains(v) ==> is_plain(v),
    ensures
        ordered_on(vs),
{
    reveal(spec_version_order);
    assert forall|x: VersionView, y: VersionView| vs.contains(x) && vs.contains(y)
        implies #[trigger] spec_version_order(x, y) == 0 - spec_version_order(y, x)
            && (spec_version_order(x, y) == 0 <==> x == y) by {
        if spec_version_order(x, y) == 0 {
            assert(x.pre =~= y.pre && x.build =~= y.build);
        }
    }
}

/// On versions where the order behaves as `Ord` documents, the one `max_kept`
/// gives is kept, offered, and not below any other kept one; it gives none
/// exactly where none is kept.
proof fn lemma_max_kept_ordered(s: Seq<VersionView>, keep: spec_fn(VersionView) -> bool)
    requires
        ordered_on(s.to_set()),
    ensures
        (max_kept(s, keep) is None) == (forall|k: int| 0 <= k < s.len() ==> !keep(#[trigger] s[k])),
        max_kept(s, keep) matches Some(m) ==> s.contains(m) && keep(m)
            && forall|k: int| 0 <= k < s.len() && keep(#[trigger] s[k]) ==> spec_version_order(s[k], m) <= 0,
    decreases s.len(),
{
    if s.len() > 0 {
        let rest = s.drop_last();
        let x = s.last();
        assert(rest.to_set().subset_of(s.to_set())) by {
            assert forall|v: VersionView| rest.to_set().contains(v) implies s.to_set().contains(v) by {
                let k = choose|k: int| 0 <= k < rest.len() && rest[k] == v;
                assert(s[k] == v);
            }
        }
        lemma_max_kept_ordered(rest, keep);
        assert forall|k: int| 0 <= k < rest.len() implies rest[k] == s[k] by {}
        assert(s.to_set().contains(x)) by {
            assert(s[s.len() - 1] == x);
        }
        if let Some(m) = max_kept(rest, keep) {
            let km = choose|k: int| 0 <= k < rest.len() && rest[k] == m;
            assert(s.to_set().contains(m)) by {
                assert(s[km] == m);
            }
            if keep(x) {
                assert(spec_version_order(m, x) == 0 - spec_version_order(x, m));
                assert(spec_version_order(x, x) == 0 - spec_version_order(x, x));
                if spec_version_order(m, x) <= 0 {
                    assert forall|k: int| 0 <= k < s.len() && keep(#[trigger] s[k]) implies spec_version_order(s[k], x) <= 0 by {
                        if k < rest.len() {
                            assert(s.to_set().contains(s[k])) by {
                                assert(s[k] == s[k]);
                            }
                            assert(spec_version_order(s[k], m) <= 0);
                            assert(spec_version_order(m, s[k]) == 0 - spec_version_order(s[k], m));
                            assert(spec_version_order(x, m) >= 0);
                            assert(spec_version_order(x, s[k]) >= 0);
                            assert(spec_version_order(s[k], x) == 0 - spec_version_order(x, s[k]));
                        } else {
                            assert(s[k] == x);
                        }
                    }
                }
            }
        } else if keep(x) {
            assert(s[s.len() - 1] == x);
            assert(spec_version_order(x, x) == 0 - spec_version_order(x, x));
        }
        if let Some(r) = max_kept(s, keep) {
            if r == x {
                assert(s[s.len() - 1] == x);
            } else {
                let kr = choose|k: int| 0 <= k < rest.len() && rest[k] == r;
                assert(s[kr] == r);
            }
        }
    }
}

/// Which version the selection picks depends only on which versions are
/// offered, not on their order or on repetitions, wherever the order of the
/// offered versions behaves as `Ord` documents (as `Version::compare` states
/// of any two versions, and as is proved of versions without pre-release and
/// build metadata): the highest match is unique.
pub proof fn lemma_select_depends_on_offered_set(req: Seq<ComparatorView>, a: Seq<VersionView>, b: Seq<VersionView>)
    requires
        ordered_on(a.to_set()),
        a.to_set() == b.to_set(),
    ensures
        spec_select(req, a) == spec_select(req, b),
{
    let keep = |v: VersionView| spec_req_matches(req, v);
    lemma_max_kept_ordered(a, keep);
    lemma_max_kept_ordered(b, keep);
    match (max_kept(a, keep), max_kept(b, keep)) {
        (Some(ma), Some(mb)) => {
            assert(b.to_set().contains(ma));
            assert(a.to_set().contains(mb));
            let ia = choose|k: int| 0 <= k < b.len() && b[k] == ma;
            let ib = choose|k: int| 0 <= k < a.len() && a[k] == mb;
            assert(spec_version_order(b[ia], mb) <= 0);
            assert(spec_version_order(a[ib], ma) <= 0);
            assert(spec_version_order(ma, mb) == 0 - spec_version_order(mb, ma));
        },
        (Some(ma), None) => {
            assert(b.to_set().contains(ma));
            let ia = choose|k: int| 0 <= k < b.len() && b[k] == ma;
            assert(!keep(b[ia]));
        },
        (None, Some(mb)) => {
            assert(a.to_set().contains(mb));
            let ib = choose|k: int| 0 <= k < a.len() && a[k] == mb;
            assert(!keep(a[ib]));
        },
        (None, None) => {},
    }
}

impl PartialEq for Version {
    fn eq(&self, other: &Version) -> (r: bool) {
        self.major == other.major && self.minor == other.minor && self.patch == other.patch
            && self.pre == other.pre && self.build == other.build
    }
}

impl vstd::std_specs::cmp::PartialEqSpecImpl for Version {
    open spec fn obeys_eq_spec() -> bool {
        true
    }

    open spec fn eq_spec(&self, other: &Version) -> bool {
        self@ == other@
    }
}

impl Eq for Version {}

impl Clone for Version {
    fn clone(&self) -> (r: Version)
        ensures
            r@ == self@,
    {
        self.duplicate()
    }
}

} // verus!
