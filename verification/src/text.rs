//! Small verified text utilities shared by the other modules.

use vstd::prelude::*;
use vstd::std_specs::iter::IteratorSpec;

verus! {

/// Decimal digits of a natural number, most significant first.
pub open spec fn dec_digits(n: nat) -> Seq<char>
    decreases n,
{
    if n < 10 {
        seq![digit_char((n % 10) as nat)]
    } else {
        dec_digits(n / 10).push(digit_char((n % 10) as nat))
    }
}

/// The ASCII character for a decimal digit.
pub open spec fn digit_char(d: nat) -> char {
    if d == 0 { '0' }
    else if d == 1 { '1' }
    else if d == 2 { '2' }
    else if d == 3 { '3' }
    else if d == 4 { '4' }
    else if d == 5 { '5' }
    else if d == 6 { '6' }
    else if d == 7 { '7' }
    else if d == 8 { '8' }
    else { '9' }
}

/// Whether the character is an ASCII decimal digit.
pub open spec fn is_digit_char(c: char) -> bool {
    48 <= c as int <= 57
}

/// Decimal digits are digit characters, at least one, and at least two from ten on.
pub proof fn lemma_dec_digits_shape(n: nat)
    ensures
        dec_digits(n).len() >= 1,
        n >= 10 ==> dec_digits(n).len() >= 2,
        forall|i: int| 0 <= i < dec_digits(n).len() ==> is_digit_char(#[trigger] dec_digits(n)[i]),
    decreases n,
{
    assert('0' as int == 48);
    if n >= 10 {
        lemma_dec_digits_shape(n / 10);
    }
}

/// Two numbers with the same decimal digits are equal.
pub proof fn lemma_dec_digits_injective(a: nat, b: nat)
    requires
        dec_digits(a) == dec_digits(b),
    ensures
        a == b,
    decreases a,
{
    lemma_dec_digits_shape(a);
    lemma_dec_digits_shape(b);
    assert('0' as int == 48);
    let da = (a % 10) as nat;
    let db = (b % 10) as nat;
    assert(dec_digits(a).last() == digit_char(da));
    assert(dec_digits(b).last() == digit_char(db));
    assert(da == db) by {
        assert(digit_char(da) as int == 48 + da);
        assert(digit_char(db) as int == 48 + db);
    }
    if a >= 10 && b >= 10 {
        assert(dec_digits(a / 10) =~= dec_digits(a).drop_last());
        assert(dec_digits(b / 10) =~= dec_digits(b).drop_last());
        lemma_dec_digits_injective(a / 10, b / 10);
    }
}

/// Where two texts read as a part without stop characters followed by a rest
/// that is empty or starts with a stop character, equal texts have equal parts
/// and equal rests.
pub proof fn lemma_split_before(x1: Seq<char>, r1: Seq<char>, x2: Seq<char>, r2: Seq<char>, stop: spec_fn(char) -> bool)
    requires
        x1 + r1 == x2 + r2,
        forall|i: int| 0 <= i < x1.len() ==> !stop(#[trigger] x1[i]),
        forall|i: int| 0 <= i < x2.len() ==> !stop(#[trigger] x2[i]),
        r1.len() > 0 ==> stop(r1[0]),
        r2.len() > 0 ==> stop(r2[0]),
    ensures
        x1 == x2,
        r1 == r2,
{
    let t1 = x1 + r1;
    let t2 = x2 + r2;
    if x1.len() < x2.len() {
        assert(t1[x1.len() as int] == r1[0]);
        assert(t2[x1.len() as int] == x2[x1.len() as int]);
    } else if x2.len() < x1.len() {
        assert(t2[x2.len() as int] == r2[0]);
        assert(t1[x2.len() as int] == x1[x2.len() as int]);
    }
    assert(x1 =~= t1.take(x1.len() as int));
    assert(x2 =~= t2.take(x2.len() as int));
    assert(r1 =~= t1.skip(x1.len() as int));
    assert(r2 =~= t2.skip(x2.len() as int));
}

/// Appends one character to a string (`String::push`).
#[verifier::external_body]
pub(crate) fn push_char(s: &mut String, c: char)
    ensures
        final(s)@ == old(s)@.push(c),
{
    s.push(c);
}

/// Appends a string slice to a string.
pub fn push_str(s: &mut String, t: &str)
    ensures
        final(s)@ == old(s)@ + t@,
{
    s.append(t);
}

/// Collects the characters of a string slice.
pub fn chars_of(s: &str) -> (v: Vec<char>)
    ensures
        v@ == s@,
{
    let n = s.unicode_len();
    let mut v: Vec<char> = Vec::new();
    let mut it = s.chars();
    let mut i: usize = 0;
    while i < n
        invariant
            n == s@.len(),
            i <= n,
            v@ == s@.subrange(0, i as int),
            it.remaining() == s@.subrange(i as int, n as int),
            it.obeys_prophetic_iter_laws(),
        decreases n - i,
    {
        let c = it.next();
        match c {
            Some(c) => {
                v.push(c);
            },
            None => {
                assert(false);
            },
        }
        i = i + 1;
    }
    assert(v@ =~= s@);
    v
}

/// Builds a string from a sequence of characters.
pub fn string_from_chars(v: &Vec<char>) -> (s: String)
    ensures
        s@ == v@,
{
    let mut s = String::new();
    let mut i: usize = 0;
    while i < v.len()
        invariant
            i <= v.len(),
            s@ == v@.subrange(0, i as int),
        decreases v.len() - i,
    {
        push_char(&mut s, v[i]);
        i = i + 1;
    }
    assert(s@ =~= v@);
    s
}

/// The character of one decimal digit.
pub fn digit_to_char(d: u64) -> (c: char)
    requires
        d < 10,
    ensures
        c == digit_char(d as nat),
{
    if d == 0 { '0' }
    else if d == 1 { '1' }
    else if d == 2 { '2' }
    else if d == 3 { '3' }
    else if d == 4 { '4' }
    else if d == 5 { '5' }
    else if d == 6 { '6' }
    else if d == 7 { '7' }
    else if d == 8 { '8' }
    else { '9' }
}

/// The decimal representation of an unsigned integer.
pub fn u64_to_dec(n: u64) -> (s: String)
    ensures
        s@ == dec_digits(n as nat),
    decreases n,
{
    if n < 10 {
        let mut s = String::new();
        push_char(&mut s, digit_to_char(n));
        assert(s@ =~= dec_digits(n as nat));
        s
    } else {
        let mut s = u64_to_dec(n / 10);
        push_char(&mut s, digit_to_char(n % 10));
        s
    }
}

/// Whether `t` ends with `suffix`.
pub open spec fn has_suffix(t: Seq<char>, suffix: Seq<char>) -> bool {
    suffix.len() <= t.len() && t.subrange(t.len() - suffix.len(), t.len() as int) == suffix
}

/// Whether `pat` occurs in `t` starting at `i`.
pub open spec fn occurs_at(t: Seq<char>, pat: Seq<char>, i: int) -> bool {
    0 <= i && i + pat.len() <= t.len() && t.subrange(i, i + pat.len()) == pat
}

/// Whether `pat` occurs anywhere in `t`.
pub open spec fn has_infix(t: Seq<char>, pat: Seq<char>) -> bool {
    exists|i: int| occurs_at(t, pat, i)
}

/// Whether two texts are equal.
pub fn str_eq(a: &str, b: &str) -> (r: bool)
    ensures
        r == (a@ == b@),
{
    let x = chars_of(a);
    let y = chars_of(b);
    chars_eq(&x, &y)
}

/// Whether two character sequences are equal.
pub fn chars_eq(x: &Vec<char>, y: &Vec<char>) -> (r: bool)
    ensures
        r == (x@ == y@),
{
    if x.len() != y.len() {
        return false;
    }
    let mut i: usize = 0;
    while i < x.len()
        invariant
            x@.len() == y@.len(),
            i <= x@.len(),
            forall|k: int| 0 <= k < i ==> x@[k] == y@[k],
        decreases x@.len() - i,
    {
        if x[i] != y[i] {
            return false;
        }
        i = i + 1;
    }
    assert(x@ =~= y@);
    true
}

/// Whether the characters from `i` on start with `pat`.
pub fn chars_occur_at(t: &Vec<char>, pat: &Vec<char>, i: usize) -> (r: bool)
    ensures
        r == occurs_at(t@, pat@, i as int),
{
    if i > t.len() || pat.len() > t.len() - i {
        return false;
    }
    assert(i + pat@.len() <= t@.len());
    let mut k: usize = 0;
    while k < pat.len()
        invariant
            i + pat@.len() <= t@.len(),
            t@.len() == t.len(),
            k <= pat@.len(),
            forall|m: int| 0 <= m < k ==> t@[i + m] == pat@[m],
        decreases pat@.len() - k,
    {
        if t[i + k] != pat[k] {
            assert(t@.subrange(i as int, i + pat@.len())[k as int] != pat@[k as int]);
            return false;
        }
        k = k + 1;
    }
    assert(t@.subrange(i as int, i + pat@.len()) =~= pat@);
    true
}

/// Whether the text ends with the suffix.
pub fn str_ends_with(s: &str, suffix: &str) -> (r: bool)
    ensures
        r == has_suffix(s@, suffix@),
{
    let t = chars_of(s);
    let p = chars_of(suffix);
    if p.len() > t.len() {
        return false;
    }
    chars_occur_at(&t, &p, t.len() - p.len())
}

/// Whether the characters contain `pat`.
pub fn chars_contain(t: &Vec<char>, pat: &Vec<char>) -> (r: bool)
    ensures
        r == has_infix(t@, pat@),
{
    if pat.len() > t.len() {
        assert forall|j: int| !occurs_at(t@, pat@, j) by {}
        return false;
    }
    let last = t.len() - pat.len();
    let mut i: usize = 0;
    while i < last
        invariant
            i <= last,
            last + pat@.len() == t@.len(),
            forall|j: int| 0 <= j < i ==> !occurs_at(t@, pat@, j),
        decreases last - i,
    {
        if chars_occur_at(t, pat, i) {
            return true;
        }
        i = i + 1;
    }
    if chars_occur_at(t, pat, last) {
        return true;
    }
    assert forall|j: int| !occurs_at(t@, pat@, j) by {
        if 0 <= j < i {
        }
    }
    false
}

/// The characters `v[lo..hi]` as a string.
pub fn sub_string(v: &Vec<char>, lo: usize, hi: usize) -> (s: String)
    requires
        lo <= hi <= v@.len(),
    ensures
        s@ == v@.subrange(lo as int, hi as int),
{
    let mut s = String::new();
    let mut i: usize = lo;
    while i < hi
        invariant
            lo <= i <= hi <= v@.len(),
            s@ == v@.subrange(lo as int, i as int),
        decreases hi - i,
    {
        push_char(&mut s, v[i]);
        assert(s@ =~= v@.subrange(lo as int, i + 1));
        i = i + 1;
    }
    s
}

/// A copy of an optional string.
pub fn copy_opt_string(o: &Option<String>) -> (r: Option<String>)
    ensures
        (match (r, *o) {
            (Some(a), Some(b)) => a@ == b@,
            (None, None) => true,
            _ => false,
        }),
{
    match o {
        Some(s) => Some(s.clone()),
        None => None,
    }
}

/// Lexicographic order of texts by character code (the order of `str`).
pub open spec fn text_lt(a: Seq<char>, b: Seq<char>) -> bool
    decreases a.len(),
{
    if a.len() == 0 {
        b.len() > 0
    } else if b.len() == 0 {
        false
    } else if a[0] < b[0] {
        true
    } else if a[0] > b[0] {
        false
    } else {
        text_lt(a.skip(1), b.skip(1))
    }
}

/// The lexicographic order is a strict total order.
pub proof fn lemma_text_lt_order(a: Seq<char>, b: Seq<char>)
    ensures
        !text_lt(a, a),
        text_lt(a, b) ==> !text_lt(b, a),
        a != b ==> text_lt(a, b) || text_lt(b, a),
    decreases a.len(),
{
    if a.len() > 0 && b.len() > 0 {
        lemma_text_lt_order(a.skip(1), b.skip(1));
        lemma_text_lt_order(a.skip(1), a.skip(1));
        if a != b && a[0] == b[0] {
            assert(a.skip(1) != b.skip(1)) by {
                if a.skip(1) == b.skip(1) {
                    assert(a =~= seq![a[0]] + a.skip(1));
                    assert(b =~= seq![b[0]] + b.skip(1));
                }
            }
        }
    } else if a.len() > 0 {
        lemma_text_lt_order(a.skip(1), a.skip(1));
    } else if b.len() == 0 {
        assert(a =~= b);
    }
}

/// The lexicographic order is transitive.
pub proof fn lemma_text_lt_transitive(a: Seq<char>, b: Seq<char>, c: Seq<char>)
    requires
        text_lt(a, b),
        text_lt(b, c),
    ensures
        text_lt(a, c),
    decreases a.len(),
{
    if a.len() > 0 && b.len() > 0 && c.len() > 0 {
        if a[0] == b[0] && b[0] == c[0] {
            lemma_text_lt_transitive(a.skip(1), b.skip(1), c.skip(1));
        }
    }
}

/// Whether `a` comes before `b` in the order of `str`.
pub fn str_lt(a: &str, b: &str) -> (r: bool)
    ensures
        r == text_lt(a@, b@),
{
    let x = chars_of(a);
    let y = chars_of(b);
    let mut i: usize = 0;
    assert(x@.skip(0) =~= x@);
    assert(y@.skip(0) =~= y@);
    while i < x.len() && i < y.len()
        invariant
            i <= x@.len(),
            i <= y@.len(),
            x@ == a@,
            y@ == b@,
            text_lt(a@, b@) == text_lt(x@.skip(i as int), y@.skip(i as int)),
        decreases x@.len() - i,
    {
        let ghost (xs, ys) = (x@.skip(i as int), y@.skip(i as int));
        assert(xs[0] == x@[i as int] && ys[0] == y@[i as int]);
        if x[i] < y[i] {
            return true;
        }
        if x[i] > y[i] {
            return false;
        }
        assert(xs.skip(1) =~= x@.skip(i + 1));
        assert(ys.skip(1) =~= y@.skip(i + 1));
        i = i + 1;
    }
    assert(x@.skip(i as int).len() == x@.len() - i);
    i == x.len() && i < y.len()
}

/// Whether the texts are in strictly increasing order.
pub open spec fn strictly_sorted(s: Seq<Seq<char>>) -> bool {
    forall|i: int, j: int| 0 <= i < j < s.len() ==> text_lt(#[trigger] s[i], #[trigger] s[j])
}

/// The views of strings.
pub open spec fn strings_view(s: Seq<String>) -> Seq<Seq<char>> {
    s.map_values(|x: String| x@)
}

/// Where a text goes in strictly sorted texts: `Err` with its index where it
/// is there, else `Ok` with the index of the first greater text (or the end).
fn sorted_position(v: &Vec<String>, t: &String) -> (r: Result<usize, usize>)
    requires
        strictly_sorted(strings_view(v@)),
    ensures
        (match r {
            Err(k) => k < v@.len() && v@[k as int]@ == t@,
            Ok(i) => i <= v@.len()
                && (forall|k: int| 0 <= k < i ==> text_lt(#[trigger] strings_view(v@)[k], t@))
                && (i < v@.len() ==> text_lt(t@, v@[i as int]@)),
        }),
{
    let ghost vv = strings_view(v@);
    let mut i: usize = 0;
    while i < v.len()
        invariant
            i <= v@.len(),
            vv == strings_view(v@),
            forall|k: int| 0 <= k < i ==> text_lt(#[trigger] vv[k], t@),
        decreases v@.len() - i,
    {
        assert(vv[i as int] == v@[i as int]@);
        if str_eq(v[i].as_str(), t.as_str()) {
            return Err(i);
        }
        if str_lt(t.as_str(), v[i].as_str()) {
            return Ok(i);
        }
        proof {
            lemma_text_lt_order(vv[i as int], t@);
        }
        i = i + 1;
    }
    Ok(i)
}

/// Inserts a text into strictly sorted texts, unless it is there already.
pub fn insert_sorted_unique(v: &mut Vec<String>, t: String)
    requires
        strictly_sorted(strings_view(old(v)@)),
    ensures
        strictly_sorted(strings_view(final(v)@)),
        strings_view(final(v)@).to_set() == strings_view(old(v)@).to_set().insert(t@),
{
    let ghost old_view = strings_view(v@);
    let i = match sorted_position(v, &t) {
        Err(k) => {
            assert(old_view[k as int] == t@);
            assert(old_view.to_set().insert(t@) =~= old_view.to_set());
            return;
        },
        Ok(i) => i,
    };
    let ghost idx = i as int;
    let ghost tv = t@;
    v.insert(i, t);
    let ghost nv = strings_view(v@);
    assert(nv =~= old_view.insert(idx, tv)) by {
        assert forall|k: int| 0 <= k < nv.len() implies nv[k] == old_view.insert(idx, tv)[k] by {}
    }
    assert forall|a: int, b: int| 0 <= a < b < nv.len() implies text_lt(#[trigger] nv[a], #[trigger] nv[b]) by {
        if a < idx && b == idx {
        } else if a == idx && b > idx {
            if b - 1 > idx {
                lemma_text_lt_transitive(tv, old_view[idx], old_view[b - 1]);
            }
        } else if a < idx && b > idx {
            if b - 1 > idx {
                lemma_text_lt_transitive(tv, old_view[idx], old_view[b - 1]);
            }
            lemma_text_lt_transitive(old_view[a], tv, old_view[b - 1]);
        } else if a > idx {
        }
    }
    assert(nv.to_set() =~= old_view.to_set().insert(tv)) by {
        assert forall|x: Seq<char>| old_view.to_set().insert(tv).contains(x) implies nv.to_set().contains(x) by {
            if x == tv {
                assert(nv[idx] == x);
            } else {
                assert(old_view.contains(x));
                let k = choose|k: int| 0 <= k < old_view.len() && old_view[k] == x;
                if k < idx {
                    assert(nv[k] == x);
                } else {
                    assert(nv[k + 1] == x);
                }
            }
        }
    }
}

/// Copies of strings, in order.
pub fn copy_strings(v: &Vec<String>) -> (r: Vec<String>)
    ensures
        strings_view(r@) == strings_view(v@),
{
    let mut r: Vec<String> = Vec::new();
    let mut i: usize = 0;
    while i < v.len()
        invariant
            i <= v@.len(),
            strings_view(r@) == strings_view(v@).take(i as int),
        decreases v@.len() - i,
    {
        let ghost before = r@;
        r.push(v[i].clone());
        assert(strings_view(r@) =~= strings_view(before).push(v@[i as int]@));
        i = i + 1;
        assert(strings_view(r@) =~= strings_view(v@).take(i as int));
    }
    assert(strings_view(v@).take(i as int) =~= strings_view(v@));
    r
}

} // verus!
