//! Cryptographic digests of package contents.

use sha2::Digest as Sha2Digest;
use vstd::prelude::*;

verus! {

/// The SHA-256 digest of the bytes.
pub uninterp spec fn spec_sha256(data: Seq<u8>) -> Seq<u8>;

/// `sha2::Sha256::digest`: the 32 bytes of the SHA-256 digest of the data.
#[verifier::external_body]
pub(crate) fn sha256_digest(data: &[u8]) -> (r: Vec<u8>)
    ensures
        r@ == spec_sha256(data@),
        r@.len() == 32,
{
    sha2::Sha256::digest(data).to_vec()
}

/// The lower-case hexadecimal digit of a nibble.
pub open spec fn hex_digit(n: nat) -> char {
    if n < 10 {
        crate::text::digit_char(n)
    } else if n == 10 { 'a' }
    else if n == 11 { 'b' }
    else if n == 12 { 'c' }
    else if n == 13 { 'd' }
    else if n == 14 { 'e' }
    else { 'f' }
}

/// Lower-case hexadecimal text of bytes, two digits per byte.
pub open spec fn hex_lower(data: Seq<u8>) -> Seq<char>
    decreases data.len(),
{
    if data.len() == 0 {
        Seq::empty()
    } else {
        hex_lower(data.drop_last()) + seq![hex_digit((data.last() / 16) as nat), hex_digit((data.last() % 16) as nat)]
    }
}

proof fn lemma_hex_lower_len(data: Seq<u8>)
    ensures
        hex_lower(data).len() == 2 * data.len(),
    decreases data.len(),
{
    if data.len() > 0 {
        lemma_hex_lower_len(data.drop_last());
    }
}

fn hex_char(n: u8) -> (c: char)
    requires
        n < 16,
    ensures
        c == hex_digit(n as nat),
{
    if n < 10 {
        crate::text::digit_to_char(n as u64)
    } else if n == 10 { 'a' }
    else if n == 11 { 'b' }
    else if n == 12 { 'c' }
    else if n == 13 { 'd' }
    else if n == 14 { 'e' }
    else { 'f' }
}

/// The value of a hexadecimal digit (either case), or -1 for any other character.
pub open spec fn hex_value(c: char) -> int {
    let n = c as int;
    if 48 <= n <= 57 {
        n - 48
    } else if 97 <= n <= 102 {
        n - 87
    } else if 65 <= n <= 70 {
        n - 55
    } else {
        -1
    }
}

/// Whether the text is hexadecimal: an even number of hexadecimal digits.
pub open spec fn is_hex_text(s: Seq<char>) -> bool {
    &&& s.len() % 2 == 0
    &&& forall|i: int| 0 <= i < s.len() ==> hex_value(#[trigger] s[i]) >= 0
}

/// The bytes that hexadecimal text encodes, two digits per byte, high digit first.
pub open spec fn hex_decode(s: Seq<char>) -> Seq<u8> {
    Seq::new((s.len() / 2) as nat, |i: int| (hex_value(s[2 * i]) * 16 + hex_value(s[2 * i + 1])) as u8)
}

proof fn lemma_hex_value_digit(n: nat)
    requires
        n < 16,
    ensures
        hex_value(hex_digit(n)) == n,
{
    assert('0' as int == 48 && 'a' as int == 97);
}

proof fn lemma_hex_lower_at(data: Seq<u8>, i: int)
    requires
        0 <= i < data.len(),
    ensures
        hex_lower(data)[2 * i] == hex_digit((data[i] / 16) as nat),
        hex_lower(data)[2 * i + 1] == hex_digit((data[i] % 16) as nat),
    decreases data.len(),
{
    lemma_hex_lower_len(data.drop_last());
    if i < data.len() - 1 {
        lemma_hex_lower_at(data.drop_last(), i);
    }
}

/// Decoding the lower-case hexadecimal text of bytes gives the bytes back.
pub proof fn lemma_hex_round_trip(data: Seq<u8>)
    ensures
        is_hex_text(hex_lower(data)),
        hex_decode(hex_lower(data)) == data,
{
    lemma_hex_lower_len(data);
    let t = hex_lower(data);
    assert forall|j: int| 0 <= j < t.len() implies hex_value(#[trigger] t[j]) >= 0 by {
        let i = j / 2;
        lemma_hex_lower_at(data, i);
        lemma_hex_value_digit((data[i] / 16) as nat);
        lemma_hex_value_digit((data[i] % 16) as nat);
        assert(j == 2 * i || j == 2 * i + 1);
    }
    assert forall|i: int| 0 <= i < data.len() implies #[trigger] hex_decode(t)[i] == data[i] by {
        lemma_hex_lower_at(data, i);
        lemma_hex_value_digit((data[i] / 16) as nat);
        lemma_hex_value_digit((data[i] % 16) as nat);
    }
    assert(hex_decode(t) =~= data);
}

/// The value of a hexadecimal digit, if the character is one.
fn hex_nibble(c: char) -> (r: Option<u8>)
    ensures
        match r {
            Some(n) => n < 16 && n == hex_value(c),
            None => hex_value(c) < 0,
        },
{
    let n = c as u32;
    if 48 <= n && n <= 57 {
        Some((n - 48) as u8)
    } else if 97 <= n && n <= 102 {
        Some((n - 87) as u8)
    } else if 65 <= n && n <= 70 {
        Some((n - 55) as u8)
    } else {
        None
    }
}

/// The bytes that the characters from `start` on encode in hexadecimal,
/// or `None` where they are not hexadecimal text.
pub fn from_hex(chars: &Vec<char>, start: usize) -> (r: Option<Vec<u8>>)
    requires
        start <= chars@.len(),
    ensures
        match r {
            Some(v) => is_hex_text(chars@.skip(start as int)) && v@ == hex_decode(chars@.skip(start as int)),
            None => !is_hex_text(chars@.skip(start as int)),
        },
{
    let ghost s = chars@.skip(start as int);
    let len = chars.len() - start;
    if len % 2 != 0 {
        return None;
    }
    let mut out: Vec<u8> = Vec::new();
    let mut i: usize = 0;
    while i < len / 2
        invariant
            s == chars@.skip(start as int),
            len == s.len(),
            len % 2 == 0,
            start + len == chars@.len(),
            start + len <= usize::MAX,
            i <= len / 2,
            out@.len() == i,
            forall|j: int| 0 <= j < 2 * i ==> hex_value(#[trigger] s[j]) >= 0,
            forall|k: int| 0 <= k < i ==> #[trigger] out@[k] == hex_decode(s)[k],
        decreases len / 2 - i,
    {
        assert(2 * i + 1 < len);
        let hi = hex_nibble(chars[start + 2 * i]);
        let lo = hex_nibble(chars[start + 2 * i + 1]);
        assert(s[2 * i as int] == chars@[start + 2 * i]);
        assert(s[2 * i + 1] == chars@[start + 2 * i + 1]);
        match (hi, lo) {
            (Some(h), Some(l)) => {
                out.push(h * 16 + l);
                i = i + 1;
            },
            _ => {
                return None;
            },
        }
    }
    assert(out@ =~= hex_decode(s));
    Some(out)
}

/// Lower-case hexadecimal encoding of bytes.
pub fn to_hex_lower(data: &[u8]) -> (s: String)
    ensures
        s@ == hex_lower(data@),
        s@.len() == 2 * data@.len(),
{
    let mut s = String::new();
    let mut i: usize = 0;
    while i < data.len()
        invariant
            i <= data@.len(),
            s@ == hex_lower(data@.take(i as int)),
        decreases data@.len() - i,
    {
        assert(data@.take(i + 1).drop_last() =~= data@.take(i as int));
        let b = data[i];
        crate::text::push_char(&mut s, hex_char(b / 16));
        crate::text::push_char(&mut s, hex_char(b % 16));
        i = i + 1;
    }
    assert(data@.take(data@.len() as int) =~= data@);
    proof {
        lemma_hex_lower_len(data@);
    }
    s
}

} // verus!
