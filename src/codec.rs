//! Decoding of the textual forms in which oracle messages arrive.
use vstd::prelude::*;
use vstd::string::*;

verus! {

/// The value of one hexadecimal digit, either case.
pub open spec fn hex_digit(c: char) -> Option<u8> {
    let v = c as u32;
    if 48 <= v <= 57 {
        Some((v - 48) as u8)
    } else if 97 <= v <= 102 {
        Some((v - 87) as u8)
    } else if 65 <= v <= 70 {
        Some((v - 55) as u8)
    } else {
        None
    }
}

/// The bytes written by a hexadecimal string: two digits per byte, the high
/// digit first; `None` for an odd length or a character that is no digit.
pub open spec fn hex_bytes(s: Seq<char>) -> Option<Seq<u8>>
    decreases s.len(),
{
    if s.len() == 0 {
        Some(Seq::empty())
    } else if s.len() == 1 {
        None
    } else {
        match (
            hex_bytes(s.subrange(0, s.len() - 2)),
            hex_digit(s[s.len() - 2]),
            hex_digit(s[s.len() - 1]),
        ) {
            (Some(init), Some(hi), Some(lo)) => Some(init.push((hi * 16 + lo) as u8)),
            _ => None,
        }
    }
}

/// What `base64::decode` (standard alphabet, padded) makes of a string.
pub uninterp spec fn base64_bytes(s: Seq<char>) -> Option<Seq<u8>>;

/// The bytes that a commitment string stands for: read as hexadecimal when it
/// is that, else as base64.
pub open spec fn text_bytes(s: Seq<char>) -> Option<Seq<u8>> {
    match hex_bytes(s) {
        Some(b) => Some(b),
        None => base64_bytes(s),
    }
}

pub open spec fn bytes_view(r: Option<Vec<u8>>) -> Option<Seq<u8>> {
    match r {
        Some(v) => Some(v@),
        None => None,
    }
}

proof fn lemma_hex_odd(s: Seq<char>)
    requires
        s.len() % 2 == 1,
    ensures
        hex_bytes(s) is None,
    decreases s.len(),
{
    if s.len() > 1 {
        lemma_hex_odd(s.subrange(0, s.len() - 2));
    }
}

proof fn lemma_hex_none_extends(s: Seq<char>, i: int)
    requires
        0 <= i <= s.len(),
        i % 2 == 0,
        s.len() % 2 == 0,
        hex_bytes(s.subrange(0, i)) is None,
    ensures
        hex_bytes(s) is None,
    decreases s.len(),
{
    if s.len() == i {
        assert(s.subrange(0, i) =~= s);
    } else {
        let t = s.subrange(0, s.len() - 2);
        assert(t.subrange(0, i) =~= s.subrange(0, i));
        lemma_hex_none_extends(t, i);
    }
}

fn hex_digit_exec(c: char) -> (r: Option<u8>)
    ensures
        r == hex_digit(c),
{
    let v = c as u32;
    if 48 <= v && v <= 57 {
        Some((v - 48) as u8)
    } else if 97 <= v && v <= 102 {
        Some((v - 87) as u8)
    } else if 65 <= v && v <= 70 {
        Some((v - 55) as u8)
    } else {
        None
    }
}

/// Decodes a hexadecimal string, accepting either case.
pub fn hex_decode(s: &str) -> (r: Option<Vec<u8>>)
    ensures
        bytes_view(r) == hex_bytes(s@),
{
    let n = s.unicode_len();
    if n % 2 == 1 {
        proof {
            lemma_hex_odd(s@);
        }
        return None;
    }
    let mut out: Vec<u8> = Vec::new();
    let mut i: usize = 0;
    while i < n
        invariant
            n == s@.len(),
            n % 2 == 0,
            i % 2 == 0,
            i <= n,
            hex_bytes(s@.subrange(0, i as int)) == Some(out@),
        decreases n - i,
    {
        let hi = hex_digit_exec(s.get_char(i));
        let lo = hex_digit_exec(s.get_char(i + 1));
        let ghost next = s@.subrange(0, i + 2);
        assert(next.subrange(0, next.len() - 2) =~= s@.subrange(0, i as int));
        match (hi, lo) {
            (Some(h), Some(l)) => {
                out.push((h * 16 + l) as u8);
                i = i + 2;
            },
            _ => {
                proof {
                    lemma_hex_none_extends(s@, i + 2);
                }
                return None;
            },
        }
    }
    assert(s@.subrange(0, n as int) =~= s@);
    Some(out)
}

/// Relies on `base64::decode`: the standard alphabet with padding.  The bytes
/// depend on the string alone.
#[verifier::external_body]
fn base64_decode(s: &str) -> (r: Option<Vec<u8>>)
    ensures
        bytes_view(r) == base64_bytes(s@),
{
    base64::decode(s).ok()
}

/// Reads a commitment string as hexadecimal, and failing that as base64.
pub fn decode_bytes(s: &str) -> (r: Option<Vec<u8>>)
    ensures
        bytes_view(r) == text_bytes(s@),
{
    match hex_decode(s) {
        Some(b) => Some(b),
        None => base64_decode(s),
    }
}

} // verus!
