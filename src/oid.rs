use vstd::prelude::*;

use sha1::Digest;

use crate::error::ObjectError;
use crate::record::{encode_blob, record_of};

verus! {

/// The SHA-1 digest of `data`.
pub uninterp spec fn sha1_of(data: Seq<u8>) -> Seq<u8>;

/// Relies on `sha1::Sha1::digest` (through `digest::Digest`): the 20-byte
/// SHA-1 digest of the input, which depends on the input bytes alone.
#[verifier::external_body]
fn sha1_digest(data: &Vec<u8>) -> (r: Vec<u8>)
    ensures
        r@ == sha1_of(data@),
        r@.len() == 20,
{
    sha1::Sha1::digest(data.as_slice()).to_vec()
}

/// The lowercase hex digit for a value below 16.
pub open spec fn hex_char(n: u8) -> char {
    if n < 10 {
        ((n + 48) as u8) as char
    } else {
        ((n + 87) as u8) as char
    }
}

/// Whether `c` is one of `0-9a-f`.
pub open spec fn is_hex_char(c: char) -> bool {
    ('0' <= c && c <= '9') || ('a' <= c && c <= 'f')
}

/// The value of a lowercase hex digit.
pub open spec fn hex_value(c: char) -> u8 {
    if c <= '9' {
        ((c as u32) - 48) as u8
    } else {
        ((c as u32) - 87) as u8
    }
}

/// `bytes` in lowercase hex, two digits per byte, high nibble first.
pub open spec fn hex_of(bytes: Seq<u8>) -> Seq<char> {
    Seq::new(
        2 * bytes.len(),
        |k: int|
            if k % 2 == 0 {
                hex_char(bytes[k / 2] / 16)
            } else {
                hex_char(bytes[k / 2] % 16)
            },
    )
}

/// Whether `s` is a well-formed identifier: forty lowercase hex digits.
pub open spec fn is_object_id(s: Seq<char>) -> bool {
    s.len() == 40 && forall|i: int| 0 <= i < 40 ==> is_hex_char(#[trigger] s[i])
}

/// The twenty digest bytes that a well-formed identifier spells.
pub open spec fn digest_of_id(s: Seq<char>) -> Seq<u8> {
    Seq::new(20, |i: int| (hex_value(s[2 * i]) * 16 + hex_value(s[2 * i + 1])) as u8)
}

/// The identifier of `content`: the hex digest of its canonical record.
pub open spec fn object_id_of(content: Seq<u8>) -> Seq<char> {
    hex_of(sha1_of(record_of(content)))
}

/// Hex digits and their values correspond one to one.
pub proof fn lemma_hex_char(n: u8)
    requires
        n < 16,
    ensures
        is_hex_char(hex_char(n)),
        hex_value(hex_char(n)) == n,
{
}

/// Splitting a byte into nibbles and joining them gives the byte back.
proof fn lemma_nibbles(b: u8)
    ensures
        (b / 16) * 16 + b % 16 == b,
        b / 16 < 16,
        b % 16 < 16,
{
}

/// A digest of twenty bytes renders as a well-formed identifier that spells it.
pub proof fn lemma_hex_of_digest(d: Seq<u8>)
    requires
        d.len() == 20,
    ensures
        is_object_id(hex_of(d)),
        digest_of_id(hex_of(d)) == d,
{
    let h = hex_of(d);
    assert forall|i: int| 0 <= i < 40 implies is_hex_char(#[trigger] h[i]) by {
        lemma_nibbles(d[i / 2]);
        lemma_hex_char(d[i / 2] / 16);
        lemma_hex_char(d[i / 2] % 16);
    }
    assert forall|i: int| 0 <= i < 20 implies #[trigger] digest_of_id(h)[i] == d[i] by {
        lemma_nibbles(d[i]);
        lemma_hex_char(d[i] / 16);
        lemma_hex_char(d[i] % 16);
        assert((2 * i) / 2 == i);
        assert((2 * i + 1) / 2 == i);
        assert(h[2 * i] == hex_char(d[i] / 16));
        assert(h[2 * i + 1] == hex_char(d[i] % 16));
    }
    assert(digest_of_id(h) =~= d);
}

/// A well-formed identifier is the hex rendering of the digest it spells.
pub proof fn lemma_id_round_trip(s: Seq<char>)
    requires
        is_object_id(s),
    ensures
        hex_of(digest_of_id(s)) == s,
{
    let d = digest_of_id(s);
    assert forall|k: int| 0 <= k < 40 implies #[trigger] hex_of(d)[k] == s[k] by {
        let i = k / 2;
        let hi = s[2 * i];
        let lo = s[2 * i + 1];
        assert(is_hex_char(hi));
        assert(is_hex_char(lo));
        let vh = hex_value(hi);
        let vl = hex_value(lo);
        assert(vh < 16 && vl < 16);
        let b = (vh * 16 + vl) as u8;
        assert(b / 16 == vh && b % 16 == vl) by (nonlinear_arith)
            requires
                vh < 16,
                vl < 16,
                b == vh * 16 + vl,
        ;
        assert(d[i] == b);
    }
    assert(hex_of(d) =~= s);
}

/// Different byte strings have different hex renderings.
pub proof fn lemma_hex_injective(d1: Seq<u8>, d2: Seq<u8>)
    requires
        hex_of(d1) == hex_of(d2),
    ensures
        d1 == d2,
{
    assert(hex_of(d1).len() == 2 * d1.len());
    assert(hex_of(d2).len() == 2 * d2.len());
    assert(d1.len() == d2.len());
    assert forall|i: int| 0 <= i < d1.len() implies d1[i] == d2[i] by {
        assert((2 * i) / 2 == i);
        assert((2 * i + 1) / 2 == i);
        assert(hex_of(d1)[2 * i] == hex_of(d2)[2 * i]);
        assert(hex_of(d1)[2 * i + 1] == hex_of(d2)[2 * i + 1]);
        lemma_nibbles(d1[i]);
        lemma_nibbles(d2[i]);
        lemma_hex_char(d1[i] / 16);
        lemma_hex_char(d2[i] / 16);
        lemma_hex_char(d1[i] % 16);
        lemma_hex_char(d2[i] % 16);
        assert(hex_of(d1)[2 * i] == hex_char(d1[i] / 16));
        assert(hex_of(d2)[2 * i] == hex_char(d2[i] / 16));
        assert(hex_of(d1)[2 * i + 1] == hex_char(d1[i] % 16));
        assert(hex_of(d2)[2 * i + 1] == hex_char(d2[i] % 16));
        assert(d1[i] / 16 == d2[i] / 16);
        assert(d1[i] % 16 == d2[i] % 16);
    }
    assert(d1 =~= d2);
}

/// `bytes` in lowercase hex, two digits per byte.
pub fn to_hex(bytes: &Vec<u8>) -> (r: String)
    ensures
        r@ == hex_of(bytes@),
{
    let digits = "0123456789abcdef";
    proof {
        reveal_strlit("0123456789abcdef");
    }
    assert(digits.is_ascii());
    let mut out = String::new();
    let mut i: usize = 0;
    while i < bytes.len()
        invariant
            i <= bytes@.len(),
            digits@.len() == 16,
            digits.is_ascii(),
            forall|n: u8| n < 16 ==> #[trigger] digits@[n as int] == hex_char(n),
            out@ == hex_of(bytes@.subrange(0, i as int)),
        decreases bytes@.len() - i,
    {
        let b = bytes[i];
        let hi = (b / 16) as usize;
        let lo = (b % 16) as usize;
        let ghost before = out@;
        out.append(digits.substring_ascii(hi, hi + 1));
        out.append(digits.substring_ascii(lo, lo + 1));
        i = i + 1;
        proof {
            let s = bytes@.subrange(0, i as int);
            assert(digits@[hi as int] == hex_char(b / 16));
            assert(digits@[lo as int] == hex_char(b % 16));
            assert forall|k: int| 0 <= k < 2 * i implies #[trigger] out@[k] == hex_of(s)[k] by {
                if k < 2 * (i - 1) {
                    assert(before[k] == hex_of(bytes@.subrange(0, i - 1))[k]);
                }
            }
            assert(out@ =~= hex_of(s));
        }
    }
    assert(bytes@.subrange(0, i as int) =~= bytes@);
    out
}

/// The identifier of `content`: the SHA-1 digest of its record in hex.
pub fn object_id(content: &Vec<u8>) -> (r: String)
    ensures
        r@ == object_id_of(content@),
        is_object_id(r@),
{
    let rec = encode_blob(content);
    let digest = sha1_digest(&rec);
    proof {
        lemma_hex_of_digest(digest@);
    }
    to_hex(&digest)
}

/// The digest that an identifier spells; refused unless it is forty
/// lowercase hex digits.
pub fn parse_object_id(id: &str) -> (r: Result<Vec<u8>, ObjectError>)
    ensures
        match r {
            Ok(d) => is_object_id(id@) && d@ == digest_of_id(id@),
            Err(e) => e == ObjectError::InvalidIdentifier && !is_object_id(id@),
        },
{
    let n = id.unicode_len();
    if n != 40 {
        return Err(ObjectError::InvalidIdentifier);
    }
    let mut out: Vec<u8> = Vec::new();
    let mut i: usize = 0;
    while i < 20
        invariant
            id@.len() == 40,
            i <= 20,
            out@.len() == i,
            forall|k: int| 0 <= k < 2 * i ==> is_hex_char(#[trigger] id@[k]),
            forall|k: int| 0 <= k < i ==> #[trigger] out@[k] == digest_of_id(id@)[k],
        decreases 20 - i,
    {
        let hi = id.get_char(2 * i);
        let lo = id.get_char(2 * i + 1);
        let hv = hex_digit_value(hi);
        let lv = hex_digit_value(lo);
        match (hv, lv) {
            (Some(h), Some(l)) => {
                out.push(h * 16 + l);
                proof {
                    assert forall|k: int| 0 <= k < 2 * (i + 1) implies is_hex_char(
                        #[trigger] id@[k],
                    ) by {
                        if k == 2 * i {
                        } else if k == 2 * i + 1 {
                        }
                    }
                }
                i = i + 1;
            },
            _ => {
                return Err(ObjectError::InvalidIdentifier);
            },
        }
    }
    assert(out@ =~= digest_of_id(id@));
    Ok(out)
}

/// The value of `c` if it is a lowercase hex digit.
fn hex_digit_value(c: char) -> (r: Option<u8>)
    ensures
        match r {
            Some(v) => is_hex_char(c) && v == hex_value(c) && v < 16,
            None => !is_hex_char(c),
        },
{
    if '0' <= c && c <= '9' {
        Some(((c as u32) - 48) as u8)
    } else if 'a' <= c && c <= 'f' {
        Some(((c as u32) - 87) as u8)
    } else {
        None
    }
}

} // verus!
