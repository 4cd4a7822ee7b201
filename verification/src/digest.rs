//! SHA-256 digests and their lowercase hexadecimal rendering.
use crate::text::{str_chars, string_from_chars};
use sha2::Digest;
use vstd::prelude::*;
use vstd::utf8::*;

verus! {

/// The 32-byte SHA-256 digest that `sha2::Sha256::digest` computes for `data`.
pub uninterp spec fn sha256_digest(data: Seq<u8>) -> Seq<u8>;

/// Calls `sha2::Sha256::digest` and copies the 32 output bytes.
#[verifier::external_body]
fn sha256_bytes(data: &[u8]) -> (r: Vec<u8>)
    ensures
        r@ == sha256_digest(data@),
        r@.len() == 32,
{
    sha2::Sha256::digest(data).to_vec()
}

pub open spec fn hex_char(d: u8) -> char {
    if d < 10 {
        ((d as u32) + 48) as char
    } else {
        ((d as u32) + 87) as char
    }
}

/// Lowercase hexadecimal text of `bytes`, two digits per byte, high nibble first.
pub open spec fn hex_lower(bytes: Seq<u8>) -> Seq<char>
    decreases bytes.len(),
{
    if bytes.len() == 0 {
        Seq::empty()
    } else {
        hex_lower(bytes.drop_last()).push(hex_char(bytes.last() / 16)).push(
            hex_char(bytes.last() % 16),
        )
    }
}

pub proof fn lemma_hex_len(bytes: Seq<u8>)
    ensures
        hex_lower(bytes).len() == 2 * bytes.len(),
    decreases bytes.len(),
{
    if bytes.len() > 0 {
        lemma_hex_len(bytes.drop_last());
    }
}

fn hex_digit(d: u8) -> (c: char)
    requires
        d < 16,
    ensures
        c == hex_char(d),
{
    let c = match d {
        0 => '0',
        1 => '1',
        2 => '2',
        3 => '3',
        4 => '4',
        5 => '5',
        6 => '6',
        7 => '7',
        8 => '8',
        9 => '9',
        10 => 'a',
        11 => 'b',
        12 => 'c',
        13 => 'd',
        14 => 'e',
        _ => 'f',
    };
    proof {
        vstd::utf8::char_u32_cast(c, c as u32);
    }
    c
}

pub fn to_hex_lower(bytes: &Vec<u8>) -> (r: String)
    ensures
        r@ == hex_lower(bytes@),
{
    let mut out: Vec<char> = Vec::new();
    let mut i: usize = 0;
    while i < bytes.len()
        invariant
            i <= bytes.len(),
            out@ == hex_lower(bytes@.subrange(0, i as int)),
        decreases bytes.len() - i,
    {
        let b = bytes[i];
        out.push(hex_digit(b / 16));
        out.push(hex_digit(b % 16));
        proof {
            let t = bytes@.subrange(0, i + 1);
            assert(t.drop_last() =~= bytes@.subrange(0, i as int));
            assert(t.last() == b);
        }
        i = i + 1;
    }
    proof {
        assert(bytes@.subrange(0, i as int) =~= bytes@);
    }
    string_from_chars(out.as_slice())
}

/// Whether `value` is 64 ASCII hexadecimal digits, the shape of a SHA-256 hex digest.
pub open spec fn is_sha256_spec(value: Seq<char>) -> bool {
    value.len() == 64 && forall|i: int| 0 <= i < 64 ==> is_hex_digit(#[trigger] value[i])
}

pub open spec fn is_hex_digit(c: char) -> bool {
    ('0' <= c && c <= '9') || ('a' <= c && c <= 'f') || ('A' <= c && c <= 'F')
}

pub fn is_sha256(value: &str) -> (r: bool)
    ensures
        r == is_sha256_spec(value@),
{
    let chars = str_chars(value);
    if chars.len() != 64 {
        return false;
    }
    let mut i: usize = 0;
    while i < 64
        invariant
            i <= 64,
            chars@ == value@,
            chars@.len() == 64,
            forall|k: int| 0 <= k < i ==> is_hex_digit(#[trigger] chars@[k]),
        decreases 64 - i,
    {
        let c = chars[i];
        if !(('0' <= c && c <= '9') || ('a' <= c && c <= 'f') || ('A' <= c && c <= 'F')) {
            return false;
        }
        i = i + 1;
    }
    true
}

/// Lowercase hex SHA-256 of the UTF-8 encoding of `text`.
pub open spec fn sha256_hex(text: Seq<char>) -> Seq<char> {
    hex_lower(sha256_digest(encode_utf8(text)))
}

/// `format!("{:x}", Sha256::digest(text.as_bytes()))`.
pub fn sha256_hex_str(text: &str) -> (r: String)
    ensures
        r@ == sha256_hex(text@),
        r@.len() == 64,
{
    let bytes = text.as_bytes();
    let digest = sha256_bytes(bytes);
    proof {
        lemma_hex_len(digest@);
    }
    to_hex_lower(&digest)
}

/// `format!("{:x}", Sha256::digest(bytes))`.
pub fn sha256_hex_bytes(bytes: &[u8]) -> (r: String)
    ensures
        r@ == hex_lower(sha256_digest(bytes@)),
        r@.len() == 64,
{
    let digest = sha256_bytes(bytes);
    proof {
        lemma_hex_len(digest@);
    }
    to_hex_lower(&digest)
}

} // verus!
