//! Content-derived identifiers: the first twelve hexadecimal digits of the
//! SHA-256 digest of `url`, a `|` byte and `date`.

use vstd::prelude::*;
use sha2::{Digest, Sha256};
use crate::codec::append_bytes;

verus! {

/// The SHA-256 digest of a byte string.
pub uninterp spec fn sha256(data: Seq<u8>) -> Seq<u8>;

/// Number of digest bytes that an identifier shows.
pub const ID_BYTES: usize = 6;

/// `sha2::Sha256::digest`: the result is the SHA-256 digest of `data`, a
/// function of the bytes alone, and is 32 bytes long.
#[verifier::external_body]
fn sha256_digest(data: &[u8]) -> (out: Vec<u8>)
    ensures
        out@ == sha256(data@),
        out@.len() == 32,
{
    Sha256::digest(data).to_vec()
}

/// The lower-case hexadecimal digit of a value below 16.
pub open spec fn hex_char(n: u8) -> char {
    if n == 0 {
        '0'
    } else if n == 1 {
        '1'
    } else if n == 2 {
        '2'
    } else if n == 3 {
        '3'
    } else if n == 4 {
        '4'
    } else if n == 5 {
        '5'
    } else if n == 6 {
        '6'
    } else if n == 7 {
        '7'
    } else if n == 8 {
        '8'
    } else if n == 9 {
        '9'
    } else if n == 10 {
        'a'
    } else if n == 11 {
        'b'
    } else if n == 12 {
        'c'
    } else if n == 13 {
        'd'
    } else if n == 14 {
        'e'
    } else {
        'f'
    }
}

/// Two hexadecimal digits per byte, high digit first, bytes in order.
pub open spec fn hex_text(bytes: Seq<u8>) -> Seq<char>
    decreases bytes.len(),
{
    if bytes.len() == 0 {
        Seq::empty()
    } else {
        hex_text(bytes.drop_last()) + seq![
            hex_char(bytes.last() / 16),
            hex_char(bytes.last() % 16),
        ]
    }
}

/// The bytes that are hashed for a link: `url`, the separator `|`, `date`.
pub open spec fn id_material(url: Seq<char>, date: Seq<char>) -> Seq<u8> {
    vstd::utf8::encode_utf8(url) + seq![124u8] + vstd::utf8::encode_utf8(date)
}

/// The identifier that a digest gives: the hexadecimal text of its first six
/// bytes (of all of them, where it is shorter).
pub open spec fn short_id(digest: Seq<u8>) -> Seq<char> {
    if digest.len() <= 6 {
        hex_text(digest)
    } else {
        hex_text(digest.take(6))
    }
}

/// The identifier derived from a link's address and date.
pub open spec fn derived_id(url: Seq<char>, date: Seq<char>) -> Seq<char> {
    short_id(sha256(id_material(url, date)))
}

/// Hexadecimal text has two characters per byte.
pub proof fn lemma_hex_text_len(bytes: Seq<u8>)
    ensures
        hex_text(bytes).len() == 2 * bytes.len(),
    decreases bytes.len(),
{
    if bytes.len() > 0 {
        lemma_hex_text_len(bytes.drop_last());
    }
}

fn hex_digit(n: u8) -> (s: &'static str)
    requires
        n < 16,
    ensures
        s@ == seq![hex_char(n)],
{
    proof {
        reveal_strlit("0");
        reveal_strlit("1");
        reveal_strlit("2");
        reveal_strlit("3");
        reveal_strlit("4");
        reveal_strlit("5");
        reveal_strlit("6");
        reveal_strlit("7");
        reveal_strlit("8");
        reveal_strlit("9");
        reveal_strlit("a");
        reveal_strlit("b");
        reveal_strlit("c");
        reveal_strlit("d");
        reveal_strlit("e");
        reveal_strlit("f");
    }
    let s = if n == 0 {
        "0"
    } else if n == 1 {
        "1"
    } else if n == 2 {
        "2"
    } else if n == 3 {
        "3"
    } else if n == 4 {
        "4"
    } else if n == 5 {
        "5"
    } else if n == 6 {
        "6"
    } else if n == 7 {
        "7"
    } else if n == 8 {
        "8"
    } else if n == 9 {
        "9"
    } else if n == 10 {
        "a"
    } else if n == 11 {
        "b"
    } else if n == 12 {
        "c"
    } else if n == 13 {
        "d"
    } else if n == 14 {
        "e"
    } else {
        "f"
    };
    assert(s@ =~= seq![hex_char(n)]);
    s
}

/// Writes bytes as lower-case hexadecimal text.
pub fn hex_encode(bytes: &[u8]) -> (out: String)
    ensures
        out@ == hex_text(bytes@),
        out@.len() == 2 * bytes@.len(),
{
    let mut out = String::new();
    let mut i: usize = 0;
    while i < bytes.len()
        invariant
            i <= bytes@.len(),
            out@ == hex_text(bytes@.take(i as int)),
        decreases bytes@.len() - i,
    {
        let b: u8 = bytes[i];
        out.append(hex_digit(b / 16));
        out.append(hex_digit(b % 16));
        proof {
            let next = bytes@.take(i + 1);
            assert(next.drop_last() =~= bytes@.take(i as int));
            assert(next.last() == b);
            assert(out@ =~= hex_text(next));
        }
        i += 1;
    }
    proof {
        assert(bytes@.take(i as int) =~= bytes@);
        lemma_hex_text_len(bytes@);
    }
    out
}

/// The identifier that a digest gives.
pub fn id_from_digest(digest: &[u8]) -> (id: String)
    ensures
        id@ == short_id(digest@),
        digest@.len() >= 6 ==> id@.len() == 12,
{
    if digest.len() <= ID_BYTES {
        hex_encode(digest)
    } else {
        let head = vstd::slice::slice_subrange(digest, 0, ID_BYTES);
        assert(head@ =~= digest@.take(6));
        hex_encode(head)
    }
}

/// Derives the identifier of a link from its address and its date. The same
/// pair always gives the same identifier, twelve hexadecimal digits long.
pub fn derive_id(url: &str, date: &str) -> (id: String)
    ensures
        id@ == derived_id(url@, date@),
        id@.len() == 12,
{
    let mut material: Vec<u8> = Vec::new();
    append_bytes(&mut material, url.as_bytes());
    material.push(124u8);
    append_bytes(&mut material, date.as_bytes());
    assert(material@ =~= id_material(url@, date@));
    let digest = sha256_digest(material.as_slice());
    id_from_digest(digest.as_slice())
}

} // verus!
