//! Peppered SHA-512 hashing: a fresh 32-byte random pepper per submission,
//! the digest of `pepper || utf8(plaintext)`, and the stored record form.

use vstd::prelude::*;
use vstd::slice::slice_to_vec;
use vstd::string::*;
use vstd::utf8::encode_utf8;

use crate::hexcode::{
    hex_encode, hex_of, is_hex_char, lemma_hex_of_chars, lemma_hex_of_len, lemma_parse_hex_of,
    parse_hex,
};

verus! {

/// The SHA-512 digest of a byte sequence. The digest is a fixed function of
/// the input bytes alone; its 64-byte value is not spelled out here.
pub uninterp spec fn sha512_of(data: Seq<u8>) -> Seq<u8>;

/// Number of bytes the random source must supply for one pepper.
pub const PEPPER_LEN: usize = 32;

/// Relies on `sha2::Sha512` (an implementation of SHA-512): feeding the
/// whole input and finalizing yields the 64-byte SHA-512 digest of it.
#[verifier::external_body]
fn sha512_digest(data: &[u8]) -> (r: Vec<u8>)
    ensures
        r@ == sha512_of(data@),
        r@.len() == 64,
{
    let mut hasher = <sha2::Sha512 as sha2::Digest>::new();
    sha2::Digest::update(&mut hasher, data);
    let out = sha2::Digest::finalize(hasher);
    out.to_vec()
}

/// Relies on rand's `OsRng::try_fill_bytes`: on `Ok` the whole 32-byte
/// buffer has been filled from the operating system's secure random source;
/// on `Err` no bytes are promised, and `None` is returned here.
#[verifier::external_body]
pub(crate) fn generate_secure_pepper() -> (r: Option<Vec<u8>>)
    ensures
        r matches Some(p) ==> p@.len() == PEPPER_LEN,
{
    let mut os_rng = rand::rngs::OsRng;
    let mut pepper_bytes = [0u8; 32];
    match rand::rand_core::TryRngCore::try_fill_bytes(&mut os_rng, &mut pepper_bytes) {
        Ok(()) => Some(pepper_bytes.to_vec()),
        Err(_) => None,
    }
}

/// Hex-encoded SHA-512 digest of `pepper || utf8(input)`. The pepper bytes
/// come first; swapping the order would change every digest.
pub fn hash_input_with_pepper(input: &str, pepper: &Vec<u8>) -> (r: String)
    ensures
        r@ == hex_of(sha512_of(pepper@ + encode_utf8(input@))),
{
    let mut data: Vec<u8> = slice_to_vec(pepper.as_slice());
    let mut tail: Vec<u8> = input.as_bytes_vec();
    data.append(&mut tail);
    let digest = sha512_digest(data.as_slice());
    hex_encode(digest.as_slice())
}

/// The stored form of one secret record: the hex-encoded pepper, a comma,
/// then the hex-encoded UTF-8 bytes of the plaintext.
pub open spec fn record_of(pepper: Seq<u8>, plaintext: Seq<char>) -> Seq<char> {
    hex_of(pepper) + seq![','] + hex_of(encode_utf8(plaintext))
}

/// A character that may appear in a stored record: a hexadecimal digit or
/// the comma that joins the two fields.
pub open spec fn record_chars_ok(s: Seq<char>) -> bool {
    forall|i: int| 0 <= i < s.len() ==> is_hex_char(#[trigger] s[i]) || s[i] == ','
}

/// Every record in its stored form consists of hexadecimal digits and
/// commas only, so it never needs escaping in the exported document.
pub proof fn lemma_record_chars_ok(pepper: Seq<u8>, plaintext: Seq<char>)
    ensures
        record_chars_ok(record_of(pepper, plaintext)),
{
    lemma_hex_of_chars(pepper);
    lemma_hex_of_chars(encode_utf8(plaintext));
    let r = record_of(pepper, plaintext);
    assert forall|i: int| 0 <= i < r.len() implies is_hex_char(r[i]) || r[i] == ',' by {
        let a = hex_of(pepper);
        let b = hex_of(encode_utf8(plaintext));
        if i < a.len() {
            assert(r[i] == a[i]);
        } else if i == a.len() {
            assert(r[i] == ',');
        } else {
            assert(r[i] == b[i - a.len() - 1]);
        }
    }
}

/// Index of the first comma at or after `i`, if any.
pub open spec fn first_comma_at_or_after(s: Seq<char>, i: int) -> Option<int>
    decreases s.len() - i,
    when 0 <= i <= s.len()
{
    if i >= s.len() {
        None
    } else if s[i] == ',' {
        Some(i)
    } else {
        first_comma_at_or_after(s, i + 1)
    }
}

/// Reads a stored record back: the field before the first comma is the
/// hex-encoded pepper, the field after it the hex-encoded plaintext bytes.
pub open spec fn parse_record(s: Seq<char>) -> Option<(Seq<u8>, Seq<u8>)> {
    match first_comma_at_or_after(s, 0) {
        None => None,
        Some(k) => match (parse_hex(s.take(k)), parse_hex(s.skip(k + 1))) {
            (Some(pepper), Some(plain)) => Some((pepper, plain)),
            _ => None,
        },
    }
}

proof fn lemma_first_comma(s: Seq<char>, i: int, k: int)
    requires
        0 <= i <= k < s.len(),
        s[k] == ',',
        forall|j: int| i <= j < k ==> s[j] != ',',
    ensures
        first_comma_at_or_after(s, i) == Some(k),
    decreases k - i,
{
    if i < k {
        lemma_first_comma(s, i + 1, k);
    }
}

/// Reading a stored record back recovers exactly the pepper bytes and the
/// UTF-8 bytes of the plaintext that went into it.
pub proof fn lemma_record_round_trip(pepper: Seq<u8>, plaintext: Seq<char>)
    ensures
        parse_record(record_of(pepper, plaintext)) == Some((pepper, encode_utf8(plaintext))),
{
    let s = record_of(pepper, plaintext);
    let a = hex_of(pepper);
    let b = hex_of(encode_utf8(plaintext));
    let k = a.len() as int;
    lemma_hex_of_len(pepper);
    lemma_hex_of_chars(pepper);
    assert(s[k] == ',');
    assert forall|j: int| 0 <= j < k implies s[j] != ',' by {
        assert(s[j] == a[j]);
        assert(is_hex_char(a[j]));
    }
    lemma_first_comma(s, 0, k);
    assert(s.take(k) =~= a);
    assert(s.skip(k + 1) =~= b);
    lemma_parse_hex_of(pepper);
    lemma_parse_hex_of(encode_utf8(plaintext));
}

/// Builds the stored form of one record.
pub fn make_record(pepper: &Vec<u8>, input: &str) -> (r: String)
    ensures
        r@ == record_of(pepper@, input@),
{
    let mut s = hex_encode(pepper.as_slice());
    s.append(",");
    let bytes: Vec<u8> = input.as_bytes_vec();
    let plain_hex = hex_encode(bytes.as_slice());
    s.append(plain_hex.as_str());
    proof {
        reveal_strlit(",");
        assert(","@ =~= seq![',']);
        assert(s@ =~= record_of(pepper@, input@));
    }
    s
}

} // verus!
