//! Lowercase hexadecimal encoding of byte sequences, and its verified inverse.

use vstd::prelude::*;

verus! {

/// Lowercase hexadecimal digit for a value in `[0, 16)`.
pub open spec fn hex_digit(v: int) -> char
    recommends
        0 <= v < 16,
{
    if v == 0 { '0' }
    else if v == 1 { '1' }
    else if v == 2 { '2' }
    else if v == 3 { '3' }
    else if v == 4 { '4' }
    else if v == 5 { '5' }
    else if v == 6 { '6' }
    else if v == 7 { '7' }
    else if v == 8 { '8' }
    else if v == 9 { '9' }
    else if v == 10 { 'a' }
    else if v == 11 { 'b' }
    else if v == 12 { 'c' }
    else if v == 13 { 'd' }
    else if v == 14 { 'e' }
    else { 'f' }
}

/// The two hexadecimal digits of one byte, high nibble first.
pub open spec fn hex_byte(b: u8) -> Seq<char> {
    seq![hex_digit(b as int / 16), hex_digit(b as int % 16)]
}

/// Lowercase hexadecimal encoding of a byte sequence: two digits per byte,
/// in order, high nibble first.
pub open spec fn hex_of(bytes: Seq<u8>) -> Seq<char>
    decreases bytes.len(),
{
    if bytes.len() == 0 {
        Seq::empty()
    } else {
        hex_byte(bytes[0]) + hex_of(bytes.drop_first())
    }
}

/// A character that can appear in a lowercase hexadecimal encoding:
/// `'0'..='9'` or `'a'..='f'`.
pub open spec fn is_hex_char(c: char) -> bool {
    (48 <= c as int && c as int <= 57) || (97 <= c as int && c as int <= 102)
}

/// Numeric value of a lowercase hexadecimal digit.
pub open spec fn hex_val(c: char) -> int
    recommends
        is_hex_char(c),
{
    if 48 <= c as int && c as int <= 57 {
        c as int - 48
    } else {
        c as int - 97 + 10
    }
}

/// Decoding of a lowercase hexadecimal character sequence: `None` unless the
/// sequence has even length and consists of hexadecimal digits only.
pub open spec fn parse_hex(s: Seq<char>) -> Option<Seq<u8>>
    decreases s.len(),
{
    if s.len() == 0 {
        Some(Seq::empty())
    } else if s.len() == 1 {
        None
    } else if is_hex_char(s[0]) && is_hex_char(s[1]) {
        match parse_hex(s.skip(2)) {
            Some(rest) => Some(seq![(hex_val(s[0]) * 16 + hex_val(s[1])) as u8] + rest),
            None => None,
        }
    } else {
        None
    }
}

pub proof fn lemma_hex_of_len(bytes: Seq<u8>)
    ensures
        hex_of(bytes).len() == 2 * bytes.len(),
    decreases bytes.len(),
{
    if bytes.len() > 0 {
        lemma_hex_of_len(bytes.drop_first());
    }
}

/// Every character of a hexadecimal encoding is a hexadecimal digit.
pub proof fn lemma_hex_of_chars(bytes: Seq<u8>)
    ensures
        forall|i: int| 0 <= i < hex_of(bytes).len() ==> is_hex_char(#[trigger] hex_of(bytes)[i]),
    decreases bytes.len(),
{
    if bytes.len() > 0 {
        lemma_hex_of_chars(bytes.drop_first());
        let s = hex_of(bytes);
        assert(is_hex_char(s[0]));
        assert(is_hex_char(s[1]));
        assert forall|i: int| 0 <= i < s.len() implies is_hex_char(s[i]) by {
            if i >= 2 {
                assert(s[i] == hex_of(bytes.drop_first())[i - 2]);
            }
        }
    }
}

/// Hex-decoding is the exact inverse of hex-encoding: decoding the encoding
/// of any byte sequence recovers that byte sequence.
pub proof fn lemma_parse_hex_of(bytes: Seq<u8>)
    ensures
        parse_hex(hex_of(bytes)) == Some(bytes),
    decreases bytes.len(),
{
    if bytes.len() == 0 {
        assert(hex_of(bytes).len() == 0);
        assert(bytes =~= Seq::<u8>::empty());
    } else {
        let b = bytes[0];
        let s = hex_of(bytes);
        lemma_parse_hex_of(bytes.drop_first());
        lemma_hex_of_len(bytes.drop_first());
        assert(s[0] == hex_digit(b as int / 16));
        assert(s[1] == hex_digit(b as int % 16));
        assert(s.skip(2) =~= hex_of(bytes.drop_first()));
        assert(hex_val(s[0]) * 16 + hex_val(s[1]) == b as int);
        assert(seq![(hex_val(s[0]) * 16 + hex_val(s[1])) as u8] + bytes.drop_first() =~= bytes);
    }
}

/// Relies on `hex::encode`: each input byte becomes two lowercase
/// hexadecimal digits, high nibble first, in input order.
#[verifier::external_body]
pub(crate) fn hex_encode(data: &[u8]) -> (r: String)
    ensures
        r@ == hex_of(data@),
{
    hex::encode(data)
}

/// Numeric value of one lowercase hexadecimal digit, or `None`.
fn hex_val_exec(c: char) -> (r: Option<u8>)
    ensures
        is_hex_char(c) ==> r == Some((hex_val(c)) as u8),
        !is_hex_char(c) ==> r is None,
{
    let u = c as u32;
    if 48 <= u && u <= 57 {
        Some((u - 48) as u8)
    } else if 97 <= u && u <= 102 {
        Some((u - 97 + 10) as u8)
    } else {
        None
    }
}

/// Decodes a lowercase hexadecimal string back into bytes.
pub fn hex_decode(s: &str) -> (r: Option<Vec<u8>>)
    ensures
        match r {
            Some(v) => parse_hex(s@) == Some(v@),
            None => parse_hex(s@) is None,
        },
{
    let n = s.unicode_len();
    let mut out: Vec<u8> = Vec::new();
    let mut i: usize = 0;
    proof {
        assert(s@.skip(0int) =~= s@);
        if let Some(rest) = parse_hex(s@) {
            assert(Seq::<u8>::empty() + rest =~= rest);
        }
    }
    while i < n
        invariant
            n == s@.len(),
            i <= n,
            parse_hex(s@) == match parse_hex(s@.skip(i as int)) {
                Some(rest) => Some(out@ + rest),
                None => None::<Seq<u8>>,
            },
        decreases n - i,
    {
        if i + 1 == n {
            proof {
                assert(s@.skip(i as int).len() == 1);
            }
            return None;
        }
        let c0 = s.get_char(i);
        let c1 = s.get_char(i + 1);
        let v0 = hex_val_exec(c0);
        let v1 = hex_val_exec(c1);
        match (v0, v1) {
            (Some(h), Some(l)) => {
                proof {
                    let t = s@.skip(i as int);
                    assert(t[0] == c0 && t[1] == c1);
                    assert(t.skip(2) =~= s@.skip(i as int + 2));
                }
                let ghost prev = out@;
                out.push(h * 16 + l);
                proof {
                    if let Some(rest) = parse_hex(s@.skip(i as int + 2)) {
                        assert(out@ + rest =~= prev
                            + (seq![(hex_val(c0) * 16 + hex_val(c1)) as u8] + rest));
                    }
                }
                i = i + 2;
            },
            _ => {
                proof {
                    let t = s@.skip(i as int);
                    assert(t[0] == c0 && t[1] == c1);
                    assert(parse_hex(t) is None);
                }
                return None;
            },
        }
    }
    proof {
        assert(s@.skip(i as int) =~= Seq::<char>::empty());
        assert(out@ + Seq::<u8>::empty() =~= out@);
    }
    Some(out)
}

} // verus!
