use vstd::prelude::*;

verus! {

/// The byte value of an ASCII hexadecimal digit of either case.
pub open spec fn is_hex_digit(c: u8) -> bool {
    (0x30 <= c <= 0x39) || (0x41 <= c <= 0x46) || (0x61 <= c <= 0x66)
}

/// The numeric value of a hexadecimal digit.
pub open spec fn digit_value(c: u8) -> int {
    if 0x30 <= c <= 0x39 {
        c - 0x30
    } else if 0x41 <= c <= 0x46 {
        c - 0x41 + 10
    } else {
        c - 0x61 + 10
    }
}

/// The uppercase hexadecimal digit for a value below sixteen.
pub open spec fn upper_digit(v: int) -> u8 {
    if v < 10 {
        (0x30 + v) as u8
    } else {
        (0x41 + v - 10) as u8
    }
}

/// Text made of an even number of hexadecimal digits.
pub open spec fn is_hex_text(s: Seq<u8>) -> bool {
    s.len() % 2 == 0 && forall|i: int| 0 <= i < s.len() ==> is_hex_digit(#[trigger] s[i])
}

/// The bytes spelled by hexadecimal text, two digits per byte, high digit first.
pub open spec fn hex_decode(s: Seq<u8>) -> Seq<u8> {
    Seq::new(
        (s.len() / 2) as nat,
        |i: int| (digit_value(s[2 * i]) * 16 + digit_value(s[2 * i + 1])) as u8,
    )
}

/// Uppercase hexadecimal text of a byte sequence, two digits per byte, high digit first.
pub open spec fn hex_upper(b: Seq<u8>) -> Seq<u8> {
    Seq::new(
        2 * b.len(),
        |i: int|
            if i % 2 == 0 {
                upper_digit(b[i / 2] as int / 16)
            } else {
                upper_digit(b[i / 2] as int % 16)
            },
    )
}

/// ASCII bytes read as characters.
pub open spec fn ascii_chars(s: Seq<u8>) -> Seq<char> {
    s.map_values(|b: u8| b as char)
}

/// Declares `hex::FromHexError`, the fault that `hex::decode` reports.
#[verifier::external_type_specification]
#[verifier::external_body]
pub struct ExFromHexError(hex::FromHexError);

/// Relies on `hex::decode`: it succeeds exactly on an even number of hexadecimal
/// digits of either case, and gives one byte per pair of digits, high digit first.
#[verifier::external_body]
pub(crate) fn decode_hex(s: &[u8]) -> (r: Result<Vec<u8>, hex::FromHexError>)
    ensures
        r.is_ok() == is_hex_text(s@),
        r matches Ok(v) ==> v@ == hex_decode(s@),
{
    hex::decode(s)
}

/// Relies on `hex::encode_upper`: two uppercase digits per byte, high digit first.
#[verifier::external_body]
pub(crate) fn encode_hex_upper(b: &[u8]) -> (r: String)
    ensures
        r@ == ascii_chars(hex_upper(b@)),
{
    hex::encode_upper(b)
}

/// Every character of uppercase hexadecimal text is a digit.
pub proof fn lemma_hex_upper_digits(b: Seq<u8>)
    ensures
        is_hex_text(hex_upper(b)),
        hex_upper(b).len() == 2 * b.len(),
{
    assert forall|i: int| 0 <= i < hex_upper(b).len() implies is_hex_digit(
        #[trigger] hex_upper(b)[i],
    ) by {
        let x = b[i / 2];
        assert(x / 16 < 16);
    }
}

/// Decoding uppercase hexadecimal text gives back the bytes it was made from.
pub proof fn lemma_decode_hex_upper(b: Seq<u8>)
    ensures
        hex_decode(hex_upper(b)) == b,
{
    let h = hex_upper(b);
    lemma_hex_upper_digits(b);
    assert forall|i: int| 0 <= i < b.len() implies #[trigger] hex_decode(h)[i] == b[i] by {
        assert((2 * i) % 2 == 0 && (2 * i) / 2 == i);
        assert((2 * i + 1) % 2 == 1 && (2 * i + 1) / 2 == i);
        let x = b[i];
        assert(x == (x / 16) * 16 + x % 16);
    }
    assert(hex_decode(h) =~= b);
}

/// A run of whole bytes within hexadecimal text is the text of that run of bytes.
pub proof fn lemma_hex_upper_subrange(b: Seq<u8>, a: int, c: int)
    requires
        0 <= a <= c <= b.len(),
    ensures
        hex_upper(b).subrange(2 * a, 2 * c) == hex_upper(b.subrange(a, c)),
{
    let l = hex_upper(b).subrange(2 * a, 2 * c);
    let r = hex_upper(b.subrange(a, c));
    assert forall|i: int| 0 <= i < l.len() implies #[trigger] l[i] == r[i] by {
        assert((2 * a + i) % 2 == i % 2 && (2 * a + i) / 2 == a + i / 2);
    }
    assert(l =~= r);
}

} // verus!
