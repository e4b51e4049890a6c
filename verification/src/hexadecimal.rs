//! Hexadecimal text, written and read by the `hex` crate.
use vstd::prelude::*;

verus! {

/// The lower-case digit that stands for `n < 16`.
pub open spec fn hex_digit(n: int) -> char {
    if n < 10 {
        ((48 + n) as u32) as char
    } else {
        ((87 + n) as u32) as char
    }
}

/// The number that a digit stands for, in either case.
pub open spec fn hex_digit_value(c: char) -> Option<int> {
    if '0' <= c <= '9' {
        Some(c as int - 48)
    } else if 'a' <= c <= 'f' {
        Some(c as int - 87)
    } else if 'A' <= c <= 'F' {
        Some(c as int - 55)
    } else {
        None
    }
}

/// Two lower-case digits for each byte, the high one first.
pub open spec fn hex_text(bytes: Seq<u8>) -> Seq<char> {
    Seq::new(
        2 * bytes.len(),
        |i: int|
            if i % 2 == 0 {
                hex_digit(bytes[i / 2] as int / 16)
            } else {
                hex_digit(bytes[i / 2] as int % 16)
            },
    )
}

/// Whether `s` is made of whole pairs of digits.
pub open spec fn is_hex(s: Seq<char>) -> bool {
    &&& s.len() % 2 == 0
    &&& forall|i: int| 0 <= i < s.len() ==> hex_digit_value(#[trigger] s[i]) is Some
}

/// The bytes that `s` stands for, if it is made of whole pairs of digits.
pub open spec fn hex_bytes(s: Seq<char>) -> Option<Seq<u8>> {
    if is_hex(s) {
        Some(
            Seq::new(
                s.len() / 2,
                |i: int|
                    (16 * hex_digit_value(s[2 * i])->0 + hex_digit_value(s[2 * i + 1])->0) as u8,
            ),
        )
    } else {
        None
    }
}

/// The hexadecimal text of some bytes, read back, gives the bytes.
pub proof fn law_hex_bytes_of_text(bytes: Seq<u8>)
    ensures
        hex_bytes(hex_text(bytes)) == Some(bytes),
{
    let s = hex_text(bytes);
    assert(is_hex(s)) by {
        assert forall|i: int| 0 <= i < s.len() implies hex_digit_value(#[trigger] s[i]) is Some by {
            assert(0 <= bytes[i / 2] < 256);
        }
    }
    let back = hex_bytes(s)->0;
    assert forall|i: int| 0 <= i < bytes.len() implies back[i] == bytes[i] by {
        assert(s[2 * i] == hex_digit(bytes[i] as int / 16)) by {
            assert((2 * i) % 2 == 0 && (2 * i) / 2 == i);
        }
        assert(s[2 * i + 1] == hex_digit(bytes[i] as int % 16)) by {
            assert((2 * i + 1) % 2 == 1 && (2 * i + 1) / 2 == i);
        }
    }
    assert(back == bytes);
}

/// The text holds digits of ASCII alone, none of them an upper-case letter.
pub proof fn lemma_hex_text_digits(bytes: Seq<u8>)
    ensures
        hex_text(bytes).len() == 2 * bytes.len(),
        forall|i: int|
            0 <= i < hex_text(bytes).len() ==> ({
                let c = #[trigger] hex_text(bytes)[i];
                '0' <= c <= '9' || 'a' <= c <= 'f'
            }),
{
    let s = hex_text(bytes);
    assert forall|i: int| 0 <= i < s.len() implies ({
        let c = #[trigger] s[i];
        '0' <= c <= '9' || 'a' <= c <= 'f'
    }) by {
        assert(0 <= bytes[i / 2] < 256);
    }
}

/// `hex::encode` writes each byte as two lower-case hexadecimal digits.
#[verifier::external_body]
pub(crate) fn hex_encode(data: &[u8]) -> (r: String)
    ensures
        r@ == hex_text(data@),
{
    hex::encode(data)
}

/// `hex::decode` reads pairs of hexadecimal digits of either case, and fails on a text of odd
/// length or with any other character.
#[verifier::external_body]
pub(crate) fn hex_decode(s: &str) -> (r: Option<Vec<u8>>)
    ensures
        match r {
            Some(v) => hex_bytes(s@) == Some(v@),
            None => hex_bytes(s@) is None,
        },
{
    hex::decode(s).ok()
}

} // verus!
