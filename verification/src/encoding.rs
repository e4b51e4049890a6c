//! Text as UTF-8 bytes, and bytes as base64 text.
use vstd::prelude::*;

verus! {

/// The UTF-8 bytes of a text.
pub open spec fn utf8(s: Seq<char>) -> Seq<u8> {
    vstd::utf8::encode_utf8(s)
}

/// The text that stands for bytes that are not valid UTF-8, each faulty part replaced.
pub uninterp spec fn replaced_text(bytes: Seq<u8>) -> Seq<char>;

/// The text of some bytes: what they encode, or else the text with each faulty part replaced.
pub open spec fn lossy_text(bytes: Seq<u8>) -> Seq<char> {
    if vstd::utf8::valid_utf8(bytes) {
        vstd::utf8::decode_utf8(bytes)
    } else {
        replaced_text(bytes)
    }
}

/// The base64 digit that stands for `n < 64`: the upper-case letters, the lower-case letters, the
/// decimal digits, `+` and `/`.
pub open spec fn base64_digit(n: int) -> char {
    if n < 26 {
        ((65 + n) as u32) as char
    } else if n < 52 {
        ((71 + n) as u32) as char
    } else if n < 62 {
        ((n - 4) as u32) as char
    } else if n == 62 {
        '+'
    } else {
        '/'
    }
}

/// The standard base64 text of some bytes: four digits of six bits each for every three bytes, the
/// high bits first, and `=` in place of a digit that no bit of the last bytes falls in.
pub open spec fn base64_text(bytes: Seq<u8>) -> Seq<char>
    decreases bytes.len(),
{
    if bytes.len() == 0 {
        Seq::empty()
    } else if bytes.len() == 1 {
        let a = bytes[0] as int;
        seq![base64_digit(a / 4), base64_digit(a % 4 * 16), '=', '=']
    } else if bytes.len() == 2 {
        let (a, b) = (bytes[0] as int, bytes[1] as int);
        seq![base64_digit(a / 4), base64_digit(a % 4 * 16 + b / 16), base64_digit(b % 16 * 4), '=']
    } else {
        let (a, b, c) = (bytes[0] as int, bytes[1] as int, bytes[2] as int);
        seq![
            base64_digit(a / 4),
            base64_digit(a % 4 * 16 + b / 16),
            base64_digit(b % 16 * 4 + c / 64),
            base64_digit(c % 64),
        ] + base64_text(bytes.skip(3))
    }
}

proof fn lemma_base64_digit(m: int, n: int)
    requires
        0 <= m < 64,
        0 <= n < 64,
    ensures
        base64_digit(m) != '=',
        base64_digit(m) == base64_digit(n) ==> m == n,
{
}

/// The byte at `i`, or 0 beyond the end.
spec fn byte_or_zero(bytes: Seq<u8>, i: int) -> int {
    if i < bytes.len() {
        bytes[i] as int
    } else {
        0
    }
}

/// The first four digits of a text, and what follows them.
proof fn lemma_base64_first_group(x: Seq<u8>)
    requires
        x.len() > 0,
    ensures
        ({
            let s = base64_text(x);
            let (a, b, c) = (byte_or_zero(x, 0), byte_or_zero(x, 1), byte_or_zero(x, 2));
            &&& s.len() >= 4
            &&& s[0] == base64_digit(a / 4)
            &&& s[1] == base64_digit(a % 4 * 16 + b / 16)
            &&& s[2] == (if x.len() >= 2 {
                base64_digit(b % 16 * 4 + c / 64)
            } else {
                '='
            })
            &&& s[3] == (if x.len() >= 3 {
                base64_digit(c % 64)
            } else {
                '='
            })
            &&& s.skip(4) == (if x.len() >= 3 {
                base64_text(x.skip(3))
            } else {
                Seq::empty()
            })
        }),
{
    let s = base64_text(x);
    if x.len() >= 3 {
        assert(s.skip(4) == base64_text(x.skip(3)));
    } else {
        assert(s.skip(4) == Seq::<char>::empty());
    }
}

/// No two sequences of bytes have the same base64 text.
pub proof fn law_base64_is_injective(x: Seq<u8>, y: Seq<u8>)
    requires
        base64_text(x) == base64_text(y),
    ensures
        x == y,
    decreases x.len(),
{
    if x.len() > 0 {
        lemma_base64_first_group(x);
    }
    if y.len() > 0 {
        lemma_base64_first_group(y);
    }
    if x.len() > 0 && y.len() > 0 {
        let (a, b, c) = (byte_or_zero(x, 0), byte_or_zero(x, 1), byte_or_zero(x, 2));
        let (d, e, f) = (byte_or_zero(y, 0), byte_or_zero(y, 1), byte_or_zero(y, 2));
        lemma_base64_digit(a / 4, d / 4);
        lemma_base64_digit(a % 4 * 16 + b / 16, d % 4 * 16 + e / 16);
        lemma_base64_digit(b % 16 * 4 + c / 64, e % 16 * 4 + f / 64);
        lemma_base64_digit(e % 16 * 4 + f / 64, b % 16 * 4 + c / 64);
        lemma_base64_digit(c % 64, f % 64);
        lemma_base64_digit(f % 64, c % 64);
        assert(a == d && b == e && c == f);
        if x.len() >= 3 {
            law_base64_is_injective(x.skip(3), y.skip(3));
            assert(x == x.take(3) + x.skip(3));
            assert(y == y.take(3) + y.skip(3));
            assert(x.take(3) == y.take(3));
        }
    }
}

proof fn lemma_high_bytes(c: u32)
    by (bit_vector)
    ensures
        vstd::utf8::leading_byte_width_2(c) >= 0x80,
        vstd::utf8::leading_byte_width_3(c) >= 0x80,
        vstd::utf8::leading_byte_width_4(c) >= 0x80,
        vstd::utf8::last_continuation_byte(c) >= 0x80,
        vstd::utf8::second_last_continuation_byte(c) >= 0x80,
        vstd::utf8::third_last_continuation_byte(c) >= 0x80,
{
}

proof fn lemma_low_byte(c: u32)
    by (bit_vector)
    requires
        c <= 0x7f,
    ensures
        vstd::utf8::leading_byte_width_1(c) == c,
{
}

/// An ASCII byte occurs in the UTF-8 bytes of a text only where its character occurs in the text.
pub proof fn lemma_ascii_byte(s: Seq<char>, c: char)
    requires
        c as u32 <= 0x7f,
        !s.contains(c),
    ensures
        !utf8(s).contains(c as u8),
    decreases s.len(),
{
    if s.len() > 0 {
        let head = s[0] as u32;
        let first = vstd::utf8::encode_scalar(head);
        let rest = s.drop_first();
        assert forall|d: char| rest.contains(d) implies s.contains(d) by {
            let i = choose|i: int| 0 <= i < rest.len() && rest[i] == d;
            assert(s[i + 1] == d);
        }
        lemma_ascii_byte(rest, c);
        lemma_high_bytes(head);
        if head <= 0x7f {
            lemma_low_byte(head);
        }
        assert(s.contains(s[0]));
        vstd::utf8::char_is_scalar(s[0]);
        assert(head != c as u32) by {
            vstd::utf8::char_u32_cast(s[0], head);
            vstd::utf8::char_u32_cast(c, c as u32);
        }
        assert forall|i: int| 0 <= i < first.len() implies first[i] != c as u8 by {
            if head > 0x7f {
                assert(first[i] >= 0x80);
            }
        }
        assert forall|i: int| 0 <= i < utf8(s).len() implies utf8(s)[i] != c as u8 by {
            if i < first.len() {
                assert(utf8(s)[i] == first[i]);
            } else {
                assert(utf8(s)[i] == utf8(rest)[i - first.len()]);
            }
        }
    }
}

/// The separator of canonical bytes is one byte long.
pub proof fn lemma_utf8_bar()
    ensures
        utf8(seq!['|']) == seq![0x7cu8],
{
    lemma_low_byte('|' as u32);
    assert(seq!['|'].drop_first() == Seq::<char>::empty());
    assert(utf8(Seq::<char>::empty()) == Seq::<u8>::empty());
    assert(utf8(seq!['|']) == vstd::utf8::encode_scalar('|' as u32) + Seq::<u8>::empty());
}

/// Two texts with the same UTF-8 bytes are equal.
pub proof fn lemma_utf8_injective(a: Seq<char>, b: Seq<char>)
    requires
        utf8(a) == utf8(b),
    ensures
        a == b,
{
    vstd::utf8::encode_utf8_decode_utf8(a);
    vstd::utf8::encode_utf8_decode_utf8(b);
}

/// The UTF-8 bytes of two texts, one after the other, are the bytes of the joined text.
pub proof fn lemma_utf8_concat(a: Seq<char>, b: Seq<char>)
    ensures
        utf8(a + b) == utf8(a) + utf8(b),
    decreases a.len(),
{
    if a.len() == 0 {
        assert(a + b == b);
        assert(utf8(a) + utf8(b) == utf8(b));
    } else {
        lemma_utf8_concat(a.drop_first(), b);
        assert((a + b).drop_first() == a.drop_first() + b);
        let first = vstd::utf8::encode_scalar(a[0] as u32);
        let rest = utf8(a.drop_first());
        assert(first + (rest + utf8(b)) == (first + rest) + utf8(b));
    }
}

/// `String::from_utf8` succeeds exactly on valid UTF-8, and gives the text that the bytes encode.
#[verifier::external_body]
pub(crate) fn string_from_utf8(bytes: Vec<u8>) -> (r: Option<String>)
    ensures
        match r {
            Some(s) => vstd::utf8::valid_utf8(bytes@) && s@ == vstd::utf8::decode_utf8(bytes@),
            None => !vstd::utf8::valid_utf8(bytes@),
        },
{
    String::from_utf8(bytes).ok()
}

/// `String::from_utf8_lossy` gives the text that valid UTF-8 encodes; otherwise it replaces the
/// faulty parts, in a way that depends on the bytes alone.
#[verifier::external_body]
pub(crate) fn string_from_utf8_lossy(bytes: &[u8]) -> (r: String)
    ensures
        vstd::utf8::valid_utf8(bytes@) ==> r@ == vstd::utf8::decode_utf8(bytes@),
        !vstd::utf8::valid_utf8(bytes@) ==> r@ == replaced_text(bytes@),
{
    String::from_utf8_lossy(bytes).into_owned()
}

/// `encode` of base64's `STANDARD` engine writes the standard base64 text, with padding.
#[verifier::external_body]
pub(crate) fn base64_encode(bytes: &[u8]) -> (r: String)
    ensures
        r@ == base64_text(bytes@),
{
    base64::Engine::encode(&base64::engine::general_purpose::STANDARD, bytes)
}

/// The error type of base64's `decode`.
#[verifier::external_type_specification]
#[verifier::external_body]
pub struct ExDecodeError(base64::DecodeError);

/// `decode` of base64's `STANDARD` engine gives the bytes whose standard base64 text it is given,
/// and fails where there are none: it takes neither a text without its padding, nor one with bits
/// left over that are set, nor any character that is no digit. Which error it gives is left unsaid.
#[verifier::external_body]
pub(crate) fn base64_decode(s: &str) -> (r: Result<Vec<u8>, base64::DecodeError>)
    ensures
        match r {
            Ok(bytes) => base64_text(bytes@) == s@,
            Err(_) => forall|bytes: Seq<u8>| #[trigger] base64_text(bytes) != s@,
        },
{
    base64::Engine::decode(&base64::engine::general_purpose::STANDARD, s)
}

} // verus!
