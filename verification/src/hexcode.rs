//! Hexadecimal text, the form in which a pinned certificate is stored.

use vstd::prelude::*;

verus! {

/// The sixteen lower-case hexadecimal digits, in order of value.
pub open spec fn hex_digits() -> Seq<char> {
    seq!['0', '1', '2', '3', '4', '5', '6', '7', '8', '9', 'a', 'b', 'c', 'd', 'e', 'f']
}

/// The value of a hexadecimal digit of either case; `None` for any other
/// character.
pub open spec fn hex_value(c: char) -> Option<int> {
    let v = c as int;
    if 48 <= v <= 57 {
        Some(v - 48)
    } else if 97 <= v <= 102 {
        Some(v - 87)
    } else if 65 <= v <= 70 {
        Some(v - 55)
    } else {
        None
    }
}

/// Two lower-case digits for each byte, the high half first.
pub open spec fn hex_encode(bytes: Seq<u8>) -> Seq<char> {
    Seq::new(
        2 * bytes.len(),
        |i: int|
            if i % 2 == 0 {
                hex_digits()[bytes[i / 2] as int / 16]
            } else {
                hex_digits()[bytes[i / 2] as int % 16]
            },
    )
}

/// Text that stands for bytes: an even number of hexadecimal digits.
pub open spec fn is_hex(text: Seq<char>) -> bool {
    &&& text.len() % 2 == 0
    &&& forall|i: int| 0 <= i < text.len() ==> (#[trigger] hex_value(text[i])) is Some
}

/// The byte that two hexadecimal digits stand for.
pub open spec fn hex_byte(high: char, low: char) -> u8 {
    (hex_value(high).unwrap() * 16 + hex_value(low).unwrap()) as u8
}

/// The bytes that hexadecimal text stands for.
pub open spec fn hex_decode(text: Seq<char>) -> Seq<u8> {
    Seq::new(text.len() / 2, |i: int| hex_byte(text[2 * i], text[2 * i + 1]))
}

/// Every digit of `hex_digits` has its own position as value.
pub proof fn lemma_hex_digit_value(n: int)
    requires
        0 <= n < 16,
    ensures
        hex_value(hex_digits()[n]) == Some(n),
{
    assert(hex_digits()[0] == '0' && hex_digits()[1] == '1' && hex_digits()[2] == '2'
        && hex_digits()[3] == '3');
    assert(hex_digits()[4] == '4' && hex_digits()[5] == '5' && hex_digits()[6] == '6'
        && hex_digits()[7] == '7');
    assert(hex_digits()[8] == '8' && hex_digits()[9] == '9' && hex_digits()[10] == 'a'
        && hex_digits()[11] == 'b');
    assert(hex_digits()[12] == 'c' && hex_digits()[13] == 'd' && hex_digits()[14] == 'e'
        && hex_digits()[15] == 'f');
}

/// Encoding never loses anything: what `hex_encode` writes is hexadecimal
/// text, and `hex_decode` reads the same bytes back from it.
pub proof fn lemma_hex_round_trip(bytes: Seq<u8>)
    ensures
        is_hex(hex_encode(bytes)),
        hex_decode(hex_encode(bytes)) == bytes,
{
    let text = hex_encode(bytes);
    assert forall|i: int| 0 <= i < text.len() implies (#[trigger] hex_value(text[i])) is Some by {
        let b = bytes[i / 2] as int;
        lemma_hex_digit_value(b / 16);
        lemma_hex_digit_value(b % 16);
    }
    assert forall|k: int| 0 <= k < bytes.len() implies hex_decode(text)[k] == bytes[k] by {
        let b = bytes[k] as int;
        lemma_hex_digit_value(b / 16);
        lemma_hex_digit_value(b % 16);
        assert((2 * k) / 2 == k && (2 * k) % 2 == 0);
        assert((2 * k + 1) / 2 == k && (2 * k + 1) % 2 == 1);
        assert(text[2 * k] == hex_digits()[b / 16]);
        assert(text[2 * k + 1] == hex_digits()[b % 16]);
        assert((b / 16) * 16 + b % 16 == b);
    }
    assert(hex_decode(text) =~= bytes);
}

/// `hex::encode` on a byte vector: the text is two lower-case hexadecimal
/// digits for each byte, in order, as `hex_encode` says.
#[verifier::external_body]
pub(crate) fn encode_hex(bytes: &Vec<u8>) -> (text: String)
    ensures
        text@ == hex_encode(bytes@),
{
    hex::encode(bytes)
}

/// `hex::decode` on text: it succeeds exactly on an even number of
/// hexadecimal digits of either case, and then yields one byte for each pair.
/// The outside error is dropped; the contract says when it comes.
#[verifier::external_body]
pub(crate) fn decode_hex(text: &str) -> (bytes: Option<Vec<u8>>)
    ensures
        bytes is Some <==> is_hex(text@),
        bytes matches Some(b) ==> b@ == hex_decode(text@),
{
    hex::decode(text).ok()
}

} // verus!
