use vstd::prelude::*;

verus! {

/// The value of a hexadecimal digit of either case, or -1 for any other
/// character.
pub open spec fn hex_digit_value(c: char) -> int {
    let n = c as u32;
    if 48 <= n <= 57 {
        n - 48
    } else if 97 <= n <= 102 {
        n - 87
    } else if 65 <= n <= 70 {
        n - 55
    } else {
        -1
    }
}

/// The lower-case digit that writes `n`, for `0 <= n < 16`.
pub open spec fn lower_hex_digit(n: int) -> char {
    seq!['0', '1', '2', '3', '4', '5', '6', '7', '8', '9', 'a', 'b', 'c', 'd', 'e', 'f'][n]
}

/// An even number of characters, each a hexadecimal digit.
pub open spec fn is_hex_text(s: Seq<char>) -> bool {
    &&& s.len() % 2 == 0
    &&& forall|i: int| 0 <= i < s.len() ==> hex_digit_value(#[trigger] s[i]) >= 0
}

/// The bytes that a hexadecimal text writes, two digits per byte, the high
/// digit first.
pub open spec fn hex_bytes(s: Seq<char>) -> Seq<u8> {
    Seq::new(
        s.len() / 2,
        |i: int| (16 * hex_digit_value(s[2 * i]) + hex_digit_value(s[2 * i + 1])) as u8,
    )
}

/// The lower-case hexadecimal text of `b`, two digits per byte.
pub open spec fn hex_of(b: Seq<u8>) -> Seq<char> {
    Seq::new(
        2 * b.len(),
        |i: int|
            if i % 2 == 0 {
                lower_hex_digit(b[i / 2] as int / 16)
            } else {
                lower_hex_digit(b[i / 2] as int % 16)
            },
    )
}

proof fn lemma_lower_hex_digit_value(n: int)
    requires
        0 <= n < 16,
    ensures
        hex_digit_value(lower_hex_digit(n)) == n,
{
    let digits = seq!['0', '1', '2', '3', '4', '5', '6', '7', '8', '9', 'a', 'b', 'c', 'd', 'e', 'f'];
    assert(digits[n] == lower_hex_digit(n));
    assert(hex_digit_value(digits[n]) == n) by {
        assert(digits[0] == '0');
        assert(digits[1] == '1');
        assert(digits[2] == '2');
        assert(digits[3] == '3');
        assert(digits[4] == '4');
        assert(digits[5] == '5');
        assert(digits[6] == '6');
        assert(digits[7] == '7');
        assert(digits[8] == '8');
        assert(digits[9] == '9');
        assert(digits[10] == 'a');
        assert(digits[11] == 'b');
        assert(digits[12] == 'c');
        assert(digits[13] == 'd');
        assert(digits[14] == 'e');
        assert(digits[15] == 'f');
    }
}

/// Writing bytes as hexadecimal and reading the text back gives the same
/// bytes.
pub proof fn lemma_hex_round_trip(b: Seq<u8>)
    ensures
        is_hex_text(hex_of(b)),
        hex_bytes(hex_of(b)) == b,
{
    let s = hex_of(b);
    assert forall|i: int| 0 <= i < s.len() implies hex_digit_value(#[trigger] s[i]) >= 0 by {
        if i % 2 == 0 {
            lemma_lower_hex_digit_value(b[i / 2] as int / 16);
        } else {
            lemma_lower_hex_digit_value(b[i / 2] as int % 16);
        }
    }
    assert forall|i: int| 0 <= i < b.len() implies #[trigger] hex_bytes(s)[i] == b[i] by {
        assert((2 * i) / 2 == i);
        assert((2 * i + 1) / 2 == i);
        assert((2 * i) % 2 == 0);
        assert((2 * i + 1) % 2 == 1);
        lemma_lower_hex_digit_value(b[i] as int / 16);
        lemma_lower_hex_digit_value(b[i] as int % 16);
    }
    assert(hex_bytes(s) =~= b);
}

/// Relies on hex::decode: it accepts an even number of digits of either
/// case and yields one byte per pair, the first digit high; any other text
/// is an error.
#[verifier::external_body]
pub(crate) fn decode_hex(text: &str) -> (r: Option<Vec<u8>>)
    ensures
        r.is_some() == is_hex_text(text@),
        r.is_some() ==> r.unwrap()@ == hex_bytes(text@),
{
    hex::decode(text).ok()
}

/// Relies on hex::encode: two lower-case digits per byte, the high one
/// first.
#[verifier::external_body]
pub(crate) fn encode_hex(bytes: &[u8]) -> (r: String)
    ensures
        r@ == hex_of(bytes@),
{
    hex::encode(bytes)
}

} // verus!
