//! Standard base64 with padding, computed by `base64`.

use base64::Engine;
use vstd::prelude::*;

verus! {

/// The character for a value below 64 in the standard alphabet.
pub open spec fn base64_char(v: nat) -> char {
    if v < 26 {
        (('A' as nat) + v) as char
    } else if v < 52 {
        (('a' as nat) + (v - 26)) as char
    } else if v < 62 {
        (('0' as nat) + (v - 52)) as char
    } else if v == 62 {
        '+'
    } else {
        '/'
    }
}

/// The byte at a place, or zero behind the end.
pub open spec fn byte_or_zero(bytes: Seq<u8>, i: int) -> nat {
    if 0 <= i < bytes.len() {
        bytes[i] as nat
    } else {
        0
    }
}

/// The 24 bits of the three bytes of group `g`.
pub open spec fn group_bits(bytes: Seq<u8>, g: int) -> nat {
    byte_or_zero(bytes, 3 * g) * 65536 + byte_or_zero(bytes, 3 * g + 1) * 256 + byte_or_zero(
        bytes,
        3 * g + 2,
    )
}

/// The `k`th six of 24 bits, counted from the highest.
pub open spec fn sextet(bits: nat, k: int) -> nat {
    if k == 0 {
        bits / 262144 % 64
    } else if k == 1 {
        bits / 4096 % 64
    } else if k == 2 {
        bits / 64 % 64
    } else {
        bits % 64
    }
}

/// How many characters encode `len` bytes.
pub open spec fn base64_len(len: nat) -> nat {
    4 * ((len + 2) / 3)
}

/// The encoding of bytes: four characters for three bytes, with `=` for a character that would
/// only hold bits behind the last byte.
pub open spec fn base64_text(bytes: Seq<u8>) -> Seq<char> {
    Seq::new(
        base64_len(bytes.len()),
        |i: int|
            if i % 4 >= 2 && 3 * (i / 4) + i % 4 - 1 >= bytes.len() {
                '='
            } else {
                base64_char(sextet(group_bits(bytes, i / 4), i % 4))
            },
    )
}

/// The value of a character in the standard alphabet; that of `=` and of any other is zero.
pub open spec fn base64_value(c: char) -> nat {
    if 'A' <= c <= 'Z' {
        (c as nat - 'A' as nat) as nat
    } else if 'a' <= c <= 'z' {
        (c as nat - 'a' as nat + 26) as nat
    } else if '0' <= c <= '9' {
        (c as nat - '0' as nat + 52) as nat
    } else if c == '+' {
        62
    } else if c == '/' {
        63
    } else {
        0
    }
}

/// How many `=` a text ends in, up to two.
pub open spec fn padding(text: Seq<char>) -> nat {
    if text.len() >= 2 && text[text.len() - 2] == '=' {
        2
    } else if text.len() >= 1 && text[text.len() - 1] == '=' {
        1
    } else {
        0
    }
}

/// The 24 bits of the four characters of group `g`.
pub open spec fn text_bits(text: Seq<char>, g: int) -> nat {
    base64_value(text[4 * g]) * 262144 + base64_value(text[4 * g + 1]) * 4096 + base64_value(
        text[4 * g + 2],
    ) * 64 + base64_value(text[4 * g + 3])
}

/// The bytes that an encoding stands for.
pub open spec fn base64_bytes(text: Seq<char>) -> Seq<u8> {
    Seq::new(
        (3 * (text.len() / 4) - padding(text)) as nat,
        |i: int|
            {
                let bits = text_bits(text, i / 3);
                if i % 3 == 0 {
                    (bits / 65536 % 256) as u8
                } else if i % 3 == 1 {
                    (bits / 256 % 256) as u8
                } else {
                    (bits % 256) as u8
                }
            },
    )
}

/// A character that can stand in the value of an HTTP header: visible ASCII.
pub open spec fn header_safe(c: char) -> bool {
    '!' <= c <= '~'
}

/// The alphabet has each value once, and neither `=` nor anything unfit for a header.
proof fn base64_char_value(v: nat)
    requires
        v < 64,
    ensures
        base64_value(base64_char(v)) == v,
        base64_char(v) != '=',
        header_safe(base64_char(v)),
{
}

/// An encoding is made of characters that can stand in an HTTP header.
pub proof fn base64_text_is_header_safe(bytes: Seq<u8>)
    ensures
        forall|i: int| 0 <= i < base64_text(bytes).len() ==> header_safe(#[trigger] base64_text(bytes)[i]),
{
    assert forall|i: int| 0 <= i < base64_text(bytes).len() implies header_safe(
        #[trigger] base64_text(bytes)[i],
    ) by {
        base64_char_value(sextet(group_bits(bytes, i / 4), i % 4));
    }
}

/// The four sixes of 24 bits make them up.
proof fn sextets_make_bits(bits: nat)
    requires
        bits < 16777216,
    ensures
        sextet(bits, 0) * 262144 + sextet(bits, 1) * 4096 + sextet(bits, 2) * 64 + sextet(bits, 3)
            == bits,
{
}

/// Three bytes make 24 bits, and come back from them.
proof fn bytes_make_bits(b0: nat, b1: nat, b2: nat)
    requires
        b0 < 256,
        b1 < 256,
        b2 < 256,
    ensures
        b0 * 65536 + b1 * 256 + b2 < 16777216,
        (b0 * 65536 + b1 * 256 + b2) / 65536 % 256 == b0,
        (b0 * 65536 + b1 * 256 + b2) / 256 % 256 == b1,
        (b0 * 65536 + b1 * 256 + b2) % 256 == b2,
{
}

/// Bits that stem from missing bytes are zero.
proof fn missing_bytes_are_zero_bits(b0: nat, b1: nat)
    requires
        b0 < 256,
        b1 < 256,
    ensures
        sextet(b0 * 65536, 2) == 0,
        sextet(b0 * 65536 + b1 * 256, 3) == 0,
{
}

/// The character at a place of an encoding that is not padding has the value of its six bits.
proof fn char_round_trip(bytes: Seq<u8>, g: int, k: int)
    requires
        0 <= g,
        3 * g < bytes.len(),
        0 <= k < 4,
    ensures
        4 * g + k < base64_text(bytes).len(),
        base64_value(base64_text(bytes)[4 * g + k]) == sextet(group_bits(bytes, g), k),
{
    let bits = group_bits(bytes, g);
    let i = 4 * g + k;
    assert(i / 4 == g && i % 4 == k);
    assert(4 * g + 3 < base64_len(bytes.len()));
    base64_char_value(sextet(bits, k));
    let b0 = byte_or_zero(bytes, 3 * g);
    let b1 = byte_or_zero(bytes, 3 * g + 1);
    missing_bytes_are_zero_bits(b0, b1);
    if k == 2 && 3 * g + 1 >= bytes.len() {
        assert(bits == b0 * 65536);
    }
    if k == 3 && 3 * g + 2 >= bytes.len() {
        assert(bits == b0 * 65536 + b1 * 256);
    }
}

/// Decoding a group gives back its 24 bits.
proof fn group_round_trip(bytes: Seq<u8>, g: int)
    requires
        0 <= g,
        3 * g < bytes.len(),
    ensures
        text_bits(base64_text(bytes), g) == group_bits(bytes, g),
{
    char_round_trip(bytes, g, 0);
    char_round_trip(bytes, g, 1);
    char_round_trip(bytes, g, 2);
    char_round_trip(bytes, g, 3);
    bytes_make_bits(
        byte_or_zero(bytes, 3 * g),
        byte_or_zero(bytes, 3 * g + 1),
        byte_or_zero(bytes, 3 * g + 2),
    );
    sextets_make_bits(group_bits(bytes, g));
}

/// The padding of an encoding tells how many bytes its last group lacks.
proof fn padding_round_trip(bytes: Seq<u8>)
    ensures
        3 * (base64_text(bytes).len() / 4) - padding(base64_text(bytes)) == bytes.len(),
{
    let text = base64_text(bytes);
    if bytes.len() > 0 {
        let g = (bytes.len() + 2) / 3 - 1;
        let bits = group_bits(bytes, g);
        assert(text.len() == 4 * g + 4);
        assert((4 * g + 2) / 4 == g && (4 * g + 2) % 4 == 2);
        assert((4 * g + 3) / 4 == g && (4 * g + 3) % 4 == 3);
        base64_char_value(sextet(bits, 2));
        base64_char_value(sextet(bits, 3));
    }
}

/// Decoding gives back what was encoded, whatever bytes it was.
pub proof fn base64_round_trip(bytes: Seq<u8>)
    ensures
        base64_bytes(base64_text(bytes)) == bytes,
{
    let text = base64_text(bytes);
    padding_round_trip(bytes);
    assert forall|i: int| 0 <= i < bytes.len() implies base64_bytes(text)[i] == bytes[i] by {
        let g = i / 3;
        group_round_trip(bytes, g);
        let b0 = byte_or_zero(bytes, 3 * g);
        let b1 = byte_or_zero(bytes, 3 * g + 1);
        let b2 = byte_or_zero(bytes, 3 * g + 2);
        bytes_make_bits(b0, b1, b2);
    }
    assert(base64_bytes(text) =~= bytes);
}

/// `base64::engine::general_purpose::STANDARD.encode`: the encoding of bytes in the standard
/// alphabet, with padding. The result is no longer than a string can be.
#[verifier::external_body]
pub(crate) fn base64_encode(bytes: &[u8]) -> (r: String)
    requires
        base64_len(bytes@.len()) <= isize::MAX,
    ensures
        r@ == base64_text(bytes@),
{
    base64::engine::general_purpose::STANDARD.encode(bytes)
}

} // verus!
