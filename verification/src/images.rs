//! The text form of a node's image in a saved document: its PNG bytes in
//! standard base64 (alphabet `A-Z a-z 0-9 + /`, padded with `=`).

use vstd::prelude::*;
use base64::Engine;

verus! {

/// The base64 digit of a six-bit value.
pub open spec fn base64_digit(v: int) -> char {
    if v < 26 {
        ('A' as int + v) as char
    } else if v < 52 {
        ('a' as int + (v - 26)) as char
    } else if v < 62 {
        ('0' as int + (v - 52)) as char
    } else if v == 62 {
        '+'
    } else {
        '/'
    }
}

/// The standard base64 text of `bytes`: each group of three bytes becomes
/// four digits of six bits each, and a last group of one or two bytes is
/// filled with zero bits and padded with `=` to four characters.
pub open spec fn base64_text(bytes: Seq<u8>) -> Seq<char>
    decreases bytes.len(),
{
    if bytes.len() == 0 {
        Seq::empty()
    } else if bytes.len() == 1 {
        let b0 = bytes[0] as int;
        seq![base64_digit(b0 / 4), base64_digit((b0 % 4) * 16), '=', '=']
    } else if bytes.len() == 2 {
        let (b0, b1) = (bytes[0] as int, bytes[1] as int);
        seq![
            base64_digit(b0 / 4),
            base64_digit((b0 % 4) * 16 + b1 / 16),
            base64_digit((b1 % 16) * 4),
            '=',
        ]
    } else {
        let (b0, b1, b2) = (bytes[0] as int, bytes[1] as int, bytes[2] as int);
        seq![
            base64_digit(b0 / 4),
            base64_digit((b0 % 4) * 16 + b1 / 16),
            base64_digit((b1 % 16) * 4 + b2 / 64),
            base64_digit(b2 % 64),
        ] + base64_text(bytes.subrange(3, bytes.len() as int))
    }
}

/// The bytes that `base64`'s `STANDARD` engine decodes a text to, or
/// `None` where it refuses the text (a character outside the alphabet, a
/// bad length, missing or extra padding, or nonzero trailing bits).
pub uninterp spec fn base64_bytes(text: Seq<char>) -> Option<Seq<u8>>;

/// Encodes bytes with `base64::engine::general_purpose::STANDARD.encode`.
/// Claims that the text is [`base64_text`] of the bytes, which is what the
/// engine's alphabet and padding config (`PAD`) give, and that the same
/// engine decodes it back to the bytes: its decoder requires canonical
/// padding and zero trailing bits, which its own encoder writes. The
/// engine panics when the encoded length overflows `usize`, which the
/// bound on the input length rules out.
#[verifier::external_body]
fn encode_standard(bytes: &[u8]) -> (text: String)
    requires
        bytes@.len() <= usize::MAX / 4,
    ensures
        text@ == base64_text(bytes@),
        base64_bytes(text@) == Some(bytes@),
{
    base64::engine::general_purpose::STANDARD.encode(bytes)
}

/// Decodes a text with `base64::engine::general_purpose::STANDARD.decode`.
/// Claims only that the result is the named one: the bytes, or `None` for
/// a decoding error.
#[verifier::external_body]
fn decode_standard(text: &str) -> (bytes: Option<Vec<u8>>)
    ensures
        match bytes {
            Some(b) => base64_bytes(text@) == Some(b@),
            None => base64_bytes(text@) is None,
        },
{
    base64::engine::general_purpose::STANDARD.decode(text.as_bytes()).ok()
}

/// The text under which a node's PNG image is saved. Reading the text back
/// with [`decode_image`] gives the same bytes.
pub fn encode_image(png: &Vec<u8>) -> (text: String)
    requires
        png.len() <= usize::MAX / 4,
    ensures
        text@ == base64_text(png@),
        base64_bytes(text@) == Some(png@),
{
    encode_standard(png.as_slice())
}

/// The PNG bytes of a saved image text, or `None` where the text is not
/// standard base64.
pub fn decode_image(text: &str) -> (png: Option<Vec<u8>>)
    ensures
        match png {
            Some(b) => base64_bytes(text@) == Some(b@),
            None => base64_bytes(text@) is None,
        },
{
    decode_standard(text)
}

} // verus!
