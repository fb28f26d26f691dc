//! Hashing and hexadecimal text, the two encodings identifiers go through.
use vstd::prelude::*;
use vstd::string::*;

verus! {

/// The 32-byte BLAKE3 digest of a byte string.
pub uninterp spec fn blake3_digest(data: Seq<u8>) -> Seq<u8>;

/// Calls `blake3::hash` and returns the digest's bytes. The contract claims
/// only that the digest is the one BLAKE3 gives for these bytes, and that it
/// has 32 bytes, which its type `[u8; 32]` already says.
#[verifier::external_body]
pub(crate) fn blake3_hash(data: &[u8]) -> (r: [u8; 32])
    ensures
        r@ == blake3_digest(data@),
{
    *blake3::hash(data).as_bytes()
}

/// The lowercase hexadecimal digit of a value below 16.
pub open spec fn hex_digit(v: u8) -> char {
    if v < 10 {
        ((v as int) + ('0' as int)) as char
    } else {
        ((v as int) - 10 + ('a' as int)) as char
    }
}

/// Lowercase hexadecimal text of bytes: two digits per byte, the high half
/// first.
pub open spec fn hex_lower(bytes: Seq<u8>) -> Seq<char>
    decreases bytes.len(),
{
    if bytes.len() == 0 {
        Seq::empty()
    } else {
        seq![hex_digit(bytes[0] / 16), hex_digit(bytes[0] % 16)] + hex_lower(bytes.drop_first())
    }
}

/// Calls `hex::encode`, which writes each byte as two lowercase digits, the
/// high half first.
#[verifier::external_body]
pub(crate) fn hex_encode(data: &[u8]) -> (r: String)
    ensures
        r@ == hex_lower(data@),
{
    hex::encode(data)
}

/// The value of an ASCII hexadecimal digit of either case.
pub open spec fn hex_value(c: u8) -> Option<u8> {
    if 48 <= c <= 57 {
        Some((c - 48) as u8)
    } else if 97 <= c <= 102 {
        Some((c - 97 + 10) as u8)
    } else if 65 <= c <= 70 {
        Some((c - 65 + 10) as u8)
    } else {
        None
    }
}

/// The bytes that hexadecimal text of even length denotes, or `None` where
/// the length is odd or some byte is not a digit.
pub open spec fn hex_decoded(text: Seq<u8>) -> Option<Seq<u8>> {
    if text.len() % 2 != 0 {
        None
    } else if exists|i: int| 0 <= i < text.len() && #[trigger] hex_value(text[i]) is None {
        None
    } else {
        Some(
            Seq::new(
                (text.len() / 2) as nat,
                |i: int| (hex_value(text[2 * i]).unwrap() * 16 + hex_value(text[2 * i + 1]).unwrap()) as u8,
            ),
        )
    }
}

#[verifier::external_type_specification]
#[verifier::external_body]
pub struct ExFromHexError(hex::FromHexError);

/// Calls `hex::decode` on the text's bytes. It fails where the length is odd
/// or a byte is no digit of either case; otherwise each pair of digits gives
/// one byte, the first digit the high half.
#[verifier::external_body]
pub(crate) fn hex_decode(text: &str) -> (r: Result<Vec<u8>, hex::FromHexError>)
    ensures
        match r {
            Ok(v) => hex_decoded(text.spec_bytes()) == Some(v@),
            Err(_) => hex_decoded(text.spec_bytes()) is None,
        },
{
    hex::decode(text)
}

/// Appends `data` to `out`.
pub fn extend_bytes(out: &mut Vec<u8>, data: &[u8])
    ensures
        final(out)@ == old(out)@ + data@,
{
    let ghost start = out@;
    let mut i: usize = 0;
    while i < data.len()
        invariant
            i <= data@.len(),
            out@ == start + data@.take(i as int),
        decreases data@.len() - i,
    {
        out.push(data[i]);
        i = i + 1;
        assert(data@.take(i as int) =~= data@.take((i - 1) as int).push(data@[i - 1]));
    }
    assert(data@.take(i as int) =~= data@);
}

/// Calls `OsRng::fill_bytes` for `N` fresh random bytes. Nothing is
/// promised of their value.
#[verifier::external_body]
pub(crate) fn random_bytes<const N: usize>() -> (r: [u8; N]) {
    let mut bytes = [0u8; N];
    rand::RngCore::fill_bytes(&mut rand::rngs::OsRng, &mut bytes);
    bytes
}

} // verus!
