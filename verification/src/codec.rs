//! The size bound of the wire codec. Encoding and decoding themselves are
//! done by the caller's serializer; the library checks the frames it is
//! handed.
use vstd::prelude::*;
use crate::protocol::MAX_ENVELOPE_BYTES;

verus! {

/// Why a value could not cross the wire.
#[derive(Debug, Clone, PartialEq, Eq)]
pub enum CodecError {
    /// The encoded value exceeds `MAX_ENVELOPE_BYTES`.
    TooLarge,
    /// The serializer failed; the text is its message.
    Encode(String),
    /// The deserializer failed; the text is its message.
    Decode(String),
}

/// Admits an encoded value for decoding, or refuses it before any decoding
/// where it is larger than `MAX_ENVELOPE_BYTES`.
pub fn admit_wire(bytes: &[u8]) -> (r: Result<(), CodecError>)
    ensures
        r is Ok <==> bytes@.len() <= MAX_ENVELOPE_BYTES,
        r is Err ==> r == Err::<(), CodecError>(CodecError::TooLarge),
{
    if bytes.len() > MAX_ENVELOPE_BYTES {
        Err(CodecError::TooLarge)
    } else {
        Ok(())
    }
}

} // verus!
