use vstd::prelude::*;

verus! {

/// The integer that the bytes `bytes` spell when read most significant byte
/// first (big-endian).
pub open spec fn be_value(bytes: Seq<u8>) -> nat
    decreases bytes.len(),
{
    if bytes.len() == 0 {
        0
    } else {
        be_value(bytes.drop_last()) * 256 + bytes.last() as nat
    }
}

/// Calls `uuid::Uuid::from_bytes` and then `uuid::Uuid::as_u128`.
/// The first keeps the sixteen bytes as they are; the second reads them as a
/// big-endian `u128` (`u128::from_be_bytes`). The contract claims exactly
/// that: the result is the big-endian value of the bytes.
#[verifier::external_body]
pub(crate) fn uuid_from_bytes(bytes: [u8; 16]) -> (r: u128)
    ensures
        r as nat == be_value(bytes@),
{
    uuid::Uuid::from_bytes(bytes).as_u128()
}

} // verus!
