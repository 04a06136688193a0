//! CRC-16/CCITT-FALSE, the checksum that guards the configuration pages and
//! the history headers.
use vstd::prelude::*;

verus! {

/// The CRC-16/CCITT-FALSE checksum of a byte sequence.
pub uninterp spec fn ccitt_false_of(data: Seq<u8>) -> u16;

/// Relies on `crc16::State::<crc16::CCITT_FALSE>::calculate`: the checksum of
/// `data`, a function of the bytes alone.
#[verifier::external_body]
pub(crate) fn ccitt_false(data: &[u8]) -> (r: u16)
    ensures
        r == ccitt_false_of(data@),
{
    crc16::State::<crc16::CCITT_FALSE>::calculate(data)
}

} // verus!
