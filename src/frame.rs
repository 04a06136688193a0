//! The bounded byte buffer (heapless's `Vec<u8, 256>`) that holds Modbus
//! frames and request payloads.
use vstd::prelude::*;

verus! {

#[verifier::external_type_specification]
#[verifier::external_body]
#[verifier::reject_recursive_types(T)]
pub struct ExHeaplessVec<T, const N: usize>(heapless::Vec<T, N>);

/// The bytes a frame buffer holds, in order.
pub uninterp spec fn frame_bytes(v: heapless::Vec<u8, 256>) -> Seq<u8>;

/// Relies on `heapless::Vec::new`: a buffer that holds nothing.
#[verifier::external_body]
pub(crate) fn frame_new() -> (r: heapless::Vec<u8, 256>)
    ensures
        frame_bytes(r) == Seq::<u8>::empty(),
{
    heapless::Vec::new()
}

/// Relies on `heapless::Vec::push`: appends `b` while fewer than 256 bytes
/// are held; otherwise fails and leaves the buffer as it was.
#[verifier::external_body]
pub(crate) fn frame_push(v: &mut heapless::Vec<u8, 256>, b: u8) -> (r: bool)
    ensures
        r == (frame_bytes(*old(v)).len() < 256),
        r ==> frame_bytes(*final(v)) == frame_bytes(*old(v)).push(b),
        !r ==> frame_bytes(*final(v)) == frame_bytes(*old(v)),
{
    v.push(b).is_ok()
}

/// Relies on `heapless::Vec::as_slice`: the bytes held, in order, never more
/// than the capacity of 256.
#[verifier::external_body]
pub(crate) fn frame_as_slice(v: &heapless::Vec<u8, 256>) -> (r: &[u8])
    ensures
        r@ == frame_bytes(*v),
        r@.len() <= 256,
{
    v.as_slice()
}

} // verus!
