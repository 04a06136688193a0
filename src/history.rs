//! Fixed-capacity circular buffers of per-bucket flow accumulators, kept on
//! the shared byte device behind a CRC-checked header.
use vstd::prelude::*;

use crate::checksum::{ccitt_false, ccitt_false_of};
use crate::options::{le_u16, le_u32, lemma_u16_bytes, lemma_u32_bytes};
use crate::storage::{splice, ByteStorage};

verus! {

/// Device offset of the page where the history regions begin.
pub const OFFSET_OF_STAT_PAGE: u32 = 4096;

/// Length of the stored header: three 32-bit fields and a 16-bit CRC.
pub const HEADER_LEN: usize = 14;

/// Distance from a region's start to its first slot.
pub const FIRST_SLOT_AT: u32 = 16;

/// Timestamps are rounded down to a multiple of this many seconds.
pub const QUANTUM: u32 = 60;

/// What can go wrong with a history buffer.
#[derive(Debug, Clone, Copy, PartialEq, Eq, Structural)]
pub enum Error {
    NoRecords,
    Unitialized,
    Unimplented,
    Storage,
    WrongCrc,
}

/// The four little-endian bytes of `v`.
pub open spec fn u32_bytes(v: u32) -> Seq<u8> {
    seq![
        (v & 0xff) as u8,
        ((v >> 8u32) & 0xff) as u8,
        ((v >> 16u32) & 0xff) as u8,
        ((v >> 24u32) & 0xff) as u8,
    ]
}

/// The two little-endian bytes of `v`.
pub open spec fn u16_bytes(v: u16) -> Seq<u8> {
    seq![(v & 0xff) as u8, ((v >> 8u16) & 0xff) as u8]
}

fn push_u32(out: &mut Vec<u8>, v: u32)
    ensures
        final(out)@ == old(out)@ + u32_bytes(v),
{
    out.push((v & 0xff) as u8);
    out.push(((v >> 8u32) & 0xff) as u8);
    out.push(((v >> 16u32) & 0xff) as u8);
    out.push(((v >> 24u32) & 0xff) as u8);
    assert(final(out)@ =~= old(out)@ + u32_bytes(v));
}

/// `t` rounded down to a multiple of `QUANTUM` seconds.
pub open spec fn quantize(t: u32) -> u32 {
    (t - t % (QUANTUM as u32)) as u32
}

/// The header of a ring: how many buckets are valid, the slot of the most
/// recent one, its bucket time, and the checksum of the first three fields.
#[derive(Debug, Clone, Copy, PartialEq, Eq, Structural)]
pub struct ServiceData {
    pub size: u32,
    pub offset_of_last: u32,
    pub time_of_last: u32,
    pub crc: u16,
}

impl ServiceData {
    /// The header of an empty ring.
    pub fn new() -> (r: ServiceData)
        ensures
            r == (ServiceData { size: 0, offset_of_last: 0, time_of_last: 0, crc: 0 }),
    {
        ServiceData { size: 0, offset_of_last: 0, time_of_last: 0, crc: 0 }
    }

    /// The twelve bytes that the checksum covers.
    pub open spec fn body(self) -> Seq<u8> {
        u32_bytes(self.size) + u32_bytes(self.offset_of_last) + u32_bytes(self.time_of_last)
    }

    /// The stored form of the header.
    pub open spec fn encoded(self) -> Seq<u8> {
        self.body() + u16_bytes(self.crc)
    }

    /// This header with the checksum of its first three fields.
    pub open spec fn sealed(self) -> ServiceData {
        ServiceData { crc: ccitt_false_of(self.body()), ..self }
    }

    /// The header stored in `bytes`.
    pub open spec fn decoded(bytes: Seq<u8>) -> ServiceData {
        ServiceData {
            size: le_u32(bytes, 0),
            offset_of_last: le_u32(bytes, 4),
            time_of_last: le_u32(bytes, 8),
            crc: le_u16(bytes, 12),
        }
    }

    /// Whether stored header bytes carry the checksum of their first twelve.
    pub open spec fn bytes_valid(bytes: Seq<u8>) -> bool {
        le_u16(bytes, 12) == ccitt_false_of(bytes.subrange(0, 12))
    }

    /// The number of valid buckets.
    pub fn size(&self) -> (r: u32)
        ensures
            r == self.size,
    {
        self.size
    }

    /// Sets the number of valid buckets.
    pub fn set_size(&mut self, v: u32)
        ensures
            *final(self) == (ServiceData { size: v, ..*old(self) }),
    {
        self.size = v;
    }

    /// The slot of the most recent bucket.
    pub fn offset_of_last(&self) -> (r: u32)
        ensures
            r == self.offset_of_last,
    {
        self.offset_of_last
    }

    /// Sets the slot of the most recent bucket.
    pub fn set_offset_of_last(&mut self, v: u32)
        ensures
            *final(self) == (ServiceData { offset_of_last: v, ..*old(self) }),
    {
        self.offset_of_last = v;
    }

    /// The bucket time of the most recent bucket.
    pub fn time_of_last(&self) -> (r: u32)
        ensures
            r == self.time_of_last,
    {
        self.time_of_last
    }

    /// Sets the bucket time of the most recent bucket.
    pub fn set_time_of_last(&mut self, v: u32)
        ensures
            *final(self) == (ServiceData { time_of_last: v, ..*old(self) }),
    {
        self.time_of_last = v;
    }

    /// The stored form of the header.
    pub fn into_bytes(&self) -> (r: Vec<u8>)
        ensures
            r@ == self.encoded(),
    {
        let mut out: Vec<u8> = Vec::new();
        push_u32(&mut out, self.size);
        push_u32(&mut out, self.offset_of_last);
        push_u32(&mut out, self.time_of_last);
        out.push((self.crc & 0xff) as u8);
        out.push(((self.crc >> 8u16) & 0xff) as u8);
        assert(out@ =~= self.encoded());
        out
    }

    /// The header stored in the first `HEADER_LEN` bytes of `bytes`.
    pub fn from_bytes(bytes: &[u8]) -> (r: ServiceData)
        requires
            bytes@.len() >= HEADER_LEN,
        ensures
            r == ServiceData::decoded(bytes@),
    {
        ServiceData {
            size: (bytes[0] as u32) | ((bytes[1] as u32) << 8u32) | ((bytes[2] as u32) << 16u32) | ((
            bytes[3] as u32) << 24u32),
            offset_of_last: (bytes[4] as u32) | ((bytes[5] as u32) << 8u32) | ((bytes[6] as u32)
                << 16u32) | ((bytes[7] as u32) << 24u32),
            time_of_last: (bytes[8] as u32) | ((bytes[9] as u32) << 8u32) | ((bytes[10] as u32)
                << 16u32) | ((bytes[11] as u32) << 24u32),
            crc: (bytes[12] as u16) | ((bytes[13] as u16) << 8u16),
        }
    }
}

impl Default for ServiceData {
    fn default() -> (r: ServiceData)
        ensures
            r == (ServiceData { size: 0, offset_of_last: 0, time_of_last: 0, crc: 0 }),
    {
        ServiceData::new()
    }
}

/// Bytes a ring of `capacity` slots occupies on the device: a 32-bit prefix,
/// the slots, the header and a 16-bit tail.
pub open spec fn spec_size_on_flash(capacity: u32) -> int {
    4 + 4 * capacity + HEADER_LEN + 2
}

/// Whether a ring of this shape can be placed at `offset` past the stat page
/// with every address fitting in 32 bits.
pub open spec fn layout_ok(offset: u32, capacity: u32, element_size: u32) -> bool {
    capacity >= 1 && element_size >= 1 && OFFSET_OF_STAT_PAGE + offset + spec_size_on_flash(
        capacity,
    ) <= u32::MAX
}

/// The time of the bucket `k` places before one of time `last`.
pub open spec fn bucket_time(last: u32, element_size: u32, k: int) -> int {
    last - element_size * k
}

/// Whether stored header bytes are accepted for a ring of `capacity` slots:
/// the checksum matches and the header names slots that exist.
pub open spec fn header_accepted(bytes: Seq<u8>, capacity: u32) -> bool {
    ServiceData::bytes_valid(bytes) && ServiceData::decoded(bytes).offset_of_last < capacity
        && ServiceData::decoded(bytes).size <= capacity
}

/// `sl` with zero written into the `j` slots that follow slot `o`, in a ring
/// of `c` slots.
pub open spec fn zeros_after(sl: Seq<i32>, o: int, j: nat, c: int) -> Seq<i32>
    decreases j,
{
    if j == 0 {
        sl
    } else {
        zeros_after(sl, o, (j - 1) as nat, c).update((o + j) % c, 0)
    }
}

/// `sl` with zero written into slot `o` and the `j - 1` slots before it, in
/// a ring of `c` slots.
pub open spec fn zeros_back(sl: Seq<i32>, o: int, j: nat, c: int) -> Seq<i32>
    decreases j,
{
    if j == 0 {
        sl
    } else {
        zeros_back(sl, o, (j - 1) as nat, c).update((o - (j - 1)) % c, 0)
    }
}

/// How many buckets a forward gap of `d` seconds opens, `d` over `e`
/// rounded up: the zero buckets in between and the one that takes the value.
pub open spec fn steps_forward(d: nat, e: nat) -> nat
    decreases d,
{
    if d <= e || e == 0 {
        1
    } else {
        1 + steps_forward((d - e) as nat, e)
    }
}

/// The size left after stepping back `j` buckets from slot `o` with size
/// `s`: a step shrinks the ring only when it leaves the slot at its tail
/// (`s - 1`), as long as the ring has not wrapped.
pub open spec fn retracted_size(s: int, o: int, j: nat, c: int) -> int
    decreases j,
{
    if j == 0 {
        s
    } else {
        let prev = retracted_size(s, o, (j - 1) as nat, c);
        if (o - (j - 1)) % c == prev - 1 {
            prev - 1
        } else {
            prev
        }
    }
}

/// Header and slots after `add` of `v` at bucket time `q` to a ring of `c`
/// slots of `e` seconds with header `h` and slots `sl`:
/// an empty ring, a gap of `c` buckets or more ahead, or a time at or before
/// the oldest bucket restarts the ring with `v` alone in slot 0; a time
/// ahead fills the buckets in between with zeros and puts `v` in the next;
/// a time not ahead steps back over the buckets after it, zeroing them, and
/// puts `v` in its bucket.
pub open spec fn add_result(h: ServiceData, sl: Seq<i32>, c: u32, e: u32, v: i32, q: u32) -> (
    ServiceData,
    Seq<i32>,
) {
    let restart = (
        ServiceData { size: 1, offset_of_last: 0, time_of_last: q, crc: 0 }.sealed(),
        sl.update(0, v),
    );
    if h.size == 0 {
        restart
    } else if q > h.time_of_last {
        let d = (q - h.time_of_last) as nat;
        if d / (e as nat) >= c {
            restart
        } else {
            let n = steps_forward(d, e as nat);
            (
                ServiceData {
                    size: if h.size + n <= c {
                        (h.size + n) as u32
                    } else {
                        c
                    },
                    offset_of_last: ((h.offset_of_last + n) % (c as int)) as u32,
                    time_of_last: q,
                    crc: 0,
                }.sealed(),
                zeros_after(sl, h.offset_of_last as int, (n - 1) as nat, c as int).update(
                    (h.offset_of_last + n) % (c as int),
                    v,
                ),
            )
        }
    } else {
        let m = ((h.time_of_last - q) / (e as int)) as nat;
        if m >= h.size {
            restart
        } else {
            (
                ServiceData {
                    size: retracted_size(
                        h.size as int,
                        h.offset_of_last as int,
                        m,
                        c as int,
                    ) as u32,
                    offset_of_last: ((h.offset_of_last - m) % (c as int)) as u32,
                    time_of_last: q,
                    crc: 0,
                }.sealed(),
                zeros_back(sl, h.offset_of_last as int, m, c as int).update(
                    (h.offset_of_last - m) % (c as int),
                    v,
                ),
            )
        }
    }
}

/// The value held for bucket time `q` by a ring of `c` slots of `e` seconds
/// with header `h` and slots `sl`: bucket `k` back from the most recent has
/// time `time_of_last - k * e` and sits `k` slots before `offset_of_last`,
/// for `k` below `size`.
pub open spec fn lookup_in(h: ServiceData, sl: Seq<i32>, c: u32, e: u32, q: u32) -> Option<i32> {
    let back = h.time_of_last - q;
    let ei = e as int;
    if back >= 0 && back % ei == 0 && back / ei < h.size {
        Some(sl[(h.offset_of_last - back / ei) % (c as int)])
    } else {
        None
    }
}

/// A circular buffer of `capacity` buckets of `element_size` seconds each.
pub struct RingStorage {
    pub data: ServiceData,
    offset: u32,
    capacity: u32,
    element_size: u32,
}

impl RingStorage {
    /// The header as held in memory.
    pub closed spec fn hdr(&self) -> ServiceData {
        self.data
    }

    /// Offset of the region past the stat page.
    pub closed spec fn spec_offset(&self) -> u32 {
        self.offset
    }

    /// Number of slots.
    pub closed spec fn spec_capacity(&self) -> u32 {
        self.capacity
    }

    /// Seconds per bucket.
    pub closed spec fn spec_element_size(&self) -> u32 {
        self.element_size
    }

    /// Device address of the header.
    pub open spec fn base(&self) -> int {
        OFFSET_OF_STAT_PAGE + self.spec_offset()
    }

    /// Device address of slot `i`.
    pub open spec fn slot_addr(&self, i: int) -> int {
        self.base() + FIRST_SLOT_AT + 4 * i
    }

    /// One past the last address of the ring's region.
    pub open spec fn region_end(&self) -> int {
        self.base() + spec_size_on_flash(self.spec_capacity())
    }

    /// A well-placed ring whose header describes slots that exist.
    pub open spec fn wf(&self) -> bool {
        layout_ok(self.spec_offset(), self.spec_capacity(), self.spec_element_size())
            && self.hdr().offset_of_last < self.spec_capacity() && self.hdr().size
            <= self.spec_capacity()
    }

    /// The value stored in slot `i` of `dev`.
    pub open spec fn slot_value(&self, dev: Seq<u8>, i: int) -> i32 {
        le_u32(dev, self.slot_addr(i)) as i32
    }

    /// The values of all slots of `dev`.
    pub open spec fn slots(&self, dev: Seq<u8>) -> Seq<i32> {
        Seq::new(self.spec_capacity() as nat, |i: int| self.slot_value(dev, i))
    }

    /// The slot that holds the bucket `k` places before the most recent one.
    pub open spec fn slot_back(&self, k: int) -> int {
        (self.hdr().offset_of_last - k) % (self.spec_capacity() as int)
    }

    /// The value that the ring holds for bucket time `q` on `dev`, if any:
    /// bucket `k` back from the most recent has time `time_of_last - k *
    /// element_size`, for `k` below `size`.
    pub open spec fn lookup(&self, dev: Seq<u8>, q: u32) -> Option<i32> {
        lookup_in(self.hdr(), self.slots(dev), self.spec_capacity(), self.spec_element_size(), q)
    }

    /// The stored header bytes on `dev`.
    pub open spec fn stored_header(&self, dev: Seq<u8>) -> Seq<u8> {
        dev.subrange(self.base(), self.base() + HEADER_LEN)
    }

    /// `a` and `b` agree on every byte outside this ring's region.
    pub open spec fn same_outside(&self, a: Seq<u8>, b: Seq<u8>) -> bool {
        a.len() == b.len() && forall|k: int|
            0 <= k < a.len() && !(self.base() <= k < self.region_end()) ==> a[k] == b[k]
    }

    /// Two rings of the same shape at the same place.
    pub open spec fn same_layout(&self, other: &RingStorage) -> bool {
        self.spec_offset() == other.spec_offset() && self.spec_capacity()
            == other.spec_capacity() && self.spec_element_size() == other.spec_element_size()
    }

    /// Reads the header of the ring placed at `offset` past the stat page. A
    /// header whose checksum does not match, or that names a slot or a size
    /// beyond `capacity`, gives an empty ring instead.
    pub fn new<S: ByteStorage>(storage: &mut S, offset: u32, capacity: u32, element_size: u32) -> (r:
        Result<RingStorage, Error>)
        requires
            layout_ok(offset, capacity, element_size),
        ensures
            final(storage).contents() == old(storage).contents(),
            r is Ok ==> ({
                let ring = r->Ok_0;
                let bytes = old(storage).contents().subrange(
                    OFFSET_OF_STAT_PAGE + offset,
                    OFFSET_OF_STAT_PAGE + offset + HEADER_LEN,
                );
                &&& ring.wf()
                &&& ring.spec_offset() == offset
                &&& ring.spec_capacity() == capacity
                &&& ring.spec_element_size() == element_size
                &&& ring.hdr() == if header_accepted(bytes, capacity) {
                    ServiceData::decoded(bytes)
                } else {
                    ServiceData { size: 0, offset_of_last: 0, time_of_last: 0, crc: 0 }
                }
            }),
            r is Err ==> r->Err_0 == Error::Storage,
            final(storage).reliable() == old(storage).reliable(),
            old(storage).reliable() && OFFSET_OF_STAT_PAGE + offset + HEADER_LEN <= old(
                storage,
            ).contents().len() ==> r is Ok,
    {
        let ghost dev = storage.contents();
        let buf = match storage.read(OFFSET_OF_STAT_PAGE + offset, HEADER_LEN) {
            Ok(b) => b,
            Err(_) => return Err(Error::Storage),
        };
        let crc = ccitt_false(vstd::slice::slice_subrange(buf.as_slice(), 0, 12));
        Ok(RingStorage::from_header(buf.as_slice(), crc, offset, capacity, element_size))
    }

    /// The ring described by stored header `bytes`, given `computed`, the
    /// checksum of their first twelve bytes: the header when it carries that
    /// checksum and names slots that exist, else an empty ring.
    pub fn from_header(bytes: &[u8], computed: u16, offset: u32, capacity: u32, element_size: u32) -> (r:
        RingStorage)
        requires
            bytes@.len() == HEADER_LEN,
            layout_ok(offset, capacity, element_size),
        ensures
            r.wf(),
            r.spec_offset() == offset,
            r.spec_capacity() == capacity,
            r.spec_element_size() == element_size,
            r.hdr() == if le_u16(bytes@, 12) == computed && ServiceData::decoded(bytes@).offset_of_last
                < capacity && ServiceData::decoded(bytes@).size <= capacity {
                ServiceData::decoded(bytes@)
            } else {
                ServiceData { size: 0, offset_of_last: 0, time_of_last: 0, crc: 0 }
            },
    {
        let data = ServiceData::from_bytes(bytes);
        if data.crc != computed || data.offset_of_last >= capacity || data.size > capacity {
            return RingStorage::new_empty(offset, capacity, element_size);
        }
        RingStorage { data, offset, capacity, element_size }
    }

    /// The value recorded for the bucket of `time` (rounded down to a
    /// multiple of 60 s): the ring is scanned from the most recent bucket
    /// back over `size` buckets. The device is not changed.
    pub fn find<S: ByteStorage>(&self, storage: &mut S, time: u32) -> (r: Result<Option<i32>, Error>)
        requires
            self.wf(),
        ensures
            final(storage).contents() == old(storage).contents(),
            r is Ok ==> r->Ok_0 == self.lookup(old(storage).contents(), quantize(time)),
            self.lookup(old(storage).contents(), quantize(time)) is None ==> r == Ok::<
                Option<i32>,
                Error,
            >(None),
            r is Err ==> r->Err_0 == Error::Storage,
            final(storage).reliable() == old(storage).reliable(),
            old(storage).reliable() && self.region_end() <= old(storage).contents().len() ==> r is Ok,
    {
        let ghost dev = storage.contents();
        let q = time - time % QUANTUM;
        let e = self.element_size;
        let last = self.data.time_of_last;
        let mut index = self.data.offset_of_last;
        let mut k: u32 = 0;
        proof {
            vstd::arithmetic::div_mod::lemma_small_mod(index as nat, self.capacity as nat);
        }
        while k < self.data.size
            invariant
                self.wf(),
                storage.contents() == dev,
                dev == old(storage).contents(),
                storage.reliable() == old(storage).reliable(),
                e == self.spec_element_size(),
                last == self.hdr().time_of_last,
                q == quantize(time),
                k <= self.hdr().size,
                index == self.slot_back(k as int),
                forall|j: int| 0 <= j < k ==> #[trigger] bucket_time(last, e, j) != q,
            decreases self.hdr().size - k,
        {
            proof {
                lemma_mul_u32_fits(e, k);
            }
            let span = (e as u64) * (k as u64);
            if span <= last as u64 && last as u64 - span == q as u64 {
                proof {
                    let back = last - q;
                    assert(back == (k as int) * (e as int)) by (nonlinear_arith)
                        requires
                            back == (e as int) * (k as int),
                    ;
                    vstd::arithmetic::div_mod::lemma_mod_multiples_basic(k as int, e as int);
                    vstd::arithmetic::div_mod::lemma_div_multiples_vanish(k as int, e as int);
                    assert(back % (e as int) == 0);
                    assert(back / (e as int) == k);
                }
                let bytes = match storage.read(self.offset(index), 4) {
                    Ok(b) => b,
                    Err(_) => return Err(Error::Storage),
                };
                let raw = (bytes[0] as u32) | ((bytes[1] as u32) << 8u32) | ((bytes[2] as u32)
                    << 16u32) | ((bytes[3] as u32) << 24u32);
                assert(raw == le_u32(dev, self.slot_addr(index as int)));
                return Ok(Some(#[verifier::truncate] (raw as i32)));
            }
            proof {
                lemma_prev_slot(self.hdr().offset_of_last as int, k as int, self.spec_capacity() as int);
            }
            if index == 0 {
                index = self.capacity - 1;
            } else {
                index = index - 1;
            }
            k = k + 1;
        }
        proof {
            let back = last - q;
            let ei = e as int;
            if back >= 0 && back % ei == 0 && back / ei < self.hdr().size {
                vstd::arithmetic::div_mod::lemma_fundamental_div_mod(back, ei);
                let k0 = back / ei;
                assert(bucket_time(last, e, k0) == q);
                assert(false);
            }
        }
        Ok(None)
    }

    /// Rings of the same shape at the same place see the same slots.
    proof fn lemma_same_layout_slots(&self, other: &RingStorage, dev: Seq<u8>)
        requires
            self.same_layout(other),
        ensures
            self.slots(dev) == other.slots(dev),
    {
        assert(self.slots(dev) =~= other.slots(dev));
    }

    /// Agreeing outside the region is transitive.
    proof fn lemma_same_outside_trans(&self, a: Seq<u8>, b: Seq<u8>, c: Seq<u8>)
        requires
            self.same_outside(a, b),
            self.same_outside(b, c),
        ensures
            self.same_outside(a, c),
    {
    }

    /// The value of the most recent bucket, if the ring holds any.
    pub fn last_value<S: ByteStorage>(&self, storage: &mut S) -> (r: Result<Option<i32>, Error>)
        requires
            self.wf(),
        ensures
            final(storage).contents() == old(storage).contents(),
            self.hdr().size == 0 ==> r == Ok::<Option<i32>, Error>(None),
            self.hdr().size > 0 && r is Ok ==> r->Ok_0 == self.lookup(
                old(storage).contents(),
                quantize(self.hdr().time_of_last),
            ),
            r is Err ==> r->Err_0 == Error::Storage,
            final(storage).reliable() == old(storage).reliable(),
            old(storage).reliable() && self.region_end() <= old(storage).contents().len() ==> r is Ok,
    {
        if self.data.size == 0 {
            return Ok(None);
        }
        self.find(storage, self.data.time_of_last)
    }

    /// Writes `v` into slot `idx`.
    fn write_slot<S: ByteStorage>(&self, storage: &mut S, idx: u32, v: i32) -> (r: Result<(), Error>)
        requires
            self.wf(),
            idx < self.spec_capacity(),
            self.region_end() <= old(storage).contents().len(),
        ensures
            final(storage).contents().len() == old(storage).contents().len(),
            r is Ok ==> self.slots(final(storage).contents()) == self.slots(
                old(storage).contents(),
            ).update(idx as int, v) && self.stored_header(final(storage).contents())
                == self.stored_header(old(storage).contents()) && self.same_outside(
                old(storage).contents(),
                final(storage).contents(),
            ),
            r is Err ==> r->Err_0 == Error::Storage,
            final(storage).reliable() == old(storage).reliable(),
            old(storage).reliable() ==> r is Ok,
    {
        let ghost dev = storage.contents();
        let mut bytes: Vec<u8> = Vec::new();
        push_u32(&mut bytes, v as u32);
        assert(bytes@ =~= u32_bytes(v as u32));
        match storage.write(self.offset(idx), bytes.as_slice()) {
            Ok(()) => {
                proof {
                    self.lemma_slot_write(dev, idx as int, v);
                }
                Ok(())
            },
            Err(_) => Err(Error::Storage),
        }
    }

    /// Seals the header with its checksum and writes it to the device.
    fn persist<S: ByteStorage>(&mut self, storage: &mut S) -> (r: Result<(), Error>)
        requires
            old(self).wf(),
            old(self).region_end() <= old(storage).contents().len(),
        ensures
            final(self).hdr() == old(self).hdr().sealed(),
            final(self).same_layout(old(self)),
            final(self).wf(),
            final(storage).contents().len() == old(storage).contents().len(),
            r is Ok ==> old(self).stored_header(final(storage).contents()) == final(self).hdr().encoded() && old(self).slots(final(storage).contents()) == old(self).slots(
                old(storage).contents(),
            ) && old(self).same_outside(old(storage).contents(), final(storage).contents()),
            r is Err ==> r->Err_0 == Error::Storage,
            final(storage).reliable() == old(storage).reliable(),
            old(storage).reliable() ==> r is Ok,
    {
        let ghost dev = storage.contents();
        let unsealed = self.data.into_bytes();
        let crc = ccitt_false(vstd::slice::slice_subrange(unsealed.as_slice(), 0, 12));
        assert(unsealed@.subrange(0, 12) =~= self.data.body());
        self.data.crc = crc;
        let bytes = self.data.into_bytes();
        match storage.write(OFFSET_OF_STAT_PAGE + self.offset, bytes.as_slice()) {
            Ok(()) => {
                proof {
                    self.lemma_header_write(dev, self.data);
                }
                Ok(())
            },
            Err(_) => Err(Error::Storage),
        }
    }

    /// Writing the four bytes of a slot changes that slot alone.
    proof fn lemma_slot_write(&self, dev: Seq<u8>, idx: int, v: i32)
        requires
            self.wf(),
            0 <= idx < self.spec_capacity(),
            self.region_end() <= dev.len(),
        ensures
            ({
                let dev2 = splice(dev, self.slot_addr(idx), u32_bytes(v as u32));
                &&& self.slots(dev2) == self.slots(dev).update(idx, v)
                &&& self.stored_header(dev2) == self.stored_header(dev)
                &&& self.same_outside(dev, dev2)
            }),
    {
        let a = self.slot_addr(idx);
        let bs = u32_bytes(v as u32);
        let dev2 = splice(dev, a, bs);
        assert(dev2.len() == dev.len());
        assert forall|k: int| 0 <= k < dev.len() implies #[trigger] dev2[k] == if a <= k < a + 4 {
            bs[k - a]
        } else {
            dev[k]
        } by {
            if k < a {
            } else if k < a + 4 {
            } else {
            }
        }
        lemma_u32_bytes_i32(v);
        assert forall|i: int| 0 <= i < self.spec_capacity() implies #[trigger] self.slots(dev2)[i]
            == self.slots(dev).update(idx, v)[i] by {
            let ai = self.slot_addr(i);
            if i != idx {
                assert(dev2[ai] == dev[ai]);
                assert(dev2[ai + 1] == dev[ai + 1]);
                assert(dev2[ai + 2] == dev[ai + 2]);
                assert(dev2[ai + 3] == dev[ai + 3]);
            } else {
                assert(dev2[ai] == bs[0]);
                assert(dev2[ai + 1] == bs[1]);
                assert(dev2[ai + 2] == bs[2]);
                assert(dev2[ai + 3] == bs[3]);
            }
        }
        assert(self.slots(dev2) =~= self.slots(dev).update(idx, v));
        assert(self.stored_header(dev2) =~= self.stored_header(dev));
    }

    /// Writing the header changes neither the slots nor anything outside the
    /// region.
    proof fn lemma_header_write(&self, dev: Seq<u8>, h: ServiceData)
        requires
            self.wf(),
            self.region_end() <= dev.len(),
        ensures
            ({
                let dev2 = splice(dev, self.base(), h.encoded());
                &&& self.stored_header(dev2) == h.encoded()
                &&& self.slots(dev2) == self.slots(dev)
                &&& self.same_outside(dev, dev2)
            }),
    {
        let a = self.base();
        let bs = h.encoded();
        let dev2 = splice(dev, a, bs);
        assert(bs.len() == HEADER_LEN);
        assert(dev2.len() == dev.len());
        assert forall|k: int| 0 <= k < dev.len() implies #[trigger] dev2[k] == if a <= k < a
            + 14 {
            bs[k - a]
        } else {
            dev[k]
        } by {
            if k < a {
            } else if k < a + 14 {
            } else {
            }
        }
        assert forall|i: int| 0 <= i < self.spec_capacity() implies #[trigger] self.slots(dev2)[i]
            == self.slots(dev)[i] by {
            let ai = self.slot_addr(i);
            assert(dev2[ai] == dev[ai]);
            assert(dev2[ai + 1] == dev[ai + 1]);
            assert(dev2[ai + 2] == dev[ai + 2]);
            assert(dev2[ai + 3] == dev[ai + 3]);
        }
        assert(self.slots(dev2) =~= self.slots(dev));
        assert(self.stored_header(dev2) =~= bs);
    }

    /// Puts `v` alone in slot 0 at bucket time `q`.
    fn restart<S: ByteStorage>(&mut self, storage: &mut S, v: i32, q: u32) -> (r: Result<(), Error>)
        requires
            old(self).wf(),
            old(self).region_end() <= old(storage).contents().len(),
        ensures
            final(self).wf(),
            final(self).same_layout(old(self)),
            final(storage).contents().len() == old(storage).contents().len(),
            r is Ok ==> final(self).hdr() == (ServiceData {
                size: 1,
                offset_of_last: 0,
                time_of_last: q,
                crc: 0,
            }).sealed() && old(self).slots(final(storage).contents()) == old(self).slots(
                old(storage).contents(),
            ).update(0, v) && old(self).stored_header(final(storage).contents()) == final(
                self).hdr().encoded() && old(self).same_outside(
                old(storage).contents(),
                final(storage).contents(),
            ),
            r is Err ==> r->Err_0 == Error::Storage,
            final(storage).reliable() == old(storage).reliable(),
            old(storage).reliable() ==> r is Ok,
    {
        let ghost dev0 = storage.contents();
        self.data.size = 1;
        self.data.offset_of_last = 0;
        self.data.time_of_last = q;
        proof {
            self.lemma_same_layout_slots(old(self), dev0);
        }
        if let Err(e) = self.write_slot(storage, 0, v) {
            return Err(e);
        }
        let ghost dev1 = storage.contents();
        let ghost before = *self;
        let r = self.persist(storage);
        proof {
            before.lemma_same_layout_slots(old(self), dev1);
            before.lemma_same_layout_slots(old(self), dev0);
            before.lemma_same_layout_slots(old(self), storage.contents());
            if r is Ok {
                old(self).lemma_same_outside_trans(dev0, dev1, storage.contents());
            }
        }
        r
    }

    /// Records `v` for the bucket of `time`, rounded down to a multiple of
    /// 60 s. Each slot written is followed by a write of the header, which
    /// is sealed with its checksum; nothing outside the ring's region is
    /// touched. A device too small for the ring's region is refused with a
    /// storage error and left untouched.
    pub fn add<S: ByteStorage>(&mut self, storage: &mut S, val: i32, time: u32) -> (r: Result<
        (),
        Error,
    >)
        requires
            old(self).wf(),
        ensures
            final(self).wf(),
            final(self).same_layout(old(self)),
            final(storage).contents().len() == old(storage).contents().len(),
            r is Ok ==> ({
                let res = add_result(
                    old(self).hdr(),
                    old(self).slots(old(storage).contents()),
                    old(self).spec_capacity(),
                    old(self).spec_element_size(),
                    val,
                    quantize(time),
                );
                &&& final(self).hdr() == res.0
                &&& old(self).slots(final(storage).contents()) == res.1
                &&& old(self).stored_header(final(storage).contents()) == res.0.encoded()
                &&& old(self).same_outside(old(storage).contents(), final(storage).contents())
            }),
            r is Err ==> r->Err_0 == Error::Storage,
            final(storage).reliable() == old(storage).reliable(),
            old(storage).reliable() && old(self).region_end() <= old(storage).contents().len()
                ==> r is Ok,
            r is Ok ==> old(self).region_end() <= old(storage).contents().len(),
            old(storage).contents().len() < old(self).region_end() ==> r is Err && *final(self)
                == *old(self) && final(storage).contents() == old(storage).contents(),
    {
        let end = OFFSET_OF_STAT_PAGE + self.offset + self.size_on_flash();
        if end as usize > storage.capacity() {
            return Err(Error::Storage);
        }
        let q = time - time % QUANTUM;
        if self.data.size == 0 {
            return self.restart(storage, val, q);
        }
        let last = self.data.time_of_last;
        let e = self.element_size;
        let c = self.capacity;
        let ghost dev0 = storage.contents();
        let ghost h0 = self.data;
        let ghost sl0 = self.slots(dev0);
        let ghost o0 = h0.offset_of_last as int;
        if q > last {
            let d = q - last;
            if d / e >= c {
                return self.restart(storage, val, q);
            }
            let mut remaining = d;
            let ghost mut j: nat = 0;
            proof {
                vstd::arithmetic::div_mod::lemma_small_mod(o0 as nat, c as nat);
            }
            while remaining > e
                invariant
                    self.wf(),
                    self.same_layout(old(self)),
                    c == self.spec_capacity(),
                    e == self.spec_element_size(),
                    h0 == old(self).hdr(),
                    o0 == h0.offset_of_last,
                    dev0 == old(storage).contents(),
                    sl0 == old(self).slots(dev0),
                    self.region_end() <= dev0.len(),
                    storage.contents().len() == dev0.len(),
                    storage.reliable() == old(storage).reliable(),
                    0 < remaining <= d,
                    d == q - h0.time_of_last,
                    steps_forward(d as nat, e as nat) == j + steps_forward(
                        remaining as nat,
                        e as nat,
                    ),
                    self.hdr().offset_of_last == (o0 + j) % (c as int),
                    self.hdr().size == if h0.size + j <= c {
                        h0.size + j
                    } else {
                        c as int
                    },
                    self.hdr().time_of_last + remaining == q,
                    old(self).slots(storage.contents()) == zeros_after(sl0, o0, j, c as int),
                    old(self).same_outside(dev0, storage.contents()),
                decreases remaining,
            {
                let ghost dev_a = storage.contents();
                proof {
                    lemma_mod_succ(o0 + j, c as int);
                    vstd::arithmetic::div_mod::lemma_mod_bound(o0 + j, c as int);
                    lemma_next_slot((o0 + j) % (c as int), c as int);
                }
                self.advance_offset_by_one();
                if self.data.size < c {
                    self.data.size = self.data.size + 1;
                }
                let idx = self.data.offset_of_last;
                proof {
                    self.lemma_same_layout_slots(old(self), dev_a);
                }
                if let Err(err) = self.write_slot(storage, idx, 0) {
                    return Err(err);
                }
                let ghost dev_b = storage.contents();
                self.data.time_of_last = self.data.time_of_last + e;
                let ghost before = *self;
                if let Err(err) = self.persist(storage) {
                    return Err(err);
                }
                proof {
                    before.lemma_same_layout_slots(old(self), dev_b);
                    before.lemma_same_layout_slots(old(self), storage.contents());
                    old(self).lemma_same_outside_trans(dev0, dev_a, dev_b);
                    old(self).lemma_same_outside_trans(dev0, dev_b, storage.contents());
                    assert(zeros_after(sl0, o0, j + 1, c as int) == zeros_after(
                        sl0,
                        o0,
                        j,
                        c as int,
                    ).update((o0 + j + 1) % (c as int), 0));
                }
                remaining = remaining - e;
                proof {
                    j = j + 1;
                }
            }
            let ghost dev_a = storage.contents();
            proof {
                lemma_mod_succ(o0 + j, c as int);
                vstd::arithmetic::div_mod::lemma_mod_bound(o0 + j, c as int);
                lemma_next_slot((o0 + j) % (c as int), c as int);
            }
            self.advance_offset_by_one();
            if self.data.size < c {
                self.data.size = self.data.size + 1;
            }
            let idx = self.data.offset_of_last;
            proof {
                self.lemma_same_layout_slots(old(self), dev_a);
            }
            if let Err(err) = self.write_slot(storage, idx, val) {
                return Err(err);
            }
            let ghost dev_b = storage.contents();
            self.data.time_of_last = q;
            let ghost before = *self;
            let r = self.persist(storage);
            proof {
                if r is Ok {
                    before.lemma_same_layout_slots(old(self), dev_b);
                    before.lemma_same_layout_slots(old(self), storage.contents());
                    old(self).lemma_same_outside_trans(dev0, dev_a, dev_b);
                    old(self).lemma_same_outside_trans(dev0, dev_b, storage.contents());
                    assert(steps_forward(remaining as nat, e as nat) == 1);
                }
            }
            r
        } else {
            let back = last - q;
            if back / e >= self.data.size {
                return self.restart(storage, val, q);
            }
            let mut remaining = back;
            let ghost mut j: nat = 0;
            proof {
                vstd::arithmetic::div_mod::lemma_small_mod(o0 as nat, c as nat);
            }
            while remaining >= e
                invariant
                    self.wf(),
                    self.same_layout(old(self)),
                    c == self.spec_capacity(),
                    e == self.spec_element_size(),
                    e >= 1,
                    h0 == old(self).hdr(),
                    o0 == h0.offset_of_last,
                    0 <= o0 < c,
                    dev0 == old(storage).contents(),
                    sl0 == old(self).slots(dev0),
                    self.region_end() <= dev0.len(),
                    storage.contents().len() == dev0.len(),
                    storage.reliable() == old(storage).reliable(),
                    remaining <= back,
                    back == h0.time_of_last - q,
                    (remaining as int) / (e as int) + j == (back as int) / (e as int),
                    (back as int) / (e as int) < h0.size,
                    self.hdr().offset_of_last == (o0 - j) % (c as int),
                    self.hdr().size == retracted_size(h0.size as int, o0, j, c as int),
                    h0.size - j <= self.hdr().size <= h0.size,
                    self.hdr().time_of_last == last,
                    old(self).slots(storage.contents()) == zeros_back(sl0, o0, j, c as int),
                    old(self).same_outside(dev0, storage.contents()),
                decreases remaining,
            {
                proof {
                    vstd::arithmetic::div_mod::lemma_div_plus_one(remaining - e, e as int);
                    vstd::arithmetic::div_mod::lemma_div_pos_is_pos(remaining - e, e as int);
                    lemma_prev_slot(o0, j as int, c as int);
                }
                let idx = self.data.offset_of_last;
                let ghost dev_a = storage.contents();
                proof {
                    self.lemma_same_layout_slots(old(self), dev_a);
                }
                if let Err(err) = self.write_slot(storage, idx, 0) {
                    return Err(err);
                }
                proof {
                    self.lemma_same_layout_slots(old(self), storage.contents());
                    old(self).lemma_same_outside_trans(dev0, dev_a, storage.contents());
                    assert(zeros_back(sl0, o0, j + 1, c as int) == zeros_back(
                        sl0,
                        o0,
                        j,
                        c as int,
                    ).update((o0 - j) % (c as int), 0));
                }
                if idx == self.data.size - 1 {
                    self.data.size = self.data.size - 1;
                }
                if idx == 0 {
                    self.data.offset_of_last = c - 1;
                } else {
                    self.data.offset_of_last = idx - 1;
                }
                remaining = remaining - e;
                proof {
                    j = j + 1;
                }
            }
            proof {
                vstd::arithmetic::div_mod::lemma_basic_div(remaining as int, e as int);
            }
            let idx = self.data.offset_of_last;
            let ghost dev_a = storage.contents();
            proof {
                self.lemma_same_layout_slots(old(self), dev_a);
            }
            if let Err(err) = self.write_slot(storage, idx, val) {
                return Err(err);
            }
            let ghost dev_b = storage.contents();
            self.data.time_of_last = q;
            let ghost before = *self;
            let r = self.persist(storage);
            proof {
                if r is Ok {
                    before.lemma_same_layout_slots(old(self), dev_b);
                    before.lemma_same_layout_slots(old(self), storage.contents());
                    old(self).lemma_same_outside_trans(dev0, dev_a, dev_b);
                    old(self).lemma_same_outside_trans(dev0, dev_b, storage.contents());
                }
            }
            r
        }
    }

    /// An empty ring of this shape, with nothing read from the device.
    pub fn new_empty(offset: u32, capacity: u32, element_size: u32) -> (r: RingStorage)
        requires
            layout_ok(offset, capacity, element_size),
        ensures
            r.wf(),
            r.hdr() == (ServiceData { size: 0, offset_of_last: 0, time_of_last: 0, crc: 0 }),
            r.spec_offset() == offset,
            r.spec_capacity() == capacity,
            r.spec_element_size() == element_size,
    {
        RingStorage { data: ServiceData::new(), offset, capacity, element_size }
    }

    /// Number of slots.
    pub fn capacity(&self) -> (r: u32)
        ensures
            r == self.spec_capacity(),
    {
        self.capacity
    }

    /// Seconds per bucket.
    pub fn element_size(&self) -> (r: u32)
        ensures
            r == self.spec_element_size(),
    {
        self.element_size
    }

    /// Bytes the ring occupies on the device; the next ring starts this far
    /// past this one.
    pub fn size_on_flash(&self) -> (r: u32)
        requires
            self.wf(),
        ensures
            r == spec_size_on_flash(self.spec_capacity()),
    {
        4 + 4 * self.capacity + HEADER_LEN as u32 + 2
    }

    /// Number of valid buckets.
    pub fn size(&self) -> (r: u32)
        ensures
            r == self.hdr().size,
    {
        self.data.size
    }

    /// Device address of slot `index`.
    pub fn offset(&self, index: u32) -> (r: u32)
        requires
            self.wf(),
            index < self.spec_capacity(),
        ensures
            r == self.slot_addr(index as int),
    {
        OFFSET_OF_STAT_PAGE + self.offset + FIRST_SLOT_AT + 4 * index
    }

    /// Moves the most recent slot one step forward, wrapping to slot 0.
    pub fn advance_offset_by_one(&mut self)
        requires
            old(self).wf(),
        ensures
            final(self).wf(),
            final(self).hdr() == (ServiceData {
                offset_of_last: ((old(self).hdr().offset_of_last + 1) % (old(self).spec_capacity() as int)) as u32,
                ..old(self).hdr()
            }),
            final(self).same_layout(old(self)),
    {
        proof {
            lemma_next_slot(self.data.offset_of_last as int, self.capacity as int);
        }
        if self.data.offset_of_last + 1 == self.capacity {
            self.data.offset_of_last = 0;
        } else {
            self.data.offset_of_last = self.data.offset_of_last + 1;
        }
    }

    /// Slot of the most recent bucket.
    pub fn offset_of_last(&self) -> (r: u32)
        ensures
            r == self.hdr().offset_of_last,
    {
        self.data.offset_of_last
    }

    /// Bucket time of the most recent bucket.
    pub fn last_stored_timestamp(&self) -> (r: u32)
        ensures
            r == self.hdr().time_of_last,
    {
        self.data.time_of_last
    }

    /// Bucket time of the oldest bucket, `time_of_last - element_size *
    /// (size - 1)`, or 0 where that would be negative; `time_of_last` when
    /// the ring is empty.
    pub open spec fn spec_first_stored(&self) -> u32 {
        if self.hdr().size == 0 {
            self.hdr().time_of_last
        } else if self.hdr().time_of_last >= self.spec_element_size() * (self.hdr().size - 1) {
            (self.hdr().time_of_last - self.spec_element_size() * (self.hdr().size - 1)) as u32
        } else {
            0
        }
    }

    /// Bucket time of the oldest bucket (see `spec_first_stored`).
    pub fn first_stored_timestamp(&self) -> (r: u32)
        ensures
            r == self.spec_first_stored(),
    {
        if self.data.size == 0 {
            return self.data.time_of_last;
        }
        proof {
            lemma_mul_u32_fits(self.element_size, (self.data.size - 1) as u32);
        }
        let span = (self.element_size as u64) * ((self.data.size - 1) as u64);
        if (self.data.time_of_last as u64) >= span {
            (self.data.time_of_last as u64 - span) as u32
        } else {
            0
        }
    }
}

/// A header as `add` persists it, sealed with its checksum, reads back as
/// itself and is accepted: reopening a ring with `new` finds the state that
/// the last successful `add` left.
pub proof fn lemma_header_round_trip(h: ServiceData, capacity: u32)
    requires
        h.offset_of_last < capacity,
        h.size <= capacity,
    ensures
        ServiceData::decoded(h.sealed().encoded()) == h.sealed(),
        header_accepted(h.sealed().encoded(), capacity),
{
    let s = h.sealed();
    let b = s.encoded();
    lemma_u32_bytes(s.size);
    lemma_u32_bytes(s.offset_of_last);
    lemma_u32_bytes(s.time_of_last);
    lemma_u16_bytes(s.crc);
    assert(b.subrange(0, 12) =~= s.body());
    assert(le_u32(b, 0) == s.size);
    assert(le_u32(b, 4) == s.offset_of_last);
    assert(le_u32(b, 8) == s.time_of_last);
    assert(le_u16(b, 12) == s.crc);
}

/// Slots of the hour ring.
pub const HOUR_CAPACITY: u32 = 2160;

/// Seconds per bucket of the hour ring.
pub const HOUR_SECONDS: u32 = 3600;

/// Slots of the day ring.
pub const DAY_CAPACITY: u32 = 1116;

/// Seconds per bucket of the day ring.
pub const DAY_SECONDS: u32 = 86400;

/// Slots of the month ring.
pub const MONTH_CAPACITY: u32 = 120;

/// Seconds per bucket of the month ring.
pub const MONTH_SECONDS: u32 = 2678400;

/// Reads the hour, day and month rings, placed one right after the other
/// from the stat page on, so that no two regions overlap.
pub fn open_histories<S: ByteStorage>(storage: &mut S) -> (r: Result<
    (RingStorage, RingStorage, RingStorage),
    Error,
>)
    ensures
        final(storage).contents() == old(storage).contents(),
        r is Ok ==> ({
            let (h, d, m) = r->Ok_0;
            &&& h.wf() && d.wf() && m.wf()
            &&& h.spec_offset() == 0 && h.spec_capacity() == HOUR_CAPACITY
                && h.spec_element_size() == HOUR_SECONDS
            &&& d.spec_capacity() == DAY_CAPACITY && d.spec_element_size() == DAY_SECONDS
            &&& m.spec_capacity() == MONTH_CAPACITY && m.spec_element_size() == MONTH_SECONDS
            &&& h.region_end() == d.base()
            &&& d.region_end() == m.base()
        }),
        r is Err ==> r->Err_0 == Error::Storage,
        final(storage).reliable() == old(storage).reliable(),
        old(storage).reliable() && OFFSET_OF_STAT_PAGE + spec_size_on_flash(HOUR_CAPACITY)
            + spec_size_on_flash(DAY_CAPACITY) + spec_size_on_flash(MONTH_CAPACITY) <= old(
            storage,
        ).contents().len() ==> r is Ok,
{
    let hour = RingStorage::new(storage, 0, HOUR_CAPACITY, HOUR_SECONDS)?;
    let day_at = hour.size_on_flash();
    let day = RingStorage::new(storage, day_at, DAY_CAPACITY, DAY_SECONDS)?;
    let month_at = day_at + day.size_on_flash();
    let month = RingStorage::new(storage, month_at, MONTH_CAPACITY, MONTH_SECONDS)?;
    Ok((hour, day, month))
}

proof fn lemma_u32_bytes_i32(v: i32)
    ensures
        ({
            let w = v as u32;
            ((((w & 0xff) as u8) as u32) | (((((w >> 8u32) & 0xff) as u8) as u32) << 8u32) | (((((w
                >> 16u32) & 0xff) as u8) as u32) << 16u32) | (((((w >> 24u32) & 0xff) as u8) as u32)
                << 24u32)) as i32 == v
        }),
{
    let w = v as u32;
    assert(((((w & 0xff) as u8) as u32) | (((((w >> 8u32) & 0xff) as u8) as u32) << 8u32) | (((((w
        >> 16u32) & 0xff) as u8) as u32) << 16u32) | (((((w >> 24u32) & 0xff) as u8) as u32)
        << 24u32)) == w) by (bit_vector);
    assert((w as i32) == v) by (bit_vector)
        requires
            w == v as u32,
    ;
}

/// Rounding down to whole minutes commutes with moving by whole buckets
/// when a bucket is a whole number of minutes.
pub proof fn lemma_quantize_shift(t: u32, k: nat, e: u32)
    requires
        e % QUANTUM == 0,
        t + k * e <= u32::MAX,
    ensures
        quantize((t + k * e) as u32) == quantize(t) + k * e,
{
    let m = (e / QUANTUM) as int;
    vstd::arithmetic::div_mod::lemma_fundamental_div_mod(e as int, QUANTUM as int);
    assert(k * e == (k * m) * 60) by (nonlinear_arith)
        requires
            e == 60 * m,
    ;
    vstd::arithmetic::div_mod::lemma_mod_multiples_vanish(k * m, t as int, 60);
    vstd::arithmetic::div_mod::lemma_mod_bound(t as int, 60);
}

/// In a ring whose most recent bucket is `k` back from time `q` and `k` is
/// below the size, `q` finds the slot `k` before the most recent one.
pub proof fn lemma_lookup_back(h: ServiceData, sl: Seq<i32>, c: u32, e: u32, q: u32, k: nat)
    requires
        e >= 1,
        h.time_of_last == q + k * e,
        k < h.size,
    ensures
        lookup_in(h, sl, c, e, q) == Some(sl[(h.offset_of_last - k) % (c as int)]),
{
    vstd::arithmetic::div_mod::lemma_mod_multiples_basic(k as int, e as int);
    vstd::arithmetic::div_mod::lemma_div_multiples_vanish(k as int, e as int);
    assert(k * e == e * k) by (nonlinear_arith);
}

/// Two values added to an empty ring one bucket apart are each found at
/// their own bucket time (on a reliable device `add` and `find` succeed, and
/// their results are `add_result` and `lookup_in`).
pub proof fn lemma_adjacent_buckets(
    h: ServiceData,
    sl: Seq<i32>,
    c: u32,
    e: u32,
    v: i32,
    w: i32,
    t0: u32,
)
    requires
        h.size == 0,
        sl.len() == c,
        c >= 2,
        e >= 1,
        e % QUANTUM == 0,
        t0 + e <= u32::MAX,
    ensures
        ({
            let first = add_result(h, sl, c, e, v, quantize(t0));
            let second = add_result(first.0, first.1, c, e, w, quantize((t0 + e) as u32));
            &&& lookup_in(second.0, second.1, c, e, quantize(t0)) == Some(v)
            &&& lookup_in(second.0, second.1, c, e, quantize((t0 + e) as u32)) == Some(w)
        }),
{
    let q0 = quantize(t0);
    lemma_quantize_shift(t0, 1, e);
    let q1 = quantize((t0 + e) as u32);
    assert(q1 == q0 + e);
    let first = add_result(h, sl, c, e, v, q0);
    vstd::arithmetic::div_mod::lemma_div_by_self(e as int);
    assert(steps_forward(e as nat, e as nat) == 1);
    vstd::arithmetic::div_mod::lemma_small_mod(1, c as nat);
    vstd::arithmetic::div_mod::lemma_small_mod(0, c as nat);
    let second = add_result(first.0, first.1, c, e, w, q1);
    assert(second.0.size == 2);
    assert(second.0.offset_of_last == 1);
    assert(second.1 == sl.update(0, v).update(1, w));
    lemma_lookup_back(second.0, second.1, c, e, q0, 1);
    lemma_lookup_back(second.0, second.1, c, e, q1, 0);
}

/// Adding to an empty ring and then five buckets later leaves zeros in the
/// four buckets between and the second value in its own bucket.
pub proof fn lemma_gap_filled_with_zeros(
    h: ServiceData,
    sl: Seq<i32>,
    c: u32,
    e: u32,
    v: i32,
    w: i32,
    t0: u32,
)
    requires
        h.size == 0,
        sl.len() == c,
        c >= 6,
        e >= 1,
        e % QUANTUM == 0,
        t0 + 5 * e <= u32::MAX,
    ensures
        ({
            let first = add_result(h, sl, c, e, v, quantize(t0));
            let second = add_result(first.0, first.1, c, e, w, quantize((t0 + 5 * e) as u32));
            &&& forall|k: nat|
                1 <= k <= 4 ==> lookup_in(second.0, second.1, c, e, #[trigger] quantize(
                    (t0 + k * e) as u32,
                )) == Some(0i32)
            &&& lookup_in(second.0, second.1, c, e, quantize((t0 + 5 * e) as u32)) == Some(w)
        }),
{
    let q0 = quantize(t0);
    lemma_quantize_shift(t0, 5, e);
    let q5 = quantize((t0 + 5 * e) as u32);
    let first = add_result(h, sl, c, e, v, q0);
    let d = (q5 - q0) as nat;
    assert(d == 5 * e);
    vstd::arithmetic::div_mod::lemma_div_multiples_vanish(5, e as int);
    assert(5 * e == e * 5) by (nonlinear_arith);
    reveal_with_fuel(steps_forward, 6);
    assert(steps_forward(d, e as nat) == 5);
    reveal_with_fuel(zeros_after, 5);
    vstd::arithmetic::div_mod::lemma_small_mod(5, c as nat);
    let second = add_result(first.0, first.1, c, e, w, q5);
    assert(second.0.size == 6);
    assert(second.0.offset_of_last == 5);
    assert forall|k: nat| 1 <= k <= 4 implies lookup_in(
        second.0,
        second.1,
        c,
        e,
        #[trigger] quantize((t0 + k * e) as u32),
    ) == Some(0i32) by {
        lemma_quantize_shift(t0, k, e);
        assert(k * e <= 5 * e) by (nonlinear_arith)
            requires
                k <= 4,
        ;
        assert(q5 == quantize((t0 + k * e) as u32) + (5 - k) * e) by (nonlinear_arith)
            requires
                q5 == q0 + 5 * e,
                quantize((t0 + k * e) as u32) == q0 + k * e,
        ;
        lemma_lookup_back(second.0, second.1, c, e, quantize((t0 + k * e) as u32), (5 - k) as nat);
        vstd::arithmetic::div_mod::lemma_small_mod(k, c as nat);
        assert((5 - (5 - k)) == k);
    }
    lemma_lookup_back(second.0, second.1, c, e, q5, 0);
}

/// One step past a slot taken modulo `c`.
proof fn lemma_mod_succ(x: int, c: int)
    requires
        x >= 0,
        c > 0,
    ensures
        (x + 1) % c == if x % c + 1 == c {
            0
        } else {
            x % c + 1
        },
{
    vstd::arithmetic::div_mod::lemma_mod_bound(x, c);
    vstd::arithmetic::div_mod::lemma_add_mod_noop_right(1, x, c);
    lemma_next_slot(x % c, c);
}

/// Stepping back from slot 0 wraps to the last slot.
proof fn lemma_prev_slot(o: int, k: int, c: int)
    requires
        0 <= o < c,
    ensures
        (o - (k + 1)) % c == if (o - k) % c == 0 {
            c - 1
        } else {
            (o - k) % c - 1
        },
{
    let a = o - k;
    let x = a % c;
    vstd::arithmetic::div_mod::lemma_fundamental_div_mod(a, c);
    vstd::arithmetic::div_mod::lemma_mod_bound(a, c);
    if x == 0 {
        assert(a - 1 == (a / c - 1) * c + (c - 1)) by (nonlinear_arith)
            requires
                a == c * (a / c) + x,
                x == 0,
        ;
        vstd::arithmetic::div_mod::lemma_fundamental_div_mod_converse(a - 1, c, a / c - 1, c - 1);
    } else {
        assert(a - 1 == (a / c) * c + (x - 1)) by (nonlinear_arith)
            requires
                a == c * (a / c) + x,
        ;
        vstd::arithmetic::div_mod::lemma_fundamental_div_mod_converse(a - 1, c, a / c, x - 1);
    }
}

/// Stepping past the last slot wraps to slot 0.
proof fn lemma_next_slot(o: int, c: int)
    requires
        0 <= o < c,
    ensures
        (o + 1) % c == if o + 1 == c {
            0
        } else {
            o + 1
        },
{
    if o + 1 == c {
        vstd::arithmetic::div_mod::lemma_mod_self_0(c);
    } else {
        vstd::arithmetic::div_mod::lemma_small_mod((o + 1) as nat, c as nat);
    }
}

proof fn lemma_mul_u32_fits(a: u32, b: u32)
    ensures
        (a as int) * (b as int) <= u64::MAX,
{
    assert((a as int) * (b as int) <= u64::MAX) by (nonlinear_arith)
        requires
            a <= u32::MAX,
            b <= u32::MAX,
    ;
}

} // verus!
