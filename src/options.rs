//! The configuration record: a fixed 111-byte little-endian layout, kept in
//! two redundant CRC-checked 1024-byte pages at the start of the device.
use vstd::prelude::*;

use crate::checksum::{ccitt_false, ccitt_false_of};
use crate::storage::{splice, ByteStorage};

verus! {

/// Length of the packed record in bytes.
pub const RECORD_LEN: usize = 111;

/// Length of one stored page; the record is followed by zero bytes.
pub const PAGE_SIZE: usize = 1024;

/// Device offset of the primary page.
pub const OFFSET_PRIMARY: u32 = 0;

/// Device offset of the secondary page.
pub const OFFSET_SECONDARY: u32 = 1024;

/// Byte offset of the `crc` field.
pub const CRC_AT: usize = 0;

/// Byte offset of the `serial_number` field.
pub const SERIAL_NUMBER_AT: usize = 2;

/// Byte offset of the `sensor_type` field.
pub const SENSOR_TYPE_AT: usize = 6;

/// Byte offset of the `tdc1000_regs` field.
pub const TDC1000_REGS_AT: usize = 7;

/// Byte offset of the `tdc7200_regs` field.
pub const TDC7200_REGS_AT: usize = 17;

/// Byte offset of the `zero1` field.
pub const ZERO1_AT: usize = 27;

/// Byte offset of the `zero2` field.
pub const ZERO2_AT: usize = 31;

/// Byte offset of the `v11` field.
pub const V11_AT: usize = 35;

/// Byte offset of the `v12` field.
pub const V12_AT: usize = 39;

/// Byte offset of the `v13` field.
pub const V13_AT: usize = 43;

/// Byte offset of the `v21` field.
pub const V21_AT: usize = 47;

/// Byte offset of the `v22` field.
pub const V22_AT: usize = 51;

/// Byte offset of the `v23` field.
pub const V23_AT: usize = 55;

/// Byte offset of the `k11` field.
pub const K11_AT: usize = 59;

/// Byte offset of the `k12` field.
pub const K12_AT: usize = 63;

/// Byte offset of the `k13` field.
pub const K13_AT: usize = 67;

/// Byte offset of the `k21` field.
pub const K21_AT: usize = 71;

/// Byte offset of the `k22` field.
pub const K22_AT: usize = 75;

/// Byte offset of the `k23` field.
pub const K23_AT: usize = 79;

/// Byte offset of the `uptime` field.
pub const UPTIME_AT: usize = 83;

/// Byte offset of the `total` field.
pub const TOTAL_AT: usize = 87;

/// Byte offset of the `hour_total` field.
pub const HOUR_TOTAL_AT: usize = 91;

/// Byte offset of the `day_total` field.
pub const DAY_TOTAL_AT: usize = 95;

/// Byte offset of the `month_total` field.
pub const MONTH_TOTAL_AT: usize = 99;

/// Byte offset of the `rest` field.
pub const REST_AT: usize = 103;

/// Byte offset of the `enable_negative` field.
pub const ENABLE_NEGATIVE_AT: usize = 107;

/// Byte offset of the `slave_address` field.
pub const SLAVE_ADDRESS_AT: usize = 108;

/// Byte offset of the `comm_type` field.
pub const COMM_TYPE_AT: usize = 109;

/// Byte offset of the `modbus_mode` field.
pub const MODBUS_MODE_AT: usize = 110;

/// Why the record could not be loaded or saved.
#[derive(Debug, Clone, Copy, PartialEq, Eq, Structural)]
pub enum Error {
    /// A transfer to or from the device failed.
    Storage,
    /// Neither page holds a record whose checksum matches.
    WrongCrc,
}

/// The byte at `at`.
pub open spec fn le_u8(s: Seq<u8>, at: int) -> u8 {
    s[at]
}

/// The little-endian 16-bit value at `at`.
pub open spec fn le_u16(s: Seq<u8>, at: int) -> u16 {
    (s[at] as u16) | ((s[at + 1] as u16) << 8u16)
}

/// The little-endian 32-bit value at `at`.
pub open spec fn le_u32(s: Seq<u8>, at: int) -> u32 {
    (s[at] as u32) | ((s[at + 1] as u32) << 8u32) | ((s[at + 2] as u32) << 16u32) | ((s[at
        + 3] as u32) << 24u32)
}

/// The little-endian 64-bit value at `at`.
pub open spec fn le_u64(s: Seq<u8>, at: int) -> u64 {
    (le_u32(s, at) as u64) | ((le_u32(s, at + 4) as u64) << 32u64)
}

/// The little-endian 80-bit value at `at`.
pub open spec fn le_u80(s: Seq<u8>, at: int) -> u128 {
    (le_u64(s, at) as u128) | ((le_u16(s, at + 8) as u128) << 64u128)
}

/// `s` with the byte at `at` replaced by `v`.
pub open spec fn put_le_u8(s: Seq<u8>, at: int, v: u8) -> Seq<u8> {
    s.update(at, v)
}

/// `s` with the two bytes from `at` replaced by `v`, least significant first.
pub open spec fn put_le_u16(s: Seq<u8>, at: int, v: u16) -> Seq<u8> {
    s.update(at, (v & 0xff) as u8).update(at + 1, ((v >> 8u16) & 0xff) as u8)
}

/// `s` with the four bytes from `at` replaced by `v`, least significant first.
pub open spec fn put_le_u32(s: Seq<u8>, at: int, v: u32) -> Seq<u8> {
    s.update(at, (v & 0xff) as u8).update(at + 1, ((v >> 8u32) & 0xff) as u8).update(
        at + 2,
        ((v >> 16u32) & 0xff) as u8,
    ).update(at + 3, ((v >> 24u32) & 0xff) as u8)
}

/// `s` with the ten bytes from `at` replaced by `v`, least significant first.
pub open spec fn put_le_u80(s: Seq<u8>, at: int, v: u128) -> Seq<u8> {
    put_le_u16(
        put_le_u32(put_le_u32(s, at, (v & 0xffff_ffff) as u32), at + 4, ((v >> 32u128) & 0xffff_ffff) as u32),
        at + 8,
        ((v >> 64u128) & 0xffff) as u16,
    )
}

/// The page image of a record: its bytes followed by zeros up to the page size.
pub open spec fn page_image(record: Seq<u8>) -> Seq<u8> {
    record + Seq::new((PAGE_SIZE - RECORD_LEN) as nat, |_i: int| 0u8)
}

/// The checksum that a page must carry: over every byte but the first two.
pub open spec fn page_checksum(page: Seq<u8>) -> u16 {
    ccitt_false_of(page.subrange(2, PAGE_SIZE as int))
}

/// A page whose leading checksum matches the rest of it.
pub open spec fn page_valid(page: Seq<u8>) -> bool {
    le_u16(page, 0) == page_checksum(page)
}

/// A record with its checksum field set to the checksum of its page image.
pub open spec fn sealed(record: Seq<u8>) -> Seq<u8> {
    put_le_u16(record, CRC_AT as int, page_checksum(page_image(record)))
}

/// The primary page of a device.
pub open spec fn primary_page(dev: Seq<u8>) -> Seq<u8> {
    dev.subrange(OFFSET_PRIMARY as int, OFFSET_PRIMARY + PAGE_SIZE)
}

/// The secondary page of a device.
pub open spec fn secondary_page(dev: Seq<u8>) -> Seq<u8> {
    dev.subrange(OFFSET_SECONDARY as int, OFFSET_SECONDARY + PAGE_SIZE)
}

/// What `load` finds on a device whose both pages can be read: the primary
/// record if its page is valid, else the secondary record if that page is
/// valid, else nothing.
pub open spec fn stored_record(dev: Seq<u8>) -> Option<Seq<u8>> {
    if page_valid(primary_page(dev)) {
        Some(primary_page(dev).subrange(0, RECORD_LEN as int))
    } else if page_valid(secondary_page(dev)) {
        Some(secondary_page(dev).subrange(0, RECORD_LEN as int))
    } else {
        None
    }
}

/// The configuration record of the meter.
#[derive(Debug, Clone, Copy)]
pub struct Options {
    bytes: [u8; RECORD_LEN],
}

impl View for Options {
    type V = Seq<u8>;

    closed spec fn view(&self) -> Seq<u8> {
        self.bytes@
    }
}

impl Options {
    /// The record with every field zero.
    pub fn new() -> (r: Options)
        ensures
            r@ == Seq::new(RECORD_LEN as nat, |_i: int| 0u8),
    {
        let r = Options { bytes: [0u8; RECORD_LEN] };
        assert(r@ =~= Seq::new(RECORD_LEN as nat, |_i: int| 0u8));
        r
    }

    /// The record with every field zero, for a device never configured.
    pub fn default() -> (r: Options)
        ensures
            r@ == Seq::new(RECORD_LEN as nat, |_i: int| 0u8),
    {
        Options::new()
    }

    /// Every record is exactly `RECORD_LEN` bytes long.
    pub proof fn lemma_len(&self)
        ensures
            self@.len() == RECORD_LEN,
    {
    }

    /// The packed bytes of the record.
    pub fn into_bytes(&self) -> (r: [u8; RECORD_LEN])
        ensures
            r@ == self@,
    {
        self.bytes
    }

    /// The record whose packed bytes are `bytes`.
    pub fn from_bytes(bytes: [u8; RECORD_LEN]) -> (r: Options)
        ensures
            r@ == bytes@,
    {
        Options { bytes }
    }

    /// The record held in the first `RECORD_LEN` bytes of `page`, provided the
    /// checksum that the page carries equals `computed`, the checksum of the
    /// rest of the page.
    pub fn decode_page(page: &[u8], computed: u16) -> (r: Option<Options>)
        requires
            page@.len() >= RECORD_LEN,
        ensures
            r is Some <==> le_u16(page@, 0) == computed,
            r is Some ==> r->Some_0@ == page@.subrange(0, RECORD_LEN as int),
    {
        let stored = (page[0] as u16) | ((page[1] as u16) << 8u16);
        if stored != computed {
            return None;
        }
        let mut bytes = [0u8; RECORD_LEN];
        let mut i: usize = 0;
        while i < RECORD_LEN
            invariant
                i <= RECORD_LEN,
                page@.len() >= RECORD_LEN,
                bytes@.len() == RECORD_LEN,
                forall|j: int| 0 <= j < i ==> bytes@[j] == page@[j],
            decreases RECORD_LEN - i,
        {
            bytes.set(i, page[i]);
            i = i + 1;
        }
        assert(bytes@ =~= page@.subrange(0, RECORD_LEN as int));
        Some(Options { bytes })
    }

    /// The page image of the record: its bytes followed by zeros.
    fn page(&self) -> (r: Vec<u8>)
        ensures
            r@ == page_image(self@),
    {
        let mut data: Vec<u8> = Vec::new();
        let mut i: usize = 0;
        while i < PAGE_SIZE
            invariant
                i <= PAGE_SIZE,
                data@.len() == i,
                forall|j: int| 0 <= j < i ==> data@[j] == page_image(self@)[j],
            decreases PAGE_SIZE - i,
        {
            if i < RECORD_LEN {
                data.push(self.bytes[i]);
            } else {
                data.push(0u8);
            }
            i = i + 1;
        }
        assert(data@ =~= page_image(self@));
        data
    }

    /// Reads the record from the primary page, or from the secondary page
    /// when the primary one fails its checksum. The device is not changed.
    pub fn load<S: ByteStorage>(storage: &mut S) -> (r: Result<Options, Error>)
        ensures
            final(storage).contents() == old(storage).contents(),
            r is Ok ==> old(storage).contents().len() >= PAGE_SIZE && stored_record(
                old(storage).contents(),
            ) == Some(r->Ok_0@),
            r is Err && r->Err_0 == Error::WrongCrc ==> old(storage).contents().len() >= 2
                * PAGE_SIZE && stored_record(old(storage).contents()) is None,
            old(storage).reliable() && old(storage).contents().len() >= 2 * PAGE_SIZE ==> match
            stored_record(old(storage).contents()) {
                Some(rec) => r is Ok && r->Ok_0@ == rec,
                None => r is Err && r->Err_0 == Error::WrongCrc,
            },
    {
        let ghost dev = storage.contents();
        let page = match storage.read(OFFSET_PRIMARY, PAGE_SIZE) {
            Ok(p) => p,
            Err(_) => return Err(Error::Storage),
        };
        assert(page@ == primary_page(dev));
        let crc = ccitt_false(vstd::slice::slice_subrange(page.as_slice(), 2, PAGE_SIZE));
        if let Some(opt) = Options::decode_page(page.as_slice(), crc) {
            return Ok(opt);
        }
        let page = match storage.read(OFFSET_SECONDARY, PAGE_SIZE) {
            Ok(p) => p,
            Err(_) => return Err(Error::Storage),
        };
        assert(page@ == secondary_page(dev));
        let crc = ccitt_false(vstd::slice::slice_subrange(page.as_slice(), 2, PAGE_SIZE));
        match Options::decode_page(page.as_slice(), crc) {
            Some(opt) => Ok(opt),
            None => Err(Error::WrongCrc),
        }
    }

    /// Seals the record with the checksum of its page image, then writes that
    /// page to the primary and then to the secondary offset. The record is
    /// sealed whether or not the writes succeed.
    pub fn save<S: ByteStorage>(&mut self, storage: &mut S) -> (r: Result<(), Error>)
        ensures
            final(self)@ == sealed(old(self)@),
            r is Ok ==> final(storage).contents() == splice(
                splice(old(storage).contents(), OFFSET_PRIMARY as int, page_image(final(self)@)),
                OFFSET_SECONDARY as int,
                page_image(final(self)@),
            ),
            r is Err ==> r->Err_0 == Error::Storage,
            r is Err ==> (forall|k: int|
                OFFSET_SECONDARY <= k < OFFSET_SECONDARY + PAGE_SIZE && k < old(
                    storage,
                ).contents().len() ==> #[trigger] final(storage).contents()[k] == old(
                    storage,
                ).contents()[k]) || (final(storage).contents().len() >= PAGE_SIZE && primary_page(
                final(storage).contents(),
            ) == page_image(final(self)@)),
            old(storage).reliable() && old(storage).contents().len() >= 2 * PAGE_SIZE ==> r is Ok,
            r is Ok ==> old(storage).contents().len() >= 2 * PAGE_SIZE,
            final(storage).reliable() == old(storage).reliable(),
            final(storage).contents().len() == old(storage).contents().len(),
    {
        let mut data = self.page();
        let crc = ccitt_false(vstd::slice::slice_subrange(data.as_slice(), 2, PAGE_SIZE));
        let ghost before = self@;
        self.set_crc(crc);
        data.set(0, (crc & 0xff) as u8);
        data.set(1, ((crc >> 8u16) & 0xff) as u8);
        assert(data@ =~= page_image(self@));
        let ghost dev0 = storage.contents();
        if storage.write(OFFSET_PRIMARY, data.as_slice()).is_err() {
            return Err(Error::Storage);
        }
        let ghost dev1 = storage.contents();
        if storage.write(OFFSET_SECONDARY, data.as_slice()).is_err() {
            proof {
                let dev2 = storage.contents();
                assert forall|k: int| 0 <= k < PAGE_SIZE implies #[trigger] primary_page(dev2)[k]
                    == page_image(self@)[k] by {
                    assert(dev2[k] == dev1[k]);
                }
                assert(primary_page(dev2) =~= page_image(self@));
            }
            return Err(Error::Storage);
        }
        Ok(())
    }

    fn u8_at(&self, at: usize) -> (r: u8)
        requires
            at < RECORD_LEN,
        ensures
            r == le_u8(self@, at as int),
    {
        self.bytes[at]
    }

    fn u16_at(&self, at: usize) -> (r: u16)
        requires
            at + 2 <= RECORD_LEN,
        ensures
            r == le_u16(self@, at as int),
    {
        (self.bytes[at] as u16) | ((self.bytes[at + 1] as u16) << 8u16)
    }

    fn u32_at(&self, at: usize) -> (r: u32)
        requires
            at + 4 <= RECORD_LEN,
        ensures
            r == le_u32(self@, at as int),
    {
        (self.bytes[at] as u32) | ((self.bytes[at + 1] as u32) << 8u32) | ((self.bytes[at
            + 2] as u32) << 16u32) | ((self.bytes[at + 3] as u32) << 24u32)
    }

    fn u80_at(&self, at: usize) -> (r: u128)
        requires
            at + 10 <= RECORD_LEN,
        ensures
            r == le_u80(self@, at as int),
    {
        let lo = (self.u32_at(at) as u64) | ((self.u32_at(at + 4) as u64) << 32u64);
        (lo as u128) | ((self.u16_at(at + 8) as u128) << 64u128)
    }

    fn set_u8_at(&mut self, at: usize, v: u8)
        requires
            at < RECORD_LEN,
        ensures
            final(self)@ == put_le_u8(old(self)@, at as int, v),
            le_u8(final(self)@, at as int) == v,
    {
        self.bytes.set(at, v);
    }

    fn set_u16_at(&mut self, at: usize, v: u16)
        requires
            at + 2 <= RECORD_LEN,
        ensures
            final(self)@ == put_le_u16(old(self)@, at as int, v),
            le_u16(final(self)@, at as int) == v,
    {
        self.bytes.set(at, (v & 0xff) as u8);
        self.bytes.set(at + 1, ((v >> 8u16) & 0xff) as u8);
        proof {
            lemma_u16_bytes(v);
        }
    }

    fn set_u32_at(&mut self, at: usize, v: u32)
        requires
            at + 4 <= RECORD_LEN,
        ensures
            final(self)@ == put_le_u32(old(self)@, at as int, v),
            le_u32(final(self)@, at as int) == v,
    {
        self.bytes.set(at, (v & 0xff) as u8);
        self.bytes.set(at + 1, ((v >> 8u32) & 0xff) as u8);
        self.bytes.set(at + 2, ((v >> 16u32) & 0xff) as u8);
        self.bytes.set(at + 3, ((v >> 24u32) & 0xff) as u8);
        proof {
            lemma_u32_bytes(v);
        }
    }

    fn set_u80_at(&mut self, at: usize, v: u128)
        requires
            at + 10 <= RECORD_LEN,
            v < 0x1_0000_0000_0000_0000_0000u128,
        ensures
            final(self)@ == put_le_u80(old(self)@, at as int, v),
            le_u80(final(self)@, at as int) == v,
    {
        let lo = (v & 0xffff_ffff) as u32;
        let mid = ((v >> 32u128) & 0xffff_ffff) as u32;
        let hi = ((v >> 64u128) & 0xffff) as u16;
        self.set_u32_at(at, lo);
        self.set_u32_at(at + 4, mid);
        self.set_u16_at(at + 8, hi);
        proof {
            assert(le_u32(self@, at as int) == lo);
            assert(le_u32(self@, at + 4) == mid);
            assert(le_u16(self@, at + 8) == hi);
            lemma_u80_parts(v);
        }
    }

    /// The checksum stored in the record.
    pub fn crc(&self) -> (r: u16)
        ensures
            r == le_u16(self@, CRC_AT as int),
    {
        self.u16_at(CRC_AT)
    }

    /// Replaces the checksum stored in the record.
    pub fn set_crc(&mut self, v: u16)
        ensures
            final(self)@ == put_le_u16(old(self)@, CRC_AT as int, v),
            le_u16(final(self)@, CRC_AT as int) == v,
    {
        self.set_u16_at(CRC_AT, v)
    }

    /// The device's serial number.
    pub fn serial_number(&self) -> (r: u32)
        ensures
            r == le_u32(self@, SERIAL_NUMBER_AT as int),
    {
        self.u32_at(SERIAL_NUMBER_AT)
    }

    /// Replaces the device's serial number.
    pub fn set_serial_number(&mut self, v: u32)
        ensures
            final(self)@ == put_le_u32(old(self)@, SERIAL_NUMBER_AT as int, v),
            le_u32(final(self)@, SERIAL_NUMBER_AT as int) == v,
    {
        self.set_u32_at(SERIAL_NUMBER_AT, v)
    }

    /// The kind of sensor fitted.
    pub fn sensor_type(&self) -> (r: u8)
        ensures
            r == le_u8(self@, SENSOR_TYPE_AT as int),
    {
        self.u8_at(SENSOR_TYPE_AT)
    }

    /// Replaces the kind of sensor fitted.
    pub fn set_sensor_type(&mut self, v: u8)
        ensures
            final(self)@ == put_le_u8(old(self)@, SENSOR_TYPE_AT as int, v),
            le_u8(final(self)@, SENSOR_TYPE_AT as int) == v,
    {
        self.set_u8_at(SENSOR_TYPE_AT, v)
    }

    /// The opaque register preset of the TDC1000 front end (80 bits).
    pub fn tdc1000_regs(&self) -> (r: u128)
        ensures
            r == le_u80(self@, TDC1000_REGS_AT as int),
    {
        self.u80_at(TDC1000_REGS_AT)
    }

    /// Replaces the opaque register preset of the TDC1000 front end (80 bits).
    pub fn set_tdc1000_regs(&mut self, v: u128)
        requires
            v < 0x1_0000_0000_0000_0000_0000u128,
        ensures
            final(self)@ == put_le_u80(old(self)@, TDC1000_REGS_AT as int, v),
            le_u80(final(self)@, TDC1000_REGS_AT as int) == v,
    {
        self.set_u80_at(TDC1000_REGS_AT, v)
    }

    /// The opaque register preset of the TDC7200 timer (80 bits).
    pub fn tdc7200_regs(&self) -> (r: u128)
        ensures
            r == le_u80(self@, TDC7200_REGS_AT as int),
    {
        self.u80_at(TDC7200_REGS_AT)
    }

    /// Replaces the opaque register preset of the TDC7200 timer (80 bits).
    pub fn set_tdc7200_regs(&mut self, v: u128)
        requires
            v < 0x1_0000_0000_0000_0000_0000u128,
        ensures
            final(self)@ == put_le_u80(old(self)@, TDC7200_REGS_AT as int, v),
            le_u80(final(self)@, TDC7200_REGS_AT as int) == v,
    {
        self.set_u80_at(TDC7200_REGS_AT, v)
    }

    /// The first zero-offset calibration value (raw 32 bits).
    pub fn zero1(&self) -> (r: u32)
        ensures
            r == le_u32(self@, ZERO1_AT as int),
    {
        self.u32_at(ZERO1_AT)
    }

    /// Replaces the first zero-offset calibration value (raw 32 bits).
    pub fn set_zero1(&mut self, v: u32)
        ensures
            final(self)@ == put_le_u32(old(self)@, ZERO1_AT as int, v),
            le_u32(final(self)@, ZERO1_AT as int) == v,
    {
        self.set_u32_at(ZERO1_AT, v)
    }

    /// The second zero-offset calibration value (raw 32 bits).
    pub fn zero2(&self) -> (r: u32)
        ensures
            r == le_u32(self@, ZERO2_AT as int),
    {
        self.u32_at(ZERO2_AT)
    }

    /// Replaces the second zero-offset calibration value (raw 32 bits).
    pub fn set_zero2(&mut self, v: u32)
        ensures
            final(self)@ == put_le_u32(old(self)@, ZERO2_AT as int, v),
            le_u32(final(self)@, ZERO2_AT as int) == v,
    {
        self.set_u32_at(ZERO2_AT, v)
    }

    /// The velocity calibration coefficient 11 (raw 32 bits).
    pub fn v11(&self) -> (r: u32)
        ensures
            r == le_u32(self@, V11_AT as int),
    {
        self.u32_at(V11_AT)
    }

    /// Replaces the velocity calibration coefficient 11 (raw 32 bits).
    pub fn set_v11(&mut self, v: u32)
        ensures
            final(self)@ == put_le_u32(old(self)@, V11_AT as int, v),
            le_u32(final(self)@, V11_AT as int) == v,
    {
        self.set_u32_at(V11_AT, v)
    }

    /// The velocity calibration coefficient 12 (raw 32 bits).
    pub fn v12(&self) -> (r: u32)
        ensures
            r == le_u32(self@, V12_AT as int),
    {
        self.u32_at(V12_AT)
    }

    /// Replaces the velocity calibration coefficient 12 (raw 32 bits).
    pub fn set_v12(&mut self, v: u32)
        ensures
            final(self)@ == put_le_u32(old(self)@, V12_AT as int, v),
            le_u32(final(self)@, V12_AT as int) == v,
    {
        self.set_u32_at(V12_AT, v)
    }

    /// The velocity calibration coefficient 13 (raw 32 bits).
    pub fn v13(&self) -> (r: u32)
        ensures
            r == le_u32(self@, V13_AT as int),
    {
        self.u32_at(V13_AT)
    }

    /// Replaces the velocity calibration coefficient 13 (raw 32 bits).
    pub fn set_v13(&mut self, v: u32)
        ensures
            final(self)@ == put_le_u32(old(self)@, V13_AT as int, v),
            le_u32(final(self)@, V13_AT as int) == v,
    {
        self.set_u32_at(V13_AT, v)
    }

    /// The velocity calibration coefficient 21 (raw 32 bits).
    pub fn v21(&self) -> (r: u32)
        ensures
            r == le_u32(self@, V21_AT as int),
    {
        self.u32_at(V21_AT)
    }

    /// Replaces the velocity calibration coefficient 21 (raw 32 bits).
    pub fn set_v21(&mut self, v: u32)
        ensures
            final(self)@ == put_le_u32(old(self)@, V21_AT as int, v),
            le_u32(final(self)@, V21_AT as int) == v,
    {
        self.set_u32_at(V21_AT, v)
    }

    /// The velocity calibration coefficient 22 (raw 32 bits).
    pub fn v22(&self) -> (r: u32)
        ensures
            r == le_u32(self@, V22_AT as int),
    {
        self.u32_at(V22_AT)
    }

    /// Replaces the velocity calibration coefficient 22 (raw 32 bits).
    pub fn set_v22(&mut self, v: u32)
        ensures
            final(self)@ == put_le_u32(old(self)@, V22_AT as int, v),
            le_u32(final(self)@, V22_AT as int) == v,
    {
        self.set_u32_at(V22_AT, v)
    }

    /// The velocity calibration coefficient 23 (raw 32 bits).
    pub fn v23(&self) -> (r: u32)
        ensures
            r == le_u32(self@, V23_AT as int),
    {
        self.u32_at(V23_AT)
    }

    /// Replaces the velocity calibration coefficient 23 (raw 32 bits).
    pub fn set_v23(&mut self, v: u32)
        ensures
            final(self)@ == put_le_u32(old(self)@, V23_AT as int, v),
            le_u32(final(self)@, V23_AT as int) == v,
    {
        self.set_u32_at(V23_AT, v)
    }

    /// The k-factor calibration coefficient 11 (raw 32 bits).
    pub fn k11(&self) -> (r: u32)
        ensures
            r == le_u32(self@, K11_AT as int),
    {
        self.u32_at(K11_AT)
    }

    /// Replaces the k-factor calibration coefficient 11 (raw 32 bits).
    pub fn set_k11(&mut self, v: u32)
        ensures
            final(self)@ == put_le_u32(old(self)@, K11_AT as int, v),
            le_u32(final(self)@, K11_AT as int) == v,
    {
        self.set_u32_at(K11_AT, v)
    }

    /// The k-factor calibration coefficient 12 (raw 32 bits).
    pub fn k12(&self) -> (r: u32)
        ensures
            r == le_u32(self@, K12_AT as int),
    {
        self.u32_at(K12_AT)
    }

    /// Replaces the k-factor calibration coefficient 12 (raw 32 bits).
    pub fn set_k12(&mut self, v: u32)
        ensures
            final(self)@ == put_le_u32(old(self)@, K12_AT as int, v),
            le_u32(final(self)@, K12_AT as int) == v,
    {
        self.set_u32_at(K12_AT, v)
    }

    /// The k-factor calibration coefficient 13 (raw 32 bits).
    pub fn k13(&self) -> (r: u32)
        ensures
            r == le_u32(self@, K13_AT as int),
    {
        self.u32_at(K13_AT)
    }

    /// Replaces the k-factor calibration coefficient 13 (raw 32 bits).
    pub fn set_k13(&mut self, v: u32)
        ensures
            final(self)@ == put_le_u32(old(self)@, K13_AT as int, v),
            le_u32(final(self)@, K13_AT as int) == v,
    {
        self.set_u32_at(K13_AT, v)
    }

    /// The k-factor calibration coefficient 21 (raw 32 bits).
    pub fn k21(&self) -> (r: u32)
        ensures
            r == le_u32(self@, K21_AT as int),
    {
        self.u32_at(K21_AT)
    }

    /// Replaces the k-factor calibration coefficient 21 (raw 32 bits).
    pub fn set_k21(&mut self, v: u32)
        ensures
            final(self)@ == put_le_u32(old(self)@, K21_AT as int, v),
            le_u32(final(self)@, K21_AT as int) == v,
    {
        self.set_u32_at(K21_AT, v)
    }

    /// The k-factor calibration coefficient 22 (raw 32 bits).
    pub fn k22(&self) -> (r: u32)
        ensures
            r == le_u32(self@, K22_AT as int),
    {
        self.u32_at(K22_AT)
    }

    /// Replaces the k-factor calibration coefficient 22 (raw 32 bits).
    pub fn set_k22(&mut self, v: u32)
        ensures
            final(self)@ == put_le_u32(old(self)@, K22_AT as int, v),
            le_u32(final(self)@, K22_AT as int) == v,
    {
        self.set_u32_at(K22_AT, v)
    }

    /// The k-factor calibration coefficient 23 (raw 32 bits).
    pub fn k23(&self) -> (r: u32)
        ensures
            r == le_u32(self@, K23_AT as int),
    {
        self.u32_at(K23_AT)
    }

    /// Replaces the k-factor calibration coefficient 23 (raw 32 bits).
    pub fn set_k23(&mut self, v: u32)
        ensures
            final(self)@ == put_le_u32(old(self)@, K23_AT as int, v),
            le_u32(final(self)@, K23_AT as int) == v,
    {
        self.set_u32_at(K23_AT, v)
    }

    /// The uptime counter.
    pub fn uptime(&self) -> (r: u32)
        ensures
            r == le_u32(self@, UPTIME_AT as int),
    {
        self.u32_at(UPTIME_AT)
    }

    /// Replaces the uptime counter.
    pub fn set_uptime(&mut self, v: u32)
        ensures
            final(self)@ == put_le_u32(old(self)@, UPTIME_AT as int, v),
            le_u32(final(self)@, UPTIME_AT as int) == v,
    {
        self.set_u32_at(UPTIME_AT, v)
    }

    /// The total flow counter.
    pub fn total(&self) -> (r: u32)
        ensures
            r == le_u32(self@, TOTAL_AT as int),
    {
        self.u32_at(TOTAL_AT)
    }

    /// Replaces the total flow counter.
    pub fn set_total(&mut self, v: u32)
        ensures
            final(self)@ == put_le_u32(old(self)@, TOTAL_AT as int, v),
            le_u32(final(self)@, TOTAL_AT as int) == v,
    {
        self.set_u32_at(TOTAL_AT, v)
    }

    /// The hour flow counter.
    pub fn hour_total(&self) -> (r: u32)
        ensures
            r == le_u32(self@, HOUR_TOTAL_AT as int),
    {
        self.u32_at(HOUR_TOTAL_AT)
    }

    /// Replaces the hour flow counter.
    pub fn set_hour_total(&mut self, v: u32)
        ensures
            final(self)@ == put_le_u32(old(self)@, HOUR_TOTAL_AT as int, v),
            le_u32(final(self)@, HOUR_TOTAL_AT as int) == v,
    {
        self.set_u32_at(HOUR_TOTAL_AT, v)
    }

    /// The day flow counter.
    pub fn day_total(&self) -> (r: u32)
        ensures
            r == le_u32(self@, DAY_TOTAL_AT as int),
    {
        self.u32_at(DAY_TOTAL_AT)
    }

    /// Replaces the day flow counter.
    pub fn set_day_total(&mut self, v: u32)
        ensures
            final(self)@ == put_le_u32(old(self)@, DAY_TOTAL_AT as int, v),
            le_u32(final(self)@, DAY_TOTAL_AT as int) == v,
    {
        self.set_u32_at(DAY_TOTAL_AT, v)
    }

    /// The month flow counter.
    pub fn month_total(&self) -> (r: u32)
        ensures
            r == le_u32(self@, MONTH_TOTAL_AT as int),
    {
        self.u32_at(MONTH_TOTAL_AT)
    }

    /// Replaces the month flow counter.
    pub fn set_month_total(&mut self, v: u32)
        ensures
            final(self)@ == put_le_u32(old(self)@, MONTH_TOTAL_AT as int, v),
            le_u32(final(self)@, MONTH_TOTAL_AT as int) == v,
    {
        self.set_u32_at(MONTH_TOTAL_AT, v)
    }

    /// The rest counter.
    pub fn rest(&self) -> (r: u32)
        ensures
            r == le_u32(self@, REST_AT as int),
    {
        self.u32_at(REST_AT)
    }

    /// Replaces the rest counter.
    pub fn set_rest(&mut self, v: u32)
        ensures
            final(self)@ == put_le_u32(old(self)@, REST_AT as int, v),
            le_u32(final(self)@, REST_AT as int) == v,
    {
        self.set_u32_at(REST_AT, v)
    }

    /// Whether negative flow is accumulated.
    pub fn enable_negative(&self) -> (r: u8)
        ensures
            r == le_u8(self@, ENABLE_NEGATIVE_AT as int),
    {
        self.u8_at(ENABLE_NEGATIVE_AT)
    }

    /// Replaces whether negative flow is accumulated.
    pub fn set_enable_negative(&mut self, v: u8)
        ensures
            final(self)@ == put_le_u8(old(self)@, ENABLE_NEGATIVE_AT as int, v),
            le_u8(final(self)@, ENABLE_NEGATIVE_AT as int) == v,
    {
        self.set_u8_at(ENABLE_NEGATIVE_AT, v)
    }

    /// The Modbus slave address.
    pub fn slave_address(&self) -> (r: u8)
        ensures
            r == le_u8(self@, SLAVE_ADDRESS_AT as int),
    {
        self.u8_at(SLAVE_ADDRESS_AT)
    }

    /// Replaces the Modbus slave address.
    pub fn set_slave_address(&mut self, v: u8)
        ensures
            final(self)@ == put_le_u8(old(self)@, SLAVE_ADDRESS_AT as int, v),
            le_u8(final(self)@, SLAVE_ADDRESS_AT as int) == v,
    {
        self.set_u8_at(SLAVE_ADDRESS_AT, v)
    }

    /// The communication type.
    pub fn comm_type(&self) -> (r: u8)
        ensures
            r == le_u8(self@, COMM_TYPE_AT as int),
    {
        self.u8_at(COMM_TYPE_AT)
    }

    /// Replaces the communication type.
    pub fn set_comm_type(&mut self, v: u8)
        ensures
            final(self)@ == put_le_u8(old(self)@, COMM_TYPE_AT as int, v),
            le_u8(final(self)@, COMM_TYPE_AT as int) == v,
    {
        self.set_u8_at(COMM_TYPE_AT, v)
    }

    /// The Modbus mode.
    pub fn modbus_mode(&self) -> (r: u8)
        ensures
            r == le_u8(self@, MODBUS_MODE_AT as int),
    {
        self.u8_at(MODBUS_MODE_AT)
    }

    /// Replaces the Modbus mode.
    pub fn set_modbus_mode(&mut self, v: u8)
        ensures
            final(self)@ == put_le_u8(old(self)@, MODBUS_MODE_AT as int, v),
            le_u8(final(self)@, MODBUS_MODE_AT as int) == v,
    {
        self.set_u8_at(MODBUS_MODE_AT, v)
    }
}

/// Saving and loading back: on a device with room for both pages, the
/// device that `save` leaves makes `load` find exactly the sealed record
/// that `save` left in memory. On a reliable device both calls succeed, so
/// `load` after `save` returns that record, every field bit for bit.
pub proof fn lemma_save_load_round_trip(record: Seq<u8>, dev: Seq<u8>)
    requires
        record.len() == RECORD_LEN,
        dev.len() >= 2 * PAGE_SIZE,
    ensures
        ({
            let page = page_image(sealed(record));
            let saved = splice(splice(dev, OFFSET_PRIMARY as int, page), OFFSET_SECONDARY as int, page);
            &&& saved.len() == dev.len()
            &&& page_valid(primary_page(saved))
            &&& page_valid(secondary_page(saved))
            &&& stored_record(saved) == Some(sealed(record))
        }),
{
    let page = page_image(sealed(record));
    let saved = splice(splice(dev, OFFSET_PRIMARY as int, page), OFFSET_SECONDARY as int, page);
    lemma_sealed_page_valid(record);
    assert(primary_page(saved) =~= page);
    assert(secondary_page(saved) =~= page);
    assert(page.subrange(0, RECORD_LEN as int) =~= sealed(record));
}

/// The page image of a sealed record carries the checksum of the rest of it.
pub proof fn lemma_sealed_page_valid(record: Seq<u8>)
    requires
        record.len() == RECORD_LEN,
    ensures
        page_valid(page_image(sealed(record))),
        page_image(sealed(record)).len() == PAGE_SIZE,
{
    let c = page_checksum(page_image(record));
    let page = page_image(sealed(record));
    assert(page.subrange(2, PAGE_SIZE as int) =~= page_image(record).subrange(2, PAGE_SIZE as int));
    lemma_u16_bytes(c);
}

/// Redundancy: a saved device whose primary page has been damaged so that
/// it fails its checksum, while the secondary page is intact, still loads
/// the saved record, from the secondary page; when both pages fail their
/// checksums there is no record to load.
pub proof fn lemma_secondary_fallback(record: Seq<u8>, dev: Seq<u8>, damaged: Seq<u8>)
    requires
        record.len() == RECORD_LEN,
        dev.len() >= 2 * PAGE_SIZE,
        damaged.len() == dev.len(),
        secondary_page(damaged) == secondary_page(
            splice(
                splice(dev, OFFSET_PRIMARY as int, page_image(sealed(record))),
                OFFSET_SECONDARY as int,
                page_image(sealed(record)),
            ),
        ),
        !page_valid(primary_page(damaged)),
    ensures
        stored_record(damaged) == Some(sealed(record)),
{
    lemma_save_load_round_trip(record, dev);
    let page = page_image(sealed(record));
    let saved = splice(splice(dev, OFFSET_PRIMARY as int, page), OFFSET_SECONDARY as int, page);
    assert(secondary_page(saved) =~= page);
    assert(page.subrange(0, RECORD_LEN as int) =~= sealed(record));
}

/// A device whose two pages both fail their checksums holds no record.
pub proof fn lemma_both_pages_corrupt(dev: Seq<u8>)
    requires
        !page_valid(primary_page(dev)),
        !page_valid(secondary_page(dev)),
    ensures
        stored_record(dev) is None,
{
}

/// The two little-endian bytes of a 16-bit value read back as the value.
pub proof fn lemma_u16_bytes(v: u16)
    ensures
        ((((v & 0xff) as u8) as u16) | (((((v >> 8u16) & 0xff) as u8) as u16) << 8u16)) == v,
{
    assert(((((v & 0xff) as u8) as u16) | (((((v >> 8u16) & 0xff) as u8) as u16) << 8u16)) == v)
        by (bit_vector);
}

/// The four little-endian bytes of a 32-bit value read back as the value.
pub proof fn lemma_u32_bytes(v: u32)
    ensures
        (((v & 0xff) as u8) as u32) | (((((v >> 8u32) & 0xff) as u8) as u32) << 8u32) | (((((v
            >> 16u32) & 0xff) as u8) as u32) << 16u32) | (((((v >> 24u32) & 0xff) as u8) as u32)
            << 24u32) == v,
{
    assert((((v & 0xff) as u8) as u32) | (((((v >> 8u32) & 0xff) as u8) as u32) << 8u32) | (((((v
        >> 16u32) & 0xff) as u8) as u32) << 16u32) | (((((v >> 24u32) & 0xff) as u8) as u32)
        << 24u32) == v) by (bit_vector);
}

proof fn lemma_u80_parts(v: u128)
    requires
        v < 0x1_0000_0000_0000_0000_0000u128,
    ensures
        ((((v & 0xffff_ffff) as u32) as u64 | ((((v >> 32u128) & 0xffff_ffff) as u32) as u64) << 32u64)
            as u128) | ((((v >> 64u128) & 0xffff) as u16) as u128) << 64u128 == v,
{
    assert(((((v & 0xffff_ffff) as u32) as u64 | ((((v >> 32u128) & 0xffff_ffff) as u32) as u64)
        << 32u64) as u128) | ((((v >> 64u128) & 0xffff) as u16) as u128) << 64u128 == v)
        by (bit_vector)
        requires
            v < 0x1_0000_0000_0000_0000_0000u128,
    ;
}

} // verus!
