//! The byte-addressable non-volatile device that every persistent component
//! shares, and an in-memory device that behaves as the contract says.
use vstd::prelude::*;

verus! {

/// A transfer to or from the device failed.
#[derive(Debug, Clone, Copy, PartialEq, Eq, Structural)]
pub struct StorageError;

/// `base` with the bytes of `data` written over it from `offset` on.
pub open spec fn splice(base: Seq<u8>, offset: int, data: Seq<u8>) -> Seq<u8> {
    base.subrange(0, offset) + data + base.subrange(offset + data.len(), base.len() as int)
}

/// A flat, randomly writable byte array (an EEPROM), accessed synchronously
/// by one caller at a time.
pub trait ByteStorage {
    /// The whole content of the device.
    spec fn contents(&self) -> Seq<u8>;

    /// Whether every access inside the device's bounds succeeds (true of a
    /// device held in memory; a bus device may fail any transfer).
    spec fn reliable(&self) -> bool;

    /// The number of bytes the device holds.
    fn capacity(&self) -> (r: usize)
        ensures
            r == self.contents().len(),
    ;

    /// Reads `len` bytes from `offset`. A read never changes the device.
    fn read(&mut self, offset: u32, len: usize) -> (r: Result<Vec<u8>, StorageError>)
        ensures
            final(self).contents() == old(self).contents(),
            final(self).reliable() == old(self).reliable(),
            r is Ok ==> offset + len <= old(self).contents().len() && r->Ok_0@
                == old(self).contents().subrange(offset as int, offset + len),
            old(self).reliable() && offset + len <= old(self).contents().len() ==> r is Ok,
    ;

    /// Writes `data` at `offset`. A failed write may have changed the range
    /// it addressed, and nothing else.
    fn write(&mut self, offset: u32, data: &[u8]) -> (r: Result<(), StorageError>)
        ensures
            final(self).contents().len() == old(self).contents().len(),
            final(self).reliable() == old(self).reliable(),
            r is Ok ==> offset + data@.len() <= old(self).contents().len() && final(self).contents()
                == splice(old(self).contents(), offset as int, data@),
            r is Err ==> forall|k: int|
                0 <= k < old(self).contents().len() && !(offset <= k < offset + data@.len())
                    ==> #[trigger] final(self).contents()[k] == old(self).contents()[k],
            old(self).reliable() && offset + data@.len() <= old(self).contents().len() ==> r is Ok,
    ;
}

/// A device held in memory: every access inside its bounds succeeds, every
/// access beyond them fails and changes nothing.
pub struct MemStorage {
    data: Vec<u8>,
}

impl MemStorage {
    /// A device of `size` bytes, each set to `fill` (an erased EEPROM reads
    /// as `0xFF`).
    pub fn new(size: usize, fill: u8) -> (r: MemStorage)
        ensures
            r.contents() == Seq::new(size as nat, |_i: int| fill),
            r.reliable(),
    {
        let mut data: Vec<u8> = Vec::new();
        let mut i: usize = 0;
        while i < size
            invariant
                i <= size,
                data@ == Seq::new(i as nat, |_j: int| fill),
            decreases size - i,
        {
            data.push(fill);
            i = i + 1;
            assert(data@ =~= Seq::new(i as nat, |_j: int| fill));
        }
        MemStorage { data }
    }
}

impl ByteStorage for MemStorage {
    closed spec fn contents(&self) -> Seq<u8> {
        self.data@
    }

    open spec fn reliable(&self) -> bool {
        true
    }

    fn capacity(&self) -> (r: usize) {
        self.data.len()
    }

    fn read(&mut self, offset: u32, len: usize) -> (r: Result<Vec<u8>, StorageError>) {
        let start = offset as usize;
        if start > self.data.len() || len > self.data.len() - start {
            return Err(StorageError);
        }
        let n = self.data.len();
        let mut out: Vec<u8> = Vec::new();
        let mut i: usize = 0;
        while i < len
            invariant
                i <= len,
                n == self.data@.len(),
                start + len <= n,
                start == offset,
                out@ == self.data@.subrange(start as int, start + i),
            decreases len - i,
        {
            out.push(self.data[start + i]);
            i = i + 1;
            assert(out@ =~= self.data@.subrange(start as int, start + i));
        }
        Ok(out)
    }

    fn write(&mut self, offset: u32, data: &[u8]) -> (r: Result<(), StorageError>) {
        let start = offset as usize;
        if start > self.data.len() || data.len() > self.data.len() - start {
            return Err(StorageError);
        }
        let ghost before = self.data@;
        let n = self.data.len();
        let mut i: usize = 0;
        while i < data.len()
            invariant
                i <= data@.len(),
                start == offset,
                n == before.len(),
                start + data@.len() <= n,
                self.data@.len() == before.len(),
                self.data@ == splice(before, start as int, data@.subrange(0, i as int)),
            decreases data@.len() - i,
        {
            self.data.set(start + i, data[i]);
            i = i + 1;
            assert(self.data@ =~= splice(before, start as int, data@.subrange(0, i as int)));
        }
        assert(data@.subrange(0, data@.len() as int) =~= data@);
        Ok(())
    }
}

} // verus!
