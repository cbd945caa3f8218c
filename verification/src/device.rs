//! The block-device capability: a medium addressable in fixed-size blocks,
//! together with an in-memory implementation and a fault-injecting one.

use vstd::prelude::*;

verus! {

/// Bytes in one block (sector) of the medium.
pub const BLOCK_LEN: usize = 512;

/// `s` with the range starting at `at` replaced by `d`. Meaningful when
/// `0 <= at` and `at + d.len() <= s.len()`.
pub open spec fn splice(s: Seq<u8>, at: int, d: Seq<u8>) -> Seq<u8> {
    s.subrange(0, at) + d + s.subrange(at + d.len() as int, s.len() as int)
}

/// A block-addressable storage medium. The controller is generic over this
/// capability; errors of the medium are opaque to it beyond "the operation
/// failed", so both operations report failure as a bare `Err(())`.
///
/// `spec_bytes` is the medium's stored byte image, one `BLOCK_LEN` run per
/// block; `inv` is whatever well-formedness the implementation maintains.
/// Every operation preserves the invariant, the block count and the image
/// length; a read leaves the image untouched, and a successful write
/// replaces exactly the addressed range. Neither operation promises
/// success: the medium decides.
pub trait BlockStore {
    /// Well-formedness of this device's own state.
    spec fn inv(&self) -> bool;

    /// How many blocks the medium holds.
    spec fn spec_num_blocks(&self) -> u64;

    /// The bytes the medium currently stores.
    spec fn spec_bytes(&self) -> Seq<u8>;

    /// Reports the number of addressable blocks.
    fn num_blocks(&self) -> (r: u64)
        requires
            self.inv(),
        ensures
            r == self.spec_num_blocks(),
            self.spec_bytes().len() == self.spec_num_blocks() as int * (BLOCK_LEN as int),
    ;

    /// Reads `count` whole blocks starting at block `start`. On success the
    /// returned buffer holds exactly the addressed range of the image.
    fn read_blocks(&mut self, start: u64, count: u64) -> (r: Result<Vec<u8>, ()>)
        requires
            old(self).inv(),
        ensures
            final(self).inv(),
            final(self).spec_num_blocks() == old(self).spec_num_blocks(),
            final(self).spec_bytes() == old(self).spec_bytes(),
            (r matches Ok(b) ==> {
                &&& b@.len() == count as int * (BLOCK_LEN as int)
                &&& start as int * (BLOCK_LEN as int) + count as int * (BLOCK_LEN as int)
                    <= old(self).spec_bytes().len()
                &&& b@ == old(self).spec_bytes().subrange(
                    start as int * (BLOCK_LEN as int),
                    start as int * (BLOCK_LEN as int) + count as int * (BLOCK_LEN as int),
                )
            }),
    ;

    /// Writes the buffer, a whole number of blocks, starting at block
    /// `start`. On success the addressed range of the image becomes the
    /// buffer; on failure the image keeps its length but is otherwise
    /// unspecified, as a half-finished write on a real medium would be.
    fn write_blocks(&mut self, start: u64, data: &Vec<u8>) -> (r: Result<(), ()>)
        requires
            old(self).inv(),
            data@.len() as int % (BLOCK_LEN as int) == 0,
        ensures
            final(self).inv(),
            final(self).spec_num_blocks() == old(self).spec_num_blocks(),
            final(self).spec_bytes().len() == old(self).spec_bytes().len(),
            (r matches Ok(_) ==> {
                &&& start as int * (BLOCK_LEN as int) + data@.len()
                    <= old(self).spec_bytes().len()
                &&& final(self).spec_bytes() == splice(
                    old(self).spec_bytes(),
                    start as int * (BLOCK_LEN as int),
                    data@,
                )
            }),
    ;
}

/// An in-memory block device: `num` blocks of `BLOCK_LEN` bytes, held in one
/// byte vector. It fails exactly on out-of-range accesses, which makes it a
/// faithful stand-in for a healthy medium in tests.
pub struct RamDevice {
    num: u64,
    data: Vec<u8>,
}

impl RamDevice {
    /// Builds a zero-filled medium of `count` blocks.
    pub fn new(count: u64) -> (r: RamDevice)
        requires
            count as int * (BLOCK_LEN as int) <= usize::MAX as int,
        ensures
            r.inv(),
            r.spec_num_blocks() == count,
    {
        let total: usize = (count as usize) * BLOCK_LEN;
        let mut data: Vec<u8> = Vec::new();
        let mut i: usize = 0;
        while i < total
            invariant
                i <= total,
                data@.len() == i,
            decreases total - i,
        {
            data.push(0u8);
            i = i + 1;
        }
        RamDevice { num: count, data }
    }
}

impl BlockStore for RamDevice {
    closed spec fn inv(&self) -> bool {
        self.data@.len() == self.num as int * (BLOCK_LEN as int)
    }

    closed spec fn spec_num_blocks(&self) -> u64 {
        self.num
    }

    closed spec fn spec_bytes(&self) -> Seq<u8> {
        self.data@
    }

    fn num_blocks(&self) -> (r: u64) {
        self.num
    }

    fn read_blocks(&mut self, start: u64, count: u64) -> (r: Result<Vec<u8>, ()>) {
        proof {
            assert(BLOCK_LEN as u128 == 512);
        }
        let byte_start: u128 = (start as u128) * (BLOCK_LEN as u128);
        let byte_count: u128 = (count as u128) * (BLOCK_LEN as u128);
        let total: u128 = self.data.len() as u128;
        if byte_count > total || byte_start > total - byte_count {
            return Err(());
        }
        let s: usize = byte_start as usize;
        let c: usize = byte_count as usize;
        let mut out: Vec<u8> = Vec::new();
        let mut i: usize = 0;
        while i < c
            invariant
                i <= c,
                out@.len() == i,
                s + c <= self.data@.len(),
                s + c <= usize::MAX as int,
                self == old(self),
                forall|j: int| 0 <= j < i ==> out@[j] == self.data@[s + j],
            decreases c - i,
        {
            out.push(self.data[s + i]);
            i = i + 1;
        }
        proof {
            assert(out@ =~= self.data@.subrange(s as int, s as int + c as int));
        }
        Ok(out)
    }

    fn write_blocks(&mut self, start: u64, data: &Vec<u8>) -> (r: Result<(), ()>) {
        proof {
            assert(BLOCK_LEN as u128 == 512);
        }
        let byte_start: u128 = (start as u128) * (BLOCK_LEN as u128);
        let byte_count: u128 = data.len() as u128;
        let total: u128 = self.data.len() as u128;
        if byte_count > total || byte_start > total - byte_count {
            return Err(());
        }
        let s: usize = byte_start as usize;
        let c: usize = data.len();
        let mut i: usize = 0;
        while i < c
            invariant
                i <= c,
                c == data@.len(),
                s + c <= self.data@.len(),
                s + c <= usize::MAX as int,
                self.data@.len() == old(self).data@.len(),
                self.num == old(self).num,
                forall|k: int|
                    0 <= k < self.data@.len() && !(s <= k < s + i)
                        ==> self.data@[k] == old(self).data@[k],
                forall|j: int| 0 <= j < i ==> self.data@[s + j] == data@[j],
            decreases c - i,
        {
            let b = data[i];
            self.data.set(s + i, b);
            i = i + 1;
        }
        proof {
            assert(self.data@ =~= splice(old(self).data@, s as int, data@));
        }
        Ok(())
    }
}

/// A medium whose write path (and, if asked, read path) always fails: the
/// fault-injection double that tests use to reach the device-failure errors.
/// Since no write ever lands, its image stays all zeros.
pub struct FaultyDevice {
    num: u64,
    fail_reads: bool,
}

impl FaultyDevice {
    /// A medium of `count` blocks that accepts reads but refuses every
    /// write; with `fail_reads` it refuses reads as well.
    pub fn new(count: u64, fail_reads: bool) -> (r: FaultyDevice)
        ensures
            r.inv(),
            r.spec_num_blocks() == count,
    {
        FaultyDevice { num: count, fail_reads }
    }
}

impl BlockStore for FaultyDevice {
    closed spec fn inv(&self) -> bool {
        true
    }

    closed spec fn spec_num_blocks(&self) -> u64 {
        self.num
    }

    closed spec fn spec_bytes(&self) -> Seq<u8> {
        Seq::new(self.num as nat * (BLOCK_LEN as nat), |i: int| 0u8)
    }

    fn num_blocks(&self) -> (r: u64) {
        self.num
    }

    fn read_blocks(&mut self, start: u64, count: u64) -> (r: Result<Vec<u8>, ()>) {
        if self.fail_reads {
            return Err(());
        }
        proof {
            assert(BLOCK_LEN as u128 == 512);
        }
        let byte_start: u128 = (start as u128) * (BLOCK_LEN as u128);
        let byte_count: u128 = (count as u128) * (BLOCK_LEN as u128);
        let total: u128 = (self.num as u128) * (BLOCK_LEN as u128);
        if byte_count > total || byte_start > total - byte_count || byte_count > usize::MAX as u128
        {
            return Err(());
        }
        let c: usize = byte_count as usize;
        let mut out: Vec<u8> = Vec::new();
        let mut i: usize = 0;
        while i < c
            invariant
                i <= c,
                out@.len() == i,
                forall|j: int| 0 <= j < i ==> out@[j] == 0u8,
            decreases c - i,
        {
            out.push(0u8);
            i = i + 1;
        }
        proof {
            assert(out@ =~= self.spec_bytes().subrange(
                byte_start as int,
                byte_start as int + byte_count as int,
            ));
        }
        Ok(out)
    }

    fn write_blocks(&mut self, start: u64, data: &Vec<u8>) -> (r: Result<(), ()>) {
        Err(())
    }
}

} // verus!
