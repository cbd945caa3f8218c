//! The storage controller facade: binds one block device and one time
//! source, and exposes the volume / directory / file lifecycle while
//! enforcing the handle-ordering discipline and the error taxonomy.

use vstd::prelude::*;

use crate::clock::{Clock, Timestamp};
use crate::device::{splice, BlockStore, BLOCK_LEN};

verus! {

/// Bytes one root-directory entry takes in the header block.
pub const DIR_ENTRY_SIZE: usize = 32;

/// Entries the root directory — the header block — can hold.
pub const MAX_DIR_ENTRIES: usize = BLOCK_LEN / DIR_ENTRY_SIZE;

/// The four recognized ways to open a file; the mode is fixed at open time.
#[derive(Clone, Copy, Debug, PartialEq, Eq, Structural)]
pub enum Mode {
    /// Open an existing file for reading only.
    ReadOnly,
    /// Create the file if absent; position the cursor at the end.
    ReadWriteAppend,
    /// Create the file if absent; open an existing one at the start.
    ReadWriteCreate,
    /// Create the file if absent; truncate an existing one to zero length.
    ReadWriteCreateOrTruncate,
}

/// Every way an operation of the controller can fail. Each operation
/// reports exactly one kind; nothing is retried or silently recovered.
#[derive(Clone, Copy, Debug, PartialEq, Eq, Structural)]
pub enum FsError {
    /// The underlying medium failed to respond.
    DeviceError,
    /// No valid filesystem at the requested partition.
    VolumeError,
    /// The root directory could not be opened from this volume handle.
    DirectoryError,
    /// The file does not exist (under `ReadOnly` mode).
    NotFound,
    /// No free directory entry is left for a new file.
    DirectoryFull,
    /// The medium cannot hold the file grown by the write.
    NoSpace,
    /// A handle was already closed, or does not belong with the other
    /// handles passed in the same call.
    InvalidHandle,
}

/// One directory entry: a named file and its content, with the timestamp
/// last stamped by the time source.
pub struct FileEntry {
    /// The file's name, byte for byte.
    pub name: Vec<u8>,
    /// The file's content.
    pub contents: Vec<u8>,
    /// When the file was created or last written.
    pub modified: Timestamp,
}

/// A mounted volume. Stale after the next mount of the medium.
pub struct VolumeHandle {
    gen: u64,
}

impl VolumeHandle {
    /// Which mount of the controller this handle belongs to.
    pub closed spec fn spec_gen(self) -> u64 {
        self.gen
    }
}

/// An open handle to the root directory of a volume.
pub struct DirectoryHandle {
    gen: u64,
    open: bool,
}

impl DirectoryHandle {
    /// Which mount of the controller this handle belongs to.
    pub closed spec fn spec_gen(self) -> u64 {
        self.gen
    }

    /// Whether the handle has not been closed yet.
    pub closed spec fn is_open(self) -> bool {
        self.open
    }
}

/// An open file within the root directory, carrying its access mode and
/// its cursor.
pub struct FileHandle {
    gen: u64,
    idx: usize,
    cursor: usize,
    mode: Mode,
    open: bool,
}

impl FileHandle {
    /// Which mount of the controller this handle belongs to.
    pub closed spec fn spec_gen(self) -> u64 {
        self.gen
    }

    /// The directory entry this handle stands for.
    pub closed spec fn spec_idx(self) -> usize {
        self.idx
    }

    /// The read/write position within the file.
    pub closed spec fn spec_cursor(self) -> usize {
        self.cursor
    }

    /// The access mode fixed at open time.
    pub closed spec fn spec_mode(self) -> Mode {
        self.mode
    }

    /// Whether the handle has not been closed yet.
    pub closed spec fn is_open(self) -> bool {
        self.open
    }
}

/// Whether some entry of `s` carries `name`.
pub open spec fn has_name(s: Seq<FileEntry>, name: Seq<u8>) -> bool {
    exists|i: int| 0 <= i < s.len() && (#[trigger] s[i]).name@ == name
}

/// How many bytes a read returns: the whole buffer, or what is left of the
/// file past the cursor, whichever is shorter.
pub open spec fn read_len(len: int, cursor: int, cap: int) -> int {
    if cursor + cap <= len {
        cap
    } else {
        len - cursor
    }
}

/// The bytes a read yields from `data` at `cursor` into a buffer of
/// `cap` bytes.
pub open spec fn read_window(data: Seq<u8>, cursor: int, cap: int) -> Seq<u8> {
    data.subrange(cursor, cursor + read_len(data.len() as int, cursor, cap))
}

/// The content after writing `buf` into `data` at `cursor`: bytes before
/// the cursor stay, the buffer overwrites from the cursor on, and whatever
/// tail of `data` lies past the written range stays as well.
pub open spec fn write_at(data: Seq<u8>, cursor: int, buf: Seq<u8>) -> Seq<u8> {
    data.subrange(0, cursor) + buf + if cursor + buf.len() < data.len() {
        data.subrange(cursor + buf.len() as int, data.len() as int)
    } else {
        Seq::<u8>::empty()
    }
}

/// How many whole blocks hold `len` bytes.
pub open spec fn blocks_for(len: int) -> int {
    (len + (BLOCK_LEN as int) - 1) / (BLOCK_LEN as int)
}

/// How many data blocks the entries of `s` occupy, each entry padded to
/// whole blocks.
pub open spec fn blocks_total(s: Seq<FileEntry>) -> int
    decreases s.len(),
{
    if s.len() == 0 {
        0
    } else {
        blocks_total(s.drop_last()) + blocks_for(s.last().contents@.len() as int)
    }
}

/// A file's content padded with zeros to a whole number of blocks: the
/// image its region of the medium holds after a flush.
pub open spec fn region_image(c: Seq<u8>) -> Seq<u8> {
    c + Seq::new((blocks_for(c.len() as int) * (BLOCK_LEN as int) - c.len()) as nat, |i: int| 0u8)
}

/// The length a file has after writing `blen` bytes at `cursor`: grown to
/// the end of the written range, or unchanged if the range lies within.
pub open spec fn grown_len(old_len: int, cursor: int, blen: int) -> int {
    if cursor + blen > old_len {
        cursor + blen
    } else {
        old_len
    }
}

/// `blocks_for` is nonnegative and covers the bytes it is asked about,
/// with less than one block of slack.
proof fn lemma_blocks_for_props(len: int)
    requires
        len >= 0,
    ensures
        blocks_for(len) >= 0,
        blocks_for(len) * (BLOCK_LEN as int) >= len,
        blocks_for(len) * (BLOCK_LEN as int) <= len + (BLOCK_LEN as int) - 1,
        len == 0 ==> blocks_for(len) == 0,
{
    vstd::arithmetic::div_mod::lemma_fundamental_div_mod(len + 511, 512);
    vstd::arithmetic::div_mod::lemma_mod_bound(len + 511, 512);
    vstd::arithmetic::div_mod::lemma_div_pos_is_pos(len + 511, 512);
    assert(BLOCK_LEN as int == 512);
}

/// Replacing one entry changes the block total by the difference of the
/// two entries' block counts.
proof fn lemma_blocks_total_update(s: Seq<FileEntry>, i: int, e: FileEntry)
    requires
        0 <= i < s.len(),
    ensures
        blocks_total(s.update(i, e)) == blocks_total(s) - blocks_for(
            s[i].contents@.len() as int,
        ) + blocks_for(e.contents@.len() as int),
    decreases s.len(),
{
    let t = s.update(i, e);
    if i == s.len() - 1 {
        assert(t.drop_last() =~= s.drop_last());
        assert(t.last() == e);
    } else {
        assert(t.drop_last() =~= s.drop_last().update(i, e));
        assert(t.last() == s.last());
        lemma_blocks_total_update(s.drop_last(), i, e);
    }
}

/// A prefix occupies no more blocks than the whole table.
proof fn lemma_blocks_total_take(s: Seq<FileEntry>, i: int)
    requires
        0 <= i <= s.len(),
    ensures
        blocks_total(s.take(i)) <= blocks_total(s),
    decreases s.len(),
{
    if i == s.len() {
        assert(s.take(i) =~= s);
    } else {
        assert(s.take(i) =~= s.drop_last().take(i));
        lemma_blocks_total_take(s.drop_last(), i);
        lemma_blocks_for_props(s.last().contents@.len() as int);
    }
}

/// The block total is never negative.
proof fn lemma_blocks_total_nonneg(s: Seq<FileEntry>)
    ensures
        blocks_total(s) >= 0,
    decreases s.len(),
{
    if s.len() > 0 {
        lemma_blocks_total_nonneg(s.drop_last());
        lemma_blocks_for_props(s.last().contents@.len() as int);
    }
}

/// Whether two byte strings are equal, byte for byte.
fn bytes_eq(a: &[u8], b: &[u8]) -> (r: bool)
    ensures
        r == (a@ == b@),
{
    if a.len() != b.len() {
        return false;
    }
    let n = a.len();
    let mut i: usize = 0;
    while i < n
        invariant
            i <= n,
            n == a@.len(),
            a@.len() == b@.len(),
            forall|j: int| 0 <= j < i ==> a@[j] == b@[j],
        decreases n - i,
    {
        if a[i] != b[i] {
            return false;
        }
        i = i + 1;
    }
    proof {
        assert(a@ =~= b@);
    }
    true
}

/// Copies a byte string into an owned vector.
fn copy_bytes(a: &[u8]) -> (r: Vec<u8>)
    ensures
        r@ == a@,
{
    let n = a.len();
    let mut out: Vec<u8> = Vec::new();
    let mut i: usize = 0;
    while i < n
        invariant
            i <= n,
            n == a@.len(),
            out@.len() == i,
            forall|j: int| 0 <= j < i ==> out@[j] == a@[j],
        decreases n - i,
    {
        out.push(a[i]);
        i = i + 1;
    }
    proof {
        assert(out@ =~= a@);
    }
    out
}

/// The storage controller: the sole entry point for filesystem operations
/// on the medium it was bound to at construction.
pub struct StorageController<D, T> {
    device: D,
    clock: T,
    table: Vec<FileEntry>,
    gen: u64,
    open_files: usize,
}

impl<D: BlockStore, T: Clock> StorageController<D, T> {
    /// The directory entries of the mounted volume, in creation order.
    pub closed spec fn files(self) -> Seq<FileEntry> {
        self.table@
    }

    /// The mount the controller currently stands at; `0` before any mount.
    pub closed spec fn cur_gen(self) -> u64 {
        self.gen
    }

    /// Whether a volume has been mounted.
    pub open spec fn mounted(self) -> bool {
        self.cur_gen() > 0
    }

    /// How many file handles of the current mount are open.
    pub closed spec fn open_count(self) -> int {
        self.open_files as int
    }

    /// The block count of the bound medium.
    pub closed spec fn device_blocks(self) -> u64 {
        self.device.spec_num_blocks()
    }

    /// The instant the bound time source stands at.
    pub closed spec fn clock_now(self) -> Timestamp {
        self.clock.spec_timestamp()
    }

    /// The byte image the bound medium currently stores.
    pub closed spec fn device_bytes(self) -> Seq<u8> {
        self.device.spec_bytes()
    }

    /// Well-formedness: the device is sound, names are unique, the root
    /// directory fits its header block, the data area — every entry padded
    /// to whole blocks — fits the medium behind that block, and no file
    /// outgrows the address space.
    pub closed spec fn wf(self) -> bool {
        &&& self.device.inv()
        &&& forall|i: int, j: int|
            0 <= i < self.table@.len() && 0 <= j < self.table@.len() && i != j
                ==> self.table@[i].name@ != self.table@[j].name@
        &&& forall|i: int|
            0 <= i < self.table@.len() ==> (#[trigger] self.table@[i]).contents@.len()
                <= usize::MAX as int - BLOCK_LEN as int
        &&& self.mounted() ==> self.table@.len() <= MAX_DIR_ENTRIES as int
        &&& self.mounted() ==> 1 + blocks_total(self.table@)
            <= self.device.spec_num_blocks() as int
        &&& !self.mounted() ==> self.table@.len() == 0
    }

    /// Whether the root directory has a free entry slot.
    pub open spec fn can_add(self) -> bool {
        self.files().len() < MAX_DIR_ENTRIES as int
    }

    /// Whether the medium can hold the file grown by writing `blen` bytes
    /// at the cursor of `f`: the data area, block-granular, must still fit
    /// behind the header block, and the grown content must stay within the
    /// address space (a machine limit, not a property of the medium).
    pub open spec fn can_write(self, f: FileHandle, blen: int) -> bool {
        let old_len = self.files()[f.spec_idx() as int].contents@.len() as int;
        &&& f.spec_cursor() + blen <= usize::MAX as int - BLOCK_LEN as int
        &&& 1 + blocks_total(self.files()) - blocks_for(old_len) + blocks_for(
            grown_len(old_len, f.spec_cursor() as int, blen),
        ) <= self.device_blocks() as int
    }

    /// A volume handle of the current mount.
    pub open spec fn valid_volume(self, v: VolumeHandle) -> bool {
        self.mounted() && v.spec_gen() == self.cur_gen()
    }

    /// A directory handle of the current mount, not yet closed.
    pub open spec fn live_dir(self, d: DirectoryHandle) -> bool {
        self.mounted() && d.spec_gen() == self.cur_gen() && d.is_open()
    }

    /// A file handle of the current mount, not yet closed, whose entry
    /// exists.
    pub open spec fn attached_file(self, f: FileHandle) -> bool {
        &&& self.mounted()
        &&& f.spec_gen() == self.cur_gen()
        &&& f.is_open()
        &&& f.spec_idx() < self.files().len()
    }

    /// An attached file handle whose cursor lies within the file.
    pub open spec fn live_file(self, f: FileHandle) -> bool {
        &&& self.attached_file(f)
        &&& f.spec_cursor() <= self.files()[f.spec_idx() as int].contents@.len()
    }

    /// Binds a block device and a time source. Pure binding: no I/O is
    /// performed, nothing is mounted yet, and construction always succeeds.
    pub fn new(device: D, clock: T) -> (r: StorageController<D, T>)
        requires
            device.inv(),
        ensures
            r.wf(),
            !r.mounted(),
            r.files().len() == 0,
            r.open_count() == 0,
            r.device_blocks() == device.spec_num_blocks(),
            r.device_bytes() == device.spec_bytes(),
            r.clock_now() == clock.spec_timestamp(),
    {
        StorageController { device, clock, table: Vec::new(), gen: 0, open_files: 0 }
    }

    /// How many data blocks the first `upto` entries occupy.
    fn blocks_in_prefix(&self, upto: usize) -> (r: u128)
        requires
            self.wf(),
            upto <= self.files().len(),
        ensures
            r == blocks_total(self.files().take(upto as int)),
            r <= u64::MAX as u128,
    {
        let mut r: u128 = 0;
        let mut i: usize = 0;
        proof {
            assert(self.table@.take(0) =~= Seq::<FileEntry>::empty());
        }
        while i < upto
            invariant
                i <= upto,
                upto <= self.table@.len(),
                self.wf(),
                r == blocks_total(self.table@.take(i as int)),
                r <= u64::MAX as u128,
            decreases upto - i,
        {
            let len = self.table[i].contents.len();
            proof {
                assert(BLOCK_LEN as u128 == 512);
            }
            let b: u128 = ((len as u128) + (BLOCK_LEN as u128) - 1) / (BLOCK_LEN as u128);
            proof {
                assert(self.table@.take(i as int + 1).drop_last() =~= self.table@.take(i as int));
                assert(self.table@.take(i as int + 1).last() == self.table@[i as int]);
                assert(b as int == blocks_for(len as int));
                lemma_blocks_for_props(len as int);
                lemma_blocks_total_take(self.table@, i as int + 1);
                if self.table@.len() > 0 {
                    assert(self.mounted());
                    assert(1 + blocks_total(self.table@) <= self.device.spec_num_blocks() as int);
                    lemma_blocks_total_nonneg(self.table@.take(i as int + 1));
                }
            }
            r = r + b;
            i = i + 1;
        }
        r
    }

    /// Mounts the single partition of the medium and returns its volume
    /// handle. Reads the partition header from the device; a medium that is
    /// unreadable or too small for any filesystem yields `VolumeError`. A
    /// new mount makes every handle of an earlier mount stale.
    pub fn get_volume(&mut self) -> (r: Result<VolumeHandle, FsError>)
        requires
            old(self).wf(),
        ensures
            final(self).wf(),
            final(self).files() == old(self).files(),
            final(self).device_blocks() == old(self).device_blocks(),
            final(self).device_bytes() == old(self).device_bytes(),
            final(self).clock_now() == old(self).clock_now(),
            match r {
                Ok(v) => {
                    &&& final(self).mounted()
                    &&& v.spec_gen() == final(self).cur_gen()
                    &&& final(self).cur_gen() == old(self).cur_gen() + 1
                    &&& final(self).open_count() == 0
                },
                Err(e) => {
                    &&& e == FsError::VolumeError
                    &&& final(self).cur_gen() == old(self).cur_gen()
                    &&& final(self).open_count() == old(self).open_count()
                },
            },
            old(self).device_blocks() == 0 ==> (r matches Err(_)),
    {
        if self.gen == u64::MAX {
            return Err(FsError::VolumeError);
        }
        let nb = self.device.num_blocks();
        let used = self.blocks_in_prefix(self.table.len());
        proof {
            assert(self.table@.take(self.table@.len() as int) =~= self.table@);
        }
        if (nb as u128) < 1 + used {
            return Err(FsError::VolumeError);
        }
        match self.device.read_blocks(0, 1) {
            Err(_) => Err(FsError::VolumeError),
            Ok(_header) => {
                self.gen = self.gen + 1;
                self.open_files = 0;
                Ok(VolumeHandle { gen: self.gen })
            },
        }
    }

    /// Opens the root directory of `volume`. Fails with `DirectoryError`
    /// exactly when the volume handle is stale.
    pub fn open_root_dir(&self, volume: &VolumeHandle) -> (r: Result<DirectoryHandle, FsError>)
        ensures
            match r {
                Ok(d) => {
                    &&& self.valid_volume(*volume)
                    &&& d.spec_gen() == self.cur_gen()
                    &&& d.is_open()
                },
                Err(e) => e == FsError::DirectoryError && !self.valid_volume(*volume),
            },
    {
        if self.gen > 0 && volume.gen == self.gen {
            Ok(DirectoryHandle { gen: self.gen, open: true })
        } else {
            Err(FsError::DirectoryError)
        }
    }

    /// The index of the entry named `name`, if one exists.
    fn find_entry(&self, name: &[u8]) -> (r: Option<usize>)
        ensures
            match r {
                Some(k) => k < self.files().len() && self.files()[k as int].name@ == name@,
                None => !has_name(self.files(), name@),
            },
    {
        let n = self.table.len();
        let mut i: usize = 0;
        while i < n
            invariant
                i <= n,
                n == self.table@.len(),
                forall|j: int| 0 <= j < i ==> self.table@[j].name@ != name@,
            decreases n - i,
        {
            if bytes_eq(self.table[i].name.as_slice(), name) {
                return Some(i);
            }
            i = i + 1;
        }
        None
    }

    /// Opens or creates the file `name` in the root directory of `volume`,
    /// under `mode`:
    ///
    /// - `ReadOnly` opens an existing file at the start and fails with
    ///   `NotFound` if it is absent;
    /// - `ReadWriteCreate` opens an existing file at the start, or creates
    ///   an empty one;
    /// - `ReadWriteCreateOrTruncate` truncates an existing file to zero
    ///   length, or creates an empty one;
    /// - `ReadWriteAppend` opens an existing file with the cursor at the
    ///   end of its content, or creates an empty one.
    ///
    /// A creation stamps the entry with the time source's instant and fails
    /// with `DirectoryFull` when the root directory has no free entry slot
    /// left in its header block. Mismatched or closed handles are rejected
    /// with `InvalidHandle`.
    pub fn open_file_in_dir(
        &mut self,
        volume: &VolumeHandle,
        dir: &DirectoryHandle,
        name: &[u8],
        mode: Mode,
    ) -> (r: Result<FileHandle, FsError>)
        requires
            old(self).wf(),
        ensures
            final(self).wf(),
            final(self).cur_gen() == old(self).cur_gen(),
            final(self).device_blocks() == old(self).device_blocks(),
            final(self).device_bytes() == old(self).device_bytes(),
            final(self).clock_now() == old(self).clock_now(),
            match r {
                Ok(f) => {
                    &&& old(self).valid_volume(*volume)
                    &&& old(self).live_dir(*dir)
                    &&& f.spec_gen() == final(self).cur_gen()
                    &&& f.is_open()
                    &&& f.spec_mode() == mode
                    &&& f.spec_idx() < final(self).files().len()
                    &&& final(self).files()[f.spec_idx() as int].name@ == name@
                    &&& forall|k: int|
                        0 <= k < final(self).files().len() && k != f.spec_idx()
                            ==> final(self).files()[k] == old(self).files()[k]
                    &&& final(self).open_count()
                        == (if old(self).open_count() < usize::MAX as int {
                            old(self).open_count() + 1
                        } else {
                            old(self).open_count()
                        })
                    &&& if has_name(old(self).files(), name@) {
                        &&& final(self).files().len() == old(self).files().len()
                        &&& old(self).files()[f.spec_idx() as int].name@ == name@
                        &&& final(self).files()[f.spec_idx() as int].modified
                            == old(self).files()[f.spec_idx() as int].modified
                        &&& (mode == Mode::ReadWriteCreateOrTruncate
                            ==> final(self).files()[f.spec_idx() as int].contents@.len() == 0)
                        &&& (mode != Mode::ReadWriteCreateOrTruncate
                            ==> final(self).files()[f.spec_idx() as int].contents@
                                == old(self).files()[f.spec_idx() as int].contents@)
                        &&& (mode == Mode::ReadWriteAppend
                            ==> f.spec_cursor()
                                == final(self).files()[f.spec_idx() as int].contents@.len())
                        &&& (mode != Mode::ReadWriteAppend ==> f.spec_cursor() == 0)
                    } else {
                        &&& mode != Mode::ReadOnly
                        &&& old(self).can_add()
                        &&& final(self).files().len() == old(self).files().len() + 1
                        &&& f.spec_idx() == old(self).files().len()
                        &&& final(self).files()[f.spec_idx() as int].contents@.len() == 0
                        &&& final(self).files()[f.spec_idx() as int].modified
                            == old(self).clock_now()
                        &&& f.spec_cursor() == 0
                    }
                },
                Err(e) => {
                    &&& *final(self) == *old(self)
                    &&& match e {
                        FsError::InvalidHandle => !(old(self).valid_volume(*volume)
                            && old(self).live_dir(*dir)),
                        FsError::NotFound => {
                            &&& old(self).valid_volume(*volume)
                            &&& old(self).live_dir(*dir)
                            &&& mode == Mode::ReadOnly
                            &&& !has_name(old(self).files(), name@)
                        },
                        FsError::DirectoryFull => {
                            &&& old(self).valid_volume(*volume)
                            &&& old(self).live_dir(*dir)
                            &&& mode != Mode::ReadOnly
                            &&& !has_name(old(self).files(), name@)
                            &&& !old(self).can_add()
                        },
                        _ => false,
                    }
                },
            },
    {
        if !(self.gen > 0 && volume.gen == self.gen && dir.gen == self.gen && dir.open) {
            return Err(FsError::InvalidHandle);
        }
        match self.find_entry(name) {
            Some(idx) => {
                let cursor: usize;
                match mode {
                    Mode::ReadWriteCreateOrTruncate => {
                        let entry = &mut self.table[idx];
                        entry.contents = Vec::new();
                        proof {
                            lemma_blocks_total_update(
                                old(self).table@,
                                idx as int,
                                self.table@[idx as int],
                            );
                            lemma_blocks_for_props(
                                old(self).table@[idx as int].contents@.len() as int,
                            );
                            lemma_blocks_for_props(0);
                        }
                        cursor = 0;
                    },
                    Mode::ReadWriteAppend => {
                        cursor = self.table[idx].contents.len();
                    },
                    _ => {
                        cursor = 0;
                    },
                }
                if self.open_files < usize::MAX {
                    self.open_files = self.open_files + 1;
                }
                Ok(FileHandle { gen: self.gen, idx, cursor, mode, open: true })
            },
            None => {
                if let Mode::ReadOnly = mode {
                    return Err(FsError::NotFound);
                }
                if self.table.len() >= MAX_DIR_ENTRIES {
                    return Err(FsError::DirectoryFull);
                }
                let stamp = self.clock.get_timestamp();
                let idx = self.table.len();
                self.table.push(
                    FileEntry { name: copy_bytes(name), contents: Vec::new(), modified: stamp },
                );
                proof {
                    assert(self.table@.drop_last() =~= old(self).table@);
                    lemma_blocks_for_props(0);
                }
                if self.open_files < usize::MAX {
                    self.open_files = self.open_files + 1;
                }
                Ok(FileHandle { gen: self.gen, idx, cursor: 0, mode, open: true })
            },
        }
    }

    /// Reads from `file` at its cursor into `buffer`, overwriting the
    /// buffer's prefix and advancing the cursor. Returns how many bytes
    /// were read: the whole buffer, or — reaching end-of-file mid-read —
    /// exactly what was left of the file, which is not an error. Mismatched
    /// or closed handles are rejected with `InvalidHandle`.
    pub fn read(&self, volume: &VolumeHandle, file: &mut FileHandle, buffer: &mut Vec<u8>) -> (r: Result<
        usize,
        FsError,
    >)
        ensures
            match r {
                Ok(n) => {
                    &&& self.valid_volume(*volume)
                    &&& self.live_file(*old(file))
                    &&& n == read_len(
                        self.files()[old(file).spec_idx() as int].contents@.len() as int,
                        old(file).spec_cursor() as int,
                        old(buffer)@.len() as int,
                    )
                    &&& final(buffer)@.len() == old(buffer)@.len()
                    &&& final(buffer)@ == read_window(
                        self.files()[old(file).spec_idx() as int].contents@,
                        old(file).spec_cursor() as int,
                        old(buffer)@.len() as int,
                    ) + old(buffer)@.skip(n as int)
                    &&& final(file).spec_cursor() == old(file).spec_cursor() + n
                    &&& final(file).spec_gen() == old(file).spec_gen()
                    &&& final(file).spec_idx() == old(file).spec_idx()
                    &&& final(file).spec_mode() == old(file).spec_mode()
                    &&& final(file).is_open()
                },
                Err(e) => {
                    &&& e == FsError::InvalidHandle
                    &&& !(self.valid_volume(*volume) && self.live_file(*old(file)))
                    &&& *final(file) == *old(file)
                    &&& *final(buffer) == *old(buffer)
                },
            },
    {
        if !(self.gen > 0 && volume.gen == self.gen && file.gen == self.gen && file.open) {
            return Err(FsError::InvalidHandle);
        }
        if !(file.idx < self.table.len() && file.cursor <= self.table[file.idx].contents.len()) {
            return Err(FsError::InvalidHandle);
        }
        let idx = file.idx;
        let len = self.table[idx].contents.len();
        let cap = buffer.len();
        let left = len - file.cursor;
        let n = if cap <= left {
            cap
        } else {
            left
        };
        let mut i: usize = 0;
        while i < n
            invariant
                i <= n,
                n <= cap,
                cap == buffer@.len(),
                buffer@.len() == old(buffer)@.len(),
                idx < self.table@.len(),
                file.cursor + n <= self.table@[idx as int].contents@.len(),
                file.cursor + n <= usize::MAX as int,
                forall|j: int|
                    0 <= j < i ==> buffer@[j] == self.table@[idx as int].contents@[file.cursor
                        + j],
                forall|j: int| i <= j < cap ==> buffer@[j] == old(buffer)@[j],
                *file == *old(file),
            decreases n - i,
        {
            let b = self.table[idx].contents[file.cursor + i];
            buffer[i] = b;
            i = i + 1;
        }
        proof {
            assert(buffer@ =~= read_window(
                self.files()[old(file).spec_idx() as int].contents@,
                old(file).spec_cursor() as int,
                old(buffer)@.len() as int,
            ) + old(buffer)@.skip(n as int));
        }
        file.cursor = file.cursor + n;
        Ok(n)
    }

    /// Writes the whole buffer into `file` at its cursor, overwriting what
    /// lies under it and extending the file as needed, then stamps the
    /// entry with the time source's instant and advances the cursor. Fails
    /// with `NoSpace` exactly when the medium cannot hold the grown file —
    /// the data area is block-granular behind the header block — or the
    /// content would outgrow the address space; mismatched, closed or
    /// read-only handles are rejected with `InvalidHandle`.
    pub fn write(&mut self, volume: &VolumeHandle, file: &mut FileHandle, buffer: &[u8]) -> (r: Result<
        usize,
        FsError,
    >)
        requires
            old(self).wf(),
        ensures
            final(self).wf(),
            final(self).cur_gen() == old(self).cur_gen(),
            final(self).device_blocks() == old(self).device_blocks(),
            final(self).clock_now() == old(self).clock_now(),
            final(self).open_count() == old(self).open_count(),
            final(self).files().len() == old(self).files().len(),
            final(self).device_bytes() == old(self).device_bytes(),
            match r {
                Ok(n) => {
                    &&& old(self).valid_volume(*volume)
                    &&& old(self).live_file(*old(file))
                    &&& old(file).spec_mode() != Mode::ReadOnly
                    &&& n == buffer@.len()
                    &&& old(self).can_write(*old(file), buffer@.len() as int)
                    &&& final(self).files()[old(file).spec_idx() as int].contents@ == write_at(
                        old(self).files()[old(file).spec_idx() as int].contents@,
                        old(file).spec_cursor() as int,
                        buffer@,
                    )
                    &&& final(self).files()[old(file).spec_idx() as int].name@
                        == old(self).files()[old(file).spec_idx() as int].name@
                    &&& final(self).files()[old(file).spec_idx() as int].modified
                        == old(self).clock_now()
                    &&& forall|k: int|
                        0 <= k < final(self).files().len() && k != old(file).spec_idx()
                            ==> final(self).files()[k] == old(self).files()[k]
                    &&& final(file).spec_cursor() == old(file).spec_cursor() + n
                    &&& final(file).spec_gen() == old(file).spec_gen()
                    &&& final(file).spec_idx() == old(file).spec_idx()
                    &&& final(file).spec_mode() == old(file).spec_mode()
                    &&& final(file).is_open()
                },
                Err(e) => {
                    &&& *final(self) == *old(self)
                    &&& *final(file) == *old(file)
                    &&& match e {
                        FsError::InvalidHandle => !(old(self).valid_volume(*volume)
                            && old(self).live_file(*old(file))
                            && old(file).spec_mode() != Mode::ReadOnly),
                        FsError::NoSpace => {
                            &&& old(self).valid_volume(*volume)
                            &&& old(self).live_file(*old(file))
                            &&& old(file).spec_mode() != Mode::ReadOnly
                            &&& !old(self).can_write(*old(file), buffer@.len() as int)
                        },
                        _ => false,
                    }
                },
            },
    {
        if !(self.gen > 0 && volume.gen == self.gen && file.gen == self.gen && file.open) {
            return Err(FsError::InvalidHandle);
        }
        if !(file.idx < self.table.len() && file.cursor <= self.table[file.idx].contents.len()) {
            return Err(FsError::InvalidHandle);
        }
        if file.mode == Mode::ReadOnly {
            return Err(FsError::InvalidHandle);
        }
        let idx = file.idx;
        let cursor = file.cursor;
        let blen = buffer.len();
        let old_len = self.table[idx].contents.len();
        proof {
            assert(BLOCK_LEN as u128 == 512);
        }
        let new_end: u128 = (cursor as u128) + (blen as u128);
        if new_end > ((usize::MAX - BLOCK_LEN) as u128) {
            return Err(FsError::NoSpace);
        }
        let new_len: u128 = if new_end > (old_len as u128) {
            new_end
        } else {
            old_len as u128
        };
        let used = self.blocks_in_prefix(self.table.len());
        let old_blk: u128 = ((old_len as u128) + (BLOCK_LEN as u128) - 1) / (BLOCK_LEN as u128);
        let new_blk: u128 = (new_len + (BLOCK_LEN as u128) - 1) / (BLOCK_LEN as u128);
        let nb = self.device.num_blocks();
        proof {
            assert(self.table@.take(self.table@.len() as int) =~= self.table@);
            assert(old_blk as int == blocks_for(old_len as int));
            assert(new_blk as int == blocks_for(
                grown_len(old_len as int, cursor as int, blen as int),
            ));
            lemma_blocks_for_props(old_len as int);
            lemma_blocks_for_props(grown_len(old_len as int, cursor as int, blen as int));
        }
        if 1 + used + new_blk > (nb as u128) + old_blk {
            return Err(FsError::NoSpace);
        }
        let mut nc: Vec<u8> = Vec::new();
        let mut i: usize = 0;
        while i < cursor
            invariant
                i <= cursor,
                idx < self.table@.len(),
                cursor <= self.table@[idx as int].contents@.len(),
                nc@.len() == i,
                forall|j: int| 0 <= j < i ==> nc@[j] == self.table@[idx as int].contents@[j],
            decreases cursor - i,
        {
            let b = self.table[idx].contents[i];
            nc.push(b);
            i = i + 1;
        }
        let mut i: usize = 0;
        while i < blen
            invariant
                i <= blen,
                blen == buffer@.len(),
                cursor + blen <= usize::MAX as int,
                nc@.len() == cursor + i,
                idx < self.table@.len(),
                cursor <= self.table@[idx as int].contents@.len(),
                forall|j: int| 0 <= j < cursor ==> nc@[j] == self.table@[idx as int].contents@[j],
                forall|j: int| 0 <= j < i ==> nc@[cursor + j] == buffer@[j],
            decreases blen - i,
        {
            let b = buffer[i];
            nc.push(b);
            i = i + 1;
        }
        let tail_start = cursor + blen;
        let mut i: usize = tail_start;
        while i < old_len
            invariant
                tail_start <= i,
                i <= old_len || i == tail_start,
                idx < self.table@.len(),
                old_len == self.table@[idx as int].contents@.len(),
                cursor + blen == tail_start,
                nc@.len() == i,
                forall|j: int| 0 <= j < cursor ==> nc@[j] == self.table@[idx as int].contents@[j],
                forall|j: int| 0 <= j < blen ==> nc@[cursor + j] == buffer@[j],
                forall|j: int|
                    tail_start <= j < i ==> nc@[j] == self.table@[idx as int].contents@[j],
            decreases old_len - i,
        {
            let b = self.table[idx].contents[i];
            nc.push(b);
            i = i + 1;
        }
        proof {
            assert(nc@ =~= write_at(
                self.table@[idx as int].contents@,
                cursor as int,
                buffer@,
            ));
        }
        let stamp = self.clock.get_timestamp();
        let entry = &mut self.table[idx];
        entry.contents = nc;
        entry.modified = stamp;
        proof {
            lemma_blocks_total_update(old(self).table@, idx as int, self.table@[idx as int]);
        }
        file.cursor = cursor + blen;
        Ok(blen)
    }

    /// Closes `file`, first flushing its entry's region — the content
    /// padded with zeros to whole blocks — to its place on the medium,
    /// directly after the data of the entries before it. A flush the
    /// medium refuses is surfaced as `DeviceError` — data may be lost —
    /// and the handle stays open so the caller can decide. Closing an
    /// already-closed or mismatched handle is rejected with
    /// `InvalidHandle`.
    pub fn close_file(&mut self, volume: &VolumeHandle, file: &mut FileHandle) -> (r: Result<
        (),
        FsError,
    >)
        requires
            old(self).wf(),
        ensures
            final(self).wf(),
            final(self).files() == old(self).files(),
            final(self).cur_gen() == old(self).cur_gen(),
            final(self).device_blocks() == old(self).device_blocks(),
            final(self).clock_now() == old(self).clock_now(),
            match r {
                Ok(_) => {
                    &&& old(self).valid_volume(*volume)
                    &&& old(self).attached_file(*old(file))
                    &&& final(self).device_bytes() == splice(
                        old(self).device_bytes(),
                        (1 + blocks_total(
                            old(self).files().take(old(file).spec_idx() as int),
                        )) * (BLOCK_LEN as int),
                        region_image(old(self).files()[old(file).spec_idx() as int].contents@),
                    )
                    &&& !final(file).is_open()
                    &&& final(file).spec_gen() == old(file).spec_gen()
                    &&& final(file).spec_idx() == old(file).spec_idx()
                    &&& final(file).spec_cursor() == old(file).spec_cursor()
                    &&& final(file).spec_mode() == old(file).spec_mode()
                    &&& final(self).open_count() == (if old(self).open_count() > 0 {
                        old(self).open_count() - 1
                    } else {
                        0
                    })
                },
                Err(e) => {
                    &&& *final(file) == *old(file)
                    &&& final(self).open_count() == old(self).open_count()
                    &&& match e {
                        FsError::InvalidHandle => {
                            &&& !(old(self).valid_volume(*volume) && old(self).attached_file(
                                *old(file),
                            ))
                            &&& final(self).device_bytes() == old(self).device_bytes()
                        },
                        FsError::DeviceError => {
                            &&& old(self).valid_volume(*volume)
                            &&& old(self).attached_file(*old(file))
                            &&& final(self).device_bytes().len() == old(
                                self,
                            ).device_bytes().len()
                        },
                        _ => false,
                    }
                },
            },
    {
        if !(self.gen > 0 && volume.gen == self.gen && file.gen == self.gen && file.open
            && file.idx < self.table.len()) {
            return Err(FsError::InvalidHandle);
        }
        let idx = file.idx;
        let prefix = self.blocks_in_prefix(idx);
        proof {
            lemma_blocks_total_take(self.table@, idx as int);
            lemma_blocks_total_nonneg(self.table@.take(idx as int));
        }
        let start: u64 = 1 + (prefix as u64);
        let clen = self.table[idx].contents.len();
        proof {
            lemma_blocks_for_props(clen as int);
            assert(BLOCK_LEN as int == 512);
        }
        let blk: usize = (clen + (BLOCK_LEN - 1)) / BLOCK_LEN;
        proof {
            assert(blk as int == blocks_for(clen as int));
        }
        let target: usize = blk * BLOCK_LEN;
        let mut buf: Vec<u8> = Vec::new();
        let mut i: usize = 0;
        while i < clen
            invariant
                i <= clen,
                idx < self.table@.len(),
                clen == self.table@[idx as int].contents@.len(),
                buf@.len() == i,
                forall|j: int| 0 <= j < i ==> buf@[j] == self.table@[idx as int].contents@[j],
            decreases clen - i,
        {
            let b = self.table[idx].contents[i];
            buf.push(b);
            i = i + 1;
        }
        while buf.len() < target
            invariant
                idx < self.table@.len(),
                clen == self.table@[idx as int].contents@.len(),
                clen <= buf@.len(),
                buf@.len() <= target,
                forall|j: int| 0 <= j < clen ==> buf@[j] == self.table@[idx as int].contents@[j],
                forall|j: int| clen <= j < buf@.len() ==> buf@[j] == 0u8,
            decreases target - buf@.len(),
        {
            buf.push(0u8);
        }
        proof {
            assert(buf@ =~= region_image(self.table@[idx as int].contents@));
            vstd::arithmetic::div_mod::lemma_mod_multiples_basic(blk as int, BLOCK_LEN as int);
        }
        match self.device.write_blocks(start, &buf) {
            Err(_) => Err(FsError::DeviceError),
            Ok(_) => {
                file.open = false;
                if self.open_files > 0 {
                    self.open_files = self.open_files - 1;
                }
                Ok(())
            },
        }
    }

    /// Closes `dir`. No device work is needed; the call succeeds exactly
    /// when the handle belongs to the current mount, is still open, and
    /// every file handle opened from it has been closed first. Anything
    /// else — in particular a second close — is rejected with
    /// `InvalidHandle`.
    pub fn close_dir(&self, volume: &VolumeHandle, dir: &mut DirectoryHandle) -> (r: Result<(), FsError>)
        ensures
            match r {
                Ok(_) => {
                    &&& self.valid_volume(*volume)
                    &&& self.live_dir(*old(dir))
                    &&& self.open_count() == 0
                    &&& !final(dir).is_open()
                    &&& final(dir).spec_gen() == old(dir).spec_gen()
                },
                Err(e) => {
                    &&& e == FsError::InvalidHandle
                    &&& !(self.valid_volume(*volume) && self.live_dir(*old(dir))
                        && self.open_count() == 0)
                    &&& *final(dir) == *old(dir)
                },
            },
    {
        if self.gen > 0 && volume.gen == self.gen && dir.gen == self.gen && dir.open
            && self.open_files == 0 {
            dir.open = false;
            Ok(())
        } else {
            Err(FsError::InvalidHandle)
        }
    }
}

/// Law: write-then-read round trip. Writing buffer `b` into a file whose
/// content was truncated to nothing, with the cursor at the start, gives
/// content exactly `b`; reading that content from the start into any
/// buffer at least as long yields exactly `b`, byte for byte.
pub proof fn lemma_write_read_round_trip(b: Seq<u8>, cap: int)
    requires
        cap >= b.len(),
    ensures
        write_at(Seq::<u8>::empty(), 0, b) == b,
        read_window(write_at(Seq::<u8>::empty(), 0, b), 0, cap) == b,
{
    assert(write_at(Seq::<u8>::empty(), 0, b) =~= b);
    assert(read_window(b, 0, cap) =~= b);
}

/// Law: truncate semantics. A read straight after a truncating open — the
/// content empty, the cursor at the start — yields zero bytes, whatever
/// the buffer's length.
pub proof fn lemma_truncate_then_read(cap: int)
    requires
        cap >= 0,
    ensures
        read_len(0, 0, cap) == 0,
        read_window(Seq::<u8>::empty(), 0, cap) == Seq::<u8>::empty(),
{
    assert(read_window(Seq::<u8>::empty(), 0, cap) =~= Seq::<u8>::empty());
}

/// Law: append semantics. Writing `b` with the cursor at the end of the
/// existing content places the new bytes directly after the old, and a
/// full read of the result returns old content followed by new with no
/// gap and no overlap.
pub proof fn lemma_append_places_after(data: Seq<u8>, b: Seq<u8>)
    ensures
        write_at(data, data.len() as int, b) == data + b,
        read_window(data + b, 0, (data.len() + b.len()) as int) == data + b,
{
    assert(write_at(data, data.len() as int, b) =~= data + b);
    assert(read_window(data + b, 0, (data.len() + b.len()) as int) =~= data + b);
}

} // verus!
