//! End-to-end tests of the storage facade over the in-memory and
//! fault-injecting media.

use sd_card::clock::{Clock, FakeClock};
use sd_card::controller::{FsError, Mode, StorageController};
use sd_card::device::{BlockStore, FaultyDevice, RamDevice};

fn fresh() -> StorageController<RamDevice, FakeClock> {
    StorageController::new(RamDevice::new(1024), FakeClock)
}

/// Creates `name` with `content` through a truncating open, then closes it.
fn put_file(
    c: &mut StorageController<RamDevice, FakeClock>,
    vol: &sd_card::controller::VolumeHandle,
    dir: &sd_card::controller::DirectoryHandle,
    name: &[u8],
    content: &[u8],
) {
    let mut f = c
        .open_file_in_dir(vol, dir, name, Mode::ReadWriteCreateOrTruncate)
        .unwrap();
    let n = c.write(vol, &mut f, content).unwrap();
    assert_eq!(n, content.len());
    c.close_file(vol, &mut f).unwrap();
}

#[test]
fn fake_clock_fixed_instant() {
    let t = FakeClock.get_timestamp();
    assert_eq!(t.year_since_1970, 30);
    assert_eq!(t.zero_indexed_month, 2);
    assert_eq!(t.zero_indexed_day, 4);
    assert_eq!(t.hours, 8);
    assert_eq!(t.minutes, 31);
    assert_eq!(t.seconds, 2);
}

#[test]
fn open_read_only_missing_is_not_found() {
    let mut c = fresh();
    let vol = c.get_volume().unwrap();
    let dir = c.open_root_dir(&vol).unwrap();
    let r = c.open_file_in_dir(&vol, &dir, b"missing.txt", Mode::ReadOnly);
    assert!(matches!(r, Err(FsError::NotFound)));
}

#[test]
fn open_create_modes_make_empty_file() {
    for mode in [
        Mode::ReadWriteCreate,
        Mode::ReadWriteCreateOrTruncate,
        Mode::ReadWriteAppend,
    ] {
        let mut c = fresh();
        let vol = c.get_volume().unwrap();
        let dir = c.open_root_dir(&vol).unwrap();
        let mut f = c.open_file_in_dir(&vol, &dir, b"new.txt", mode).unwrap();
        let mut buf = vec![7u8; 8];
        let n = c.read(&vol, &mut f, &mut buf).unwrap();
        assert_eq!(n, 0);
        assert_eq!(buf, vec![7u8; 8]);
    }
}

#[test]
fn reopen_preserves_size_except_truncate() {
    let mut c = fresh();
    let vol = c.get_volume().unwrap();
    let dir = c.open_root_dir(&vol).unwrap();
    put_file(&mut c, &vol, &dir, b"keep.txt", b"abc");

    // ReadWriteCreate opens the existing file at the start, size preserved.
    let mut f = c
        .open_file_in_dir(&vol, &dir, b"keep.txt", Mode::ReadWriteCreate)
        .unwrap();
    let mut buf = vec![0u8; 8];
    assert_eq!(c.read(&vol, &mut f, &mut buf).unwrap(), 3);
    assert_eq!(&buf[..3], b"abc");
    c.close_file(&vol, &mut f).unwrap();

    // Append opens with the cursor at the end: nothing left to read.
    let mut f = c
        .open_file_in_dir(&vol, &dir, b"keep.txt", Mode::ReadWriteAppend)
        .unwrap();
    let mut buf = vec![0u8; 8];
    assert_eq!(c.read(&vol, &mut f, &mut buf).unwrap(), 0);
    c.close_file(&vol, &mut f).unwrap();
}

#[test]
fn write_then_read_round_trip() {
    let mut c = fresh();
    let vol = c.get_volume().unwrap();
    let dir = c.open_root_dir(&vol).unwrap();
    put_file(&mut c, &vol, &dir, b"rt.txt", b"hello world");
    let mut f = c
        .open_file_in_dir(&vol, &dir, b"rt.txt", Mode::ReadOnly)
        .unwrap();
    let mut buf = vec![0u8; 64];
    let n = c.read(&vol, &mut f, &mut buf).unwrap();
    assert_eq!(n, 11);
    assert_eq!(&buf[..11], b"hello world");
}

#[test]
fn close_file_twice_rejected() {
    let mut c = fresh();
    let vol = c.get_volume().unwrap();
    let dir = c.open_root_dir(&vol).unwrap();
    let mut f = c
        .open_file_in_dir(&vol, &dir, b"a.txt", Mode::ReadWriteCreate)
        .unwrap();
    assert!(c.close_file(&vol, &mut f).is_ok());
    assert!(matches!(
        c.close_file(&vol, &mut f),
        Err(FsError::InvalidHandle)
    ));
}

#[test]
fn close_dir_twice_rejected() {
    let mut c = fresh();
    let vol = c.get_volume().unwrap();
    let mut dir = c.open_root_dir(&vol).unwrap();
    assert!(c.close_dir(&vol, &mut dir).is_ok());
    assert!(matches!(
        c.close_dir(&vol, &mut dir),
        Err(FsError::InvalidHandle)
    ));
}

#[test]
fn truncate_then_read_is_empty() {
    let mut c = fresh();
    let vol = c.get_volume().unwrap();
    let dir = c.open_root_dir(&vol).unwrap();
    put_file(&mut c, &vol, &dir, b"t.txt", b"not empty at all");
    let mut f = c
        .open_file_in_dir(&vol, &dir, b"t.txt", Mode::ReadWriteCreateOrTruncate)
        .unwrap();
    let mut buf = vec![9u8; 32];
    assert_eq!(c.read(&vol, &mut f, &mut buf).unwrap(), 0);
    assert_eq!(buf, vec![9u8; 32]);
}

#[test]
fn append_places_new_bytes_after_old() {
    let mut c = fresh();
    let vol = c.get_volume().unwrap();
    let dir = c.open_root_dir(&vol).unwrap();
    put_file(&mut c, &vol, &dir, b"log.txt", b"abc");
    let mut f = c
        .open_file_in_dir(&vol, &dir, b"log.txt", Mode::ReadWriteAppend)
        .unwrap();
    assert_eq!(c.write(&vol, &mut f, b"def").unwrap(), 3);
    c.close_file(&vol, &mut f).unwrap();

    let mut f = c
        .open_file_in_dir(&vol, &dir, b"log.txt", Mode::ReadOnly)
        .unwrap();
    let mut buf = vec![0u8; 16];
    let n = c.read(&vol, &mut f, &mut buf).unwrap();
    assert_eq!(n, 6);
    assert_eq!(&buf[..6], b"abcdef");
}

#[test]
fn overwrite_keeps_tail_past_written_range() {
    let mut c = fresh();
    let vol = c.get_volume().unwrap();
    let dir = c.open_root_dir(&vol).unwrap();
    put_file(&mut c, &vol, &dir, b"mid.txt", b"abcdef");
    // ReadWriteCreate positions the cursor at the start of the existing file.
    let mut f = c
        .open_file_in_dir(&vol, &dir, b"mid.txt", Mode::ReadWriteCreate)
        .unwrap();
    assert_eq!(c.write(&vol, &mut f, b"XY").unwrap(), 2);
    c.close_file(&vol, &mut f).unwrap();

    let mut f = c
        .open_file_in_dir(&vol, &dir, b"mid.txt", Mode::ReadOnly)
        .unwrap();
    let mut buf = vec![0u8; 16];
    let n = c.read(&vol, &mut f, &mut buf).unwrap();
    assert_eq!(n, 6);
    assert_eq!(&buf[..6], b"XYcdef");
}

#[test]
fn scenario_offset_txt() {
    let msg: &[u8] = b"Testing writing sd mod";
    let mut c = fresh();
    let vol = c.get_volume().unwrap();
    let mut dir = c.open_root_dir(&vol).unwrap();
    let mut f = c
        .open_file_in_dir(&vol, &dir, b"offset.txt", Mode::ReadWriteCreateOrTruncate)
        .unwrap();
    assert_eq!(c.write(&vol, &mut f, msg).unwrap(), msg.len());
    c.close_file(&vol, &mut f).unwrap();
    c.close_dir(&vol, &mut dir).unwrap();

    let dir = c.open_root_dir(&vol).unwrap();
    let mut f = c
        .open_file_in_dir(&vol, &dir, b"offset.txt", Mode::ReadOnly)
        .unwrap();
    let mut buf = vec![0u8; 64];
    let n = c.read(&vol, &mut f, &mut buf).unwrap();
    assert_eq!(n, msg.len());
    assert_eq!(&buf[..n], msg);
    assert!(buf[n..].iter().all(|&b| b == 0));
}

#[test]
fn short_and_long_buffer_reads() {
    let mut c = fresh();
    let vol = c.get_volume().unwrap();
    let dir = c.open_root_dir(&vol).unwrap();
    put_file(&mut c, &vol, &dir, b"five.txt", b"xyzab");

    // A buffer shorter than the file: exactly buffer-length bytes, no error.
    let mut f = c
        .open_file_in_dir(&vol, &dir, b"five.txt", Mode::ReadOnly)
        .unwrap();
    let mut small = vec![0u8; 3];
    assert_eq!(c.read(&vol, &mut f, &mut small).unwrap(), 3);
    assert_eq!(&small[..], b"xyz");
    // The cursor advanced: the rest comes next.
    assert_eq!(c.read(&vol, &mut f, &mut small).unwrap(), 2);
    assert_eq!(&small[..2], b"ab");

    // A buffer longer than the file: a short read, not an error.
    let mut f = c
        .open_file_in_dir(&vol, &dir, b"five.txt", Mode::ReadOnly)
        .unwrap();
    let mut large = vec![0u8; 10];
    assert_eq!(c.read(&vol, &mut f, &mut large).unwrap(), 5);
    assert_eq!(&large[..5], b"xyzab");
}

#[test]
fn volume_error_on_empty_medium() {
    let mut c = StorageController::new(RamDevice::new(0), FakeClock);
    assert!(matches!(c.get_volume(), Err(FsError::VolumeError)));
}

#[test]
fn volume_error_on_unreadable_medium() {
    let mut c = StorageController::new(FaultyDevice::new(64, true), FakeClock);
    assert!(matches!(c.get_volume(), Err(FsError::VolumeError)));
}

#[test]
fn device_error_on_failed_flush() {
    let mut c = StorageController::new(FaultyDevice::new(64, false), FakeClock);
    let vol = c.get_volume().unwrap();
    let dir = c.open_root_dir(&vol).unwrap();
    let mut f = c
        .open_file_in_dir(&vol, &dir, b"risky.txt", Mode::ReadWriteCreate)
        .unwrap();
    assert_eq!(c.write(&vol, &mut f, b"data").unwrap(), 4);
    // The flush cannot complete: the failure is surfaced, and the handle
    // stays open so the caller decides what to do.
    assert!(matches!(
        c.close_file(&vol, &mut f),
        Err(FsError::DeviceError)
    ));
    assert!(matches!(
        c.close_file(&vol, &mut f),
        Err(FsError::DeviceError)
    ));
}

#[test]
fn directory_full_when_no_entry_slot_left() {
    // The root directory is one header block: 512 / 32 = 16 entry slots.
    let mut c = fresh();
    let vol = c.get_volume().unwrap();
    let dir = c.open_root_dir(&vol).unwrap();
    for i in 0..16u8 {
        let name = vec![b'f', b'0' + (i / 10), b'0' + (i % 10)];
        assert!(c
            .open_file_in_dir(&vol, &dir, &name, Mode::ReadWriteCreate)
            .is_ok());
    }
    let r = c.open_file_in_dir(&vol, &dir, b"one-too-many", Mode::ReadWriteCreate);
    assert!(matches!(r, Err(FsError::DirectoryFull)));
}

#[test]
fn no_space_when_medium_is_full() {
    // 9 blocks: the header plus a data area of 8 blocks, 4096 bytes.
    let mut c = StorageController::new(RamDevice::new(9), FakeClock);
    let vol = c.get_volume().unwrap();
    let dir = c.open_root_dir(&vol).unwrap();
    let mut f = c
        .open_file_in_dir(&vol, &dir, b"big.txt", Mode::ReadWriteCreate)
        .unwrap();
    // Exactly the medium's data area fits...
    assert_eq!(c.write(&vol, &mut f, &vec![1u8; 4096]).unwrap(), 4096);
    // ...one more byte would need a block the medium does not have.
    assert!(matches!(
        c.write(&vol, &mut f, b"x"),
        Err(FsError::NoSpace)
    ));
    // A second file still gets its entry slot, but no block for content.
    let mut g = c
        .open_file_in_dir(&vol, &dir, b"tiny.txt", Mode::ReadWriteCreate)
        .unwrap();
    assert!(matches!(
        c.write(&vol, &mut g, b"y"),
        Err(FsError::NoSpace)
    ));
}

#[test]
fn file_grows_with_the_medium() {
    // Content is bounded by the medium, not by any per-file figure: on a
    // 1024-block medium a file can span many blocks.
    let mut c = fresh();
    let vol = c.get_volume().unwrap();
    let dir = c.open_root_dir(&vol).unwrap();
    let big: Vec<u8> = (0..50000usize).map(|i| (i % 251) as u8).collect();
    let mut f = c
        .open_file_in_dir(&vol, &dir, b"big.bin", Mode::ReadWriteCreateOrTruncate)
        .unwrap();
    assert_eq!(c.write(&vol, &mut f, &big).unwrap(), big.len());
    c.close_file(&vol, &mut f).unwrap();
    let mut f = c
        .open_file_in_dir(&vol, &dir, b"big.bin", Mode::ReadOnly)
        .unwrap();
    let mut buf = vec![0u8; 60000];
    let n = c.read(&vol, &mut f, &mut buf).unwrap();
    assert_eq!(n, big.len());
    assert_eq!(&buf[..n], &big[..]);
}

#[test]
fn stale_handles_rejected_after_remount() {
    let mut c = fresh();
    let vol1 = c.get_volume().unwrap();
    let dir1 = c.open_root_dir(&vol1).unwrap();
    let mut f1 = c
        .open_file_in_dir(&vol1, &dir1, b"old.txt", Mode::ReadWriteCreate)
        .unwrap();
    let vol2 = c.get_volume().unwrap();

    // A stale volume handle cannot open the root directory.
    assert!(matches!(
        c.open_root_dir(&vol1),
        Err(FsError::DirectoryError)
    ));
    // Handles of the earlier mount are invalid, under either volume.
    let mut buf = vec![0u8; 4];
    assert!(matches!(
        c.read(&vol2, &mut f1, &mut buf),
        Err(FsError::InvalidHandle)
    ));
    assert!(matches!(
        c.write(&vol1, &mut f1, b"x"),
        Err(FsError::InvalidHandle)
    ));
    assert!(matches!(
        c.close_file(&vol1, &mut f1),
        Err(FsError::InvalidHandle)
    ));
}

#[test]
fn write_on_read_only_handle_rejected() {
    let mut c = fresh();
    let vol = c.get_volume().unwrap();
    let dir = c.open_root_dir(&vol).unwrap();
    put_file(&mut c, &vol, &dir, b"ro.txt", b"abc");
    let mut f = c
        .open_file_in_dir(&vol, &dir, b"ro.txt", Mode::ReadOnly)
        .unwrap();
    assert!(matches!(
        c.write(&vol, &mut f, b"nope"),
        Err(FsError::InvalidHandle)
    ));
}

#[test]
fn close_dir_waits_for_open_files() {
    let mut c = fresh();
    let vol = c.get_volume().unwrap();
    let mut dir = c.open_root_dir(&vol).unwrap();
    let mut f = c
        .open_file_in_dir(&vol, &dir, b"a.txt", Mode::ReadWriteCreate)
        .unwrap();
    assert!(matches!(
        c.close_dir(&vol, &mut dir),
        Err(FsError::InvalidHandle)
    ));
    c.close_file(&vol, &mut f).unwrap();
    assert!(c.close_dir(&vol, &mut dir).is_ok());
}

#[test]
fn ram_device_round_trip_and_range_check() {
    let mut d = RamDevice::new(4);
    let pattern: Vec<u8> = (0..512).map(|i| (i % 251) as u8).collect();
    assert!(d.write_blocks(2, &pattern).is_ok());
    let back = d.read_blocks(2, 1).unwrap();
    assert_eq!(back, pattern);
    // Out of range: one block past the end.
    assert!(d.read_blocks(4, 1).is_err());
    assert!(d.write_blocks(4, &pattern).is_err());
}
