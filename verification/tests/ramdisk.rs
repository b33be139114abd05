use ramfs::ramdisk::Ramdisk;
use ramfs::vfs::FileSystem;
use ramfs::vfs::{FsError, InodeKind, SeekFrom};

#[test]
fn fresh_root_is_directory() {
    let fs = Ramdisk::new();
    let root = fs.root().unwrap();
    assert_eq!(root.kind(), InodeKind::Directory);
}

#[test]
fn fresh_root_readdir_is_empty() {
    let fs = Ramdisk::new();
    let root = fs.root().unwrap();
    let entries = root.readdir(&fs).unwrap();
    assert_eq!(entries.len(), 0);
}

#[test]
fn backend_name_is_ramdisk() {
    let fs = Ramdisk::new();
    assert_eq!(fs.name(), "ramdisk");
}

#[test]
fn write_hi_reports_size_two() {
    let mut fs = Ramdisk::new();
    let root = fs.root().unwrap();
    let file = fs.create(&root, "greeting").unwrap();
    let mut handle = file.open().unwrap();
    let written = handle.write(&mut fs, &vec![b'h', b'i']).unwrap();
    assert_eq!(written, 2);
    let meta = file.metadata(&fs).unwrap();
    assert_eq!(meta.size, 2);
    assert_eq!(meta.kind, InodeKind::File);
}

#[test]
fn seek_start_then_read_yields_hi() {
    let mut fs = Ramdisk::new();
    let root = fs.root().unwrap();
    let file = fs.create(&root, "greeting").unwrap();
    let mut handle = file.open().unwrap();
    assert_eq!(handle.write(&mut fs, &vec![b'h', b'i']).unwrap(), 2);
    assert_eq!(handle.seek(&fs, SeekFrom::Start(0)).unwrap(), 0);
    let mut buf = vec![0u8; 2];
    let n = handle.read(&fs, &mut buf).unwrap();
    assert_eq!(n, 2);
    assert_eq!(buf, vec![b'h', b'i']);
}

#[test]
fn write_read_roundtrip() {
    let mut fs = Ramdisk::new();
    let root = fs.root().unwrap();
    let file = fs.create(&root, "data").unwrap();
    let mut handle = file.open().unwrap();
    let payload = vec![1u8, 2, 3, 4, 5, 255, 0, 7];
    assert_eq!(handle.write(&mut fs, &payload).unwrap(), payload.len());
    assert_eq!(handle.seek(&fs, SeekFrom::Start(0)).unwrap(), 0);
    let mut buf = vec![0u8; 8];
    assert_eq!(handle.read(&fs, &mut buf).unwrap(), 8);
    assert_eq!(buf, payload);
}

#[test]
fn short_read_returns_only_remaining_bytes() {
    let mut fs = Ramdisk::new();
    let root = fs.root().unwrap();
    let file = fs.create(&root, "short").unwrap();
    let mut handle = file.open().unwrap();
    assert_eq!(handle.write(&mut fs, &vec![10u8, 20, 30]).unwrap(), 3);
    assert_eq!(handle.seek(&fs, SeekFrom::Start(0)).unwrap(), 0);
    let mut buf = vec![9u8; 10];
    let n = handle.read(&fs, &mut buf).unwrap();
    assert_eq!(n, 3);
    assert_eq!(&buf[..3], &[10, 20, 30]);
    assert_eq!(&buf[3..], &[9u8; 7]);
}

#[test]
fn seek_end_then_read_yields_zero_bytes() {
    let mut fs = Ramdisk::new();
    let root = fs.root().unwrap();
    let file = fs.create(&root, "tail").unwrap();
    let mut handle = file.open().unwrap();
    assert_eq!(handle.write(&mut fs, &vec![1u8, 2, 3]).unwrap(), 3);
    assert_eq!(handle.seek(&fs, SeekFrom::End(0)).unwrap(), 3);
    let mut buf = vec![0u8; 4];
    assert_eq!(handle.read(&fs, &mut buf).unwrap(), 0);
    assert_eq!(buf, vec![0u8; 4]);
}

#[test]
fn size_after_write_is_max_of_old_size_and_write_end() {
    let mut fs = Ramdisk::new();
    let root = fs.root().unwrap();
    let file = fs.create(&root, "sized").unwrap();
    let mut handle = file.open().unwrap();
    assert_eq!(handle.write(&mut fs, &vec![0u8; 5]).unwrap(), 5);
    // write inside the existing bytes: size stays 5
    assert_eq!(handle.seek(&fs, SeekFrom::Start(1)).unwrap(), 1);
    assert_eq!(handle.write(&mut fs, &vec![7u8, 8]).unwrap(), 2);
    assert_eq!(file.metadata(&fs).unwrap().size, 5);
    // write reaching past the end: size becomes cursor + count
    assert_eq!(handle.seek(&fs, SeekFrom::Start(4)).unwrap(), 4);
    assert_eq!(handle.write(&mut fs, &vec![9u8, 9]).unwrap(), 2);
    assert_eq!(file.metadata(&fs).unwrap().size, 6);
}

#[test]
fn write_past_end_zero_fills_the_gap() {
    let mut fs = Ramdisk::new();
    let root = fs.root().unwrap();
    let file = fs.create(&root, "sparse").unwrap();
    let mut handle = file.open().unwrap();
    assert_eq!(handle.seek(&fs, SeekFrom::Start(5)).unwrap(), 5);
    assert_eq!(handle.write(&mut fs, &vec![42u8]).unwrap(), 1);
    assert_eq!(file.metadata(&fs).unwrap().size, 6);
    assert_eq!(handle.seek(&fs, SeekFrom::Start(0)).unwrap(), 0);
    let mut buf = vec![1u8; 6];
    assert_eq!(handle.read(&fs, &mut buf).unwrap(), 6);
    assert_eq!(buf, vec![0, 0, 0, 0, 0, 42]);
}

#[test]
fn readdir_on_file_fails_not_a_directory() {
    let mut fs = Ramdisk::new();
    let root = fs.root().unwrap();
    let file = fs.create(&root, "plain").unwrap();
    assert_eq!(file.kind(), InodeKind::File);
    let err = file.readdir(&fs).unwrap_err();
    assert_eq!(err, FsError::NotADirectory);
}

#[test]
fn independent_cursors_per_handle() {
    let mut fs = Ramdisk::new();
    let root = fs.root().unwrap();
    let file = fs.create(&root, "shared").unwrap();
    let mut writer = file.open().unwrap();
    assert_eq!(writer.write(&mut fs, &vec![5u8, 6, 7]).unwrap(), 3);
    let mut first = file.open().unwrap();
    let mut second = file.open().unwrap();
    // advance the first cursor; the second must not move
    assert_eq!(first.seek(&fs, SeekFrom::Start(2)).unwrap(), 2);
    let mut buf = vec![0u8; 1];
    assert_eq!(first.read(&fs, &mut buf).unwrap(), 1);
    assert_eq!(buf, vec![7]);
    assert_eq!(second.read(&fs, &mut buf).unwrap(), 1);
    assert_eq!(buf, vec![5]);
}

#[test]
fn readdir_lists_children_sorted_by_name() {
    let mut fs = Ramdisk::new();
    let root = fs.root().unwrap();
    fs.create(&root, "pear").unwrap();
    fs.create(&root, "apple").unwrap();
    fs.mkdir(&root, "mango").unwrap();
    let entries = root.readdir(&fs).unwrap();
    let names: Vec<&str> = entries.iter().map(|e| e.name.as_str()).collect();
    assert_eq!(names, vec!["apple", "mango", "pear"]);
    assert_eq!(entries[1].inode.kind(), InodeKind::Directory);
    assert_eq!(entries[0].inode.kind(), InodeKind::File);
}

#[test]
fn create_existing_name_fails_already_exists() {
    let mut fs = Ramdisk::new();
    let root = fs.root().unwrap();
    fs.create(&root, "twice").unwrap();
    let err = fs.create(&root, "twice").unwrap_err();
    assert_eq!(err, FsError::AlreadyExists);
    let err = fs.mkdir(&root, "twice").unwrap_err();
    assert_eq!(err, FsError::AlreadyExists);
}

#[test]
fn create_under_file_fails_not_a_directory() {
    let mut fs = Ramdisk::new();
    let root = fs.root().unwrap();
    let file = fs.create(&root, "leaf").unwrap();
    let err = fs.create(&file, "child").unwrap_err();
    assert_eq!(err, FsError::NotADirectory);
}

#[test]
fn mkdir_yields_an_empty_directory() {
    let mut fs = Ramdisk::new();
    let root = fs.root().unwrap();
    let dir = fs.mkdir(&root, "nested").unwrap();
    assert_eq!(dir.kind(), InodeKind::Directory);
    assert_eq!(dir.readdir(&fs).unwrap().len(), 0);
    let inner = fs.create(&dir, "inner").unwrap();
    let entries = dir.readdir(&fs).unwrap();
    assert_eq!(entries.len(), 1);
    assert_eq!(entries[0].name, "inner");
    assert_eq!(entries[0].inode, inner);
}

#[test]
fn unlink_removes_the_entry_but_keeps_the_record() {
    let mut fs = Ramdisk::new();
    let root = fs.root().unwrap();
    let file = fs.create(&root, "gone").unwrap();
    let mut handle = file.open().unwrap();
    assert_eq!(handle.write(&mut fs, &vec![1u8]).unwrap(), 1);
    fs.unlink(&root, "gone").unwrap();
    assert_eq!(root.readdir(&fs).unwrap().len(), 0);
    // ids are stable: the record is still readable through the old handle
    assert_eq!(file.metadata(&fs).unwrap().size, 1);
}

#[test]
fn unlink_missing_name_fails_not_found() {
    let mut fs = Ramdisk::new();
    let root = fs.root().unwrap();
    let err = fs.unlink(&root, "absent").unwrap_err();
    assert_eq!(err, FsError::NotFound);
}

#[test]
fn stale_handle_on_another_backend_fails_not_found() {
    let mut fs1 = Ramdisk::new();
    let root1 = fs1.root().unwrap();
    let alien = fs1.create(&root1, "elsewhere").unwrap();
    let fs2 = Ramdisk::new();
    assert_eq!(alien.metadata(&fs2).unwrap_err(), FsError::NotFound);
    assert_eq!(alien.readdir(&fs2).unwrap_err(), FsError::NotFound);
    let mut handle = alien.open().unwrap();
    let mut buf = vec![0u8; 1];
    assert_eq!(handle.read(&fs2, &mut buf).unwrap_err(), FsError::NotFound);
    let mut fs2 = fs2;
    assert_eq!(handle.write(&mut fs2, &buf).unwrap_err(), FsError::NotFound);
    assert_eq!(handle.seek(&fs2, SeekFrom::Start(0)).unwrap_err(), FsError::NotFound);
}

#[test]
fn seek_to_negative_target_fails_io_error() {
    let mut fs = Ramdisk::new();
    let root = fs.root().unwrap();
    let file = fs.create(&root, "cursor").unwrap();
    let mut handle = file.open().unwrap();
    assert_eq!(handle.seek(&fs, SeekFrom::Current(-1)).unwrap_err(), FsError::IoError);
    assert_eq!(handle.seek(&fs, SeekFrom::End(-1)).unwrap_err(), FsError::IoError);
    // the failed seeks left the cursor alone
    assert_eq!(handle.seek(&fs, SeekFrom::Current(0)).unwrap(), 0);
}

#[test]
fn seek_origins_compose() {
    let mut fs = Ramdisk::new();
    let root = fs.root().unwrap();
    let file = fs.create(&root, "origins").unwrap();
    let mut handle = file.open().unwrap();
    assert_eq!(handle.write(&mut fs, &vec![0u8; 10]).unwrap(), 10);
    assert_eq!(handle.seek(&fs, SeekFrom::Start(4)).unwrap(), 4);
    assert_eq!(handle.seek(&fs, SeekFrom::Current(3)).unwrap(), 7);
    assert_eq!(handle.seek(&fs, SeekFrom::Current(-5)).unwrap(), 2);
    assert_eq!(handle.seek(&fs, SeekFrom::End(-4)).unwrap(), 6);
    assert_eq!(handle.seek(&fs, SeekFrom::End(2)).unwrap(), 12);
}

#[test]
fn write_that_cannot_fit_fails_io_error() {
    let mut fs = Ramdisk::new();
    let root = fs.root().unwrap();
    let file = fs.create(&root, "huge").unwrap();
    let mut handle = file.open().unwrap();
    assert_eq!(handle.seek(&fs, SeekFrom::Start(u64::MAX)).unwrap(), u64::MAX);
    let err = handle.write(&mut fs, &vec![1u8]).unwrap_err();
    assert_eq!(err, FsError::IoError);
    // nothing was written
    assert_eq!(file.metadata(&fs).unwrap().size, 0);
}

#[test]
fn read_far_past_end_returns_zero_bytes() {
    let mut fs = Ramdisk::new();
    let root = fs.root().unwrap();
    let file = fs.create(&root, "past").unwrap();
    let mut handle = file.open().unwrap();
    assert_eq!(handle.write(&mut fs, &vec![1u8, 2]).unwrap(), 2);
    assert_eq!(handle.seek(&fs, SeekFrom::Start(100)).unwrap(), 100);
    let mut buf = vec![3u8; 4];
    assert_eq!(handle.read(&fs, &mut buf).unwrap(), 0);
    assert_eq!(buf, vec![3u8; 4]);
}

#[test]
fn root_buffer_opens_as_an_empty_stream() {
    let mut fs = Ramdisk::new();
    let root = fs.root().unwrap();
    let mut handle = root.open().unwrap();
    let mut buf = vec![8u8; 2];
    assert_eq!(handle.read(&fs, &mut buf).unwrap(), 0);
    assert_eq!(handle.write(&mut fs, &vec![]).unwrap(), 0);
}

#[test]
fn filesystem_capability_is_satisfied_by_the_backend() {
    let fs = Ramdisk::new();
    let root = <Ramdisk as FileSystem>::root(&fs).unwrap();
    assert_eq!(root.kind(), InodeKind::Directory);
    assert_eq!(<Ramdisk as FileSystem>::name(&fs), "ramdisk");
}

#[test]
fn empty_write_past_end_still_grows_to_the_cursor() {
    let mut fs = Ramdisk::new();
    let root = fs.root().unwrap();
    let file = fs.create(&root, "stretch").unwrap();
    let mut handle = file.open().unwrap();
    assert_eq!(handle.seek(&fs, SeekFrom::Start(5)).unwrap(), 5);
    assert_eq!(handle.write(&mut fs, &vec![]).unwrap(), 0);
    assert_eq!(file.metadata(&fs).unwrap().size, 5);
}
