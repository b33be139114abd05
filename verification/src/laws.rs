//! The laws the backend obeys, stated over the same specification functions
//! its contracts use and proved once for all inputs.

use vstd::prelude::*;

use crate::ramdisk::{File, Inode, Ramdisk};
use crate::vfs::{read_amount, read_bytes, seek_target, write_bytes, InodeKind, SeekFrom};

verus! {

/// Law: a freshly constructed backend is well formed and its root (id 0) is
/// a directory, so `root().kind()` is `Directory`.
pub proof fn lemma_fresh_root_is_directory(fs: Ramdisk)
    requires
        fs@ == Ramdisk::fresh_model(),
    ensures
        fs.wf(),
        fs@[0].kind == InodeKind::Directory,
{
}

/// Law: a freshly constructed backend's root has no children, so its
/// `readdir` snapshot is the empty sequence.
pub proof fn lemma_fresh_root_readdir_empty(fs: Ramdisk)
    requires
        fs@ == Ramdisk::fresh_model(),
    ensures
        fs@[0].children.len() == 0,
{
}

/// Law (round trip): writing `buf` at cursor `pos` and then reading
/// `len(buf)` bytes back from that same position yields `buf` unchanged.
pub proof fn lemma_write_read_roundtrip(data: Seq<u8>, pos: nat, buf: Seq<u8>)
    ensures
        read_amount(write_bytes(data, pos, buf).len(), pos, buf.len()) == buf.len(),
        read_bytes(write_bytes(data, pos, buf), pos, buf.len()) == buf,
{
    let w = write_bytes(data, pos, buf);
    assert(read_bytes(w, pos, buf.len()) =~= buf);
}

/// Law: after writing `len(buf)` bytes at cursor `pos` on a buffer whose
/// prior length was `len(data)`, the reported size is
/// `max(len(data), pos + len(buf))`.
pub proof fn lemma_size_after_write(data: Seq<u8>, pos: nat, buf: Seq<u8>)
    ensures
        write_bytes(data, pos, buf).len() == vstd::math::max(
            data.len() as int,
            (pos + buf.len()) as int,
        ),
{
}

/// Law: `seek(End(0))` places the cursor exactly at end of data, and a read
/// there yields 0 bytes, whatever the buffer's capacity.
pub proof fn lemma_read_at_end_is_empty(data: Seq<u8>, cur: nat, cap: nat)
    ensures
        seek_target(SeekFrom::End(0), data.len(), cur) == data.len(),
        read_amount(data.len(), data.len(), cap) == 0,
        read_bytes(data, data.len(), cap) == Seq::<u8>::empty(),
{
    assert(read_bytes(data, data.len(), cap) =~= Seq::<u8>::empty());
}

/// Law: cursors are per handle, never shared. Two `open` calls on one inode
/// yield two handles whose cursors both start at 0; a handle is a plain
/// value, so moving the first cursor (here: to `t`) produces a handle value
/// whose cursor is `t` while the second handle's cursor is still 0.
pub proof fn lemma_cursors_independent(i: Inode, t: u64)
    ensures
        ({
            let f1 = i.spec_open();
            let f2 = i.spec_open();
            let moved = (File { position: t, ..f1 });
            moved.position == t && moved.inode == i && f2.position == 0 && f2.inode == i
        }),
{
}

} // verus!
