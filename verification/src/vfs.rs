//! Shared filesystem vocabulary: error taxonomy, inode kinds, metadata,
//! seek origins, the filesystem capability contract, and the specification
//! functions that describe byte-stream reads, writes and cursor movement.

use vstd::prelude::*;

use crate::ramdisk::Inode;

verus! {

/// Terminal outcome of any fallible filesystem operation.
#[derive(Debug, Clone, Copy, PartialEq, Eq, Structural)]
pub enum FsError {
    NotFound,
    NotADirectory,
    NotAFile,
    PermissionDenied,
    AlreadyExists,
    IoError,
}

/// The two kinds of filesystem object.
#[derive(Debug, Clone, Copy, PartialEq, Eq, Structural)]
pub enum InodeKind {
    File,
    Directory,
}

/// A snapshot of an inode's kind and current buffer length.
#[derive(Debug, Clone, Copy)]
pub struct Metadata {
    pub kind: InodeKind,
    pub size: u64,
}

/// Origin for a cursor movement.
#[derive(Debug, Clone, Copy)]
pub enum SeekFrom {
    Start(u64),
    End(i64),
    Current(i64),
}

/// How many bytes a read with a `cap`-byte buffer yields from a `size`-byte
/// stream at cursor `pos`: never past end of data, never an underflow.
pub open spec fn read_amount(size: nat, pos: nat, cap: nat) -> nat {
    if pos >= size {
        0
    } else if size - pos < cap {
        (size - pos) as nat
    } else {
        cap
    }
}

/// The bytes such a read yields.
pub open spec fn read_bytes(data: Seq<u8>, pos: nat, cap: nat) -> Seq<u8> {
    if pos >= data.len() {
        Seq::empty()
    } else {
        data.subrange(pos as int, (pos + read_amount(data.len(), pos, cap)) as int)
    }
}

/// The buffer contents after writing `buf` at cursor `pos`: the buffer grows
/// when the write ends past its old length, and any gap between the old
/// length and `pos` is zero-filled.
pub open spec fn write_bytes(data: Seq<u8>, pos: nat, buf: Seq<u8>) -> Seq<u8> {
    let newlen = if pos + buf.len() > data.len() {
        pos + buf.len()
    } else {
        data.len()
    };
    Seq::new(newlen, |i: int| {
        if pos <= i < pos + buf.len() {
            buf[i - pos]
        } else if i < data.len() {
            data[i]
        } else {
            0u8
        }
    })
}

/// Capability contract of a mounted filesystem: it offers a navigable root
/// and a diagnostic name.
pub trait FileSystem: Sized {
    /// Whether the backend is in a state fit for use.
    spec fn fs_wf(&self) -> bool;

    /// The backend's root inode: always directory-kind.
    fn root(&self) -> (r: Result<Inode, FsError>)
        requires
            self.fs_wf(),
        ensures
            r matches Ok(i) ==> i.kind == InodeKind::Directory,
    ;

    /// Stable diagnostic identifier of the backend.
    fn name(&self) -> (r: &'static str);
}

/// The cursor a seek aims at, as an unbounded integer; a negative or
/// unrepresentable target is rejected by the executable seek.
pub open spec fn seek_target(from: SeekFrom, size: nat, cur: nat) -> int {
    match from {
        SeekFrom::Start(offset) => offset as int,
        SeekFrom::End(offset) => size + offset,
        SeekFrom::Current(offset) => cur + offset,
    }
}

} // verus!
