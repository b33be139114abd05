//! An in-memory virtual filesystem: capability-style handles (filesystem,
//! inode, file) over an explicit inode registry, with byte-level cursor I/O.

pub mod laws;
pub mod lex;
pub mod ramdisk;
pub mod syscall;
pub mod vfs;
