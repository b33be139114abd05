//! The in-memory backend: an explicit registry (arena) of inode records
//! indexed by stable integer id, handle types for inodes and open files, and
//! cursor-based byte I/O over per-inode growable buffers.
//!
//! The directory tree is an arena plus per-directory name-to-id index, never
//! direct parent/child ownership; every operation threads the registry
//! explicitly, so each backend instance is independent and testable.

use vstd::prelude::*;

use crate::lex::{lex_lt, lemma_lex_lt_irrefl, lemma_lex_lt_total, lemma_lex_lt_trans, str_lt};
use crate::vfs::{
    read_amount, read_bytes, seek_target, write_bytes, FsError, InodeKind, Metadata, SeekFrom,
};

verus! {

/// Mathematical model of one inode record: its kind, buffer contents, and
/// name-to-id directory index (meaningful only for directories).
pub struct InodeModel {
    pub kind: InodeKind,
    pub data: Seq<u8>,
    pub children: Seq<(Seq<char>, int)>,
}

/// One record of the registry.
struct InodeRec {
    kind: InodeKind,
    data: Vec<u8>,
    children: Vec<(String, usize)>,
}

/// The model of a directory index held in executable form.
pub open spec fn kids_model(cs: Seq<(String, usize)>) -> Seq<(Seq<char>, int)> {
    cs.map(|i: int, p: (String, usize)| (p.0@, p.1 as int))
}

impl InodeRec {
    spec fn model(self) -> InodeModel {
        InodeModel { kind: self.kind, data: self.data@, children: kids_model(self.children@) }
    }
}

/// A directory index is well formed when every child id points into the
/// registry and the names are strictly sorted (hence unique).
pub open spec fn children_wf(cs: Seq<(Seq<char>, int)>, n: int) -> bool {
    &&& forall|i: int| 0 <= i < cs.len() ==> 0 <= (#[trigger] cs[i]).1 < n
    &&& forall|i: int, j: int| 0 <= i < j < cs.len() ==> lex_lt(cs[i].0, cs[j].0)
}

/// Whether the index maps `name` to some child.
pub open spec fn contains_name(cs: Seq<(Seq<char>, int)>, name: Seq<char>) -> bool {
    exists|i: int| 0 <= i < cs.len() && (#[trigger] cs[i]).0 == name
}

/// A reference to a filesystem object: its stable registry id and its kind.
/// Handles are plain values; they are obtained from `root`, `readdir`,
/// `create` or `mkdir` and stay valid for the backend's lifetime.
#[derive(Debug, Clone, Copy, PartialEq, Eq, Structural)]
pub struct Inode {
    pub id: usize,
    pub kind: InodeKind,
}

/// One entry of a directory snapshot.
#[derive(Debug)]
pub struct DirEntry {
    pub name: String,
    pub inode: Inode,
}

/// A transient, cursor-bearing view of an inode, created by `Inode::open`.
/// Each handle owns its cursor; cursors are never shared between handles.
#[derive(Debug)]
pub struct File {
    pub inode: Inode,
    pub position: u64,
}

/// The in-memory backend: the authoritative table of inode records.
/// Id 0 always exists and is the root directory.
pub struct Ramdisk {
    inodes: Vec<InodeRec>,
}

impl View for Ramdisk {
    type V = Seq<InodeModel>;

    closed spec fn view(&self) -> Seq<InodeModel> {
        self.inodes@.map(|i: int, r: InodeRec| r.model())
    }
}

impl Ramdisk {
    /// Registry invariant: the root exists and is a directory, every
    /// directory index is well formed, and every buffer fits the machine.
    pub open spec fn wf(self) -> bool {
        &&& self@.len() >= 1
        &&& self@[0].kind == InodeKind::Directory
        &&& forall|i: int|
            0 <= i < self@.len() ==> children_wf(
                (#[trigger] self@[i]).children,
                self@.len() as int,
            )
        &&& forall|i: int| 0 <= i < self@.len() ==> (#[trigger] self@[i]).data.len() <= usize::MAX
    }

    /// The model of a freshly constructed backend: one empty root directory.
    pub open spec fn fresh_model() -> Seq<InodeModel> {
        seq![
            InodeModel {
                kind: InodeKind::Directory,
                data: Seq::empty(),
                children: Seq::empty(),
            },
        ]
    }

    /// Constructs a backend whose registry holds exactly the empty root
    /// directory at id 0.
    pub fn new() -> (fs: Ramdisk)
        ensures
            fs@ == Ramdisk::fresh_model(),
            fs.wf(),
    {
        let mut inodes: Vec<InodeRec> = Vec::new();
        inodes.push(InodeRec { kind: InodeKind::Directory, data: Vec::new(), children: Vec::new() });
        let fs = Ramdisk { inodes };
        proof {
            assert(kids_model(Seq::empty()) =~= Seq::<(Seq<char>, int)>::empty());
            assert(fs@ =~~= Ramdisk::fresh_model());
        }
        fs
    }

    /// The backend's root inode: always the directory with id 0.
    pub fn root(&self) -> (r: Result<Inode, FsError>)
        requires
            self.wf(),
        ensures
            r == Ok::<Inode, FsError>(Inode { id: 0, kind: InodeKind::Directory }),
    {
        proof {
            assert(self@[0] == self.inodes@[0].model());
        }
        Ok(Inode { id: 0, kind: self.inodes[0].kind })
    }

    /// Stable diagnostic identifier of this backend.
    pub fn name(&self) -> (r: &'static str)
        ensures
            r@ == "ramdisk"@,
    {
        "ramdisk"
    }
}

impl crate::vfs::FileSystem for Ramdisk {
    open spec fn fs_wf(&self) -> bool {
        self.wf()
    }

    fn root(&self) -> (r: Result<Inode, FsError>) {
        Ramdisk::root(self)
    }

    fn name(&self) -> (r: &'static str) {
        Ramdisk::name(self)
    }
}

impl Inode {
    /// The file handle `open` yields: bound to this inode, cursor at 0.
    pub open spec fn spec_open(self) -> File {
        File { inode: self, position: 0 }
    }

    /// Opens this inode as a byte stream; the new handle's cursor starts
    /// at 0. Opening a directory is permitted and views its (normally
    /// empty) buffer.
    pub fn open(&self) -> (r: Result<File, FsError>)
        ensures
            r == Ok::<File, FsError>(self.spec_open()),
    {
        Ok(File { inode: *self, position: 0 })
    }

    /// The kind this handle refers to.
    pub fn kind(&self) -> (k: InodeKind)
        ensures
            k == self.kind,
    {
        self.kind
    }

    /// Kind and live buffer length of the referenced record, read from the
    /// registry at query time; a handle alien to `fs` yields `NotFound`.
    pub fn metadata(&self, fs: &Ramdisk) -> (r: Result<Metadata, FsError>)
        requires
            fs.wf(),
        ensures
            self.id < fs@.len() ==> (r matches Ok(m) && m.kind == fs@[self.id as int].kind
                && m.size as nat == fs@[self.id as int].data.len()),
            self.id >= fs@.len() ==> r == Err::<Metadata, FsError>(FsError::NotFound),
    {
        if self.id < fs.inodes.len() {
            proof {
                assert(fs@[self.id as int] == fs.inodes@[self.id as int].model());
            }
            let rec = &fs.inodes[self.id];
            Ok(Metadata { kind: rec.kind, size: rec.data.len() as u64 })
        } else {
            Err(FsError::NotFound)
        }
    }
}

/// Copies into the prefix of `buf` the bytes of `data` from `pos` on, as
/// many as fit; returns the count. Never reads past end of data.
fn read_at(data: &Vec<u8>, pos: u64, buf: &mut Vec<u8>) -> (n: usize)
    ensures
        n as nat == read_amount(data@.len(), pos as nat, old(buf)@.len()),
        final(buf)@.len() == old(buf)@.len(),
        final(buf)@.subrange(0, n as int) == read_bytes(data@, pos as nat, old(buf)@.len()),
        final(buf)@.skip(n as int) == old(buf)@.skip(n as int),
{
    let ghost obuf: Seq<u8> = buf@;
    let cap = buf.len();
    let dlen = data.len();
    if pos >= dlen as u64 {
        proof {
            assert(buf@.subrange(0, 0) =~= read_bytes(data@, pos as nat, cap as nat));
            assert(buf@.skip(0) =~= old(buf)@.skip(0));
        }
        return 0;
    }
    let p = pos as usize;
    let avail = dlen - p;
    let n = if avail < cap {
        avail
    } else {
        cap
    };
    let mut i: usize = 0;
    while i < n
        invariant
            i <= n,
            n <= cap,
            p + n <= dlen,
            p == pos,
            cap == obuf.len(),
            dlen == data@.len(),
            n as nat == read_amount(data@.len(), pos as nat, cap as nat),
            buf@.len() == cap,
            forall|k: int| 0 <= k < i ==> buf@[k] == data@[p + k],
            forall|k: int| i <= k < cap ==> buf@[k] == obuf[k],
        decreases n - i,
    {
        let b = data[p + i];
        buf[i] = b;
        i = i + 1;
    }
    proof {
        assert(buf@.subrange(0, n as int) =~= read_bytes(data@, pos as nat, cap as nat));
        assert(buf@.skip(n as int) =~= old(buf)@.skip(n as int));
    }
    n
}

/// Writes all of `buf` into `data` at `pos`: grows the buffer when the write
/// ends past its old length and zero-fills any gap below `pos`.
fn write_at(data: &mut Vec<u8>, pos: usize, buf: &Vec<u8>)
    requires
        pos + buf@.len() <= usize::MAX,
    ensures
        final(data)@ == write_bytes(old(data)@, pos as nat, buf@),
{
    let ghost orig: Seq<u8> = data@;
    let len = buf.len();
    let end = pos + len;
    while data.len() < end
        invariant
            end == pos + len,
            len == buf@.len(),
            data@.len() >= orig.len(),
            data@.len() <= (if orig.len() < end {
                end as int
            } else {
                orig.len() as int
            }),
            forall|k: int| 0 <= k < orig.len() ==> data@[k] == orig[k],
            forall|k: int| orig.len() <= k < data@.len() ==> data@[k] == 0u8,
        decreases end - data@.len(),
    {
        data.push(0u8);
    }
    let mut i: usize = 0;
    while i < len
        invariant
            i <= len,
            end == pos + len,
            len == buf@.len(),
            end <= data@.len() || len == 0,
            data@.len() == (if orig.len() < end {
                end as int
            } else {
                orig.len() as int
            }),
            forall|k: int|
                0 <= k < data@.len() && !(pos <= k < pos + i) ==> data@[k] == (if k < orig.len() {
                    orig[k]
                } else {
                    0u8
                }),
            forall|k: int| pos <= k < pos + i ==> data@[k] == buf@[k - pos],
        decreases len - i,
    {
        let b = buf[i];
        data[pos + i] = b;
        i = i + 1;
    }
    proof {
        assert(data@ =~= write_bytes(orig, pos as nat, buf@));
    }
}

impl File {
    /// Moves the cursor: `Start` sets it, `End` offsets from the live buffer
    /// length, `Current` offsets from the cursor itself. A target that is
    /// negative or does not fit the cursor is rejected with `IoError` and
    /// leaves the cursor unmoved; a handle alien to `fs` yields `NotFound`.
    pub fn seek(&mut self, fs: &Ramdisk, pos: SeekFrom) -> (r: Result<u64, FsError>)
        requires
            fs.wf(),
        ensures
            old(self).inode.id >= fs@.len() ==> r == Err::<u64, FsError>(FsError::NotFound)
                && *final(self) == *old(self),
            old(self).inode.id < fs@.len() ==> ({
                let t = seek_target(
                    pos,
                    fs@[old(self).inode.id as int].data.len(),
                    old(self).position as nat,
                );
                &&& (0 <= t <= u64::MAX ==> r == Ok::<u64, FsError>(t as u64) && final(self).inode == old(self).inode && final(self).position == t)
                &&& (!(0 <= t <= u64::MAX) ==> r == Err::<u64, FsError>(FsError::IoError) && *final(self) == *old(self))
            }),
    {
        let id = self.inode.id;
        if id >= fs.inodes.len() {
            return Err(FsError::NotFound);
        }
        proof {
            assert(fs@[id as int] == fs.inodes@[id as int].model());
        }
        let size = fs.inodes[id].data.len() as u64;
        let target: i128 = match pos {
            SeekFrom::Start(offset) => offset as i128,
            SeekFrom::End(offset) => size as i128 + offset as i128,
            SeekFrom::Current(offset) => self.position as i128 + offset as i128,
        };
        if target < 0 || target > u64::MAX as i128 {
            return Err(FsError::IoError);
        }
        self.position = target as u64;
        Ok(self.position)
    }

    /// Copies `min(len(buf), max(0, size - cursor))` bytes from the inode's
    /// buffer at the cursor into the prefix of `buf`, advances the cursor by
    /// that count and returns it; at or past end of data it reads 0 bytes.
    pub fn read(&mut self, fs: &Ramdisk, buf: &mut Vec<u8>) -> (r: Result<usize, FsError>)
        requires
            fs.wf(),
        ensures
            old(self).inode.id >= fs@.len() ==> r == Err::<usize, FsError>(FsError::NotFound)
                && *final(self) == *old(self) && final(buf)@ == old(buf)@,
            old(self).inode.id < fs@.len() ==> ({
                let data = fs@[old(self).inode.id as int].data;
                let n = read_amount(data.len(), old(self).position as nat, old(buf)@.len());
                &&& r == Ok::<usize, FsError>(n as usize)
                &&& final(self).inode == old(self).inode
                &&& final(self).position as nat == old(self).position as nat + n
                &&& final(buf)@.len() == old(buf)@.len()
                &&& final(buf)@.subrange(0, n as int) == read_bytes(
                    data,
                    old(self).position as nat,
                    old(buf)@.len(),
                )
                &&& final(buf)@.skip(n as int) == old(buf)@.skip(n as int)
            }),
    {
        let id = self.inode.id;
        if id >= fs.inodes.len() {
            return Err(FsError::NotFound);
        }
        proof {
            assert(fs@[id as int] == fs.inodes@[id as int].model());
        }
        let n = read_at(&fs.inodes[id].data, self.position, buf);
        self.position = self.position + n as u64;
        Ok(n)
    }

    /// Writes all of `buf` at the cursor: the buffer grows when the write
    /// ends past its old length, any gap below the cursor is zero-filled,
    /// and the cursor advances by `len(buf)`. A write whose end does not fit
    /// the machine is rejected with `IoError` (capacity exhaustion); a
    /// handle alien to `fs` yields `NotFound`.
    pub fn write(&mut self, fs: &mut Ramdisk, buf: &Vec<u8>) -> (r: Result<usize, FsError>)
        requires
            old(fs).wf(),
        ensures
            final(fs).wf(),
            old(self).inode.id >= old(fs)@.len() ==> r == Err::<usize, FsError>(FsError::NotFound)
                && *final(self) == *old(self) && final(fs)@ == old(fs)@,
            old(self).inode.id < old(fs)@.len() ==> ({
                let id = old(self).inode.id as int;
                let end = old(self).position as nat + buf@.len();
                &&& (end > usize::MAX ==> r == Err::<usize, FsError>(FsError::IoError) && *final(self) == *old(self) && final(fs)@ == old(fs)@)
                &&& (end <= usize::MAX ==> ({
                    &&& r == Ok::<usize, FsError>(buf@.len() as usize)
                    &&& final(fs)@ == old(fs)@.update(
                        id,
                        InodeModel {
                            data: write_bytes(
                                old(fs)@[id].data,
                                old(self).position as nat,
                                buf@,
                            ),
                            ..old(fs)@[id]
                        },
                    )
                    &&& final(self).inode == old(self).inode
                    &&& final(self).position as nat == end
                }))
            }),
    {
        let id = self.inode.id;
        if id >= fs.inodes.len() {
            return Err(FsError::NotFound);
        }
        let len = buf.len();
        if self.position > usize::MAX as u64 - len as u64 {
            return Err(FsError::IoError);
        }
        let p = self.position as usize;
        proof {
            assert(fs@[id as int] == fs.inodes@[id as int].model());
        }
        let rec = &mut fs.inodes[id];
        write_at(&mut rec.data, p, buf);
        self.position = self.position + len as u64;
        proof {
            assert(fs@ =~= old(fs)@.update(
                id as int,
                InodeModel {
                    data: write_bytes(old(fs)@[id as int].data, p as nat, buf@),
                    ..old(fs)@[id as int]
                },
            ));
            assert forall|i: int| 0 <= i < fs@.len() implies children_wf(
                (#[trigger] fs@[i]).children,
                fs@.len() as int,
            ) && fs@[i].data.len() <= usize::MAX by {
                assert(old(fs).wf());
            }
            assert(fs.wf());
        }
        Ok(len)
    }
}

/// A directory snapshot matches the index it was taken from: same length,
/// same names in the same order, and each entry's handle carries the child's
/// id and registry kind.
pub open spec fn entries_match(es: Seq<DirEntry>, m: Seq<InodeModel>, cs: Seq<(Seq<char>, int)>) -> bool {
    &&& es.len() == cs.len()
    &&& forall|i: int|
        0 <= i < cs.len() ==> ((#[trigger] es[i]).name@ == cs[i].0 && es[i].inode.id as int
            == cs[i].1 && es[i].inode.kind == m[cs[i].1].kind)
}

/// The index with `(name, id)` inserted at its sorted position.
pub open spec fn insert_sorted(cs: Seq<(Seq<char>, int)>, name: Seq<char>, id: int) -> Seq<
    (Seq<char>, int),
>
    decreases cs.len(),
{
    if cs.len() == 0 {
        seq![(name, id)]
    } else if lex_lt(cs[0].0, name) {
        seq![cs[0]] + insert_sorted(cs.skip(1), name, id)
    } else {
        seq![(name, id)] + cs
    }
}

/// The index with its entry named `name` removed (the first such entry; in a
/// well-formed index names are unique).
pub open spec fn remove_name(cs: Seq<(Seq<char>, int)>, name: Seq<char>) -> Seq<(Seq<char>, int)>
    decreases cs.len(),
{
    if cs.len() == 0 {
        cs
    } else if cs[0].0 == name {
        cs.skip(1)
    } else {
        seq![cs[0]] + remove_name(cs.skip(1), name)
    }
}

/// What `create`, `mkdir` and their shared body promise: each error comes on
/// exactly the stated inputs, and on success the new record is appended and
/// the parent's index gains the name at its sorted position.
pub open spec fn add_child_spec(
    pre: Seq<InodeModel>,
    pid: int,
    name: Seq<char>,
    kind: InodeKind,
    post: Seq<InodeModel>,
    r: Result<Inode, FsError>,
) -> bool {
    &&& (pid >= pre.len() ==> r == Err::<Inode, FsError>(FsError::NotFound) && post == pre)
    &&& (pid < pre.len() && pre[pid].kind != InodeKind::Directory ==> r == Err::<Inode, FsError>(
        FsError::NotADirectory,
    ) && post == pre)
    &&& (pid < pre.len() && pre[pid].kind == InodeKind::Directory && contains_name(
        pre[pid].children,
        name,
    ) ==> r == Err::<Inode, FsError>(FsError::AlreadyExists) && post == pre)
    &&& (pid < pre.len() && pre[pid].kind == InodeKind::Directory && !contains_name(
        pre[pid].children,
        name,
    ) ==> ({
        &&& r == Ok::<Inode, FsError>(Inode { id: pre.len() as usize, kind })
        &&& post == pre.update(
            pid,
            InodeModel {
                children: insert_sorted(pre[pid].children, name, pre.len() as int),
                ..pre[pid]
            },
        ).push(InodeModel { kind, data: Seq::empty(), children: Seq::empty() })
    }))
}

proof fn lemma_insert_sorted_at(cs: Seq<(Seq<char>, int)>, name: Seq<char>, id: int, k: int)
    requires
        0 <= k <= cs.len(),
        forall|j: int| 0 <= j < k ==> lex_lt((#[trigger] cs[j]).0, name),
        k < cs.len() ==> !lex_lt(cs[k].0, name),
    ensures
        insert_sorted(cs, name, id) == cs.take(k) + seq![(name, id)] + cs.skip(k),
    decreases k,
{
    if k == 0 {
        assert(insert_sorted(cs, name, id) =~= cs.take(0) + seq![(name, id)] + cs.skip(0));
    } else {
        assert forall|j: int| 0 <= j < k - 1 implies lex_lt(
            (#[trigger] cs.skip(1)[j]).0,
            name,
        ) by {
            assert(cs.skip(1)[j] == cs[j + 1]);
        }
        lemma_insert_sorted_at(cs.skip(1), name, id, k - 1);
        assert(insert_sorted(cs, name, id) =~= cs.take(k) + seq![(name, id)] + cs.skip(k));
    }
}

proof fn lemma_remove_name_at(cs: Seq<(Seq<char>, int)>, name: Seq<char>, k: int)
    requires
        0 <= k < cs.len(),
        forall|j: int| 0 <= j < k ==> (#[trigger] cs[j]).0 != name,
        cs[k].0 == name,
    ensures
        remove_name(cs, name) == cs.take(k) + cs.skip(k + 1),
    decreases k,
{
    if k == 0 {
        assert(remove_name(cs, name) =~= cs.take(0) + cs.skip(1));
    } else {
        assert forall|j: int| 0 <= j < k - 1 implies (#[trigger] cs.skip(1)[j]).0 != name by {
            assert(cs.skip(1)[j] == cs[j + 1]);
        }
        lemma_remove_name_at(cs.skip(1), name, k - 1);
        assert(remove_name(cs, name) =~= cs.take(k) + cs.skip(k + 1));
    }
}

/// Scans a sorted index for `name`: yields the insertion slot and whether an
/// entry with that exact name is already there.
fn find_slot(children: &Vec<(String, usize)>, name: &str) -> (r: (usize, bool))
    requires
        forall|i: int, j: int|
            0 <= i < j < children@.len() ==> lex_lt(
                kids_model(children@)[i].0,
                kids_model(children@)[j].0,
            ),
    ensures
        ({
            let cs = kids_model(children@);
            let k = r.0 as int;
            &&& 0 <= k <= cs.len()
            &&& forall|j: int| 0 <= j < k ==> lex_lt((#[trigger] cs[j]).0, name@)
            &&& (r.1 ==> k < cs.len() && cs[k].0 == name@)
            &&& (!r.1 ==> (k == cs.len() || lex_lt(name@, cs[k].0)) && !contains_name(cs, name@))
        }),
{
    let ghost cs = kids_model(children@);
    let mut k: usize = 0;
    while k < children.len()
        invariant
            cs == kids_model(children@),
            k <= children@.len(),
            cs.len() == children@.len(),
            forall|i: int, j: int| 0 <= i < j < cs.len() ==> lex_lt(cs[i].0, cs[j].0),
            forall|j: int| 0 <= j < k ==> lex_lt((#[trigger] cs[j]).0, name@),
        decreases children@.len() - k,
    {
        proof {
            assert(cs[k as int].0 == children@[k as int].0@);
        }
        let lt1 = str_lt(children[k].0.as_str(), name);
        if !lt1 {
            let lt2 = str_lt(name, children[k].0.as_str());
            if !lt2 {
                proof {
                    lemma_lex_lt_total(children@[k as int].0@, name@);
                }
                return (k, true);
            }
            proof {
                assert forall|i: int| 0 <= i < cs.len() implies (#[trigger] cs[i]).0 != name@ by {
                    if cs[i].0 == name@ {
                        if i > k {
                            lemma_lex_lt_trans(name@, cs[k as int].0, cs[i].0);
                        }
                        lemma_lex_lt_irrefl(name@);
                    }
                }
            }
            return (k, false);
        }
        k = k + 1;
    }
    proof {
        assert forall|i: int| 0 <= i < cs.len() implies (#[trigger] cs[i]).0 != name@ by {
            if cs[i].0 == name@ {
                lemma_lex_lt_irrefl(name@);
            }
        }
    }
    (k, false)
}

impl Inode {
    /// A snapshot of the referenced directory: one entry per child currently
    /// registered, ordered by name. The snapshot does not reflect later
    /// mutation. A file-kind record is rejected with `NotADirectory`, a
    /// handle alien to `fs` with `NotFound`.
    pub fn readdir(&self, fs: &Ramdisk) -> (r: Result<Vec<DirEntry>, FsError>)
        requires
            fs.wf(),
        ensures
            self.id >= fs@.len() ==> r == Err::<Vec<DirEntry>, FsError>(FsError::NotFound),
            self.id < fs@.len() && fs@[self.id as int].kind != InodeKind::Directory ==> r == Err::<
                Vec<DirEntry>,
                FsError,
            >(FsError::NotADirectory),
            self.id < fs@.len() && fs@[self.id as int].kind == InodeKind::Directory ==> (r matches
                Ok(es) && entries_match(es@, fs@, fs@[self.id as int].children)),
    {
        let id = self.id;
        if id >= fs.inodes.len() {
            return Err(FsError::NotFound);
        }
        proof {
            assert(fs@[id as int] == fs.inodes@[id as int].model());
        }
        if fs.inodes[id].kind != InodeKind::Directory {
            return Err(FsError::NotADirectory);
        }
        let ghost cs = fs@[id as int].children;
        let mut entries: Vec<DirEntry> = Vec::new();
        let mut i: usize = 0;
        let count = fs.inodes[id].children.len();
        while i < count
            invariant
                fs.wf(),
                id < fs@.len(),
                cs == fs@[id as int].children,
                cs == kids_model(fs.inodes@[id as int].children@),
                count == cs.len(),
                i <= count,
                entries@.len() == i,
                forall|j: int|
                    0 <= j < i ==> ((#[trigger] entries@[j]).name@ == cs[j].0
                        && entries@[j].inode.id as int == cs[j].1 && entries@[j].inode.kind
                        == fs@[cs[j].1].kind),
            decreases count - i,
        {
            proof {
                assert(cs[i as int].0 == fs.inodes@[id as int].children@[i as int].0@);
                assert(children_wf(cs, fs@.len() as int));
                assert(0 <= cs[i as int].1 < fs@.len());
            }
            let name = fs.inodes[id].children[i].0.clone();
            let cid = fs.inodes[id].children[i].1;
            proof {
                assert(fs@[cid as int] == fs.inodes@[cid as int].model());
            }
            let kind = fs.inodes[cid].kind;
            entries.push(DirEntry { name, inode: Inode { id: cid, kind } });
            i = i + 1;
        }
        Ok(entries)
    }
}

impl Ramdisk {
    /// Shared body of `create` and `mkdir`: registers a new empty record of
    /// the given kind and links it under `parent` at its name-sorted slot.
    fn add_child(&mut self, parent: &Inode, name: &str, kind: InodeKind) -> (r: Result<
        Inode,
        FsError,
    >)
        requires
            old(self).wf(),
        ensures
            final(self).wf(),
            add_child_spec(old(self)@, parent.id as int, name@, kind, final(self)@, r),
    {
        let pid = parent.id;
        if pid >= self.inodes.len() {
            return Err(FsError::NotFound);
        }
        proof {
            assert(self@[pid as int] == self.inodes@[pid as int].model());
        }
        if self.inodes[pid].kind != InodeKind::Directory {
            return Err(FsError::NotADirectory);
        }
        let ghost pre = self@;
        let ghost cs = pre[pid as int].children;
        let (k, found) = find_slot(&self.inodes[pid].children, name);
        if found {
            return Err(FsError::AlreadyExists);
        }
        let new_id = self.inodes.len();
        let ghost nid = new_id as int;
        self.inodes.push(InodeRec { kind, data: Vec::new(), children: Vec::new() });
        let rec = &mut self.inodes[pid];
        rec.children.insert(k, (name.to_owned(), new_id));
        proof {
            if (k as int) < cs.len() && lex_lt(cs[k as int].0, name@) {
                lemma_lex_lt_trans(name@, cs[k as int].0, name@);
                lemma_lex_lt_irrefl(name@);
            }
            lemma_insert_sorted_at(cs, name@, nid, k as int);
            let cs2 = insert_sorted(cs, name@, nid);
            assert(kids_model(self.inodes@[pid as int].children@) =~= cs2);
            assert(kids_model(Seq::<(String, usize)>::empty()) =~= Seq::<(Seq<char>, int)>::empty());
            assert(self@ =~~= pre.update(
                pid as int,
                InodeModel { children: cs2, ..pre[pid as int] },
            ).push(InodeModel { kind, data: Seq::empty(), children: Seq::empty() }));
            assert forall|i: int, j: int| 0 <= i < j < cs2.len() implies lex_lt(
                cs2[i].0,
                cs2[j].0,
            ) by {
                assert(children_wf(cs, pre.len() as int));
                if i == k && j - 1 > k {
                    lemma_lex_lt_trans(name@, cs[k as int].0, cs[j - 1].0);
                }
            }
            assert forall|i: int|
                0 <= i < self@.len() implies children_wf(
                (#[trigger] self@[i]).children,
                self@.len() as int,
            ) && self@[i].data.len() <= usize::MAX by {
                assert(children_wf(pre[pid as int].children, pre.len() as int));
                if i < pre.len() && i != pid {
                    assert(children_wf(pre[i].children, pre.len() as int));
                }
            }
            assert(self.wf());
        }
        Ok(Inode { id: new_id, kind })
    }

    /// Creates an empty file-kind inode named `name` under `parent`.
    pub fn create(&mut self, parent: &Inode, name: &str) -> (r: Result<Inode, FsError>)
        requires
            old(self).wf(),
        ensures
            final(self).wf(),
            add_child_spec(old(self)@, parent.id as int, name@, InodeKind::File, final(self)@, r),
    {
        self.add_child(parent, name, InodeKind::File)
    }

    /// Creates an empty directory-kind inode named `name` under `parent`.
    pub fn mkdir(&mut self, parent: &Inode, name: &str) -> (r: Result<Inode, FsError>)
        requires
            old(self).wf(),
        ensures
            final(self).wf(),
            add_child_spec(
                old(self)@,
                parent.id as int,
                name@,
                InodeKind::Directory,
                final(self)@,
                r,
            ),
    {
        self.add_child(parent, name, InodeKind::Directory)
    }

    /// Removes the entry named `name` from `parent`'s index. The record
    /// itself stays in the registry: ids are stable for the backend's
    /// lifetime.
    pub fn unlink(&mut self, parent: &Inode, name: &str) -> (r: Result<(), FsError>)
        requires
            old(self).wf(),
        ensures
            final(self).wf(),
            parent.id >= old(self)@.len() ==> r == Err::<(), FsError>(FsError::NotFound)
                && final(self)@ == old(self)@,
            parent.id < old(self)@.len() && old(self)@[parent.id as int].kind
                != InodeKind::Directory ==> r == Err::<(), FsError>(FsError::NotADirectory)
                && final(self)@ == old(self)@,
            parent.id < old(self)@.len() && old(self)@[parent.id as int].kind
                == InodeKind::Directory && !contains_name(
                old(self)@[parent.id as int].children,
                name@,
            ) ==> r == Err::<(), FsError>(FsError::NotFound) && final(self)@ == old(self)@,
            parent.id < old(self)@.len() && old(self)@[parent.id as int].kind
                == InodeKind::Directory && contains_name(
                old(self)@[parent.id as int].children,
                name@,
            ) ==> r == Ok::<(), FsError>(()) && final(self)@ == old(self)@.update(
                parent.id as int,
                InodeModel {
                    children: remove_name(old(self)@[parent.id as int].children, name@),
                    ..old(self)@[parent.id as int]
                },
            ),
    {
        let pid = parent.id;
        if pid >= self.inodes.len() {
            return Err(FsError::NotFound);
        }
        proof {
            assert(self@[pid as int] == self.inodes@[pid as int].model());
        }
        if self.inodes[pid].kind != InodeKind::Directory {
            return Err(FsError::NotADirectory);
        }
        let ghost pre = self@;
        let ghost cs = pre[pid as int].children;
        let (k, found) = find_slot(&self.inodes[pid].children, name);
        if !found {
            return Err(FsError::NotFound);
        }
        proof {
            assert forall|j: int| 0 <= j < k implies (#[trigger] cs[j]).0 != name@ by {
                if cs[j].0 == name@ {
                    lemma_lex_lt_irrefl(name@);
                }
            }
            lemma_remove_name_at(cs, name@, k as int);
        }
        let rec = &mut self.inodes[pid];
        rec.children.remove(k);
        proof {
            let cs2 = remove_name(cs, name@);
            assert(kids_model(self.inodes@[pid as int].children@) =~= cs2);
            assert(self@ =~~= pre.update(
                pid as int,
                InodeModel { children: cs2, ..pre[pid as int] },
            ));
            assert(children_wf(cs, pre.len() as int));
            assert forall|i: int, j: int| 0 <= i < j < cs2.len() implies lex_lt(
                cs2[i].0,
                cs2[j].0,
            ) by {
                if k <= i {
                    assert(cs2[i] == cs[i + 1]);
                }
                if k <= j {
                    assert(cs2[j] == cs[j + 1]);
                }
            }
            assert forall|i: int|
                0 <= i < self@.len() implies children_wf(
                (#[trigger] self@[i]).children,
                self@.len() as int,
            ) && self@[i].data.len() <= usize::MAX by {
                if i != pid {
                    assert(children_wf(pre[i].children, pre.len() as int));
                }
            }
            assert(self.wf());
        }
        Ok(())
    }
}

} // verus!
