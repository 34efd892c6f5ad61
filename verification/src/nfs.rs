//! The NFS version 2 procedures GETATTR, LOOKUP, READ and READDIR over an
//! exported directory tree.
//!
//! The procedures alternate between decisions and file system work, so each
//! call is a small state machine: [`NfsHandler::dispatch`] decodes the
//! arguments and either answers at once or asks for one file system
//! operation; the caller performs it and hands the outcome back to the
//! matching `on_*` method of the [`NfsCall`], until an answer comes out.

use vstd::prelude::*;
use vstd::utf8::{
    char_u32_cast, decode_first_scalar, decode_utf8, decode_utf8_first_scalar, encode_scalar,
    encode_utf8, length_of_first_scalar, pop_first_scalar, valid_utf8,
};
use crate::fs::{handle_of, handle_to_path, lemma_handle_roundtrip, path_of, path_to_handle};
use crate::rpc::program::{ftype, stat, DispatchResult, DispatchView, NFS_VERSION};
use crate::rpc::xdr::{
    be_u32, opaque_fixed_bytes, opaque_var_bytes, pad, padded, read_opaque_fixed_spec,
    read_opaque_var_spec, read_u32_spec, XdrDecoder, XdrEncoder,
};
use crate::server::OpaqueAuth;

verus! {

/// The size of a file handle.
pub const FILE_HANDLE_SIZE: usize = 32;

/// The most bytes one READ returns.
pub const NFS_MAX_READ: u32 = 8192;

/// The kinds of I/O error the server tells apart.
#[derive(Debug, Clone, Copy, PartialEq, Eq, Structural)]
pub enum IoErrorKind {
    NotFound,
    PermissionDenied,
    AlreadyExists,
    InvalidInput,
    Other,
}

/// The NFS status for an I/O error of kind `kind`.
pub open spec fn status_of(kind: IoErrorKind) -> u32 {
    match kind {
        IoErrorKind::NotFound => 2,
        IoErrorKind::PermissionDenied => 13,
        IoErrorKind::AlreadyExists => 17,
        IoErrorKind::InvalidInput => 63,
        IoErrorKind::Other => 5,
    }
}

/// The kind of a file, as `symlink_metadata` reports it.
#[derive(Debug, Clone, Copy, PartialEq, Eq, Structural)]
pub enum FileKind {
    File,
    Dir,
    Symlink,
    Other,
}

/// What the server reads of a file's metadata.
#[derive(Debug, Clone, Copy, PartialEq, Eq, Structural)]
pub struct Metadata {
    pub kind: FileKind,
    pub mode: u32,
    pub nlink: u64,
    pub uid: u32,
    pub gid: u32,
    pub size: u64,
    pub blksize: u64,
    pub rdev: u64,
    pub blocks: u64,
    pub dev: u64,
    pub ino: u64,
    pub atime: i64,
    pub atime_nsec: i64,
    pub mtime: i64,
    pub mtime_nsec: i64,
    pub ctime: i64,
    pub ctime_nsec: i64,
}

/// The NFS file type number of a kind: regular file 1, directory 2, symbolic
/// link 5, anything else 0.
pub open spec fn ftype_code(k: FileKind) -> u32 {
    match k {
        FileKind::File => 1,
        FileKind::Dir => 2,
        FileKind::Symlink => 5,
        FileKind::Other => 0,
    }
}

/// `v`, or `u32::MAX` when it is larger.
pub open spec fn clamp_u32(v: u64) -> u32 {
    if v > u32::MAX {
        u32::MAX
    } else {
        v as u32
    }
}

/// Seconds clamped into `0..=u32::MAX`.
pub open spec fn clamp_seconds(s: i64) -> u32 {
    if s < 0 {
        0
    } else if s > u32::MAX {
        u32::MAX
    } else {
        s as u32
    }
}

/// Nanoseconds, negative ones taken as zero, as whole microseconds clamped
/// to `u32::MAX`.
pub open spec fn clamp_micros(ns: i64) -> u32 {
    let n: int = if ns < 0 {
        0
    } else {
        ns as int
    };
    if n / 1000 > u32::MAX {
        u32::MAX
    } else {
        (n / 1000) as u32
    }
}

/// An NFS time value: seconds and microseconds.
pub open spec fn time_bytes(s: i64, ns: i64) -> Seq<u8> {
    be_u32(clamp_seconds(s)) + be_u32(clamp_micros(ns))
}

/// The NFS attributes (`fattr`, RFC 1094, 2.3.5) of a file with metadata `m`.
/// Link count, special device, device and inode numbers are taken modulo
/// 2^32; size, block size and block count are clamped to `u32::MAX`.
pub open spec fn fattr_bytes(m: Metadata) -> Seq<u8> {
    fattr_id_bytes(m) + time_bytes(m.atime, m.atime_nsec) + time_bytes(m.mtime, m.mtime_nsec)
        + time_bytes(m.ctime, m.ctime_nsec)
}

/// The attributes before the times: type, mode bits, link count, owner,
/// group, size, block size, special device, blocks, device, inode.
pub open spec fn fattr_id_bytes(m: Metadata) -> Seq<u8> {
    be_u32(ftype_code(m.kind)) + be_u32(m.mode & 0o7777) + be_u32(m.nlink as u32) + be_u32(m.uid)
        + be_u32(m.gid) + be_u32(clamp_u32(m.size)) + be_u32(clamp_u32(m.blksize)) + be_u32(
        m.rdev as u32,
    ) + be_u32(clamp_u32(m.blocks)) + be_u32(m.dev as u32) + be_u32(m.ino as u32)
}

fn clamp_to_u32(v: u64) -> (r: u32)
    ensures
        r == clamp_u32(v),
{
    if v > 0xffff_ffffu64 {
        0xffff_ffffu32
    } else {
        v as u32
    }
}

/// Appends an NFS time value.
fn put_time(enc: &mut XdrEncoder, seconds: i64, nanos: i64)
    ensures
        final(enc)@ == old(enc)@ + time_bytes(seconds, nanos),
{
    let s: u32 = if seconds < 0 {
        0
    } else if seconds > 0xffff_ffffi64 {
        0xffff_ffffu32
    } else {
        seconds as u32
    };
    let n: i64 = if nanos < 0 {
        0
    } else {
        nanos
    };
    let us: i64 = n / 1000;
    let u: u32 = if us > 0xffff_ffffi64 {
        0xffff_ffffu32
    } else {
        us as u32
    };
    enc.put_u32(s);
    enc.put_u32(u);
    assert(final(enc)@ =~= old(enc)@ + time_bytes(seconds, nanos));
}

fn put_fattr_ids(enc: &mut XdrEncoder, m: &Metadata)
    ensures
        final(enc)@ == old(enc)@ + fattr_id_bytes(*m),
{
    let ftype: u32 = match m.kind {
        FileKind::File => 1,
        FileKind::Dir => 2,
        FileKind::Symlink => 5,
        FileKind::Other => 0,
    };
    let ghost s0 = enc@;
    enc.put_u32(ftype);
    enc.put_u32(m.mode & 0o7777);
    enc.put_u32(#[verifier::truncate] (m.nlink as u32));
    enc.put_u32(m.uid);
    enc.put_u32(m.gid);
    let ghost s1 = enc@;
    assert(s1 =~= s0 + (be_u32(ftype_code(m.kind)) + be_u32(m.mode & 0o7777) + be_u32(m.nlink as u32)
        + be_u32(m.uid) + be_u32(m.gid)));
    enc.put_u32(clamp_to_u32(m.size));
    enc.put_u32(clamp_to_u32(m.blksize));
    enc.put_u32(#[verifier::truncate] (m.rdev as u32));
    let ghost s2 = enc@;
    assert(s2 =~= s1 + (be_u32(clamp_u32(m.size)) + be_u32(clamp_u32(m.blksize)) + be_u32(
        m.rdev as u32,
    )));
    enc.put_u32(clamp_to_u32(m.blocks));
    enc.put_u32(#[verifier::truncate] (m.dev as u32));
    enc.put_u32(#[verifier::truncate] (m.ino as u32));
    assert(enc@ =~= s2 + (be_u32(clamp_u32(m.blocks)) + be_u32(m.dev as u32) + be_u32(m.ino as u32)));
    assert(enc@ =~= s0 + fattr_id_bytes(*m));
}

/// Appends the NFS attributes of a file with metadata `m`.
fn put_fattr(enc: &mut XdrEncoder, m: &Metadata)
    ensures
        final(enc)@ == old(enc)@ + fattr_bytes(*m),
{
    put_fattr_ids(enc, m);
    put_time(enc, m.atime, m.atime_nsec);
    put_time(enc, m.mtime, m.mtime_nsec);
    put_time(enc, m.ctime, m.ctime_nsec);
    assert(final(enc)@ =~= old(enc)@ + fattr_bytes(*m));
}

/// One entry of a directory listing: its name and its inode number (0 where
/// the entry's metadata could not be read).
#[derive(Debug, Clone)]
pub struct DirEntry {
    pub name: String,
    pub fileid: u64,
}

/// What a [`DirEntry`] holds.
pub struct DirEntryView {
    pub name: Seq<char>,
    pub fileid: u64,
}

impl View for DirEntry {
    type V = DirEntryView;

    open spec fn view(&self) -> DirEntryView {
        DirEntryView { name: self.name@, fileid: self.fileid }
    }
}

/// The bytes an entry counts against the reply size: presence flag, file id,
/// name length, padded name, cookie. The name's length is its UTF-8 length as
/// a `usize` holds it.
pub open spec fn entry_cost(e: DirEntryView) -> int {
    16 + padded((encode_utf8(e.name).len() as usize) as int)
}

/// An entry of a READDIR reply (RFC 1094, 2.2.17): presence flag, file id
/// (modulo 2^32), name, and the cookie that resumes after it.
pub open spec fn entry_bytes(e: DirEntryView, index: int) -> Seq<u8> {
    be_u32(1) + be_u32(e.fileid as u32) + opaque_var_bytes(encode_utf8(e.name)) + be_u32(
        (index + 1) as u32,
    )
}

/// The entries from index `i` on that fit, one after another, when `used`
/// bytes are spoken for and the reply may hold `count`: an entry fits while
/// what is used, its cost and four more bytes stay within `count`. Also the
/// index of the first entry left out.
pub open spec fn listing(entries: Seq<DirEntryView>, i: int, used: int, count: int) -> (Seq<u8>, int)
    decreases entries.len() - i,
{
    if i < 0 || i >= entries.len() || used + entry_cost(entries[i]) + 4 > count {
        (Seq::empty(), i)
    } else {
        let (rest, next) = listing(entries, i + 1, used + entry_cost(entries[i]), count);
        (entry_bytes(entries[i], i) + rest, next)
    }
}

/// The READDIR results for `entries` from index `cookie` with room for
/// `count` bytes: `NFS_OK`, the entries that fit, the end of the list, and
/// whether the listing reached the last entry.
pub open spec fn readdir_bytes(entries: Seq<DirEntryView>, cookie: u32, count: u32) -> Seq<u8> {
    let (body, next) = listing(entries, cookie as int, 4, count as int);
    be_u32(0) + body + be_u32(0) + be_u32(
        if next >= entries.len() {
            1
        } else {
            0
        },
    )
}

/// Encodes the READDIR results for `entries` from index `cookie` with room
/// for `count` bytes.
pub fn readdir_reply(entries: &Vec<DirEntry>, cookie: u32, count: u32) -> (r: Vec<u8>)
    ensures
        r@ == readdir_bytes(entries@.map_values(|e: DirEntry| e@), cookie, count),
{
    let ghost es = entries@.map_values(|e: DirEntry| e@);
    let start = cookie as usize;
    let mut enc = XdrEncoder::new();
    enc.put_u32(0);
    let ghost head = enc@;
    let ghost total = listing(es, start as int, 4, count as int);
    let mut used: u64 = 4;
    let mut index: usize = start;
    let mut done = false;
    while index < entries.len() && !done
        invariant
            es.len() == entries@.len(),
            forall|j: int| 0 <= j < entries@.len() ==> es[j] == entries@[j]@,
            start <= index,
            used <= count || used == 4,
            head == be_u32(0),
            total == listing(es, start as int, 4, count as int),
            ({
                let (rest, next) = listing(es, index as int, used as int, count as int);
                &&& total.1 == (if done { index as int } else { next })
                &&& total.0 == enc@.skip(4) + (if done { Seq::empty() } else { rest })
                &&& enc@.take(4) == head
                &&& enc@.len() >= 4
            }),
            done ==> index < entries@.len(),
        decreases entries@.len() - index, if done { 0int } else { 1int },
    {
        let entry = &entries[index];
        let name = entry.name.as_str();
        let name_len = name.len();
        let cost: u128 = 16 + (name_len as u128) + (pad(name_len) as u128);
        assert(es[index as int] == entries@[index as int]@);
        assert(name@ == es[index as int].name);
        assert(cost == entry_cost(es[index as int]));
        if (used as u128) + cost + 4 > (count as u128) {
            done = true;
        } else {
            let ghost before = enc@;
            enc.put_bool(true);
            let fileid = #[verifier::truncate] (entry.fileid as u32);
            enc.put_u32(fileid);
            enc.put_string(name);
            let cookie_next = #[verifier::truncate] ((index + 1) as u32);
            enc.put_u32(cookie_next);
            assert(enc@ =~= before + entry_bytes(es[index as int], index as int));
            assert(enc@.skip(4) =~= before.skip(4) + entry_bytes(es[index as int], index as int));
            assert(enc@.take(4) =~= before.take(4));
            used = used + (cost as u64);
            index = index + 1;
        }
    }
    let eof = if done {
        index >= entries.len()
    } else {
        true
    };
    enc.put_bool(false);
    enc.put_bool(eof);
    let r = enc.into_bytes();
    assert(r@ =~= readdir_bytes(es, cookie, count));
    r
}

/// Whether the canonical path `p` lies inside the canonical directory
/// `root`: `root` is a prefix of `p` that ends at a path separator of `p`
/// (or `p` is `root` itself, or `root` ends with a separator).
pub open spec fn within_root(p: Seq<u8>, root: Seq<u8>) -> bool {
    &&& root.len() <= p.len()
    &&& p.take(root.len() as int) == root
    &&& (p.len() == root.len() || (root.len() > 0 && root.last() == 0x2f) || p[root.len() as int] == 0x2f)
}

/// Whether a handle can name the path `p`: at most 32 bytes, none of them
/// zero, so that the path comes back whole from its handle.
pub open spec fn fits_handle(p: Seq<u8>) -> bool {
    p.len() <= 32 && !p.contains(0u8)
}

fn handle_fits(p: &[u8]) -> (b: bool)
    ensures
        b == fits_handle(p@),
{
    if p.len() > FILE_HANDLE_SIZE {
        return false;
    }
    let mut i: usize = 0;
    while i < p.len()
        invariant
            i <= p@.len(),
            forall|j: int| 0 <= j < i ==> p@[j] != 0,
        decreases p@.len() - i,
    {
        if p[i] == 0 {
            assert(p@.contains(0u8)) by {
                assert(p@[i as int] == 0u8);
            }
            return false;
        }
        i = i + 1;
    }
    true
}

/// `name` appended to the directory path `dir`, with a separator between
/// them unless `dir` is empty or already ends with one.
pub open spec fn join_spec(dir: Seq<u8>, name: Seq<u8>) -> Seq<u8> {
    if dir.len() == 0 || dir.last() == 0x2f {
        dir + name
    } else {
        dir + seq![0x2fu8] + name
    }
}

/// Whether a LOOKUP name is one the server looks for: not empty and with no
/// `/` in it.
pub open spec fn name_acceptable(name: Seq<char>) -> bool {
    name.len() > 0 && !name.contains('/')
}

/// Whether the path a handle names is worth resolving: not empty and
/// absolute.
pub open spec fn handle_resolvable(h: Seq<u8>) -> bool {
    path_of(h).len() > 0 && path_of(h)[0] == 0x2f
}

fn path_within(p: &[u8], root: &[u8]) -> (b: bool)
    ensures
        b == within_root(p@, root@),
{
    if root.len() > p.len() {
        return false;
    }
    let mut i: usize = 0;
    while i < root.len()
        invariant
            root@.len() <= p@.len(),
            i <= root@.len(),
            p@.take(i as int) == root@.take(i as int),
        decreases root@.len() - i,
    {
        if p[i] != root[i] {
            assert(p@.take(root@.len() as int)[i as int] != root@[i as int]);
            return false;
        }
        i = i + 1;
        assert(p@.take(i as int) =~= p@.take(i - 1) + seq![p@[i - 1]]);
        assert(root@.take(i as int) =~= root@.take(i - 1) + seq![root@[i - 1]]);
    }
    assert(root@.take(root@.len() as int) =~= root@);
    p.len() == root.len() || (root.len() > 0 && root[root.len() - 1] == 0x2f) || p[root.len()]
        == 0x2f
}

fn join_path(dir: &[u8], name: &[u8]) -> (r: Vec<u8>)
    ensures
        r@ == join_spec(dir@, name@),
{
    let mut e = XdrEncoder::new();
    e.put_raw(dir);
    if !(dir.len() == 0 || dir[dir.len() - 1] == 0x2f) {
        let sep: [u8; 1] = [0x2f];
        e.put_raw(&sep);
        assert(sep@ =~= seq![0x2fu8]);
    }
    e.put_raw(name);
    let r = e.into_bytes();
    assert(r@ =~= join_spec(dir@, name@));
    r
}

proof fn lemma_first_char_is_slash(b: Seq<u8>)
    requires
        valid_utf8(b),
        b.len() > 0,
    ensures
        (decode_first_scalar(b) as char == '/') <==> (b[0] == 0x2fu8),
        b[0] != 0x2fu8 ==> forall|i: int| 0 <= i < length_of_first_scalar(b) ==> b[i] != 0x2fu8,
        1 <= length_of_first_scalar(b) <= b.len(),
{
    let c = decode_first_scalar(b);
    let k = length_of_first_scalar(b);
    decode_utf8_first_scalar(b);
    let slash: u32 = '/' as u32;
    assert(slash == 47);
    assert((47u32 & 0x7Fu32) as u8 == 47u8) by (bit_vector);
    if c as char == '/' {
        assert(encode_scalar(slash) =~= seq![47u8]);
        assert(b.subrange(0, k) == seq![47u8]);
        assert(b[0] == b.subrange(0, k)[0]);
    }
    if b[0] == 0x2fu8 {
        let x = b[0];
        assert((x & 0x7f) as u32 == x as u32) by (bit_vector)
            requires x <= 0x7f;
        assert(c == 47);
        char_u32_cast('/', 47);
    }
}

/// A valid UTF-8 byte string holds the byte `/` exactly when its characters
/// hold `/`, and is empty exactly when they are.
pub proof fn lemma_slash_in_utf8(b: Seq<u8>)
    requires
        valid_utf8(b),
    ensures
        b.contains(0x2fu8) <==> decode_utf8(b).contains('/'),
        b.len() == 0 <==> decode_utf8(b).len() == 0,
    decreases b.len(),
{
    if b.len() > 0 {
        lemma_first_char_is_slash(b);
        let k = length_of_first_scalar(b);
        let rest = pop_first_scalar(b);
        lemma_slash_in_utf8(rest);
        let c = decode_first_scalar(b);
        let d = decode_utf8(b);
        let dr = decode_utf8(rest);
        assert(d == seq![c as char] + dr);
        assert(rest =~= b.subrange(k, b.len() as int));
        if b[0] == 0x2fu8 {
            assert(d[0] == '/');
            assert(d.contains('/'));
            assert(b.contains(0x2fu8));
        } else {
            if d.contains('/') {
                let i = choose|i: int| 0 <= i < d.len() && d[i] == '/';
                assert(i > 0);
                assert(dr[i - 1] == '/');
                assert(dr.contains('/'));
                let j = choose|j: int| 0 <= j < rest.len() && rest[j] == 0x2fu8;
                assert(b[j + k] == 0x2fu8);
                assert(b.contains(0x2fu8));
            }
            if b.contains(0x2fu8) {
                let i = choose|i: int| 0 <= i < b.len() && b[i] == 0x2fu8;
                assert(i >= k);
                assert(rest[i - k] == 0x2fu8);
                assert(rest.contains(0x2fu8));
                let j = choose|j: int| 0 <= j < dr.len() && dr[j] == '/';
                assert(d[j + 1] == '/');
                assert(d.contains('/'));
            }
        }
    }
}


fn name_ok(name: &[u8]) -> (b: bool)
    requires
        valid_utf8(name@),
    ensures
        b == name_acceptable(decode_utf8(name@)),
{
    proof {
        lemma_slash_in_utf8(name@);
    }
    if name.len() == 0 {
        return false;
    }
    let mut i: usize = 0;
    while i < name.len()
        invariant
            i <= name@.len(),
            name@.len() > 0,
            forall|j: int| 0 <= j < i ==> name@[j] != 0x2f,
            name@.contains(0x2fu8) <==> decode_utf8(name@).contains('/'),
            decode_utf8(name@).len() > 0,
        decreases name@.len() - i,
    {
        if name[i] == 0x2f {
            assert(name@.contains(0x2fu8)) by {
                assert(name@[i as int] == 0x2fu8);
            }
            return false;
        }
        i = i + 1;
    }
    true
}

/// A file system operation the caller performs for a call in progress.
#[derive(Debug)]
pub enum FsOp {
    /// Resolve the path to its canonical absolute form (`canonicalize`).
    Canonicalize(Vec<u8>),
    /// Read the metadata of the path, not following a final symbolic link
    /// (`symlink_metadata`).
    Metadata(Vec<u8>),
    /// List the directory's entries (`read_dir`), skipping those that fail.
    ListDir(Vec<u8>),
    /// Open the file, seek to `offset`, and read once into a buffer of `len`
    /// bytes.
    ReadFile { path: Vec<u8>, offset: u64, len: usize },
}

/// What an [`FsOp`] asks for.
pub enum FsOpView {
    Canonicalize(Seq<u8>),
    Metadata(Seq<u8>),
    ListDir(Seq<u8>),
    ReadFile { path: Seq<u8>, offset: u64, len: nat },
}

impl View for FsOp {
    type V = FsOpView;

    open spec fn view(&self) -> FsOpView {
        match self {
            FsOp::Canonicalize(p) => FsOpView::Canonicalize(p@),
            FsOp::Metadata(p) => FsOpView::Metadata(p@),
            FsOp::ListDir(p) => FsOpView::ListDir(p@),
            FsOp::ReadFile { path, offset, len } => FsOpView::ReadFile {
                path: path@,
                offset: *offset,
                len: *len as nat,
            },
        }
    }
}

/// What a call in progress does next.
#[derive(Debug)]
pub enum Action {
    /// Answer the call.
    Reply(DispatchResult),
    /// Perform this operation and hand its outcome back.
    Perform(FsOp),
}

/// What an [`Action`] holds.
pub enum ActionView {
    Reply(DispatchView),
    Perform(FsOpView),
}

impl View for Action {
    type V = ActionView;

    open spec fn view(&self) -> ActionView {
        match self {
            Action::Reply(r) => ActionView::Reply(r@),
            Action::Perform(op) => ActionView::Perform(op@),
        }
    }
}

/// The outcome of [`FsOp::ReadFile`].
#[derive(Debug)]
pub enum ReadOutcome {
    OpenFailed(IoErrorKind),
    SeekFailed,
    ReadFailed(IoErrorKind),
    /// The bytes that were read.
    Read(Vec<u8>),
}

/// What a [`ReadOutcome`] holds.
pub enum ReadOutcomeView {
    OpenFailed(IoErrorKind),
    SeekFailed,
    ReadFailed(IoErrorKind),
    Read(Seq<u8>),
}

impl View for ReadOutcome {
    type V = ReadOutcomeView;

    open spec fn view(&self) -> ReadOutcomeView {
        match self {
            ReadOutcome::OpenFailed(k) => ReadOutcomeView::OpenFailed(*k),
            ReadOutcome::SeekFailed => ReadOutcomeView::SeekFailed,
            ReadOutcome::ReadFailed(k) => ReadOutcomeView::ReadFailed(*k),
            ReadOutcome::Read(d) => ReadOutcomeView::Read(d@),
        }
    }
}

/// Where a call in progress stands.
enum Stage {
    GetattrResolve,
    GetattrStat,
    LookupResolve { name: Vec<u8> },
    LookupStatDir { name: Vec<u8>, dir: Vec<u8> },
    LookupCanon,
    LookupStat { path: Vec<u8> },
    ReadResolve { offset: u32, count: u32 },
    ReadStat { path: Vec<u8>, offset: u32, count: u32 },
    ReadData { meta: Metadata, offset: u32 },
    ReaddirResolve { cookie: u32, count: u32 },
    ReaddirStat { path: Vec<u8>, cookie: u32, count: u32 },
    ReaddirList { cookie: u32, count: u32 },
    Finished,
}

/// Where a call in progress stands, and what it keeps for the steps ahead.
pub enum StageView {
    /// GETATTR, waiting for the handle's path to be canonicalized.
    GetattrResolve,
    /// GETATTR, waiting for the file's metadata.
    GetattrStat,
    /// LOOKUP of `name`, waiting for the directory handle's path to be
    /// canonicalized.
    LookupResolve { name: Seq<u8> },
    /// LOOKUP of `name` in `dir`, waiting for the directory's metadata.
    LookupStatDir { name: Seq<u8>, dir: Seq<u8> },
    /// LOOKUP, waiting for the joined path to be canonicalized.
    LookupCanon,
    /// LOOKUP that found `path`, waiting for its metadata.
    LookupStat { path: Seq<u8> },
    /// READ, waiting for the handle's path to be canonicalized.
    ReadResolve { offset: u32, count: u32 },
    /// READ of `path`, waiting for its metadata.
    ReadStat { path: Seq<u8>, offset: u32, count: u32 },
    /// READ of a file with metadata `meta`, waiting for the data.
    ReadData { meta: Metadata, offset: u32 },
    /// READDIR, waiting for the handle's path to be canonicalized.
    ReaddirResolve { cookie: u32, count: u32 },
    /// READDIR of `path`, waiting for its metadata.
    ReaddirStat { path: Seq<u8>, cookie: u32, count: u32 },
    /// READDIR, waiting for the directory's entries.
    ReaddirList { cookie: u32, count: u32 },
    /// Answered.
    Finished,
}

impl Stage {
    spec fn view(&self) -> StageView {
        match self {
            Stage::GetattrResolve => StageView::GetattrResolve,
            Stage::GetattrStat => StageView::GetattrStat,
            Stage::LookupResolve { name } => StageView::LookupResolve { name: name@ },
            Stage::LookupStatDir { name, dir } => StageView::LookupStatDir { name: name@, dir: dir@ },
            Stage::LookupCanon => StageView::LookupCanon,
            Stage::LookupStat { path } => StageView::LookupStat { path: path@ },
            Stage::ReadResolve { offset, count } => StageView::ReadResolve {
                offset: *offset,
                count: *count,
            },
            Stage::ReadStat { path, offset, count } => StageView::ReadStat {
                path: path@,
                offset: *offset,
                count: *count,
            },
            Stage::ReadData { meta, offset } => StageView::ReadData { meta: *meta, offset: *offset },
            Stage::ReaddirResolve { cookie, count } => StageView::ReaddirResolve {
                cookie: *cookie,
                count: *count,
            },
            Stage::ReaddirStat { path, cookie, count } => StageView::ReaddirStat {
                path: path@,
                cookie: *cookie,
                count: *count,
            },
            Stage::ReaddirList { cookie, count } => StageView::ReaddirList {
                cookie: *cookie,
                count: *count,
            },
            Stage::Finished => StageView::Finished,
        }
    }
}

/// An answer that carries only the NFS status `code`.
pub open spec fn status_reply(code: u32) -> ActionView {
    ActionView::Reply(DispatchView::Success(be_u32(code)))
}

/// A call answered with `reply`.
pub open spec fn answer(reply: ActionView) -> (StageView, ActionView) {
    (StageView::Finished, reply)
}

/// Starts resolving handle `h`, going on to `next` once its path is
/// canonical; a handle that names no absolute path is stale.
pub open spec fn resolve_start(h: Seq<u8>, next: StageView) -> (StageView, ActionView) {
    if handle_resolvable(h) {
        (next, ActionView::Perform(FsOpView::Canonicalize(path_of(h))))
    } else {
        answer(status_reply(70))
    }
}

/// How a call of procedure `proc` in version `vers` with arguments `args`
/// starts: answered at once (wrong version, the null procedure, arguments
/// that do not decode, a bad LOOKUP name, a handle that names no absolute
/// path, a procedure not served) or with a first file system operation.
pub open spec fn start_spec(vers: u32, proc: u32, args: Seq<u8>) -> (StageView, ActionView) {
    if vers != NFS_VERSION {
        answer(ActionView::Reply(DispatchView::ProgMismatch { low: NFS_VERSION, high: NFS_VERSION }))
    } else if proc == 0 {
        answer(ActionView::Reply(DispatchView::Success(Seq::empty())))
    } else if proc == 1 {
        match read_opaque_fixed_spec(args, 0, 32) {
            None => answer(ActionView::Reply(DispatchView::GarbageArgs)),
            Some((h, _)) => resolve_start(h, StageView::GetattrResolve),
        }
    } else if proc == 4 {
        match (read_opaque_fixed_spec(args, 0, 32), read_opaque_var_spec(args, 32)) {
            (Some((h, _)), Some((name, _))) => if !valid_utf8(name) {
                answer(ActionView::Reply(DispatchView::GarbageArgs))
            } else if !name_acceptable(decode_utf8(name)) {
                answer(status_reply(2))
            } else {
                resolve_start(h, StageView::LookupResolve { name })
            },
            _ => answer(ActionView::Reply(DispatchView::GarbageArgs)),
        }
    } else if proc == 6 {
        match (
            read_opaque_fixed_spec(args, 0, 32),
            read_u32_spec(args, 32),
            read_u32_spec(args, 36),
            read_u32_spec(args, 40),
        ) {
            (Some((h, _)), Some((offset, _)), Some((count, _)), Some(_)) => resolve_start(
                h,
                StageView::ReadResolve { offset, count },
            ),
            _ => answer(ActionView::Reply(DispatchView::GarbageArgs)),
        }
    } else if proc == 16 {
        match (read_opaque_fixed_spec(args, 0, 32), read_u32_spec(args, 32), read_u32_spec(args, 36)) {
            (Some((h, _)), Some((cookie, _)), Some((count, _))) => resolve_start(
                h,
                StageView::ReaddirResolve { cookie, count },
            ),
            _ => answer(ActionView::Reply(DispatchView::GarbageArgs)),
        }
    } else {
        answer(ActionView::Reply(DispatchView::ProcUnavail))
    }
}

/// Whether a call in `stage` waits for a canonical path.
pub open spec fn awaits_path(stage: StageView) -> bool {
    stage is GetattrResolve || stage is LookupResolve || stage is LookupCanon || stage is ReadResolve
        || stage is ReaddirResolve
}

/// Whether a call in `stage` waits for metadata.
pub open spec fn awaits_metadata(stage: StageView) -> bool {
    stage is GetattrStat || stage is LookupStatDir || stage is LookupStat || stage is ReadStat
        || stage is ReaddirStat
}

/// The next step of a call in `stage` handed the canonical form of a path,
/// under the export `root`. A handle whose path cannot be canonicalized or
/// lies outside `root` is stale; a LOOKUP that leads outside `root` is
/// refused with `NFSERR_ACCES`, and one that finds a path no handle can name
/// with `NFSERR_NAMETOOLONG`.
pub open spec fn on_path_spec(root: Seq<u8>, stage: StageView, r: Result<Seq<u8>, IoErrorKind>) -> (
    StageView,
    ActionView,
) {
    match stage {
        StageView::LookupCanon => match r {
            Err(k) => answer(status_reply(status_of(k))),
            Ok(p) => if !within_root(p, root) {
                answer(status_reply(13))
            } else if !fits_handle(p) {
                answer(status_reply(63))
            } else {
                (StageView::LookupStat { path: p }, ActionView::Perform(FsOpView::Metadata(p)))
            },
        },
        _ => match r {
            Ok(p) if within_root(p, root) => {
                let next = match stage {
                    StageView::GetattrResolve => StageView::GetattrStat,
                    StageView::LookupResolve { name } => StageView::LookupStatDir { name, dir: p },
                    StageView::ReadResolve { offset, count } => StageView::ReadStat {
                        path: p,
                        offset,
                        count,
                    },
                    StageView::ReaddirResolve { cookie, count } => StageView::ReaddirStat {
                        path: p,
                        cookie,
                        count,
                    },
                    _ => StageView::Finished,
                };
                (next, ActionView::Perform(FsOpView::Metadata(p)))
            },
            _ => answer(status_reply(70)),
        },
    }
}

/// The next step of a call in `stage` handed the outcome of reading
/// metadata.
pub open spec fn on_metadata_spec(stage: StageView, r: Result<Metadata, IoErrorKind>) -> (
    StageView,
    ActionView,
) {
    match r {
        Err(k) => answer(status_reply(status_of(k))),
        Ok(m) => match stage {
            StageView::GetattrStat => answer(
                ActionView::Reply(DispatchView::Success(be_u32(0) + fattr_bytes(m))),
            ),
            StageView::LookupStatDir { name, dir } => if m.kind != FileKind::Dir {
                answer(status_reply(20))
            } else {
                (
                    StageView::LookupCanon,
                    ActionView::Perform(FsOpView::Canonicalize(join_spec(dir, name))),
                )
            },
            StageView::LookupStat { path } => answer(
                ActionView::Reply(
                    DispatchView::Success(
                        be_u32(0) + opaque_fixed_bytes(handle_of(path)) + fattr_bytes(m),
                    ),
                ),
            ),
            StageView::ReadStat { path, offset, count } => if m.kind == FileKind::Dir {
                answer(status_reply(21))
            } else {
                (
                    StageView::ReadData { meta: m, offset },
                    ActionView::Perform(
                        FsOpView::ReadFile {
                            path,
                            offset: offset as u64,
                            len: (if count < NFS_MAX_READ {
                                count
                            } else {
                                NFS_MAX_READ
                            }) as nat,
                        },
                    ),
                )
            },
            StageView::ReaddirStat { path, cookie, count } => if m.kind != FileKind::Dir {
                answer(status_reply(20))
            } else {
                (StageView::ReaddirList { cookie, count }, ActionView::Perform(FsOpView::ListDir(path)))
            },
            _ => answer(status_reply(5)),
        },
    }
}

/// The READ results for `data` read at `offset` from a file with metadata
/// `meta`: `NFS_OK`, the attributes, the data, and whether it reaches the
/// end of the file.
pub open spec fn read_bytes(meta: Metadata, offset: u32, data: Seq<u8>) -> Seq<u8> {
    be_u32(0) + fattr_bytes(meta) + be_u32(data.len() as u32) + opaque_fixed_bytes(data) + be_u32(
        if offset + data.len() >= meta.size {
            1
        } else {
            0
        },
    )
}

/// The answer to a READ of a file with metadata `meta` at `offset`, handed
/// the outcome of the read.
pub open spec fn on_read_spec(meta: Metadata, offset: u32, r: ReadOutcomeView) -> ActionView {
    match r {
        ReadOutcomeView::OpenFailed(k) => status_reply(status_of(k)),
        ReadOutcomeView::SeekFailed => status_reply(5),
        ReadOutcomeView::ReadFailed(k) => status_reply(status_of(k)),
        ReadOutcomeView::Read(data) => ActionView::Reply(
            DispatchView::Success(read_bytes(meta, offset, data)),
        ),
    }
}

/// A canonical path, or the kind of error that prevented it.
pub open spec fn path_result_view(r: Result<Vec<u8>, IoErrorKind>) -> Result<Seq<u8>, IoErrorKind> {
    match r {
        Ok(p) => Ok(p@),
        Err(k) => Err(k),
    }
}

/// A directory listing, or the kind of error that prevented it.
pub open spec fn entries_view(r: Result<Vec<DirEntry>, IoErrorKind>) -> Result<
    Seq<DirEntryView>,
    IoErrorKind,
> {
    match r {
        Ok(es) => Ok(es@.map_values(|e: DirEntry| e@)),
        Err(k) => Err(k),
    }
}

fn copy_bytes(v: &[u8]) -> (r: Vec<u8>)
    ensures
        r@ == v@,
{
    vstd::slice::slice_to_vec(v)
}

fn reply(r: DispatchResult) -> (out: (Stage, Action))
    ensures
        (out.0.view(), out.1@) == answer(ActionView::Reply(r@)),
{
    (Stage::Finished, Action::Reply(r))
}

fn status_answer(code: u32) -> (out: (Stage, Action))
    ensures
        (out.0.view(), out.1@) == answer(status_reply(code)),
{
    reply(NfsHandler::encode_status(code))
}

/// Starts resolving the 32-byte handle `h`.
fn resolve_begin(h: &[u8], next: Stage) -> (out: (Stage, Action))
    requires
        h@.len() == 32,
    ensures
        (out.0.view(), out.1@) == resolve_start(h@, next.view()),
{
    let handle = path_to_handle(h);
    assert(handle@ =~= h@);
    let raw = handle_to_path(handle);
    if raw.len() == 0 || raw[0] != 0x2f {
        return status_answer(70);
    }
    (next, Action::Perform(FsOp::Canonicalize(raw)))
}

/// The NFS program over an exported directory tree.
#[derive(Debug, Clone)]
pub struct NfsHandler {
    export_root: Vec<u8>,
}

impl NfsHandler {
    /// The exported directory, as the bytes of its canonical path.
    pub closed spec fn root(&self) -> Seq<u8> {
        self.export_root@
    }

    /// A handler for the directory whose canonical path is `export_root`
    /// (the caller has checked that it is a directory and canonicalized it).
    pub fn new(export_root: Vec<u8>) -> (h: Self)
        ensures
            h.root() == export_root@,
    {
        NfsHandler { export_root }
    }

    /// The NFS status for an I/O error: `NOENT`, `ACCES`, `EXIST`,
    /// `NAMETOOLONG` for the matching kinds, `IO` for any other.
    pub fn status_error(kind: IoErrorKind) -> (code: u32)
        ensures
            code == status_of(kind),
    {
        match kind {
            IoErrorKind::NotFound => 2,
            IoErrorKind::PermissionDenied => 13,
            IoErrorKind::AlreadyExists => 17,
            IoErrorKind::InvalidInput => 63,
            IoErrorKind::Other => 5,
        }
    }

    /// Results that carry only an NFS status.
    pub fn encode_status(status: u32) -> (r: DispatchResult)
        ensures
            r@ == DispatchView::Success(be_u32(status)),
    {
        let mut enc = XdrEncoder::new();
        enc.put_u32(status);
        let b = enc.into_bytes();
        assert(b@ =~= be_u32(status));
        DispatchResult::Success(b)
    }

    /// Starts a call of procedure `proc` in version `vers` with arguments
    /// `args`: the call in progress and what it does first.
    pub fn dispatch(
        &self,
        vers: u32,
        proc: u32,
        _cred: &OpaqueAuth<'_>,
        _verf: &OpaqueAuth<'_>,
        args: &[u8],
    ) -> (r: (NfsCall, Action))
        ensures
            (r.0.stage(), r.1@) == start_spec(vers, proc, args@),
    {
        let (stage, action) = Self::start(vers, proc, args);
        (NfsCall { stage }, action)
    }

    fn start(vers: u32, proc: u32, args: &[u8]) -> (out: (Stage, Action))
        ensures
            (out.0.view(), out.1@) == start_spec(vers, proc, args@),
    {
        if vers != NFS_VERSION {
            return reply(DispatchResult::ProgMismatch { low: NFS_VERSION, high: NFS_VERSION });
        }
        match proc {
            0 => reply(DispatchResult::Success(Vec::new())),
            1 => Self::start_getattr(args),
            4 => Self::start_lookup(args),
            6 => Self::start_read(args),
            16 => Self::start_readdir(args),
            _ => reply(DispatchResult::ProcUnavail),
        }
    }

    fn start_getattr(args: &[u8]) -> (out: (Stage, Action))
        ensures
            (out.0.view(), out.1@) == start_spec(NFS_VERSION, 1, args@),
    {
        let mut d = XdrDecoder::new(args);
        let handle = match d.read_opaque_fixed(FILE_HANDLE_SIZE) {
            Ok(v) => v,
            Err(_) => return reply(DispatchResult::GarbageArgs),
        };
        resolve_begin(handle, Stage::GetattrResolve)
    }

    fn start_lookup(args: &[u8]) -> (out: (Stage, Action))
        ensures
            (out.0.view(), out.1@) == start_spec(NFS_VERSION, 4, args@),
    {
        let mut d = XdrDecoder::new(args);
        let dir_handle = match d.read_opaque_fixed(FILE_HANDLE_SIZE) {
            Ok(v) => v,
            Err(_) => return reply(DispatchResult::GarbageArgs),
        };
        let name = match d.read_string() {
            Ok(v) => v,
            Err(_) => return reply(DispatchResult::GarbageArgs),
        };
        let name_bytes = name.as_bytes();
        if !name_ok(name_bytes) {
            return status_answer(2);
        }
        resolve_begin(dir_handle, Stage::LookupResolve { name: copy_bytes(name_bytes) })
    }

    fn start_read(args: &[u8]) -> (out: (Stage, Action))
        ensures
            (out.0.view(), out.1@) == start_spec(NFS_VERSION, 6, args@),
    {
        let mut d = XdrDecoder::new(args);
        let handle = match d.read_opaque_fixed(FILE_HANDLE_SIZE) {
            Ok(v) => v,
            Err(_) => return reply(DispatchResult::GarbageArgs),
        };
        let offset = match d.read_u32() {
            Ok(v) => v,
            Err(_) => return reply(DispatchResult::GarbageArgs),
        };
        let count = match d.read_u32() {
            Ok(v) => v,
            Err(_) => return reply(DispatchResult::GarbageArgs),
        };
        if d.read_u32().is_err() {
            return reply(DispatchResult::GarbageArgs);
        }
        resolve_begin(handle, Stage::ReadResolve { offset, count })
    }

    fn start_readdir(args: &[u8]) -> (out: (Stage, Action))
        ensures
            (out.0.view(), out.1@) == start_spec(NFS_VERSION, 16, args@),
    {
        let mut d = XdrDecoder::new(args);
        let handle = match d.read_opaque_fixed(FILE_HANDLE_SIZE) {
            Ok(v) => v,
            Err(_) => return reply(DispatchResult::GarbageArgs),
        };
        let cookie = match d.read_u32() {
            Ok(v) => v,
            Err(_) => return reply(DispatchResult::GarbageArgs),
        };
        let count = match d.read_u32() {
            Ok(v) => v,
            Err(_) => return reply(DispatchResult::GarbageArgs),
        };
        resolve_begin(handle, Stage::ReaddirResolve { cookie, count })
    }
}

/// A call in progress.
pub struct NfsCall {
    stage: Stage,
}

impl NfsCall {
    /// Where the call stands.
    pub closed spec fn stage(&self) -> StageView {
        self.stage.view()
    }

    /// Hands the call the canonical form of the path it asked for.
    pub fn on_path(&mut self, handler: &NfsHandler, r: Result<Vec<u8>, IoErrorKind>) -> (a: Action)
        requires
            awaits_path(old(self).stage()),
        ensures
            (final(self).stage(), a@) == on_path_spec(handler.root(), old(self).stage(), path_result_view(r)),
    {
        let mut st = Stage::Finished;
        std::mem::swap(&mut st, &mut self.stage);
        let (next, action) = match st {
            Stage::LookupCanon => match r {
                Err(k) => status_answer(NfsHandler::status_error(k)),
                Ok(p) => if !path_within(p.as_slice(), handler.export_root.as_slice()) {
                    status_answer(13)
                } else if !handle_fits(p.as_slice()) {
                    status_answer(63)
                } else {
                    let q = copy_bytes(p.as_slice());
                    (Stage::LookupStat { path: p }, Action::Perform(FsOp::Metadata(q)))
                },
            },
            _ => match r {
                Ok(p) => if path_within(p.as_slice(), handler.export_root.as_slice()) {
                    let q = copy_bytes(p.as_slice());
                    let next = match st {
                        Stage::GetattrResolve => Stage::GetattrStat,
                        Stage::LookupResolve { name } => Stage::LookupStatDir { name, dir: p },
                        Stage::ReadResolve { offset, count } => Stage::ReadStat { path: p, offset, count },
                        Stage::ReaddirResolve { cookie, count } => Stage::ReaddirStat {
                            path: p,
                            cookie,
                            count,
                        },
                        _ => Stage::Finished,
                    };
                    (next, Action::Perform(FsOp::Metadata(q)))
                } else {
                    status_answer(70)
                },
                Err(_) => status_answer(70),
            },
        };
        self.stage = next;
        action
    }

    /// Hands the call the outcome of reading the metadata it asked for.
    pub fn on_metadata(&mut self, r: Result<Metadata, IoErrorKind>) -> (a: Action)
        requires
            awaits_metadata(old(self).stage()),
        ensures
            (final(self).stage(), a@) == on_metadata_spec(old(self).stage(), r),
    {
        let mut st = Stage::Finished;
        std::mem::swap(&mut st, &mut self.stage);
        let (next, action) = match r {
            Err(k) => status_answer(NfsHandler::status_error(k)),
            Ok(m) => match st {
                Stage::GetattrStat => {
                    let mut enc = XdrEncoder::new();
                    enc.put_u32(0);
                    put_fattr(&mut enc, &m);
                    let b = enc.into_bytes();
                    assert(b@ =~= be_u32(0) + fattr_bytes(m));
                    reply(DispatchResult::Success(b))
                },
                Stage::LookupStatDir { name, dir } => if m.kind != FileKind::Dir {
                    status_answer(20)
                } else {
                    let joined = join_path(dir.as_slice(), name.as_slice());
                    (Stage::LookupCanon, Action::Perform(FsOp::Canonicalize(joined)))
                },
                Stage::LookupStat { path } => {
                    let mut enc = XdrEncoder::new();
                    enc.put_u32(0);
                    let handle = path_to_handle(path.as_slice());
                    enc.put_opaque_fixed(&handle);
                    put_fattr(&mut enc, &m);
                    let b = enc.into_bytes();
                    assert(b@ =~= be_u32(0) + opaque_fixed_bytes(handle_of(path@)) + fattr_bytes(m));
                    reply(DispatchResult::Success(b))
                },
                Stage::ReadStat { path, offset, count } => if m.kind == FileKind::Dir {
                    status_answer(21)
                } else {
                    let read_len = if count < NFS_MAX_READ {
                        count
                    } else {
                        NFS_MAX_READ
                    };
                    (
                        Stage::ReadData { meta: m, offset },
                        Action::Perform(
                            FsOp::ReadFile { path, offset: offset as u64, len: read_len as usize },
                        ),
                    )
                },
                Stage::ReaddirStat { path, cookie, count } => if m.kind != FileKind::Dir {
                    status_answer(20)
                } else {
                    (Stage::ReaddirList { cookie, count }, Action::Perform(FsOp::ListDir(path)))
                },
                _ => status_answer(5),
            },
        };
        self.stage = next;
        action
    }

    /// Hands a READDIR call the listing it asked for.
    pub fn on_entries(&mut self, r: Result<Vec<DirEntry>, IoErrorKind>) -> (a: Action)
        requires
            old(self).stage() is ReaddirList,
        ensures
            final(self).stage() is Finished,
            a@ == match (old(self).stage(), entries_view(r)) {
                (StageView::ReaddirList { cookie, count }, Ok(es)) => ActionView::Reply(
                    DispatchView::Success(readdir_bytes(es, cookie, count)),
                ),
                (_, Err(k)) => status_reply(status_of(k)),
                _ => status_reply(5),
            },
    {
        let mut st = Stage::Finished;
        std::mem::swap(&mut st, &mut self.stage);
        match (st, r) {
            (Stage::ReaddirList { cookie, count }, Ok(entries)) => Action::Reply(
                DispatchResult::Success(readdir_reply(&entries, cookie, count)),
            ),
            (_, Err(k)) => status_answer(NfsHandler::status_error(k)).1,
            _ => status_answer(5).1,
        }
    }

    /// Hands a READ call the outcome of the read it asked for.
    pub fn on_read(&mut self, r: ReadOutcome) -> (a: Action)
        requires
            old(self).stage() is ReadData,
        ensures
            final(self).stage() is Finished,
            a@ == match old(self).stage() {
                StageView::ReadData { meta, offset } => on_read_spec(meta, offset, r@),
                _ => status_reply(5),
            },
    {
        let mut st = Stage::Finished;
        std::mem::swap(&mut st, &mut self.stage);
        match st {
            Stage::ReadData { meta, offset } => match r {
                ReadOutcome::OpenFailed(k) => status_answer(NfsHandler::status_error(k)).1,
                ReadOutcome::SeekFailed => status_answer(5).1,
                ReadOutcome::ReadFailed(k) => status_answer(NfsHandler::status_error(k)).1,
                ReadOutcome::Read(data) => {
                    let n = data.len();
                    let eof = (offset as u128) + (n as u128) >= (meta.size as u128);
                    let mut enc = XdrEncoder::new();
                    enc.put_u32(0);
                    put_fattr(&mut enc, &meta);
                    enc.put_u32(#[verifier::truncate] (n as u32));
                    enc.put_opaque_fixed(data.as_slice());
                    enc.put_bool(eof);
                    let b = enc.into_bytes();
                    assert(b@ =~= read_bytes(meta, offset, data@));
                    Action::Reply(DispatchResult::Success(b))
                },
            },
            _ => status_answer(5).1,
        }
    }
}

/// A handler for the directory whose canonical path is `export_root`.
pub fn make_nfs_handler(export_root: Vec<u8>) -> (h: NfsHandler)
    ensures
        h.root() == export_root@,
{
    NfsHandler::new(export_root)
}

/// Whether every path a call in `stage` keeps lies inside `root`.
pub open spec fn stage_within(stage: StageView, root: Seq<u8>) -> bool {
    match stage {
        StageView::LookupStatDir { dir, .. } => within_root(dir, root),
        StageView::LookupStat { path } => within_root(path, root),
        StageView::ReadStat { path, .. } => within_root(path, root),
        StageView::ReaddirStat { path, .. } => within_root(path, root),
        _ => true,
    }
}

/// Whether an action touches only paths inside `root`, canonicalizing
/// aside: canonicalizing is how a path is checked.
pub open spec fn action_within(a: ActionView, root: Seq<u8>) -> bool {
    match a {
        ActionView::Perform(FsOpView::Metadata(p)) => within_root(p, root),
        ActionView::Perform(FsOpView::ListDir(p)) => within_root(p, root),
        ActionView::Perform(FsOpView::ReadFile { path, .. }) => within_root(path, root),
        _ => true,
    }
}

/// The server reads metadata, lists directories and reads files only inside
/// the export root: a call starts holding no path, every path it goes on to
/// hold or touch has been canonicalized and checked against the root, and
/// that stays so at every step.
pub proof fn lemma_stays_inside_root(
    root: Seq<u8>,
    vers: u32,
    proc: u32,
    args: Seq<u8>,
    stage: StageView,
    path: Result<Seq<u8>, IoErrorKind>,
    meta: Result<Metadata, IoErrorKind>,
)
    requires
        stage_within(stage, root),
    ensures
        stage_within(start_spec(vers, proc, args).0, root),
        action_within(start_spec(vers, proc, args).1, root),
        stage_within(on_path_spec(root, stage, path).0, root),
        action_within(on_path_spec(root, stage, path).1, root),
        stage_within(on_metadata_spec(stage, meta).0, root),
        action_within(on_metadata_spec(stage, meta).1, root),
{
}

/// A handle whose path cannot be canonicalized, or whose canonical path lies
/// outside the export root, is answered `NFSERR_STALE`; a LOOKUP that leads
/// outside the root is answered `NFSERR_ACCES`, and one whose path cannot be
/// canonicalized with the status of that I/O error.
pub proof fn lemma_outside_root_refused(root: Seq<u8>, stage: StageView, p: Seq<u8>, k: IoErrorKind)
    requires
        awaits_path(stage),
        !within_root(p, root),
    ensures
        on_path_spec(root, stage, Ok(p)) == answer(
            status_reply(if stage is LookupCanon { 13 } else { 70 }),
        ),
        !(stage is LookupCanon) ==> on_path_spec(root, stage, Err(k)) == answer(status_reply(70)),
        stage is LookupCanon ==> on_path_spec(root, stage, Err(k)) == answer(
            status_reply(status_of(k)),
        ),
{
}

/// A READ never asks for more than [`NFS_MAX_READ`] bytes, nor more than
/// the call's count.
pub proof fn lemma_read_is_capped(stage: StageView, meta: Result<Metadata, IoErrorKind>)
    ensures
        on_metadata_spec(stage, meta).1 matches ActionView::Perform(FsOpView::ReadFile { len, .. })
            ==> len <= NFS_MAX_READ && (stage matches StageView::ReadStat { count, .. } ==> len
            <= count),
{
}

/// Whether every name in `entries` has a UTF-8 length that fits the count.
pub open spec fn names_fit(entries: Seq<DirEntryView>) -> bool {
    forall|j: int| 0 <= j < entries.len() ==> encode_utf8(#[trigger] entries[j].name).len() <= u32::MAX
}

proof fn lemma_listing_size(entries: Seq<DirEntryView>, i: int, used: int, count: int)
    requires
        names_fit(entries),
    ensures
        listing(entries, i, used, count).0.len() == 0 || used + listing(entries, i, used, count).0.len()
            + 4 <= count,
        listing(entries, i, used, count).1 >= i,
    decreases entries.len() - i,
{
    if !(i < 0 || i >= entries.len() || used + entry_cost(entries[i]) + 4 > count) {
        let e = entries[i];
        lemma_listing_size(entries, i + 1, used + entry_cost(e), count);
        crate::rpc::xdr::lemma_be_u32_roundtrip(encode_utf8(e.name).len() as u32);
        assert(entry_bytes(e, i).len() == entry_cost(e));
    }
}

/// A READDIR reply that lists any entry stays within the count the client
/// gave, but for four bytes: the budget keeps room for the end-of-list flag
/// but not for the end-of-directory flag after it. One that lists no entry
/// is twelve bytes.
pub proof fn lemma_readdir_size(entries: Seq<DirEntryView>, cookie: u32, count: u32)
    requires
        names_fit(entries),
    ensures
        listing(entries, cookie as int, 4, count as int).0.len() > 0 ==> readdir_bytes(
            entries,
            cookie,
            count,
        ).len() <= count + 4,
        listing(entries, cookie as int, 4, count as int).0.len() == 0 ==> readdir_bytes(
            entries,
            cookie,
            count,
        ).len() == 12,
{
    lemma_listing_size(entries, cookie as int, 4, count as int);
    crate::rpc::xdr::lemma_be_u32_roundtrip(0);
    crate::rpc::xdr::lemma_be_u32_roundtrip(1);
}

/// Paging a directory loses no entry and repeats none: a READDIR from
/// `cookie` lists the entries from index `cookie` up to the index it stops
/// at, in order, each tagged with the cookie that resumes right after it;
/// it stops at the end or at the first entry that does not fit.
pub proof fn lemma_readdir_resumes(entries: Seq<DirEntryView>, i: int, used: int, count: int)
    requires
        0 <= i <= entries.len(),
    ensures
        ({
            let (body, next) = listing(entries, i, used, count);
            &&& i <= next <= entries.len()
            &&& body == listed_entries(entries, i, next)
        }),
    decreases entries.len() - i,
{
    if !(i >= entries.len() || used + entry_cost(entries[i]) + 4 > count) {
        lemma_readdir_resumes(entries, i + 1, used + entry_cost(entries[i]), count);
    }
}

/// The entries from index `i` up to `j`, each with its cookie.
pub open spec fn listed_entries(entries: Seq<DirEntryView>, i: int, j: int) -> Seq<u8>
    decreases j - i,
{
    if i >= j {
        Seq::empty()
    } else {
        entry_bytes(entries[i], i) + listed_entries(entries, i + 1, j)
    }
}

/// Whether a call in `stage` waits for the outcome of `op`.
pub open spec fn awaits(stage: StageView, op: FsOpView) -> bool {
    match op {
        FsOpView::Canonicalize(_) => awaits_path(stage),
        FsOpView::Metadata(_) => awaits_metadata(stage),
        FsOpView::ListDir(_) => stage is ReaddirList,
        FsOpView::ReadFile { .. } => stage is ReadData,
    }
}

/// Whether a step leaves the call answered, or waiting for exactly the
/// operation it asks for.
pub open spec fn step_consistent(step: (StageView, ActionView)) -> bool {
    match step.1 {
        ActionView::Reply(_) => step.0 is Finished,
        ActionView::Perform(op) => awaits(step.0, op),
    }
}

/// A call is always either answered or waiting for the one operation it
/// asked for, so the caller can always hand back the outcome the call
/// expects, and every call ends after at most four operations.
pub proof fn lemma_steps_consistent(
    root: Seq<u8>,
    vers: u32,
    proc: u32,
    args: Seq<u8>,
    stage: StageView,
    path: Result<Seq<u8>, IoErrorKind>,
    meta: Result<Metadata, IoErrorKind>,
)
    ensures
        step_consistent(start_spec(vers, proc, args)),
        awaits_path(stage) ==> step_consistent(on_path_spec(root, stage, path)),
        awaits_metadata(stage) ==> step_consistent(on_metadata_spec(stage, meta)),
        stage_rank(start_spec(vers, proc, args).0) <= 4,
        awaits_path(stage) ==> stage_rank(on_path_spec(root, stage, path).0) < stage_rank(stage),
        awaits_metadata(stage) ==> stage_rank(on_metadata_spec(stage, meta).0) < stage_rank(stage),
{
}

/// How many operations a call in `stage` may still ask for, at most.
pub open spec fn stage_rank(stage: StageView) -> nat {
    match stage {
        StageView::LookupResolve { .. } => 4,
        StageView::LookupStatDir { .. } => 3,
        StageView::LookupCanon => 2,
        StageView::LookupStat { .. } => 1,
        StageView::GetattrResolve => 2,
        StageView::GetattrStat => 1,
        StageView::ReadResolve { .. } => 3,
        StageView::ReadStat { .. } => 2,
        StageView::ReadData { .. } => 1,
        StageView::ReaddirResolve { .. } => 3,
        StageView::ReaddirStat { .. } => 2,
        StageView::ReaddirList { .. } => 1,
        StageView::Finished => 0,
    }
}

/// A LOOKUP answered `NFS_OK` carries a handle that names exactly the path
/// it found: a call goes on to read the metadata of a found path only when a
/// handle can name it, and the handle in the reply gives that path back.
pub proof fn lemma_lookup_handle_names_path(
    root: Seq<u8>,
    stage: StageView,
    r: Result<Seq<u8>, IoErrorKind>,
    m: Metadata,
)
    ensures
        on_path_spec(root, stage, r).0 matches StageView::LookupStat { path } ==> fits_handle(path),
        stage matches StageView::LookupStat { path } ==> fits_handle(path) ==> ({
            &&& on_metadata_spec(stage, Ok(m)).1 matches ActionView::Reply(DispatchView::Success(b))
            &&& b.subrange(0, 4) == be_u32(0)
            &&& path_of(b.subrange(4, 36)) == path
        }),
{
    if let StageView::LookupStat { path } = stage {
        if fits_handle(path) {
            let h = handle_of(path);
            let b = be_u32(0) + opaque_fixed_bytes(h) + fattr_bytes(m);
            crate::rpc::xdr::lemma_be_u32_roundtrip(0);
            assert(opaque_fixed_bytes(h) =~= h);
            assert(b.subrange(0, 4) =~= be_u32(0));
            assert(b.subrange(4, 36) =~= h);
            assert forall|j: int| 0 <= j < path.len() implies path[j] != 0 by {
                if path[j] == 0 {
                    assert(path.contains(0u8));
                }
            }
            lemma_handle_roundtrip(path);
        }
    }
}

/// The last four bytes of `b`.
pub open spec fn last_word(b: Seq<u8>) -> Seq<u8> {
    b.subrange(b.len() - 4, b.len() as int)
}

/// A READDIR reply starts with `NFS_OK`, ends its entries with the
/// end-of-list marker, and sets the end-of-directory flag exactly when the
/// listing stopped at or past the last entry, whether or not it listed any:
/// a cookie at or past the end, an empty directory among them, gives the
/// twelve bytes `NFS_OK`, no entry, end of directory.
pub proof fn lemma_readdir_eof(entries: Seq<DirEntryView>, cookie: u32, count: u32)
    ensures
        ({
            let r = readdir_bytes(entries, cookie, count);
            let next = listing(entries, cookie as int, 4, count as int).1;
            &&& r.len() >= 12
            &&& r.take(4) == be_u32(0)
            &&& r.subrange(r.len() - 8, r.len() - 4) == be_u32(0)
            &&& (last_word(r) == be_u32(1) || last_word(r) == be_u32(0))
            &&& (last_word(r) == be_u32(1) <==> next >= entries.len())
        }),
        cookie >= entries.len() ==> readdir_bytes(entries, cookie, count) == be_u32(0) + be_u32(0)
            + be_u32(1),
{
    let r = readdir_bytes(entries, cookie, count);
    let (body, next) = listing(entries, cookie as int, 4, count as int);
    let flag: u32 = if next >= entries.len() { 1 } else { 0 };
    assert(r =~= be_u32(0) + body + be_u32(0) + be_u32(flag));
    assert(r.take(4) =~= be_u32(0));
    assert(r.subrange(r.len() - 8, r.len() - 4) =~= be_u32(0));
    assert(last_word(r) =~= be_u32(flag));
    crate::rpc::xdr::lemma_be_u32_roundtrip(0);
    crate::rpc::xdr::lemma_be_u32_roundtrip(1);
    if cookie >= entries.len() {
        assert(body =~= Seq::<u8>::empty());
        assert(r =~= be_u32(0) + be_u32(0) + be_u32(1));
    }
}

/// An entry of a READDIR reply reads back as the XDR items RFC 1094 lists:
/// the presence flag 1, the file id cut to 32 bits, the name as a counted,
/// padded UTF-8 string, and the cookie `index + 1` that resumes the listing
/// right after this entry; its length is what the entry costs the budget.
pub proof fn lemma_entry_reads_back(e: DirEntryView, index: int, rest: Seq<u8>)
    requires
        encode_utf8(e.name).len() <= u32::MAX,
    ensures
        ({
            let b = entry_bytes(e, index) + rest;
            let name = encode_utf8(e.name);
            let q = 12 + padded(name.len() as int);
            &&& read_u32_spec(b, 0) == Some((1u32, 4int))
            &&& read_u32_spec(b, 4) == Some((e.fileid as u32, 8int))
            &&& read_opaque_var_spec(b, 8) == Some((name, q))
            &&& read_u32_spec(b, q) == Some((((index + 1) as u32), q + 4))
            &&& entry_bytes(e, index).len() == q + 4
            &&& entry_bytes(e, index).len() == entry_cost(e)
        }),
{
    let name = encode_utf8(e.name);
    let o = opaque_var_bytes(name);
    let c = be_u32((index + 1) as u32);
    let b = entry_bytes(e, index) + rest;
    crate::rpc::xdr::lemma_be_u32_roundtrip(name.len() as u32);
    crate::rpc::xdr::lemma_be_u32_roundtrip(1);
    crate::rpc::xdr::lemma_be_u32_roundtrip(e.fileid as u32);
    crate::rpc::xdr::lemma_be_u32_roundtrip((index + 1) as u32);
    assert(o.len() == 4 + padded(name.len() as int));
    assert(b =~= Seq::<u8>::empty() + be_u32(1) + (be_u32(e.fileid as u32) + o + c + rest));
    crate::rpc::xdr::lemma_u32_roundtrip(Seq::empty(), 1, be_u32(e.fileid as u32) + o + c + rest);
    assert(b =~= be_u32(1) + be_u32(e.fileid as u32) + (o + c + rest));
    crate::rpc::xdr::lemma_u32_roundtrip(be_u32(1), e.fileid as u32, o + c + rest);
    let pre = be_u32(1) + be_u32(e.fileid as u32);
    assert(b =~= pre + o + (c + rest));
    crate::rpc::xdr::lemma_opaque_var_roundtrip(pre, name, c + rest);
    assert(b =~= (pre + o) + c + rest);
    crate::rpc::xdr::lemma_u32_roundtrip(pre + o, (index + 1) as u32, rest);
}

proof fn lemma_listing_stops(entries: Seq<DirEntryView>, i: int, used: int, count: int)
    requires
        names_fit(entries),
        0 <= i <= entries.len(),
    ensures
        ({
            let (body, next) = listing(entries, i, used, count);
            next < entries.len() ==> used + body.len() + entry_bytes(entries[next], next).len() + 4
                > count
        }),
    decreases entries.len() - i,
{
    if i < entries.len() {
        let e = entries[i];
        lemma_entry_reads_back(e, i, Seq::empty());
        if used + entry_cost(e) + 4 <= count {
            lemma_listing_stops(entries, i + 1, used + entry_cost(e), count);
        }
    }
}

/// A READDIR page holds, after `NFS_OK`, exactly the entries from the
/// cookie's index up to where it stopped, in order, each with its own
/// cookie; it lists at least the entries that fit: it stops at the end of
/// the directory or at an entry whose bytes would take the reply past the
/// count, and what it lists leaves room within the count for the end of the
/// list.
pub proof fn lemma_readdir_page(entries: Seq<DirEntryView>, cookie: u32, count: u32)
    requires
        names_fit(entries),
        cookie <= entries.len(),
    ensures
        ({
            let r = readdir_bytes(entries, cookie, count);
            let (body, next) = listing(entries, cookie as int, 4, count as int);
            &&& cookie <= next <= entries.len()
            &&& r.subrange(4, 4 + body.len() as int) == listed_entries(entries, cookie as int, next)
            &&& (next < entries.len() ==> 4 + body.len() + entry_bytes(entries[next], next).len() + 4
                > count)
            &&& (body.len() > 0 ==> 4 + body.len() + 4 <= count)
        }),
{
    let r = readdir_bytes(entries, cookie, count);
    let (body, next) = listing(entries, cookie as int, 4, count as int);
    lemma_readdir_resumes(entries, cookie as int, 4, count as int);
    lemma_listing_stops(entries, cookie as int, 4, count as int);
    lemma_listing_size(entries, cookie as int, 4, count as int);
    let flag: u32 = if next >= entries.len() { 1 } else { 0 };
    assert(r =~= be_u32(0) + body + be_u32(0) + be_u32(flag));
    assert(r.subrange(4, 4 + body.len() as int) =~= body);
}

/// A READ reply holds `NFS_OK`, the file's attributes, the number of bytes
/// read, the bytes themselves padded to four, and an end-of-file flag that
/// is set exactly when the offset plus the bytes read reaches the file's
/// size, however many bytes were read: a read of nothing at or past the end
/// reports the end of the file.
pub proof fn lemma_read_reply(meta: Metadata, offset: u32, data: Seq<u8>)
    requires
        data.len() <= u32::MAX,
    ensures
        ({
            let r = read_bytes(meta, offset, data);
            &&& r.len() == 80 + padded(data.len() as int)
            &&& r.take(4) == be_u32(0)
            &&& r.subrange(4, 72) == fattr_bytes(meta)
            &&& r.subrange(72, 76) == be_u32(data.len() as u32)
            &&& r.subrange(76, 76 + data.len() as int) == data
            &&& (forall|j: int| 76 + data.len() <= j < r.len() - 4 ==> r[j] == 0)
            &&& (last_word(r) == be_u32(1) || last_word(r) == be_u32(0))
            &&& (last_word(r) == be_u32(1) <==> offset + data.len() >= meta.size)
        }),
        on_read_spec(meta, offset, ReadOutcomeView::Read(data)) == ActionView::Reply(
            DispatchView::Success(read_bytes(meta, offset, data)),
        ),
{
    let r = read_bytes(meta, offset, data);
    let flag: u32 = if offset + data.len() >= meta.size { 1 } else { 0 };
    let f = fattr_bytes(meta);
    lemma_fattr_len(meta);
    let body = opaque_fixed_bytes(data);
    assert(body.len() == padded(data.len() as int));
    assert(r =~= be_u32(0) + f + be_u32(data.len() as u32) + body + be_u32(flag));
    assert(r.take(4) =~= be_u32(0));
    assert(r.subrange(4, 72) =~= f);
    assert(r.subrange(72, 76) =~= be_u32(data.len() as u32));
    assert(r.subrange(76, 76 + data.len() as int) =~= data);
    assert forall|j: int| 76 + data.len() <= j < r.len() - 4 implies r[j] == 0 by {
        assert(r[j] == body[j - 76]);
    }
    assert(last_word(r) =~= be_u32(flag));
    crate::rpc::xdr::lemma_be_u32_roundtrip(0);
    crate::rpc::xdr::lemma_be_u32_roundtrip(1);
}

proof fn lemma_fattr_len(m: Metadata)
    ensures
        fattr_bytes(m).len() == 68,
        fattr_id_bytes(m).len() == 44,
{
}

/// The RFC 1094 file type (2.3.2) of a file of kind `k`.
pub open spec fn rfc_ftype(k: FileKind) -> ftype {
    match k {
        FileKind::File => ftype::NFREG,
        FileKind::Dir => ftype::NFDIR,
        FileKind::Symlink => ftype::NFLNK,
        FileKind::Other => ftype::NFNON,
    }
}

/// The attributes of a file are 68 bytes and start with the wire number of
/// its RFC 1094 file type (a directory is `NFDIR`, a regular file `NFREG`, a
/// symbolic link `NFLNK`), so files of different kinds never carry the same
/// type. The permission bits, link count, owner, group, size, block size,
/// special device, block count, device and inode number follow in that
/// order, each in one word: the sizes and block count capped at
/// `u32::MAX`, the others cut to their low 32 bits.
pub proof fn lemma_fattr_fields(m: Metadata, other: Metadata)
    ensures
        fattr_bytes(m).len() == 68,
        fattr_bytes(m).take(4) == be_u32(rfc_ftype(m.kind).spec_code()),
        m.kind != other.kind ==> fattr_bytes(m).take(4) != fattr_bytes(other).take(4),
        fattr_bytes(m).subrange(4, 8) == be_u32(m.mode & 0o7777),
        fattr_bytes(m).subrange(8, 12) == be_u32(m.nlink as u32),
        fattr_bytes(m).subrange(12, 16) == be_u32(m.uid),
        fattr_bytes(m).subrange(16, 20) == be_u32(m.gid),
        fattr_bytes(m).subrange(20, 24) == be_u32(
            if m.size > u32::MAX {
                u32::MAX
            } else {
                m.size as u32
            },
        ),
        fattr_bytes(m).subrange(24, 28) == be_u32(
            if m.blksize > u32::MAX {
                u32::MAX
            } else {
                m.blksize as u32
            },
        ),
        fattr_bytes(m).subrange(28, 32) == be_u32(m.rdev as u32),
        fattr_bytes(m).subrange(32, 36) == be_u32(
            if m.blocks > u32::MAX {
                u32::MAX
            } else {
                m.blocks as u32
            },
        ),
        fattr_bytes(m).subrange(36, 40) == be_u32(m.dev as u32),
        fattr_bytes(m).subrange(40, 44) == be_u32(m.ino as u32),
{
    lemma_fattr_len(m);
    lemma_fattr_len(other);
    let f = fattr_bytes(m);
    let ids = fattr_id_bytes(m);
    assert(f.subrange(0, 44) =~= ids);
    assert(ids.take(4) =~= be_u32(ftype_code(m.kind)));
    assert(ids.subrange(4, 8) =~= be_u32(m.mode & 0o7777));
    assert(ids.subrange(8, 12) =~= be_u32(m.nlink as u32));
    assert(ids.subrange(12, 16) =~= be_u32(m.uid));
    assert(ids.subrange(16, 20) =~= be_u32(m.gid));
    assert(ids.subrange(20, 24) =~= be_u32(clamp_u32(m.size)));
    assert(ids.subrange(24, 28) =~= be_u32(clamp_u32(m.blksize)));
    assert(ids.subrange(28, 32) =~= be_u32(m.rdev as u32));
    assert(ids.subrange(32, 36) =~= be_u32(clamp_u32(m.blocks)));
    assert(ids.subrange(36, 40) =~= be_u32(m.dev as u32));
    assert(ids.subrange(40, 44) =~= be_u32(m.ino as u32));
    assert forall|a: int, b: int| 0 <= a <= b <= 44 implies f.subrange(a, b) == ids.subrange(a, b) by {
        assert(f.subrange(a, b) =~= ids.subrange(a, b));
    }
    assert(f.take(4) == f.subrange(0, 4));
    assert(ids.take(4) == ids.subrange(0, 4));
    assert(fattr_bytes(other).take(4) =~= be_u32(ftype_code(other.kind)));
    crate::rpc::xdr::lemma_be_u32_roundtrip(ftype_code(m.kind));
    crate::rpc::xdr::lemma_be_u32_roundtrip(ftype_code(other.kind));
}

/// The three times of a file's attributes (access, modification, change)
/// close them, each as seconds and microseconds: seconds before 1970 are 0
/// and seconds past `u32::MAX` are `u32::MAX`; negative nanoseconds count
/// as 0, and the microseconds are the whole thousands of nanoseconds,
/// capped at `u32::MAX`.
pub proof fn lemma_fattr_times(m: Metadata)
    ensures
        ({
            let f = fattr_bytes(m);
            let secs = |s: i64|
                if s < 0 {
                    0u32
                } else if s > u32::MAX {
                    u32::MAX
                } else {
                    s as u32
                };
            let micros = |ns: i64|
                if ns < 0 {
                    0u32
                } else if ns / 1000 > u32::MAX {
                    u32::MAX
                } else {
                    (ns / 1000) as u32
                };
            &&& f.subrange(44, 48) == be_u32(secs(m.atime))
            &&& f.subrange(48, 52) == be_u32(micros(m.atime_nsec))
            &&& f.subrange(52, 56) == be_u32(secs(m.mtime))
            &&& f.subrange(56, 60) == be_u32(micros(m.mtime_nsec))
            &&& f.subrange(60, 64) == be_u32(secs(m.ctime))
            &&& f.subrange(64, 68) == be_u32(micros(m.ctime_nsec))
        }),
{
    lemma_fattr_len(m);
    let f = fattr_bytes(m);
    assert(f.subrange(44, 48) =~= be_u32(clamp_seconds(m.atime)));
    assert(f.subrange(48, 52) =~= be_u32(clamp_micros(m.atime_nsec)));
    assert(f.subrange(52, 56) =~= be_u32(clamp_seconds(m.mtime)));
    assert(f.subrange(56, 60) =~= be_u32(clamp_micros(m.mtime_nsec)));
    assert(f.subrange(60, 64) =~= be_u32(clamp_seconds(m.ctime)));
    assert(f.subrange(64, 68) =~= be_u32(clamp_micros(m.ctime_nsec)));
}

/// The NFS status for each kind of I/O error is the RFC 1094 one: a missing
/// file `NFSERR_NOENT`, a refused one `NFSERR_ACCES`, one that exists
/// `NFSERR_EXIST`, a bad name `NFSERR_NAMETOOLONG`, anything else
/// `NFSERR_IO`; none of them is `NFS_OK`.
pub proof fn lemma_error_statuses(k: IoErrorKind)
    ensures
        status_of(IoErrorKind::NotFound) == stat::NFSERR_NOENT.spec_code(),
        status_of(IoErrorKind::PermissionDenied) == stat::NFSERR_ACCES.spec_code(),
        status_of(IoErrorKind::AlreadyExists) == stat::NFSERR_EXIST.spec_code(),
        status_of(IoErrorKind::InvalidInput) == stat::NFSERR_NAMETOOLONG.spec_code(),
        status_of(IoErrorKind::Other) == stat::NFSERR_IO.spec_code(),
        status_of(k) != stat::NFS_OK.spec_code(),
{
}

/// A READ whose file cannot be opened or read is answered with the status
/// of the I/O error; one whose seek fails is answered `NFSERR_IO`.
pub proof fn lemma_read_failures(meta: Metadata, offset: u32, k: IoErrorKind)
    ensures
        on_read_spec(meta, offset, ReadOutcomeView::OpenFailed(k)) == status_reply(status_of(k)),
        on_read_spec(meta, offset, ReadOutcomeView::ReadFailed(k)) == status_reply(status_of(k)),
        on_read_spec(meta, offset, ReadOutcomeView::SeekFailed) == status_reply(
            stat::NFSERR_IO.spec_code(),
        ),
{
}

/// A READ of a file that is not a directory asks to read, from the file the
/// handle names and at the call's offset, as many bytes as the call asks
/// for but at most [`NFS_MAX_READ`]; a READ of a directory is answered
/// `NFSERR_ISDIR`.
pub proof fn lemma_read_request(path: Seq<u8>, offset: u32, count: u32, m: Metadata)
    ensures
        m.kind != FileKind::Dir ==> on_metadata_spec(
            StageView::ReadStat { path, offset, count },
            Ok(m),
        ) == (
            StageView::ReadData { meta: m, offset },
            ActionView::Perform(
                FsOpView::ReadFile {
                    path,
                    offset: offset as u64,
                    len: if count <= 8192 { count as nat } else { 8192nat },
                },
            ),
        ),
        m.kind == FileKind::Dir ==> on_metadata_spec(
            StageView::ReadStat { path, offset, count },
            Ok(m),
        ) == answer(status_reply(stat::NFSERR_ISDIR.spec_code())),
{
}

/// GETATTR answers `NFS_OK` followed by the attributes, so the type in a
/// GETATTR reply is the file's RFC 1094 type; a LOOKUP reply carries the
/// type of the file it found after the handle.
pub proof fn lemma_reply_file_type(m: Metadata, path: Seq<u8>)
    ensures
        on_metadata_spec(StageView::GetattrStat, Ok(m)).1 matches ActionView::Reply(
            DispatchView::Success(b),
        ) && b.subrange(4, 8) == be_u32(rfc_ftype(m.kind).spec_code()),
        on_metadata_spec(StageView::LookupStat { path }, Ok(m)).1 matches ActionView::Reply(
            DispatchView::Success(b),
        ) && b.subrange(36, 40) == be_u32(rfc_ftype(m.kind).spec_code()),
{
    lemma_fattr_fields(m, m);
    let f = fattr_bytes(m);
    let b1 = be_u32(0) + f;
    assert(b1.subrange(4, 8) =~= f.take(4));
    let h = opaque_fixed_bytes(handle_of(path));
    assert(handle_of(path).len() == 32);
    assert(h =~= handle_of(path));
    let b2 = be_u32(0) + h + f;
    assert(b2.subrange(36, 40) =~= f.take(4));
}

/// A path lies inside the root when it is the root itself or goes on past
/// the root at a separator; a path that merely starts with the root's bytes
/// and goes on with another name (`/srv2` under `/srv`) does not.
pub proof fn lemma_within_root_shape(root: Seq<u8>, rest: Seq<u8>, p: Seq<u8>)
    ensures
        within_root(root, root),
        within_root(root + seq![0x2fu8] + rest, root),
        root.len() > 0 && root.last() != 0x2f && p.len() > root.len() && p[root.len() as int]
            != 0x2f ==> !within_root(p, root),
{
    assert((root + seq![0x2fu8] + rest).take(root.len() as int) =~= root);
    assert(root.take(root.len() as int) =~= root);
}

/// A LOOKUP whose canonical path is inside the root and fits a handle goes
/// on to read that path's metadata, the root itself included (a `..` from a
/// directory just below the root finds the root); inside the root but too
/// long for a handle it is answered `NFSERR_NAMETOOLONG`. A handle of any
/// other procedure whose canonical path is inside the root, the root
/// included, goes on to read that path's metadata too.
pub proof fn lemma_inside_root_accepted(root: Seq<u8>, stage: StageView, p: Seq<u8>)
    requires
        awaits_path(stage),
        within_root(p, root),
    ensures
        stage is LookupCanon && fits_handle(p) ==> on_path_spec(root, stage, Ok(p)) == (
            StageView::LookupStat { path: p },
            ActionView::Perform(FsOpView::Metadata(p)),
        ),
        stage is LookupCanon && !fits_handle(p) ==> on_path_spec(root, stage, Ok(p)) == answer(
            status_reply(63),
        ),
        !(stage is LookupCanon) ==> on_path_spec(root, stage, Ok(p)).1 == ActionView::Perform(
            FsOpView::Metadata(p),
        ),
        fits_handle(root) ==> on_path_spec(root, StageView::LookupCanon, Ok(root)) == (
            StageView::LookupStat { path: root },
            ActionView::Perform(FsOpView::Metadata(root)),
        ),
{
    lemma_within_root_shape(root, Seq::empty(), p);
}

} // verus!
