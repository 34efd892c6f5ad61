use nfsv2::fs::path_to_handle;
use nfsv2::nfs::{
    make_nfs_handler, readdir_reply, Action, DirEntry, FileKind, FsOp, IoErrorKind, Metadata,
    NfsCall, NfsHandler, ReadOutcome, NFS_MAX_READ,
};
use nfsv2::rpc::program::DispatchResult;
use nfsv2::server::OpaqueAuth;

fn be(v: u32) -> Vec<u8> {
    v.to_be_bytes().to_vec()
}

fn auth() -> OpaqueAuth<'static> {
    OpaqueAuth { flavor: 0, body: &[] }
}

fn handler() -> NfsHandler {
    make_nfs_handler(b"/srv".to_vec())
}

fn meta(kind: FileKind, size: u64) -> Metadata {
    Metadata {
        kind,
        mode: 0o100644,
        nlink: 1,
        uid: 1000,
        gid: 100,
        size,
        blksize: 4096,
        rdev: 0,
        blocks: 8,
        dev: 0x1_0000_0003,
        ino: 42,
        atime: 10,
        atime_nsec: 5_000,
        mtime: -3,
        mtime_nsec: -1,
        ctime: 1 << 40,
        ctime_nsec: 999_999_999,
    }
}

fn fattr(kind: u32, size: u32) -> Vec<u8> {
    let mut v = Vec::new();
    for x in [kind, 0o644, 1, 1000, 100, size, 4096, 0, 8, 3, 42, 10, 5, 0, 0, u32::MAX, 999_999] {
        v.extend(be(x));
    }
    v
}

fn start(h: &NfsHandler, proc_: u32, args: &[u8]) -> (NfsCall, Action) {
    h.dispatch(2, proc_, &auth(), &auth(), args)
}

fn success(a: Action) -> Vec<u8> {
    match a {
        Action::Reply(DispatchResult::Success(b)) => b,
        other => panic!("unexpected {:?}", other),
    }
}

fn status(a: Action) -> u32 {
    let b = success(a);
    assert_eq!(b.len(), 4);
    u32::from_be_bytes([b[0], b[1], b[2], b[3]])
}

fn handle_args(path: &[u8]) -> Vec<u8> {
    path_to_handle(path).to_vec()
}

#[test]
fn version_null_and_unknown_procedures() {
    let h = handler();
    let (_, a) = h.dispatch(3, 0, &auth(), &auth(), &[]);
    assert!(matches!(a, Action::Reply(DispatchResult::ProgMismatch { low: 2, high: 2 })));
    assert!(success(start(&h, 0, &[]).1).is_empty());
    assert!(matches!(start(&h, 8, &[]).1, Action::Reply(DispatchResult::ProcUnavail)));
    assert!(matches!(start(&h, 1, &[0; 31]).1, Action::Reply(DispatchResult::GarbageArgs)));
}

#[test]
fn status_codes() {
    assert_eq!(NfsHandler::status_error(IoErrorKind::NotFound), 2);
    assert_eq!(NfsHandler::status_error(IoErrorKind::PermissionDenied), 13);
    assert_eq!(NfsHandler::status_error(IoErrorKind::AlreadyExists), 17);
    assert_eq!(NfsHandler::status_error(IoErrorKind::InvalidInput), 63);
    assert_eq!(NfsHandler::status_error(IoErrorKind::Other), 5);
    match NfsHandler::encode_status(70) {
        DispatchResult::Success(b) => assert_eq!(b, vec![0, 0, 0, 70]),
        other => panic!("unexpected {:?}", other),
    }
}

#[test]
fn getattr_flow() {
    let h = handler();
    let (mut call, a) = start(&h, 1, &handle_args(b"/srv/a"));
    match a {
        Action::Perform(FsOp::Canonicalize(p)) => assert_eq!(p, b"/srv/a"),
        other => panic!("unexpected {:?}", other),
    }
    let a = call.on_path(&h, Ok(b"/srv/a".to_vec()));
    match a {
        Action::Perform(FsOp::Metadata(p)) => assert_eq!(p, b"/srv/a"),
        other => panic!("unexpected {:?}", other),
    }
    let b = success(call.on_metadata(Ok(meta(FileKind::File, 77))));
    let mut expected = be(0);
    expected.extend(fattr(1, 77));
    assert_eq!(b, expected);
}

#[test]
fn stale_handles() {
    let h = handler();
    assert_eq!(status(start(&h, 1, &handle_args(b"relative")).1), 70);
    assert_eq!(status(start(&h, 1, &[0; 32]).1), 70);
    let (mut call, _) = start(&h, 1, &handle_args(b"/srv/x"));
    assert_eq!(status(call.on_path(&h, Ok(b"/srvx/y".to_vec()))), 70);
    let (mut call, _) = start(&h, 1, &handle_args(b"/srv/x"));
    assert_eq!(status(call.on_path(&h, Err(IoErrorKind::NotFound))), 70);
    let (mut call, _) = start(&h, 1, &handle_args(b"/srv/x"));
    let _ = call.on_path(&h, Ok(b"/srv/x".to_vec()));
    assert_eq!(status(call.on_metadata(Err(IoErrorKind::PermissionDenied))), 13);
}

fn lookup_args(dir: &[u8], name: &[u8]) -> Vec<u8> {
    let mut v = handle_args(dir);
    v.extend(be(name.len() as u32));
    v.extend(name);
    while v.len() % 4 != 0 {
        v.push(0);
    }
    v
}

#[test]
fn lookup_flow() {
    let h = handler();
    assert_eq!(status(start(&h, 4, &lookup_args(b"/srv", b"")).1), 2);
    assert_eq!(status(start(&h, 4, &lookup_args(b"/srv", b"a/b")).1), 2);
    assert!(matches!(
        start(&h, 4, &lookup_args(b"/srv", &[0xff])).1,
        Action::Reply(DispatchResult::GarbageArgs)
    ));
    let (mut call, _) = start(&h, 4, &lookup_args(b"/srv", b"doc"));
    let _ = call.on_path(&h, Ok(b"/srv".to_vec()));
    match call.on_metadata(Ok(meta(FileKind::Dir, 0))) {
        Action::Perform(FsOp::Canonicalize(p)) => assert_eq!(p, b"/srv/doc"),
        other => panic!("unexpected {:?}", other),
    }
    let _ = call.on_path(&h, Ok(b"/srv/doc".to_vec()));
    let b = success(call.on_metadata(Ok(meta(FileKind::Symlink, 3))));
    let mut expected = be(0);
    expected.extend(path_to_handle(b"/srv/doc"));
    expected.extend(fattr(5, 3));
    assert_eq!(b, expected);
}

#[test]
fn lookup_refusals() {
    let h = handler();
    let (mut call, _) = start(&h, 4, &lookup_args(b"/srv", b"f"));
    let _ = call.on_path(&h, Ok(b"/srv".to_vec()));
    assert_eq!(status(call.on_metadata(Ok(meta(FileKind::File, 0)))), 20);
    let (mut call, _) = start(&h, 4, &lookup_args(b"/srv", b".."));
    let _ = call.on_path(&h, Ok(b"/srv".to_vec()));
    let _ = call.on_metadata(Ok(meta(FileKind::Dir, 0)));
    assert_eq!(status(call.on_path(&h, Ok(b"/".to_vec()))), 13);
    let (mut call, _) = start(&h, 4, &lookup_args(b"/srv", b"gone"));
    let _ = call.on_path(&h, Ok(b"/srv".to_vec()));
    let _ = call.on_metadata(Ok(meta(FileKind::Dir, 0)));
    assert_eq!(status(call.on_path(&h, Err(IoErrorKind::NotFound))), 2);
}

#[test]
fn lookup_refuses_paths_no_handle_can_name() {
    let h = handler();
    let (mut call, _) = start(&h, 4, &lookup_args(b"/srv", b"a-rather-longer-file-name.txt"));
    let _ = call.on_path(&h, Ok(b"/srv".to_vec()));
    let _ = call.on_metadata(Ok(meta(FileKind::Dir, 0)));
    assert_eq!(status(call.on_path(&h, Ok(b"/srv/a-rather-longer-file-name.txt".to_vec()))), 63);
    let (mut call, _) = start(&h, 4, &lookup_args(b"/srv", b"x"));
    let _ = call.on_path(&h, Ok(b"/srv".to_vec()));
    let _ = call.on_metadata(Ok(meta(FileKind::Dir, 0)));
    assert_eq!(status(call.on_path(&h, Ok(b"/srv/x\0y".to_vec()))), 63);
    let (mut call, _) = start(&h, 4, &lookup_args(b"/srv", b"a-rather-long-file-name.txt"));
    let _ = call.on_path(&h, Ok(b"/srv".to_vec()));
    let _ = call.on_metadata(Ok(meta(FileKind::Dir, 0)));
    let p = b"/srv/a-rather-long-file-name.txt".to_vec();
    assert_eq!(p.len(), 32);
    let _ = call.on_path(&h, Ok(p.clone()));
    let b = success(call.on_metadata(Ok(meta(FileKind::File, 1))));
    assert_eq!(&b[..4], &[0, 0, 0, 0]);
    let mut handle = [0u8; 32];
    handle.copy_from_slice(&b[4..36]);
    assert_eq!(nfsv2::fs::handle_to_path(handle), p);
}

fn read_args(path: &[u8], offset: u32, count: u32) -> Vec<u8> {
    let mut v = handle_args(path);
    v.extend(be(offset));
    v.extend(be(count));
    v.extend(be(0));
    v
}

#[test]
fn read_flow() {
    let h = handler();
    let args = read_args(b"/srv/f", 4, 100_000);
    assert!(matches!(start(&h, 6, &args[..43]).1, Action::Reply(DispatchResult::GarbageArgs)));
    let (mut call, _) = start(&h, 6, &args);
    let _ = call.on_path(&h, Ok(b"/srv/f".to_vec()));
    match call.on_metadata(Ok(meta(FileKind::File, 9))) {
        Action::Perform(FsOp::ReadFile { path, offset, len }) => {
            assert_eq!(path, b"/srv/f");
            assert_eq!(offset, 4);
            assert_eq!(len, NFS_MAX_READ as usize);
        }
        other => panic!("unexpected {:?}", other),
    }
    let b = success(call.on_read(ReadOutcome::Read(vec![1, 2, 3, 4, 5])));
    let mut expected = be(0);
    expected.extend(fattr(1, 9));
    expected.extend(be(5));
    expected.extend([1, 2, 3, 4, 5, 0, 0, 0]);
    expected.extend(be(1));
    assert_eq!(b, expected);
}

#[test]
fn read_refusals() {
    let h = handler();
    let (mut call, _) = start(&h, 6, &read_args(b"/srv/d", 0, 10));
    let _ = call.on_path(&h, Ok(b"/srv/d".to_vec()));
    assert_eq!(status(call.on_metadata(Ok(meta(FileKind::Dir, 0)))), 21);
    let (mut call, _) = start(&h, 6, &read_args(b"/srv/f", 0, 10));
    let _ = call.on_path(&h, Ok(b"/srv/f".to_vec()));
    match call.on_metadata(Ok(meta(FileKind::File, 100))) {
        Action::Perform(FsOp::ReadFile { len, .. }) => assert_eq!(len, 10),
        other => panic!("unexpected {:?}", other),
    }
    let b = success(call.on_read(ReadOutcome::Read(vec![7; 10])));
    assert_eq!(&b[b.len() - 4..], &[0, 0, 0, 0]);
    for (outcome, code) in [
        (ReadOutcome::SeekFailed, 5),
        (ReadOutcome::OpenFailed(IoErrorKind::PermissionDenied), 13),
        (ReadOutcome::ReadFailed(IoErrorKind::Other), 5),
    ] {
        let (mut call, _) = start(&h, 6, &read_args(b"/srv/f", 0, 10));
        let _ = call.on_path(&h, Ok(b"/srv/f".to_vec()));
        let _ = call.on_metadata(Ok(meta(FileKind::File, 100)));
        assert_eq!(status(call.on_read(outcome)), code);
    }
}

fn entries() -> Vec<DirEntry> {
    vec![
        DirEntry { name: String::from("a"), fileid: 11 },
        DirEntry { name: String::from("bcdef"), fileid: 12 },
        DirEntry { name: String::from("g"), fileid: 0x1_0000_000d },
    ]
}

fn entry(fileid: u32, name: &[u8], cookie: u32) -> Vec<u8> {
    let mut v = be(1);
    v.extend(be(fileid));
    v.extend(be(name.len() as u32));
    v.extend(name);
    while v.len() % 4 != 0 {
        v.push(0);
    }
    v.extend(be(cookie));
    v
}

#[test]
fn readdir_listing_fits_count() {
    let mut all = be(0);
    all.extend(entry(11, b"a", 1));
    all.extend(entry(12, b"bcdef", 2));
    all.extend(entry(13, b"g", 3));
    all.extend(be(0));
    all.extend(be(1));
    assert_eq!(readdir_reply(&entries(), 0, 4096), all);
    let mut first = be(0);
    first.extend(entry(11, b"a", 1));
    first.extend(be(0));
    first.extend(be(0));
    assert_eq!(readdir_reply(&entries(), 0, 4 + 20 + 4 + 23), first);
    let mut rest = be(0);
    rest.extend(entry(12, b"bcdef", 2));
    rest.extend(entry(13, b"g", 3));
    rest.extend(be(0));
    rest.extend(be(1));
    assert_eq!(readdir_reply(&entries(), 1, 4096), rest);
    assert_eq!(readdir_reply(&entries(), 9, 4096), vec![0, 0, 0, 0, 0, 0, 0, 0, 0, 0, 0, 1]);
}

#[test]
fn readdir_flow() {
    let h = handler();
    let mut args = handle_args(b"/srv");
    args.extend(be(1));
    args.extend(be(4096));
    let (mut call, _) = start(&h, 16, &args);
    let _ = call.on_path(&h, Ok(b"/srv".to_vec()));
    match call.on_metadata(Ok(meta(FileKind::Dir, 0))) {
        Action::Perform(FsOp::ListDir(p)) => assert_eq!(p, b"/srv"),
        other => panic!("unexpected {:?}", other),
    }
    let b = success(call.on_entries(Ok(entries())));
    assert_eq!(b, readdir_reply(&entries(), 1, 4096));
    let (mut call, _) = start(&h, 16, &args);
    let _ = call.on_path(&h, Ok(b"/srv/file".to_vec()));
    assert_eq!(status(call.on_metadata(Ok(meta(FileKind::File, 0)))), 20);
    let (mut call, _) = start(&h, 16, &args);
    let _ = call.on_path(&h, Ok(b"/srv".to_vec()));
    let _ = call.on_metadata(Ok(meta(FileKind::Dir, 0)));
    assert_eq!(status(call.on_entries(Err(IoErrorKind::PermissionDenied))), 13);
}
