use nfsv2::rpc::msg::{encode_header, success, AcceptStat, OpaqueAuth as Auth, ReplyBody};
use nfsv2::rpc::xdr::XdrEncoder;
use nfsv2::handle::{make_handler, NfsHandler};
use nfsv2::rpc::program::{DispatchResult, NFS_PROGRAM};
use nfsv2::server::{encode_reply, handle_datagram, ver_call, Config, MsgError, RpcCall, MAX_AUTH_LEN};

fn be(v: u32) -> Vec<u8> {
    v.to_be_bytes().to_vec()
}

fn call(xid: u32, prog: u32, vers: u32, proc_: u32, args: &[u8]) -> Vec<u8> {
    let mut b = Vec::new();
    for v in [xid, 0, 2, prog, vers, proc_] {
        b.extend(be(v));
    }
    b.extend(be(1));
    b.extend(be(5));
    b.extend([b'a', b'b', b'c', b'd', b'e', 0, 0, 0]);
    b.extend(be(0));
    b.extend(be(0));
    b.extend(args);
    b
}

#[test]
fn call_header_parses() {
    let b = call(7, NFS_PROGRAM, 2, 1, &[1, 2, 3, 4]);
    let c = RpcCall::new(&b).unwrap();
    assert_eq!((c.xid, c.prog, c.vers, c.proc_), (7, NFS_PROGRAM, 2, 1));
    assert_eq!(c.cred.flavor, 1);
    assert_eq!(c.cred.body, b"abcde");
    assert_eq!(c.verf.flavor, 0);
    assert!(c.verf.body.is_empty());
    assert_eq!(c.args, &[1, 2, 3, 4]);
}

#[test]
fn call_header_errors() {
    let mut b = call(7, NFS_PROGRAM, 2, 1, &[]);
    b[7] = 1;
    assert_eq!(RpcCall::new(&b).unwrap_err(), MsgError::NotCall(1));
    let mut b = call(7, NFS_PROGRAM, 2, 1, &[]);
    b[11] = 3;
    assert_eq!(RpcCall::new(&b).unwrap_err(), MsgError::RpcMismatch);
    let b = call(7, NFS_PROGRAM, 2, 1, &[]);
    assert_eq!(RpcCall::new(&b[..30]).unwrap_err(), MsgError::Xdr);
    let mut b = call(7, NFS_PROGRAM, 2, 1, &[]);
    b[28..32].copy_from_slice(&(MAX_AUTH_LEN + 1).to_be_bytes());
    assert_eq!(RpcCall::new(&b).unwrap_err(), MsgError::AuthTooLong(401));
}

#[test]
fn missing_verifier_padding_is_an_xdr_error() {
    let buf = [
        0, 0, 0, 1, 0, 0, 0, 0, 0, 0, 0, 2, 0, 1, 0x86, 0xA5, 0, 0, 0, 1, 0, 0, 0, 0, 0, 0, 0, 0, 0,
        0, 0, 0, 0, 0, 0, 0, 0, 0, 0, 1, 0xFF,
    ];
    assert_eq!(RpcCall::new(&buf).unwrap_err(), MsgError::Xdr);
    let h = NfsHandler::new(b"/srv".to_vec());
    assert!(handle_datagram(&h, &buf).is_none());
    let mut padded = buf.to_vec();
    padded.extend([0, 0, 0]);
    let c = RpcCall::new(&padded).unwrap();
    assert_eq!(c.verf.body, &[0xFF]);
    assert!(c.args.is_empty());
}

#[test]
fn routing_checks_program_and_version() {
    let h: NfsHandler = make_handler(b"/srv".to_vec());
    let other = call(1, 100005, 2, 0, &[]);
    assert!(matches!(ver_call(&h, &RpcCall::new(&other).unwrap()), DispatchResult::ProgUnavail));
    let old = call(1, NFS_PROGRAM, 3, 0, &[]);
    assert!(matches!(
        ver_call(&h, &RpcCall::new(&old).unwrap()),
        DispatchResult::ProgMismatch { low: 2, high: 2 }
    ));
    let null = call(1, NFS_PROGRAM, 2, 0, &[]);
    match ver_call(&h, &RpcCall::new(&null).unwrap()) {
        DispatchResult::Success(b) => assert!(b.is_empty()),
        other => panic!("unexpected {:?}", other),
    }
    let getattr = call(1, NFS_PROGRAM, 2, 1, &[]);
    assert!(matches!(ver_call(&h, &RpcCall::new(&getattr).unwrap()), DispatchResult::ProcUnavail));
}

#[test]
fn reply_encoding() {
    let head = [0, 0, 0, 9, 0, 0, 0, 1, 0, 0, 0, 0, 0, 0, 0, 0, 0, 0, 0, 0];
    let r = encode_reply(9, DispatchResult::Success(vec![1, 2]));
    assert_eq!(&r[..20], &head);
    assert_eq!(&r[20..], &[0, 0, 0, 0, 1, 2]);
    let r = encode_reply(9, DispatchResult::ProgMismatch { low: 2, high: 3 });
    assert_eq!(&r[20..], &[0, 0, 0, 2, 0, 0, 0, 2, 0, 0, 0, 3]);
    assert_eq!(&encode_reply(9, DispatchResult::ProgUnavail)[20..], &[0, 0, 0, 1]);
    assert_eq!(&encode_reply(9, DispatchResult::ProcUnavail)[20..], &[0, 0, 0, 3]);
    assert_eq!(&encode_reply(9, DispatchResult::GarbageArgs)[20..], &[0, 0, 0, 4]);
}

#[test]
fn datagrams_are_answered_with_their_xid() {
    let h = NfsHandler::new(b"/srv".to_vec());
    let reply = handle_datagram(&h, &call(0xabcd, NFS_PROGRAM, 2, 0, &[])).unwrap();
    assert_eq!(reply, encode_reply(0xabcd, DispatchResult::Success(Vec::new())));
    assert!(handle_datagram(&h, &[0, 0, 0, 1, 0, 0, 0, 1]).is_none());
}

#[test]
fn config_keeps_argument() {
    let c = Config::new("/etc/nfs.conf");
    let d = c.clone();
    assert_eq!(format!("{:?}", c), format!("{:?}", d));
    assert!(format!("{:?}", c).contains("/etc/nfs.conf"));
}

#[test]
fn server_reply_agrees_with_reply_body() {
    let mut expected = success(5).into_bytes();
    expected.extend([7, 7]);
    assert_eq!(encode_reply(5, DispatchResult::Success(vec![7, 7])), expected);
    let mut e = XdrEncoder::new();
    let body = ReplyBody::Accepted {
        verf: Auth::Null,
        stat: AcceptStat::ProgMismatch,
        mismatch_info: Some((2, 4)),
    };
    encode_header(5, &body, &mut e);
    assert_eq!(encode_reply(5, DispatchResult::ProgMismatch { low: 2, high: 4 }), e.into_bytes());
}
