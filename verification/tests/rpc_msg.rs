use nfsv2::rpc::msg::{
    encode_header, frame_record, garbage_args, proc_unavail, prog_unavail, success, AcceptStat,
    AuthUnix, CallBody, MsgType, OpaqueAuth, RecordReader, RejectedReply, ReplyBody, RpcCall,
    LAST_FRAGMENT,
};
use nfsv2::rpc::xdr::{XdrEncoder, XdrError};

fn be(v: u32) -> Vec<u8> {
    v.to_be_bytes().to_vec()
}

fn call_bytes(xid: u32, mtype: u32, rpcvers: u32) -> Vec<u8> {
    let mut b = Vec::new();
    for v in [xid, mtype, rpcvers, 100003, 2, 1] {
        b.extend(be(v));
    }
    b.extend(be(0));
    b.extend(be(0));
    b.extend(be(0));
    b.extend(be(0));
    b
}

#[test]
fn msg_type_numbers() {
    assert_eq!(MsgType::from_u32(0), Ok(MsgType::Call));
    assert_eq!(MsgType::from_u32(1), Ok(MsgType::Reply));
    assert_eq!(MsgType::from_u32(7), Err(XdrError::BadDiscriminant(7)));
    assert_eq!(MsgType::Reply.code(), 1);
}

#[test]
fn accept_stat_codes() {
    assert_eq!(AcceptStat::Success.code(), 0);
    assert_eq!(AcceptStat::GarbageArgs.code(), 4);
    assert_eq!(AcceptStat::SystemErr.code(), 5);
}

#[test]
fn auth_unix_roundtrip() {
    let a = OpaqueAuth::Unix(AuthUnix {
        stamp: 77,
        machine_name: String::from("host"),
        uid: 1000,
        gid: 100,
        gids: vec![4, 24],
    });
    let mut e = XdrEncoder::new();
    a.encode(&mut e);
    let mut b = e.into_bytes();
    b.extend([9, 9]);
    let mut cur: &[u8] = &b;
    match OpaqueAuth::decode(&mut cur) {
        Ok(OpaqueAuth::Unix(u)) => {
            assert_eq!(u.stamp, 77);
            assert_eq!(u.machine_name, "host");
            assert_eq!(u.uid, 1000);
            assert_eq!(u.gid, 100);
            assert_eq!(u.gids, vec![4, 24]);
        }
        other => panic!("unexpected {:?}", other),
    }
    assert_eq!(cur, &[9, 9]);
}

#[test]
fn auth_null_and_other_flavors() {
    let mut e = XdrEncoder::new();
    OpaqueAuth::Null.encode(&mut e);
    assert_eq!(e.into_bytes(), vec![0, 0, 0, 0, 0, 0, 0, 0]);
    let b = [0, 0, 0, 7, 0, 0, 0, 1, 0xab, 0, 0, 0];
    let mut cur: &[u8] = &b;
    match OpaqueAuth::decode(&mut cur) {
        Ok(OpaqueAuth::Short(body)) => assert_eq!(body, vec![0xab]),
        other => panic!("unexpected {:?}", other),
    }
    assert!(cur.is_empty());
    let mut e = XdrEncoder::new();
    OpaqueAuth::Short(vec![0xab]).encode(&mut e);
    assert_eq!(e.into_bytes(), vec![0, 0, 0, 2, 0, 0, 0, 1, 0xab, 0, 0, 0]);
}

#[test]
fn auth_with_missing_padding_is_eof() {
    let b = [0, 0, 0, 2, 0, 0, 0, 1, 0xab];
    let mut cur: &[u8] = &b;
    assert!(matches!(OpaqueAuth::decode(&mut cur), Err(XdrError::Eof)));
    assert_eq!(cur, &[0, 0, 0, 1, 0xab]);
}

#[test]
fn call_body_decodes() {
    let b = call_bytes(5, 0, 2);
    let mut cur: &[u8] = &b[8..];
    let body = CallBody::decode(&mut cur).unwrap();
    assert_eq!((body.rpcvers, body.prog, body.vers, body.proc), (2, 100003, 2, 1));
    assert!(cur.is_empty());
}

#[test]
fn call_body_refuses_other_rpc_version() {
    let b = call_bytes(5, 0, 3);
    let mut cur: &[u8] = &b[8..];
    assert!(matches!(CallBody::decode(&mut cur), Err(XdrError::UnsupportedRpcVersion(3))));
}

#[test]
fn rpc_call_decodes_and_refuses_replies() {
    let b = call_bytes(0x1234, 0, 2);
    let mut cur: &[u8] = &b;
    let c = RpcCall::decode(&mut cur).unwrap();
    assert_eq!(c.xid, 0x1234);
    assert_eq!(c.body.proc, 1);
    let r = call_bytes(1, 1, 2);
    let mut cur: &[u8] = &r;
    assert!(matches!(RpcCall::decode(&mut cur), Err(XdrError::UnexpectedMsgType)));
    let u = call_bytes(1, 5, 2);
    let mut cur: &[u8] = &u;
    assert!(matches!(RpcCall::decode(&mut cur), Err(XdrError::BadDiscriminant(5))));
}

#[test]
fn accepted_replies() {
    let mut expected = be(9);
    expected.extend(be(1));
    expected.extend(be(0));
    expected.extend(be(0));
    expected.extend(be(0));
    let with = |stat: u32| {
        let mut v = expected.clone();
        v.extend(be(stat));
        v
    };
    assert_eq!(success(9).into_bytes(), with(0));
    assert_eq!(prog_unavail(9).into_bytes(), with(1));
    assert_eq!(proc_unavail(9).into_bytes(), with(3));
    assert_eq!(garbage_args(9).into_bytes(), with(4));
}

#[test]
fn prog_mismatch_reply_carries_range() {
    let mut e = XdrEncoder::new();
    let body = ReplyBody::Accepted {
        verf: OpaqueAuth::Null,
        stat: AcceptStat::ProgMismatch,
        mismatch_info: Some((2, 3)),
    };
    encode_header(1, &body, &mut e);
    let b = e.into_bytes();
    assert_eq!(&b[20..], &[0, 0, 0, 2, 0, 0, 0, 2, 0, 0, 0, 3]);
    let mut e = XdrEncoder::new();
    let body = ReplyBody::Accepted {
        verf: OpaqueAuth::Null,
        stat: AcceptStat::ProgMismatch,
        mismatch_info: None,
    };
    body.encode(&mut e);
    assert_eq!(&e.into_bytes()[12..], &[0, 0, 0, 2, 0, 0, 0, 0, 0, 0, 0, 0]);
}

#[test]
fn rejected_replies() {
    let mut e = XdrEncoder::new();
    ReplyBody::Rejected(RejectedReply::RpcMismatch { low: 2, high: 2 }).encode(&mut e);
    assert_eq!(e.into_bytes(), vec![0, 0, 0, 1, 0, 0, 0, 0, 0, 0, 0, 2, 0, 0, 0, 2]);
    let mut e = XdrEncoder::new();
    ReplyBody::Rejected(RejectedReply::AuthError(5)).encode(&mut e);
    assert_eq!(e.into_bytes(), vec![0, 0, 0, 1, 0, 0, 0, 1, 0, 0, 0, 5]);
}

fn read_back(stream: &[u8]) -> Vec<u8> {
    let mut r = RecordReader::new();
    let mut at = 0;
    while let Some(n) = r.wanted() {
        r.feed(&stream[at..at + n]);
        at += n;
    }
    assert_eq!(at, stream.len());
    r.into_record()
}

#[test]
fn framed_record_reads_back() {
    let msg = b"hello record".to_vec();
    let framed = frame_record(&msg);
    assert_eq!(&framed[..4], &[0x80, 0, 0, 12]);
    assert_eq!(read_back(&framed), msg);
}

#[test]
fn fragments_are_joined() {
    let mut stream = be(3);
    stream.extend([1, 2, 3]);
    stream.extend(be(0));
    stream.extend(be(LAST_FRAGMENT | 2));
    stream.extend([4, 5]);
    assert_eq!(read_back(&stream), vec![1, 2, 3, 4, 5]);
}
