//! ONC RPC messages (RFC 1057): call headers, credentials, replies, and record
//! marking.

use vstd::prelude::*;
use vstd::utf8::{decode_utf8, encode_utf8, valid_utf8};
use super::xdr::{
    be_u32, lemma_be_u32_roundtrip, lemma_items_fill_units, lemma_opaque_var_roundtrip,
    lemma_u32_array_roundtrip, lemma_u32_roundtrip, opaque_var_bytes, padded,
    read_opaque_var_spec, read_u32_array_spec, read_u32_spec, u32_array_bytes, u32_from_be,
    u32_from_slice, XdrDecoder, XdrEncoder, XdrError, RPC_VERSION,
};

verus! {

/// A count-prefixed opaque item, padding included, at the start of `s`,
/// with the number of bytes it fills.
pub open spec fn get_opaque_var_spec(s: Seq<u8>) -> Option<(Seq<u8>, int)> {
    read_opaque_var_spec(s, 0)
}

/// Reads a `u32` off the front of `buf`.
fn get_u32(buf: &mut &[u8]) -> (r: Result<u32, XdrError>)
    ensures
        match read_u32_spec(old(buf)@, 0) {
            Some((v, p)) => r == Ok::<u32, XdrError>(v) && final(buf)@ == old(buf)@.skip(p),
            None => r == Err::<u32, XdrError>(XdrError::Eof) && final(buf)@ == old(buf)@,
        },
{
    let mut d = XdrDecoder::new(*buf);
    let v = d.read_u32()?;
    *buf = d.remaining();
    Ok(v)
}

/// Reads a count-prefixed opaque item, padding included, off the front of
/// `buf`; on failure `buf` is left as it was.
fn get_opaque_var(buf: &mut &[u8]) -> (r: Result<Vec<u8>, XdrError>)
    ensures
        match get_opaque_var_spec(old(buf)@) {
            Some((v, n)) => r matches Ok(out) && out@ == v && final(buf)@ == old(buf)@.skip(n),
            None => r == Err::<Vec<u8>, XdrError>(XdrError::Eof) && final(buf)@ == old(buf)@,
        },
{
    let mut d = XdrDecoder::new(*buf);
    let v = d.read_opaque_var()?;
    *buf = d.remaining();
    Ok(vstd::slice::slice_to_vec(v))
}

/// Reads a count-prefixed UTF-8 string, padding included, off the front of
/// `buf`; on failure `buf` is left as it was.
fn get_string(buf: &mut &[u8]) -> (r: Result<String, XdrError>)
    ensures
        match get_opaque_var_spec(old(buf)@) {
            Some((v, n)) => if valid_utf8(v) {
                r matches Ok(out) && out@ == decode_utf8(v) && final(buf)@ == old(buf)@.skip(n)
            } else {
                r == Err::<String, XdrError>(XdrError::Malformed) && final(buf)@ == old(buf)@
            },
            None => r == Err::<String, XdrError>(XdrError::Eof) && final(buf)@ == old(buf)@,
        },
{
    let mut d = XdrDecoder::new(*buf);
    let s = d.read_string();
    match s {
        Ok(s) => {
            *buf = d.remaining();
            Ok(s.to_owned())
        },
        Err(e) => Err(e),
    }
}

/// Reads a counted array of `u32` off the front of `buf`; on failure `buf` is
/// left as it was.
fn get_u32_array(buf: &mut &[u8]) -> (r: Result<Vec<u32>, XdrError>)
    ensures
        match read_u32_array_spec(old(buf)@, 0) {
            Some((v, p)) => r matches Ok(out) && out@ == v && final(buf)@ == old(buf)@.skip(p),
            None => r == Err::<Vec<u32>, XdrError>(XdrError::Eof) && final(buf)@ == old(buf)@,
        },
{
    let mut d = XdrDecoder::new(*buf);
    let v = d.read_u32_array()?;
    *buf = d.remaining();
    Ok(v)
}

/// The two kinds of RPC message.
#[derive(Debug, Clone, Copy, PartialEq, Eq, Structural)]
pub enum MsgType {
    Call,
    Reply,
}

impl MsgType {
    /// The message type with wire number `v`.
    pub open spec fn spec_from_u32(v: u32) -> Result<MsgType, XdrError> {
        if v == 0 {
            Ok(MsgType::Call)
        } else if v == 1 {
            Ok(MsgType::Reply)
        } else {
            Err(XdrError::BadDiscriminant(v))
        }
    }

    /// The wire number of a message type.
    pub open spec fn spec_code(self) -> u32 {
        match self {
            MsgType::Call => 0,
            MsgType::Reply => 1,
        }
    }

    /// The message type with wire number `v`, or `BadDiscriminant(v)`.
    pub fn from_u32(v: u32) -> (r: Result<Self, XdrError>)
        ensures
            r == Self::spec_from_u32(v),
    {
        match v {
            0 => Ok(MsgType::Call),
            1 => Ok(MsgType::Reply),
            _ => Err(XdrError::BadDiscriminant(v)),
        }
    }

    /// The wire number of this message type.
    pub fn code(self) -> (c: u32)
        ensures
            c == self.spec_code(),
    {
        match self {
            MsgType::Call => 0,
            MsgType::Reply => 1,
        }
    }
}

/// AUTH_UNIX credentials (RFC 1057, 9.2).
#[derive(Debug, Clone)]
pub struct AuthUnix {
    pub stamp: u32,
    pub machine_name: String,
    pub uid: u32,
    pub gid: u32,
    pub gids: Vec<u32>,
}

/// What an [`AuthUnix`] holds.
pub struct AuthUnixView {
    pub stamp: u32,
    pub machine_name: Seq<char>,
    pub uid: u32,
    pub gid: u32,
    pub gids: Seq<u32>,
}

impl View for AuthUnix {
    type V = AuthUnixView;

    open spec fn view(&self) -> AuthUnixView {
        AuthUnixView {
            stamp: self.stamp,
            machine_name: self.machine_name@,
            uid: self.uid,
            gid: self.gid,
            gids: self.gids@,
        }
    }
}

/// A credential or verifier: its flavor, with the body of AUTH_UNIX decoded.
#[derive(Debug, Clone)]
pub enum OpaqueAuth {
    /// AUTH_NULL (flavor 0).
    Null,
    /// AUTH_UNIX (flavor 1).
    Unix(AuthUnix),
    /// Any other flavor, kept as its raw body; it is written back as flavor 2.
    Short(Vec<u8>),
}

/// What an [`OpaqueAuth`] holds.
pub enum OpaqueAuthView {
    Null,
    Unix(AuthUnixView),
    Short(Seq<u8>),
}

impl View for OpaqueAuth {
    type V = OpaqueAuthView;

    open spec fn view(&self) -> OpaqueAuthView {
        match self {
            OpaqueAuth::Null => OpaqueAuthView::Null,
            OpaqueAuth::Unix(u) => OpaqueAuthView::Unix(u@),
            OpaqueAuth::Short(b) => OpaqueAuthView::Short(b@),
        }
    }
}

/// The AUTH_UNIX fields at the start of a credential body; bytes after them
/// are ignored.
pub open spec fn auth_unix_spec(b: Seq<u8>) -> Result<AuthUnixView, XdrError> {
    match read_u32_spec(b, 0) {
        None => Err(XdrError::Eof),
        Some((stamp, _)) => {
            let s1 = b.skip(4);
            match get_opaque_var_spec(s1) {
                None => Err(XdrError::Eof),
                Some((name, n)) => if !valid_utf8(name) {
                    Err(XdrError::Malformed)
                } else {
                    let s2 = s1.skip(n);
                    match read_u32_spec(s2, 0) {
                        None => Err(XdrError::Eof),
                        Some((uid, _)) => {
                            let s3 = s2.skip(4);
                            match read_u32_spec(s3, 0) {
                                None => Err(XdrError::Eof),
                                Some((gid, _)) => match read_u32_array_spec(s3.skip(4), 0) {
                                    None => Err(XdrError::Eof),
                                    Some((gids, _)) => Ok(
                                        AuthUnixView {
                                            stamp,
                                            machine_name: decode_utf8(name),
                                            uid,
                                            gid,
                                            gids,
                                        },
                                    ),
                                },
                            }
                        },
                    }
                },
            }
        },
    }
}

/// The credential of flavor `flavor` with body `body`: AUTH_NULL, AUTH_UNIX
/// with its fields decoded, or any other flavor kept raw.
pub open spec fn auth_outcome(flavor: u32, body: Seq<u8>) -> Result<OpaqueAuthView, XdrError> {
    if flavor == 0 {
        Ok(OpaqueAuthView::Null)
    } else if flavor == 1 {
        match auth_unix_spec(body) {
            Ok(u) => Ok(OpaqueAuthView::Unix(u)),
            Err(e) => Err(e),
        }
    } else {
        Ok(OpaqueAuthView::Short(body))
    }
}

/// A credential or verifier at the front of `s`: the outcome, and what is
/// left of `s` after it (after the parts that were read, on failure).
pub open spec fn opaque_auth_spec(s: Seq<u8>) -> (Result<OpaqueAuthView, XdrError>, Seq<u8>) {
    match read_u32_spec(s, 0) {
        None => (Err(XdrError::Eof), s),
        Some((flavor, _)) => {
            let s1 = s.skip(4);
            match get_opaque_var_spec(s1) {
                None => (Err(XdrError::Eof), s1),
                Some((body, n)) => (auth_outcome(flavor, body), s1.skip(n)),
            }
        },
    }
}

/// The bytes of an AUTH_UNIX body.
pub open spec fn auth_unix_bytes(u: AuthUnixView) -> Seq<u8> {
    be_u32(u.stamp) + opaque_var_bytes(encode_utf8(u.machine_name)) + be_u32(u.uid) + be_u32(u.gid)
        + u32_array_bytes(u.gids)
}

/// The bytes of a credential or verifier.
pub open spec fn opaque_auth_bytes(a: OpaqueAuthView) -> Seq<u8> {
    match a {
        OpaqueAuthView::Null => be_u32(0) + opaque_var_bytes(Seq::empty()),
        OpaqueAuthView::Unix(u) => be_u32(1) + opaque_var_bytes(auth_unix_bytes(u)),
        OpaqueAuthView::Short(b) => be_u32(2) + opaque_var_bytes(b),
    }
}

impl OpaqueAuth {
    /// Reads a credential or verifier off the front of `buf`.
    pub fn decode(buf: &mut &[u8]) -> (r: Result<Self, XdrError>)
        ensures
            final(buf)@ == opaque_auth_spec(old(buf)@).1,
            match r {
                Ok(a) => opaque_auth_spec(old(buf)@).0 == Ok::<OpaqueAuthView, XdrError>(a@),
                Err(e) => opaque_auth_spec(old(buf)@).0 == Err::<OpaqueAuthView, XdrError>(e),
            },
    {
        let flavor = get_u32(buf)?;
        let body = get_opaque_var(buf)?;
        match flavor {
            0 => Ok(OpaqueAuth::Null),
            1 => {
                let mut inner = body.as_slice();
                let stamp = get_u32(&mut inner)?;
                let machine_name = get_string(&mut inner)?;
                let uid = get_u32(&mut inner)?;
                let gid = get_u32(&mut inner)?;
                let gids = get_u32_array(&mut inner)?;
                Ok(OpaqueAuth::Unix(AuthUnix { stamp, machine_name, uid, gid, gids }))
            },
            _ => Ok(OpaqueAuth::Short(body)),
        }
    }

    /// Appends this credential or verifier.
    pub fn encode(&self, e: &mut XdrEncoder)
        ensures
            final(e)@ == old(e)@ + opaque_auth_bytes(self@),
    {
        match self {
            OpaqueAuth::Null => {
                e.put_u32(0);
                let empty: [u8; 0] = [];
                e.put_opaque_var(&empty);
                assert(empty@ =~= Seq::<u8>::empty());
            },
            OpaqueAuth::Unix(au) => {
                let mut bd = XdrEncoder::new();
                bd.put_u32(au.stamp);
                bd.put_string(au.machine_name.as_str());
                bd.put_u32(au.uid);
                bd.put_u32(au.gid);
                bd.put_u32_array(au.gids.as_slice());
                e.put_u32(1);
                let body = bd.into_bytes();
                e.put_opaque_var(body.as_slice());
                assert(body@ =~= auth_unix_bytes(au@));
            },
            OpaqueAuth::Short(body) => {
                e.put_u32(2);
                e.put_opaque_var(body.as_slice());
            },
        }
        assert(final(e)@ =~= old(e)@ + opaque_auth_bytes(self@));
    }
}

/// The body of an RPC call (RFC 1057, 8).
#[derive(Debug, Clone)]
pub struct CallBody {
    pub rpcvers: u32,
    pub prog: u32,
    pub vers: u32,
    pub proc: u32,
    pub cred: OpaqueAuth,
    pub verf: OpaqueAuth,
}

/// What a [`CallBody`] holds.
pub struct CallBodyView {
    pub rpcvers: u32,
    pub prog: u32,
    pub vers: u32,
    pub proc: u32,
    pub cred: OpaqueAuthView,
    pub verf: OpaqueAuthView,
}

impl View for CallBody {
    type V = CallBodyView;

    open spec fn view(&self) -> CallBodyView {
        CallBodyView {
            rpcvers: self.rpcvers,
            prog: self.prog,
            vers: self.vers,
            proc: self.proc,
            cred: self.cred@,
            verf: self.verf@,
        }
    }
}

/// A call body at the front of `s`: the outcome, and what is left of `s`.
pub open spec fn call_body_spec(s: Seq<u8>) -> (Result<CallBodyView, XdrError>, Seq<u8>) {
    match read_u32_spec(s, 0) {
        None => (Err(XdrError::Eof), s),
        Some((rpcvers, _)) => {
            let s1 = s.skip(4);
            if rpcvers != RPC_VERSION {
                (Err(XdrError::UnsupportedRpcVersion(rpcvers)), s1)
            } else {
                match read_u32_spec(s1, 0) {
                    None => (Err(XdrError::Eof), s1),
                    Some((prog, _)) => {
                        let s2 = s1.skip(4);
                        match read_u32_spec(s2, 0) {
                            None => (Err(XdrError::Eof), s2),
                            Some((vers, _)) => {
                                let s3 = s2.skip(4);
                                match read_u32_spec(s3, 0) {
                                    None => (Err(XdrError::Eof), s3),
                                    Some((proc, _)) => {
                                        let s4 = s3.skip(4);
                                        match opaque_auth_spec(s4) {
                                            (Err(e), s5) => (Err(e), s5),
                                            (Ok(cred), s5) => match opaque_auth_spec(s5) {
                                                (Err(e), s6) => (Err(e), s6),
                                                (Ok(verf), s6) => (
                                                    Ok(
                                                        CallBodyView {
                                                            rpcvers,
                                                            prog,
                                                            vers,
                                                            proc,
                                                            cred,
                                                            verf,
                                                        },
                                                    ),
                                                    s6,
                                                ),
                                            },
                                        }
                                    },
                                }
                            },
                        }
                    },
                }
            }
        },
    }
}

impl CallBody {
    /// Reads a call body off the front of `buf`; a call for an RPC version
    /// other than 2 is refused with `UnsupportedRpcVersion`.
    pub fn decode(buf: &mut &[u8]) -> (r: Result<Self, XdrError>)
        ensures
            final(buf)@ == call_body_spec(old(buf)@).1,
            match r {
                Ok(b) => call_body_spec(old(buf)@).0 == Ok::<CallBodyView, XdrError>(b@),
                Err(e) => call_body_spec(old(buf)@).0 == Err::<CallBodyView, XdrError>(e),
            },
    {
        let rpcvers = get_u32(buf)?;
        if rpcvers != RPC_VERSION {
            return Err(XdrError::UnsupportedRpcVersion(rpcvers));
        }
        let prog = get_u32(buf)?;
        let vers = get_u32(buf)?;
        let proc = get_u32(buf)?;
        let cred = OpaqueAuth::decode(buf)?;
        let verf = OpaqueAuth::decode(buf)?;
        Ok(CallBody { rpcvers, prog, vers, proc, cred, verf })
    }
}

/// An RPC call message: transaction id and body.
#[derive(Debug, Clone)]
pub struct RpcCall {
    pub xid: u32,
    pub body: CallBody,
}

/// What an [`RpcCall`] holds.
pub struct RpcCallView {
    pub xid: u32,
    pub body: CallBodyView,
}

impl View for RpcCall {
    type V = RpcCallView;

    open spec fn view(&self) -> RpcCallView {
        RpcCallView { xid: self.xid, body: self.body@ }
    }
}

/// A call message at the front of `s`: the outcome, and what is left of `s`.
pub open spec fn rpc_call_spec(s: Seq<u8>) -> (Result<RpcCallView, XdrError>, Seq<u8>) {
    match read_u32_spec(s, 0) {
        None => (Err(XdrError::Eof), s),
        Some((xid, _)) => {
            let s1 = s.skip(4);
            match read_u32_spec(s1, 0) {
                None => (Err(XdrError::Eof), s1),
                Some((m, _)) => {
                    let s2 = s1.skip(4);
                    match MsgType::spec_from_u32(m) {
                        Err(e) => (Err(e), s2),
                        Ok(MsgType::Reply) => (Err(XdrError::UnexpectedMsgType), s2),
                        Ok(MsgType::Call) => match call_body_spec(s2) {
                            (Err(e), s3) => (Err(e), s3),
                            (Ok(body), s3) => (Ok(RpcCallView { xid, body }), s3),
                        },
                    }
                },
            }
        },
    }
}

impl RpcCall {
    /// Reads a call message off the front of `buf`; a reply, or an unknown
    /// message type, is refused.
    pub fn decode(buf: &mut &[u8]) -> (r: Result<Self, XdrError>)
        ensures
            final(buf)@ == rpc_call_spec(old(buf)@).1,
            match r {
                Ok(c) => rpc_call_spec(old(buf)@).0 == Ok::<RpcCallView, XdrError>(c@),
                Err(e) => rpc_call_spec(old(buf)@).0 == Err::<RpcCallView, XdrError>(e),
            },
    {
        let xid = get_u32(buf)?;
        let mtype = MsgType::from_u32(get_u32(buf)?)?;
        if mtype != MsgType::Call {
            return Err(XdrError::UnexpectedMsgType);
        }
        let body = CallBody::decode(buf)?;
        Ok(RpcCall { xid, body })
    }
}

/// The status of a call that the server accepted (RFC 1057, 8).
#[derive(Debug, Clone, Copy, PartialEq, Eq, Structural)]
pub enum AcceptStat {
    Success,
    ProgUnavail,
    ProgMismatch,
    ProcUnavail,
    GarbageArgs,
    SystemErr,
}

impl AcceptStat {
    /// The wire number of a status.
    pub open spec fn spec_code(self) -> u32 {
        match self {
            AcceptStat::Success => 0,
            AcceptStat::ProgUnavail => 1,
            AcceptStat::ProgMismatch => 2,
            AcceptStat::ProcUnavail => 3,
            AcceptStat::GarbageArgs => 4,
            AcceptStat::SystemErr => 5,
        }
    }

    /// The wire number of this status.
    pub fn code(self) -> (c: u32)
        ensures
            c == self.spec_code(),
    {
        match self {
            AcceptStat::Success => 0,
            AcceptStat::ProgUnavail => 1,
            AcceptStat::ProgMismatch => 2,
            AcceptStat::ProcUnavail => 3,
            AcceptStat::GarbageArgs => 4,
            AcceptStat::SystemErr => 5,
        }
    }
}

/// Why a call was rejected.
#[derive(Debug, Clone, Copy, PartialEq, Eq, Structural)]
pub enum RejectedReply {
    /// The RPC version is not supported; these are the ones that are.
    RpcMismatch { low: u32, high: u32 },
    /// The credentials were refused, with this auth status.
    AuthError(u32),
}

/// The body of a reply message.
#[derive(Debug, Clone)]
pub enum ReplyBody {
    Accepted { verf: OpaqueAuth, stat: AcceptStat, mismatch_info: Option<(u32, u32)> },
    Rejected(RejectedReply),
}

/// What a [`ReplyBody`] holds.
pub enum ReplyBodyView {
    Accepted { verf: OpaqueAuthView, stat: AcceptStat, mismatch_info: Option<(u32, u32)> },
    Rejected(RejectedReply),
}

impl View for ReplyBody {
    type V = ReplyBodyView;

    open spec fn view(&self) -> ReplyBodyView {
        match self {
            ReplyBody::Accepted { verf, stat, mismatch_info } => ReplyBodyView::Accepted {
                verf: verf@,
                stat: *stat,
                mismatch_info: *mismatch_info,
            },
            ReplyBody::Rejected(r) => ReplyBodyView::Rejected(*r),
        }
    }
}

/// The bytes of a reply body. An accepted reply with `PROG_MISMATCH` carries
/// the supported version range, `(0, 0)` when none is given.
pub open spec fn reply_body_bytes(r: ReplyBodyView) -> Seq<u8> {
    match r {
        ReplyBodyView::Accepted { verf, stat, mismatch_info } => {
            let head = be_u32(0) + opaque_auth_bytes(verf) + be_u32(stat.spec_code());
            if stat == AcceptStat::ProgMismatch {
                let (lo, hi) = match mismatch_info {
                    Some(p) => p,
                    None => (0u32, 0u32),
                };
                head + be_u32(lo) + be_u32(hi)
            } else {
                head
            }
        },
        ReplyBodyView::Rejected(RejectedReply::RpcMismatch { low, high }) => be_u32(1) + be_u32(0)
            + be_u32(low) + be_u32(high),
        ReplyBodyView::Rejected(RejectedReply::AuthError(stat)) => be_u32(1) + be_u32(1) + be_u32(
            stat,
        ),
    }
}

impl ReplyBody {
    /// Appends this reply body.
    pub fn encode(&self, e: &mut XdrEncoder)
        ensures
            final(e)@ == old(e)@ + reply_body_bytes(self@),
    {
        match self {
            ReplyBody::Accepted { verf, stat, mismatch_info } => {
                e.put_u32(0);
                verf.encode(e);
                e.put_u32(stat.code());
                if let AcceptStat::ProgMismatch = stat {
                    let (lo, hi) = match mismatch_info {
                        Some(p) => *p,
                        None => (0u32, 0u32),
                    };
                    e.put_u32(lo);
                    e.put_u32(hi);
                }
            },
            ReplyBody::Rejected(r) => {
                e.put_u32(1);
                match r {
                    RejectedReply::RpcMismatch { low, high } => {
                        e.put_u32(0);
                        e.put_u32(*low);
                        e.put_u32(*high);
                    },
                    RejectedReply::AuthError(stat) => {
                        e.put_u32(1);
                        e.put_u32(*stat);
                    },
                }
            },
        }
        assert(final(e)@ =~= old(e)@ + reply_body_bytes(self@));
    }
}

/// The bytes of a reply message: transaction id, `REPLY`, then the body.
pub open spec fn reply_bytes(xid: u32, body: ReplyBodyView) -> Seq<u8> {
    be_u32(xid) + be_u32(MsgType::Reply.spec_code()) + reply_body_bytes(body)
}

/// Appends a reply header for `xid` and then `body`.
pub fn encode_header(xid: u32, body: &ReplyBody, e: &mut XdrEncoder)
    ensures
        final(e)@ == old(e)@ + reply_bytes(xid, body@),
{
    e.put_u32(xid);
    e.put_u32(MsgType::Reply.code());
    body.encode(e);
    assert(final(e)@ =~= old(e)@ + reply_bytes(xid, body@));
}

/// An accepted reply body with an AUTH_NULL verifier and status `stat`.
pub open spec fn accepted(stat: AcceptStat) -> ReplyBodyView {
    ReplyBodyView::Accepted { verf: OpaqueAuthView::Null, stat, mismatch_info: None }
}

fn accepted_reply(xid: u32, stat: AcceptStat) -> (e: XdrEncoder)
    requires
        stat != AcceptStat::ProgMismatch,
    ensures
        e@ == reply_bytes(xid, accepted(stat)),
{
    let mut e = XdrEncoder::new();
    encode_header(
        xid,
        &ReplyBody::Accepted { verf: OpaqueAuth::Null, stat, mismatch_info: None },
        &mut e,
    );
    assert(e@ =~= reply_bytes(xid, accepted(stat)));
    e
}

/// A reply to `xid` that accepts the call with `SUCCESS`; the results are
/// appended after it.
pub fn success(xid: u32) -> (e: XdrEncoder)
    ensures
        e@ == reply_bytes(xid, accepted(AcceptStat::Success)),
{
    accepted_reply(xid, AcceptStat::Success)
}

/// A reply to `xid` with `PROG_UNAVAIL`.
pub fn prog_unavail(xid: u32) -> (e: XdrEncoder)
    ensures
        e@ == reply_bytes(xid, accepted(AcceptStat::ProgUnavail)),
{
    accepted_reply(xid, AcceptStat::ProgUnavail)
}

/// A reply to `xid` with `PROC_UNAVAIL`.
pub fn proc_unavail(xid: u32) -> (e: XdrEncoder)
    ensures
        e@ == reply_bytes(xid, accepted(AcceptStat::ProcUnavail)),
{
    accepted_reply(xid, AcceptStat::ProcUnavail)
}

/// A reply to `xid` with `GARBAGE_ARGS`.
pub fn garbage_args(xid: u32) -> (e: XdrEncoder)
    ensures
        e@ == reply_bytes(xid, accepted(AcceptStat::GarbageArgs)),
{
    accepted_reply(xid, AcceptStat::GarbageArgs)
}

/// The bit of a record mark that flags the last fragment of a record.
pub const LAST_FRAGMENT: u32 = 0x8000_0000;

/// The record mark for a record sent as one fragment of `len` bytes: the
/// length, taken modulo 2^32, with the last-fragment bit set.
pub open spec fn record_mark(len: nat) -> u32 {
    (len as u32) | LAST_FRAGMENT
}

/// `msg` framed as a single-fragment record (RFC 1057, 10): its record mark,
/// then its bytes.
pub fn frame_record(msg: &[u8]) -> (r: Vec<u8>)
    ensures
        r@ == be_u32(record_mark(msg@.len())) + msg@,
{
    let n = #[verifier::truncate] (msg.len() as u32);
    let mut e = XdrEncoder::new();
    e.put_u32(n | LAST_FRAGMENT);
    e.put_raw(msg);
    e.into_bytes()
}

/// What a [`RecordReader`] expects next.
#[derive(Debug, Clone, Copy, PartialEq, Eq, Structural)]
pub enum RecordStep {
    /// A four-byte record mark.
    Header,
    /// The `len` bytes of a fragment, the last one if `last`.
    Fragment { len: u32, last: bool },
    /// Nothing: the record is complete.
    Done,
}

/// The number of bytes a reader in `step` asks for next, if any.
pub open spec fn wanted_spec(step: RecordStep) -> Option<nat> {
    match step {
        RecordStep::Header => Some(4),
        RecordStep::Fragment { len, last } => Some(len as nat),
        RecordStep::Done => None,
    }
}

/// A reader in `step`, having gathered `out`, that is handed `chunk`: its next
/// step and what it has gathered then.
pub open spec fn record_next(step: RecordStep, out: Seq<u8>, chunk: Seq<u8>) -> (RecordStep, Seq<u8>) {
    match step {
        RecordStep::Header => {
            let mark = u32_from_be(chunk);
            (RecordStep::Fragment { len: mark & 0x7fff_ffff, last: mark & LAST_FRAGMENT != 0 }, out)
        },
        RecordStep::Fragment { len, last } => (
            if last {
                RecordStep::Done
            } else {
                RecordStep::Header
            },
            out + chunk,
        ),
        RecordStep::Done => (RecordStep::Done, out),
    }
}

/// Reassembles a record from its fragments (RFC 1057, 10). The caller reads
/// the number of bytes [`RecordReader::wanted`] names from the stream and
/// hands them to [`RecordReader::feed`], until nothing more is wanted.
pub struct RecordReader {
    out: Vec<u8>,
    step: RecordStep,
}

impl RecordReader {
    /// The bytes gathered so far.
    pub closed spec fn gathered(&self) -> Seq<u8> {
        self.out@
    }

    /// What the reader expects next.
    pub closed spec fn step(&self) -> RecordStep {
        self.step
    }

    /// A reader that expects the first record mark.
    pub fn new() -> (r: Self)
        ensures
            r.gathered() == Seq::<u8>::empty(),
            r.step() == RecordStep::Header,
    {
        RecordReader { out: Vec::new(), step: RecordStep::Header }
    }

    /// How many bytes to read next; `None` once the record is complete.
    pub fn wanted(&self) -> (n: Option<usize>)
        ensures
            match wanted_spec(self.step()) {
                Some(k) => n == Some(k as usize),
                None => n is None,
            },
    {
        match self.step {
            RecordStep::Header => Some(4),
            RecordStep::Fragment { len, last: _ } => Some(len as usize),
            RecordStep::Done => None,
        }
    }

    /// Hands the reader the bytes it asked for.
    pub fn feed(&mut self, chunk: &[u8])
        requires
            wanted_spec(old(self).step()) == Some(chunk@.len()),
        ensures
            (final(self).step(), final(self).gathered()) == record_next(
                old(self).step(),
                old(self).gathered(),
                chunk@,
            ),
    {
        match self.step {
            RecordStep::Header => {
                let mark = u32_from_slice(chunk);
                self.step = RecordStep::Fragment { len: mark & 0x7fff_ffff, last: mark & LAST_FRAGMENT != 0 };
            },
            RecordStep::Fragment { len: _, last } => {
                self.out.extend_from_slice(chunk);
                proof {
                    assert forall|i: int| 0 <= i < chunk@.len() implies self.out@[old(self).out@.len() + i] == chunk@[i] by {
                        assert(vstd::pervasive::cloned(chunk@[i], self.out@[old(self).out@.len() + i]));
                    }
                    assert(self.out@ =~= old(self).out@ + chunk@);
                }
                self.step = if last {
                    RecordStep::Done
                } else {
                    RecordStep::Header
                };
            },
            RecordStep::Done => {},
        }
    }

    /// The gathered record.
    pub fn into_record(self) -> (r: Vec<u8>)
        ensures
            r@ == self.gathered(),
    {
        self.out
    }
}

/// A record framed by [`frame_record`] and read back by a [`RecordReader`]
/// comes out whole, when its length fits in the 31 bits of the mark.
pub proof fn lemma_record_roundtrip(msg: Seq<u8>)
    requires
        msg.len() < 0x8000_0000,
    ensures
        ({
            let (s1, o1) = record_next(RecordStep::Header, Seq::empty(), be_u32(record_mark(msg.len())));
            &&& wanted_spec(s1) == Some(msg.len())
            &&& record_next(s1, o1, msg) == (RecordStep::Done, msg)
        }),
{
    let m = record_mark(msg.len());
    let l = msg.len() as u32;
    super::xdr::lemma_be_u32_roundtrip(m);
    assert(m == l | 0x8000_0000u32);
    assert((m & 0x7fff_ffffu32) == l && (m & 0x8000_0000u32) != 0) by (bit_vector)
        requires
            m == l | 0x8000_0000u32,
            l < 0x8000_0000u32,
    ;
    assert(Seq::<u8>::empty() + msg =~= msg);
}

/// A count-prefixed item written at the front reads back whole, leaving what
/// follows it.
proof fn lemma_get_opaque_var(v: Seq<u8>, rest: Seq<u8>)
    requires
        v.len() <= u32::MAX,
    ensures
        get_opaque_var_spec(opaque_var_bytes(v) + rest) == Some((v, 4 + padded(v.len() as int))),
        opaque_var_bytes(v).len() == 4 + padded(v.len() as int),
        (opaque_var_bytes(v) + rest).skip(4 + padded(v.len() as int)) == rest,
{
    lemma_opaque_var_roundtrip(Seq::empty(), v, rest);
    assert(Seq::<u8>::empty() + opaque_var_bytes(v) + rest =~= opaque_var_bytes(v) + rest);
    lemma_be_u32_roundtrip(v.len() as u32);
    assert((opaque_var_bytes(v) + rest).skip(4 + padded(v.len() as int)) =~= rest);
}

/// A `u32` written at the front reads back, leaving what follows it.
proof fn lemma_get_u32(v: u32, rest: Seq<u8>)
    ensures
        read_u32_spec(be_u32(v) + rest, 0) == Some((v, 4int)),
        (be_u32(v) + rest).skip(4) == rest,
{
    lemma_u32_roundtrip(Seq::empty(), v, rest);
    assert(Seq::<u8>::empty() + be_u32(v) + rest =~= be_u32(v) + rest);
    lemma_be_u32_roundtrip(v);
    assert((be_u32(v) + rest).skip(4) =~= rest);
}

/// Whether every count in a credential fits in its four bytes.
pub open spec fn auth_fits(a: OpaqueAuthView) -> bool {
    match a {
        OpaqueAuthView::Null => true,
        OpaqueAuthView::Unix(u) => {
            &&& encode_utf8(u.machine_name).len() <= u32::MAX
            &&& u.gids.len() <= u32::MAX
            &&& auth_unix_bytes(u).len() <= u32::MAX
        },
        OpaqueAuthView::Short(b) => b.len() <= u32::MAX,
    }
}

/// A credential or verifier that [`OpaqueAuth::encode`] writes is read back
/// by [`OpaqueAuth::decode`] as the same value, leaving what follows it; an
/// unknown flavor comes back as `Short`, which is written as flavor 2.
pub proof fn lemma_opaque_auth_roundtrip(a: OpaqueAuthView, rest: Seq<u8>)
    requires
        auth_fits(a),
    ensures
        opaque_auth_spec(opaque_auth_bytes(a) + rest) == (Ok::<OpaqueAuthView, XdrError>(a), rest),
{
    match a {
        OpaqueAuthView::Null => {
            lemma_auth_parts(0, Seq::empty(), rest);
        },
        OpaqueAuthView::Short(b) => {
            lemma_auth_parts(2, b, rest);
        },
        OpaqueAuthView::Unix(u) => {
            lemma_auth_parts(1, auth_unix_bytes(u), rest);
            lemma_auth_unix_roundtrip(u);
        },
    }
}

/// The bytes of a call body: RPC version 2, program, version, procedure,
/// then the credential and then the verifier.
pub open spec fn call_body_bytes(
    prog: u32,
    vers: u32,
    proc: u32,
    cred: OpaqueAuthView,
    verf: OpaqueAuthView,
) -> Seq<u8> {
    be_u32(2) + be_u32(prog) + be_u32(vers) + be_u32(proc) + opaque_auth_bytes(cred)
        + opaque_auth_bytes(verf)
}

/// A call body reads back field by field: the program, version and
/// procedure numbers in that order, the first credential as the caller's
/// credential and the second as its verifier, leaving what follows.
pub proof fn lemma_call_body_roundtrip(
    prog: u32,
    vers: u32,
    proc: u32,
    cred: OpaqueAuthView,
    verf: OpaqueAuthView,
    rest: Seq<u8>,
)
    requires
        auth_fits(cred),
        auth_fits(verf),
    ensures
        call_body_spec(call_body_bytes(prog, vers, proc, cred, verf) + rest) == (
            Ok::<CallBodyView, XdrError>(CallBodyView { rpcvers: 2, prog, vers, proc, cred, verf }),
            rest,
        ),
{
    let t5 = opaque_auth_bytes(verf) + rest;
    let t4 = opaque_auth_bytes(cred) + t5;
    let t3 = be_u32(proc) + t4;
    let t2 = be_u32(vers) + t3;
    let t1 = be_u32(prog) + t2;
    let s = call_body_bytes(prog, vers, proc, cred, verf) + rest;
    assert(s =~= be_u32(2) + t1);
    lemma_get_u32(2, t1);
    lemma_get_u32(prog, t2);
    lemma_get_u32(vers, t3);
    lemma_get_u32(proc, t4);
    lemma_opaque_auth_roundtrip(cred, t5);
    lemma_opaque_auth_roundtrip(verf, rest);
    lemma_call_body_from_parts(s, prog, vers, proc, cred, verf, t1, t2, t3, t4, t5, rest);
}

/// A call for an RPC version other than 2 is refused with that version
/// after reading only the version word; a message that is a reply, not a
/// call, is refused after its type word.
pub proof fn lemma_call_refusals(v: u32, xid: u32, rest: Seq<u8>)
    requires
        v != 2,
    ensures
        call_body_spec(be_u32(v) + rest) == (
            Err::<CallBodyView, XdrError>(XdrError::UnsupportedRpcVersion(v)),
            rest,
        ),
        rpc_call_spec(be_u32(xid) + be_u32(1) + rest) == (
            Err::<RpcCallView, XdrError>(XdrError::UnexpectedMsgType),
            rest,
        ),
{
    lemma_get_u32(v, rest);
    lemma_get_u32(xid, be_u32(1) + rest);
    lemma_get_u32(1, rest);
    assert(be_u32(xid) + be_u32(1) + rest =~= be_u32(xid) + (be_u32(1) + rest));
}

proof fn lemma_call_body_from_parts(
    s: Seq<u8>,
    prog: u32,
    vers: u32,
    proc: u32,
    cred: OpaqueAuthView,
    verf: OpaqueAuthView,
    s1: Seq<u8>,
    s2: Seq<u8>,
    s3: Seq<u8>,
    s4: Seq<u8>,
    s5: Seq<u8>,
    s6: Seq<u8>,
)
    requires
        read_u32_spec(s, 0) == Some((2u32, 4int)),
        s.skip(4) == s1,
        read_u32_spec(s1, 0) == Some((prog, 4int)),
        s1.skip(4) == s2,
        read_u32_spec(s2, 0) == Some((vers, 4int)),
        s2.skip(4) == s3,
        read_u32_spec(s3, 0) == Some((proc, 4int)),
        s3.skip(4) == s4,
        opaque_auth_spec(s4) == (Ok::<OpaqueAuthView, XdrError>(cred), s5),
        opaque_auth_spec(s5) == (Ok::<OpaqueAuthView, XdrError>(verf), s6),
    ensures
        call_body_spec(s) == (
            Ok::<CallBodyView, XdrError>(CallBodyView { rpcvers: 2, prog, vers, proc, cred, verf }),
            s6,
        ),
{
}

/// A call message (transaction id, message type 0, call body) reads back
/// with its transaction id and each field of its body in place.
pub proof fn lemma_rpc_call_roundtrip(
    xid: u32,
    prog: u32,
    vers: u32,
    proc: u32,
    cred: OpaqueAuthView,
    verf: OpaqueAuthView,
    rest: Seq<u8>,
)
    requires
        auth_fits(cred),
        auth_fits(verf),
    ensures
        rpc_call_spec(be_u32(xid) + be_u32(0) + call_body_bytes(prog, vers, proc, cred, verf) + rest)
            == (
            Ok::<RpcCallView, XdrError>(
                RpcCallView {
                    xid,
                    body: CallBodyView { rpcvers: 2, prog, vers, proc, cred, verf },
                },
            ),
            rest,
        ),
{
    let t2 = call_body_bytes(prog, vers, proc, cred, verf) + rest;
    let t1 = be_u32(0) + t2;
    let s = be_u32(xid) + be_u32(0) + call_body_bytes(prog, vers, proc, cred, verf) + rest;
    assert(s =~= be_u32(xid) + t1);
    lemma_get_u32(xid, t1);
    lemma_get_u32(0, t2);
    lemma_call_body_roundtrip(prog, vers, proc, cred, verf, rest);
    assert(MsgType::spec_from_u32(0) == Ok::<MsgType, XdrError>(MsgType::Call));
    assert(rpc_call_spec(s).1 == rest);
}

proof fn lemma_auth_parts(flavor: u32, body: Seq<u8>, rest: Seq<u8>)
    requires
        body.len() <= u32::MAX,
    ensures
        opaque_auth_spec(be_u32(flavor) + opaque_var_bytes(body) + rest) == (
            auth_outcome(flavor, body),
            rest,
        ),
{
    let all = be_u32(flavor) + opaque_var_bytes(body) + rest;
    assert(all =~= be_u32(flavor) + (opaque_var_bytes(body) + rest));
    lemma_get_u32(flavor, opaque_var_bytes(body) + rest);
    lemma_get_opaque_var(body, rest);
}

proof fn lemma_auth_unix_roundtrip(u: AuthUnixView)
    requires
        encode_utf8(u.machine_name).len() <= u32::MAX,
        u.gids.len() <= u32::MAX,
        auth_unix_bytes(u).len() <= u32::MAX,
    ensures
        auth_unix_spec(auth_unix_bytes(u)) == Ok::<AuthUnixView, XdrError>(u),
{
    let name = encode_utf8(u.machine_name);
    let tail3 = u32_array_bytes(u.gids);
    let tail2 = be_u32(u.gid) + tail3;
    let tail1 = be_u32(u.uid) + tail2;
    let tail0 = opaque_var_bytes(name) + tail1;
    let b = auth_unix_bytes(u);
    assert(b =~= be_u32(u.stamp) + tail0);
    lemma_get_u32(u.stamp, tail0);
    assert(b.skip(4) == tail0);
    lemma_get_opaque_var(name, tail1);
    let n = 4 + padded(name.len() as int);
    assert(get_opaque_var_spec(tail0) == Some((name, n)));
    assert(tail0.skip(n) == tail1);
    vstd::utf8::encode_utf8_valid_utf8(u.machine_name);
    vstd::utf8::encode_utf8_decode_utf8(u.machine_name);
    lemma_get_u32(u.uid, tail2);
    lemma_get_u32(u.gid, tail3);
    lemma_u32_array_roundtrip(Seq::empty(), u.gids, Seq::empty());
    assert(Seq::<u8>::empty() + tail3 + Seq::<u8>::empty() =~= tail3);
    lemma_auth_unix_from_parts(b, u, tail0, n, tail1, tail2, tail3);
}

proof fn lemma_auth_unix_from_parts(
    b: Seq<u8>,
    u: AuthUnixView,
    s1: Seq<u8>,
    n: int,
    s2: Seq<u8>,
    s3: Seq<u8>,
    s4: Seq<u8>,
)
    requires
        read_u32_spec(b, 0) == Some((u.stamp, 4int)),
        b.skip(4) == s1,
        get_opaque_var_spec(s1) == Some((encode_utf8(u.machine_name), n)),
        valid_utf8(encode_utf8(u.machine_name)),
        decode_utf8(encode_utf8(u.machine_name)) == u.machine_name,
        s1.skip(n) == s2,
        read_u32_spec(s2, 0) == Some((u.uid, 4int)),
        s2.skip(4) == s3,
        read_u32_spec(s3, 0) == Some((u.gid, 4int)),
        s3.skip(4) == s4,
        read_u32_array_spec(s4, 0) == Some((u.gids, 4int + 4 * u.gids.len())),
    ensures
        auth_unix_spec(b) == Ok::<AuthUnixView, XdrError>(u),
{
}

} // verus!
