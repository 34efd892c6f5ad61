//! The server's own call parsing and reply framing: a call header is read
//! with its credentials kept raw, routed to a program, and answered.

use vstd::prelude::*;
use crate::rpc::program::{DispatchResult, DispatchView, RpcProgram};
use crate::rpc::msg::{accepted, opaque_auth_bytes, reply_bytes, AcceptStat, OpaqueAuthView, ReplyBodyView};
use crate::rpc::xdr::{
    be_u32, lemma_be_u32_roundtrip, lemma_items_fill_units, lemma_u32_roundtrip, opaque_var_bytes,
    pad_spec, padded, read_opaque_fixed_spec, read_u32_spec, zeros, XdrDecoder, XdrEncoder,
    RPC_VERSION,
};

verus! {

/// The message type of a call.
pub const CALL: u32 = 0;

/// The longest credential or verifier body accepted (RFC 1057, 7.2).
pub const MAX_AUTH_LEN: u32 = 400;

/// Why a datagram is not a call the server takes.
#[derive(Debug, Clone, Copy, PartialEq, Eq, Structural)]
pub enum MsgError {
    /// The datagram ends before the header, padding included, does.
    Xdr,
    /// The message type is not `CALL`; this is the one it carries.
    NotCall(u32),
    /// The RPC version is not 2.
    RpcMismatch,
    /// A credential or verifier body longer than [`MAX_AUTH_LEN`].
    AuthTooLong(u32),
}

/// A credential or verifier as it arrived: flavor and raw body (RFC 1057, 8.2).
#[derive(Debug, Clone, Copy)]
pub struct OpaqueAuth<'a> {
    pub flavor: u32,
    pub body: &'a [u8],
}

/// What an [`OpaqueAuth`] holds.
pub struct RawAuth {
    pub flavor: u32,
    pub body: Seq<u8>,
}

impl<'a> View for OpaqueAuth<'a> {
    type V = RawAuth;

    open spec fn view(&self) -> RawAuth {
        RawAuth { flavor: self.flavor, body: self.body@ }
    }
}

/// A call header with its credentials kept raw, and the arguments that
/// follow it.
#[derive(Debug)]
pub struct RpcCall<'a> {
    pub xid: u32,
    pub prog: u32,
    pub vers: u32,
    pub proc_: u32,
    pub cred: OpaqueAuth<'a>,
    pub verf: OpaqueAuth<'a>,
    pub args: &'a [u8],
}

/// The fields of a call header and where its arguments start.
pub struct CallHeader {
    pub xid: u32,
    pub prog: u32,
    pub vers: u32,
    pub proc_: u32,
    pub cred: RawAuth,
    pub verf: RawAuth,
    pub args_start: int,
}

/// A credential or verifier at `pos`: its flavor, then its length, refused
/// above [`MAX_AUTH_LEN`], then its body and padding.
pub open spec fn raw_auth_spec(buf: Seq<u8>, pos: int) -> Result<(RawAuth, int), MsgError> {
    match read_u32_spec(buf, pos) {
        None => Err(MsgError::Xdr),
        Some((flavor, p1)) => match read_u32_spec(buf, p1) {
            None => Err(MsgError::Xdr),
            Some((len, p2)) => if len > MAX_AUTH_LEN {
                Err(MsgError::AuthTooLong(len))
            } else {
                match read_opaque_fixed_spec(buf, p2, len as int) {
                    None => Err(MsgError::Xdr),
                    Some((body, p3)) => Ok((RawAuth { flavor, body }, p3)),
                }
            },
        },
    }
}

/// The call header at the start of `buf` (RFC 1057, 8): transaction id,
/// message type (which must be `CALL`), RPC version (which must be 2),
/// program, version, procedure, credentials and verifier.
pub open spec fn call_header_spec(buf: Seq<u8>) -> Result<CallHeader, MsgError> {
    match read_u32_spec(buf, 0) {
        None => Err(MsgError::Xdr),
        Some((xid, _)) => match read_u32_spec(buf, 4) {
            None => Err(MsgError::Xdr),
            Some((mtype, _)) => if mtype != CALL {
                Err(MsgError::NotCall(mtype))
            } else {
                match read_u32_spec(buf, 8) {
                    None => Err(MsgError::Xdr),
                    Some((rpcvers, _)) => if rpcvers != RPC_VERSION {
                        Err(MsgError::RpcMismatch)
                    } else {
                        match (read_u32_spec(buf, 12), read_u32_spec(buf, 16), read_u32_spec(buf, 20)) {
                            (Some((prog, _)), Some((vers, _)), Some((proc_, _))) => match raw_auth_spec(
                                buf,
                                24,
                            ) {
                                Err(e) => Err(e),
                                Ok((cred, p)) => match raw_auth_spec(buf, p) {
                                    Err(e) => Err(e),
                                    Ok((verf, q)) => Ok(
                                        CallHeader { xid, prog, vers, proc_, cred, verf, args_start: q },
                                    ),
                                },
                            },
                            _ => Err(MsgError::Xdr),
                        }
                    },
                }
            },
        },
    }
}

fn read_u32_or(d: &mut XdrDecoder) -> (r: Result<u32, MsgError>)
    ensures
        final(d).bytes() == old(d).bytes(),
        match read_u32_spec(old(d).bytes(), old(d).cursor()) {
            Some((v, p)) => r == Ok::<u32, MsgError>(v) && final(d).cursor() == p,
            None => r == Err::<u32, MsgError>(MsgError::Xdr),
        },
{
    match d.read_u32() {
        Ok(v) => Ok(v),
        Err(_) => Err(MsgError::Xdr),
    }
}

fn read_raw_auth<'a>(d: &mut XdrDecoder<'a>) -> (r: Result<OpaqueAuth<'a>, MsgError>)
    ensures
        final(d).bytes() == old(d).bytes(),
        match raw_auth_spec(old(d).bytes(), old(d).cursor()) {
            Ok((a, p)) => r matches Ok(x) && x@ == a && final(d).cursor() == p,
            Err(e) => r == Err::<OpaqueAuth<'a>, MsgError>(e),
        },
{
    let flavor = read_u32_or(d)?;
    let len = read_u32_or(d)?;
    if len > MAX_AUTH_LEN {
        return Err(MsgError::AuthTooLong(len));
    }
    match d.read_opaque_fixed(len as usize) {
        Ok(body) => Ok(OpaqueAuth { flavor, body }),
        Err(_) => Err(MsgError::Xdr),
    }
}

/// Reads the header and leaves the cursor where the arguments start.
fn parse_header<'a>(d: &mut XdrDecoder<'a>) -> (r: Result<
    (u32, u32, u32, u32, OpaqueAuth<'a>, OpaqueAuth<'a>),
    MsgError,
>)
    requires
        old(d).cursor() == 0,
    ensures
        final(d).bytes() == old(d).bytes(),
        match call_header_spec(old(d).bytes()) {
            Ok(h) => r matches Ok((xid, prog, vers, proc_, cred, verf)) && xid == h.xid && prog
                == h.prog && vers == h.vers && proc_ == h.proc_ && cred@ == h.cred && verf@ == h.verf
                && final(d).cursor() == h.args_start,
            Err(e) => r == Err::<(u32, u32, u32, u32, OpaqueAuth<'a>, OpaqueAuth<'a>), MsgError>(e),
        },
{
    let xid = read_u32_or(d)?;
    let mtype = read_u32_or(d)?;
    if mtype != CALL {
        return Err(MsgError::NotCall(mtype));
    }
    if read_u32_or(d)? != RPC_VERSION {
        return Err(MsgError::RpcMismatch);
    }
    let prog = read_u32_or(d)?;
    let vers = read_u32_or(d)?;
    let proc_ = read_u32_or(d)?;
    let cred = read_raw_auth(d)?;
    let verf = read_raw_auth(d)?;
    Ok((xid, prog, vers, proc_, cred, verf))
}

impl<'a> RpcCall<'a> {
    /// Reads a call header off `buf`; the rest of `buf` is the arguments.
    pub fn new(buf: &'a [u8]) -> (r: Result<Self, MsgError>)
        ensures
            match call_header_spec(buf@) {
                Ok(h) => r matches Ok(c) && c.xid == h.xid && c.prog == h.prog && c.vers == h.vers
                    && c.proc_ == h.proc_ && c.cred@ == h.cred && c.verf@ == h.verf && c.args@
                    == buf@.subrange(h.args_start, buf@.len() as int),
                Err(e) => r matches Err(x) && x == e,
            },
    {
        let mut d = XdrDecoder::new(buf);
        let (xid, prog, vers, proc_, cred, verf) = parse_header(&mut d)?;
        Ok(Self { xid, prog, vers, proc_, cred, verf, args: d.remaining() })
    }
}

/// What a program with number `program`, serving versions `low` to `high`,
/// answers before dispatching a call for program `prog`, version `vers`:
/// `PROG_UNAVAIL` for another program, `PROG_MISMATCH` with its range for a
/// version outside it, nothing when the call is for it.
pub open spec fn route_spec(prog: u32, vers: u32, program: u32, low: u32, high: u32) -> Option<
    DispatchView,
> {
    if prog != program {
        Some(DispatchView::ProgUnavail)
    } else if vers < low || vers > high {
        Some(DispatchView::ProgMismatch { low, high })
    } else {
        None
    }
}

/// Checks that `call` is for program `program` in a version from `low` to
/// `high`; if it is not, the answer it gets.
pub fn route(call: &RpcCall<'_>, program: u32, low: u32, high: u32) -> (r: Option<DispatchResult>)
    ensures
        match route_spec(call.prog, call.vers, program, low, high) {
            Some(v) => r matches Some(x) && x@ == v,
            None => r is None,
        },
{
    if call.prog != program {
        return Some(DispatchResult::ProgUnavail);
    }
    if call.vers < low || call.vers > high {
        return Some(DispatchResult::ProgMismatch { low, high });
    }
    None
}

/// What [`ver_call`] answers a call with: the routing answer, else what the
/// program's dispatch yields.
pub open spec fn ver_call_spec<P: RpcProgram>(
    program: &P,
    prog: u32,
    vers: u32,
    proc_: u32,
    cred: RawAuth,
    verf: RawAuth,
    args: Seq<u8>,
) -> DispatchView {
    let (low, high) = program.spec_version_range();
    match route_spec(prog, vers, program.spec_program(), low, high) {
        Some(v) => v,
        None => program.spec_dispatch(vers, proc_, cred, verf, args),
    }
}

/// Routes a call to `program`, checking program number and version first.
pub fn ver_call<P: RpcProgram>(program: &P, call: &RpcCall<'_>) -> (r: DispatchResult)
    ensures
        r@ == ver_call_spec(
            program,
            call.prog,
            call.vers,
            call.proc_,
            call.cred@,
            call.verf@,
            call.args@,
        ),
{
    let number = program.program();
    let (low, high) = program.version_range();
    match route(call, number, low, high) {
        Some(r) => r,
        None => program.dispatch(call.vers, call.proc_, &call.cred, &call.verf, call.args),
    }
}

/// The reply to `xid` that carries `result`: a `REPLY` message accepted with
/// an empty AUTH_NULL verifier, then the accept status and what goes with it
/// (the results of a success, the version range of a mismatch).
pub open spec fn reply_spec(xid: u32, result: DispatchView) -> Seq<u8> {
    let head = be_u32(xid) + be_u32(1) + be_u32(0) + be_u32(0) + be_u32(0);
    match result {
        DispatchView::Success(payload) => head + be_u32(0) + payload,
        DispatchView::ProgUnavail => head + be_u32(1),
        DispatchView::ProgMismatch { low, high } => head + be_u32(2) + be_u32(low) + be_u32(high),
        DispatchView::ProcUnavail => head + be_u32(3),
        DispatchView::GarbageArgs => head + be_u32(4),
    }
}

/// Encodes the reply to `xid` that carries `result`.
pub fn encode_reply(xid: u32, result: DispatchResult) -> (r: Vec<u8>)
    ensures
        r@ == reply_spec(xid, result@),
{
    let mut encoder = XdrEncoder::new();
    encoder.put_u32(xid);
    encoder.put_u32(1);
    encoder.put_u32(0);
    encoder.put_u32(0);
    encoder.put_u32(0);
    match result {
        DispatchResult::Success(payload) => {
            encoder.put_u32(0);
            encoder.put_raw(payload.as_slice());
        },
        DispatchResult::ProgUnavail => encoder.put_u32(1),
        DispatchResult::ProgMismatch { low, high } => {
            encoder.put_u32(2);
            encoder.put_u32(low);
            encoder.put_u32(high);
        },
        DispatchResult::ProcUnavail => encoder.put_u32(3),
        DispatchResult::GarbageArgs => encoder.put_u32(4),
    }
    let r = encoder.into_bytes();
    assert(r@ =~= reply_spec(xid, result@));
    r
}

/// What the server sends back for one datagram: nothing when it is not a
/// call it takes, else the reply that [`ver_call`] yields.
pub open spec fn handle_datagram_spec<P: RpcProgram>(program: &P, buf: Seq<u8>) -> Option<Seq<u8>> {
    match call_header_spec(buf) {
        Err(_) => None,
        Ok(h) => Some(
            reply_spec(
                h.xid,
                ver_call_spec(
                    program,
                    h.prog,
                    h.vers,
                    h.proc_,
                    h.cred,
                    h.verf,
                    buf.subrange(h.args_start, buf.len() as int),
                ),
            ),
        ),
    }
}

/// Answers one datagram: parses the call, routes it to `program` and encodes
/// the reply; a datagram that is not a call the server takes gets none.
pub fn handle_datagram<P: RpcProgram>(program: &P, buf: &[u8]) -> (r: Option<Vec<u8>>)
    ensures
        match handle_datagram_spec(program, buf@) {
            Some(b) => r matches Some(v) && v@ == b,
            None => r is None,
        },
{
    match RpcCall::new(buf) {
        Err(_) => None,
        Ok(call) => {
            let result = ver_call(program, &call);
            Some(encode_reply(call.xid, result))
        },
    }
}

/// The server's own reply framing agrees with the general reply encoding of
/// [`crate::rpc::msg`]: a success is the accepted header with `SUCCESS` and
/// the results after it, a version mismatch carries its range, and the
/// other statuses are their accepted headers.
pub proof fn lemma_reply_matches_reply_body(xid: u32, result: DispatchView)
    ensures
        reply_spec(xid, result) == match result {
            DispatchView::Success(payload) => reply_bytes(xid, accepted(AcceptStat::Success))
                + payload,
            DispatchView::ProgUnavail => reply_bytes(xid, accepted(AcceptStat::ProgUnavail)),
            DispatchView::ProgMismatch { low, high } => reply_bytes(
                xid,
                ReplyBodyView::Accepted {
                    verf: OpaqueAuthView::Null,
                    stat: AcceptStat::ProgMismatch,
                    mismatch_info: Some((low, high)),
                },
            ),
            DispatchView::ProcUnavail => reply_bytes(xid, accepted(AcceptStat::ProcUnavail)),
            DispatchView::GarbageArgs => reply_bytes(xid, accepted(AcceptStat::GarbageArgs)),
        },
{
    let empty = Seq::<u8>::empty();
    lemma_be_u32_roundtrip(0);
    assert(opaque_var_bytes(empty) =~= be_u32(0));
    assert(opaque_auth_bytes(OpaqueAuthView::Null) =~= be_u32(0) + be_u32(0));
    match result {
        DispatchView::Success(payload) => {
            assert(reply_spec(xid, result) =~= reply_bytes(xid, accepted(AcceptStat::Success))
                + payload);
        },
        DispatchView::ProgUnavail => {
            assert(reply_spec(xid, result) =~= reply_bytes(xid, accepted(AcceptStat::ProgUnavail)));
        },
        DispatchView::ProgMismatch { low, high } => {
            assert(reply_spec(xid, result) =~= reply_bytes(
                xid,
                ReplyBodyView::Accepted {
                    verf: OpaqueAuthView::Null,
                    stat: AcceptStat::ProgMismatch,
                    mismatch_info: Some((low, high)),
                },
            ));
        },
        DispatchView::ProcUnavail => {
            assert(reply_spec(xid, result) =~= reply_bytes(xid, accepted(AcceptStat::ProcUnavail)));
        },
        DispatchView::GarbageArgs => {
            assert(reply_spec(xid, result) =~= reply_bytes(xid, accepted(AcceptStat::GarbageArgs)));
        },
    }
}

/// The bytes a client sends for a call: transaction id, `CALL`, RPC version
/// 2, program, version, procedure, then credentials and verifier as flavor
/// and counted body.
#[verifier::opaque]
pub open spec fn call_bytes(
    xid: u32,
    prog: u32,
    vers: u32,
    proc_: u32,
    cred: RawAuth,
    verf: RawAuth,
) -> Seq<u8> {
    be_u32(xid) + be_u32(CALL) + be_u32(RPC_VERSION) + be_u32(prog) + be_u32(vers) + be_u32(proc_)
        + be_u32(cred.flavor) + opaque_var_bytes(cred.body) + be_u32(verf.flavor) + opaque_var_bytes(
        verf.body,
    )
}

proof fn lemma_word_at(b: Seq<u8>, pre: Seq<u8>, w: u32, post: Seq<u8>)
    requires
        b == pre + be_u32(w) + post,
    ensures
        read_u32_spec(b, pre.len() as int) == Some((w, pre.len() + 4int)),
{
    lemma_u32_roundtrip(pre, w, post);
}

proof fn lemma_raw_auth_at(b: Seq<u8>, pre: Seq<u8>, a: RawAuth, post: Seq<u8>)
    requires
        b == pre + (be_u32(a.flavor) + opaque_var_bytes(a.body)) + post,
        pre.len() % 4 == 0,
        a.body.len() <= MAX_AUTH_LEN,
    ensures
        raw_auth_spec(b, pre.len() as int) == Ok::<(RawAuth, int), MsgError>(
            (a, pre.len() + 8 + padded(a.body.len() as int)),
        ),
{
    let n = a.body.len() as u32;
    lemma_be_u32_roundtrip(n);
    lemma_be_u32_roundtrip(a.flavor);
    let p: int = pre.len() as int;
    assert(b =~= pre + be_u32(a.flavor) + (be_u32(n) + a.body + zeros(pad_spec(a.body.len() as int)) + post));
    lemma_word_at(b, pre, a.flavor, be_u32(n) + a.body + zeros(pad_spec(a.body.len() as int)) + post);
    assert(b =~= (pre + be_u32(a.flavor)) + be_u32(n) + (a.body + zeros(pad_spec(a.body.len() as int)) + post));
    lemma_word_at(b, pre + be_u32(a.flavor), n, a.body + zeros(pad_spec(a.body.len() as int)) + post);
    assert(b.subrange(p + 8, p + 8 + n) =~= a.body);
    assert(pad_spec(p + 8 + n) == pad_spec(n as int));
    assert(p + 8 + padded(n as int) <= b.len());
}

proof fn lemma_header_from_fields(b: Seq<u8>, h: CallHeader, p: int)
    requires
        read_u32_spec(b, 0) == Some((h.xid, 4int)),
        read_u32_spec(b, 4) == Some((CALL, 8int)),
        read_u32_spec(b, 8) == Some((RPC_VERSION, 12int)),
        read_u32_spec(b, 12) == Some((h.prog, 16int)),
        read_u32_spec(b, 16) == Some((h.vers, 20int)),
        read_u32_spec(b, 20) == Some((h.proc_, 24int)),
        raw_auth_spec(b, 24) == Ok::<(RawAuth, int), MsgError>((h.cred, p)),
        raw_auth_spec(b, p) == Ok::<(RawAuth, int), MsgError>((h.verf, h.args_start)),
    ensures
        call_header_spec(b) == Ok::<CallHeader, MsgError>(h),
{
}

proof fn lemma_call_bytes_split(
    xid: u32,
    prog: u32,
    vers: u32,
    proc_: u32,
    cred: RawAuth,
    verf: RawAuth,
    args: Seq<u8>,
)
    ensures
        call_bytes(xid, prog, vers, proc_, cred, verf) + args == (be_u32(xid) + be_u32(CALL) + be_u32(
            RPC_VERSION,
        ) + be_u32(prog) + be_u32(vers) + be_u32(proc_)) + (be_u32(cred.flavor) + opaque_var_bytes(
            cred.body,
        )) + (be_u32(verf.flavor) + opaque_var_bytes(verf.body)) + args,
{
    reveal(call_bytes);
    assert(call_bytes(xid, prog, vers, proc_, cred, verf) + args =~= (be_u32(xid) + be_u32(CALL)
        + be_u32(RPC_VERSION) + be_u32(prog) + be_u32(vers) + be_u32(proc_)) + (be_u32(cred.flavor)
        + opaque_var_bytes(cred.body)) + (be_u32(verf.flavor) + opaque_var_bytes(verf.body)) + args);
}

proof fn lemma_auth_len(a: RawAuth)
    requires
        a.body.len() <= MAX_AUTH_LEN,
    ensures
        (be_u32(a.flavor) + opaque_var_bytes(a.body)).len() == 8 + padded(a.body.len() as int),
        (be_u32(a.flavor) + opaque_var_bytes(a.body)).len() % 4 == 0,
{
    lemma_be_u32_roundtrip(a.flavor);
    lemma_be_u32_roundtrip(a.body.len() as u32);
    lemma_items_fill_units(a.body, Seq::empty());
}

proof fn lemma_call_layout(head: Seq<u8>, ca: Seq<u8>, va: Seq<u8>, args: Seq<u8>, b: Seq<u8>)
    requires
        b == head + ca + va + args,
    ensures
        b == head + (ca + va + args),
        b == head + (ca + (va + args)),
        b == head + ca + (va + args),
        b == (head + ca) + va + args,
{
    assert(b =~= head + (ca + va + args));
    assert(b =~= head + (ca + (va + args)));
    assert(b =~= head + ca + (va + args));
}

proof fn lemma_header_words(
    xid: u32,
    prog: u32,
    vers: u32,
    proc_: u32,
    tail: Seq<u8>,
)
    ensures
        ({
            let b = be_u32(xid) + be_u32(CALL) + be_u32(RPC_VERSION) + be_u32(prog) + be_u32(vers)
                + be_u32(proc_) + tail;
            &&& read_u32_spec(b, 0) == Some((xid, 4int))
            &&& read_u32_spec(b, 4) == Some((CALL, 8int))
            &&& read_u32_spec(b, 8) == Some((RPC_VERSION, 12int))
            &&& read_u32_spec(b, 12) == Some((prog, 16int))
            &&& read_u32_spec(b, 16) == Some((vers, 20int))
            &&& read_u32_spec(b, 20) == Some((proc_, 24int))
            &&& b.len() == 24 + tail.len()
        }),
{
    let b = be_u32(xid) + be_u32(CALL) + be_u32(RPC_VERSION) + be_u32(prog) + be_u32(vers)
        + be_u32(proc_) + tail;
    lemma_be_u32_roundtrip(xid);
    lemma_be_u32_roundtrip(CALL);
    lemma_be_u32_roundtrip(RPC_VERSION);
    lemma_be_u32_roundtrip(prog);
    lemma_be_u32_roundtrip(vers);
    lemma_be_u32_roundtrip(proc_);
    assert(b.subrange(0, 4) =~= be_u32(xid));
    assert(b.subrange(4, 8) =~= be_u32(CALL));
    assert(b.subrange(8, 12) =~= be_u32(RPC_VERSION));
    assert(b.subrange(12, 16) =~= be_u32(prog));
    assert(b.subrange(16, 20) =~= be_u32(vers));
    assert(b.subrange(20, 24) =~= be_u32(proc_));
}

/// A call as a client sends it, with credentials and verifier no longer
/// than [`MAX_AUTH_LEN`], is read back field for field by
/// [`RpcCall::new`], whatever arguments follow it.
pub proof fn lemma_call_roundtrip(
    xid: u32,
    prog: u32,
    vers: u32,
    proc_: u32,
    cred: RawAuth,
    verf: RawAuth,
    args: Seq<u8>,
)
    requires
        cred.body.len() <= MAX_AUTH_LEN,
        verf.body.len() <= MAX_AUTH_LEN,
    ensures
        call_header_spec(call_bytes(xid, prog, vers, proc_, cred, verf) + args) == Ok::<
            CallHeader,
            MsgError,
        >(
            CallHeader {
                xid,
                prog,
                vers,
                proc_,
                cred,
                verf,
                args_start: call_bytes(xid, prog, vers, proc_, cred, verf).len() as int,
            },
        ),
{
    let head = be_u32(xid) + be_u32(CALL) + be_u32(RPC_VERSION) + be_u32(prog) + be_u32(vers)
        + be_u32(proc_);
    let ca = be_u32(cred.flavor) + opaque_var_bytes(cred.body);
    let va = be_u32(verf.flavor) + opaque_var_bytes(verf.body);
    let b = call_bytes(xid, prog, vers, proc_, cred, verf) + args;
    lemma_call_bytes_split(xid, prog, vers, proc_, cred, verf, args);
    lemma_call_layout(head, ca, va, args, b);
    lemma_header_words(xid, prog, vers, proc_, ca + va + args);
    lemma_auth_len(cred);
    lemma_auth_len(verf);
    lemma_raw_auth_at(b, head, cred, va + args);
    lemma_raw_auth_at(b, head + ca, verf, args);
    let h = CallHeader {
        xid,
        prog,
        vers,
        proc_,
        cred,
        verf,
        args_start: call_bytes(xid, prog, vers, proc_, cred, verf).len() as int,
    };
    lemma_header_from_fields(b, h, (head.len() + ca.len()) as int);
}

/// The server's configuration: the argument it was started with, kept as
/// text and as the path of the configuration.
#[derive(Debug, Clone)]
pub struct Config {
    raw_url: String,
    conf: String,
}

impl Config {
    /// The argument as given.
    pub closed spec fn raw_url(&self) -> Seq<char> {
        self.raw_url@
    }

    /// The configuration path.
    pub closed spec fn conf(&self) -> Seq<char> {
        self.conf@
    }

    /// A configuration from the argument `args`, which is both the text and
    /// the path.
    pub fn new(args: &str) -> (c: Self)
        ensures
            c.raw_url() == args@,
            c.conf() == args@,
    {
        Config { raw_url: args.to_owned(), conf: args.to_owned() }
    }
}

} // verus!
