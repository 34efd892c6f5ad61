//! The minimal NFS program: it answers the null procedure and nothing else.

use vstd::prelude::*;
use crate::rpc::program::{
    DispatchResult, DispatchView, NfsProc, RpcProgram, NFS_PROGRAM, NFS_VERSION,
};
use crate::server::{OpaqueAuth, RawAuth};

verus! {

/// An NFS program rooted at a directory.
pub struct NfsHandler {
    export_root: Vec<u8>,
}

impl NfsHandler {
    /// The exported directory, as the bytes of its canonical path.
    pub closed spec fn root(&self) -> Seq<u8> {
        self.export_root@
    }

    /// A handler for the directory whose canonical path is `export_root`
    /// (the caller has checked that it is a directory and canonicalized it).
    pub fn new(export_root: Vec<u8>) -> (h: Self)
        ensures
            h.root() == export_root@,
    {
        NfsHandler { export_root }
    }
}

/// What the minimal handler answers: `PROG_MISMATCH` with range `(2, 2)` for
/// another version, an empty success for the null procedure, and
/// `PROC_UNAVAIL` for every other procedure.
pub open spec fn null_only_dispatch(vers: u32, proc: u32) -> DispatchView {
    if vers != NFS_VERSION {
        DispatchView::ProgMismatch { low: NFS_VERSION, high: NFS_VERSION }
    } else if proc == NfsProc::Null.spec_code() {
        DispatchView::Success(Seq::empty())
    } else {
        DispatchView::ProcUnavail
    }
}

impl RpcProgram for NfsHandler {
    open spec fn spec_program(&self) -> u32 {
        NFS_PROGRAM
    }

    open spec fn spec_version_range(&self) -> (u32, u32) {
        (NFS_VERSION, NFS_VERSION)
    }

    open spec fn spec_dispatch(
        &self,
        vers: u32,
        proc: u32,
        cred: RawAuth,
        verf: RawAuth,
        args: Seq<u8>,
    ) -> DispatchView {
        null_only_dispatch(vers, proc)
    }

    fn program(&self) -> (p: u32) {
        NFS_PROGRAM
    }

    fn version_range(&self) -> (r: (u32, u32)) {
        (NFS_VERSION, NFS_VERSION)
    }

    fn dispatch(
        &self,
        vers: u32,
        proc: u32,
        _cred: &OpaqueAuth<'_>,
        _verf: &OpaqueAuth<'_>,
        _args: &[u8],
    ) -> (r: DispatchResult) {
        if vers != NFS_VERSION {
            return DispatchResult::ProgMismatch { low: NFS_VERSION, high: NFS_VERSION };
        }
        match NfsProc::from_u32(proc) {
            Some(NfsProc::Null) => DispatchResult::Success(Vec::new()),
            Some(_) => DispatchResult::ProcUnavail,
            None => DispatchResult::ProcUnavail,
        }
    }
}

/// A handler for the directory whose canonical path is `export_root`.
pub fn make_handler(export_root: Vec<u8>) -> (h: NfsHandler)
    ensures
        h.root() == export_root@,
{
    NfsHandler::new(export_root)
}

} // verus!
