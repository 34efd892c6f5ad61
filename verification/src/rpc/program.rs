//! What an RPC program offers the server, and the numbers of NFS version 2
//! (RFC 1094).

use vstd::prelude::*;
use crate::server::{OpaqueAuth, RawAuth};

verus! {

/// The outcome of dispatching one call to a program.
#[derive(Debug)]
pub enum DispatchResult {
    /// Accepted and executed; these are the encoded results.
    Success(Vec<u8>),
    ProgUnavail,
    ProgMismatch { low: u32, high: u32 },
    ProcUnavail,
    GarbageArgs,
}

/// What a [`DispatchResult`] holds.
pub enum DispatchView {
    Success(Seq<u8>),
    ProgUnavail,
    ProgMismatch { low: u32, high: u32 },
    ProcUnavail,
    GarbageArgs,
}

impl View for DispatchResult {
    type V = DispatchView;

    open spec fn view(&self) -> DispatchView {
        match self {
            DispatchResult::Success(b) => DispatchView::Success(b@),
            DispatchResult::ProgUnavail => DispatchView::ProgUnavail,
            DispatchResult::ProgMismatch { low, high } => DispatchView::ProgMismatch {
                low: *low,
                high: *high,
            },
            DispatchResult::ProcUnavail => DispatchView::ProcUnavail,
            DispatchResult::GarbageArgs => DispatchView::GarbageArgs,
        }
    }
}

/// An RPC program the server can route calls to. Credentials and verifiers
/// are handed over as they arrived: flavor and raw body.
pub trait RpcProgram: Send + Sync {
    /// The program number.
    spec fn spec_program(&self) -> u32;

    /// The lowest and highest version served.
    spec fn spec_version_range(&self) -> (u32, u32);

    /// What a call of `proc` in version `vers` with these credentials,
    /// verifier and arguments yields.
    spec fn spec_dispatch(
        &self,
        vers: u32,
        proc: u32,
        cred: RawAuth,
        verf: RawAuth,
        args: Seq<u8>,
    ) -> DispatchView;

    fn program(&self) -> (p: u32)
        ensures
            p == self.spec_program(),
    ;

    fn version_range(&self) -> (r: (u32, u32))
        ensures
            r == self.spec_version_range(),
    ;

    fn dispatch(
        &self,
        vers: u32,
        proc: u32,
        cred: &OpaqueAuth<'_>,
        verf: &OpaqueAuth<'_>,
        args: &[u8],
    ) -> (r: DispatchResult)
        ensures
            r@ == self.spec_dispatch(vers, proc, cred@, verf@, args@),
    ;
}

/// The NFS program number.
pub const NFS_PROGRAM: u32 = 100003;

/// The NFS protocol version served.
pub const NFS_VERSION: u32 = 2;

/// NFS status codes (RFC 1094, 2.3.1).
#[allow(non_camel_case_types)]
#[derive(Debug, Clone, Copy, PartialEq, Eq, Structural)]
pub enum stat {
    NFS_OK,
    NFSERR_PERM,
    NFSERR_NOENT,
    NFSERR_IO,
    NFSERR_NXIO,
    NFSERR_ACCES,
    NFSERR_EXIST,
    NFSERR_NODEV,
    NFSERR_NOTDIR,
    NFSERR_ISDIR,
    NFSERR_FBIG,
    NFSERR_NOSPC,
    NFSERR_ROFS,
    NFSERR_NAMETOOLONG,
    NFSERR_NOTEMPTY,
    NFSERR_DQDOT,
    NFSERR_STALE,
    NFSERR_WFLUSH,
}

impl stat {
    /// The wire number of a status.
    pub open spec fn spec_code(self) -> u32 {
        match self {
            stat::NFS_OK => 0,
            stat::NFSERR_PERM => 1,
            stat::NFSERR_NOENT => 2,
            stat::NFSERR_IO => 5,
            stat::NFSERR_NXIO => 6,
            stat::NFSERR_ACCES => 13,
            stat::NFSERR_EXIST => 17,
            stat::NFSERR_NODEV => 19,
            stat::NFSERR_NOTDIR => 20,
            stat::NFSERR_ISDIR => 21,
            stat::NFSERR_FBIG => 27,
            stat::NFSERR_NOSPC => 28,
            stat::NFSERR_ROFS => 30,
            stat::NFSERR_NAMETOOLONG => 63,
            stat::NFSERR_NOTEMPTY => 66,
            stat::NFSERR_DQDOT => 69,
            stat::NFSERR_STALE => 70,
            stat::NFSERR_WFLUSH => 99,
        }
    }

    /// The wire number of this status.
    pub fn code(self) -> (c: u32)
        ensures
            c == self.spec_code(),
    {
        match self {
            stat::NFS_OK => 0,
            stat::NFSERR_PERM => 1,
            stat::NFSERR_NOENT => 2,
            stat::NFSERR_IO => 5,
            stat::NFSERR_NXIO => 6,
            stat::NFSERR_ACCES => 13,
            stat::NFSERR_EXIST => 17,
            stat::NFSERR_NODEV => 19,
            stat::NFSERR_NOTDIR => 20,
            stat::NFSERR_ISDIR => 21,
            stat::NFSERR_FBIG => 27,
            stat::NFSERR_NOSPC => 28,
            stat::NFSERR_ROFS => 30,
            stat::NFSERR_NAMETOOLONG => 63,
            stat::NFSERR_NOTEMPTY => 66,
            stat::NFSERR_DQDOT => 69,
            stat::NFSERR_STALE => 70,
            stat::NFSERR_WFLUSH => 99,
        }
    }
}

/// NFS file types (RFC 1094, 2.3.2).
#[allow(non_camel_case_types)]
#[derive(Debug, Clone, Copy, PartialEq, Eq, Structural)]
pub enum ftype {
    NFNON,
    NFREG,
    NFDIR,
    NFBLK,
    NFCHR,
    NFLNK,
}

impl ftype {
    /// The wire number of a file type.
    pub open spec fn spec_code(self) -> u32 {
        match self {
            ftype::NFNON => 0,
            ftype::NFREG => 1,
            ftype::NFDIR => 2,
            ftype::NFBLK => 3,
            ftype::NFCHR => 4,
            ftype::NFLNK => 5,
        }
    }

    /// The wire number of this file type.
    pub fn code(self) -> (c: u32)
        ensures
            c == self.spec_code(),
    {
        match self {
            ftype::NFNON => 0,
            ftype::NFREG => 1,
            ftype::NFDIR => 2,
            ftype::NFBLK => 3,
            ftype::NFCHR => 4,
            ftype::NFLNK => 5,
        }
    }
}

/// The server procedures of NFS version 2 (RFC 1094, 2.2).
#[derive(Debug, Clone, Copy, PartialEq, Eq, Structural)]
pub enum NfsProc {
    Null,
    GetAttr,
    SetAttr,
    Root,
    Lookup,
    ReadLink,
    Read,
    WriteCache,
    Write,
    Create,
    Remove,
    Rename,
    Link,
    SymLink,
    MkDir,
    RmDir,
    ReadDir,
    StatFs,
}

impl NfsProc {
    /// The wire number of a procedure.
    pub open spec fn spec_code(self) -> u32 {
        match self {
            NfsProc::Null => 0,
            NfsProc::GetAttr => 1,
            NfsProc::SetAttr => 2,
            NfsProc::Root => 3,
            NfsProc::Lookup => 4,
            NfsProc::ReadLink => 5,
            NfsProc::Read => 6,
            NfsProc::WriteCache => 7,
            NfsProc::Write => 8,
            NfsProc::Create => 9,
            NfsProc::Remove => 10,
            NfsProc::Rename => 11,
            NfsProc::Link => 12,
            NfsProc::SymLink => 13,
            NfsProc::MkDir => 14,
            NfsProc::RmDir => 15,
            NfsProc::ReadDir => 16,
            NfsProc::StatFs => 17,
        }
    }

    /// The procedure with wire number `v`, if there is one.
    pub fn from_u32(v: u32) -> (r: Option<Self>)
        ensures
            match r {
                Some(p) => p.spec_code() == v,
                None => v > 17,
            },
    {
        match v {
            0 => Some(Self::Null),
            1 => Some(Self::GetAttr),
            2 => Some(Self::SetAttr),
            3 => Some(Self::Root),
            4 => Some(Self::Lookup),
            5 => Some(Self::ReadLink),
            6 => Some(Self::Read),
            7 => Some(Self::WriteCache),
            8 => Some(Self::Write),
            9 => Some(Self::Create),
            10 => Some(Self::Remove),
            11 => Some(Self::Rename),
            12 => Some(Self::Link),
            13 => Some(Self::SymLink),
            14 => Some(Self::MkDir),
            15 => Some(Self::RmDir),
            16 => Some(Self::ReadDir),
            17 => Some(Self::StatFs),
            _ => None,
        }
    }
}

/// Distinct procedures have distinct wire numbers, so `from_u32` names the
/// one procedure with the number it is given.
pub proof fn lemma_proc_codes_distinct(a: NfsProc, b: NfsProc)
    ensures
        a.spec_code() == b.spec_code() ==> a == b,
{
}

} // verus!
