//! An NFS version 2 server core: XDR encoding and decoding, ONC RPC call and
//! reply messages, record marking, and the NFS procedures' request and reply
//! logic, each stated as a contract and checked by Verus.

pub mod rpc;
pub mod xdr;
pub mod server;
pub mod handle;
pub mod fs;
pub mod nfs;
