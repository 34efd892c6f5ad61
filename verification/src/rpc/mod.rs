//! ONC RPC (RFC 1057) over XDR (RFC 1014).

pub mod msg;
pub mod program;
pub mod xdr;
