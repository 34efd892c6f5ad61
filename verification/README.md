# nfsv2

The core of a small NFS version 2 server (RFC 1094) over ONC RPC (RFC 1057)
and XDR (RFC 1014), written in Verus. Every function in `src/` carries a
contract that Verus checks; `app/` is the UDP server around it.

- `src/rpc/xdr.rs`: the XDR cursor and buffer, with round-trip laws.
- `src/xdr.rs`: whole-value `Encode`/`Decode` codecs.
- `src/rpc/msg.rs`: call and reply messages, credentials, record marking.
- `src/rpc/program.rs`: the `RpcProgram` trait and the NFS numbers.
- `src/server.rs`: the server's call-header parser, routing and replies.
- `src/handle.rs`: a program that answers only the null procedure.
- `src/fs.rs`: file handles made from paths.
- `src/nfs.rs`: GETATTR, LOOKUP, READ and READDIR as a state machine that
  asks the caller for each file system operation.
- `app/main.rs`: sockets, the file system and logging.
