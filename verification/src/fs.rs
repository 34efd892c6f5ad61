//! File handles: the leading bytes of a path, zero-padded to 32 bytes.

use vstd::prelude::*;

verus! {

/// The size of an NFS version 2 file handle.
pub const FH_SIZE: usize = 32;

/// The handle of `path`: its first 32 bytes, zero-padded.
pub open spec fn handle_of(path: Seq<u8>) -> Seq<u8> {
    Seq::new(32, |i: int| if i < path.len() { path[i] } else { 0u8 })
}

/// The index of the first zero byte of `h` at or after `i`, or its length.
pub open spec fn zero_index(h: Seq<u8>, i: nat) -> nat
    decreases h.len() - i,
{
    if i >= h.len() {
        h.len()
    } else if h[i as int] == 0 {
        i
    } else {
        zero_index(h, i + 1)
    }
}

/// The path a handle names: its bytes up to the first zero.
pub open spec fn path_of(h: Seq<u8>) -> Seq<u8> {
    h.take(zero_index(h, 0) as int)
}

/// The handle of `path`: its first 32 bytes, zero-padded.
pub fn path_to_handle(path: &[u8]) -> (h: [u8; 32])
    ensures
        h@ == handle_of(path@),
{
    let mut handle = [0u8; 32];
    let len = if path.len() < FH_SIZE { path.len() } else { FH_SIZE };
    let mut i: usize = 0;
    while i < len
        invariant
            len <= 32,
            len <= path@.len(),
            len == path@.len() || len == 32,
            i <= len,
            handle@.len() == 32,
            forall|j: int| 0 <= j < i ==> handle@[j] == path@[j],
            forall|j: int| i <= j < 32 ==> handle@[j] == 0,
        decreases len - i,
    {
        handle[i] = path[i];
        i = i + 1;
    }
    assert(handle@ =~= handle_of(path@));
    handle
}

/// The path a handle names: its bytes up to the first zero.
pub fn handle_to_path(handle: [u8; 32]) -> (p: Vec<u8>)
    ensures
        p@ == path_of(handle@),
{
    let mut end: usize = 0;
    while end < FH_SIZE && handle[end] != 0
        invariant
            end <= 32,
            handle@.len() == 32,
            zero_index(handle@, end as nat) == zero_index(handle@, 0),
        decreases 32 - end,
    {
        end = end + 1;
    }
    let mut p: Vec<u8> = Vec::new();
    let mut i: usize = 0;
    while i < end
        invariant
            i <= end <= 32,
            handle@.len() == 32,
            p@ == handle@.take(i as int),
        decreases end - i,
    {
        p.push(handle[i]);
        i = i + 1;
        assert(p@ =~= handle@.take(i as int));
    }
    p
}

proof fn lemma_zero_index_of_handle(path: Seq<u8>, i: nat)
    requires
        path.len() <= 32,
        i <= path.len(),
        forall|j: int| 0 <= j < path.len() ==> path[j] != 0,
    ensures
        zero_index(handle_of(path), i) == if path.len() < 32 { path.len() } else { 32 },
    decreases path.len() - i,
{
    if i < path.len() {
        lemma_zero_index_of_handle(path, i + 1);
    }
}

/// A path of at most 32 bytes with no zero byte comes back whole from its
/// handle.
pub proof fn lemma_handle_roundtrip(path: Seq<u8>)
    requires
        path.len() <= 32,
        forall|j: int| 0 <= j < path.len() ==> path[j] != 0,
    ensures
        path_of(handle_of(path)) == path,
{
    lemma_zero_index_of_handle(path, 0);
    assert(path_of(handle_of(path)) =~= path);
}

/// A longer path comes back as its first 32 bytes, if none of them is zero.
pub proof fn lemma_handle_truncates(path: Seq<u8>)
    requires
        path.len() > 32,
        forall|j: int| 0 <= j < 32 ==> path[j] != 0,
    ensures
        path_of(handle_of(path)) == path.take(32),
{
    lemma_zero_index_of_handle(path.take(32), 0);
    assert(handle_of(path) =~= handle_of(path.take(32)));
    assert(path_of(handle_of(path)) =~= path.take(32));
}

} // verus!
