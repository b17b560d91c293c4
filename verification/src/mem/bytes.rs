//! Reading and changing parts of a long row of bytes.
use vstd::prelude::*;

verus! {

/// `count` bytes that are all zero.
pub open spec fn zeros(count: int) -> Seq<u8> {
    Seq::new(count as nat, |i: int| 0u8)
}

/// `bytes` with `data` in place of what stood at `at`.
pub open spec fn splice(bytes: Seq<u8>, at: int, data: Seq<u8>) -> Seq<u8> {
    Seq::new(
        bytes.len(),
        |i: int|
            if at <= i < at + data.len() {
                data[i - at]
            } else {
                bytes[i]
            },
    )
}

/// What was put in place is found there, and nothing else has changed.
pub proof fn splice_reads_back(bytes: Seq<u8>, at: int, data: Seq<u8>)
    requires
        0 <= at,
        at + data.len() <= bytes.len(),
    ensures
        splice(bytes, at, data).len() == bytes.len(),
        splice(bytes, at, data).subrange(at, at + data.len()) == data,
        forall|start: int, end: int|
            0 <= start <= end <= bytes.len() && (end <= at || at + data.len() <= start)
                ==> #[trigger] splice(bytes, at, data).subrange(start, end) == bytes.subrange(
                start,
                end,
            ),
{
    let after = splice(bytes, at, data);
    assert(after.subrange(at, at + data.len()) =~= data);
    assert forall|start: int, end: int|
        0 <= start <= end <= bytes.len() && (end <= at || at + data.len() <= start) implies
        #[trigger] after.subrange(start, end) == bytes.subrange(start, end) by {
        assert(after.subrange(start, end) =~= bytes.subrange(start, end));
    }
}

/// Puts `data` in place at `at`.
pub fn store(bytes: &mut Vec<u8>, at: usize, data: &[u8])
    requires
        at + data@.len() <= old(bytes)@.len(),
    ensures
        final(bytes)@ == splice(old(bytes)@, at as int, data@),
{
    let len: usize = bytes.len();
    let count: usize = data.len();
    let mut i: usize = 0;
    while i < count
        invariant
            i <= count,
            count == data@.len(),
            at + count <= old(bytes)@.len(),
            bytes@.len() == old(bytes)@.len(),
            len == bytes@.len(),
            forall|k: int|
                0 <= k < bytes@.len() ==> #[trigger] bytes@[k] == if at <= k < at + i {
                    data@[k - at]
                } else {
                    old(bytes)@[k]
                },
        decreases count - i,
    {
        bytes[at + i] = data[i];
        i = i + 1;
    }
    assert(bytes@ =~= splice(old(bytes)@, at as int, data@));
}

/// Sets `count` bytes to zero.
pub fn clear(bytes: &mut Vec<u8>, at: usize, count: usize)
    requires
        at + count <= old(bytes)@.len(),
    ensures
        final(bytes)@ == splice(old(bytes)@, at as int, zeros(count as int)),
{
    let len: usize = bytes.len();
    let mut i: usize = 0;
    while i < count
        invariant
            i <= count,
            at + count <= old(bytes)@.len(),
            bytes@.len() == old(bytes)@.len(),
            len == bytes@.len(),
            forall|k: int|
                0 <= k < bytes@.len() ==> #[trigger] bytes@[k] == if at <= k < at + i {
                    0u8
                } else {
                    old(bytes)@[k]
                },
        decreases count - i,
    {
        bytes[at + i] = 0;
        i = i + 1;
    }
    assert(bytes@ =~= splice(old(bytes)@, at as int, zeros(count as int)));
}

} // verus!
