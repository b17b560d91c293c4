//! What holds of guest memory whatever was done to it since the start.
use vstd::prelude::*;

use crate::mem::allocator::{disjoint, in_range};
use crate::mem::Mem;

verus! {

/// A call that may change memory, with what it returned.
pub ghost enum MemCall {
    /// [Mem::allocate] or [Mem::calloc] for `size` bytes, or
    /// [Mem::alloc_and_write] or [Mem::alloc_and_write_cstr] of that many bytes.
    Allocate { size: int, base: u32 },
    /// [Mem::free].
    Free { addr: u32 },
    /// [Mem::realloc].
    Realloc { old_base: u32, size: int, base: u32 },
    /// Any other one, which writes or sets memory up.
    Other,
}

impl MemCall {
    /// Whether the call can turn `before` into `after`.
    pub open spec fn leads(self, before: Mem, after: Mem) -> bool {
        &&& after.wf()
        &&& match self {
            MemCall::Allocate { size, base } => after.gains_block(before, base, size),
            MemCall::Free { addr } => if before.frees(addr) {
                after.is_release(before, addr)
            } else {
                after == before
            },
            MemCall::Realloc { old_base, size, base } => if old_base == 0 {
                after.gains_block(before, base, size)
            } else {
                &&& before.blocks().contains_key(old_base)
                &&& if before.blocks()[old_base] >= size {
                    base == old_base && after == before
                } else {
                    after.moves_block(before, old_base, base, size)
                }
            },
            MemCall::Other => {
                &&& after.blocks() == before.blocks()
                &&& forall|addr: int| #[trigger]
                    before.heap().reserved(addr) ==> after.heap().reserved(addr)
            },
        }
    }
}

/// Whether memory can have been in these states one after the other by these
/// calls. At first nothing is allocated, as after [Mem::new].
pub open spec fn is_history(states: Seq<Mem>, calls: Seq<MemCall>) -> bool {
    &&& states.len() == calls.len() + 1
    &&& states[0].wf()
    &&& states[0].blocks() == Map::<u32, u32>::empty()
    &&& forall|i: int|
        0 <= i < calls.len() ==> (#[trigger] calls[i]).leads(states[i], states[i + 1])
}

/// The number of bytes that were asked for at an address, if it was handed out
/// and not freed since, nor moved. Of a block that was to be made smaller or
/// larger without being moved, the largest number.
pub open spec fn asked_for(calls: Seq<MemCall>, addr: u32) -> Option<int>
    decreases calls.len(),
{
    if calls.len() == 0 {
        None
    } else {
        let before = asked_for(calls.drop_last(), addr);
        match calls.last() {
            MemCall::Allocate { size, base } => if addr == base {
                Some(size)
            } else {
                before
            },
            MemCall::Free { addr: freed } => if addr == freed {
                None
            } else {
                before
            },
            MemCall::Realloc { old_base, size, base } => if addr == base {
                if base == old_base && before is Some && before.unwrap() > size {
                    before
                } else {
                    Some(size)
                }
            } else if addr == old_base {
                None
            } else {
                before
            },
            MemCall::Other => before,
        }
    }
}

/// Whatever was done, exactly those addresses are known allocations that were
/// handed out and not freed or moved since, and each of them is as large as was
/// asked for. Null is none of them, nor is an address inside of one.
pub proof fn known_iff_handed_out(states: Seq<Mem>, calls: Seq<MemCall>, addr: u32)
    requires
        is_history(states, calls),
    ensures
        ({
            let mem = states.last();
            &&& mem.wf()
            &&& mem.blocks().contains_key(addr) <==> asked_for(calls, addr) is Some
            &&& asked_for(calls, addr) matches Some(size) ==> mem.blocks()[addr] >= size
            &&& addr == 0 ==> !mem.blocks().contains_key(addr)
            &&& forall|base: u32| #[trigger]
                mem.blocks().contains_key(base) && base < addr < base + mem.blocks()[base]
                    ==> !mem.blocks().contains_key(addr)
        }),
    decreases calls.len(),
{
    let mem = states.last();
    if calls.len() > 0 {
        let fewer = calls.drop_last();
        let earlier = states.drop_last();
        assert forall|i: int| 0 <= i < fewer.len() implies (#[trigger] fewer[i]).leads(
            earlier[i],
            earlier[i + 1],
        ) by {
            assert(calls[i].leads(states[i], states[i + 1]));
        }
        known_iff_handed_out(earlier, fewer, addr);
        let before = earlier.last();
        let call = calls.last();
        assert(calls[calls.len() - 1].leads(states[calls.len() - 1], states[calls.len() as int]));
        assert(call.leads(before, mem));
        before.heap().blocks_apart();
    }
    mem.heap().blocks_apart();
}

/// Whatever was done, the size of a block is at least what was asked for, for as
/// long as the block lives, and 0 is the size where there is no block.
pub proof fn malloc_size_covers_request(states: Seq<Mem>, calls: Seq<MemCall>, addr: u32)
    requires
        is_history(states, calls),
    ensures
        match asked_for(calls, addr) {
            Some(size) => {
                &&& states.last().size_of_block(addr) >= size
                &&& states.last().size_of_block(addr) > 0
            },
            None => states.last().size_of_block(addr) == 0,
        },
{
    known_iff_handed_out(states, calls, addr);
    states.last().heap().blocks_apart();
}

/// Whatever was done, what was once reserved stays so.
pub proof fn reserved_for_good(
    states: Seq<Mem>,
    calls: Seq<MemCall>,
    then: int,
    now: int,
    addr: int,
)
    requires
        is_history(states, calls),
        0 <= then <= now < states.len(),
        states[then].heap().reserved(addr),
    ensures
        states[now].wf(),
        states[now].heap().reserved(addr),
    decreases now - then,
{
    if now > 0 {
        assert(calls[now - 1].leads(states[now - 1], states[now]));
    }
    if now > then {
        reserved_for_good(states, calls, then, now - 1, addr);
    }
}

/// Whatever is done after a region was reserved, no allocation is ever in it:
/// neither one that is live at some later time, nor what a later call hands
/// out.
pub proof fn reserved_is_never_handed_out(
    states: Seq<Mem>,
    calls: Seq<MemCall>,
    then: int,
    start: int,
    len: int,
)
    requires
        is_history(states, calls),
        0 <= then < states.len(),
        len > 0,
        forall|addr: int|
            in_range(addr, start, len) ==> #[trigger] states[then].heap().reserved(addr),
    ensures
        forall|now: int, base: u32|
            then <= now < states.len() && #[trigger] states[now].blocks().contains_key(base)
                ==> disjoint(base as int, states[now].blocks()[base] as int, start, len),
        forall|call: int|
            then <= call < calls.len() ==> match #[trigger] calls[call] {
                MemCall::Allocate { size, base } => disjoint(base as int, size, start, len),
                MemCall::Realloc { size, base, .. } => disjoint(base as int, size, start, len),
                _ => true,
            },
{
    assert forall|now: int, base: u32|
        then <= now < states.len() && #[trigger] states[now].blocks().contains_key(
            base,
        ) implies disjoint(base as int, states[now].blocks()[base] as int, start, len) by {
        lemma_apart_from_reserved(states, calls, then, now, base, start, len);
    }
    assert forall|call: int| then <= call < calls.len() implies match #[trigger] calls[call] {
        MemCall::Allocate { size, base } => disjoint(base as int, size, start, len),
        MemCall::Realloc { size, base, .. } => disjoint(base as int, size, start, len),
        _ => true,
    } by {
        let after = states[call + 1];
        assert(calls[call].leads(states[call], after));
        match calls[call] {
            MemCall::Allocate { size, base } | MemCall::Realloc { size, base, .. } => {
                assert(after.blocks().contains_key(base));
                assert(after.blocks()[base] >= size);
            },
            _ => {},
        }
    }
}

proof fn lemma_apart_from_reserved(
    states: Seq<Mem>,
    calls: Seq<MemCall>,
    then: int,
    now: int,
    base: u32,
    start: int,
    len: int,
)
    requires
        is_history(states, calls),
        0 <= then <= now < states.len(),
        len > 0,
        forall|addr: int|
            in_range(addr, start, len) ==> #[trigger] states[then].heap().reserved(addr),
        states[now].blocks().contains_key(base),
    ensures
        disjoint(base as int, states[now].blocks()[base] as int, start, len),
{
    let heap = states[now].heap();
    let size = states[now].blocks()[base] as int;
    if !disjoint(base as int, size, start, len) {
        let shared = if base <= start {
            start
        } else {
            base as int
        };
        assert(in_range(shared, start, len));
        reserved_for_good(states, calls, then, now, shared);
        heap.blocks_apart();
        assert(in_range(shared, base as int, size));
        assert(heap.allocated(shared));
    }
}

} // verus!
