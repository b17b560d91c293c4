//! What holds of guest memory across several calls.
use vstd::prelude::*;

use crate::mem::allocator::{block_size, disjoint, in_range};
use crate::mem::bytes::{splice, splice_reads_back, zeros};
use crate::mem::encoding::{le_value, SafeRead, SafeWrite};
use crate::mem::ptr::address_space;
use crate::mem::{host_address, in_guest_memory, Mem};

verus! {

/// What was written is read back, and memory stays sound.
pub proof fn read_after_write<T: SafeRead>(before: Mem, after: Mem, addr: int, value: T)
    requires
        before.wf(),
        0 <= addr < address_space(),
        before.mapped(addr, T::byte_count() as int),
        after.is_write(before, addr, value.encode()),
    ensures
        after.value_at::<T>(addr) == value,
{
    value.lemma_encode();
    value.lemma_decode();
    splice_reads_back(before.contents(), addr, value.encode());
}

/// A write changes no value that lies elsewhere.
pub proof fn write_keeps_the_rest<T: SafeWrite, U: SafeRead>(
    before: Mem,
    after: Mem,
    addr: int,
    value: T,
    other: int,
)
    requires
        before.wf(),
        0 <= addr < address_space(),
        0 <= other < address_space(),
        disjoint(addr, T::byte_count() as int, other, U::byte_count() as int),
        after.is_write(before, addr, value.encode()),
    ensures
        after.value_at::<U>(other) == before.value_at::<U>(other),
{
    value.lemma_encode();
    if before.mapped(addr, T::byte_count() as int) {
        splice_reads_back(before.contents(), addr, value.encode());
    }
}

/// Where there is no memory, as in the null page, reads give zeros, and a
/// write changes nothing that can be read.
pub proof fn missing_memory_is_inert<T: SafeWrite, U: SafeRead>(
    before: Mem,
    after: Mem,
    addr: int,
    value: T,
    other: int,
)
    requires
        before.wf(),
        !before.mapped(addr, T::byte_count() as int),
        after.is_write(before, addr, value.encode()),
    ensures
        after.value_at::<U>(other) == before.value_at::<U>(other),
        !before.mapped(other, U::byte_count() as int) ==> before.value_at::<U>(other) == U::decode(
            zeros(U::byte_count() as int),
        ),
{
    value.lemma_encode();
}

/// Two allocations that are live at the same time have no byte in common, and
/// neither has one in the null segment.
pub proof fn live_allocations_apart(mem: Mem, a: u32, b: u32)
    requires
        mem.wf(),
        mem.blocks().contains_key(a),
        mem.blocks().contains_key(b),
        a != b,
    ensures
        disjoint(a as int, mem.blocks()[a] as int, b as int, mem.blocks()[b] as int),
        mem.mapped(a as int, mem.blocks()[a] as int),
        mem.mapped(b as int, mem.blocks()[b] as int),
{
    live_allocation_mapped(mem, a);
    live_allocation_mapped(mem, b);
    mem.heap().blocks_apart();
}

/// All of a live allocation is memory that is there.
pub proof fn live_allocation_mapped(mem: Mem, base: u32)
    requires
        mem.wf(),
        mem.blocks().contains_key(base),
    ensures
        mem.mapped(base as int, mem.blocks()[base] as int),
        mem.blocks()[base] > 0,
        base != 0,
{
    mem.heap().blocks_apart();
    assert(in_range(base as int, base as int, mem.blocks()[base] as int));
    assert(mem.heap().allocated(base as int));
    if base < mem.null_size() {
        assert(mem.heap().reserved(base as int));
    }
}

/// Freeing an allocation leaves the other allocations as they were before it
/// was made, and the same request can be served again.
pub proof fn free_undoes_allocate(
    before: Mem,
    allocated: Mem,
    released: Mem,
    base: u32,
    size: u32,
)
    requires
        before.wf(),
        allocated.wf(),
        allocated.is_allocation(before, base, size as int),
        allocated.frees(base) ==> released.is_release(allocated, base),
        !allocated.frees(base) ==> released == allocated,
    ensures
        released.blocks() == before.blocks(),
        released.same_but_blocks(before),
        released.heap().has_room(size as int),
        forall|addr: int|
            0 <= addr < address_space() && !in_range(addr, base as int, block_size(size as int))
                ==> #[trigger] released.contents()[addr] == before.contents()[addr],
{
    allocated.heap().blocks_apart();
    assert(allocated.blocks().contains_key(base));
    assert(base % 16 == 0);
    assert(allocated.frees(base));
    assert(released.blocks() =~= before.blocks());
    assert(size <= block_size(size as int));
    assert forall|addr: int|
        in_range(addr, base as int, block_size(size as int)) implies !#[trigger] released.heap().allocated(
    addr) && !released.heap().reserved(addr) by {
        assert(!before.heap().allocated(addr) && !before.heap().reserved(addr));
        if released.heap().allocated(addr) {
            let b = choose|b: u32| #[trigger]
                released.heap().blocks().contains_key(b) && in_range(
                    addr,
                    b as int,
                    released.heap().blocks()[b] as int,
                );
            assert(before.heap().blocks().contains_key(b));
        }
    }
    assert(released.heap().fits(base as int, size as int));
}

/// Where memory is zeroed out on free, a freed block reads as zeros. Where it
/// isn't, a fresh one does.
pub proof fn blocks_come_clean(before: Mem, after: Mem, base: u32, size: u32)
    requires
        before.wf(),
        after.wf(),
    ensures
        before.zeroes_on_free() && before.frees(base) && after.is_release(before, base)
            ==> after.contents().subrange(base as int, base + before.blocks()[base]) == zeros(
            before.blocks()[base] as int,
        ),
        !before.zeroes_on_free() && after.is_allocation(before, base, size as int)
            ==> after.contents().subrange(base as int, base + size) == zeros(size as int),
{
    if before.zeroes_on_free() && before.frees(base) && after.is_release(before, base) {
        before.heap().blocks_apart();
        splice_reads_back(before.contents(), base as int, zeros(before.blocks()[base] as int));
    }
    if !before.zeroes_on_free() && after.is_allocation(before, base, size as int) {
        splice_reads_back(before.contents(), base as int, zeros(size as int));
    }
}

/// A C string that was written is read back, as long as it has no zero byte
/// of its own and is no longer than the limit.
pub proof fn cstr_round_trip(before: Mem, after: Mem, base: u32, text: Seq<u8>, limit: nat)
    requires
        before.wf(),
        after.wf(),
        before.mapped(base as int, text.len() as int + 1),
        after.same_but_blocks(before),
        after.contents() == splice(before.contents(), base as int, text.push(0)),
        !text.contains(0),
        text.len() <= limit,
    ensures
        after.bytes_seen(base as int, after.cstr_len(base as int, limit) as int) == text,
{
    assert forall|i: int| 0 <= i < text.len() implies text[i] != 0 by {
        assert(text.contains(text[i]));
    }
    cstr_len_of_text(before, after, base, text, 0, limit);
    assert(after.bytes_seen(base as int, text.len() as int) =~= text);
}

proof fn cstr_len_of_text(
    before: Mem,
    after: Mem,
    base: u32,
    text: Seq<u8>,
    done: nat,
    limit: nat,
)
    requires
        before.wf(),
        after.wf(),
        before.mapped(base as int, text.len() as int + 1),
        after.same_but_blocks(before),
        after.contents() == splice(before.contents(), base as int, text.push(0)),
        forall|i: int| 0 <= i < text.len() ==> text[i] != 0,
        done <= text.len() <= done + limit,
    ensures
        after.cstr_len(base + done, limit) == text.len() - done,
    decreases limit,
{
    let addr = base + done;
    assert(addr % address_space() == addr);
    let seen = after.contents().subrange(addr, addr + 1);
    assert(seen[0] == text.push(0)[done as int]);
    reveal_with_fuel(le_value, 2);
    assert(after.byte_seen(addr) == text.push(0)[done as int]);
    if limit > 0 && done < text.len() {
        cstr_len_of_text(before, after, base, text, done + 1, (limit - 1) as nat);
    }
}

/// Whether all allocations of `before` are in `after` as they were, what they
/// hold included.
pub open spec fn keeps_allocations(before: Mem, after: Mem) -> bool {
    forall|other: u32| #[trigger]
        before.blocks().contains_key(other) ==> {
            let end = other + before.blocks()[other];
            &&& after.blocks().contains_key(other)
            &&& after.blocks()[other] == before.blocks()[other]
            &&& after.contents().subrange(other as int, end) == before.contents().subrange(
                other as int,
                end,
            )
        }
}

/// What is written to a block as it is allocated is in no other block.
proof fn lemma_keeps_allocations(before: Mem, after: Mem, base: u32, data: Seq<u8>)
    requires
        before.wf(),
        after.wf(),
        after.gains_block(before, base, data.len() as int),
        after.contents() == splice(before.contents(), base as int, data),
    ensures
        keeps_allocations(before, after),
{
    before.lemma_fits_mapped(base as int, data.len() as int);
    after.heap().blocks_apart();
    assert(after.blocks().contains_key(base));
    assert forall|other: u32| #[trigger] before.blocks().contains_key(other) implies {
        let end = other + before.blocks()[other];
        &&& after.blocks().contains_key(other)
        &&& after.blocks()[other] == before.blocks()[other]
        &&& after.contents().subrange(other as int, end) == before.contents().subrange(
            other as int,
            end,
        )
    } by {
        let end = other + before.blocks()[other];
        assert(after.blocks().contains_key(other));
        assert(disjoint(
            base as int,
            after.blocks()[base] as int,
            other as int,
            after.blocks()[other] as int,
        ));
        assert(after.contents().subrange(other as int, end) =~= before.contents().subrange(
            other as int,
            end,
        ));
    }
}

/// A value that was allocated and written is read back. Its block is new and
/// large enough, and all earlier allocations hold what they held.
pub proof fn allocated_value_reads_back<T: SafeRead>(
    before: Mem,
    after: Mem,
    base: u32,
    value: T,
)
    requires
        before.wf(),
        after.wf(),
        after.gains_block(before, base, T::byte_count() as int),
        after.contents() == splice(before.contents(), base as int, value.encode()),
    ensures
        after.value_at::<T>(base as int) == value,
        !before.blocks().contains_key(base),
        after.blocks().contains_key(base),
        after.size_of_block(base) >= T::byte_count(),
        keeps_allocations(before, after),
{
    value.lemma_encode();
    value.lemma_decode();
    before.lemma_fits_mapped(base as int, T::byte_count() as int);
    splice_reads_back(before.contents(), base as int, value.encode());
    lemma_keeps_allocations(before, after, base, value.encode());
}

/// A C string that was allocated and written is read back, as long as it has no
/// zero byte of its own and is no longer than the limit, and a zero byte
/// follows it. Its block is new and large enough, and all earlier allocations
/// hold what they held.
pub proof fn allocated_cstr_reads_back(
    before: Mem,
    after: Mem,
    base: u32,
    text: Seq<u8>,
    limit: nat,
)
    requires
        before.wf(),
        after.wf(),
        after.gains_block(before, base, text.len() as int + 1),
        after.contents() == splice(before.contents(), base as int, text.push(0)),
        !text.contains(0),
        text.len() <= limit,
    ensures
        after.bytes_seen(base as int, after.cstr_len(base as int, limit) as int) == text,
        after.value_at::<u8>(base + text.len()) == 0,
        !before.blocks().contains_key(base),
        after.blocks().contains_key(base),
        after.size_of_block(base) >= text.len() + 1,
        keeps_allocations(before, after),
{
    before.lemma_fits_mapped(base as int, text.len() as int + 1);
    cstr_round_trip(before, after, base, text, limit);
    lemma_keeps_allocations(before, after, base, text.push(0));
    let end = base + text.len();
    reveal_with_fuel(le_value, 2);
    assert(after.contents().subrange(end, end + 1)[0] == text.push(0)[text.len() as int]);
}

/// A C string is the longest run of bytes without a zero byte that starts at
/// its address and keeps to the limit: it ends before the first zero byte, or
/// at the limit.
pub proof fn cstr_is_longest_run(mem: Mem, addr: int, limit: nat)
    requires
        mem.wf(),
        mem.null_size() <= addr,
        addr + limit <= address_space(),
    ensures
        ({
            let text = mem.bytes_seen(addr, mem.cstr_len(addr, limit) as int);
            &&& text.len() == mem.cstr_len(addr, limit)
            &&& text.len() <= limit
            &&& forall|i: int|
                0 <= i < text.len() ==> #[trigger] text[i] == mem.contents()[addr + i] && text[i]
                    != 0
            &&& text.len() < limit ==> mem.contents()[addr + text.len()] == 0
        }),
{
    cstr_len_is_exact(mem, addr, limit);
}

proof fn cstr_len_is_exact(mem: Mem, addr: int, limit: nat)
    requires
        mem.wf(),
        mem.null_size() <= addr,
        addr + limit <= address_space(),
    ensures
        mem.cstr_len(addr, limit) <= limit,
        forall|at: int|
            addr <= at < addr + mem.cstr_len(addr, limit) ==> #[trigger] mem.contents()[at] != 0,
        mem.cstr_len(addr, limit) < limit ==> mem.contents()[addr + mem.cstr_len(addr, limit)] == 0,
    decreases limit,
{
    if limit > 0 {
        assert(addr % address_space() == addr);
        reveal_with_fuel(le_value, 2);
        assert(mem.byte_seen(addr) == mem.contents().subrange(addr, addr + 1)[0]);
        cstr_len_is_exact(mem, addr + 1, (limit - 1) as nat);
    }
}

/// Unchecked access gets at guest memory itself, even in the null segment:
/// the host addresses of all its bytes are those of locations in guest memory
/// and lead back to the guest addresses, and what is there is what is read.
/// Outside of the null segment, checked access reads the same.
pub proof fn unchecked_access_is_real(
    mem: Mem,
    memory_start: int,
    addr: u32,
    count: int,
    guest: u32,
)
    requires
        mem.wf(),
        0 <= count,
        addr + count <= address_space(),
    ensures
        ({
            let bytes = mem.bytes_unchecked(addr as int, count);
            let host_ptr = host_address(memory_start, addr as int);
            &&& in_guest_memory(memory_start, host_ptr)
            &&& host_address(memory_start, guest as int) == host_ptr <==> guest == addr
            &&& bytes.len() == count
            &&& forall|i: int|
                0 <= i < count ==> in_guest_memory(memory_start, host_ptr + i)
                    && #[trigger] bytes[i] == mem.contents()[host_ptr + i - memory_start]
            &&& addr >= mem.null_size() ==> bytes == mem.bytes_seen(addr as int, count)
        }),
{
}

} // verus!
