//! What calls on guest memory give back of one another.
use vstd::prelude::*;

use crate::mem::allocator::{block_size, in_range};
use crate::mem::bytes::{splice_reads_back, zeros};
use crate::mem::encoding::{le_bytes, le_value, SafeRead, SafeWrite};
use crate::mem::laws::cstr_is_longest_run;
use crate::mem::ptr::address_space;
use crate::mem::{ConstPtr, ConstVoidPtr, Mem, MutPtr, MutVoidPtr, Ptr};
use vstd::utf8::{decode_utf8, valid_utf8};

verus! {

/// Whether there is memory for all bytes at an address: above the null segment,
/// and not past the end of four gigabytes.
pub open spec fn is_there(mem: Mem, addr: int, count: int) -> bool {
    mem.null_size() <= addr && addr + count <= 0x1_0000_0000
}

/// Whether two ranges share no byte.
pub open spec fn are_apart(a: int, a_len: int, b: int, b_len: int) -> bool {
    a + a_len <= b || b + b_len <= a
}

/// Whether one memory is another one with some bytes at an address, and all
/// other bytes and everything else as they were.
pub open spec fn is_with(after: Mem, before: Mem, addr: int, bytes: Seq<u8>) -> bool {
    &&& after.contents().len() == before.contents().len()
    &&& forall|i: int|
        0 <= i < bytes.len() ==> after.contents()[addr + i] == #[trigger] bytes[i]
    &&& forall|other: int|
        0 <= other < before.contents().len() && !(addr <= other < addr + bytes.len())
            ==> #[trigger] after.contents()[other] == before.contents()[other]
}

/// A value that is written where there is memory is read back, any other value
/// that shares no byte with it is as it was, and no allocation comes or goes.
pub proof fn written_values_are_read_back<T: SafeRead, U: SafeRead>(
    mem: &mut Mem,
    ptr: MutPtr<T>,
    value: T,
    got: T,
    other: ConstPtr<U>,
    before: U,
    after: U,
)
    requires
        old(mem).wf(),
        call_ensures(Mem::read::<U, false>, (old(mem), other), before),
        call_ensures(Mem::write::<T>, (mem, ptr, value), ()),
        call_ensures(Mem::read::<T, true>, (final(mem), ptr), got),
        call_ensures(Mem::read::<U, false>, (final(mem), other), after),
    ensures
        final(mem).blocks() == old(mem).blocks(),
        final(mem).null_size() == old(mem).null_size(),
        is_there(*old(mem), ptr.bits() as int, T::byte_count() as int) ==> {
            &&& got == value
            &&& is_with(*final(mem), *old(mem), ptr.bits() as int, value.encode())
        },
        are_apart(
            ptr.bits() as int,
            T::byte_count() as int,
            other.bits() as int,
            U::byte_count() as int,
        ) ==> after == before,
        !is_there(*old(mem), ptr.bits() as int, T::byte_count() as int) ==> {
            &&& after == before
            &&& final(mem).contents() == old(mem).contents()
            &&& got == T::decode(zeros(T::byte_count() as int))
        },
{
    value.lemma_encode();
    value.lemma_decode();
    let addr = ptr.bits() as int;
    let bytes = value.encode();
    if is_there(*old(mem), addr, T::byte_count() as int) {
        splice_reads_back(old(mem).contents(), addr, bytes);
        assert(is_with(*final(mem), *old(mem), addr, bytes));
        let at = other.bits() as int;
        let end = at + U::byte_count();
        if are_apart(addr, T::byte_count() as int, at, U::byte_count() as int) && is_there(
            *old(mem),
            at,
            U::byte_count() as int,
        ) {
            assert(final(mem).contents().subrange(at, end) =~= old(mem).contents().subrange(
                at,
                end,
            ));
        }
    }
}

/// Numbers are stored with their lowest byte first.
pub proof fn numbers_are_little_endian(mem: &mut Mem, ptr: MutPtr<u32>, value: u32)
    requires
        old(mem).wf(),
        is_there(*old(mem), ptr.bits() as int, 4),
        call_ensures(Mem::write::<u32>, (mem, ptr, value), ()),
    ensures
        ({
            let addr = ptr.bits() as int;
            let bytes = final(mem).contents();
            &&& bytes[addr] == value % 256
            &&& bytes[addr + 1] == value / 256 % 256
            &&& bytes[addr + 2] == value / 65536 % 256
            &&& bytes[addr + 3] == value / 16777216 % 256
        }),
{
    let addr = ptr.bits() as int;
    let own = value.encode();
    value.lemma_encode();
    reveal_with_fuel(le_bytes, 5);
    assert(own == le_bytes(value as nat, 4));
    let v = value as nat;
    assert(v / 256 / 256 == v / 65536);
    assert(v / 256 / 256 / 256 == v / 16777216);
    assert(final(mem).contents()[addr] == own[0]);
    assert(final(mem).contents()[addr + 1] == own[1]);
    assert(final(mem).contents()[addr + 2] == own[2]);
    assert(final(mem).contents()[addr + 3] == own[3]);
}

/// Bytes are read as they are where there is memory, and as zeros elsewhere, as
/// many as are left of the page. A debugger sees the same, but nothing past the
/// end.
pub proof fn bytes_are_read_as_they_are(
    mem: &Mem,
    ptr: ConstPtr<u8>,
    count: u32,
    bytes: Vec<u8>,
    at: ConstVoidPtr,
    seen: Option<Vec<u8>>,
)
    requires
        mem.wf(),
        call_ensures(Mem::bytes_at::<false>, (mem, ptr, count), bytes),
        at.bits() == ptr.bits(),
        call_ensures(Mem::get_bytes_fallible, (mem, at, count), seen),
    ensures
        ({
            let addr = ptr.bits() as int;
            let left = 4096 - addr % 4096;
            &&& is_there(*mem, addr, count as int) ==> {
                &&& bytes@.len() == count
                &&& forall|i: int|
                    0 <= i < count ==> #[trigger] bytes@[i] == mem.contents()[addr + i]
            }
            &&& !is_there(*mem, addr, count as int) ==> {
                &&& bytes@.len() == if count <= left {
                    count as int
                } else {
                    left
                }
                &&& forall|i: int| 0 <= i < bytes@.len() ==> #[trigger] bytes@[i] == 0
            }
            &&& seen is None <==> addr >= mem.null_size() && addr + count > 0x1_0000_0000
            &&& seen matches Some(seen) ==> seen@ == bytes@
        }),
{
}

/// Moving bytes copies them as they were before, also where the ranges overlap,
/// and changes nothing else. Nothing is moved where the size looks negative, the
/// source is null, or a range would run past the end.
pub proof fn moved_bytes_arrive(mem: &mut Mem, dest: MutVoidPtr, src: ConstVoidPtr, size: u32)
    requires
        old(mem).wf(),
        call_ensures(Mem::memmove, (mem, dest, src, size), ()),
    ensures
        ({
            let to = dest.bits() as int;
            let from = src.bits() as int;
            let trusted = size < 0x8000_0000 && (from != 0 || size == 0) && from + size
                <= 0x1_0000_0000 && to + size <= 0x1_0000_0000;
            &&& final(mem).blocks() == old(mem).blocks()
            &&& trusted ==> is_with(
                *final(mem),
                *old(mem),
                to,
                old(mem).contents().subrange(from, from + size),
            )
            &&& !trusted ==> final(mem).contents() == old(mem).contents()
        }),
{
}

/// How large a block for some bytes is: the next multiple of sixteen, and not
/// zero.
pub open spec fn is_rounded(size: int, block: int) -> bool {
    &&& block >= size
    &&& block > 0
    &&& block % 16 == 0
    &&& block - 16 < size || block == 16
}

/// Whether a block can be at an address: a multiple of sixteen other than zero,
/// with none of its bytes in an allocation or reserved, or past the end.
pub open spec fn has_place(mem: Mem, base: int, block: int) -> bool {
    &&& base >= 16
    &&& base % 16 == 0
    &&& base + block <= 0x1_0000_0000
    &&& forall|addr: int|
        base <= addr < base + block ==> !#[trigger] mem.heap().reserved(addr) && !is_taken(mem, addr)
}

/// Whether an address is in an allocation.
pub open spec fn is_taken(mem: Mem, addr: int) -> bool {
    exists|base: u32| #[trigger]
        mem.blocks().contains_key(base) && base <= addr < base + mem.blocks()[base]
}

proof fn lemma_place(mem: Mem, base: int, size: int)
    requires
        size >= 0,
    ensures
        is_rounded(size, block_size(size)),
        mem.heap().fits(base, size) == has_place(mem, base, block_size(size)),
{
    let block = block_size(size);
    assert forall|addr: int| #[trigger] mem.heap().allocated(addr) == is_taken(mem, addr) by {
        if is_taken(mem, addr) {
            let b = choose|b: u32| #[trigger]
                mem.blocks().contains_key(b) && b <= addr < b + mem.blocks()[b];
            assert(mem.heap().blocks().contains_key(b) && in_range(
                addr,
                b as int,
                mem.heap().blocks()[b] as int,
            ));
        }
        if mem.heap().allocated(addr) {
            let b = choose|b: u32| #[trigger]
                mem.heap().blocks().contains_key(b) && in_range(
                    addr,
                    b as int,
                    mem.heap().blocks()[b] as int,
                );
            assert(mem.blocks().contains_key(b));
        }
    }
    if mem.heap().fits(base, size) {
        assert forall|addr: int| base <= addr < base + block implies !#[trigger] mem.heap().reserved(
            addr,
        ) && !is_taken(mem, addr) by {
            assert(in_range(addr, base, block));
            assert(!mem.heap().allocated(addr));
        }
    }
    if has_place(mem, base, block) {
        assert forall|addr: int| in_range(addr, base, block) implies !#[trigger] mem.heap().allocated(
            addr,
        ) && !mem.heap().reserved(addr) by {
            assert(!mem.heap().reserved(addr));
            assert(mem.heap().allocated(addr) == is_taken(mem, addr));
        }
    }
}

/// Whether a new allocation was made: at the lowest place for it, with all other
/// allocations as they were.
pub open spec fn is_new_block(before: Mem, after: Mem, base: u32, size: int) -> bool {
    &&& after.blocks().contains_key(base)
    &&& !before.blocks().contains_key(base)
    &&& is_rounded(size, after.blocks()[base] as int)
    &&& has_place(before, base as int, after.blocks()[base] as int)
    &&& forall|lower: int|
        lower < base ==> !#[trigger] has_place(before, lower, after.blocks()[base] as int)
    &&& forall|other: u32|
        other != base ==> (#[trigger] after.blocks().contains_key(other)
            <==> before.blocks().contains_key(other))
    &&& forall|other: u32|
        other != base && #[trigger] before.blocks().contains_key(other) ==> after.blocks()[other]
            == before.blocks()[other]
}

proof fn lemma_new_block(before: Mem, after: Mem, base: u32, size: int)
    requires
        size >= 0,
        after.gains_block(before, base, size),
    ensures
        is_new_block(before, after, base, size),
{
    lemma_place(before, base as int, size);
    assert forall|lower: int| lower < base implies !#[trigger] has_place(
        before,
        lower,
        block_size(size),
    ) by {
        lemma_place(before, lower, size);
        assert(!before.heap().fits(lower, size));
    }
}

/// An allocation is a new block in the lowest place that is large enough: it
/// shares no byte with another allocation or with reserved memory. What other
/// allocations hold stays. A block that is to be clear holds zeros.
pub proof fn allocations_are_new_and_lowest(
    plain: &mut Mem,
    clear: &mut Mem,
    size: u32,
    first: MutVoidPtr,
    second: MutVoidPtr,
)
    requires
        old(plain).wf(),
        old(clear).wf(),
        call_ensures(Mem::allocate, (plain, size), first),
        call_ensures(Mem::calloc, (clear, size), second),
    ensures
        first.bits() != 0,
        second.bits() != 0,
        is_new_block(*old(plain), *final(plain), first.bits(), size as int),
        is_new_block(*old(clear), *final(clear), second.bits(), size as int),
        is_with(
            *final(clear),
            *old(clear),
            second.bits() as int,
            Seq::new(size as nat, |i: int| 0u8),
        ),
        forall|addr: int|
            0 <= addr < 0x1_0000_0000 && !(first.bits() <= addr < first.bits() + size)
                ==> #[trigger] final(plain).contents()[addr] == old(plain).contents()[addr],
        !old(plain).zeroes_on_free() ==> forall|addr: int|
            first.bits() <= addr < first.bits() + size ==> #[trigger] final(plain).contents()[addr]
                == 0,
{
    lemma_new_block(*old(plain), *final(plain), first.bits(), size as int);
    lemma_new_block(*old(clear), *final(clear), second.bits(), size as int);
    old(clear).lemma_fits_mapped(second.bits() as int, size as int);
    old(plain).lemma_fits_mapped(first.bits() as int, size as int);
    assert(zeros(size as int) =~= Seq::new(size as nat, |i: int| 0u8));
    assert(is_with(
        *final(clear),
        *old(clear),
        second.bits() as int,
        Seq::new(size as nat, |i: int| 0u8),
    ));
}

/// Freeing an allocation ends it, and it alone. Anything that is no allocation
/// is ignored. Where memory is zeroed out on free, the block then holds zeros.
pub proof fn freeing_ends_one_allocation(mem: &mut Mem, ptr: MutVoidPtr)
    requires
        old(mem).wf(),
        call_ensures(Mem::free, (mem, ptr), ()),
    ensures
        ({
            let base = ptr.bits();
            let live = old(mem).blocks();
            &&& !live.contains_key(base) || base == 0 ==> *final(mem) == *old(mem)
            &&& live.contains_key(base) ==> {
                &&& !final(mem).blocks().contains_key(base)
                &&& forall|other: u32|
                    other != base && #[trigger] live.contains_key(other)
                        ==> final(mem).blocks().contains_key(other) && final(mem).blocks()[other]
                        == live[other]
                &&& forall|addr: int|
                    0 <= addr < 0x1_0000_0000 && !(base <= addr < base + live[base])
                        ==> #[trigger] final(mem).contents()[addr] == old(mem).contents()[addr]
                &&& old(mem).zeroes_on_free() ==> forall|addr: int|
                    base <= addr < base + live[base] ==> #[trigger] final(mem).contents()[addr] == 0
            }
        }),
{
    old(mem).heap().blocks_apart();
    let base = ptr.bits();
    if old(mem).blocks().contains_key(base) {
        assert(base % 16 == 0 && base >= 16);
        assert(old(mem).frees(base));
    }
}

/// Making an allocation larger keeps what it holds, and where it has to move
/// the old place is free. One that is large enough stays where it is.
pub proof fn resized_allocations_keep_their_bytes(
    mem: &mut Mem,
    old_ptr: MutVoidPtr,
    size: u32,
    ptr: MutVoidPtr,
)
    requires
        old(mem).wf(),
        old(mem).blocks().contains_key(old_ptr.bits()),
        call_ensures(Mem::realloc, (mem, old_ptr, size), ptr),
    ensures
        ({
            let was = old_ptr.bits();
            let now = ptr.bits();
            let held = old(mem).blocks()[was];
            &&& held >= size ==> now == was && *final(mem) == *old(mem)
            &&& held < size ==> {
                &&& now != was
                &&& !final(mem).blocks().contains_key(was)
                &&& final(mem).blocks().contains_key(now)
                &&& final(mem).blocks()[now] >= size
                &&& !old(mem).blocks().contains_key(now)
                &&& forall|i: int|
                    0 <= i < held ==> #[trigger] final(mem).contents()[now + i]
                        == old(mem).contents()[was + i]
                &&& forall|other: u32|
                    other != was && #[trigger] old(mem).blocks().contains_key(other)
                        ==> final(mem).blocks().contains_key(other)
                        && final(mem).blocks()[other] == old(mem).blocks()[other]
            }
        }),
{
    old(mem).heap().blocks_apart();
    let was = old_ptr.bits();
    let now = ptr.bits();
    let held = old(mem).blocks()[was] as int;
    assert(was >= 16);
    if held < size {
        let a = final(mem).contents().subrange(now as int, now + held);
        let b = old(mem).contents().subrange(was as int, was + held);
        assert(a == b);
        old(mem).lemma_fits_mapped(now as int, size as int);
        assert forall|i: int| 0 <= i < held implies #[trigger] final(mem).contents()[now + i]
            == old(mem).contents()[was + i] by {
            assert(a[i] == b[i]);
        }
    }
}

/// A C string is the longest run without a zero byte within the limit, and as
/// text it is that run if it is valid.
pub proof fn strings_end_at_the_first_zero(
    mem: &Mem,
    ptr: ConstPtr<u8>,
    limit: u32,
    bytes: Vec<u8>,
    text: Result<String, Vec<u8>>,
    whole: Vec<u8>,
)
    requires
        mem.wf(),
        mem.null_size() <= ptr.bits(),
        ptr.bits() + limit <= 0x1_0000_0000,
        call_ensures(Mem::cstr_at_with_max_len::<false>, (mem, ptr, limit), bytes),
        call_ensures(Mem::cstr_at::<false>, (mem, ptr), whole),
        call_ensures(Mem::cstr_at_utf8::<false>, (mem, ptr), text),
    ensures
        bytes@.len() <= limit,
        forall|i: int|
            0 <= i < bytes@.len() ==> #[trigger] bytes@[i] == mem.contents()[ptr.bits() + i]
                && bytes@[i] != 0,
        bytes@.len() < limit ==> mem.contents()[ptr.bits() + bytes@.len()] == 0,
        limit == 65536 ==> whole@ == bytes@,
        match text {
            Ok(text) => valid_utf8(whole@) && text@ == decode_utf8(whole@),
            Err(raw) => !valid_utf8(whole@) && raw@ == whole@,
        },
{
    cstr_is_longest_run(*mem, ptr.bits() as int, limit as nat);
    let seen = mem.bytes_seen(
        ptr.bits() as int,
        mem.cstr_len(ptr.bits() as int, limit as nat) as int,
    );
    assert(seen == bytes@);
    assert forall|i: int| 0 <= i < bytes@.len() implies #[trigger] bytes@[i]
        == mem.contents()[ptr.bits() + i] && bytes@[i] != 0 by {
        assert(seen[i] == bytes@[i]);
    }
}

/// What is allocated and written at once is there: a value is read back, and
/// text is followed by a zero byte.
pub proof fn allocated_and_written_at_once<T: SafeRead>(
    value_mem: &mut Mem,
    text_mem: &mut Mem,
    value: T,
    text: &[u8],
    at: MutPtr<T>,
    start: MutPtr<u8>,
    got: T,
)
    requires
        old(value_mem).wf(),
        old(text_mem).wf(),
        text@.len() < u32::MAX,
        call_ensures(Mem::alloc_and_write::<T>, (value_mem, value), at),
        call_ensures(Mem::read::<T, true>, (final(value_mem), at), got),
        call_ensures(Mem::alloc_and_write_cstr, (text_mem, text), start),
    ensures
        got == value,
        is_new_block(*old(value_mem), *final(value_mem), at.bits(), T::byte_count() as int),
        is_with(*final(value_mem), *old(value_mem), at.bits() as int, value.encode()),
        is_new_block(*old(text_mem), *final(text_mem), start.bits(), text@.len() as int + 1),
        is_with(*final(text_mem), *old(text_mem), start.bits() as int, text@.push(0)),
{
    value.lemma_encode();
    lemma_new_block(*old(value_mem), *final(value_mem), at.bits(), T::byte_count() as int);
    lemma_new_block(*old(text_mem), *final(text_mem), start.bits(), text@.len() as int + 1);
    crate::mem::laws::allocated_value_reads_back(
        *old(value_mem),
        *final(value_mem),
        at.bits(),
        value,
    );
    old(value_mem).lemma_fits_mapped(at.bits() as int, T::byte_count() as int);
    old(text_mem).lemma_fits_mapped(start.bits() as int, text@.len() as int + 1);
}

/// An allocation is known by its base alone, and has a size. Elsewhere there is
/// none.
pub proof fn allocations_are_known_by_their_bases(
    mem: &Mem,
    addr: u32,
    known: bool,
    ptr: ConstVoidPtr,
    size: u32,
)
    requires
        mem.wf(),
        call_ensures(Mem::is_known_allocation, (mem, addr), known),
        ptr.bits() == addr,
        call_ensures(Mem::malloc_size, (mem, ptr), size),
    ensures
        known <==> mem.blocks().contains_key(addr),
        known ==> size == mem.blocks()[addr] && size > 0,
        !known ==> size == 0,
        forall|base: u32| #[trigger]
            mem.blocks().contains_key(base) && base < addr < base + mem.blocks()[base] ==> !known,
{
    mem.heap().blocks_apart();
}

/// The number that bytes make up, the lowest one first.
pub open spec fn weight(bytes: Seq<u8>) -> int
    decreases bytes.len(),
{
    if bytes.len() == 0 {
        0
    } else {
        bytes[0] + 256 * weight(bytes.drop_first())
    }
}

proof fn lemma_weight(bytes: Seq<u8>)
    ensures
        weight(bytes) == le_value(bytes),
    decreases bytes.len(),
{
    if bytes.len() > 0 {
        lemma_weight(bytes.drop_first());
    }
}

/// Values of all types are stored with their lowest byte first, negative
/// numbers in two's complement, truth values as one and zero, and pointers as
/// their addresses.
pub proof fn values_are_stored_by_weight<T, const MUT: bool>(
    b: bool,
    x1: (u8, i8),
    x2: (u16, i16),
    x4: (u32, i32),
    x8: (u64, i64),
    ptr: Ptr<T, MUT>,
)
    ensures
        b.encode() =~= seq![
            if b {
                1u8
            } else {
                0
            },
        ],
        x1.0.encode().len() == 1 && weight(x1.0.encode()) == x1.0,
        x1.1.encode().len() == 1 && weight(x1.1.encode()) == x1.1 as int % 0x100,
        x2.0.encode().len() == 2 && weight(x2.0.encode()) == x2.0,
        x2.1.encode().len() == 2 && weight(x2.1.encode()) == x2.1 as int % 0x1_0000,
        x4.0.encode().len() == 4 && weight(x4.0.encode()) == x4.0,
        x4.1.encode().len() == 4 && weight(x4.1.encode()) == x4.1 as int % 0x1_0000_0000,
        x8.0.encode().len() == 8 && weight(x8.0.encode()) == x8.0,
        x8.1.encode().len() == 8 && weight(x8.1.encode()) == x8.1 as int
            % 0x1_0000_0000_0000_0000,
        ptr.encode().len() == 4 && weight(ptr.encode()) == ptr.bits(),
{
    crate::mem::encoding::byte_range_of_words();
    lemma_stored(x1.0 as int, 1);
    lemma_stored(x1.1 as int % 0x100, 1);
    lemma_stored(x2.0 as int, 2);
    lemma_stored(x2.1 as int % 0x1_0000, 2);
    lemma_stored(x4.0 as int, 4);
    lemma_stored(x4.1 as int % 0x1_0000_0000, 4);
    lemma_stored(x8.0 as int, 8);
    lemma_stored(x8.1 as int % 0x1_0000_0000_0000_0000, 8);
    lemma_stored(ptr.bits() as int, 4);
}

proof fn lemma_stored(value: int, count: nat)
    requires
        0 <= value < crate::mem::encoding::byte_range(count),
    ensures
        le_bytes(value as nat, count).len() == count,
        weight(le_bytes(value as nat, count)) == value,
{
    crate::mem::encoding::le_bytes_value(value as nat, count);
    lemma_weight(le_bytes(value as nat, count));
    vstd::arithmetic::div_mod::lemma_small_mod(
        value as nat,
        crate::mem::encoding::byte_range(count),
    );
}

/// Moving a pointer by some elements moves its address by so many times their
/// size, around the end of the address space.
pub proof fn pointers_move_by_elements<T, const MUT: bool>(
    ptr: Ptr<T, MUT>,
    count: u32,
    after: Ptr<T, MUT>,
    before: Ptr<T, MUT>,
)
    requires
        call_ensures(<Ptr<T, MUT> as std::ops::Add<u32>>::add, (ptr, count), after),
        call_ensures(<Ptr<T, MUT> as std::ops::Sub<u32>>::sub, (ptr, count), before),
    ensures
        after.bits() == (ptr.bits() + count * vstd::layout::size_of::<T>()) % 0x1_0000_0000,
        before.bits() == (ptr.bits() - count * vstd::layout::size_of::<T>()) % 0x1_0000_0000,
{
    broadcast use Ptr::lemma_at;

    let size = vstd::layout::size_of::<T>() as int;
    assert(-(count as int) * size == -(count * size)) by (nonlinear_arith);
}

/// A wide string has one character for each word before the first zero word,
/// the character with that code, or the replacement character where there is
/// none.
pub proof fn wide_strings_are_decoded(mem: &Mem, ptr: ConstPtr<u32>, text: String, i: int)
    requires
        mem.wf(),
        mem.null_size() <= ptr.bits(),
        ptr.bits() + 4 * 16384 <= 0x1_0000_0000,
        call_ensures(Mem::wcstr_at::<false>, (mem, ptr), text),
    ensures
        text@.len() <= 16384,
        text@.len() < 16384 ==> word_at(*mem, ptr.bits() + 4 * text@.len()) == 0,
        0 <= i < text@.len() ==> {
            let code = word_at(*mem, ptr.bits() + 4 * i);
            &&& code != 0
            &&& code < 0xd800 || 0xe000 <= code <= 0x10_ffff ==> text@[i] as u32 == code
            &&& 0xd800 <= code < 0xe000 || code > 0x10_ffff ==> text@[i] as u32 == 0xfffd
        },
{
    let addr = ptr.bits() as int;
    lemma_wide(*mem, addr, 16384);
    let len = mem.wcstr_len(addr, 16384);
    let bytes = mem.bytes_seen(addr, 4 * len as int);
    assert(bytes.len() == 4 * len);
    assert(text@.len() == len);
    if 0 <= i < len {
        let own = bytes.subrange(4 * i, 4 * i + 4);
        assert(own =~= mem.contents().subrange(addr + 4 * i, addr + 4 * i + 4));
        assert(crate::mem::is_wide_char(text@[i], own));
        assert(word_at(*mem, addr + 4 * i) != 0);
        lemma_weight(own);
        crate::mem::encoding::le_value_bytes(own);
        crate::mem::encoding::byte_range_of_words();
        let code = u32::decode(own);
        assert(code as int == word_at(*mem, addr + 4 * i));
        assert(vstd::utf8::is_scalar(code) <==> code < 0xd800 || 0xe000 <= code <= 0x10_ffff);
        assert(crate::mem::REPLACEMENT_CHARACTER as u32 == 0xfffd);
    }
}

/// The number that the four bytes at an address make up.
pub open spec fn word_at(mem: Mem, addr: int) -> int {
    weight(mem.contents().subrange(addr, addr + 4))
}

proof fn lemma_wide(mem: Mem, addr: int, limit: nat)
    requires
        mem.wf(),
        mem.null_size() <= addr,
        addr + 4 * limit <= address_space(),
    ensures
        mem.wcstr_len(addr, limit) <= limit,
        mem.wcstr_len(addr, limit) < limit ==> word_at(
            mem,
            addr + 4 * mem.wcstr_len(addr, limit),
        ) == 0,
        forall|i: int|
            0 <= i < mem.wcstr_len(addr, limit) ==> #[trigger] word_at(mem, addr + 4 * i) != 0,
    decreases limit,
{
    if limit > 0 {
        assert(addr % address_space() == addr);
        lemma_weight(mem.contents().subrange(addr, addr + 4));
        crate::mem::encoding::le_value_bytes(mem.contents().subrange(addr, addr + 4));
        crate::mem::encoding::byte_range_of_words();
        assert(mem.value_at::<u32>(addr) as int == word_at(mem, addr));
        lemma_wide(mem, addr + 4, (limit - 1) as nat);
        let len = mem.wcstr_len(addr, limit);
        assert forall|i: int| 0 <= i < len implies #[trigger] word_at(mem, addr + 4 * i) != 0 by {
            if i > 0 {
                assert(addr + 4 * i == (addr + 4) + 4 * (i - 1));
                assert(word_at(mem, (addr + 4) + 4 * (i - 1)) != 0);
            }
        }
    }
}

/// A request can be served exactly if there is a place for it somewhere, and a
/// region can be reserved exactly if none of it is in use.
pub proof fn room_is_found_where_there_is_any(
    mem: &Mem,
    size: u32,
    block: int,
    yes: bool,
    base: u32,
    len: u32,
    free: bool,
)
    requires
        mem.wf(),
        is_rounded(size as int, block),
        call_ensures(Mem::can_allocate, (mem, size), yes),
        call_ensures(Mem::can_reserve, (mem, base, len), free),
    ensures
        yes <==> exists|at: int| #[trigger] has_place(*mem, at, block),
        free <==> len == 0 || is_unused(*mem, base as int, len as int),
{
    lemma_place(*mem, 0, size as int);
    assert(block == block_size(size as int));
    if yes {
        let at = choose|at: int| #[trigger] mem.heap().fits(at, size as int);
        lemma_place(*mem, at, size as int);
        assert(has_place(*mem, at, block));
    }
    if exists|at: int| #[trigger] has_place(*mem, at, block) {
        let at = choose|at: int| #[trigger] has_place(*mem, at, block);
        lemma_place(*mem, at, size as int);
        assert(mem.heap().fits(at, size as int));
    }
    lemma_unused(*mem, base as int, len as int);
}

/// Whether a region is in the address space, and none of it is reserved or in
/// an allocation.
pub open spec fn is_unused(mem: Mem, base: int, len: int) -> bool {
    &&& base + len <= 0x1_0000_0000
    &&& forall|addr: int|
        base <= addr < base + len ==> !#[trigger] mem.heap().reserved(addr) && !is_taken(mem, addr)
}

proof fn lemma_unused(mem: Mem, base: int, len: int)
    requires
        0 <= base,
    ensures
        mem.heap().is_free(base, len) == is_unused(mem, base, len),
{
    if mem.heap().is_free(base, len) {
        assert forall|addr: int| base <= addr < base + len implies !#[trigger] mem.heap().reserved(
            addr,
        ) && !is_taken(mem, addr) by {
            lemma_taken(mem, addr);
            assert(in_range(addr, base, len));
            assert(!mem.heap().allocated(addr));
        }
        assert(base + len <= address_space());
        assert(is_unused(mem, base, len));
    }
    if is_unused(mem, base, len) {
        assert forall|addr: int| in_range(addr, base, len) implies !#[trigger] mem.heap().allocated(
            addr,
        ) && !mem.heap().reserved(addr) by {
            lemma_taken(mem, addr);
            assert(!mem.heap().reserved(addr));
        }
        assert(base + len <= address_space());
        assert(mem.heap().is_free(base, len));
    }
}

proof fn lemma_taken(mem: Mem, addr: int)
    ensures
        mem.heap().allocated(addr) == is_taken(mem, addr),
{
    if is_taken(mem, addr) {
        let b = choose|b: u32| #[trigger]
            mem.blocks().contains_key(b) && b <= addr < b + mem.blocks()[b];
        assert(mem.heap().blocks().contains_key(b) && in_range(
            addr,
            b as int,
            mem.heap().blocks()[b] as int,
        ));
    }
    if mem.heap().allocated(addr) {
        let b = choose|b: u32| #[trigger]
            mem.heap().blocks().contains_key(b) && in_range(
                addr,
                b as int,
                mem.heap().blocks()[b] as int,
            );
        assert(mem.blocks().contains_key(b));
    }
}

} // verus!
