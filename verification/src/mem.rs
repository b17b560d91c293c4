//! Types related to the handling of virtual memory, called "guest memory".
//!
//! The virtual address space is 32-bit, and no attempt is made to protect
//! the parts of it from each other, apart from the null segment at its low
//! end. Everything in it is little-endian.
use vstd::prelude::*;

pub mod access_laws;
pub mod allocator;
pub mod bytes;
pub mod encoding;
pub mod history;
pub mod laws;
pub mod null_log;
pub mod ptr;
pub mod store;

pub use crate::mem::encoding::{SafeRead, SafeWrite};
pub use crate::mem::ptr::{
    guest_size_of, ConstPtr, ConstVoidPtr, GuestISize, GuestUSize, GuestVoid, MutPtr, MutVoidPtr,
    NonNullPtr, Ptr, VAddr,
};

use crate::mem::allocator::{block_size, disjoint, in_range, Allocator};
use crate::mem::bytes::{splice, store, zeros};
use crate::mem::history::MemCall;
use crate::mem::ptr::{address_space, element_address};
use crate::mem::store::Store;

use vstd::utf8::{decode_utf8, is_scalar, valid_utf8};

verus! {

/// Longest C string that is read before the terminator is taken for missing.
pub const MAX_CSTR_LEN: u32 = 65536;

/// Most characters of a wide string that are read before the terminator is
/// taken for missing.
pub const MAX_WCSTR_LEN: u32 = 16384;

/// What stands for a code that is no character.
pub const REPLACEMENT_CHARACTER: char = '\u{FFFD}';

pub const PAGE_SIZE: GuestUSize = 4096;

pub const PAGE_SIZE_ALIGN_MASK: GuestUSize = 0xfff;

/// The value of the constant `MACH_TASK_SELF`, "task" in ASCII. Some runtimes
/// try to free it.
pub const MACH_TASK_SELF: VAddr = 0x7461_736b;

/// Why memory isn't there.
#[derive(Clone, Copy, Debug, PartialEq, Eq, Structural)]
pub enum MissingMemory {
    /// It starts in the null segment.
    NullSegment,
    /// It runs past the end of the address space.
    PastEnd,
}

/// Why [Mem::memmove] moves nothing.
#[derive(Clone, Copy, Debug, PartialEq, Eq, Structural)]
pub enum MoveProblem {
    /// The size looks like a negative number.
    NegativeSize,
    /// The source is null.
    NullSource,
    /// The source or the destination would run past the end of the address
    /// space.
    PastEnd,
}

/// The type that owns the guest memory and provides accessors for it.
pub struct Mem {
    /// This covers the entire 32-bit virtual address space, but only uses
    /// memory of the host for the parts that are written to.
    ///
    /// iPhone OS devices only had 128MiB or 256MiB of RAM total, with no swap
    /// space, so less than 6.25% of the address space should be used.
    bytes: Store,
    /// The size of the __PAGE_ZERO segment, where pointer accesses are caught
    /// to keep null pointer dereferences away from real memory.
    null_segment_size: VAddr,
    allocator: Allocator,
    /// The flag to control if memory is zeroed out on free (`true`, default)
    /// or on allocation (`false`).
    zero_memory_on_free: bool,
    /// Takes what is written to memory that isn't there.
    null_write_sink: Vec<u8>,
}

impl Mem {
    /// What the address space holds, by address.
    pub closed spec fn contents(self) -> Seq<u8> {
        self.bytes.contents()
    }

    /// Size of the null segment.
    pub closed spec fn null_size(self) -> u32 {
        self.null_segment_size
    }

    /// Which parts of the address space are in use.
    pub closed spec fn heap(self) -> Allocator {
        self.allocator
    }

    /// What was last written to memory that isn't there, by page offset.
    pub closed spec fn sink(self) -> Seq<u8> {
        self.null_write_sink@
    }

    /// Whether the bytes are stored soundly.
    pub closed spec fn storage_wf(self) -> bool {
        self.bytes.wf()
    }

    /// Whether memory is zeroed out on free, rather than on allocation.
    pub closed spec fn zeroes_on_free(self) -> bool {
        self.zero_memory_on_free
    }

    /// The live allocations: the size of each by its base.
    pub open spec fn blocks(self) -> Map<u32, u32> {
        self.heap().blocks()
    }

    /// The address space is whole, and the null segment is out of the
    /// allocator's reach.
    pub open spec fn wf(self) -> bool {
        &&& self.contents().len() == address_space()
        &&& self.storage_wf()
        &&& self.sink().len() == PAGE_SIZE
        &&& self.heap().wf()
        &&& self.null_size() % PAGE_SIZE == 0
        &&& forall|addr: int| 0 <= addr < self.null_size() ==> #[trigger] self.heap().reserved(addr)
    }

    /// Whether the `count` bytes at `addr` are there: above the null segment
    /// and inside the address space. An empty range has to start above the
    /// null segment too.
    pub open spec fn mapped(self, addr: int, count: int) -> bool {
        self.null_size() <= addr && addr + count <= address_space()
    }

    /// Number of bytes that stand in for `count` bytes that aren't there: they
    /// end with the page at the latest.
    pub open spec fn stand_in_len(addr: int, count: int) -> int {
        if count <= PAGE_SIZE - addr % PAGE_SIZE as int {
            count
        } else {
            PAGE_SIZE - addr % PAGE_SIZE as int
        }
    }

    /// What reading `count` bytes at `addr` gives.
    pub open spec fn bytes_seen(self, addr: int, count: int) -> Seq<u8> {
        if self.mapped(addr, count) {
            self.contents().subrange(addr, addr + count)
        } else {
            zeros(Self::stand_in_len(addr, count))
        }
    }

    /// What reading `count` bytes at `addr` gives where the null segment is not
    /// taken into account.
    pub open spec fn bytes_unchecked(self, addr: int, count: int) -> Seq<u8> {
        if addr + count <= address_space() {
            self.contents().subrange(addr, addr + count)
        } else {
            zeros(Self::stand_in_len(addr, count))
        }
    }

    /// Same in all respects but the contents and the sink.
    pub open spec fn same_layout(self, other: Self) -> bool {
        &&& self.null_size() == other.null_size()
        &&& self.heap() == other.heap()
        &&& self.zeroes_on_free() == other.zeroes_on_free()
    }

    /// Writing `data` at `addr` turns `before` into `self`: where the place is
    /// missing, no address changes, and the sink takes what its page holds.
    pub open spec fn is_write(self, before: Self, addr: int, data: Seq<u8>) -> bool {
        &&& self.same_layout(before)
        &&& before.mapped(addr, data.len() as int) ==> {
            &&& self.contents() == splice(before.contents(), addr, data)
            &&& self.sink() == before.sink()
        }
        &&& !before.mapped(addr, data.len() as int) ==> {
            &&& self.contents() == before.contents()
            &&& self.sink() == splice(
                before.sink(),
                addr % PAGE_SIZE as int,
                data.take(Self::stand_in_len(addr, data.len() as int)),
            )
        }
    }

    /// [According to Apple](https://developer.apple.com/library/archive/documentation/Cocoa/Conceptual/Multithreading/CreatingThreads/CreatingThreads.html)
    /// among others, the iPhone OS main thread stack size is 1MiB.
    pub const MAIN_THREAD_STACK_SIZE: GuestUSize = 1024 * 1024;

    /// Address of the lowest byte (not the base) of the main thread's stack.
    ///
    /// The stack is at the top of the virtual address space.
    pub const MAIN_THREAD_STACK_LOW_END: VAddr = 0xfff0_0000;

    /// iPhone OS secondary thread stack size.
    pub const SECONDARY_THREAD_DEFAULT_STACK_SIZE: GuestUSize = 512 * 1024;

    /// Create a fresh instance of guest memory.
    pub fn new() -> (mem: Mem)
        ensures
            mem.wf(),
            mem.contents() == zeros(address_space()),
            mem.sink() == zeros(PAGE_SIZE as int),
            mem.null_size() == 0,
            mem.zeroes_on_free(),
            mem.blocks() == Map::<u32, u32>::empty(),
            forall|addr: int| #[trigger]
                mem.heap().reserved(addr) <==> in_range(
                    addr,
                    Self::MAIN_THREAD_STACK_LOW_END as int,
                    Self::MAIN_THREAD_STACK_SIZE as int,
                ),
    {
        let bytes = Store::new();
        let null_write_sink: Vec<u8> = vec![0u8; PAGE_SIZE as usize];
        let allocator = Allocator::new(
            Self::MAIN_THREAD_STACK_LOW_END,
            Self::MAIN_THREAD_STACK_SIZE,
        );
        proof {
            assert(null_write_sink@ =~= zeros(PAGE_SIZE as int));
        }
        Mem {
            bytes,
            null_segment_size: 0,
            allocator,
            zero_memory_on_free: true,
            null_write_sink,
        }
    }

    /// Sets up the null segment of the given size.
    /// There's no reason to call this outside of binary loading.
    /// The size must not have been set already, and must be page aligned.
    pub fn set_null_segment_size(&mut self, new_null_segment_size: VAddr)
        requires
            old(self).wf(),
            old(self).null_size() == 0,
            new_null_segment_size > 0,
            new_null_segment_size % 0x1000 == 0,
            old(self).heap().is_free(0, new_null_segment_size as int),
        ensures
            final(self).wf(),
            MemCall::Other.leads(*old(self), *final(self)),
            final(self).null_size() == new_null_segment_size,
            final(self).contents() == old(self).contents(),
            final(self).sink() == old(self).sink(),
            final(self).zeroes_on_free() == old(self).zeroes_on_free(),
            final(self).blocks() == old(self).blocks(),
            forall|addr: int| #[trigger]
                final(self).heap().reserved(addr) <==> old(self).heap().reserved(addr) || in_range(
                    addr,
                    0,
                    new_null_segment_size as int,
                ),
    {
        self.allocator.reserve(0, new_null_segment_size);
        self.null_segment_size = new_null_segment_size;
    }

    pub fn null_segment_size(&self) -> (size: VAddr)
        ensures
            size == self.null_size(),
    {
        self.null_segment_size
    }

    /// Chooses if memory is zeroed out on free or on allocation.
    pub fn set_zero_memory_on_free(&mut self, zero_memory_on_free: bool)
        requires
            old(self).wf(),
        ensures
            final(self).wf(),
            MemCall::Other.leads(*old(self), *final(self)),
            final(self).zeroes_on_free() == zero_memory_on_free,
            final(self).contents() == old(self).contents(),
            final(self).sink() == old(self).sink(),
            final(self).null_size() == old(self).null_size(),
            final(self).heap() == old(self).heap(),
    {
        self.zero_memory_on_free = zero_memory_on_free;
    }

    /// Whether the `count` bytes at `addr` are there.
    fn is_mapped(&self, addr: VAddr, count: GuestUSize) -> (yes: bool)
        ensures
            yes == self.mapped(addr as int, count as int),
    {
        addr >= self.null_segment_size && addr as u64 + count as u64 <= 0x1_0000_0000
    }

    /// Why the `count` bytes at `addr` aren't there, if they aren't.
    pub fn missing(&self, addr: VAddr, count: GuestUSize) -> (missing: Option<MissingMemory>)
        ensures
            missing == if self.mapped(addr as int, count as int) {
                None
            } else if addr < self.null_size() {
                Some(MissingMemory::NullSegment)
            } else {
                Some(MissingMemory::PastEnd)
            },
    {
        if self.is_mapped(addr, count) {
            None
        } else if addr < self.null_segment_size {
            Some(MissingMemory::NullSegment)
        } else {
            Some(MissingMemory::PastEnd)
        }
    }

    /// The zeros that stand in for `count` bytes that aren't there.
    fn stub_bytes(&self, addr: VAddr, count: GuestUSize) -> (bytes: Vec<u8>)
        ensures
            bytes@ == zeros(Self::stand_in_len(addr as int, count as int)),
    {
        let available: u32 = PAGE_SIZE - addr % PAGE_SIZE;
        let actual: u32 = if count <= available {
            count
        } else {
            available
        };
        let bytes: Vec<u8> = vec![0u8; actual as usize];
        assert(bytes@ =~= zeros(Self::stand_in_len(addr as int, count as int)));
        bytes
    }

    /// Special version of [Self::bytes_at] that returns [None] for a range
    /// that runs past the end of the address space. Only for use by a
    /// debugger, which sees zeros in the null segment.
    pub fn get_bytes_fallible(
        &self,
        addr: ConstVoidPtr,
        count: GuestUSize,
    ) -> (bytes: Option<Vec<u8>>)
        requires
            self.wf(),
        ensures
            bytes is None <==> addr.bits() >= self.null_size() && addr.bits() + count
                > address_space(),
            bytes is Some ==> bytes.unwrap()@ == self.bytes_seen(addr.bits() as int, count as int),
    {
        let bits: u32 = addr.to_bits();
        if bits < self.null_segment_size {
            return Some(self.stub_bytes(bits, count));
        }
        if bits as u64 + count as u64 > 0x1_0000_0000 {
            return None;
        }
        Some(self.bytes.read(bits, count))
    }

    /// Read `count` bytes.
    /// This is the basic primitive for safe read-only memory access.
    ///
    /// Memory in the null page, and past the end of the address space, isn't
    /// there: zeros stand in for it. They can be fewer than `count`, because
    /// they end with the page.
    pub fn bytes_at<const MUT: bool>(
        &self,
        ptr: Ptr<u8, MUT>,
        count: GuestUSize,
    ) -> (bytes: Vec<u8>)
        requires
            self.wf(),
        ensures
            bytes@ == self.bytes_seen(ptr.bits() as int, count as int),
    {
        let addr: u32 = ptr.to_bits();
        if !self.is_mapped(addr, count) {
            return self.stub_bytes(addr, count);
        }
        self.bytes.read(addr, count)
    }

    /// Read `count` bytes without a null-page check.
    ///
    /// You shall have a good reason to use it instead of [Self::bytes_at].
    pub fn unchecked_bytes_at<const MUT: bool>(
        &self,
        ptr: Ptr<u8, MUT>,
        count: GuestUSize,
    ) -> (bytes: Vec<u8>)
        requires
            self.wf(),
        ensures
            bytes@ == self.bytes_unchecked(ptr.bits() as int, count as int),
    {
        let addr: u32 = ptr.to_bits();
        if addr as u64 + count as u64 > 0x1_0000_0000 {
            return self.stub_bytes(addr, count);
        }
        self.bytes.read(addr, count)
    }

    /// Special version of [Self::bytes_at_mut] that returns [None] where there
    /// is no memory. Only for use by a debugger, which must not write to the
    /// null page.
    pub fn get_bytes_fallible_mut(
        &mut self,
        addr: ConstVoidPtr,
        count: GuestUSize,
    ) -> (bytes: Option<&mut [u8]>)
        requires
            old(self).wf(),
        ensures
            bytes is Some <==> old(self).mapped(addr.bits() as int, count as int),
            match bytes {
                None => *final(self) == *old(self),
                Some(bytes) => {
                    &&& bytes@ == old(self).contents().subrange(
                        addr.bits() as int,
                        addr.bits() + count,
                    )
                    &&& final(bytes)@.len() == count ==> {
                        &&& final(self).wf()
                        &&& MemCall::Other.leads(*old(self), *final(self))
                        &&& final(self).is_write(*old(self), addr.bits() as int, final(bytes)@)
                    }
                },
            },
    {
        let bits: u32 = addr.to_bits();
        if !self.is_mapped(bits, count) {
            return None;
        }
        let bytes = self.bytes.slice_mut(bits, count);
        Some(bytes)
    }

    /// Get a slice for reading or writing `count` bytes.
    /// This is the basic primitive for safe read-write memory access.
    ///
    /// Where there is no memory, in the null page and past the end of the
    /// address space, a slice of the write sink stands in, so that writes are
    /// absorbed. It can be shorter than `count`, because it ends with the page.
    pub fn bytes_at_mut(&mut self, ptr: MutPtr<u8>, count: GuestUSize) -> (bytes: &mut [u8])
        requires
            old(self).wf(),
        ensures
            old(self).mapped(ptr.bits() as int, count as int) ==> {
                &&& bytes@ == old(self).contents().subrange(ptr.bits() as int, ptr.bits() + count)
                &&& final(bytes)@.len() == bytes@.len() ==> {
                    &&& final(self).wf()
                    &&& MemCall::Other.leads(*old(self), *final(self))
                    &&& final(self).same_layout(*old(self))
                    &&& final(self).contents() == splice(
                        old(self).contents(),
                        ptr.bits() as int,
                        final(bytes)@,
                    )
                    &&& final(self).sink() == old(self).sink()
                }
            },
            !old(self).mapped(ptr.bits() as int, count as int) ==> {
                let offset = ptr.bits() % PAGE_SIZE;
                let len = Self::stand_in_len(ptr.bits() as int, count as int);
                &&& bytes@ == old(self).sink().subrange(offset as int, offset + len)
                &&& final(bytes)@.len() == bytes@.len() ==> {
                    &&& final(self).wf()
                    &&& MemCall::Other.leads(*old(self), *final(self))
                    &&& final(self).same_layout(*old(self))
                    &&& final(self).contents() == old(self).contents()
                    &&& final(self).sink() == splice(
                        old(self).sink(),
                        offset as int,
                        final(bytes)@,
                    )
                }
            },
    {
        let addr: u32 = ptr.to_bits();
        if !self.is_mapped(addr, count) {
            let available: u32 = PAGE_SIZE - addr % PAGE_SIZE;
            let actual: u32 = if count <= available {
                count
            } else {
                available
            };
            let offset: u32 = addr % PAGE_SIZE;
            let ghost before = self.null_write_sink@;
            let (low, rest) = self.null_write_sink.as_mut_slice().split_at_mut(offset as usize);
            let (bytes, high) = rest.split_at_mut(actual as usize);
            assert(bytes@ =~= before.subrange(offset as int, offset + actual));
            assert(final(bytes)@.len() == actual ==> final(low)@ + (final(bytes)@ + final(high)@) =~= splice(
                before,
                offset as int,
                final(bytes)@,
            ));
            return bytes;
        }
        self.bytes.slice_mut(addr, count)
    }

    /// Writes a row of bytes, or lets the sink take it.
    pub(crate) fn put(&mut self, addr: VAddr, data: &[u8])
        requires
            old(self).wf(),
            data@.len() <= u32::MAX,
        ensures
            final(self).wf(),
            final(self).is_write(*old(self), addr as int, data@),
    {
        let count: u32 = data.len() as u32;
        if self.is_mapped(addr, count) {
            self.bytes.write(addr, data);
        } else {
            let available: u32 = PAGE_SIZE - addr % PAGE_SIZE;
            let actual: u32 = if count <= available {
                count
            } else {
                available
            };
            let kept = vstd::slice::slice_subrange(data, 0, actual as usize);
            store(&mut self.null_write_sink, (addr % PAGE_SIZE) as usize, kept);
            assert(kept@ == data@.take(Self::stand_in_len(addr as int, count as int)));
        }
    }

    /// Read a value for memory.
    /// This is the preferred way to read memory in most cases.
    pub fn read<T, const MUT: bool>(&self, ptr: Ptr<T, MUT>) -> (value: T) where T: SafeRead
        requires
            self.wf(),
        ensures
            value == self.value_at::<T>(ptr.bits() as int),
    {
        let addr: u32 = ptr.to_bits();
        let count: u32 = T::guest_byte_count();
        if self.is_mapped(addr, count) {
            let bytes = self.bytes.read(addr, count);
            T::from_guest_bytes(bytes.as_slice())
        } else {
            let missing: Vec<u8> = vec![0u8; count as usize];
            assert(missing@ =~= zeros(count as int));
            T::from_guest_bytes(missing.as_slice())
        }
    }

    /// The value of type `T` that is read at `addr`. Where there is no memory,
    /// it is made of zeros.
    pub open spec fn value_at<T: SafeRead>(self, addr: int) -> T {
        if self.mapped(addr, T::byte_count() as int) {
            T::decode(self.contents().subrange(addr, addr + T::byte_count()))
        } else {
            T::decode(zeros(T::byte_count() as int))
        }
    }

    /// Write a value to memory.
    /// This is the preferred way to write memory in most cases.
    pub fn write<T>(&mut self, ptr: MutPtr<T>, value: T) where T: SafeWrite
        requires
            old(self).wf(),
        ensures
            final(self).wf(),
            MemCall::Other.leads(*old(self), *final(self)),
            final(self).is_write(*old(self), ptr.bits() as int, value.encode()),
    {
        let data = value.to_guest_bytes();
        proof {
            value.lemma_encode();
        }
        self.put(ptr.to_bits(), data.as_slice());
    }

    /// C-style `memmove`.
    ///
    /// Sanity-checks the arguments: nothing is moved where the size looks like
    /// a negative number, the source is null, or the source or destination
    /// would run off the end of the address space. This is a defensive measure
    /// for guest code with corrupted arguments.
    pub fn memmove(&mut self, dest: MutVoidPtr, src: ConstVoidPtr, size: GuestUSize)
        requires
            old(self).wf(),
        ensures
            final(self).wf(),
            MemCall::Other.leads(*old(self), *final(self)),
            final(self).same_layout(*old(self)),
            final(self).sink() == old(self).sink(),
            final(self).contents() == if Self::can_move(
                dest.bits() as int,
                src.bits() as int,
                size as int,
            ) {
                splice(
                    old(self).contents(),
                    dest.bits() as int,
                    old(self).contents().subrange(src.bits() as int, src.bits() + size),
                )
            } else {
                old(self).contents()
            },
    {
        if Self::move_problem(dest, src, size).is_some() {
            return ;
        }
        let moved = self.bytes.read(src.to_bits(), size);
        self.bytes.write(dest.to_bits(), moved.as_slice());
    }

    /// Why [Self::memmove] doesn't trust its arguments, if it doesn't.
    pub fn move_problem(
        dest: MutVoidPtr,
        src: ConstVoidPtr,
        size: GuestUSize,
    ) -> (problem: Option<MoveProblem>)
        ensures
            problem is None <==> Self::can_move(
                dest.bits() as int,
                src.bits() as int,
                size as int,
            ),
            problem == if size >= 0x8000_0000 {
                Some(MoveProblem::NegativeSize)
            } else if src.bits() == 0 && size > 0 {
                Some(MoveProblem::NullSource)
            } else if src.bits() + size > address_space() || dest.bits() + size
                > address_space() {
                Some(MoveProblem::PastEnd)
            } else {
                None
            },
    {
        if size >= 0x8000_0000 {
            return Some(MoveProblem::NegativeSize);
        }
        if src.is_null() && size > 0 {
            return Some(MoveProblem::NullSource);
        }
        if src.to_bits() as u64 + size as u64 > 0x1_0000_0000 {
            return Some(MoveProblem::PastEnd);
        }
        if dest.to_bits() as u64 + size as u64 > 0x1_0000_0000 {
            return Some(MoveProblem::PastEnd);
        }
        None
    }

    /// Whether [Self::memmove] trusts its arguments.
    pub open spec fn can_move(dest: int, src: int, size: int) -> bool {
        &&& size < 0x8000_0000
        &&& src != 0 || size == 0
        &&& src + size <= address_space()
        &&& dest + size <= address_space()
    }

    /// Same in all respects but the contents and the live allocations.
    pub open spec fn same_but_blocks(self, other: Self) -> bool {
        &&& self.null_size() == other.null_size()
        &&& self.zeroes_on_free() == other.zeroes_on_free()
        &&& self.sink() == other.sink()
        &&& forall|addr: int| #[trigger]
            self.heap().reserved(addr) <==> other.heap().reserved(addr)
    }

    /// Whether `base` is where a block for `size` bytes goes: the lowest
    /// address at which one fits.
    pub open spec fn places(self, base: int, size: int) -> bool {
        &&& self.heap().fits(base, size)
        &&& forall|lower: int| lower < base ==> !#[trigger] self.heap().fits(lower, size)
    }

    /// `self` has a block for `size` bytes at `base` that `before` doesn't have,
    /// and is the same otherwise, but for the contents.
    pub open spec fn gains_block(self, before: Self, base: u32, size: int) -> bool {
        &&& self.same_but_blocks(before)
        &&& before.places(base as int, size)
        &&& block_size(size) <= u32::MAX
        &&& !before.blocks().contains_key(base)
        &&& self.blocks() == before.blocks().insert(base, block_size(size) as u32)
    }

    /// Allocating `size` bytes at `base` turns `before` into `self`.
    pub open spec fn is_allocation(self, before: Self, base: u32, size: int) -> bool {
        &&& self.gains_block(before, base, size)
        &&& self.contents() == if before.zeroes_on_free() {
            before.contents()
        } else {
            splice(before.contents(), base as int, zeros(size))
        }
    }

    /// Whether [Self::allocate] can serve a request for `size` bytes.
    pub fn can_allocate(&self, size: GuestUSize) -> (yes: bool)
        requires
            self.wf(),
        ensures
            yes == self.heap().has_room(size as int),
    {
        self.allocator.can_alloc(size)
    }

    /// Allocate `size` bytes.
    pub fn allocate(&mut self, size: GuestUSize) -> (ptr: MutVoidPtr)
        requires
            old(self).wf(),
            old(self).heap().has_room(size as int),
        ensures
            final(self).wf(),
            (MemCall::Allocate { size: size as int, base: ptr.bits() }).leads(
                *old(self),
                *final(self),
            ),
            final(self).is_allocation(*old(self), ptr.bits(), size as int),
            ptr.bits() != 0,
            old(self).mapped(ptr.bits() as int, block_size(size as int)),
    {
        let base: u32 = self.allocator.allocate(size);
        proof {
            old(self).lemma_fits_mapped(base as int, size as int);
        }
        if !self.zero_memory_on_free {
            self.bytes.clear(base, size);
        }
        Ptr::from_bits(base)
    }

    /// A block keeps clear of the null segment.
    pub proof fn lemma_fits_mapped(self, base: int, size: int)
        requires
            self.wf(),
            size >= 0,
            self.heap().fits(base, size),
        ensures
            self.mapped(base, block_size(size)),
            self.mapped(base, size),
            size <= block_size(size),
            base > 0,
    {
        assert(in_range(base, base, block_size(size)));
        assert(!self.heap().allocated(base));
        if base < self.null_size() {
            assert(self.heap().reserved(base));
        }
    }

    /// Allocate `size` bytes initialized to 0.
    pub fn calloc(&mut self, size: GuestUSize) -> (ptr: MutVoidPtr)
        requires
            old(self).wf(),
            old(self).heap().has_room(size as int),
        ensures
            final(self).wf(),
            (MemCall::Allocate { size: size as int, base: ptr.bits() }).leads(
                *old(self),
                *final(self),
            ),
            final(self).gains_block(*old(self), ptr.bits(), size as int),
            final(self).contents() == splice(
                old(self).contents(),
                ptr.bits() as int,
                zeros(size as int),
            ),
            ptr.bits() != 0,
            old(self).mapped(ptr.bits() as int, block_size(size as int)),
    {
        let ptr = self.allocate(size);
        self.bytes.clear(ptr.to_bits(), size);
        assert(self.contents() =~= splice(
            old(self).contents(),
            ptr.bits() as int,
            zeros(size as int),
        ));
        ptr
    }

    /// The size of the block that starts at an address, or 0 if there is none.
    pub open spec fn size_of_block(self, addr: u32) -> u32 {
        if addr != 0 && self.blocks().contains_key(addr) {
            self.blocks()[addr]
        } else {
            0
        }
    }

    /// The size of the memory block that backs the allocation pointed to by
    /// `ptr`, or `0` if `ptr` is null or isn't the base of an allocation, as
    /// `malloc_size(3)` documents. It's perfectly normal for apps to call it
    /// on arbitrary pointers and treat a `0` result as "this isn't a heap
    /// allocation".
    pub fn malloc_size(&self, ptr: ConstVoidPtr) -> (size: GuestUSize)
        requires
            self.wf(),
        ensures
            size == self.size_of_block(ptr.bits()),
    {
        if ptr.is_null() {
            return 0;
        }
        match self.allocator.try_find_allocated_size(ptr.to_bits()) {
            Some(size) => size,
            None => 0,
        }
    }

    /// Returns whether `addr` is the exact base of a live allocation. Used to
    /// defensively reject garbage pointers at the libc free() wrapper.
    pub fn is_known_allocation(&self, addr: VAddr) -> (known: bool)
        requires
            self.wf(),
        ensures
            known == self.blocks().contains_key(addr),
    {
        self.allocator.is_known_allocation(addr)
    }

    /// The live allocations, lowest address first, each with its size.
    pub fn live_allocations(&self) -> (live: Vec<(VAddr, GuestUSize)>)
        requires
            self.wf(),
        ensures
            forall|i: int, j: int| 0 <= i < j < live@.len() ==> live@[i].0 < live@[j].0,
            forall|i: int|
                0 <= i < live@.len() ==> self.blocks().contains_key((#[trigger] live@[i]).0)
                    && self.blocks()[live@[i].0] == live@[i].1,
            forall|base: u32| #[trigger]
                self.blocks().contains_key(base) ==> live@.contains((base, self.blocks()[base])),
    {
        self.allocator.live_blocks()
    }

    /// Whether [Self::free] takes `addr` for the base of an allocation.
    pub open spec fn frees(self, addr: u32) -> bool {
        addr != 0 && addr != MACH_TASK_SELF && self.blocks().contains_key(addr)
    }

    /// Ending the allocation at `addr` turns `before` into `self`.
    pub open spec fn is_release(self, before: Self, addr: u32) -> bool {
        &&& self.same_but_blocks(before)
        &&& self.blocks() == before.blocks().remove(addr)
        &&& self.contents() == if before.zeroes_on_free() {
            splice(before.contents(), addr as int, zeros(before.blocks()[addr] as int))
        } else {
            before.contents()
        }
    }

    /// Free an allocation made with one of the methods on this type.
    ///
    /// Anything else is ignored: null, the constant `MACH_TASK_SELF`, and
    /// pointers that are not the base of a live allocation.
    pub fn free(&mut self, ptr: MutVoidPtr)
        requires
            old(self).wf(),
        ensures
            final(self).wf(),
            (MemCall::Free { addr: ptr.bits() }).leads(*old(self), *final(self)),
            old(self).frees(ptr.bits()) ==> final(self).is_release(*old(self), ptr.bits()),
            !old(self).frees(ptr.bits()) ==> *final(self) == *old(self),
    {
        if ptr.is_null() {
            return ;
        }
        let addr: u32 = ptr.to_bits();
        if addr == MACH_TASK_SELF {
            return ;
        }
        if !self.allocator.is_known_allocation(addr) {
            return ;
        }
        proof {
            self.heap().blocks_apart();
        }
        let size: u32 = self.allocator.free(addr);
        if self.zero_memory_on_free {
            self.bytes.clear(addr, size);
        }
    }

    /// `self` has a block for `size` bytes at `base` in place of the one that
    /// `before` has at `old_base`, and is the same otherwise, but for the
    /// contents.
    pub open spec fn moves_block(self, before: Self, old_base: u32, base: u32, size: int) -> bool {
        &&& self.same_but_blocks(before)
        &&& before.places(base as int, size)
        &&& block_size(size) <= u32::MAX
        &&& !before.blocks().contains_key(base)
        &&& self.blocks() == before.blocks().insert(base, block_size(size) as u32).remove(old_base)
    }

    /// What moving a block to a larger one makes of the contents.
    pub open spec fn moved_block(
        self,
        old_base: int,
        old_size: int,
        new_base: int,
        new_size: int,
    ) -> Seq<u8> {
        let fresh = if self.zeroes_on_free() {
            self.contents()
        } else {
            splice(self.contents(), new_base, zeros(new_size))
        };
        let moved = splice(fresh, new_base, fresh.subrange(old_base, old_base + old_size));
        if self.zeroes_on_free() {
            splice(moved, old_base, zeros(old_size))
        } else {
            moved
        }
    }

    /// Makes room for `size` bytes in an allocation, and moves it where it has
    /// to. What it holds is kept.
    pub fn realloc(&mut self, old_ptr: MutVoidPtr, size: GuestUSize) -> (ptr: MutVoidPtr)
        requires
            old(self).wf(),
            old_ptr.bits() == 0 || old(self).blocks().contains_key(old_ptr.bits()),
            old_ptr.bits() == 0 || old(self).blocks()[old_ptr.bits()] < size ==> old(
                self,
            ).heap().has_room(size as int),
        ensures
            final(self).wf(),
            (MemCall::Realloc { old_base: old_ptr.bits(), size: size as int, base: ptr.bits() }).leads(
                *old(self),
                *final(self),
            ),
            old_ptr.bits() == 0 ==> final(self).is_allocation(
                *old(self),
                ptr.bits(),
                size as int,
            ),
            old_ptr.bits() != 0 && old(self).blocks()[old_ptr.bits()] >= size ==> {
                &&& ptr == old_ptr
                &&& *final(self) == *old(self)
            },
            old_ptr.bits() != 0 && old(self).blocks()[old_ptr.bits()] < size ==> {
                let old_size = old(self).blocks()[old_ptr.bits()];
                &&& final(self).moves_block(*old(self), old_ptr.bits(), ptr.bits(), size as int)
                &&& final(self).contents() == old(self).moved_block(
                    old_ptr.bits() as int,
                    old_size as int,
                    ptr.bits() as int,
                    size as int,
                )
                &&& final(self).contents().subrange(
                    ptr.bits() as int,
                    ptr.bits() + old_size,
                ) == old(self).contents().subrange(
                    old_ptr.bits() as int,
                    old_ptr.bits() + old_size,
                )
            },
    {
        if old_ptr.is_null() {
            return self.allocate(size);
        }
        let old_size: u32 = self.allocator.find_allocated_size(old_ptr.to_bits());
        if old_size >= size {
            return old_ptr;
        }
        let new_ptr = self.allocate(size);
        let ghost allocated = *self;
        proof {
            allocated.heap().blocks_apart();
            old(self).lemma_fits_mapped(new_ptr.bits() as int, size as int);
            assert(allocated.blocks().contains_key(old_ptr.bits()));
            assert(allocated.blocks().contains_key(new_ptr.bits()));
            // Two blocks of half the address space don't fit.
            assert(old_size < 0x8000_0000);
        }
        self.memmove(new_ptr, old_ptr.cast_const(), old_size);
        self.free(old_ptr);
        proof {
            assert(old_ptr.bits() % 16 == 0);
            let from = old_ptr.bits() as int;
            let to = new_ptr.bits() as int;
            assert(disjoint(from, old_size as int, to, block_size(size as int)));
            assert(self.contents().subrange(to, to + old_size) =~= old(self).contents().subrange(
                from,
                from + old_size,
            ));
        }
        new_ptr
    }

    /// Allocate memory large enough for a value of type `T` and write the value
    /// to it.
    /// Equivalent to [Self::allocate] + [Self::write].
    pub fn alloc_and_write<T>(&mut self, value: T) -> (ptr: MutPtr<T>) where T: SafeWrite
        requires
            old(self).wf(),
            old(self).heap().has_room(T::byte_count() as int),
        ensures
            final(self).wf(),
            (MemCall::Allocate { size: T::byte_count() as int, base: ptr.bits() }).leads(
                *old(self),
                *final(self),
            ),
            final(self).gains_block(*old(self), ptr.bits(), T::byte_count() as int),
            final(self).contents() == splice(
                old(self).contents(),
                ptr.bits() as int,
                value.encode(),
            ),
    {
        let ptr: MutPtr<T> = self.allocate(T::guest_byte_count()).cast();
        let ghost allocated = *self;
        proof {
            value.lemma_encode();
            old(self).lemma_fits_mapped(ptr.bits() as int, T::byte_count() as int);
        }
        self.write(ptr, value);
        assert(self.contents() =~= splice(old(self).contents(), ptr.bits() as int, value.encode()));
        ptr
    }

    /// Allocate and write a C string.
    /// This method will add a null terminator, so it is optimal if the input
    /// slice does not already contain one.
    pub fn alloc_and_write_cstr(&mut self, str_bytes: &[u8]) -> (ptr: MutPtr<u8>)
        requires
            old(self).wf(),
            str_bytes@.len() < u32::MAX,
            old(self).heap().has_room(str_bytes@.len() as int + 1),
        ensures
            final(self).wf(),
            (MemCall::Allocate { size: str_bytes@.len() as int + 1, base: ptr.bits() }).leads(
                *old(self),
                *final(self),
            ),
            final(self).gains_block(*old(self), ptr.bits(), str_bytes@.len() as int + 1),
            final(self).contents() == splice(
                old(self).contents(),
                ptr.bits() as int,
                str_bytes@.push(0),
            ),
            old(self).mapped(ptr.bits() as int, str_bytes@.len() as int + 1),
    {
        broadcast use vstd::layout::layout_of_primitives;

        let len: u32 = str_bytes.len() as u32;
        let ptr: MutPtr<u8> = self.allocate(len + 1).cast();
        proof {
            old(self).lemma_fits_mapped(ptr.bits() as int, len + 1);
            Ptr::<u8, true>::lemma_at(element_address::<u8>(ptr.bits(), len as int));
            crate::mem::encoding::le_bytes_value(0, 1);
        }
        self.put(ptr.to_bits(), str_bytes);
        self.write(ptr + len, 0u8);
        proof {
            reveal_with_fuel(crate::mem::encoding::le_bytes, 2);
            assert(self.contents() =~= splice(
                old(self).contents(),
                ptr.bits() as int,
                str_bytes@.push(0),
            ));
        }
        ptr
    }

    /// The byte that is read at an address, which wraps around at the end of
    /// the address space.
    pub open spec fn byte_seen(self, addr: int) -> u8 {
        self.value_at::<u8>(addr % address_space())
    }

    /// Number of bytes at `addr` before the first zero byte, but no more than
    /// `limit`.
    pub open spec fn cstr_len(self, addr: int, limit: nat) -> nat
        decreases limit,
    {
        if limit == 0 || self.byte_seen(addr) == 0 {
            0
        } else {
            1 + self.cstr_len(addr + 1, (limit - 1) as nat)
        }
    }

    /// The byte `count` places after the one that `ptr` points to.
    fn byte_after<const MUT: bool>(&self, ptr: Ptr<u8, MUT>, count: u32) -> (byte: u8)
        requires
            self.wf(),
        ensures
            byte == self.byte_seen(ptr.bits() + count),
    {
        broadcast use vstd::layout::layout_of_primitives;

        proof {
            Ptr::<u8, MUT>::lemma_at(element_address::<u8>(ptr.bits(), count as int));
        }
        self.read(ptr + count)
    }

    /// The word `count` words after the one that `ptr` points to.
    fn word_after<const MUT: bool>(&self, ptr: Ptr<u32, MUT>, count: u32) -> (word: u32)
        requires
            self.wf(),
        ensures
            word == self.value_at::<u32>((ptr.bits() + 4 * count) % address_space()),
    {
        broadcast use vstd::layout::layout_of_primitives;

        proof {
            Ptr::<u32, MUT>::lemma_at(element_address::<u32>(ptr.bits(), count as int));
        }
        self.read(ptr + count)
    }

    /// Get a C string (null-terminated).
    /// The null terminator is not included.
    ///
    /// Includes a maximum length guard (64KB) in case the guest provides a
    /// pointer to non-terminated data.
    pub fn cstr_at<const MUT: bool>(&self, ptr: Ptr<u8, MUT>) -> (text: Vec<u8>)
        requires
            self.wf(),
        ensures
            text@ == self.bytes_seen(
                ptr.bits() as int,
                self.cstr_len(ptr.bits() as int, MAX_CSTR_LEN as nat) as int,
            ),
    {
        self.cstr_at_with_max_len(ptr, MAX_CSTR_LEN)
    }

    /// Like [Self::cstr_at], but with a caller-chosen maximum length instead of
    /// the default 64KB safety limit. Useful for data that can legitimately be
    /// larger than 64KB.
    pub fn cstr_at_with_max_len<const MUT: bool>(
        &self,
        ptr: Ptr<u8, MUT>,
        max_len: u32,
    ) -> (text: Vec<u8>)
        requires
            self.wf(),
        ensures
            text@ == self.bytes_seen(
                ptr.bits() as int,
                self.cstr_len(ptr.bits() as int, max_len as nat) as int,
            ),
    {
        let ghost addr = ptr.bits() as int;
        let mut len: u32 = 0;
        while len < max_len && self.byte_after(ptr, len) != 0
            invariant
                self.wf(),
                addr == ptr.bits(),
                len <= max_len,
                self.cstr_len(addr, max_len as nat) == len + self.cstr_len(
                    addr + len,
                    (max_len - len) as nat,
                ),
            decreases max_len - len,
        {
            len = len + 1;
        }
        self.bytes_at(ptr, len)
    }

    /// Get a C string (null-terminated) as a string, if it is valid UTF-8,
    /// otherwise returning its bytes.
    /// The null terminator is not included.
    pub fn cstr_at_utf8<const MUT: bool>(
        &self,
        ptr: Ptr<u8, MUT>,
    ) -> (text: Result<String, Vec<u8>>)
        requires
            self.wf(),
        ensures
            ({
                let bytes = self.bytes_seen(
                    ptr.bits() as int,
                    self.cstr_len(ptr.bits() as int, MAX_CSTR_LEN as nat) as int,
                );
                &&& text is Ok <==> valid_utf8(bytes)
                &&& text matches Ok(s) ==> s@ == decode_utf8(bytes)
                &&& text matches Err(raw) ==> raw@ == bytes
            }),
    {
        let bytes = self.cstr_at(ptr);
        if let Ok(text) = std::str::from_utf8(bytes.as_slice()) {
            return Ok(text.to_string());
        }
        Err(bytes)
    }

    /// Number of words at `addr` before the first zero word, but no more than
    /// `limit`.
    pub open spec fn wcstr_len(self, addr: int, limit: nat) -> nat
        decreases limit,
    {
        if limit == 0 || self.value_at::<u32>(addr % address_space()) == 0 {
            0
        } else {
            1 + self.wcstr_len(addr + 4, (limit - 1) as nat)
        }
    }

    /// Get a wide C string.
    ///
    /// A `wchar_t` has four bytes, and holds a Unicode code. The replacement
    /// character stands for surrogates and codes above U+10FFFF, so that bogus
    /// data from the guest is harmless. Includes a maximum length guard.
    pub fn wcstr_at<const MUT: bool>(&self, ptr: Ptr<u32, MUT>) -> (text: String)
        requires
            self.wf(),
        ensures
            is_wide_text(
                text@,
                self.bytes_seen(
                    ptr.bits() as int,
                    4 * self.wcstr_len(ptr.bits() as int, MAX_WCSTR_LEN as nat) as int,
                ),
            ),
    {
        let ghost addr = ptr.bits() as int;
        let mut len: u32 = 0;
        while self.word_after(ptr, len) != 0
            invariant_except_break
                self.wcstr_len(addr, MAX_WCSTR_LEN as nat) == len + self.wcstr_len(
                    addr + 4 * len,
                    (MAX_WCSTR_LEN - len) as nat,
                ),
                len < MAX_WCSTR_LEN,
            invariant
                self.wf(),
                addr == ptr.bits(),
            ensures
                len <= MAX_WCSTR_LEN,
                self.wcstr_len(addr, MAX_WCSTR_LEN as nat) == len,
            decreases MAX_WCSTR_LEN - len,
        {
            len = len + 1;
            assert(self.wcstr_len(addr, MAX_WCSTR_LEN as nat) == len + self.wcstr_len(
                addr + 4 * len,
                (MAX_WCSTR_LEN - len) as nat,
            ));
            if len >= MAX_WCSTR_LEN {
                break ;
            }
        }
        let bytes = self.bytes_at(Ptr::<u8, MUT>::from_bits(ptr.to_bits()), len * 4);
        let byte_count: usize = bytes.len();
        let count: usize = byte_count / 4;
        let mut text = String::new();
        let mut i: usize = 0;
        while i < count
            invariant
                i <= count,
                byte_count == bytes@.len(),
                count == byte_count / 4,
                text@.len() == i,
                forall|k: int|
                    0 <= k < i ==> is_wide_char(
                        #[trigger] text@[k],
                        bytes@.subrange(4 * k, 4 * k + 4),
                    ),
            decreases count - i,
        {
            let chunk = vstd::slice::slice_subrange(bytes.as_slice(), 4 * i, 4 * i + 4);
            let code: u32 = u32::from_guest_bytes(chunk);
            let c: char = match std::char::from_u32(code) {
                Some(c) => c,
                None => REPLACEMENT_CHARACTER,
            };
            text.push(c);
            i = i + 1;
        }
        text
    }

    /// Whether [Self::reserve] can take the region.
    pub fn can_reserve(&self, base: VAddr, size: GuestUSize) -> (yes: bool)
        requires
            self.wf(),
        ensures
            yes == (size == 0 || self.heap().is_free(base as int, size as int)),
    {
        size == 0 || self.allocator.can_reserve(base, size)
    }

    /// Permanently mark a region of address space as being unusable to the
    /// memory allocator.
    ///
    /// A zero-byte reservation is a no-op, like a segment that has no size in
    /// memory.
    pub fn reserve(&mut self, base: VAddr, size: GuestUSize)
        requires
            old(self).wf(),
            size == 0 || old(self).heap().is_free(base as int, size as int),
        ensures
            final(self).wf(),
            MemCall::Other.leads(*old(self), *final(self)),
            size == 0 ==> *final(self) == *old(self),
            final(self).contents() == old(self).contents(),
            final(self).sink() == old(self).sink(),
            final(self).null_size() == old(self).null_size(),
            final(self).zeroes_on_free() == old(self).zeroes_on_free(),
            final(self).blocks() == old(self).blocks(),
            forall|addr: int| #[trigger]
                final(self).heap().reserved(addr) <==> old(self).heap().reserved(addr) || in_range(
                    addr,
                    base as int,
                    size as int,
                ),
    {
        if size == 0 {
            return ;
        }
        self.allocator.reserve(base, size);
    }

    /// Get the bytes of an array of `count` elements of type `T` for reading.
    /// Only use this for interfacing with C-like APIs.
    pub fn ptr_at<T, const MUT: bool>(
        &self,
        ptr: Ptr<T, MUT>,
        count: GuestUSize,
    ) -> (bytes: Vec<u8>)
        where T: SafeRead
        requires
            self.wf(),
            count * T::byte_count() <= u32::MAX,
        ensures
            bytes@ == self.bytes_seen(ptr.bits() as int, count * T::byte_count()),
    {
        let size: u32 = count * T::guest_byte_count();
        self.bytes_at(Ptr::<u8, MUT>::from_bits(ptr.to_bits()), size)
    }

    /// A variation of [Self::ptr_at] without a null-page check.
    ///
    /// You shall have a good reason to use it instead of [Self::ptr_at].
    pub fn unchecked_ptr_at<T, const MUT: bool>(
        &self,
        ptr: Ptr<T, MUT>,
        count: GuestUSize,
    ) -> (bytes: Vec<u8>) where T: SafeRead
        requires
            self.wf(),
            count * T::byte_count() <= u32::MAX,
        ensures
            bytes@ == self.bytes_unchecked(ptr.bits() as int, count * T::byte_count()),
    {
        let size: u32 = count * T::guest_byte_count();
        self.unchecked_bytes_at(Ptr::<u8, MUT>::from_bits(ptr.to_bits()), size)
    }

    /// Get the bytes of an array of `count` elements of type `T` for reading
    /// or writing. Only use this for interfacing with C-like APIs.
    pub fn ptr_at_mut<T>(&mut self, ptr: MutPtr<T>, count: GuestUSize) -> (bytes: &mut [u8]) where
        T: SafeRead + SafeWrite,

        requires
            old(self).wf(),
            count * T::byte_count() <= u32::MAX,
        ensures
            old(self).mapped(ptr.bits() as int, count * T::byte_count()) ==> {
                &&& bytes@ == old(self).contents().subrange(
                    ptr.bits() as int,
                    ptr.bits() + count * T::byte_count(),
                )
                &&& final(bytes)@.len() == bytes@.len() ==> {
                    &&& final(self).wf()
                    &&& MemCall::Other.leads(*old(self), *final(self))
                    &&& final(self).same_layout(*old(self))
                    &&& final(self).contents() == splice(
                        old(self).contents(),
                        ptr.bits() as int,
                        final(bytes)@,
                    )
                    &&& final(self).sink() == old(self).sink()
                }
            },
            !old(self).mapped(ptr.bits() as int, count * T::byte_count()) ==> {
                let offset = ptr.bits() % PAGE_SIZE;
                let len = Self::stand_in_len(ptr.bits() as int, count * T::byte_count());
                &&& bytes@ == old(self).sink().subrange(offset as int, offset + len)
                &&& final(bytes)@.len() == bytes@.len() ==> {
                    &&& final(self).wf()
                    &&& MemCall::Other.leads(*old(self), *final(self))
                    &&& final(self).same_layout(*old(self))
                    &&& final(self).contents() == old(self).contents()
                    &&& final(self).sink() == splice(
                        old(self).sink(),
                        offset as int,
                        final(bytes)@,
                    )
                }
            },
    {
        let size: u32 = count * T::guest_byte_count();
        self.bytes_at_mut(Ptr::from_bits(ptr.to_bits()), size)
    }

    /// Transform a host address of a location in guest memory back into a
    /// guest pointer, given the host address at which guest memory starts.
    /// This exists solely to deal with OpenGL `glGetPointerv`.
    /// You should never have another reason to use this.
    pub fn host_ptr_to_guest_ptr(&self, memory_start: usize, host_ptr: usize) -> (ptr: ConstVoidPtr)
        requires
            self.wf(),
            in_guest_memory(memory_start as int, host_ptr as int),
        ensures
            host_address(memory_start as int, ptr.bits() as int) == host_ptr,
    {
        let guest_addr: usize = host_ptr - memory_start;
        Ptr::from_bits(guest_addr as u32)
    }

    /// Returns whether a host address is one of a location inside the guest's
    /// memory region, given the host address at which guest memory starts.
    /// Used to sanity-check pointers handed to host APIs (e.g. client-side
    /// OpenGL vertex arrays).
    pub fn is_host_ptr_in_guest_mem(&self, memory_start: usize, host_ptr: usize) -> (inside: bool)
        requires
            self.wf(),
        ensures
            inside == in_guest_memory(memory_start as int, host_ptr as int),
    {
        host_ptr >= memory_start && ((host_ptr - memory_start) as u64) < 0x1_0000_0000
    }
}

/// The host address of a location in guest memory, which starts at
/// `memory_start` on the host and lies there in one piece.
pub open spec fn host_address(memory_start: int, addr: int) -> int {
    memory_start + addr
}

/// Whether a host address is one of a location in guest memory.
pub open spec fn in_guest_memory(memory_start: int, host_ptr: int) -> bool {
    in_range(host_ptr, memory_start, address_space())
}

/// Whether `c` stands for the four bytes of a wide character.
pub open spec fn is_wide_char(c: char, bytes: Seq<u8>) -> bool {
    let code = u32::decode(bytes);
    if is_scalar(code) {
        c as u32 == code
    } else {
        c == REPLACEMENT_CHARACTER
    }
}

/// Whether `text` has one character for each four of the bytes.
pub open spec fn is_wide_text(text: Seq<char>, bytes: Seq<u8>) -> bool {
    &&& text.len() == bytes.len() / 4
    &&& forall|k: int|
        0 <= k < text.len() ==> is_wide_char(#[trigger] text[k], bytes.subrange(4 * k, 4 * k + 4))
}

} // verus!
