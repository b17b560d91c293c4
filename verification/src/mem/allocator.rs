//! Keeps track of which parts of the guest address space are in use.
use vstd::prelude::*;

use crate::mem::ptr::{address_space, GuestUSize, VAddr};

verus! {

/// Blocks start at multiples of this many bytes and are as many bytes long as
/// a multiple of it.
pub const BLOCK_GRANULE: u32 = 16;

/// Size of the block that serves a request for `size` bytes.
pub open spec fn block_size(size: int) -> int {
    if size <= 0 {
        BLOCK_GRANULE as int
    } else {
        (size + 15) / 16 * 16
    }
}

/// Whether `addr` is one of the `size` addresses that start at `base`.
pub open spec fn in_range(addr: int, base: int, size: int) -> bool {
    base <= addr < base + size
}

/// Whether two ranges of addresses have none in common.
pub open spec fn disjoint(base: int, size: int, other_base: int, other_size: int) -> bool {
    base + size <= other_base || other_base + other_size <= base
}

/// A part of the address space that is in use.
#[derive(Clone, Copy)]
struct Region {
    base: VAddr,
    size: GuestUSize,
    /// Whether this is an allocation, which can be freed. The other regions
    /// are reservations, which stay.
    live: bool,
}

/// Hands out blocks of the guest address space.
///
/// The contents of the blocks are none of its business.
pub struct Allocator {
    /// Sorted by address, without overlaps.
    regions: Vec<Region>,
}

spec fn sorted(regions: Seq<Region>) -> bool {
    &&& forall|i: int|
        0 <= i < regions.len() ==> {
            &&& #[trigger] regions[i].size > 0
            &&& regions[i].base + regions[i].size <= address_space()
            &&& regions[i].live ==> regions[i].base >= 16 && regions[i].base % 16 == 0
                && regions[i].size % 16 == 0
        }
    &&& forall|i: int, j: int|
        0 <= i < j < regions.len() ==> (#[trigger] regions[i]).base + regions[i].size <= (
        #[trigger] regions[j]).base
}

impl Allocator {
    /// The regions in use do not overlap, and none leaves the address space.
    pub closed spec fn wf(self) -> bool {
        sorted(self.regions@)
    }

    closed spec fn has(self, base: u32, size: u32, live: bool) -> bool {
        exists|i: int|
            0 <= i < self.regions@.len() && #[trigger] self.regions@[i] == (Region {
                base,
                size,
                live,
            })
    }

    /// The live allocations: the size of each by its base.
    pub closed spec fn blocks(self) -> Map<u32, u32> {
        Map::new(
            |base: u32| exists|size: u32| #[trigger] self.has(base, size, true),
            |base: u32| choose|size: u32| #[trigger] self.has(base, size, true),
        )
    }

    /// Whether `addr` can never be handed out.
    pub closed spec fn reserved(self, addr: int) -> bool {
        exists|base: u32, size: u32|
            #[trigger] self.has(base, size, false) && in_range(addr, base as int, size as int)
    }

    /// Whether `addr` is part of a live allocation.
    pub open spec fn allocated(self, addr: int) -> bool {
        exists|base: u32|
            #[trigger] self.blocks().contains_key(base) && in_range(
                addr,
                base as int,
                self.blocks()[base] as int,
            )
    }

    /// Whether none of the `size` addresses that start at `base` is in use.
    pub open spec fn is_free(self, base: int, size: int) -> bool {
        &&& 0 <= base
        &&& base + size <= address_space()
        &&& forall|addr: int|
            in_range(addr, base, size) ==> !#[trigger] self.allocated(addr) && !self.reserved(addr)
    }

    /// Whether a block of `size` bytes can start at `base`.
    pub open spec fn fits(self, base: int, size: int) -> bool {
        &&& base >= BLOCK_GRANULE
        &&& base % BLOCK_GRANULE as int == 0
        &&& self.is_free(base, block_size(size))
    }

    /// Whether a request for `size` bytes can be served.
    pub open spec fn has_room(self, size: int) -> bool {
        exists|base: int| #[trigger] self.fits(base, size)
    }

    /// Live allocations have at least one byte, do not leave the address
    /// space, do not overlap and keep clear of what is reserved. Their bases
    /// and sizes are multiples of the granule, and none starts at null.
    pub proof fn blocks_apart(self)
        requires
            self.wf(),
        ensures
            forall|base: u32| #[trigger]
                self.blocks().contains_key(base) ==> {
                    &&& self.blocks()[base] > 0
                    &&& base + self.blocks()[base] <= address_space()
                    &&& base >= BLOCK_GRANULE
                    &&& base % BLOCK_GRANULE == 0
                    &&& self.blocks()[base] % BLOCK_GRANULE == 0
                },
            forall|a: u32, b: u32|
                a != b && #[trigger] self.blocks().contains_key(a)
                    && #[trigger] self.blocks().contains_key(b) ==> disjoint(
                    a as int,
                    self.blocks()[a] as int,
                    b as int,
                    self.blocks()[b] as int,
                ),
            forall|addr: int| #[trigger] self.allocated(addr) ==> !self.reserved(addr),
    {
        assert forall|base: u32| #[trigger] self.blocks().contains_key(base) implies {
            &&& self.blocks()[base] > 0
            &&& base + self.blocks()[base] <= address_space()
            &&& base >= BLOCK_GRANULE
            &&& base % BLOCK_GRANULE == 0
            &&& self.blocks()[base] % BLOCK_GRANULE == 0
            &&& self.has(base, self.blocks()[base], true)
        } by {
            let size = choose|size: u32| #[trigger] self.has(base, size, true);
            assert(self.has(base, size, true));
        }
        assert forall|a: u32, b: u32|
            a != b && #[trigger] self.blocks().contains_key(a)
                && #[trigger] self.blocks().contains_key(b) implies disjoint(
            a as int,
            self.blocks()[a] as int,
            b as int,
            self.blocks()[b] as int,
        ) by {
            assert(self.has(a, self.blocks()[a], true));
            assert(self.has(b, self.blocks()[b], true));
        }
        assert forall|addr: int| #[trigger] self.allocated(addr) implies !self.reserved(addr) by {
            let base = choose|base: u32| #[trigger]
                self.blocks().contains_key(base) && in_range(
                    addr,
                    base as int,
                    self.blocks()[base] as int,
                );
            assert(self.has(base, self.blocks()[base], true));
        }
    }

    /// Addresses in use are those of some region.
    proof fn lemma_taken(self, addr: int)
        requires
            self.wf(),
        ensures
            self.allocated(addr) || self.reserved(addr) <==> exists|i: int|
                0 <= i < self.regions@.len() && in_range(
                    addr,
                    (#[trigger] self.regions@[i]).base as int,
                    self.regions@[i].size as int,
                ),
    {
        if self.allocated(addr) {
            let base = choose|base: u32| #[trigger]
                self.blocks().contains_key(base) && in_range(
                    addr,
                    base as int,
                    self.blocks()[base] as int,
                );
            assert(self.has(base, self.blocks()[base], true));
        }
        if exists|i: int|
            0 <= i < self.regions@.len() && in_range(
                addr,
                (#[trigger] self.regions@[i]).base as int,
                self.regions@[i].size as int,
            ) {
            let i = choose|i: int|
                0 <= i < self.regions@.len() && in_range(
                    addr,
                    (#[trigger] self.regions@[i]).base as int,
                    self.regions@[i].size as int,
                );
            let r = self.regions@[i];
            assert(self.has(r.base, r.size, r.live));
            if r.live {
                self.lemma_block(r.base, r.size);
            }
        }
    }

    /// A live region is a block.
    proof fn lemma_block(self, base: u32, size: u32)
        requires
            self.wf(),
            self.has(base, size, true),
        ensures
            self.blocks().contains_key(base),
            self.blocks()[base] == size,
    {
        let s = self.blocks()[base];
        assert(self.has(base, s, true));
        let i = choose|i: int|
            0 <= i < self.regions@.len() && #[trigger] self.regions@[i] == (Region {
                base,
                size,
                live: true,
            });
        let j = choose|j: int|
            0 <= j < self.regions@.len() && #[trigger] self.regions@[j] == (Region {
                base,
                size: s,
                live: true,
            });
        assert(i == j);
    }

    /// What one more region does to the blocks and reservations.
    proof fn lemma_inserted(self, after: Self, at: int, region: Region)
        requires
            self.wf(),
            after.wf(),
            0 <= at <= self.regions@.len(),
            after.regions@ == self.regions@.insert(at, region),
        ensures
            region.live ==> after.blocks() == self.blocks().insert(region.base, region.size)
                && !self.blocks().contains_key(region.base),
            !region.live ==> after.blocks() == self.blocks(),
            forall|addr: int| #[trigger]
                after.reserved(addr) <==> self.reserved(addr) || (!region.live && in_range(
                    addr,
                    region.base as int,
                    region.size as int,
                )),
    {
        let s = self.regions@;
        let t = after.regions@;
        assert forall|base: u32, size: u32, live: bool| #[trigger]
            after.has(base, size, live) <==> self.has(base, size, live) || region == (Region {
                base,
                size,
                live,
            }) by {
            let r = Region { base, size, live };
            if after.has(base, size, live) {
                let i = choose|i: int| 0 <= i < t.len() && #[trigger] t[i] == r;
                if i < at {
                    assert(s[i] == r);
                } else if i > at {
                    assert(s[i - 1] == r);
                }
            }
            if self.has(base, size, live) {
                let i = choose|i: int| 0 <= i < s.len() && #[trigger] s[i] == r;
                if i < at {
                    assert(t[i] == r);
                } else {
                    assert(t[i + 1] == r);
                }
            }
            assert(t[at] == region);
        }
        assert(after.has(region.base, region.size, region.live));
        if region.live {
            if self.blocks().contains_key(region.base) {
                let size = self.blocks()[region.base];
                assert(self.has(region.base, size, true));
                let i = choose|i: int|
                    0 <= i < s.len() && #[trigger] s[i] == (Region {
                        base: region.base,
                        size,
                        live: true,
                    });
                if i < at {
                    assert(t[i] == s[i]);
                    assert(t[i].base + t[i].size <= t[at].base);
                } else {
                    assert(t[i + 1] == s[i]);
                    assert(t[at].base + t[at].size <= t[i + 1].base);
                }
                assert(false);
            }
            after.lemma_block(region.base, region.size);
        }
        let expected = if region.live {
            self.blocks().insert(region.base, region.size)
        } else {
            self.blocks()
        };
        assert forall|base: u32| #[trigger]
            after.blocks().contains_key(base) <==> expected.contains_key(base) by {
            if self.blocks().contains_key(base) {
                assert(self.has(base, self.blocks()[base], true));
                assert(after.has(base, self.blocks()[base], true));
            }
            if after.blocks().contains_key(base) {
                assert(after.has(base, after.blocks()[base], true));
            }
        }
        assert forall|base: u32| #[trigger] after.blocks().contains_key(base) implies after.blocks()[base]
            == expected[base] by {
            if self.blocks().contains_key(base) && !(region.live && base == region.base) {
                assert(self.has(base, self.blocks()[base], true));
                after.lemma_block(base, self.blocks()[base]);
            }
        }
        assert(after.blocks() =~= expected);
        assert forall|addr: int| #[trigger]
            after.reserved(addr) <==> self.reserved(addr) || (!region.live && in_range(
                addr,
                region.base as int,
                region.size as int,
            )) by {
            if self.reserved(addr) {
                let (base, size) = choose|base: u32, size: u32|
                    #[trigger] self.has(base, size, false) && in_range(
                        addr,
                        base as int,
                        size as int,
                    );
                assert(after.has(base, size, false));
            }
        }
    }

    pub fn new(reserved_base: VAddr, reserved_size: GuestUSize) -> (allocator: Allocator)
        requires
            reserved_size > 0,
            reserved_base + reserved_size <= address_space(),
        ensures
            allocator.wf(),
            allocator.blocks() == Map::<u32, u32>::empty(),
            forall|addr: int| #[trigger]
                allocator.reserved(addr) <==> in_range(
                    addr,
                    reserved_base as int,
                    reserved_size as int,
                ),
    {
        let mut allocator = Allocator { regions: Vec::new() };
        let region = Region { base: reserved_base, size: reserved_size, live: false };
        let ghost empty = allocator;
        allocator.regions.push(region);
        proof {
            assert(allocator.regions@ =~= empty.regions@.insert(0, region));
            empty.lemma_inserted(allocator, 0, region);
            assert(empty.blocks() =~= Map::empty());
        }
        allocator
    }

    /// Where a block for `size` bytes goes: its base, and its place among the
    /// regions.
    fn find_room(&self, size: GuestUSize) -> (room: Option<(VAddr, usize)>)
        requires
            self.wf(),
        ensures
            room is None <==> !self.has_room(size as int),
            match room {
                None => true,
                Some((base, at)) => {
                    &&& self.fits(base as int, size as int)
                    &&& forall|lower: int| lower < base ==> !#[trigger] self.fits(
                        lower,
                        size as int,
                    )
                    &&& at <= self.regions@.len()
                    &&& forall|i: int|
                        0 <= i < at ==> (#[trigger] self.regions@[i]).base + self.regions@[i].size
                            <= base
                    &&& at < self.regions@.len() ==> base + block_size(size as int)
                        <= self.regions@[at as int].base
                },
            },
    {
        let need: u64 = round_up_u64(size);
        let mut candidate: u64 = 16;
        let mut at: usize = 0;
        while at < self.regions.len()
            invariant
                self.wf(),
                at <= self.regions@.len(),
                need == block_size(size as int),
                16 <= need <= 0x1_0000_0000,
                16 <= candidate <= 0x1_0000_0000,
                candidate % 16 == 0,
                forall|i: int|
                    0 <= i < at ==> (#[trigger] self.regions@[i]).base + self.regions@[i].size
                        <= candidate,
                forall|lower: int| lower < candidate ==> !#[trigger] self.fits(lower, size as int),
            decreases self.regions@.len() - at,
        {
            let region = self.regions[at];
            if candidate + need <= region.base as u64 {
                proof {
                    self.lemma_gap(candidate as int, need as int, at as int);
                    assert(self.fits(candidate as int, size as int));
                }
                return Some((candidate as u32, at));
            }
            let end: u64 = region.base as u64 + region.size as u64;
            let next: u64 = (end + 15) / 16 * 16;
            let ghost before = candidate;
            if next > candidate {
                candidate = next;
            }
            proof {
                assert forall|lower: int| lower < candidate implies !#[trigger] self.fits(
                    lower,
                    size as int,
                ) by {
                    if lower >= before && self.fits(lower, size as int) {
                        assert(lower % 16 == 0);
                        assert(lower < end);
                        self.lemma_overlap(lower, need as int, at as int);
                    }
                }
            }
            at = at + 1;
        }
        if candidate + need <= 0x1_0000_0000 {
            proof {
                self.lemma_gap(candidate as int, need as int, at as int);
                assert(self.fits(candidate as int, size as int));
            }
            Some((candidate as u32, at))
        } else {
            assert forall|base: int| !#[trigger] self.fits(base, size as int) by {}
            None
        }
    }

    /// What lies between two neighbouring regions is free.
    proof fn lemma_gap(self, base: int, size: int, at: int)
        requires
            self.wf(),
            0 <= base,
            size > 0,
            base + size <= address_space(),
            0 <= at <= self.regions@.len(),
            forall|i: int|
                0 <= i < at ==> (#[trigger] self.regions@[i]).base + self.regions@[i].size <= base,
            at < self.regions@.len() ==> base + size <= self.regions@[at].base,
        ensures
            self.is_free(base, size),
    {
        assert forall|addr: int| in_range(addr, base, size) implies !#[trigger] self.allocated(addr)
            && !self.reserved(addr) by {
            self.lemma_taken(addr);
            if self.allocated(addr) || self.reserved(addr) {
                let i = choose|i: int|
                    0 <= i < self.regions@.len() && in_range(
                        addr,
                        (#[trigger] self.regions@[i]).base as int,
                        self.regions@[i].size as int,
                    );
                if i > at {
                    assert(self.regions@[at].base + self.regions@[at].size <= self.regions@[i].base);
                }
            }
        }
    }

    /// What overlaps a region is not free.
    proof fn lemma_overlap(self, base: int, size: int, at: int)
        requires
            self.wf(),
            size > 0,
            0 <= at < self.regions@.len(),
            !disjoint(base, size, self.regions@[at].base as int, self.regions@[at].size as int),
        ensures
            !self.is_free(base, size),
    {
        let region = self.regions@[at];
        assert(region.size > 0);
        if base > region.base {
            self.lemma_taken(base);
            assert(in_range(base, base, size));
            assert(in_range(base, region.base as int, region.size as int));
            assert(self.allocated(base) || self.reserved(base));
        } else {
            self.lemma_taken(region.base as int);
            assert(in_range(region.base as int, base, size));
            assert(in_range(region.base as int, region.base as int, region.size as int));
            assert(self.allocated(region.base as int) || self.reserved(region.base as int));
        }
    }

    /// Adds a region at its place.
    fn insert(&mut self, at: usize, region: Region)
        requires
            old(self).wf(),
            region.size > 0,
            region.base + region.size <= address_space(),
            region.live ==> region.base >= 16 && region.base % 16 == 0 && region.size % 16 == 0,
            at <= old(self).regions@.len(),
            forall|i: int|
                0 <= i < at ==> (#[trigger] old(self).regions@[i]).base + old(self).regions@[i].size
                    <= region.base,
            at < old(self).regions@.len() ==> region.base + region.size <= old(
                self,
            ).regions@[at as int].base,
        ensures
            final(self).wf(),
            final(self).regions@ == old(self).regions@.insert(at as int, region),
    {
        let ghost s = self.regions@;
        self.regions.insert(at, region);
        proof {
            let t = self.regions@;
            assert(t == s.insert(at as int, region));
            assert forall|i: int, j: int| 0 <= i < j < t.len() implies (#[trigger] t[i]).base
                + t[i].size <= (#[trigger] t[j]).base by {
                let si = if i < at {
                    i
                } else {
                    i - 1
                };
                let sj = if j < at {
                    j
                } else {
                    j - 1
                };
                if i != at {
                    assert(t[i] == s[si]);
                }
                if j != at {
                    assert(t[j] == s[sj]);
                    if at < s.len() && sj > at {
                        assert(s[at as int].base + s[at as int].size <= s[sj].base);
                    }
                }
            }
            assert forall|i: int| 0 <= i < t.len() implies {
                &&& #[trigger] t[i].size > 0
                &&& t[i].base + t[i].size <= address_space()
                &&& t[i].live ==> t[i].base >= 16 && t[i].base % 16 == 0 && t[i].size % 16 == 0
            } by {
                if i < at {
                    assert(t[i] == s[i]);
                } else if i > at {
                    assert(t[i] == s[i - 1]);
                }
            }
        }
    }

    /// Whether [Self::allocate] can serve a request for `size` bytes.
    pub fn can_alloc(&self, size: GuestUSize) -> (yes: bool)
        requires
            self.wf(),
        ensures
            yes == self.has_room(size as int),
    {
        self.find_room(size).is_some()
    }

    /// Allocates a block of at least `size` bytes, at the lowest address at
    /// which one fits.
    pub fn allocate(&mut self, size: GuestUSize) -> (base: VAddr)
        requires
            old(self).wf(),
            old(self).has_room(size as int),
        ensures
            final(self).wf(),
            old(self).fits(base as int, size as int),
            forall|lower: int| lower < base ==> !#[trigger] old(self).fits(lower, size as int),
            block_size(size as int) <= u32::MAX,
            !old(self).blocks().contains_key(base),
            final(self).blocks() == old(self).blocks().insert(
                base,
                block_size(size as int) as u32,
            ),
            forall|addr: int| #[trigger] final(self).reserved(addr) <==> old(self).reserved(addr),
    {
        let (base, at) = self.find_room(size).unwrap();
        let region = Region { base, size: round_up_u64(size) as u32, live: true };
        self.insert(at, region);
        proof {
            old(self).lemma_inserted(*self, at as int, region);
        }
        base
    }

    /// The place of a region among those in use, if it overlaps none of them.
    fn find_gap(&self, base: VAddr, size: GuestUSize) -> (gap: Option<usize>)
        requires
            self.wf(),
            size > 0,
        ensures
            gap is Some <==> self.is_free(base as int, size as int),
            match gap {
                None => true,
                Some(at) => {
                    &&& at <= self.regions@.len()
                    &&& forall|i: int|
                        0 <= i < at ==> (#[trigger] self.regions@[i]).base + self.regions@[i].size
                            <= base
                    &&& at < self.regions@.len() ==> base + size <= self.regions@[at as int].base
                },
            },
    {
        let end: u64 = base as u64 + size as u64;
        if end > 0x1_0000_0000 {
            return None;
        }
        let mut at: usize = 0;
        while at < self.regions.len()
            invariant
                self.wf(),
                at <= self.regions@.len(),
                size > 0,
                end == base + size,
                end <= address_space(),
                forall|i: int|
                    0 <= i < at ==> (#[trigger] self.regions@[i]).base + self.regions@[i].size
                        <= base,
            decreases self.regions@.len() - at,
        {
            let region = self.regions[at];
            if end <= region.base as u64 {
                proof {
                    self.lemma_gap(base as int, size as int, at as int);
                }
                return Some(at);
            }
            if region.base as u64 + region.size as u64 > base as u64 {
                proof {
                    self.lemma_overlap(base as int, size as int, at as int);
                }
                return None;
            }
            at = at + 1;
        }
        proof {
            self.lemma_gap(base as int, size as int, at as int);
        }
        Some(at)
    }

    /// Whether [Self::reserve] can take the region.
    pub fn can_reserve(&self, base: VAddr, size: GuestUSize) -> (yes: bool)
        requires
            self.wf(),
            size > 0,
        ensures
            yes == self.is_free(base as int, size as int),
    {
        self.find_gap(base, size).is_some()
    }

    /// Permanently takes a region out of use.
    pub fn reserve(&mut self, base: VAddr, size: GuestUSize)
        requires
            old(self).wf(),
            size > 0,
            old(self).is_free(base as int, size as int),
        ensures
            final(self).wf(),
            final(self).blocks() == old(self).blocks(),
            forall|addr: int| #[trigger]
                final(self).reserved(addr) <==> old(self).reserved(addr) || in_range(
                    addr,
                    base as int,
                    size as int,
                ),
    {
        let at = self.find_gap(base, size).unwrap();
        let region = Region { base, size, live: false };
        self.insert(at, region);
        proof {
            old(self).lemma_inserted(*self, at as int, region);
        }
    }

    /// The place of the live allocation with the given base.
    fn find_block(&self, base: VAddr) -> (found: Option<usize>)
        requires
            self.wf(),
        ensures
            found is Some <==> self.blocks().contains_key(base),
            match found {
                None => true,
                Some(at) => {
                    &&& at < self.regions@.len()
                    &&& self.regions@[at as int] == (Region {
                        base,
                        size: self.blocks()[base],
                        live: true,
                    })
                },
            },
    {
        let mut at: usize = 0;
        while at < self.regions.len()
            invariant
                self.wf(),
                at <= self.regions@.len(),
                forall|i: int|
                    0 <= i < at ==> !((#[trigger] self.regions@[i]).live && self.regions@[i].base
                        == base),
            decreases self.regions@.len() - at,
        {
            let region = self.regions[at];
            if region.live && region.base == base {
                proof {
                    assert(self.regions@[at as int] == (Region {
                        base,
                        size: region.size,
                        live: true,
                    }));
                    assert(self.has(base, region.size, true));
                    self.lemma_block(base, region.size);
                }
                return Some(at);
            }
            at = at + 1;
        }
        None
    }

    /// Size of the live allocation with the given base.
    pub fn try_find_allocated_size(&self, base: VAddr) -> (size: Option<GuestUSize>)
        requires
            self.wf(),
        ensures
            size == if self.blocks().contains_key(base) {
                Some(self.blocks()[base])
            } else {
                None
            },
    {
        match self.find_block(base) {
            Some(at) => Some(self.regions[at].size),
            None => None,
        }
    }

    /// Size of the live allocation with the given base, which must exist.
    pub fn find_allocated_size(&self, base: VAddr) -> (size: GuestUSize)
        requires
            self.wf(),
            self.blocks().contains_key(base),
        ensures
            size == self.blocks()[base],
    {
        let at = self.find_block(base).unwrap();
        self.regions[at].size
    }

    /// Whether `base` is the exact base of a live allocation.
    pub fn is_known_allocation(&self, base: VAddr) -> (known: bool)
        requires
            self.wf(),
        ensures
            known == self.blocks().contains_key(base),
    {
        self.find_block(base).is_some()
    }

    /// Ends a live allocation and returns its size.
    pub fn free(&mut self, base: VAddr) -> (size: GuestUSize)
        requires
            old(self).wf(),
            old(self).blocks().contains_key(base),
        ensures
            final(self).wf(),
            size == old(self).blocks()[base],
            final(self).blocks() == old(self).blocks().remove(base),
            forall|addr: int| #[trigger] final(self).reserved(addr) <==> old(self).reserved(addr),
    {
        let at = self.find_block(base).unwrap();
        let region = self.regions.remove(at);
        proof {
            let s = old(self).regions@;
            let t = self.regions@;
            assert(t == s.remove(at as int));
            assert forall|i: int, j: int| 0 <= i < j < t.len() implies (#[trigger] t[i]).base
                + t[i].size <= (#[trigger] t[j]).base by {
                let si = if i < at {
                    i
                } else {
                    i + 1
                };
                let sj = if j < at {
                    j
                } else {
                    j + 1
                };
                assert(t[i] == s[si] && t[j] == s[sj]);
            }
            assert forall|i: int| 0 <= i < t.len() implies {
                &&& #[trigger] t[i].size > 0
                &&& t[i].base + t[i].size <= address_space()
                &&& t[i].live ==> t[i].base >= 16 && t[i].base % 16 == 0 && t[i].size % 16 == 0
            } by {
                assert(t[i] == s[if i < at {
                    i
                } else {
                    i + 1
                }]);
            }
            assert(s =~= t.insert(at as int, region));
            self.lemma_inserted(*old(self), at as int, region);
            assert(self.blocks() =~= old(self).blocks().remove(base));
        }
        region.size
    }

    /// The live allocations, lowest address first, each with its size.
    pub fn live_blocks(&self) -> (live: Vec<(VAddr, GuestUSize)>)
        requires
            self.wf(),
        ensures
            forall|i: int, j: int| 0 <= i < j < live@.len() ==> live@[i].0 < live@[j].0,
            forall|i: int|
                0 <= i < live@.len() ==> self.blocks().contains_key((#[trigger] live@[i]).0)
                    && self.blocks()[live@[i].0] == live@[i].1,
            forall|base: u32| #[trigger]
                self.blocks().contains_key(base) ==> live@.contains((base, self.blocks()[base])),
    {
        let mut live: Vec<(VAddr, GuestUSize)> = Vec::new();
        let mut at: usize = 0;
        while at < self.regions.len()
            invariant
                self.wf(),
                at <= self.regions@.len(),
                forall|i: int, j: int| 0 <= i < j < live@.len() ==> live@[i].0 < live@[j].0,
                forall|i: int|
                    0 <= i < live@.len() ==> self.has(
                        (#[trigger] live@[i]).0,
                        live@[i].1,
                        true,
                    ),
                at < self.regions@.len() ==> forall|i: int|
                    0 <= i < live@.len() ==> (#[trigger] live@[i]).0 < self.regions@[at as int].base,
                forall|i: int|
                    0 <= i < at && (#[trigger] self.regions@[i]).live ==> live@.contains(
                        (self.regions@[i].base, self.regions@[i].size),
                    ),
            decreases self.regions@.len() - at,
        {
            let region = self.regions[at];
            let ghost before = live@;
            if region.live {
                assert(self.regions@[at as int] == (Region {
                    base: region.base,
                    size: region.size,
                    live: true,
                }));
                live.push((region.base, region.size));
                assert(live@[before.len() as int] == (region.base, region.size));
                assert(forall|x: (u32, u32)| before.contains(x) ==> live@.contains(x)) by {
                    assert(forall|i: int| 0 <= i < before.len() ==> live@[i] == before[i]);
                }
            }
            proof {
                if at + 1 < self.regions@.len() {
                    assert(self.regions@[at as int].base + self.regions@[at as int].size
                        <= self.regions@[at + 1].base);
                }
            }
            at = at + 1;
        }
        proof {
            assert forall|i: int| 0 <= i < live@.len() implies self.blocks().contains_key(
                (#[trigger] live@[i]).0,
            ) && self.blocks()[live@[i].0] == live@[i].1 by {
                self.lemma_block(live@[i].0, live@[i].1);
            }
            assert forall|base: u32| #[trigger] self.blocks().contains_key(base) implies live@.contains(
                (base, self.blocks()[base]),
            ) by {
                assert(self.has(base, self.blocks()[base], true));
            }
        }
        live
    }
}

/// The block size for a request, which can be one byte too large for a
/// guest size.
fn round_up_u64(size: GuestUSize) -> (rounded: u64)
    ensures
        rounded == block_size(size as int),
        16 <= rounded <= 0x1_0000_0000,
        rounded % 16 == 0,
        rounded >= size,
{
    if size == 0 {
        16
    } else {
        (size as u64 + 15) / 16 * 16
    }
}

} // verus!
