//! Searching guest memory for a value.
use vstd::prelude::*;

use crate::mem::encoding::byte_range;
use crate::mem::laws::live_allocation_mapped;
use crate::mem::Mem;
use crate::numeric::digits::{decimal_int, has_hex_prefix};
use crate::trainer::value::VType;

verus! {

/// A place in guest memory that held the value that was searched for.
#[derive(Clone, Copy, Debug, PartialEq, Eq, Structural)]
pub struct SearchResult {
    pub addr: u32,
    pub vtype: VType,
    /// The value.
    pub bits: u64,
    /// Whether the value differs from the one before the last search.
    pub changed: bool,
}

/// Whether the `width` bytes at `addr` all belong to one live allocation.
pub open spec fn within_live(mem: Mem, addr: int, width: int) -> bool {
    exists|base: u32| #[trigger]
        mem.blocks().contains_key(base) && base <= addr && addr + width <= base + mem.blocks()[base]
}

/// The types that a search looks for, by their rank.
pub open spec fn rank(vtype: VType) -> int {
    match vtype {
        VType::U8 => 0,
        VType::I8 => 1,
        VType::U16 => 2,
        VType::I16 => 3,
        VType::U32 => 4,
        VType::I32 => 5,
        VType::F32 => 6,
        VType::Auto => 7,
    }
}

/// Whether a search for `wanted` looks for values of the type `vtype`.
pub open spec fn looks_for(wanted: VType, vtype: VType) -> bool {
    vtype != VType::Auto && (wanted == VType::Auto || wanted == vtype)
}

/// Whether a value of the given type and bits is found at `addr`.
pub open spec fn is_hit(mem: Mem, vtype: VType, bits: u64, addr: int) -> bool {
    within_live(mem, addr, vtype.width() as int) && vtype.bits_at(mem, addr) == bits
}

/// What a search reports for a place.
pub open spec fn hit(addr: u32, vtype: VType, bits: u64) -> SearchResult {
    SearchResult { addr, vtype, bits, changed: false }
}

/// Whether `found` lists all places at which a search finds the value that the
/// text denotes, by type and address. With [VType::Auto] the text is read
/// separately for each type.
pub open spec fn is_search(
    mem: Mem,
    wanted: VType,
    text: Seq<char>,
    found: Seq<SearchResult>,
) -> bool {
    &&& forall|i: int|
        0 <= i < found.len() ==> {
            let r = #[trigger] found[i];
            &&& looks_for(wanted, r.vtype)
            &&& r.vtype.meaning(text) == Some(r.bits)
            &&& is_hit(mem, r.vtype, r.bits, r.addr as int)
            &&& !r.changed
        }
    &&& forall|addr: u32, vtype: VType, bits: u64|
        looks_for(wanted, vtype) && vtype.meaning(text) == Some(bits) && #[trigger] is_hit(
            mem,
            vtype,
            bits,
            addr as int,
        ) ==> found.contains(hit(addr, vtype, bits))
    &&& forall|i: int, j: int| 0 <= i < j < found.len() ==> #[trigger] comes_before(found[i], found[j])
}

/// The order of the results of a search.
pub open spec fn comes_before(a: SearchResult, b: SearchResult) -> bool {
    rank(a.vtype) < rank(b.vtype) || (a.vtype == b.vtype && a.addr < b.addr)
}

/// Whether the bytes of a value lie inside one of the blocks.
pub fn is_within_live(mem: &Mem, addr: u32, width: u32) -> (yes: bool)
    requires
        mem.wf(),
    ensures
        yes == within_live(*mem, addr as int, width as int),
{
    let blocks = mem.live_allocations();
    let end: u64 = addr as u64 + width as u64;
    let mut i: usize = 0;
    while i < blocks.len()
        invariant
            i <= blocks@.len(),
            end == addr + width,
            forall|k: int|
                0 <= k < blocks@.len() ==> mem.blocks().contains_key((#[trigger] blocks@[k]).0)
                    && mem.blocks()[blocks@[k].0] == blocks@[k].1,
            forall|k: int|
                0 <= k < i ==> !((#[trigger] blocks@[k]).0 <= addr && end <= blocks@[k].0
                    + blocks@[k].1),
        decreases blocks@.len() - i,
    {
        let (base, size) = blocks[i];
        if base <= addr && end <= base as u64 + size as u64 {
            assert(mem.blocks().contains_key(blocks@[i as int].0));
            return true;
        }
        i = i + 1;
    }
    proof {
        if within_live(*mem, addr as int, width as int) {
            let base = choose|base: u32| #[trigger]
                mem.blocks().contains_key(base) && base <= addr && addr + width <= base
                    + mem.blocks()[base];
            assert(blocks@.contains((base, mem.blocks()[base])));
        }
    }
    false
}

/// Adds the places inside one block at which the value is found.
fn scan_block(
    mem: &Mem,
    vtype: VType,
    bits: u64,
    base: u32,
    size: u32,
    found: &mut Vec<SearchResult>,
)
    requires
        mem.wf(),
        vtype != VType::Auto,
        mem.blocks().contains_key(base),
        mem.blocks()[base] == size,
    ensures
        final(found)@.len() >= old(found)@.len(),
        final(found)@.take(old(found)@.len() as int) == old(found)@,
        forall|i: int|
            old(found)@.len() <= i < final(found)@.len() ==> {
                let r = #[trigger] final(found)@[i];
                &&& r == hit(r.addr, vtype, bits)
                &&& base <= r.addr < base + size
                &&& is_hit(*mem, vtype, bits, r.addr as int)
            },
        forall|i: int, j: int|
            old(found)@.len() <= i < j < final(found)@.len() ==> (#[trigger] final(found)@[i]).addr
                < (#[trigger] final(found)@[j]).addr,
        forall|addr: u32|
            base <= addr && addr + vtype.width() <= base + size && #[trigger] vtype.bits_at(
                *mem,
                addr as int,
            ) == bits ==> final(found)@.contains(hit(addr, vtype, bits)),
{
    proof {
        live_allocation_mapped(*mem, base);
    }
    let width: u32 = vtype.size();
    let ghost start = found@;
    let end: u64 = base as u64 + size as u64;
    let mut addr: u64 = base as u64;
    assert(found@.take(start.len() as int) =~= start);
    while addr + width as u64 <= end
        invariant
            mem.wf(),
            mem.blocks().contains_key(base),
            mem.blocks()[base] == size,
            mem.mapped(base as int, size as int),
            vtype != VType::Auto,
            width == vtype.width(),
            1 <= width <= 4,
            end == base + size,
            base <= addr <= end,
            found@.len() >= start.len(),
            found@.take(start.len() as int) == start,
            forall|i: int|
                start.len() <= i < found@.len() ==> {
                    let r = #[trigger] found@[i];
                    &&& r == hit(r.addr, vtype, bits)
                    &&& base <= r.addr < addr
                    &&& is_hit(*mem, vtype, bits, r.addr as int)
                },
            forall|i: int, j: int|
                start.len() <= i < j < found@.len() ==> (#[trigger] found@[i]).addr < (
                #[trigger] found@[j]).addr,
            forall|a: u32|
                base <= a < addr && a + width <= end && #[trigger] vtype.bits_at(*mem, a as int)
                    == bits ==> found@.contains(hit(a, vtype, bits)),
        decreases end - addr,
    {
        let here: u32 = addr as u32;
        let read = vtype.read_at(mem, here);
        let ghost before = found@;
        let is_match: bool = match read {
            Some(value) => value == bits,
            None => false,
        };
        if is_match {
            found.push(SearchResult { addr: here, vtype, bits, changed: false });
            proof {
                assert(within_live(*mem, here as int, width as int));
                assert(found@[before.len() as int] == hit(here, vtype, bits));
                assert forall|r: SearchResult| before.contains(r) implies found@.contains(r) by {
                    let k = choose|k: int| 0 <= k < before.len() && before[k] == r;
                    assert(found@[k] == r);
                }
                assert(found@.take(start.len() as int) =~= before.take(start.len() as int));
            }
        }
        addr = addr + 1;
    }
}

/// Adds all places at which a value of one type is found.
fn scan_type(mem: &Mem, vtype: VType, bits: u64, found: &mut Vec<SearchResult>)
    requires
        mem.wf(),
        vtype != VType::Auto,
    ensures
        final(found)@.len() >= old(found)@.len(),
        final(found)@.take(old(found)@.len() as int) == old(found)@,
        forall|i: int|
            old(found)@.len() <= i < final(found)@.len() ==> {
                let r = #[trigger] final(found)@[i];
                &&& r == hit(r.addr, vtype, bits)
                &&& is_hit(*mem, vtype, bits, r.addr as int)
            },
        forall|i: int, j: int|
            old(found)@.len() <= i < j < final(found)@.len() ==> (#[trigger] final(found)@[i]).addr
                < (#[trigger] final(found)@[j]).addr,
        forall|addr: u32| #[trigger]
            is_hit(*mem, vtype, bits, addr as int) ==> final(found)@.contains(
                hit(addr, vtype, bits),
            ),
{
    let ghost start = found@;
    let blocks = mem.live_allocations();
    let mut b: usize = 0;
    assert(found@.take(start.len() as int) =~= start);
    while b < blocks.len()
        invariant
            mem.wf(),
            vtype != VType::Auto,
            b <= blocks@.len(),
            forall|i: int, j: int| 0 <= i < j < blocks@.len() ==> blocks@[i].0 < blocks@[j].0,
            forall|k: int|
                0 <= k < blocks@.len() ==> mem.blocks().contains_key((#[trigger] blocks@[k]).0)
                    && mem.blocks()[blocks@[k].0] == blocks@[k].1,
            found@.len() >= start.len(),
            found@.take(start.len() as int) == start,
            forall|i: int|
                start.len() <= i < found@.len() ==> {
                    let r = #[trigger] found@[i];
                    &&& r == hit(r.addr, vtype, bits)
                    &&& is_hit(*mem, vtype, bits, r.addr as int)
                    &&& b < blocks@.len() ==> r.addr < blocks@[b as int].0
                },
            forall|i: int, j: int|
                start.len() <= i < j < found@.len() ==> (#[trigger] found@[i]).addr < (
                #[trigger] found@[j]).addr,
            forall|k: int, addr: u32|
                0 <= k < b && (#[trigger] blocks@[k]).0 <= addr && addr + vtype.width()
                    <= blocks@[k].0 + blocks@[k].1 && #[trigger] vtype.bits_at(*mem, addr as int)
                    == bits ==> found@.contains(hit(addr, vtype, bits)),
        decreases blocks@.len() - b,
    {
        let (base, size) = blocks[b];
        let ghost before = found@;
        scan_block(mem, vtype, bits, base, size, found);
        proof {
            mem.heap().blocks_apart();
            assert forall|i: int| 0 <= i < before.len() implies #[trigger] found@[i] == before[i] by {
                assert(found@.take(before.len() as int)[i] == before[i]);
            }
            assert(found@.take(start.len() as int) =~= before.take(start.len() as int));
            assert forall|r: SearchResult| before.contains(r) implies found@.contains(r) by {
                let k = choose|k: int| 0 <= k < before.len() && before[k] == r;
                assert(found@[k] == r);
            }
            if b + 1 < blocks@.len() {
                let next = blocks@[b + 1].0;
                assert(mem.blocks().contains_key(next));
                assert(mem.blocks().contains_key(blocks@[b as int].0));
                assert(base < next);
                assert(base + size <= next);
            }
        }
        b = b + 1;
    }
    proof {
        assert forall|addr: u32| #[trigger] is_hit(*mem, vtype, bits, addr as int) implies found@.contains(
            hit(addr, vtype, bits),
        ) by {
            let base = choose|base: u32| #[trigger]
                mem.blocks().contains_key(base) && base <= addr && addr + vtype.width() <= base
                    + mem.blocks()[base];
            assert(blocks@.contains((base, mem.blocks()[base])));
            let k = choose|k: int|
                0 <= k < blocks@.len() && blocks@[k] == (base, mem.blocks()[base]);
            assert(vtype.bits_at(*mem, addr as int) == bits);
            assert(blocks@[k].0 <= addr);
        }
    }
}

/// The type with the given rank.
fn type_of_rank(index: u32) -> (vtype: VType)
    requires
        index < 7,
    ensures
        rank(vtype) == index,
        vtype != VType::Auto,
{
    match index {
        0 => VType::U8,
        1 => VType::I8,
        2 => VType::U16,
        3 => VType::I16,
        4 => VType::U32,
        5 => VType::I32,
        _ => VType::F32,
    }
}

/// Whether `found` lists the results of a search for the types below a rank.
spec fn is_search_below(
    mem: Mem,
    wanted: VType,
    text: Seq<char>,
    found: Seq<SearchResult>,
    limit: int,
) -> bool {
    &&& forall|i: int|
        0 <= i < found.len() ==> {
            let r = #[trigger] found[i];
            &&& looks_for(wanted, r.vtype)
            &&& rank(r.vtype) < limit
            &&& r.vtype.meaning(text) == Some(r.bits)
            &&& is_hit(mem, r.vtype, r.bits, r.addr as int)
            &&& !r.changed
        }
    &&& forall|addr: u32, vtype: VType, bits: u64|
        looks_for(wanted, vtype) && rank(vtype) < limit && vtype.meaning(text) == Some(bits)
            && #[trigger] is_hit(mem, vtype, bits, addr as int) ==> found.contains(
            hit(addr, vtype, bits),
        )
    &&& forall|i: int, j: int| 0 <= i < j < found.len() ==> #[trigger] comes_before(found[i], found[j])
}

/// Searches all live allocations, at every address.
fn search_memory(mem: &Mem, wanted: VType, text: &str) -> (found: Vec<SearchResult>)
    requires
        mem.wf(),
    ensures
        is_search(*mem, wanted, text@, found@),
{
    let mut found: Vec<SearchResult> = Vec::new();
    let mut index: u32 = 0;
    while index < 7
        invariant
            index <= 7,
            mem.wf(),
            is_search_below(*mem, wanted, text@, found@, index as int),
        decreases 7 - index,
    {
        let vtype = type_of_rank(index);
        let ghost before = found@;
        if wanted == VType::Auto || wanted == vtype {
            if let Some(bits) = vtype.parse(text) {
                scan_type(mem, vtype, bits, &mut found);
                proof {
                    assert forall|i: int| 0 <= i < before.len() implies #[trigger] found@[i] == before[i] by {
                        assert(found@.take(before.len() as int)[i] == before[i]);
                    }
                    assert forall|r: SearchResult| before.contains(r) implies found@.contains(
                        r,
                    ) by {
                        let k = choose|k: int| 0 <= k < before.len() && before[k] == r;
                        assert(found@[k] == r);
                    }
                    assert forall|i: int, j: int|
                        0 <= i < j < found@.len() implies #[trigger] comes_before(
                        found@[i],
                        found@[j],
                    ) by {
                        if j < before.len() {
                            assert(comes_before(before[i], before[j]));
                        } else if i >= before.len() {
                            assert(found@[i].addr < found@[j].addr);
                        } else {
                            assert(found@[i] == before[i]);
                        }
                    }
                }
            }
        }
        proof {
            assert forall|addr: u32, t: VType, bits: u64|
                looks_for(wanted, t) && rank(t) < index + 1 && t.meaning(text@) == Some(bits)
                    && #[trigger] is_hit(*mem, t, bits, addr as int) implies found@.contains(
                hit(addr, t, bits),
            ) by {
                if rank(t) == index {
                    assert(t == vtype);
                } else {
                    assert(before.contains(hit(addr, t, bits)));
                }
            }
        }
        index = index + 1;
    }
    found
}

/// Whether a place still holds the value that the text denotes.
pub open spec fn still_matches(
    mem: Mem,
    wanted: VType,
    text: Seq<char>,
    place: SearchResult,
) -> bool {
    &&& looks_for(wanted, place.vtype)
    &&& place.vtype.accessible(mem, place.addr as int)
    &&& place.vtype.meaning(text) == Some(place.vtype.bits_at(mem, place.addr as int))
}

/// The place with the value that it holds now.
pub open spec fn refreshed(mem: Mem, place: SearchResult) -> SearchResult {
    let bits = place.vtype.bits_at(mem, place.addr as int);
    SearchResult { bits, changed: bits != place.bits, ..place }
}

/// What remains of earlier results: the places that hold the value that the
/// text denotes, in the same order.
pub open spec fn refinement(
    mem: Mem,
    wanted: VType,
    text: Seq<char>,
    earlier: Seq<SearchResult>,
) -> Seq<SearchResult>
    decreases earlier.len(),
{
    if earlier.len() == 0 {
        Seq::empty()
    } else {
        let rest = refinement(mem, wanted, text, earlier.drop_last());
        if still_matches(mem, wanted, text, earlier.last()) {
            rest.push(refreshed(mem, earlier.last()))
        } else {
            rest
        }
    }
}

fn refine(
    mem: &Mem,
    wanted: VType,
    text: &str,
    earlier: &[SearchResult],
) -> (found: Vec<SearchResult>)
    requires
        mem.wf(),
    ensures
        found@ == refinement(*mem, wanted, text@, earlier@),
{
    let mut found: Vec<SearchResult> = Vec::new();
    let mut i: usize = 0;
    let count: usize = earlier.len();
    assert(earlier@.take(0) =~= Seq::empty());
    while i < count
        invariant
            i <= count,
            count == earlier@.len(),
            mem.wf(),
            found@ == refinement(*mem, wanted, text@, earlier@.take(i as int)),
        decreases count - i,
    {
        let place = earlier[i];
        proof {
            let longer = earlier@.take(i + 1);
            assert(longer.drop_last() =~= earlier@.take(i as int));
            assert(longer.last() == place);
        }
        if place.vtype != VType::Auto && (wanted == VType::Auto || wanted == place.vtype) {
            let now = place.vtype.read_at(mem, place.addr);
            let sought = place.vtype.parse(text);
            if let (Some(now), Some(sought)) = (now, sought) {
                if now == sought {
                    found.push(
                        SearchResult {
                            addr: place.addr,
                            vtype: place.vtype,
                            bits: now,
                            changed: now != place.bits,
                        },
                    );
                }
            }
        }
        i = i + 1;
    }
    assert(earlier@.take(count as int) =~= earlier@);
    found
}

/// Looks for the value that the text denotes: in all of memory, or only where
/// it was found earlier. Narrowing down an empty list never starts a new
/// search.
pub fn search_all(
    mem: &Mem,
    vtype: VType,
    text: &str,
    earlier: Option<&[SearchResult]>,
) -> (found: Vec<SearchResult>)
    requires
        mem.wf(),
    ensures
        match earlier {
            None => is_search(*mem, vtype, text@, found@),
            Some(earlier) => found@ == refinement(*mem, vtype, text@, earlier@),
        },
{
    match earlier {
        None => search_memory(mem, vtype, text),
        Some(earlier) => refine(mem, vtype, text, earlier),
    }
}

/// Narrowing down results finds no new places: each place that remains was
/// there before, with the same type, and holds the value that was looked for.
/// An empty list stays empty.
pub proof fn refinement_narrows(
    mem: Mem,
    wanted: VType,
    text: Seq<char>,
    earlier: Seq<SearchResult>,
)
    ensures
        refinement(mem, wanted, text, earlier).len() <= earlier.len(),
        refinement(mem, wanted, text, Seq::empty()) == Seq::<SearchResult>::empty(),
        forall|i: int|
            0 <= i < refinement(mem, wanted, text, earlier).len() ==> {
                let r = #[trigger] refinement(mem, wanted, text, earlier)[i];
                &&& r.vtype.meaning(text) == Some(r.bits)
                &&& r.vtype.bits_at(mem, r.addr as int) == r.bits
                &&& exists|j: int|
                    0 <= j < earlier.len() && (#[trigger] earlier[j]).addr == r.addr
                        && earlier[j].vtype == r.vtype && r.changed == (earlier[j].bits != r.bits)
            },
    decreases earlier.len(),
{
    if earlier.len() > 0 {
        let fewer = earlier.drop_last();
        refinement_narrows(mem, wanted, text, fewer);
        let rest = refinement(mem, wanted, text, fewer);
        let all = refinement(mem, wanted, text, earlier);
        assert forall|i: int| 0 <= i < all.len() implies {
            let r = #[trigger] all[i];
            &&& r.vtype.meaning(text) == Some(r.bits)
            &&& r.vtype.bits_at(mem, r.addr as int) == r.bits
            &&& exists|j: int|
                0 <= j < earlier.len() && (#[trigger] earlier[j]).addr == r.addr && earlier[j].vtype
                    == r.vtype && r.changed == (earlier[j].bits != r.bits)
        } by {
            let r = all[i];
            if i < rest.len() {
                assert(r == rest[i]);
                let j = choose|j: int|
                    0 <= j < fewer.len() && (#[trigger] fewer[j]).addr == r.addr && fewer[j].vtype
                        == r.vtype && r.changed == (fewer[j].bits != r.bits);
                assert(earlier[j] == fewer[j]);
            } else {
                let last = earlier[earlier.len() - 1];
                assert(r == refreshed(mem, last));
                assert(last.addr == r.addr);
            }
        }
    }
}

/// A search finds no truncated values: an integer that it finds is the very
/// number that was typed, whatever its type.
pub proof fn found_integers_are_the_number(
    mem: Mem,
    wanted: VType,
    text: Seq<char>,
    found: Seq<SearchResult>,
    i: int,
)
    requires
        is_search(mem, wanted, text, found),
        0 <= i < found.len(),
        found[i].vtype != VType::F32,
        !has_hex_prefix(text),
    ensures
        decimal_int(text) == Some(
            if found[i].bits <= found[i].vtype.bounds().1 {
                found[i].bits as int
            } else {
                found[i].bits - byte_range(found[i].vtype.width())
            },
        ),
{
    let r = found[i];
    assert(r.vtype.meaning(text) == Some(r.bits));
    let bits = choose|bits: u64| r.vtype.denotes(text, bits);
    assert(r.vtype.denotes(text, r.bits));
    r.vtype.shown_as_denoted(text, r.bits);
}

} // verus!
