//! What the trainer's calls do to results and memory.
use vstd::prelude::*;

use crate::mem::encoding::{byte_range, byte_range_of_words, le_value};
use crate::mem::laws::live_allocation_mapped;
use crate::mem::Mem;
use crate::trainer::search::{
    comes_before, hit, is_hit, looks_for, rank, refinement, refreshed, search_all, still_matches,
    within_live, SearchResult,
};
use crate::trainer::value::VType;

verus! {

/// Number of bytes of a value.
pub open spec fn byte_size(vtype: VType) -> int {
    match vtype {
        VType::U8 | VType::I8 => 1,
        VType::U16 | VType::I16 => 2,
        VType::U32 | VType::I32 | VType::F32 => 4,
        VType::Auto => 0,
    }
}

/// The number that the bytes at an address make up, the lowest byte first.
pub open spec fn number_at(mem: Mem, addr: int, size: int) -> int {
    let bytes = mem.contents();
    if size == 1 {
        bytes[addr] as int
    } else if size == 2 {
        bytes[addr] + 0x100 * bytes[addr + 1]
    } else {
        bytes[addr] + 0x100 * bytes[addr + 1] + 0x1_0000 * bytes[addr + 2] + 0x100_0000
            * bytes[addr + 3]
    }
}

/// Whether there is memory at an address: above the null segment, and not past
/// the end of the address space.
pub open spec fn is_there(mem: Mem, addr: int, size: int) -> bool {
    mem.null_size() <= addr && addr + size <= 0x1_0000_0000
}

/// Whether all bytes at an address belong to one allocation.
pub open spec fn is_allocated(mem: Mem, addr: int, size: int) -> bool {
    exists|base: u32| #[trigger]
        mem.blocks().contains_key(base) && base <= addr && addr + size <= base
            + mem.blocks()[base]
}

/// Whether values of a type are asked for, by the type itself or as any of
/// them.
pub open spec fn is_asked_for(wanted: VType, vtype: VType) -> bool {
    vtype != VType::Auto && (wanted == VType::Auto || wanted == vtype)
}

/// Whether a place, whatever was found there before, is of a type that is asked
/// for, and now holds the value that the text stands for in that type.
pub open spec fn holds_now(mem: Mem, wanted: VType, text: Seq<char>, place: SearchResult) -> bool {
    let size = byte_size(place.vtype);
    &&& is_asked_for(wanted, place.vtype)
    &&& is_there(mem, place.addr as int, size)
    &&& place.vtype.meaning(text) == Some(number_at(mem, place.addr as int, size) as u64)
}

/// A place as it is listed when its value has been looked at again.
pub open spec fn relisted(mem: Mem, place: SearchResult) -> SearchResult {
    let now = number_at(mem, place.addr as int, byte_size(place.vtype)) as u64;
    SearchResult { addr: place.addr, vtype: place.vtype, bits: now, changed: now != place.bits }
}

/// Whether `found` lists the places of `earlier` at the indices `from`, which
/// are all those that hold the value now.
pub open spec fn is_narrowed(
    mem: Mem,
    wanted: VType,
    text: Seq<char>,
    earlier: Seq<SearchResult>,
    found: Seq<SearchResult>,
    from: Seq<int>,
) -> bool {
    &&& from.len() == found.len()
    &&& forall|k: int, l: int| 0 <= k < l < from.len() ==> from[k] < from[l]
    &&& forall|k: int|
        0 <= k < from.len() ==> {
            &&& 0 <= #[trigger] from[k] < earlier.len()
            &&& holds_now(mem, wanted, text, earlier[from[k]])
            &&& found[k] == relisted(mem, earlier[from[k]])
        }
    &&& forall|j: int|
        0 <= j < earlier.len() && holds_now(mem, wanted, text, #[trigger] earlier[j])
            ==> from.contains(j)
}

pub proof fn lemma_number_at(mem: Mem, vtype: VType, addr: int)
    requires
        mem.wf(),
        vtype != VType::Auto,
        0 <= addr,
        addr + byte_size(vtype) <= 0x1_0000_0000,
    ensures
        vtype.width() == byte_size(vtype),
        vtype.bits_at(mem, addr) == number_at(mem, addr, byte_size(vtype)),
        0 <= number_at(mem, addr, byte_size(vtype)) < byte_range(vtype.width()),
{
    byte_range_of_words();
    reveal_with_fuel(le_value, 5);
    let bytes = mem.contents().subrange(addr, addr + vtype.width());
    assert(bytes.len() == byte_size(vtype));
    assert(bytes[0] == mem.contents()[addr]);
    if byte_size(vtype) == 1 {
        assert(bytes.drop_first().len() == 0);
    } else if byte_size(vtype) == 2 {
        assert(bytes.drop_first()[0] == mem.contents()[addr + 1]);
        assert(bytes.drop_first().drop_first().len() == 0);
    } else {
        let b1 = bytes.drop_first();
        let b2 = b1.drop_first();
        let b3 = b2.drop_first();
        assert(b1[0] == mem.contents()[addr + 1]);
        assert(b2[0] == mem.contents()[addr + 2]);
        assert(b3[0] == mem.contents()[addr + 3]);
        assert(b3.drop_first().len() == 0);
        assert(le_value(b3) == b3[0] as nat);
        assert(le_value(b2) == b2[0] as nat + 256 * le_value(b3));
        assert(le_value(b1) == b1[0] as nat + 256 * le_value(b2));
        assert(le_value(bytes) == bytes[0] as nat + 256 * le_value(b1));
    }
}

proof fn lemma_holds_now(mem: Mem, wanted: VType, text: Seq<char>, place: SearchResult)
    requires
        mem.wf(),
    ensures
        holds_now(mem, wanted, text, place) == still_matches(mem, wanted, text, place),
        holds_now(mem, wanted, text, place) ==> relisted(mem, place) == refreshed(mem, place),
{
    if is_asked_for(wanted, place.vtype) && is_there(
        mem,
        place.addr as int,
        byte_size(place.vtype),
    ) {
        lemma_number_at(mem, place.vtype, place.addr as int);
    }
}

pub proof fn lemma_narrowed(
    mem: Mem,
    wanted: VType,
    text: Seq<char>,
    earlier: Seq<SearchResult>,
) -> (from: Seq<int>)
    requires
        mem.wf(),
    ensures
        is_narrowed(mem, wanted, text, earlier, refinement(mem, wanted, text, earlier), from),
    decreases earlier.len(),
{
    if earlier.len() == 0 {
        Seq::empty()
    } else {
        let fewer = earlier.drop_last();
        let last = earlier.len() - 1;
        let before = lemma_narrowed(mem, wanted, text, fewer);
        lemma_holds_now(mem, wanted, text, earlier[last]);
        let from = if holds_now(mem, wanted, text, earlier[last]) {
            before.push(last)
        } else {
            before
        };
        assert forall|j: int|
            0 <= j < earlier.len() && holds_now(
                mem,
                wanted,
                text,
                #[trigger] earlier[j],
            ) implies from.contains(j) by {
            if j < last {
                assert(fewer[j] == earlier[j]);
                let k = before.index_of(j);
                assert(from[k] == j);
            } else {
                assert(from[before.len() as int] == j);
            }
        }
        assert forall|k: int| 0 <= k < from.len() implies {
            &&& 0 <= #[trigger] from[k] < earlier.len()
            &&& holds_now(mem, wanted, text, earlier[from[k]])
            &&& refinement(mem, wanted, text, earlier)[k] == relisted(mem, earlier[from[k]])
        } by {
            if k < before.len() {
                assert(fewer[before[k]] == earlier[from[k]]);
            }
        }
        from
    }
}

/// Narrowing results down loses nothing and adds nothing: of the earlier
/// places, in their order, exactly those remain that now hold the value that
/// the text stands for, whatever value they were listed with. They are listed
/// with the value that they hold now, and whether it has changed.
pub proof fn narrowing_keeps_what_holds(
    mem: &Mem,
    wanted: VType,
    text: &str,
    earlier: &[SearchResult],
    found: Vec<SearchResult>,
)
    requires
        mem.wf(),
        call_ensures(search_all, (mem, wanted, text, Some(earlier)), found),
    ensures
        exists|from: Seq<int>|
            is_narrowed(*mem, wanted, text@, earlier@, found@, from),
        forall|j: int|
            0 <= j < earlier@.len() && holds_now(*mem, wanted, text@, #[trigger] earlier@[j])
                ==> found@.contains(relisted(*mem, earlier@[j])),
{
    let from = lemma_narrowed(*mem, wanted, text@, earlier@);
    assert(is_narrowed(*mem, wanted, text@, earlier@, found@, from));
    assert forall|j: int|
        0 <= j < earlier@.len() && holds_now(
            *mem,
            wanted,
            text@,
            #[trigger] earlier@[j],
        ) implies found@.contains(relisted(*mem, earlier@[j])) by {
        let k = from.index_of(j);
        assert(from[k] == j);
        assert(found@[k] == relisted(*mem, earlier@[j]));
    }
}

/// The types in the order in which a search lists them.
pub open spec fn type_order(vtype: VType) -> int {
    match vtype {
        VType::U8 => 0,
        VType::I8 => 1,
        VType::U16 => 2,
        VType::I16 => 3,
        VType::U32 => 4,
        VType::I32 => 5,
        VType::F32 => 6,
        VType::Auto => 7,
    }
}

/// Whether `found` lists every place in an allocation that holds the value that
/// the text stands for in one of the types that are asked for, once, and
/// nothing else: by type, and then by address.
pub open spec fn is_complete(
    mem: Mem,
    wanted: VType,
    text: Seq<char>,
    found: Seq<SearchResult>,
) -> bool {
    &&& forall|addr: u32, vtype: VType| #[trigger]
        is_allocated(mem, addr as int, byte_size(vtype)) && is_asked_for(wanted, vtype)
            && vtype.meaning(text) == Some(number_at(mem, addr as int, byte_size(vtype)) as u64)
            ==> found.contains(
            SearchResult {
                addr,
                vtype,
                bits: number_at(mem, addr as int, byte_size(vtype)) as u64,
                changed: false,
            },
        )
    &&& forall|i: int|
        0 <= i < found.len() ==> {
            let place = #[trigger] found[i];
            let size = byte_size(place.vtype);
            &&& is_asked_for(wanted, place.vtype)
            &&& is_allocated(mem, place.addr as int, size)
            &&& place.bits == number_at(mem, place.addr as int, size)
            &&& place.vtype.meaning(text) == Some(place.bits)
            &&& !place.changed
        }
    &&& forall|i: int, j: int|
        0 <= i < j < found.len() ==> {
            ||| type_order((#[trigger] found[i]).vtype) < type_order((#[trigger] found[j]).vtype)
            ||| found[i].vtype == found[j].vtype && found[i].addr < found[j].addr
        }
}

pub proof fn lemma_allocated(mem: Mem, vtype: VType, addr: int)
    requires
        mem.wf(),
    ensures
        is_allocated(mem, addr, byte_size(vtype)) == within_live(
            mem,
            addr,
            vtype.width() as int,
        ),
        is_allocated(mem, addr, byte_size(vtype)) && vtype != VType::Auto ==> {
            &&& 0 <= addr
            &&& addr + byte_size(vtype) <= 0x1_0000_0000
            &&& mem.null_size() <= addr
        },
{
    assert(byte_size(vtype) == vtype.width());
    if is_allocated(mem, addr, byte_size(vtype)) {
        let base = choose|base: u32| #[trigger]
            mem.blocks().contains_key(base) && base <= addr && addr + byte_size(vtype) <= base
                + mem.blocks()[base];
        live_allocation_mapped(mem, base);
        assert(within_live(mem, addr, vtype.width() as int));
    }
    if within_live(mem, addr, vtype.width() as int) {
        let base = choose|base: u32| #[trigger]
            mem.blocks().contains_key(base) && base <= addr && addr + vtype.width() <= base
                + mem.blocks()[base];
        assert(is_allocated(mem, addr, byte_size(vtype)));
    }
}

pub proof fn lemma_complete(mem: Mem, wanted: VType, text: Seq<char>, found: Seq<SearchResult>)
    requires
        mem.wf(),
        crate::trainer::search::is_search(mem, wanted, text, found),
    ensures
        is_complete(mem, wanted, text, found),
{
    assert forall|addr: u32, vtype: VType| #[trigger]
        is_allocated(mem, addr as int, byte_size(vtype)) && is_asked_for(wanted, vtype)
            && vtype.meaning(text) == Some(
            number_at(mem, addr as int, byte_size(vtype)) as u64,
        ) implies found.contains(
        SearchResult {
            addr,
            vtype,
            bits: number_at(mem, addr as int, byte_size(vtype)) as u64,
            changed: false,
        },
    ) by {
        lemma_allocated(mem, vtype, addr as int);
        lemma_number_at(mem, vtype, addr as int);
        let bits = number_at(mem, addr as int, byte_size(vtype)) as u64;
        assert(looks_for(wanted, vtype));
        assert(is_hit(mem, vtype, bits, addr as int));
        assert(found.contains(hit(addr, vtype, bits)));
    }
    assert forall|i: int| 0 <= i < found.len() implies {
        let place = #[trigger] found[i];
        let size = byte_size(place.vtype);
        &&& is_asked_for(wanted, place.vtype)
        &&& is_allocated(mem, place.addr as int, size)
        &&& place.bits == number_at(mem, place.addr as int, size)
        &&& place.vtype.meaning(text) == Some(place.bits)
        &&& !place.changed
    } by {
        let place = found[i];
        lemma_allocated(mem, place.vtype, place.addr as int);
        lemma_number_at(mem, place.vtype, place.addr as int);
    }
    assert forall|i: int, j: int| 0 <= i < j < found.len() implies {
        ||| type_order((#[trigger] found[i]).vtype) < type_order((#[trigger] found[j]).vtype)
        ||| found[i].vtype == found[j].vtype && found[i].addr < found[j].addr
    } by {
        assert(comes_before(found[i], found[j]));
        assert(rank(found[i].vtype) == type_order(found[i].vtype));
    }
}

/// A search finds every place in the allocations, aligned or not, that holds
/// the value that the text stands for, and no other.
pub proof fn search_finds_every_place(
    mem: &Mem,
    wanted: VType,
    text: &str,
    found: Vec<SearchResult>,
)
    requires
        mem.wf(),
        call_ensures(search_all, (mem, wanted, text, None), found),
    ensures
        is_complete(*mem, wanted, text@, found@),
{
    lemma_complete(*mem, wanted, text@, found@);
}

} // verus!
