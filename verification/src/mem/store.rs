//! The bytes of the guest address space, kept only where they are used.
use vstd::prelude::*;

use crate::mem::bytes::{clear, splice, store, zeros};
use crate::mem::ptr::address_space;

verus! {

/// Storage is set aside in multiples of this many bytes.
const GRAIN: u64 = 0x1000;

/// A contiguous part of the address space that has storage.
struct Extent {
    base: u64,
    bytes: Vec<u8>,
}

impl Extent {
    spec fn end(self) -> int {
        self.base + self.bytes@.len()
    }

    spec fn covers(self, addr: int) -> bool {
        self.base <= addr < self.end()
    }

    /// Whether this has storage for all of a range.
    spec fn spans(self, start: int, end: int) -> bool {
        self.base <= start && end <= self.end()
    }

    /// Whether this has an address in common with a range.
    spec fn meets(self, start: int, end: int) -> bool {
        self.base < end && start < self.end()
    }
}

spec fn well_placed(extents: Seq<Extent>) -> bool {
    &&& forall|i: int| 0 <= i < extents.len() ==> extent_ok(#[trigger] extents[i])
    &&& forall|i: int, j: int|
        0 <= i < j < extents.len() ==> !(#[trigger] extents[i]).meets(
            (#[trigger] extents[j]).base as int,
            extents[j].end(),
        )
}

spec fn extent_ok(extent: Extent) -> bool {
    extent.bytes@.len() > 0 && extent.end() <= address_space()
}

spec fn has_storage(extents: Seq<Extent>, addr: int) -> bool {
    exists|i: int| 0 <= i < extents.len() && (#[trigger] extents[i]).covers(addr)
}

/// The byte at an address. Where there is no storage, it is zero.
spec fn byte_of(extents: Seq<Extent>, addr: int) -> u8 {
    if has_storage(extents, addr) {
        let i = choose|i: int| 0 <= i < extents.len() && (#[trigger] extents[i]).covers(addr);
        extents[i].bytes@[addr - extents[i].base]
    } else {
        0
    }
}

/// The bytes of the whole address space.
spec fn contents_of(extents: Seq<Extent>) -> Seq<u8> {
    Seq::new(address_space() as nat, |addr: int| byte_of(extents, addr))
}

proof fn lemma_byte(extents: Seq<Extent>, i: int, addr: int)
    requires
        well_placed(extents),
        0 <= i < extents.len(),
        extents[i].covers(addr),
    ensures
        has_storage(extents, addr),
        byte_of(extents, addr) == extents[i].bytes@[addr - extents[i].base],
{
    let j = choose|j: int| 0 <= j < extents.len() && (#[trigger] extents[j]).covers(addr);
    if i < j {
        assert(!extents[i].meets(extents[j].base as int, extents[j].end()));
    } else if j < i {
        assert(!extents[j].meets(extents[i].base as int, extents[i].end()));
    }
}

/// The bytes of the whole address space. All of them are zero at first.
///
/// Storage is set aside for the parts that are written, so that the address
/// space can be much larger than the memory of the host.
pub struct Store {
    extents: Vec<Extent>,
}

impl Store {
    pub closed spec fn wf(self) -> bool {
        well_placed(self.extents@)
    }

    /// The bytes, by address.
    pub closed spec fn contents(self) -> Seq<u8> {
        contents_of(self.extents@)
    }

    pub fn new() -> (result: Store)
        ensures
            result.wf(),
            result.contents() == zeros(address_space()),
    {
        let result = Store { extents: Vec::new() };
        assert(result.contents() =~= zeros(address_space()));
        result
    }

    /// Copies bytes out.
    pub fn read(&self, addr: u32, count: u32) -> (bytes: Vec<u8>)
        requires
            self.wf(),
            addr + count <= address_space(),
        ensures
            bytes@ == self.contents().subrange(addr as int, addr + count),
    {
        let start: u64 = addr as u64;
        let end: u64 = start + count as u64;
        let mut bytes: Vec<u8> = vec![0u8; count as usize];
        let mut i: usize = 0;
        while i < self.extents.len()
            invariant
                self.wf(),
                i <= self.extents@.len(),
                start == addr,
                end == addr + count,
                end <= address_space(),
                bytes@.len() == count,
                forall|k: int|
                    0 <= k < count ==> #[trigger] bytes@[k] == byte_of(
                        self.extents@.take(i as int),
                        addr + k,
                    ),
            decreases self.extents@.len() - i,
        {
            let ghost few = self.extents@.take(i as int);
            let ghost more = self.extents@.take(i + 1);
            let ghost before = bytes@;
            proof {
                lemma_take_placed(self.extents@, i as int);
                lemma_take_placed(self.extents@, i + 1);
                assert(extent_ok(self.extents@[i as int]));
            }
            let extent: &Extent = &self.extents[i];
            let extent_end: u64 = extent.base + extent.bytes.len() as u64;
            let from: u64 = if extent.base > start {
                extent.base
            } else {
                start
            };
            let to: u64 = if extent_end < end {
                extent_end
            } else {
                end
            };
            let mut a: u64 = from;
            while a < to
                invariant
                    start == addr,
                    end == addr + count,
                    end <= address_space(),
                    start <= from,
                    extent.base <= from,
                    to <= end,
                    to <= extent.end(),
                    from <= a,
                    a <= to || a == from,
                    bytes@.len() == count,
                    forall|k: int|
                        0 <= k < count ==> #[trigger] bytes@[k] == if from <= addr + k < a {
                            extent.bytes@[addr + k - extent.base]
                        } else {
                            before[k]
                        },
                decreases to - a,
            {
                bytes[(a - start) as usize] = extent.bytes[(a - extent.base) as usize];
                a = a + 1;
            }
            proof {
                assert forall|k: int| 0 <= k < count implies #[trigger] bytes@[k] == byte_of(
                    more,
                    addr + k,
                ) by {
                    lemma_byte_more(self.extents@, i as int, addr + k);
                    assert(before[k] == byte_of(few, addr + k));
                }
            }
            i = i + 1;
        }
        proof {
            assert(self.extents@.take(i as int) =~= self.extents@);
            assert(bytes@ =~= self.contents().subrange(addr as int, addr + count));
        }
        bytes
    }
}

proof fn lemma_take_placed(extents: Seq<Extent>, count: int)
    requires
        well_placed(extents),
        0 <= count <= extents.len(),
    ensures
        well_placed(extents.take(count)),
{
    let few = extents.take(count);
    assert forall|i: int, j: int| 0 <= i < j < few.len() implies !(#[trigger] few[i]).meets(
        (#[trigger] few[j]).base as int,
        few[j].end(),
    ) by {
        assert(few[i] == extents[i] && few[j] == extents[j]);
    }
    assert forall|i: int| 0 <= i < few.len() implies extent_ok(#[trigger] few[i]) by {
        assert(few[i] == extents[i]);
    }
}

/// What one more extent adds.
proof fn lemma_byte_more(extents: Seq<Extent>, i: int, addr: int)
    requires
        well_placed(extents),
        0 <= i < extents.len(),
    ensures
        byte_of(extents.take(i + 1), addr) == if extents[i].covers(addr) {
            extents[i].bytes@[addr - extents[i].base]
        } else {
            byte_of(extents.take(i), addr)
        },
        has_storage(extents.take(i + 1), addr) == (extents[i].covers(addr) || has_storage(
            extents.take(i),
            addr,
        )),
{
    let few = extents.take(i);
    let more = extents.take(i + 1);
    lemma_take_placed(extents, i);
    lemma_take_placed(extents, i + 1);
    assert(more[i] == extents[i]);
    if extents[i].covers(addr) {
        lemma_byte(more, i, addr);
    }
    if has_storage(few, addr) {
        let k = choose|k: int| 0 <= k < few.len() && (#[trigger] few[k]).covers(addr);
        assert(more[k] == few[k]);
        lemma_byte(few, k, addr);
        lemma_byte(more, k, addr);
    }
    if has_storage(more, addr) && !extents[i].covers(addr) {
        let k = choose|k: int| 0 <= k < more.len() && (#[trigger] more[k]).covers(addr);
        assert(few[k] == more[k]);
    }
}

impl Store {
    /// Sets storage aside for a range, in one piece, and returns its place.
    fn cover(&mut self, start: u64, end: u64) -> (place: usize)
        requires
            old(self).wf(),
            start < end <= address_space(),
            end - start <= u32::MAX,
        ensures
            final(self).wf(),
            final(self).contents() == old(self).contents(),
            place < final(self).extents@.len(),
            final(self).extents@[place as int].base <= start,
            end <= final(self).extents@[place as int].end(),
    {
        if let Some(place) = self.find_cover(start, end) {
            return place;
        }
        let page_start: u64 = start / GRAIN * GRAIN;
        let page_end: u64 = if end <= 0xffff_f000 {
            (end + (GRAIN - 1)) / GRAIN * GRAIN
        } else {
            0x1_0000_0000
        };
        if page_end - page_start <= 0xffff_ffff {
            self.carve(page_start, page_end)
        } else {
            self.carve(start, end)
        }
    }

    /// The first extent that has storage for all of a range, if there is one.
    fn find_cover(&self, start: u64, end: u64) -> (place: Option<usize>)
        requires
            self.wf(),
            start <= end <= address_space(),
        ensures
            match place {
                Some(i) => {
                    &&& i < self.extents@.len()
                    &&& self.extents@[i as int].spans(start as int, end as int)
                    &&& forall|k: int|
                        0 <= k < i ==> !(#[trigger] self.extents@[k]).spans(
                            start as int,
                            end as int,
                        )
                },
                None => forall|k: int|
                    0 <= k < self.extents@.len() ==> !(#[trigger] self.extents@[k]).spans(
                        start as int,
                        end as int,
                    ),
            },
    {
        let mut i: usize = 0;
        while i < self.extents.len()
            invariant
                self.wf(),
                i <= self.extents@.len(),
                forall|k: int|
                    0 <= k < i ==> !(#[trigger] self.extents@[k]).spans(start as int, end as int),
            decreases self.extents@.len() - i,
        {
            let extent: &Extent = &self.extents[i];
            assert(extent_ok(self.extents@[i as int]));
            if extent.base <= start && end <= extent.base + extent.bytes.len() as u64 {
                return Some(i);
            }
            i = i + 1;
        }
        None
    }

    /// Moves all storage in a range into one extent of just that range. What
    /// is left of other extents stays, in front of the range and behind it.
    fn carve(&mut self, start: u64, end: u64) -> (place: usize)
        requires
            old(self).wf(),
            start < end <= address_space(),
            end - start <= u32::MAX,
        ensures
            final(self).wf(),
            final(self).contents() == old(self).contents(),
            place < final(self).extents@.len(),
            final(self).extents@[place as int].base == start,
            final(self).extents@[place as int].end() == end,
    {
        let ghost before = self.extents@;
        let size: usize = (end - start) as usize;
        let mut bytes: Vec<u8> = vec![0u8; size];
        let mut kept: Vec<Extent> = Vec::new();
        let ghost mut origin: Seq<int> = Seq::empty();
        proof {
            assert(before.skip(before.len() as int) =~= Seq::<Extent>::empty());
        }
        while self.extents.len() > 0
            invariant
                start < end <= address_space(),
                well_placed(before),
                self.extents@.len() <= before.len(),
                self.extents@ == before.take(self.extents@.len() as int),
                bytes@.len() == end - start,
                is_carved(
                    before,
                    self.extents@.len() as int,
                    kept@,
                    origin,
                    start as int,
                    end as int,
                ),
                forall|a: int|
                    start <= a < end ==> #[trigger] bytes@[a - start] == byte_of(
                        before.skip(self.extents@.len() as int),
                        a,
                    ),
            decreases self.extents@.len(),
        {
            let ghost n = self.extents@.len() as int;
            let ghost old_kept = kept@;
            let ghost old_bytes = bytes@;
            let ghost old_origin = origin;
            let mut extent = self.extents.pop().unwrap();
            let ghost whole = extent;
            proof {
                assert(extent == before[n - 1]);
                assert(self.extents@ =~= before.take(n - 1));
                assert(extent_ok(extent));
            }
            let base: u64 = extent.base;
            let extent_end: u64 = base + extent.bytes.len() as u64;
            if !(base < end && start < extent_end) {
                kept.push(extent);
                proof {
                    origin = origin.push(n - 1);
                }
            } else {
                if extent_end > end {
                    let rest = extent.bytes.split_off((end - base) as usize);
                    kept.push(Extent { base: end, bytes: rest });
                    proof {
                        origin = origin.push(n - 1);
                    }
                }
                if base < start {
                    let middle = extent.bytes.split_off((start - base) as usize);
                    store(&mut bytes, 0, middle.as_slice());
                    kept.push(extent);
                    proof {
                        origin = origin.push(n - 1);
                    }
                } else {
                    store(&mut bytes, (base - start) as usize, extent.bytes.as_slice());
                }
            }
            proof {
                let pieces = kept@.skip(old_kept.len() as int);
                assert(kept@ =~= old_kept + pieces);
                assert(origin =~= old_origin + Seq::new(pieces.len(), |j: int| n - 1));
                assert forall|a: int|
                    before[n - 1].covers(a) && !(start <= a < end) implies has_storage(
                    pieces,
                    a,
                ) by {
                    if !whole.meets(start as int, end as int) {
                        assert(pieces[0].covers(a));
                    } else if a >= end {
                        assert(pieces[0].covers(a));
                    } else {
                        assert(pieces[pieces.len() - 1].covers(a));
                    }
                }
                lemma_pieces(
                    before,
                    n,
                    old_kept,
                    old_origin,
                    start as int,
                    end as int,
                    pieces,
                );
                assert forall|a: int| start <= a < end implies #[trigger] bytes@[a - start]
                    == byte_of(before.skip(n - 1), a) by {
                    lemma_byte_skip(before, n - 1, a);
                    assert(old_bytes[a - start] == byte_of(before.skip(n), a));
                }
            }
        }
        let place: usize = kept.len();
        let ghost others = kept@;
        let merged = Extent { base: start, bytes };
        kept.push(merged);
        self.extents = kept;
        proof {
            let after = self.extents@;
            assert(before.skip(0) =~= before);
            assert(after[place as int] == merged);
            assert forall|i: int, j: int| 0 <= i < j < after.len() implies !(
            #[trigger] after[i]).meets((#[trigger] after[j]).base as int, after[j].end()) by {
                if j < place {
                    assert(after[i] == others[i] && after[j] == others[j]);
                } else {
                    assert(after[i] == others[i]);
                }
            }
            assert forall|i: int| 0 <= i < after.len() implies extent_ok(#[trigger] after[i]) by {
                if i < place {
                    assert(after[i] == others[i]);
                }
            }
            assert(well_placed(after));
            assert forall|a: int| byte_of(before, a) == byte_of(after, a) by {
                if merged.covers(a) {
                    lemma_byte(after, place as int, a);
                } else {
                    assert(has_storage(others, a) == has_storage(before.skip(0), a));
                    assert(byte_of(others, a) == byte_of(before.skip(0), a));
                    if has_storage(others, a) {
                        let i = choose|i: int|
                            0 <= i < others.len() && (#[trigger] others[i]).covers(a);
                        assert(after[i] == others[i]);
                        lemma_byte(others, i, a);
                        lemma_byte(after, i, a);
                    } else if has_storage(after, a) {
                        let i = choose|i: int|
                            0 <= i < after.len() && (#[trigger] after[i]).covers(a);
                        assert(others[i] == after[i]);
                    }
                }
            }
            assert(self.contents() =~= old(self).contents());
        }
        place
    }
}

/// Whether `kept` is what the extents from `n` on have outside of a range.
/// `origin` says which extent each one is a part of.
spec fn is_carved(
    before: Seq<Extent>,
    n: int,
    kept: Seq<Extent>,
    origin: Seq<int>,
    start: int,
    end: int,
) -> bool {
    &&& well_placed(kept)
    &&& origin.len() == kept.len()
    &&& forall|j: int|
        0 <= j < kept.len() ==> {
            &&& n <= #[trigger] origin[j] < before.len()
            &&& before[origin[j]].base <= kept[j].base
            &&& kept[j].end() <= before[origin[j]].end()
        }
    &&& forall|j: int| 0 <= j < kept.len() ==> !(#[trigger] kept[j]).meets(start, end)
    &&& forall|a: int|
        #![trigger has_storage(kept, a)]
        #![trigger byte_of(kept, a)]
        !(start <= a < end) ==> has_storage(kept, a) == has_storage(before.skip(n), a) && byte_of(
            kept,
            a,
        ) == byte_of(before.skip(n), a)
}

proof fn lemma_skip_placed(extents: Seq<Extent>, n: int)
    requires
        well_placed(extents),
        0 <= n <= extents.len(),
    ensures
        well_placed(extents.skip(n)),
{
    let rest = extents.skip(n);
    assert forall|i: int, j: int| 0 <= i < j < rest.len() implies !(#[trigger] rest[i]).meets(
        (#[trigger] rest[j]).base as int,
        rest[j].end(),
    ) by {
        assert(rest[i] == extents[n + i] && rest[j] == extents[n + j]);
    }
    assert forall|i: int| 0 <= i < rest.len() implies extent_ok(#[trigger] rest[i]) by {
        assert(rest[i] == extents[n + i]);
    }
}

/// What one more extent in front adds.
proof fn lemma_byte_skip(extents: Seq<Extent>, n: int, addr: int)
    requires
        well_placed(extents),
        0 <= n < extents.len(),
    ensures
        byte_of(extents.skip(n), addr) == if extents[n].covers(addr) {
            extents[n].bytes@[addr - extents[n].base]
        } else {
            byte_of(extents.skip(n + 1), addr)
        },
        has_storage(extents.skip(n), addr) == (extents[n].covers(addr) || has_storage(
            extents.skip(n + 1),
            addr,
        )),
        has_storage(extents.skip(n + 1), addr) ==> !extents[n].covers(addr),
{
    let few = extents.skip(n + 1);
    let more = extents.skip(n);
    lemma_skip_placed(extents, n);
    lemma_skip_placed(extents, n + 1);
    assert(more[0] == extents[n]);
    if extents[n].covers(addr) {
        lemma_byte(more, 0, addr);
    }
    if has_storage(few, addr) {
        let k = choose|k: int| 0 <= k < few.len() && (#[trigger] few[k]).covers(addr);
        assert(more[k + 1] == few[k]);
        lemma_byte(few, k, addr);
        lemma_byte(more, k + 1, addr);
        assert(!more[0].meets(more[k + 1].base as int, more[k + 1].end()));
    }
    if has_storage(more, addr) && !extents[n].covers(addr) {
        let k = choose|k: int| 0 <= k < more.len() && (#[trigger] more[k]).covers(addr);
        assert(few[k - 1] == more[k]);
    }
}

/// Parts of different extents are apart.
proof fn lemma_parts_apart(before: Seq<Extent>, i: int, part: Extent, j: int, other: Extent)
    requires
        well_placed(before),
        0 <= i < before.len(),
        0 <= j < before.len(),
        i != j,
        extent_ok(part),
        extent_ok(other),
        before[i].base <= part.base,
        part.end() <= before[i].end(),
        before[j].base <= other.base,
        other.end() <= before[j].end(),
    ensures
        !part.meets(other.base as int, other.end()),
{
    if i < j {
        assert(!before[i].meets(before[j].base as int, before[j].end()));
    } else {
        assert(!before[j].meets(before[i].base as int, before[i].end()));
    }
}

/// Whether a piece has the bytes of an extent.
spec fn is_piece(whole: Extent, piece: Extent) -> bool {
    &&& extent_ok(piece)
    &&& whole.base <= piece.base
    &&& piece.end() <= whole.end()
    &&& forall|a: int|
        piece.covers(a) ==> #[trigger] piece.bytes@[a - piece.base] == whole.bytes@[a - whole.base]
}

/// What is left of one more extent joins what is left of the others.
proof fn lemma_pieces(
    before: Seq<Extent>,
    n: int,
    kept: Seq<Extent>,
    origin: Seq<int>,
    start: int,
    end: int,
    pieces: Seq<Extent>,
)
    requires
        well_placed(before),
        0 < n <= before.len(),
        is_carved(before, n, kept, origin, start, end),
        well_placed(pieces),
        forall|j: int| 0 <= j < pieces.len() ==> is_piece(before[n - 1], #[trigger] pieces[j]),
        forall|j: int| 0 <= j < pieces.len() ==> !(#[trigger] pieces[j]).meets(start, end),
        forall|a: int|
            before[n - 1].covers(a) && !(start <= a < end) ==> #[trigger] has_storage(pieces, a),
    ensures
        is_carved(
            before,
            n - 1,
            kept + pieces,
            origin + Seq::new(pieces.len(), |j: int| n - 1),
            start,
            end,
        ),
{
    let all = kept + pieces;
    let origins = origin + Seq::new(pieces.len(), |j: int| n - 1);
    let m = kept.len() as int;
    assert forall|j: int| 0 <= j < all.len() implies {
        &&& n - 1 <= #[trigger] origins[j] < before.len()
        &&& before[origins[j]].base <= all[j].base
        &&& all[j].end() <= before[origins[j]].end()
    } by {
        if j < m {
            assert(all[j] == kept[j] && origins[j] == origin[j]);
        } else {
            assert(all[j] == pieces[j - m]);
            assert(is_piece(before[n - 1], pieces[j - m]));
        }
    }
    assert forall|j: int| 0 <= j < all.len() implies extent_ok(#[trigger] all[j]) by {
        if j < m {
            assert(all[j] == kept[j]);
        } else {
            assert(all[j] == pieces[j - m]);
        }
    }
    assert forall|i: int, j: int| 0 <= i < j < all.len() implies !(#[trigger] all[i]).meets(
        (#[trigger] all[j]).base as int,
        all[j].end(),
    ) by {
        if j < m {
            assert(all[i] == kept[i] && all[j] == kept[j]);
        } else if i >= m {
            assert(all[i] == pieces[i - m] && all[j] == pieces[j - m]);
        } else {
            assert(origins[i] == origin[i]);
            assert(origins[j] == n - 1);
            lemma_parts_apart(before, origins[i], all[i], n - 1, all[j]);
        }
    }
    assert forall|j: int| 0 <= j < all.len() implies !(#[trigger] all[j]).meets(start, end) by {
        if j < m {
            assert(all[j] == kept[j]);
        } else {
            assert(all[j] == pieces[j - m]);
        }
    }
    assert(well_placed(all));
    assert forall|a: int|
        #![trigger has_storage(all, a)]
        #![trigger byte_of(all, a)]
        !(start <= a < end) implies has_storage(all, a) == has_storage(before.skip(n - 1), a)
        && byte_of(all, a) == byte_of(before.skip(n - 1), a) by {
        lemma_byte_skip(before, n - 1, a);
        assert(has_storage(kept, a) == has_storage(before.skip(n), a));
        if before[n - 1].covers(a) {
            assert(has_storage(pieces, a));
            let j = choose|j: int| 0 <= j < pieces.len() && (#[trigger] pieces[j]).covers(a);
            assert(all[m + j] == pieces[j]);
            assert(is_piece(before[n - 1], pieces[j]));
            lemma_byte(all, m + j, a);
        } else if has_storage(kept, a) {
            let j = choose|j: int| 0 <= j < kept.len() && (#[trigger] kept[j]).covers(a);
            assert(all[j] == kept[j]);
            lemma_byte(kept, j, a);
            lemma_byte(all, j, a);
        } else if has_storage(all, a) {
            let j = choose|j: int| 0 <= j < all.len() && (#[trigger] all[j]).covers(a);
            if j < m {
                assert(kept[j] == all[j]);
            } else {
                assert(all[j] == pieces[j - m]);
                assert(is_piece(before[n - 1], pieces[j - m]));
            }
        }
    }
}

/// Changing bytes of one extent changes just those.
proof fn lemma_changed(before: Seq<Extent>, after: Seq<Extent>, place: int, addr: int)
    requires
        well_placed(before),
        0 <= place < before.len(),
        after.len() == before.len(),
        forall|k: int| 0 <= k < before.len() && k != place ==> #[trigger] after[k] == before[k],
        after[place].base == before[place].base,
        after[place].bytes@.len() == before[place].bytes@.len(),
    ensures
        well_placed(after),
        byte_of(after, addr) == if before[place].covers(addr) {
            after[place].bytes@[addr - after[place].base]
        } else {
            byte_of(before, addr)
        },
{
    assert forall|i: int, j: int| 0 <= i < j < after.len() implies !(#[trigger] after[i]).meets(
        (#[trigger] after[j]).base as int,
        after[j].end(),
    ) by {
        assert(!before[i].meets(before[j].base as int, before[j].end()));
    }
    assert forall|i: int| 0 <= i < after.len() implies extent_ok(#[trigger] after[i]) by {
        assert(extent_ok(before[i]));
    }
    if before[place].covers(addr) {
        assert(after[place].covers(addr));
        lemma_byte(after, place, addr);
    } else if has_storage(before, addr) {
        let i = choose|i: int| 0 <= i < before.len() && (#[trigger] before[i]).covers(addr);
        assert(after[i] == before[i]);
        lemma_byte(before, i, addr);
        lemma_byte(after, i, addr);
    } else if has_storage(after, addr) {
        let i = choose|i: int| 0 <= i < after.len() && (#[trigger] after[i]).covers(addr);
        assert(before[i].covers(addr));
    }
}

impl Store {
    /// Writes bytes.
    pub fn write(&mut self, addr: u32, data: &[u8])
        requires
            old(self).wf(),
            data@.len() <= u32::MAX,
            addr + data@.len() <= address_space(),
        ensures
            final(self).wf(),
            final(self).contents() == splice(old(self).contents(), addr as int, data@),
    {
        let start: u64 = addr as u64;
        if data.len() == 0 {
            assert(self.contents() =~= splice(self.contents(), addr as int, data@));
            return ;
        }
        let end: u64 = start + data.len() as u64;
        let place: usize = self.cover(start, end);
        let ghost before = self.extents@;
        let base: u64 = self.extents[place].base;
        let extent: &mut Extent = &mut self.extents[place];
        store(&mut extent.bytes, (start - base) as usize, data);
        proof {
            let after = self.extents@;
            assert forall|a: int| 0 <= a < address_space() implies #[trigger] byte_of(after, a)
                == if start <= a < end {
                data@[a - start]
            } else {
                byte_of(before, a)
            } by {
                lemma_changed(before, after, place as int, a);
                if before[place as int].covers(a) {
                    lemma_byte(before, place as int, a);
                }
            }
            lemma_changed(before, after, place as int, 0);
            assert(self.contents() =~= splice(old(self).contents(), addr as int, data@));
        }
    }

    /// Sets bytes to zero.
    pub fn clear(&mut self, addr: u32, count: u32)
        requires
            old(self).wf(),
            addr + count <= address_space(),
        ensures
            final(self).wf(),
            final(self).contents() == splice(
                old(self).contents(),
                addr as int,
                zeros(count as int),
            ),
    {
        let start: u64 = addr as u64;
        let end: u64 = start + count as u64;
        let ghost before = self.extents@;
        let mut i: usize = 0;
        while i < self.extents.len()
            invariant
                self.wf(),
                old(self).wf(),
                before == old(self).extents@,
                start == addr,
                end == addr + count,
                end <= address_space(),
                i <= self.extents@.len(),
                self.extents@.len() == before.len(),
                forall|k: int| i <= k < before.len() ==> #[trigger] self.extents@[k] == before[k],
                forall|k: int|
                    0 <= k < before.len() ==> (#[trigger] self.extents@[k]).base == before[k].base
                        && self.extents@[k].bytes@.len() == before[k].bytes@.len(),
                forall|k: int, a: int|
                    0 <= k < i && before[k].covers(a) ==> #[trigger] self.extents@[k].bytes@[a
                        - before[k].base] == if start <= a < end {
                        0
                    } else {
                        before[k].bytes@[a - before[k].base]
                    },
            decreases self.extents@.len() - i,
        {
            let ghost now = self.extents@;
            assert(extent_ok(self.extents@[i as int]));
            let base: u64 = self.extents[i].base;
            let extent_end: u64 = base + self.extents[i].bytes.len() as u64;
            if base < end && start < extent_end {
                let from: u64 = if base > start {
                    base
                } else {
                    start
                };
                let to: u64 = if extent_end < end {
                    extent_end
                } else {
                    end
                };
                let extent: &mut Extent = &mut self.extents[i];
                clear(&mut extent.bytes, (from - base) as usize, (to - from) as usize);
                proof {
                    lemma_changed(now, self.extents@, i as int, 0);
                }
            }
            i = i + 1;
        }
        proof {
            let after = self.extents@;
            assert forall|a: int| 0 <= a < address_space() implies #[trigger] byte_of(after, a)
                == if start <= a < end {
                0
            } else {
                byte_of(before, a)
            } by {
                if has_storage(before, a) {
                    let k = choose|k: int| 0 <= k < before.len() && (#[trigger] before[k]).covers(a);
                    lemma_byte(before, k, a);
                    assert(after[k].covers(a));
                    lemma_byte(after, k, a);
                } else if has_storage(after, a) {
                    let k = choose|k: int| 0 <= k < after.len() && (#[trigger] after[k]).covers(a);
                    assert(before[k].covers(a));
                }
            }
            assert(self.contents() =~= splice(
                old(self).contents(),
                addr as int,
                zeros(count as int),
            ));
        }
    }

    /// The bytes of a range, to read and write.
    pub fn slice_mut(&mut self, start: u32, count: u32) -> (bytes: &mut [u8])
        requires
            old(self).wf(),
            start + count <= address_space(),
        ensures
            bytes@ == old(self).contents().subrange(start as int, start + count),
            final(bytes)@.len() == bytes@.len() ==> {
                &&& final(self).wf()
                &&& final(self).contents() == splice(
                    old(self).contents(),
                    start as int,
                    final(bytes)@,
                )
            },
    {
        let first: u64 = start as u64;
        // Even an empty range needs a place to be at.
        let end: u64 = if count == 0 {
            first + 1
        } else {
            first + count as u64
        };
        let place: usize = self.cover(first, end);
        let ghost before = self.extents@;
        let ghost contents = self.contents();
        let base: u64 = self.extents[place].base;
        let ghost whole = before[place as int].bytes@;
        let offset: usize = (first - base) as usize;
        let extent: &mut Extent = &mut self.extents[place];
        let (low, rest) = extent.bytes.as_mut_slice().split_at_mut(offset);
        let (bytes, high) = rest.split_at_mut(count as usize);
        proof {
            assert forall|k: int| 0 <= k < count implies #[trigger] bytes@[k] == contents[start
                + k] by {
                lemma_byte(before, place as int, start + k);
            }
            assert(bytes@ =~= contents.subrange(start as int, start + count));
        }
        assert(final(bytes)@.len() == count ==> final(low)@ + (final(bytes)@ + final(high)@)
            =~= splice(whole, offset as int, final(bytes)@));
        assert(final(bytes)@.len() == count ==> splice(
            whole,
            offset as int,
            final(bytes)@,
        ).subrange(offset as int, offset + count) =~= final(bytes)@);
        proof {
            lemma_any_change(before, place as int, start as int, count as int);
        }
        bytes
    }
}

/// Whether one extent has changed, and in a part of it only.
spec fn is_change(
    before: Seq<Extent>,
    after: Seq<Extent>,
    place: int,
    offset: int,
    count: int,
) -> bool {
    &&& after.len() == before.len()
    &&& forall|k: int| 0 <= k < before.len() && k != place ==> #[trigger] after[k] == before[k]
    &&& after[place].base == before[place].base
    &&& after[place].bytes@.len() == before[place].bytes@.len()
    &&& forall|k: int|
        0 <= k < before[place].bytes@.len() && !(offset <= k < offset + count)
            ==> #[trigger] after[place].bytes@[k] == before[place].bytes@[k]
}

proof fn lemma_any_change(before: Seq<Extent>, place: int, start: int, count: int)
    requires
        well_placed(before),
        0 <= place < before.len(),
        before[place].base <= start,
        0 <= count,
        start + count <= before[place].end(),
    ensures
        forall|after: Seq<Extent>|
            #![trigger contents_of(after)]
            is_change(before, after, place, start - before[place].base, count) ==> {
                let offset = start - before[place].base;
                &&& well_placed(after)
                &&& contents_of(after) == splice(
                    contents_of(before),
                    start,
                    after[place].bytes@.subrange(offset, offset + count),
                )
            },
{
    let offset = start - before[place].base;
    assert forall|after: Seq<Extent>|
        #![trigger contents_of(after)]
        is_change(before, after, place, offset, count) implies {
        &&& well_placed(after)
        &&& contents_of(after) == splice(
            contents_of(before),
            start,
            after[place].bytes@.subrange(offset, offset + count),
        )
    } by {
        lemma_changed(before, after, place, 0);
        assert forall|a: int| 0 <= a < address_space() implies #[trigger] contents_of(after)[a]
            == splice(
            contents_of(before),
            start,
            after[place].bytes@.subrange(offset, offset + count),
        )[a] by {
            lemma_changed(before, after, place, a);
            if before[place].covers(a) {
                lemma_byte(before, place, a);
            }
        }
        assert(contents_of(after) =~= splice(
            contents_of(before),
            start,
            after[place].bytes@.subrange(offset, offset + count),
        ));
    }
}

} // verus!
