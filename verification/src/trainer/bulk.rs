//! Changing many values at once.
//!
//! A bulk edit is planned first, without writing anything, and the plan is
//! checked again as a whole before its first write.
use vstd::prelude::*;

use crate::mem::allocator::disjoint;
use crate::mem::bytes::{splice, splice_reads_back};
use crate::mem::encoding::{byte_range_of_words, le_bytes, le_bytes_value};
use crate::mem::laws::live_allocation_mapped;
use crate::mem::ptr::address_space;
use crate::mem::Mem;
use crate::trainer::search::{is_search, is_within_live, looks_for, within_live, SearchResult};
use crate::trainer::value::VType;

verus! {

/// One write of a bulk edit.
#[derive(Clone, Copy, Debug, PartialEq, Eq, Structural)]
pub struct BulkWrite {
    /// Which of the results this is about.
    pub index: usize,
    pub addr: u32,
    pub vtype: VType,
    /// The value that must still be there.
    pub old_bits: u64,
    pub new_bits: u64,
}

/// What a bulk edit will do.
#[derive(Clone, Debug)]
pub struct BulkPlan {
    /// The writes, in the order of the results.
    pub writes: Vec<BulkWrite>,
    /// Number of results that are left alone.
    pub skipped: usize,
}

/// Why a bulk edit was rejected.
#[derive(Clone, Copy, Debug, PartialEq, Eq, Structural)]
pub enum BulkError {
    /// There are no results to edit.
    NoResults,
    /// None of the results can be edited safely.
    NothingToWrite,
    /// A result has another type than the one that was asked for.
    TypeMismatch,
    /// The new value does not fit the type of a result.
    DoesNotFit,
    /// A result is not inside a live allocation.
    NotAllocated,
    /// The value of a result is not the one that is listed.
    ValueChanged,
}

impl BulkError {
    /// What the status line says.
    pub fn message(self) -> (message: &'static str)
        ensures
            message@ == match self {
                BulkError::NoResults => "SET ALL: NO RESULTS"@,
                BulkError::NothingToWrite => "SET ALL: NO SAFE MATCHES"@,
                BulkError::TypeMismatch => "SET ALL: TYPE DIFFERS FROM RESULTS"@,
                BulkError::DoesNotFit => "SET ALL: VALUE DOES NOT FIT"@,
                BulkError::NotAllocated => "SET ALL: ADDRESS NO LONGER VALID"@,
                BulkError::ValueChanged => "SET ALL: VALUES CHANGED, REFINE FIRST"@,
            },
    {
        match self {
            BulkError::NoResults => "SET ALL: NO RESULTS",
            BulkError::NothingToWrite => "SET ALL: NO SAFE MATCHES",
            BulkError::TypeMismatch => "SET ALL: TYPE DIFFERS FROM RESULTS",
            BulkError::DoesNotFit => "SET ALL: VALUE DOES NOT FIT",
            BulkError::NotAllocated => "SET ALL: ADDRESS NO LONGER VALID",
            BulkError::ValueChanged => "SET ALL: VALUES CHANGED, REFINE FIRST",
        }
    }
}

/// What keeps a result from being edited in any mode.
pub open spec fn hit_error(
    mem: Mem,
    place: SearchResult,
    wanted: VType,
    text: Seq<char>,
) -> Option<BulkError> {
    if !looks_for(wanted, place.vtype) {
        Some(BulkError::TypeMismatch)
    } else if place.vtype.meaning(text) is None {
        Some(BulkError::DoesNotFit)
    } else if !within_live(mem, place.addr as int, place.vtype.width() as int) {
        Some(BulkError::NotAllocated)
    } else if place.vtype.bits_at(mem, place.addr as int) != place.bits {
        Some(BulkError::ValueChanged)
    } else {
        None
    }
}

/// Whether two results have no byte in common.
pub open spec fn apart(a: SearchResult, b: SearchResult) -> bool {
    disjoint(a.addr as int, a.vtype.width() as int, b.addr as int, b.vtype.width() as int)
}

/// Whether a result overlaps none of the others.
pub open spec fn alone(hits: Seq<SearchResult>, i: int) -> bool {
    forall|j: int| 0 <= j < hits.len() && j != i ==> #[trigger] apart(hits[i], hits[j])
}

/// Whether a result is edited. Safe mode leaves out those that are unaligned,
/// that overlap others, or that have the new value already.
pub open spec fn is_edited(
    mem: Mem,
    hits: Seq<SearchResult>,
    wanted: VType,
    text: Seq<char>,
    safe_mode: bool,
    i: int,
) -> bool {
    let place = hits[i];
    &&& hit_error(mem, place, wanted, text) is None
    &&& safe_mode ==> {
        &&& place.addr as int % place.vtype.width() as int == 0
        &&& alone(hits, i)
        &&& place.vtype.meaning(text) != Some(place.bits)
    }
}

/// How a result is edited.
pub open spec fn edit_of(hits: Seq<SearchResult>, text: Seq<char>, i: int) -> BulkWrite {
    BulkWrite {
        index: i as usize,
        addr: hits[i].addr,
        vtype: hits[i].vtype,
        old_bits: hits[i].bits,
        new_bits: hits[i].vtype.meaning(text).unwrap(),
    }
}

/// The writes for the first `count` results.
pub open spec fn planned(
    mem: Mem,
    hits: Seq<SearchResult>,
    wanted: VType,
    text: Seq<char>,
    safe_mode: bool,
    count: int,
) -> Seq<BulkWrite>
    decreases count,
{
    if count <= 0 {
        Seq::empty()
    } else {
        let rest = planned(mem, hits, wanted, text, safe_mode, count - 1);
        if is_edited(mem, hits, wanted, text, safe_mode, count - 1) {
            rest.push(edit_of(hits, text, count - 1))
        } else {
            rest
        }
    }
}

/// What is wrong with the first of the results that has something wrong with
/// it.
pub open spec fn first_error(
    mem: Mem,
    hits: Seq<SearchResult>,
    wanted: VType,
    text: Seq<char>,
    count: int,
) -> Option<BulkError>
    decreases count,
{
    if count <= 0 {
        None
    } else if first_error(mem, hits, wanted, text, count - 1) is Some {
        first_error(mem, hits, wanted, text, count - 1)
    } else {
        hit_error(mem, hits[count - 1], wanted, text)
    }
}

/// Why a bulk edit can't be planned. Safe mode leaves out what it can't edit,
/// as long as something remains. Otherwise it is all or nothing.
pub open spec fn plan_error(
    mem: Mem,
    hits: Seq<SearchResult>,
    wanted: VType,
    text: Seq<char>,
    safe_mode: bool,
) -> Option<BulkError> {
    if hits.len() == 0 {
        Some(BulkError::NoResults)
    } else if !safe_mode {
        first_error(mem, hits, wanted, text, hits.len() as int)
    } else if planned(mem, hits, wanted, text, safe_mode, hits.len() as int).len() == 0 {
        Some(BulkError::NothingToWrite)
    } else {
        None
    }
}

/// Finds what keeps a result from being edited in any mode, and the new value
/// otherwise.
fn check_hit(
    mem: &Mem,
    place: SearchResult,
    wanted: VType,
    text: &str,
) -> (outcome: Result<u64, BulkError>)
    requires
        mem.wf(),
    ensures
        match outcome {
            Ok(bits) => hit_error(*mem, place, wanted, text@) is None && Some(bits)
                == place.vtype.meaning(text@),
            Err(e) => hit_error(*mem, place, wanted, text@) == Some(e),
        },
{
    if place.vtype == VType::Auto || (wanted != VType::Auto && wanted != place.vtype) {
        return Err(BulkError::TypeMismatch);
    }
    let bits: u64 = match place.vtype.parse(text) {
        Some(bits) => bits,
        None => {
            return Err(BulkError::DoesNotFit);
        },
    };
    if !is_within_live(mem, place.addr, place.vtype.size()) {
        return Err(BulkError::NotAllocated);
    }
    proof {
        lemma_live_accessible(*mem, place.addr as int, place.vtype);
    }
    match place.vtype.read_at(mem, place.addr) {
        Some(now) => if now == place.bits {
            Ok(bits)
        } else {
            Err(BulkError::ValueChanged)
        },
        None => Err(BulkError::ValueChanged),
    }
}

/// What lies in a live allocation can be read and written.
proof fn lemma_live_accessible(mem: Mem, addr: int, vtype: VType)
    requires
        mem.wf(),
        vtype != VType::Auto,
        within_live(mem, addr, vtype.width() as int),
    ensures
        vtype.accessible(mem, addr),
        0 <= addr,
        addr + vtype.width() <= address_space(),
{
    let base = choose|base: u32| #[trigger]
        mem.blocks().contains_key(base) && base <= addr && addr + vtype.width() <= base
            + mem.blocks()[base];
    live_allocation_mapped(mem, base);
}

fn is_alone(hits: &[SearchResult], i: usize) -> (yes: bool)
    requires
        i < hits@.len(),
    ensures
        yes == alone(hits@, i as int),
{
    let place = hits[i];
    let start: u64 = place.addr as u64;
    let end: u64 = start + place.vtype.size() as u64;
    let mut j: usize = 0;
    let count: usize = hits.len();
    while j < count
        invariant
            j <= count,
            count == hits@.len(),
            i < count,
            place == hits@[i as int],
            start == place.addr,
            end == start + place.vtype.width(),
            forall|k: int| 0 <= k < j && k != i ==> #[trigger] apart(hits@[i as int], hits@[k]),
        decreases count - j,
    {
        let other = hits[j];
        let other_start: u64 = other.addr as u64;
        let other_end: u64 = other_start + other.vtype.size() as u64;
        if j != i && !(end <= other_start || other_end <= start) {
            assert(!apart(hits@[i as int], hits@[j as int]));
            return false;
        }
        j = j + 1;
    }
    true
}

/// Plans to set all results to the value that the text denotes.
///
/// In safe mode, results that are not safe to edit are left out and counted.
/// Otherwise anything that is wrong with one of the results rejects the edit.
pub fn plan_bulk(
    mem: &Mem,
    hits: &[SearchResult],
    vtype: VType,
    text: &str,
    safe_mode: bool,
) -> (plan: Result<BulkPlan, BulkError>)
    requires
        mem.wf(),
    ensures
        match plan {
            Ok(plan) => {
                &&& plan_error(*mem, hits@, vtype, text@, safe_mode) is None
                &&& plan.writes@ == planned(
                    *mem,
                    hits@,
                    vtype,
                    text@,
                    safe_mode,
                    hits@.len() as int,
                )
                &&& plan.skipped == hits@.len() - plan.writes@.len()
            },
            Err(e) => plan_error(*mem, hits@, vtype, text@, safe_mode) == Some(e),
        },
{
    let count: usize = hits.len();
    if count == 0 {
        return Err(BulkError::NoResults);
    }
    let mut writes: Vec<BulkWrite> = Vec::new();
    let mut i: usize = 0;
    while i < count
        invariant
            i <= count,
            count == hits@.len(),
            mem.wf(),
            writes@ == planned(*mem, hits@, vtype, text@, safe_mode, i as int),
            writes@.len() <= i,
            !safe_mode ==> first_error(*mem, hits@, vtype, text@, i as int) is None,
        decreases count - i,
    {
        let place = hits[i];
        match check_hit(mem, place, vtype, text) {
            Ok(bits) => {
                proof {
                    lemma_live_accessible(*mem, place.addr as int, place.vtype);
                }
                let width: u32 = place.vtype.size();
                if !safe_mode || (place.addr % width == 0 && is_alone(hits, i) && bits
                    != place.bits) {
                    writes.push(
                        BulkWrite {
                            index: i,
                            addr: place.addr,
                            vtype: place.vtype,
                            old_bits: place.bits,
                            new_bits: bits,
                        },
                    );
                }
            },
            Err(e) => {
                if !safe_mode {
                    proof {
                        lemma_first_error_stays(*mem, hits@, vtype, text@, i + 1, count as int);
                    }
                    return Err(e);
                }
            },
        }
        i = i + 1;
    }
    if safe_mode && writes.len() == 0 {
        return Err(BulkError::NothingToWrite);
    }
    let skipped: usize = count - writes.len();
    Ok(BulkPlan { writes, skipped })
}

proof fn lemma_first_error_stays(
    mem: Mem,
    hits: Seq<SearchResult>,
    wanted: VType,
    text: Seq<char>,
    few: int,
    many: int,
)
    requires
        0 <= few <= many,
        first_error(mem, hits, wanted, text, few) is Some,
    ensures
        first_error(mem, hits, wanted, text, many) == first_error(mem, hits, wanted, text, few),
    decreases many - few,
{
    if few < many {
        lemma_first_error_stays(mem, hits, wanted, text, few, many - 1);
    }
}

/// Whether a write is about what memory and the results hold.
pub open spec fn is_current(mem: Mem, hits: Seq<SearchResult>, write: BulkWrite) -> bool {
    &&& write.index < hits.len()
    &&& hits[write.index as int].addr == write.addr
    &&& hits[write.index as int].vtype == write.vtype
    &&& hits[write.index as int].bits == write.old_bits
    &&& write.vtype != VType::Auto
    &&& within_live(mem, write.addr as int, write.vtype.width() as int)
    &&& write.vtype.bits_at(mem, write.addr as int) == write.old_bits
}

/// Whether all of the writes can be made.
pub open spec fn is_ready(mem: Mem, hits: Seq<SearchResult>, writes: Seq<BulkWrite>) -> bool {
    forall|k: int| 0 <= k < writes.len() ==> #[trigger] is_current(mem, hits, writes[k])
}

/// What memory holds after the writes.
pub open spec fn written(contents: Seq<u8>, writes: Seq<BulkWrite>) -> Seq<u8>
    decreases writes.len(),
{
    if writes.len() == 0 {
        contents
    } else {
        let write = writes.last();
        splice(
            written(contents, writes.drop_last()),
            write.addr as int,
            le_bytes(write.new_bits as nat, write.vtype.width()),
        )
    }
}

/// Whether one of the writes is about the result at `i`.
pub open spec fn is_written(writes: Seq<BulkWrite>, i: int) -> bool {
    exists|k: int| 0 <= k < writes.len() && (#[trigger] writes[k]).index == i
}

/// The results with the values that are in memory after the writes.
pub open spec fn updated_hits(
    mem: Mem,
    hits: Seq<SearchResult>,
    writes: Seq<BulkWrite>,
) -> Seq<SearchResult> {
    Seq::new(
        hits.len(),
        |i: int|
            if is_written(writes, i) {
                SearchResult { bits: hits[i].vtype.bits_at(mem, hits[i].addr as int), ..hits[i] }
            } else {
                hits[i]
            },
    )
}

fn check_write(mem: &Mem, hits: &[SearchResult], write: BulkWrite) -> (yes: bool)
    requires
        mem.wf(),
    ensures
        yes == is_current(*mem, hits@, write),
{
    if write.index >= hits.len() {
        return false;
    }
    let place = hits[write.index];
    if place.addr != write.addr || place.vtype != write.vtype || place.bits != write.old_bits {
        return false;
    }
    if write.vtype == VType::Auto || !is_within_live(mem, write.addr, write.vtype.size()) {
        return false;
    }
    proof {
        lemma_live_accessible(*mem, write.addr as int, write.vtype);
    }
    match write.vtype.read_at(mem, write.addr) {
        Some(now) => now == write.old_bits,
        None => false,
    }
}

/// Carries out a bulk edit.
///
/// Everything is checked before the first write: if memory or the results have
/// changed since the edit was planned, nothing is written. Afterwards the
/// results show what is in memory.
pub fn apply_bulk(
    mem: &mut Mem,
    hits: &mut [SearchResult],
    plan: &BulkPlan,
) -> (done: Result<usize, BulkError>)
    requires
        old(mem).wf(),
    ensures
        final(mem).wf(),
        done is Ok <==> is_ready(*old(mem), old(hits)@, plan.writes@),
        match done {
            Ok(count) => {
                &&& count == plan.writes@.len()
                &&& final(mem).same_layout(*old(mem))
                &&& final(mem).sink() == old(mem).sink()
                &&& final(mem).contents() == written(old(mem).contents(), plan.writes@)
                &&& final(hits)@ == updated_hits(*final(mem), old(hits)@, plan.writes@)
            },
            Err(e) => {
                &&& e == BulkError::ValueChanged
                &&& *final(mem) == *old(mem)
                &&& final(hits)@ == old(hits)@
            },
        },
{
    let count: usize = plan.writes.len();
    let mut k: usize = 0;
    while k < count
        invariant
            k <= count,
            count == plan.writes@.len(),
            mem.wf(),
            *mem == *old(mem),
            hits@ == old(hits)@,
            forall|j: int|
                0 <= j < k ==> #[trigger] is_current(*old(mem), old(hits)@, plan.writes@[j]),
        decreases count - k,
    {
        if !check_write(mem, hits, plan.writes[k]) {
            assert(!is_current(*old(mem), old(hits)@, plan.writes@[k as int]));
            return Err(BulkError::ValueChanged);
        }
        k = k + 1;
    }
    let mut k: usize = 0;
    assert(plan.writes@.take(0) =~= Seq::empty());
    while k < count
        invariant
            k <= count,
            count == plan.writes@.len(),
            old(mem).wf(),
            mem.wf(),
            mem.same_layout(*old(mem)),
            mem.sink() == old(mem).sink(),
            hits@ == old(hits)@,
            is_ready(*old(mem), old(hits)@, plan.writes@),
            mem.contents() == written(old(mem).contents(), plan.writes@.take(k as int)),
        decreases count - k,
    {
        let write = plan.writes[k];
        proof {
            assert(is_current(*old(mem), old(hits)@, plan.writes@[k as int]));
            lemma_live_accessible(*old(mem), write.addr as int, write.vtype);
            let longer = plan.writes@.take(k + 1);
            assert(longer.drop_last() =~= plan.writes@.take(k as int));
            assert(longer.last() == write);
        }
        let _ = write.vtype.write_at(mem, write.addr, write.new_bits);
        k = k + 1;
    }
    assert(plan.writes@.take(count as int) =~= plan.writes@);
    let mut k: usize = 0;
    while k < count
        invariant
            k <= count,
            count == plan.writes@.len(),
            old(mem).wf(),
            mem.wf(),
            mem.same_layout(*old(mem)),
            is_ready(*old(mem), old(hits)@, plan.writes@),
            hits@.len() == old(hits)@.len(),
            forall|i: int|
                0 <= i < hits@.len() ==> #[trigger] hits@[i] == updated_hits(
                    *mem,
                    old(hits)@,
                    plan.writes@.take(k as int),
                )[i],
        decreases count - k,
    {
        let write = plan.writes[k];
        proof {
            assert(is_current(*old(mem), old(hits)@, plan.writes@[k as int]));
            lemma_live_accessible(*old(mem), write.addr as int, write.vtype);
        }
        let now: u64 = match write.vtype.read_at(mem, write.addr) {
            Some(now) => now,
            None => write.new_bits,
        };
        let place = hits[write.index];
        let ghost before = hits@;
        hits[write.index] =
        SearchResult { addr: place.addr, vtype: place.vtype, bits: now, changed: place.changed };
        proof {
            let few = plan.writes@.take(k as int);
            let more = plan.writes@.take(k + 1);
            assert(more[k as int] == write);
            assert forall|i: int| 0 <= i < hits@.len() implies #[trigger] hits@[i] == updated_hits(
                *mem,
                old(hits)@,
                more,
            )[i] by {
                assert(before[i] == updated_hits(*mem, old(hits)@, few)[i]);
                if i == write.index {
                    assert(is_written(more, i));
                } else {
                    if is_written(few, i) {
                        let j = choose|j: int| 0 <= j < few.len() && (#[trigger] few[j]).index == i;
                        assert(more[j] == few[j]);
                    }
                    if is_written(more, i) {
                        let j = choose|j: int|
                            0 <= j < more.len() && (#[trigger] more[j]).index == i;
                        assert(few[j] == more[j]);
                    }
                }
            }
        }
        k = k + 1;
    }
    proof {
        assert(plan.writes@.take(count as int) =~= plan.writes@);
        assert(hits@ =~= updated_hits(*mem, old(hits)@, plan.writes@));
    }
    Ok(count)
}

/// Each planned write edits one of the results, in order.
pub proof fn lemma_planned(
    mem: Mem,
    hits: Seq<SearchResult>,
    wanted: VType,
    text: Seq<char>,
    safe_mode: bool,
    count: int,
)
    requires
        0 <= count <= hits.len() <= usize::MAX,
    ensures
        ({
            let writes = planned(mem, hits, wanted, text, safe_mode, count);
            &&& writes.len() <= count
            &&& forall|k: int|
                0 <= k < writes.len() ==> {
                    let i = (#[trigger] writes[k]).index as int;
                    &&& i < count
                    &&& is_edited(mem, hits, wanted, text, safe_mode, i)
                    &&& writes[k] == edit_of(hits, text, i)
                }
            &&& forall|k: int, l: int|
                0 <= k < l < writes.len() ==> (#[trigger] writes[k]).index < (
                #[trigger] writes[l]).index
            &&& forall|i: int|
                0 <= i < count && #[trigger] is_edited(mem, hits, wanted, text, safe_mode, i)
                    ==> is_written(writes, i)
        }),
    decreases count,
{
    if count > 0 {
        lemma_planned(mem, hits, wanted, text, safe_mode, count - 1);
        let few = planned(mem, hits, wanted, text, safe_mode, count - 1);
        let writes = planned(mem, hits, wanted, text, safe_mode, count);
        assert forall|i: int|
            0 <= i < count && #[trigger] is_edited(
                mem,
                hits,
                wanted,
                text,
                safe_mode,
                i,
            ) implies is_written(writes, i) by {
            if i < count - 1 {
                assert(is_written(few, i));
                let k = choose|k: int| 0 <= k < few.len() && (#[trigger] few[k]).index == i;
                assert(writes[k] == few[k]);
            } else {
                assert(writes[few.len() as int].index == i);
            }
        }
    }
}

/// A bulk edit that was planned can be carried out as long as memory and the
/// results stay as they are.
pub proof fn fresh_plan_is_ready(
    mem: Mem,
    hits: Seq<SearchResult>,
    wanted: VType,
    text: Seq<char>,
    safe_mode: bool,
)
    requires
        hits.len() <= usize::MAX,
    ensures
        is_ready(
            mem,
            hits,
            planned(mem, hits, wanted, text, safe_mode, hits.len() as int),
        ),
{
    lemma_planned(mem, hits, wanted, text, safe_mode, hits.len() as int);
}

/// Outside of safe mode a bulk edit is of all results or of none.
pub proof fn normal_mode_is_all_or_nothing(
    mem: Mem,
    hits: Seq<SearchResult>,
    wanted: VType,
    text: Seq<char>,
)
    requires
        hits.len() <= usize::MAX,
        plan_error(mem, hits, wanted, text, false) is None,
    ensures
        planned(mem, hits, wanted, text, false, hits.len() as int) == Seq::new(
            hits.len(),
            |i: int| edit_of(hits, text, i),
        ),
{
    lemma_all_planned(mem, hits, wanted, text, hits.len() as int);
    assert(planned(mem, hits, wanted, text, false, hits.len() as int) =~= Seq::new(
        hits.len(),
        |i: int| edit_of(hits, text, i),
    ));
}

pub proof fn lemma_all_planned(
    mem: Mem,
    hits: Seq<SearchResult>,
    wanted: VType,
    text: Seq<char>,
    count: int,
)
    requires
        0 <= count <= hits.len(),
        first_error(mem, hits, wanted, text, count) is None,
    ensures
        ({
            let writes = planned(mem, hits, wanted, text, false, count);
            &&& writes.len() == count
            &&& forall|i: int| 0 <= i < count ==> #[trigger] writes[i] == edit_of(hits, text, i)
        }),
    decreases count,
{
    if count > 0 {
        lemma_all_planned(mem, hits, wanted, text, count - 1);
    }
}

/// In safe mode, two results that overlap are both left alone: neither is
/// picked over the other.
pub proof fn safe_mode_skips_overlaps(
    mem: Mem,
    hits: Seq<SearchResult>,
    wanted: VType,
    text: Seq<char>,
    i: int,
    j: int,
)
    requires
        hits.len() <= usize::MAX,
        0 <= i < hits.len(),
        0 <= j < hits.len(),
        i != j,
        !apart(hits[i], hits[j]),
    ensures
        !is_written(planned(mem, hits, wanted, text, true, hits.len() as int), i),
        !is_written(planned(mem, hits, wanted, text, true, hits.len() as int), j),
{
    let writes = planned(mem, hits, wanted, text, true, hits.len() as int);
    lemma_planned(mem, hits, wanted, text, true, hits.len() as int);
    assert(!apart(hits[j], hits[i]));
    if is_written(writes, i) {
        let k = choose|k: int| 0 <= k < writes.len() && (#[trigger] writes[k]).index == i;
        assert(alone(hits, i));
    }
    if is_written(writes, j) {
        let k = choose|k: int| 0 <= k < writes.len() && (#[trigger] writes[k]).index == j;
        assert(alone(hits, j));
    }
}

/// Whether a write changes the byte at `addr`.
pub open spec fn touches(write: BulkWrite, addr: int) -> bool {
    write.addr <= addr < write.addr + write.vtype.width()
}

/// A bulk edit changes no byte but those of the values that it writes.
pub proof fn bulk_keeps_neighbours(contents: Seq<u8>, writes: Seq<BulkWrite>, addr: int)
    requires
        0 <= addr < contents.len(),
        forall|k: int| 0 <= k < writes.len() ==> !touches(#[trigger] writes[k], addr),
    ensures
        written(contents, writes).len() == contents.len(),
        written(contents, writes)[addr] == contents[addr],
    decreases writes.len(),
{
    if writes.len() > 0 {
        let fewer = writes.drop_last();
        assert forall|k: int| 0 <= k < fewer.len() implies !touches(
            #[trigger] fewer[k],
            addr,
        ) by {
            assert(writes[k] == fewer[k]);
        }
        bulk_keeps_neighbours(contents, fewer, addr);
        let write = writes.last();
        assert(write == writes[writes.len() - 1]);
        le_bytes_value(write.new_bits as nat, write.vtype.width());
    }
}

/// After a bulk edit in safe mode, every value that it wrote is in place, and
/// so every result that it edited shows the new value.
pub proof fn safe_edit_takes_hold(
    before: Mem,
    after: Mem,
    hits: Seq<SearchResult>,
    wanted: VType,
    text: Seq<char>,
    k: int,
)
    requires
        before.wf(),
        hits.len() <= usize::MAX,
        after.contents() == written(
            before.contents(),
            planned(before, hits, wanted, text, true, hits.len() as int),
        ),
        0 <= k < planned(before, hits, wanted, text, true, hits.len() as int).len(),
    ensures
        ({
            let writes = planned(before, hits, wanted, text, true, hits.len() as int);
            let write = writes[k];
            &&& write.vtype.bits_at(after, write.addr as int) == write.new_bits
            &&& Some(write.new_bits) == write.vtype.meaning(text)
            &&& updated_hits(after, hits, writes)[write.index as int].bits == write.new_bits
        }),
{
    let writes = planned(before, hits, wanted, text, true, hits.len() as int);
    lemma_planned(before, hits, wanted, text, true, hits.len() as int);
    let write = writes[k];
    let i = write.index as int;
    assert(is_edited(before, hits, wanted, text, true, i));
    lemma_live_accessible(before, write.addr as int, write.vtype);
    assert forall|l: int| 0 <= l < writes.len() && l != k implies disjoint(
        write.addr as int,
        write.vtype.width() as int,
        (#[trigger] writes[l]).addr as int,
        writes[l].vtype.width() as int,
    ) by {
        assert(writes[l] == edit_of(hits, text, writes[l].index as int));
        assert(writes[l].index != write.index);
        assert(apart(hits[i], hits[writes[l].index as int]));
    }
    lemma_written_value(before.contents(), writes, k);
    let bits = write.new_bits;
    assert(write.vtype.denotes(text, bits)) by {
        assert(exists|b: u64| write.vtype.denotes(text, b));
    }
    write.vtype.denotes_one(text, bits, bits);
    byte_range_of_words();
    le_bytes_value(bits as nat, write.vtype.width());
    assert(is_written(writes, i));
}

proof fn lemma_written_value(contents: Seq<u8>, writes: Seq<BulkWrite>, k: int)
    requires
        0 <= k < writes.len(),
        writes[k].addr + writes[k].vtype.width() <= contents.len(),
        forall|l: int|
            0 <= l < writes.len() && l != k ==> disjoint(
                writes[k].addr as int,
                writes[k].vtype.width() as int,
                (#[trigger] writes[l]).addr as int,
                writes[l].vtype.width() as int,
            ),
    ensures
        written(contents, writes).len() == contents.len(),
        written(contents, writes).subrange(
            writes[k].addr as int,
            writes[k].addr + writes[k].vtype.width(),
        ) == le_bytes(writes[k].new_bits as nat, writes[k].vtype.width()),
    decreases writes.len(),
{
    let fewer = writes.drop_last();
    let last = writes.last();
    let write = writes[k];
    let start = write.addr as int;
    let end = start + write.vtype.width();
    le_bytes_value(last.new_bits as nat, last.vtype.width());
    lemma_written_len(contents, fewer);
    if k == writes.len() - 1 {
        splice_reads_back(
            written(contents, fewer),
            last.addr as int,
            le_bytes(last.new_bits as nat, last.vtype.width()),
        );
    } else {
        assert forall|l: int| 0 <= l < fewer.len() && l != k implies disjoint(
            fewer[k].addr as int,
            fewer[k].vtype.width() as int,
            (#[trigger] fewer[l]).addr as int,
            fewer[l].vtype.width() as int,
        ) by {
            assert(writes[l] == fewer[l]);
        }
        lemma_written_value(contents, fewer, k);
        assert(last == writes[writes.len() - 1]);
        assert(written(contents, writes).subrange(start, end) =~= written(
            contents,
            fewer,
        ).subrange(start, end));
    }
}

pub proof fn lemma_written_len(contents: Seq<u8>, writes: Seq<BulkWrite>)
    ensures
        written(contents, writes).len() == contents.len(),
    decreases writes.len(),
{
    if writes.len() > 0 {
        lemma_written_len(contents, writes.drop_last());
    }
}

/// What a search has just found can be edited, with any value that fits.
pub proof fn fresh_results_can_be_edited(
    mem: Mem,
    wanted: VType,
    text: Seq<char>,
    found: Seq<SearchResult>,
    i: int,
    new_text: Seq<char>,
)
    requires
        is_search(mem, wanted, text, found),
        0 <= i < found.len(),
        found[i].vtype.meaning(new_text) is Some,
    ensures
        hit_error(mem, found[i], wanted, new_text) is None,
{
    assert(looks_for(wanted, found[i].vtype));
}

} // verus!
