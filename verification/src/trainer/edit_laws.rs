//! What planning and carrying out a bulk edit does to results and memory.
use vstd::prelude::*;

use crate::mem::allocator::disjoint;
use crate::mem::bytes::splice;
use crate::mem::encoding::{byte_range_of_words, le_bytes, le_bytes_value};
use crate::mem::Mem;
use crate::trainer::bulk::{
    alone, apart, apply_bulk, bulk_keeps_neighbours, edit_of, first_error, hit_error,
    is_current, is_edited, is_ready, is_written, lemma_all_planned, lemma_planned,
    lemma_written_len, plan_bulk, planned, touches, updated_hits, written, BulkError, BulkPlan,
    BulkWrite,
};
use crate::trainer::laws::{
    byte_size, is_allocated, is_asked_for, is_complete, is_narrowed, lemma_allocated,
    lemma_complete, lemma_narrowed, lemma_number_at, number_at,
};
use crate::trainer::search::SearchResult;
use crate::trainer::value::VType;
use crate::trainer::{PendingBulk, Trainer, TrainerReply};
use crate::trainer_ui::TrainerCmd;

verus! {

/// Whether a result is of the type that is asked for, the text stands for a
/// value of that type, and the result is inside an allocation and still holds
/// the value that it is listed with.
pub open spec fn is_sound(mem: Mem, place: SearchResult, wanted: VType, text: Seq<char>) -> bool {
    &&& is_asked_for(wanted, place.vtype)
    &&& place.vtype.meaning(text) is Some
    &&& is_allocated(mem, place.addr as int, byte_size(place.vtype))
    &&& number_at(mem, place.addr as int, byte_size(place.vtype)) == place.bits
}

/// Whether two results share no byte.
pub open spec fn shares_no_byte(a: SearchResult, b: SearchResult) -> bool {
    a.addr + byte_size(a.vtype) <= b.addr || b.addr + byte_size(b.vtype) <= a.addr
}

/// Whether a sound result is also aligned, shares no byte with another one, and
/// would change, be it to a larger or a smaller value.
pub open spec fn is_safe(
    mem: Mem,
    hits: Seq<SearchResult>,
    wanted: VType,
    text: Seq<char>,
    i: int,
) -> bool {
    let place = hits[i];
    &&& is_sound(mem, place, wanted, text)
    &&& place.addr as int % byte_size(place.vtype) == 0
    &&& forall|j: int| 0 <= j < hits.len() && j != i ==> shares_no_byte(place, #[trigger] hits[j])
    &&& place.vtype.meaning(text).unwrap() != place.bits
}

/// Whether a write sets a result to the value that the text stands for.
pub open spec fn sets(write: BulkWrite, hits: Seq<SearchResult>, text: Seq<char>, i: int) -> bool {
    &&& write.index == i
    &&& write.addr == hits[i].addr
    &&& write.vtype == hits[i].vtype
    &&& write.old_bits == hits[i].bits
    &&& Some(write.new_bits) == hits[i].vtype.meaning(text)
}

/// Whether the writes set all safe results, in their order, and no others.
pub open spec fn sets_the_safe(
    mem: Mem,
    hits: Seq<SearchResult>,
    wanted: VType,
    text: Seq<char>,
    writes: Seq<BulkWrite>,
) -> bool {
    &&& forall|k: int|
        0 <= k < writes.len() ==> {
            let i = (#[trigger] writes[k]).index as int;
            &&& i < hits.len()
            &&& is_safe(mem, hits, wanted, text, i)
            &&& sets(writes[k], hits, text, i)
        }
    &&& forall|k: int, l: int|
        0 <= k < l < writes.len() ==> (#[trigger] writes[k]).index < (#[trigger] writes[l]).index
    &&& forall|i: int|
        0 <= i < hits.len() && #[trigger] is_safe(mem, hits, wanted, text, i) ==> exists|k: int|
            0 <= k < writes.len() && sets(#[trigger] writes[k], hits, text, i)
}

proof fn lemma_sound(mem: Mem, place: SearchResult, wanted: VType, text: Seq<char>)
    requires
        mem.wf(),
    ensures
        is_sound(mem, place, wanted, text) == (hit_error(mem, place, wanted, text) is None),
        hit_error(mem, place, wanted, text) matches Some(e) ==> is_problem(
            mem,
            place,
            wanted,
            text,
            e,
        ),
{
    lemma_allocated(mem, place.vtype, place.addr as int);
    if place.vtype != VType::Auto && is_allocated(
        mem,
        place.addr as int,
        byte_size(place.vtype),
    ) {
        lemma_number_at(mem, place.vtype, place.addr as int);
    }
}

proof fn lemma_safe(mem: Mem, hits: Seq<SearchResult>, wanted: VType, text: Seq<char>, i: int)
    requires
        mem.wf(),
        0 <= i < hits.len(),
    ensures
        is_safe(mem, hits, wanted, text, i) == is_edited(mem, hits, wanted, text, true, i),
{
    lemma_sound(mem, hits[i], wanted, text);
    assert(alone(hits, i) == (forall|j: int|
        0 <= j < hits.len() && j != i ==> shares_no_byte(hits[i], #[trigger] hits[j]))) by {
        assert forall|j: int| 0 <= j < hits.len() implies #[trigger] apart(hits[i], hits[j])
            == shares_no_byte(hits[i], hits[j]) by {}
        if alone(hits, i) {
            assert forall|j: int| 0 <= j < hits.len() && j != i implies shares_no_byte(
                hits[i],
                #[trigger] hits[j],
            ) by {
                assert(apart(hits[i], hits[j]));
            }
        }
    }
}

/// What is wrong with a result that is not sound.
pub open spec fn is_problem(
    mem: Mem,
    place: SearchResult,
    wanted: VType,
    text: Seq<char>,
    error: BulkError,
) -> bool {
    let asked = is_asked_for(wanted, place.vtype);
    let fits = place.vtype.meaning(text) is Some;
    let allocated = is_allocated(mem, place.addr as int, byte_size(place.vtype));
    match error {
        BulkError::TypeMismatch => !asked,
        BulkError::DoesNotFit => asked && !fits,
        BulkError::NotAllocated => asked && fits && !allocated,
        BulkError::ValueChanged => asked && fits && allocated && number_at(
            mem,
            place.addr as int,
            byte_size(place.vtype),
        ) != place.bits,
        _ => false,
    }
}

/// In safe mode, all results that are safe to edit are edited, and only those
/// are, to the value that the text stands for. The rest is counted. The edit is
/// rejected only if there is nothing to edit.
pub proof fn safe_mode_edits_what_is_safe(
    mem: &Mem,
    hits: &[SearchResult],
    wanted: VType,
    text: &str,
    plan: Result<BulkPlan, BulkError>,
)
    requires
        mem.wf(),
        hits@.len() <= usize::MAX,
        call_ensures(plan_bulk, (mem, hits, wanted, text, true), plan),
    ensures
        plan is Ok <==> exists|i: int|
            0 <= i < hits@.len() && #[trigger] is_safe(*mem, hits@, wanted, text@, i),
        match plan {
            Ok(plan) => {
                &&& sets_the_safe(*mem, hits@, wanted, text@, plan.writes@)
                &&& plan.writes@.len() + plan.skipped == hits@.len()
            },
            Err(e) => e == if hits@.len() == 0 {
                BulkError::NoResults
            } else {
                BulkError::NothingToWrite
            },
        },
{
    lemma_safe_plan(*mem, hits@, wanted, text@);
}

proof fn lemma_safe_plan(mem: Mem, hits: Seq<SearchResult>, wanted: VType, text: Seq<char>)
    requires
        mem.wf(),
        hits.len() <= usize::MAX,
    ensures
        ({
            let writes = planned(mem, hits, wanted, text, true, hits.len() as int);
            &&& sets_the_safe(mem, hits, wanted, text, writes)
            &&& writes.len() > 0 <==> exists|i: int|
                0 <= i < hits.len() && #[trigger] is_safe(mem, hits, wanted, text, i)
        }),
{
    let writes = planned(mem, hits, wanted, text, true, hits.len() as int);
    lemma_planned(mem, hits, wanted, text, true, hits.len() as int);
    assert forall|k: int| 0 <= k < writes.len() implies {
        let i = (#[trigger] writes[k]).index as int;
        &&& i < hits.len()
        &&& is_safe(mem, hits, wanted, text, i)
        &&& sets(writes[k], hits, text, i)
    } by {
        lemma_safe(mem, hits, wanted, text, writes[k].index as int);
    }
    assert forall|i: int|
        0 <= i < hits.len() && #[trigger] is_safe(mem, hits, wanted, text, i) implies exists|
        k: int,
    |
        0 <= k < writes.len() && sets(#[trigger] writes[k], hits, text, i) by {
        lemma_safe(mem, hits, wanted, text, i);
        assert(is_written(writes, i));
        let k = choose|k: int| 0 <= k < writes.len() && (#[trigger] writes[k]).index == i;
        assert(sets(writes[k], hits, text, i));
    }
    if writes.len() > 0 {
        assert(is_safe(mem, hits, wanted, text, writes[0].index as int));
    }
}

/// Outside of safe mode, all results are edited, in their order, if all of them
/// are sound. Otherwise the edit is rejected, for what is wrong with the first
/// one that is not.
pub proof fn normal_mode_edits_all_or_none(
    mem: &Mem,
    hits: &[SearchResult],
    wanted: VType,
    text: &str,
    plan: Result<BulkPlan, BulkError>,
)
    requires
        mem.wf(),
        hits@.len() <= usize::MAX,
        call_ensures(plan_bulk, (mem, hits, wanted, text, false), plan),
    ensures
        plan is Ok <==> hits@.len() > 0 && forall|i: int|
            0 <= i < hits@.len() ==> is_sound(*mem, #[trigger] hits@[i], wanted, text@),
        match plan {
            Ok(plan) => {
                &&& plan.writes@.len() == hits@.len()
                &&& plan.skipped == 0
                &&& forall|i: int|
                    0 <= i < hits@.len() ==> sets(#[trigger] plan.writes@[i], hits@, text@, i)
            },
            Err(e) => {
                ||| hits@.len() == 0 && e == BulkError::NoResults
                ||| exists|i: int|
                    0 <= i < hits@.len() && #[trigger] is_first_problem(
                        *mem,
                        hits@,
                        wanted,
                        text@,
                        i,
                        e,
                    )
            },
        },
{
    lemma_first_error(*mem, hits@, wanted, text@, hits@.len() as int);
    if plan is Ok {
        lemma_all_planned(*mem, hits@, wanted, text@, hits@.len() as int);
        let writes = plan.unwrap().writes@;
        assert forall|i: int| 0 <= i < hits@.len() implies sets(
            #[trigger] writes[i],
            hits@,
            text@,
            i,
        ) by {
            assert(writes[i] == edit_of(hits@, text@, i));
            assert(is_sound(*mem, hits@[i], wanted, text@));
        }
    }
}

/// Whether a result is the first one with something wrong with it, and what
/// that is.
pub open spec fn is_first_problem(
    mem: Mem,
    hits: Seq<SearchResult>,
    wanted: VType,
    text: Seq<char>,
    i: int,
    error: BulkError,
) -> bool {
    &&& is_problem(mem, hits[i], wanted, text, error)
    &&& !is_sound(mem, hits[i], wanted, text)
    &&& forall|j: int| 0 <= j < i ==> is_sound(mem, #[trigger] hits[j], wanted, text)
}

proof fn lemma_first_error(
    mem: Mem,
    hits: Seq<SearchResult>,
    wanted: VType,
    text: Seq<char>,
    count: int,
)
    requires
        mem.wf(),
        0 <= count <= hits.len(),
    ensures
        match first_error(mem, hits, wanted, text, count) {
            None => forall|i: int|
                0 <= i < count ==> is_sound(mem, #[trigger] hits[i], wanted, text),
            Some(e) => exists|i: int|
                0 <= i < count && #[trigger] is_first_problem(mem, hits, wanted, text, i, e),
        },
    decreases count,
{
    if count > 0 {
        lemma_first_error(mem, hits, wanted, text, count - 1);
        lemma_sound(mem, hits[count - 1], wanted, text);
        if let Some(e) = first_error(mem, hits, wanted, text, count) {
            if first_error(mem, hits, wanted, text, count - 1) is None {
                assert(is_first_problem(mem, hits, wanted, text, count - 1, e));
            } else {
                let i = choose|i: int|
                    0 <= i < count - 1 && #[trigger] is_first_problem(
                        mem,
                        hits,
                        wanted,
                        text,
                        i,
                        e,
                    );
                assert(0 <= i < count && is_first_problem(mem, hits, wanted, text, i, e));
            }
        }
    }
}

/// Whether a write is about a result as it is listed, and about a place in an
/// allocation that holds the value that it replaces.
pub open spec fn can_be_made(mem: Mem, hits: Seq<SearchResult>, write: BulkWrite) -> bool {
    &&& write.index < hits.len()
    &&& hits[write.index as int].addr == write.addr
    &&& hits[write.index as int].vtype == write.vtype
    &&& hits[write.index as int].bits == write.old_bits
    &&& write.vtype != VType::Auto
    &&& is_allocated(mem, write.addr as int, byte_size(write.vtype))
    &&& number_at(mem, write.addr as int, byte_size(write.vtype)) == write.old_bits
}

/// Whether a byte is one of those that a write is about.
pub open spec fn covers(write: BulkWrite, addr: int) -> bool {
    write.addr <= addr < write.addr + byte_size(write.vtype)
}

/// Number of values of a type.
pub open spec fn value_count(vtype: VType) -> int {
    match vtype {
        VType::U8 | VType::I8 => 0x100,
        VType::U16 | VType::I16 => 0x1_0000,
        VType::U32 | VType::I32 | VType::F32 => 0x1_0000_0000,
        VType::Auto => 1,
    }
}

/// Whether the writes, made in this order, turn `before` into `after`: each
/// value is there that no later write goes over, and all other bytes are as
/// they were.
pub open spec fn are_made(before: Mem, after: Mem, writes: Seq<BulkWrite>) -> bool {
    &&& after.blocks() == before.blocks()
    &&& after.null_size() == before.null_size()
    &&& after.sink() == before.sink()
    &&& after.contents().len() == before.contents().len()
    &&& forall|addr: int|
        0 <= addr < before.contents().len() && (forall|k: int|
            0 <= k < writes.len() ==> !covers(#[trigger] writes[k], addr)) ==> #[trigger]
            after.contents()[addr] == before.contents()[addr]
    &&& forall|k: int|
        0 <= k < writes.len() && (forall|l: int|
            k < l < writes.len() ==> disjoint(
                writes[k].addr as int,
                byte_size(writes[k].vtype),
                (#[trigger] writes[l]).addr as int,
                byte_size(writes[l].vtype),
            )) ==> number_at(
            after,
            (#[trigger] writes[k]).addr as int,
            byte_size(writes[k].vtype),
        ) == writes[k].new_bits as int % value_count(writes[k].vtype)
}

/// Whether the results are listed as before, but for the values of those that
/// were written.
pub open spec fn are_relisted(
    mem: Mem,
    before: Seq<SearchResult>,
    after: Seq<SearchResult>,
    writes: Seq<BulkWrite>,
) -> bool {
    &&& after.len() == before.len()
    &&& forall|i: int|
        0 <= i < before.len() ==> {
            let place = #[trigger] after[i];
            &&& place.addr == before[i].addr
            &&& place.vtype == before[i].vtype
            &&& place.changed == before[i].changed
            &&& (exists|k: int| 0 <= k < writes.len() && (#[trigger] writes[k]).index == i)
                ==> place.bits == number_at(mem, place.addr as int, byte_size(place.vtype))
            &&& !(exists|k: int| 0 <= k < writes.len() && (#[trigger] writes[k]).index == i)
                ==> place.bits == before[i].bits
        }
}

proof fn lemma_can_be_made(mem: Mem, hits: Seq<SearchResult>, write: BulkWrite)
    requires
        mem.wf(),
    ensures
        can_be_made(mem, hits, write) == is_current(mem, hits, write),
{
    lemma_allocated(mem, write.vtype, write.addr as int);
    if write.vtype != VType::Auto && is_allocated(
        mem,
        write.addr as int,
        byte_size(write.vtype),
    ) {
        lemma_number_at(mem, write.vtype, write.addr as int);
    }
}

proof fn lemma_last_write_stays(contents: Seq<u8>, writes: Seq<BulkWrite>, k: int)
    requires
        0 <= k < writes.len(),
        writes[k].addr + writes[k].vtype.width() <= contents.len(),
        forall|l: int|
            k < l < writes.len() ==> disjoint(
                writes[k].addr as int,
                writes[k].vtype.width() as int,
                (#[trigger] writes[l]).addr as int,
                writes[l].vtype.width() as int,
            ),
    ensures
        written(contents, writes).subrange(
            writes[k].addr as int,
            writes[k].addr + writes[k].vtype.width(),
        ) == le_bytes(writes[k].new_bits as nat, writes[k].vtype.width()),
    decreases writes.len(),
{
    let fewer = writes.drop_last();
    let last = writes.last();
    let start = writes[k].addr as int;
    let end = start + writes[k].vtype.width();
    let before = written(contents, fewer);
    let bytes = le_bytes(last.new_bits as nat, last.vtype.width());
    le_bytes_value(last.new_bits as nat, last.vtype.width());
    lemma_written_len(contents, fewer);
    assert(written(contents, writes) == splice(before, last.addr as int, bytes));
    if k == writes.len() - 1 {
        assert(written(contents, writes).subrange(start, end) =~= bytes);
    } else {
        assert forall|l: int| k < l < fewer.len() implies disjoint(
            fewer[k].addr as int,
            fewer[k].vtype.width() as int,
            (#[trigger] fewer[l]).addr as int,
            fewer[l].vtype.width() as int,
        ) by {
            assert(writes[l] == fewer[l]);
        }
        lemma_last_write_stays(contents, fewer, k);
        assert(last == writes[writes.len() - 1]);
        assert(written(contents, writes).subrange(start, end) =~= before.subrange(start, end));
    }
}

proof fn lemma_are_made(before: Mem, after: Mem, hits: Seq<SearchResult>, writes: Seq<BulkWrite>)
    requires
        before.wf(),
        after.wf(),
        is_ready(before, hits, writes),
        after.same_layout(before),
        after.sink() == before.sink(),
        after.contents() == written(before.contents(), writes),
    ensures
        are_made(before, after, writes),
{
    lemma_written_len(before.contents(), writes);
    assert forall|addr: int|
        0 <= addr < before.contents().len() && (forall|k: int|
            0 <= k < writes.len() ==> !covers(#[trigger] writes[k], addr)) implies #[trigger]
        after.contents()[addr] == before.contents()[addr] by {
        assert forall|k: int| 0 <= k < writes.len() implies !touches(
            #[trigger] writes[k],
            addr,
        ) by {
            assert(!covers(writes[k], addr));
        }
        bulk_keeps_neighbours(before.contents(), writes, addr);
    }
    assert forall|k: int|
        0 <= k < writes.len() && (forall|l: int|
            k < l < writes.len() ==> disjoint(
                writes[k].addr as int,
                byte_size(writes[k].vtype),
                (#[trigger] writes[l]).addr as int,
                byte_size(writes[l].vtype),
            )) implies number_at(
        after,
        (#[trigger] writes[k]).addr as int,
        byte_size(writes[k].vtype),
    ) == writes[k].new_bits as int % value_count(writes[k].vtype) by {
        let write = writes[k];
        assert(is_current(before, hits, write));
        lemma_can_be_made(before, hits, write);
        lemma_allocated(before, write.vtype, write.addr as int);
        assert forall|l: int| k < l < writes.len() implies disjoint(
            writes[k].addr as int,
            writes[k].vtype.width() as int,
            (#[trigger] writes[l]).addr as int,
            writes[l].vtype.width() as int,
        ) by {
            assert(writes[l].vtype.width() == byte_size(writes[l].vtype));
        }
        lemma_last_write_stays(before.contents(), writes, k);
        byte_range_of_words();
        le_bytes_value(write.new_bits as nat, write.vtype.width());
        lemma_number_at(after, write.vtype, write.addr as int);
    }
}

/// Carrying out a plan makes all of its writes, and nothing else, if each of
/// them can be made. Otherwise nothing changes at all.
pub proof fn carrying_out_makes_the_writes(
    mem: &mut Mem,
    hits: &mut [SearchResult],
    plan: &BulkPlan,
    done: Result<usize, BulkError>,
)
    requires
        old(mem).wf(),
        call_ensures(apply_bulk, (mem, hits, plan), done),
    ensures
        done is Ok <==> forall|k: int|
            0 <= k < plan.writes@.len() ==> can_be_made(
                *old(mem),
                old(hits)@,
                #[trigger] plan.writes@[k],
            ),
        match done {
            Ok(count) => {
                &&& count == plan.writes@.len()
                &&& are_made(*old(mem), *final(mem), plan.writes@)
                &&& are_relisted(*final(mem), old(hits)@, final(hits)@, plan.writes@)
            },
            Err(e) => {
                &&& e == BulkError::ValueChanged
                &&& *final(mem) == *old(mem)
                &&& final(hits)@ == old(hits)@
            },
        },
{
    let writes = plan.writes@;
    assert forall|k: int| 0 <= k < writes.len() implies can_be_made(
        *old(mem),
        old(hits)@,
        #[trigger] writes[k],
    ) == is_current(*old(mem), old(hits)@, writes[k]) by {
        lemma_can_be_made(*old(mem), old(hits)@, writes[k]);
    }
    if is_ready(*old(mem), old(hits)@, writes) {
        lemma_are_made(*old(mem), *final(mem), old(hits)@, writes);
        lemma_relisted(*old(mem), *final(mem), old(hits)@, writes);
    } else {
        let k = choose|k: int|
            0 <= k < writes.len() && !#[trigger] is_current(*old(mem), old(hits)@, writes[k]);
        assert(!can_be_made(*old(mem), old(hits)@, writes[k]));
    }
}

proof fn lemma_relisted(before: Mem, after: Mem, hits: Seq<SearchResult>, writes: Seq<BulkWrite>)
    requires
        before.wf(),
        after.wf(),
        is_ready(before, hits, writes),
    ensures
        are_relisted(after, hits, updated_hits(after, hits, writes), writes),
{
    let listed = updated_hits(after, hits, writes);
    assert forall|i: int| 0 <= i < hits.len() && is_written(writes, i) implies (
    #[trigger] listed[i]).bits == number_at(
        after,
        listed[i].addr as int,
        byte_size(listed[i].vtype),
    ) by {
        let k = choose|k: int| 0 <= k < writes.len() && (#[trigger] writes[k]).index == i;
        assert(is_current(before, hits, writes[k]));
        lemma_allocated(before, hits[i].vtype, hits[i].addr as int);
        lemma_number_at(after, hits[i].vtype, hits[i].addr as int);
    }
}

/// A search, a narrowing or a reset replaces the results, drops a bulk edit
/// that waits, and writes nothing.
pub proof fn commands_replace_the_results(
    trainer: &mut Trainer,
    mem: &mut Mem,
    cmd: TrainerCmd,
    now: i64,
    reply: TrainerReply,
)
    requires
        old(mem).wf(),
        old(trainer).enabled,
        call_ensures(Trainer::handle_command_at, (trainer, mem, cmd, now), reply),
        cmd is Search || cmd is Refine || cmd is Reset,
    ensures
        ({
            let found = final(trainer).state.results@;
            &&& *final(mem) == *old(mem)
            &&& final(trainer).enabled
            &&& final(trainer).state.pending_bulk is None
            &&& match cmd {
                TrainerCmd::Search { vtype, text } => {
                    &&& is_complete(*old(mem), vtype, text@, found)
                    &&& reply == TrainerReply::Found { count: found.len() as usize }
                },
                TrainerCmd::Refine { vtype, text } => {
                    &&& exists|from: Seq<int>|
                        is_narrowed(
                            *old(mem),
                            vtype,
                            text@,
                            old(trainer).state.results@,
                            found,
                            from,
                        )
                    &&& reply == TrainerReply::Found { count: found.len() as usize }
                },
                _ => found.len() == 0 && reply is Cleared,
            }
        }),
{
    match cmd {
        TrainerCmd::Search { vtype, text } => {
            lemma_complete(*old(mem), vtype, text@, final(trainer).state.results@);
        },
        TrainerCmd::Refine { vtype, text } => {
            let from = lemma_narrowed(*old(mem), vtype, text@, old(trainer).state.results@);
            assert(is_narrowed(
                *old(mem),
                vtype,
                text@,
                old(trainer).state.results@,
                final(trainer).state.results@,
                from,
            ));
        },
        _ => {},
    }
}

/// A trainer that is off does nothing at all. Commands that are not about the
/// results are handed on, and change nothing. Cancelling drops the bulk edit
/// that waits, and nothing else.
pub proof fn other_commands_change_nothing(
    trainer: &mut Trainer,
    mem: &mut Mem,
    cmd: TrainerCmd,
    now: i64,
    reply: TrainerReply,
)
    requires
        old(mem).wf(),
        call_ensures(Trainer::handle_command_at, (trainer, mem, cmd, now), reply),
        !old(trainer).enabled || !(cmd is Search || cmd is Refine || cmd is Reset || cmd is SetAll),
    ensures
        *final(mem) == *old(mem),
        final(trainer).enabled == old(trainer).enabled,
        final(trainer).state.results == old(trainer).state.results,
        !old(trainer).enabled ==> reply is Ignored && final(trainer).state == old(trainer).state,
        old(trainer).enabled && cmd is CancelBulk ==> {
            &&& reply is Cancelled
            &&& final(trainer).state.pending_bulk is None
        },
        old(trainer).enabled && !(cmd is CancelBulk) ==> {
            &&& reply == TrainerReply::Other { cmd }
            &&& final(trainer).state == old(trainer).state
        },
{
}

/// Whether a bulk edit that waits is the one that is asked for: with the same
/// type, text and mode, with just these writes, and not older than ten seconds.
pub open spec fn is_awaited(
    pending: PendingBulk,
    vtype: VType,
    text: Seq<char>,
    safe_mode: bool,
    plan: BulkPlan,
    now: int,
) -> bool {
    &&& pending.vtype == vtype
    &&& pending.text@ == text
    &&& pending.safe_mode == safe_mode
    &&& pending.plan.writes@ == plan.writes@
    &&& pending.plan.skipped == plan.skipped
    &&& now - pending.created_at < 10_000
}

/// A bulk edit is rejected for what its planning is rejected for. Otherwise it
/// is carried out if it is confirmed and is the one that waits, and else it
/// waits from now on. Nothing is written but what was planned, and only by a
/// confirmation.
pub proof fn set_all_previews_then_writes(
    trainer: &mut Trainer,
    mem: &mut Mem,
    vtype: VType,
    text: String,
    confirm: bool,
    safe_mode: bool,
    now: i64,
    reply: TrainerReply,
    hits: &[SearchResult],
    text_again: &str,
    plan: Result<BulkPlan, BulkError>,
)
    requires
        old(mem).wf(),
        old(trainer).enabled,
        hits@ == old(trainer).state.results@,
        hits@.len() <= usize::MAX,
        text_again@ == text@,
        call_ensures(plan_bulk, (old(mem), hits, vtype, text_again, safe_mode), plan),
        call_ensures(
            Trainer::handle_command_at,
            (trainer, mem, TrainerCmd::SetAll { vtype, text, confirm, safe_mode }, now),
            reply,
        ),
        final(mem).wf(),
    ensures
        ({
            let before = old(trainer).state;
            let after = final(trainer).state;
            match plan {
                Err(error) => {
                    &&& reply == TrainerReply::Rejected { error }
                    &&& *final(mem) == *old(mem)
                    &&& after.results@ == before.results@
                    &&& after.pending_bulk is None
                },
                Ok(plan) => if confirm && before.pending_bulk is Some && is_awaited(
                    before.pending_bulk.unwrap(),
                    vtype,
                    text@,
                    safe_mode,
                    plan,
                    now as int,
                ) {
                    &&& reply == TrainerReply::Written { count: plan.writes@.len() as usize }
                    &&& are_made(*old(mem), *final(mem), plan.writes@)
                    &&& are_relisted(*final(mem), before.results@, after.results@, plan.writes@)
                    &&& after.pending_bulk is None
                } else {
                    &&& reply == TrainerReply::Preview {
                        writes: plan.writes@.len() as usize,
                        skipped: plan.skipped,
                    }
                    &&& *final(mem) == *old(mem)
                    &&& after.results@ == before.results@
                    &&& after.pending_bulk is Some
                    &&& after.pending_bulk.unwrap().created_at == now
                    &&& is_awaited(
                        after.pending_bulk.unwrap(),
                        vtype,
                        text@,
                        safe_mode,
                        plan,
                        now as int,
                    )
                },
            }
        }),
{
    if let Ok(plan) = plan {
        let hits = old(trainer).state.results@;
        crate::trainer::bulk::fresh_plan_is_ready(*old(mem), hits, vtype, text@, safe_mode);
        if confirm && old(trainer).state.pending_bulk is Some && is_awaited(
            old(trainer).state.pending_bulk.unwrap(),
            vtype,
            text@,
            safe_mode,
            plan,
            now as int,
        ) {
            lemma_are_made(*old(mem), *final(mem), hits, plan.writes@);
            lemma_relisted(*old(mem), *final(mem), hits, plan.writes@);
        }
    }
}

/// What the status line says of a rejected edit starts in one way, and says
/// what is wrong: each reason has words of its own.
pub proof fn rejections_have_their_own_words(
    a: BulkError,
    b: BulkError,
    first: &'static str,
    second: &'static str,
)
    requires
        call_ensures(BulkError::message, (a,), first),
        call_ensures(BulkError::message, (b,), second),
    ensures
        a == BulkError::NoResults ==> first@ == "SET ALL: NO RESULTS"@,
        a == BulkError::NothingToWrite ==> first@ == "SET ALL: NO SAFE MATCHES"@,
        a == BulkError::TypeMismatch ==> first@ == "SET ALL: TYPE DIFFERS FROM RESULTS"@,
        a == BulkError::DoesNotFit ==> first@ == "SET ALL: VALUE DOES NOT FIT"@,
        a == BulkError::NotAllocated ==> first@ == "SET ALL: ADDRESS NO LONGER VALID"@,
        a == BulkError::ValueChanged ==> first@ == "SET ALL: VALUES CHANGED, REFINE FIRST"@,
        first@.len() > 8 && first@.take(8) =~= "SET ALL:"@,
        a != b ==> first@ != second@,
{
    reveal_strlit("SET ALL:");
    reveal_strlit("SET ALL: NO RESULTS");
    reveal_strlit("SET ALL: NO SAFE MATCHES");
    reveal_strlit("SET ALL: TYPE DIFFERS FROM RESULTS");
    reveal_strlit("SET ALL: VALUE DOES NOT FIT");
    reveal_strlit("SET ALL: ADDRESS NO LONGER VALID");
    reveal_strlit("SET ALL: VALUES CHANGED, REFINE FIRST");
    let lens = (first@.len(), second@.len());
    assert(first@.take(8) =~= "SET ALL:"@);
}

/// Whatever the time is, only the confirmation of a bulk edit that waits writes
/// to memory, and searches find what they find.
pub proof fn only_confirmations_write(
    trainer: &mut Trainer,
    mem: &mut Mem,
    cmd: TrainerCmd,
    reply: TrainerReply,
)
    requires
        old(mem).wf(),
        call_ensures(Trainer::handle_command, (trainer, mem, cmd), reply),
    ensures
        !(cmd matches TrainerCmd::SetAll { confirm: true, .. }) || old(
            trainer,
        ).state.pending_bulk is None || !old(trainer).enabled ==> *final(mem) == *old(mem),
        old(trainer).enabled ==> match cmd {
            TrainerCmd::Search { vtype, text } => is_complete(
                *old(mem),
                vtype,
                text@,
                final(trainer).state.results@,
            ),
            TrainerCmd::Refine { vtype, text } => exists|from: Seq<int>|
                is_narrowed(
                    *old(mem),
                    vtype,
                    text@,
                    old(trainer).state.results@,
                    final(trainer).state.results@,
                    from,
                ),
            TrainerCmd::Reset => final(trainer).state.results@.len() == 0,
            _ => true,
        },
{
    let now = choose|now: i64| #[trigger]
        Trainer::is_handled(
            *old(trainer),
            *old(mem),
            *final(trainer),
            *final(mem),
            cmd,
            reply,
            now,
        );
    if old(trainer).enabled {
        match cmd {
            TrainerCmd::Search { vtype, text } => {
                lemma_complete(*old(mem), vtype, text@, final(trainer).state.results@);
            },
            TrainerCmd::Refine { vtype, text } => {
                let from = lemma_narrowed(*old(mem), vtype, text@, old(trainer).state.results@);
                assert(is_narrowed(
                    *old(mem),
                    vtype,
                    text@,
                    old(trainer).state.results@,
                    final(trainer).state.results@,
                    from,
                ));
            },
            _ => {},
        }
    }
}

} // verus!
