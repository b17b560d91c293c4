//! Finds values in guest memory and changes them.
//!
//! A search leaves a list of results. All of them can be set at once, in two
//! steps: a preview first, and then a confirmation of just that preview.
use vstd::prelude::*;

pub mod bulk;
pub mod edit_laws;
pub mod laws;
pub mod search;
pub mod text_laws;
pub mod value;

pub use crate::trainer::bulk::{apply_bulk, plan_bulk, BulkError, BulkPlan, BulkWrite};
pub use crate::trainer::search::{search_all, SearchResult};
pub use crate::trainer::value::VType;

use crate::mem::Mem;
use crate::trainer::bulk::{
    fresh_plan_is_ready, plan_error, planned, updated_hits, written,
};
use crate::trainer::search::{is_search, refinement};
use crate::trainer_ui::TrainerCmd;

verus! {

/// Milliseconds after which a preview can't be confirmed any more.
pub const BULK_CONFIRM_TIMEOUT: i64 = 10_000;

/// A point in time, [std::time::Instant]. Nothing looks inside.
#[verifier::external_type_specification]
#[verifier::external_body]
pub struct ExInstant(std::time::Instant);

/// [std::time::Instant::now]: the current time, of which nothing is known.
pub assume_specification[ std::time::Instant::now ]() -> (now: std::time::Instant)
;

/// [std::time::Instant::elapsed]: the milliseconds that have passed since a
/// point in time. Nothing is known of the number.
#[verifier::external_body]
fn millis_since(start: &std::time::Instant) -> (millis: i64) {
    start.elapsed().as_millis() as i64
}

/// A bulk edit that waits for its confirmation.
pub struct PendingBulk {
    pub plan: BulkPlan,
    pub vtype: VType,
    pub text: String,
    pub safe_mode: bool,
    /// When the preview was made, in milliseconds.
    pub created_at: i64,
}

/// What the trainer remembers.
pub struct TrainerState {
    pub results: Vec<SearchResult>,
    pub pending_bulk: Option<PendingBulk>,
}

pub struct Trainer {
    pub enabled: bool,
    pub state: TrainerState,
    pub started: std::time::Instant,
}

/// What came of a command.
pub enum TrainerReply {
    /// The trainer is off.
    Ignored,
    /// A search ended with this many results.
    Found { count: usize },
    /// There are no results any more.
    Cleared,
    /// A bulk edit waits for its confirmation.
    Preview { writes: usize, skipped: usize },
    /// This many values were set.
    Written { count: usize },
    /// A bulk edit was rejected.
    Rejected { error: BulkError },
    /// There is no bulk edit that waits for its confirmation.
    Cancelled,
    /// The command is not about the results.
    Other { cmd: TrainerCmd },
}

impl PendingBulk {
    /// Whether a bulk edit, given by its inputs and by what it would do now,
    /// is the one that waits, and the preview is recent.
    pub open spec fn is_for(
        self,
        vtype: VType,
        text: Seq<char>,
        safe_mode: bool,
        writes: Seq<BulkWrite>,
        skipped: int,
        now: i64,
    ) -> bool {
        &&& self.vtype == vtype
        &&& self.text@ == text
        &&& self.safe_mode == safe_mode
        &&& self.plan.writes@ == writes
        &&& self.plan.skipped == skipped
        &&& now - self.created_at < BULK_CONFIRM_TIMEOUT
    }

    fn matches_request(
        &self,
        vtype: VType,
        text: &String,
        safe_mode: bool,
        plan: &BulkPlan,
        now: i64,
    ) -> (yes: bool)
        ensures
            yes == self.is_for(
                vtype,
                text@,
                safe_mode,
                plan.writes@,
                plan.skipped as int,
                now,
            ),
    {
        if self.vtype != vtype || self.safe_mode != safe_mode {
            return false;
        }
        if self.text != *text {
            return false;
        }
        let age: i128 = now as i128 - self.created_at as i128;
        if age >= BULK_CONFIRM_TIMEOUT as i128 {
            return false;
        }
        self.plan.skipped == plan.skipped && same_writes(&self.plan.writes, &plan.writes)
    }
}

fn same_writes(a: &Vec<BulkWrite>, b: &Vec<BulkWrite>) -> (same: bool)
    ensures
        same == (a@ == b@),
{
    if a.len() != b.len() {
        return false;
    }
    let mut i: usize = 0;
    while i < a.len()
        invariant
            i <= a@.len(),
            a@.len() == b@.len(),
            forall|k: int| 0 <= k < i ==> a@[k] == b@[k],
        decreases a@.len() - i,
    {
        if a[i] != b[i] {
            return false;
        }
        i = i + 1;
    }
    assert(a@ =~= b@);
    true
}

impl Trainer {
    pub fn new(enabled: bool) -> (trainer: Trainer)
        ensures
            trainer.enabled == enabled,
            trainer.state.results@ == Seq::<SearchResult>::empty(),
            trainer.state.pending_bulk is None,
    {
        Trainer {
            enabled,
            state: TrainerState { results: Vec::new(), pending_bulk: None },
            started: std::time::Instant::now(),
        }
    }

    /// What setting all results does, given the state and the memory before.
    pub open spec fn is_set_all(
        before: TrainerState,
        mem_before: Mem,
        after: TrainerState,
        mem_after: Mem,
        reply: TrainerReply,
        vtype: VType,
        text: Seq<char>,
        confirm: bool,
        safe_mode: bool,
        now: i64,
    ) -> bool {
        let hits = before.results@;
        let writes = planned(mem_before, hits, vtype, text, safe_mode, hits.len() as int);
        let skipped = hits.len() - writes.len();
        let error = plan_error(mem_before, hits, vtype, text, safe_mode);
        let confirmed = confirm && before.pending_bulk is Some
            && before.pending_bulk.unwrap().is_for(
            vtype,
            text,
            safe_mode,
            writes,
            skipped,
            now,
        );
        if error is Some {
            &&& reply == TrainerReply::Rejected { error: error.unwrap() }
            &&& after.pending_bulk is None
            &&& after.results@ == hits
            &&& mem_after == mem_before
        } else if confirmed {
            &&& reply == TrainerReply::Written { count: writes.len() as usize }
            &&& after.pending_bulk is None
            &&& mem_after.same_layout(mem_before)
            &&& mem_after.sink() == mem_before.sink()
            &&& mem_after.contents() == written(mem_before.contents(), writes)
            &&& after.results@ == updated_hits(mem_after, hits, writes)
        } else {
            &&& reply == TrainerReply::Preview {
                writes: writes.len() as usize,
                skipped: skipped as usize,
            }
            &&& after.pending_bulk is Some
            &&& after.pending_bulk.unwrap().is_for(
                vtype,
                text,
                safe_mode,
                writes,
                skipped,
                after.pending_bulk.unwrap().created_at,
            )
            &&& after.pending_bulk.unwrap().created_at == now
            &&& after.results@ == hits
            &&& mem_after == mem_before
        }
    }

    /// What a command does, given the time at which it is handled.
    pub open spec fn is_handled(
        before: Trainer,
        mem_before: Mem,
        after: Trainer,
        mem_after: Mem,
        cmd: TrainerCmd,
        reply: TrainerReply,
        now: i64,
    ) -> bool {
        &&& after.enabled == before.enabled
        &&& after.started == before.started
        &&& if !before.enabled {
            &&& reply is Ignored
            &&& after.state == before.state
            &&& mem_after == mem_before
        } else {
            match cmd {
                TrainerCmd::Search { vtype, text } => {
                    &&& is_search(mem_before, vtype, text@, after.state.results@)
                    &&& after.state.pending_bulk is None
                    &&& reply == TrainerReply::Found { count: after.state.results@.len() as usize }
                    &&& mem_after == mem_before
                },
                TrainerCmd::Refine { vtype, text } => {
                    &&& after.state.results@ == refinement(
                        mem_before,
                        vtype,
                        text@,
                        before.state.results@,
                    )
                    &&& after.state.pending_bulk is None
                    &&& reply == TrainerReply::Found { count: after.state.results@.len() as usize }
                    &&& mem_after == mem_before
                },
                TrainerCmd::Reset => {
                    &&& after.state.results@ == Seq::<SearchResult>::empty()
                    &&& after.state.pending_bulk is None
                    &&& reply is Cleared
                    &&& mem_after == mem_before
                },
                TrainerCmd::SetAll { vtype, text, confirm, safe_mode } => Self::is_set_all(
                    before.state,
                    mem_before,
                    after.state,
                    mem_after,
                    reply,
                    vtype,
                    text@,
                    confirm,
                    safe_mode,
                    now,
                ),
                TrainerCmd::CancelBulk => {
                    &&& after.state.results == before.state.results
                    &&& after.state.pending_bulk is None
                    &&& reply is Cancelled
                    &&& mem_after == mem_before
                },
                _ => {
                    &&& after.state == before.state
                    &&& reply == TrainerReply::Other { cmd }
                    &&& mem_after == mem_before
                },
            }
        }
    }

    /// Handles a command.
    pub fn handle_command(&mut self, mem: &mut Mem, cmd: TrainerCmd) -> (reply: TrainerReply)
        requires
            old(mem).wf(),
        ensures
            final(mem).wf(),
            exists|now: i64| #[trigger]
                Self::is_handled(
                    *old(self),
                    *old(mem),
                    *final(self),
                    *final(mem),
                    cmd,
                    reply,
                    now,
                ),
    {
        let now: i64 = millis_since(&self.started);
        self.handle_command_at(mem, cmd, now)
    }

    /// Handles a command at the given time, in milliseconds.
    pub fn handle_command_at(
        &mut self,
        mem: &mut Mem,
        cmd: TrainerCmd,
        now: i64,
    ) -> (reply: TrainerReply)
        requires
            old(mem).wf(),
        ensures
            final(mem).wf(),
            Self::is_handled(*old(self), *old(mem), *final(self), *final(mem), cmd, reply, now),
    {
        if !self.enabled {
            return TrainerReply::Ignored;
        }
        match cmd {
            TrainerCmd::Search { vtype, text } => {
                self.state.pending_bulk = None;
                self.state.results = search_all(mem, vtype, text.as_str(), None);
                TrainerReply::Found { count: self.state.results.len() }
            },
            TrainerCmd::Refine { vtype, text } => {
                self.state.pending_bulk = None;
                let found = search_all(
                    mem,
                    vtype,
                    text.as_str(),
                    Some(self.state.results.as_slice()),
                );
                self.state.results = found;
                TrainerReply::Found { count: self.state.results.len() }
            },
            TrainerCmd::Reset => {
                self.state.pending_bulk = None;
                self.state.results = Vec::new();
                TrainerReply::Cleared
            },
            TrainerCmd::SetAll { vtype, text, confirm, safe_mode } => self.set_all(
                mem,
                vtype,
                text,
                confirm,
                safe_mode,
                now,
            ),
            TrainerCmd::CancelBulk => {
                self.state.pending_bulk = None;
                TrainerReply::Cancelled
            },
            other => TrainerReply::Other { cmd: other },
        }
    }

    fn set_all(
        &mut self,
        mem: &mut Mem,
        vtype: VType,
        text: String,
        confirm: bool,
        safe_mode: bool,
        now: i64,
    ) -> (reply: TrainerReply)
        requires
            old(mem).wf(),
        ensures
            final(mem).wf(),
            final(self).enabled == old(self).enabled,
            final(self).started == old(self).started,
            Self::is_set_all(
                old(self).state,
                *old(mem),
                final(self).state,
                *final(mem),
                reply,
                vtype,
                text@,
                confirm,
                safe_mode,
                now,
            ),
    {
        let plan = match plan_bulk(
            mem,
            self.state.results.as_slice(),
            vtype,
            text.as_str(),
            safe_mode,
        ) {
            Err(error) => {
                self.state.pending_bulk = None;
                return TrainerReply::Rejected { error };
            },
            Ok(plan) => plan,
        };
        let confirmed = confirm && match &self.state.pending_bulk {
            Some(pending) => pending.matches_request(vtype, &text, safe_mode, &plan, now),
            None => false,
        };
        if confirmed {
            let count: usize = self.state.results.len();
            proof {
                assert(self.state.results@.len() == count);
                fresh_plan_is_ready(*mem, self.state.results@, vtype, text@, safe_mode);
            }
            self.state.pending_bulk = None;
            match apply_bulk(mem, self.state.results.as_mut_slice(), &plan) {
                Ok(count) => TrainerReply::Written { count },
                Err(error) => TrainerReply::Rejected { error },
            }
        } else {
            let writes: usize = plan.writes.len();
            let skipped: usize = plan.skipped;
            self.state.pending_bulk =
            Some(PendingBulk { plan, vtype, text, safe_mode, created_at: now });
            TrainerReply::Preview { writes, skipped }
        }
    }
}

/// Memory changes only by a confirmation, and only while a preview waits for
/// one and is recent.
pub proof fn writes_need_a_recent_preview(
    before: Trainer,
    mem_before: Mem,
    after: Trainer,
    mem_after: Mem,
    cmd: TrainerCmd,
    reply: TrainerReply,
    now: i64,
)
    requires
        Trainer::is_handled(before, mem_before, after, mem_after, cmd, reply, now),
        !(cmd matches TrainerCmd::SetAll { confirm: true, .. }) || before.state.pending_bulk is None
            || now - before.state.pending_bulk.unwrap().created_at >= BULK_CONFIRM_TIMEOUT,
    ensures
        mem_after == mem_before,
{
}

/// A preview can't be confirmed with another type, value or mode, nor after
/// the bulk edit would do something else: that makes a new preview.
pub proof fn confirmation_is_of_the_preview(
    before: Trainer,
    mem_before: Mem,
    after: Trainer,
    mem_after: Mem,
    vtype: VType,
    text: String,
    safe_mode: bool,
    reply: TrainerReply,
    now: i64,
)
    requires
        before.enabled,
        Trainer::is_handled(
            before,
            mem_before,
            after,
            mem_after,
            TrainerCmd::SetAll { vtype, text, confirm: true, safe_mode },
            reply,
            now,
        ),
        before.state.pending_bulk is Some,
        ({
            let pending = before.state.pending_bulk.unwrap();
            let hits = before.state.results@;
            ||| pending.vtype != vtype
            ||| pending.text@ != text@
            ||| pending.safe_mode != safe_mode
            ||| pending.plan.writes@ != planned(
                mem_before,
                hits,
                vtype,
                text@,
                safe_mode,
                hits.len() as int,
            )
        }),
    ensures
        mem_after == mem_before,
        after.state.results@ == before.state.results@,
        reply is Preview || reply is Rejected,
{
}

/// A preview that is confirmed in time, while nothing else has changed, is
/// carried out.
pub proof fn preview_then_confirm_writes(
    start: Trainer,
    previewed: Trainer,
    done: Trainer,
    mem: Mem,
    mem_done: Mem,
    vtype: VType,
    text: String,
    confirm: bool,
    safe_mode: bool,
    first_reply: TrainerReply,
    second_reply: TrainerReply,
    now: i64,
    later: i64,
)
    requires
        start.enabled,
        start.state.pending_bulk is None,
        plan_error(mem, start.state.results@, vtype, text@, safe_mode) is None,
        Trainer::is_handled(
            start,
            mem,
            previewed,
            mem,
            TrainerCmd::SetAll { vtype, text, confirm, safe_mode },
            first_reply,
            now,
        ),
        Trainer::is_handled(
            previewed,
            mem,
            done,
            mem_done,
            TrainerCmd::SetAll { vtype, text, confirm: true, safe_mode },
            second_reply,
            later,
        ),
        later - now < BULK_CONFIRM_TIMEOUT,
    ensures
        first_reply is Preview,
        second_reply is Written,
        done.state.pending_bulk is None,
        ({
            let hits = start.state.results@;
            mem_done.contents() == written(
                mem.contents(),
                planned(mem, hits, vtype, text@, safe_mode, hits.len() as int),
            )
        }),
{
}

/// Once a bulk edit is cancelled, a confirmation makes a new preview at most.
pub proof fn cancelled_edit_cannot_write(
    start: Trainer,
    cancelled: Trainer,
    done: Trainer,
    mem: Mem,
    mem_done: Mem,
    cmd: TrainerCmd,
    first_reply: TrainerReply,
    second_reply: TrainerReply,
    now: i64,
    later: i64,
)
    requires
        start.enabled,
        Trainer::is_handled(start, mem, cancelled, mem, TrainerCmd::CancelBulk, first_reply, now),
        Trainer::is_handled(cancelled, mem, done, mem_done, cmd, second_reply, later),
    ensures
        mem_done == mem,
{
}

} // verus!
