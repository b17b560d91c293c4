//! Keeps the log readable when an app touches memory that isn't there.
use vstd::prelude::*;

use crate::mem::ptr::VAddr;

verus! {

/// Number of different accesses that are logged.
pub const MAX_UNIQUE_LOGS: usize = 64;

/// What to say about an access.
#[derive(Clone, Copy, Debug, PartialEq, Eq, Structural)]
pub enum NullAccessReport {
    /// Nothing.
    Silent,
    /// That further accesses will not be logged.
    Silenced,
    /// The access itself, the given number of which have been logged so far.
    Logged { sites: usize },
}

/// An access, by its address and whether it was a write.
pub type Access = (VAddr, bool);

/// What a log knows.
pub ghost struct LogView {
    /// The accesses that were logged, in order.
    pub seen: Seq<Access>,
    /// Whether it was said that further accesses will not be logged.
    pub silenced: bool,
}

impl LogView {
    /// A log at the start.
    pub open spec fn empty() -> LogView {
        LogView { seen: Seq::empty(), silenced: false }
    }

    /// Nothing is logged twice, nor beyond the limit. Accesses are silenced
    /// only once the limit is reached.
    pub open spec fn wf(self) -> bool {
        &&& self.seen.no_duplicates()
        &&& self.seen.len() <= MAX_UNIQUE_LOGS
        &&& self.silenced ==> self.seen.len() == MAX_UNIQUE_LOGS
    }

    /// What is said about an access.
    pub open spec fn report(self, access: Access) -> NullAccessReport {
        if self.seen.contains(access) || self.silenced {
            NullAccessReport::Silent
        } else if self.seen.len() >= MAX_UNIQUE_LOGS {
            NullAccessReport::Silenced
        } else {
            NullAccessReport::Logged { sites: (self.seen.len() + 1) as usize }
        }
    }

    /// The log after an access.
    pub open spec fn after(self, access: Access) -> LogView {
        match self.report(access) {
            NullAccessReport::Silent => self,
            NullAccessReport::Silenced => LogView { silenced: true, ..self },
            NullAccessReport::Logged { .. } => LogView { seen: self.seen.push(access), ..self },
        }
    }
}

/// The accesses to missing memory that have been logged.
///
/// Only the first accesses are logged, each address once for reading and once
/// for writing, so that an app that keeps probing the null page doesn't flood
/// the log.
pub struct NullAccessLog {
    seen: Vec<Access>,
    silenced: bool,
}

impl View for NullAccessLog {
    type V = LogView;

    closed spec fn view(&self) -> LogView {
        LogView { seen: self.seen@, silenced: self.silenced }
    }
}

impl NullAccessLog {
    pub fn new() -> (log: Self)
        ensures
            log@.wf(),
            log@ == LogView::empty(),
    {
        let log = NullAccessLog { seen: Vec::new(), silenced: false };
        assert(log@.seen =~= LogView::empty().seen);
        log
    }

    fn contains(&self, at: VAddr, is_write: bool) -> (yes: bool)
        ensures
            yes == self@.seen.contains((at, is_write)),
    {
        let mut i: usize = 0;
        while i < self.seen.len()
            invariant
                i <= self.seen@.len(),
                forall|k: int| 0 <= k < i ==> self.seen@[k] != (at, is_write),
            decreases self.seen@.len() - i,
        {
            let (seen_at, seen_write) = self.seen[i];
            if seen_at == at && seen_write == is_write {
                assert(self.seen@[i as int] == (at, is_write));
                return true;
            }
            i = i + 1;
        }
        false
    }

    /// Takes note of an access.
    pub fn record(&mut self, at: VAddr, is_write: bool) -> (report: NullAccessReport)
        requires
            old(self)@.wf(),
        ensures
            final(self)@.wf(),
            report == old(self)@.report((at, is_write)),
            final(self)@ == old(self)@.after((at, is_write)),
    {
        if self.silenced || self.contains(at, is_write) {
            return NullAccessReport::Silent;
        }
        if self.seen.len() >= MAX_UNIQUE_LOGS {
            self.silenced = true;
            return NullAccessReport::Silenced;
        }
        self.seen.push((at, is_write));
        NullAccessReport::Logged { sites: self.seen.len() }
    }
}

/// The log after the first `count` of some accesses, empty before them.
pub open spec fn log_after(accesses: Seq<Access>, count: nat) -> LogView
    decreases count,
{
    if count == 0 {
        LogView::empty()
    } else {
        log_after(accesses, (count - 1) as nat).after(accesses[count - 1])
    }
}

/// What is said about one of some accesses.
pub open spec fn report_at(accesses: Seq<Access>, i: int) -> NullAccessReport {
    log_after(accesses, i as nat).report(accesses[i])
}

/// How many of the first accesses are logged.
pub open spec fn lines_logged(accesses: Seq<Access>, count: nat) -> nat
    decreases count,
{
    if count == 0 {
        0
    } else {
        lines_logged(accesses, (count - 1) as nat) + if report_at(accesses, count - 1) is Logged {
            1nat
        } else {
            0nat
        }
    }
}

/// Whether there was the same access before.
pub open spec fn seen_before(accesses: Seq<Access>, i: int) -> bool {
    accesses.take(i).contains(accesses[i])
}

proof fn lemma_pushed(accesses: Seq<Access>, last: Access, access: Access)
    ensures
        accesses.push(last).contains(access) <==> accesses.contains(access) || access == last,
{
    let pushed = accesses.push(last);
    if accesses.contains(access) {
        assert(pushed[accesses.index_of(access)] == access);
    }
    assert(pushed[accesses.len() as int] == last);
}

proof fn lemma_log_after(accesses: Seq<Access>, count: nat)
    requires
        count <= accesses.len(),
    ensures
        log_after(accesses, count).wf(),
        log_after(accesses, count).seen.len() == lines_logged(accesses, count),
        !log_after(accesses, count).silenced ==> forall|access: Access|
            accesses.take(count as int).contains(access) <==> #[trigger] log_after(
                accesses,
                count,
            ).seen.contains(access),
        log_after(accesses, count).silenced <==> exists|i: int|
            0 <= i < count && #[trigger] report_at(accesses, i) is Silenced,
    decreases count,
{
    if count > 0 {
        let i = count - 1;
        lemma_log_after(accesses, i as nat);
        let before = log_after(accesses, i as nat);
        let after = log_after(accesses, count);
        let access = accesses[i];
        assert(accesses.take(count as int) =~= accesses.take(i).push(access));
        assert(report_at(accesses, i) == before.report(access));
        if !after.silenced {
            assert forall|other: Access|
                accesses.take(count as int).contains(other) <==> #[trigger] after.seen.contains(
                    other,
                ) by {
                lemma_pushed(accesses.take(i), access, other);
                lemma_pushed(before.seen, access, other);
                assert(before.seen.contains(other) <==> accesses.take(i).contains(other));
            }
        }
        if before.silenced {
            let j = choose|j: int| 0 <= j < i && #[trigger] report_at(accesses, j) is Silenced;
            assert(0 <= j < count);
        }
    }
}

/// Whatever is accessed, the log stays short: an access gets a line exactly if
/// it is the first of its kind and the limit is not reached, and never is
/// there a line beyond the limit.
pub proof fn lines_are_limited(accesses: Seq<Access>, i: int)
    requires
        0 <= i < accesses.len(),
    ensures
        report_at(accesses, i) is Logged <==> !seen_before(accesses, i) && lines_logged(
            accesses,
            i as nat,
        ) < MAX_UNIQUE_LOGS,
        lines_logged(accesses, accesses.len()) <= MAX_UNIQUE_LOGS,
{
    lemma_log_after(accesses, i as nat);
    lemma_log_after(accesses, accesses.len());
    let log = log_after(accesses, i as nat);
    if !log.silenced {
        assert(log.seen.contains(accesses[i]) <==> accesses.take(i).contains(accesses[i]));
    }
}

/// Whatever is accessed, the notice comes once at most: at the first new
/// access after the limit is reached.
pub proof fn notice_comes_once(accesses: Seq<Access>, i: int)
    requires
        0 <= i < accesses.len(),
    ensures
        report_at(accesses, i) is Silenced <==> {
            &&& !seen_before(accesses, i)
            &&& lines_logged(accesses, i as nat) == MAX_UNIQUE_LOGS
            &&& forall|j: int|
                0 <= j < i && lines_logged(accesses, j as nat) == MAX_UNIQUE_LOGS
                    ==> #[trigger] seen_before(accesses, j)
        },
        forall|j: int|
            0 <= j < accesses.len() && #[trigger] report_at(accesses, j) is Silenced && report_at(
                accesses,
                i,
            ) is Silenced ==> j == i,
{
    let log = log_after(accesses, i as nat);
    lemma_log_after(accesses, i as nat);
    assert forall|j: int| 0 <= j < accesses.len() && #[trigger] report_at(accesses, j) is Silenced
        && report_at(accesses, i) is Silenced implies j == i by {
        lemma_log_after(accesses, j as nat);
    }
    if !log.silenced {
        assert(log.seen.contains(accesses[i]) <==> accesses.take(i).contains(accesses[i]));
        assert forall|j: int|
            0 <= j < i && lines_logged(accesses, j as nat)
                == MAX_UNIQUE_LOGS implies #[trigger] seen_before(accesses, j) by {
            let earlier = log_after(accesses, j as nat);
            lemma_log_after(accesses, j as nat);
            assert(!(report_at(accesses, j) is Silenced));
            assert(earlier.seen.contains(accesses[j]) <==> accesses.take(j).contains(accesses[j]));
        }
    } else {
        let j = choose|j: int| 0 <= j < i && #[trigger] report_at(accesses, j) is Silenced;
        let earlier = log_after(accesses, j as nat);
        lemma_log_after(accesses, j as nat);
        assert(earlier.seen.contains(accesses[j]) <==> accesses.take(j).contains(accesses[j]));
        assert(!seen_before(accesses, j));
    }
}

/// What an access to missing memory most likely means.
///
/// Small offsets are typically field accesses on a nil Objective-C object
/// pointer. This is not a crash, just a sign that the app is accessing a nil
/// object's fields.
pub fn access_context(at: VAddr, is_write: bool) -> (context: &'static str)
    ensures
        context@ == if at >= 0x1000 {
            " — returning stub page"@
        } else if is_write {
            " (likely nil ObjC object field write — discarding)"@
        } else {
            " (likely nil ObjC object field access — returning zero)"@
        },
{
    if !is_write && at < 0x1000 {
        " (likely nil ObjC object field access — returning zero)"
    } else if is_write && at < 0x1000 {
        " (likely nil ObjC object field write — discarding)"
    } else {
        " — returning stub page"
    }
}

/// A site line says how many there are with it, and each record goes by what
/// was logged before.
pub proof fn records_are_counted(
    log: &mut NullAccessLog,
    at: VAddr,
    is_write: bool,
    report: NullAccessReport,
)
    requires
        old(log)@.wf(),
        call_ensures(NullAccessLog::record, (log, at, is_write), report),
    ensures
        ({
            let seen = old(log)@.seen;
            let known = exists|i: int| 0 <= i < seen.len() && seen[i] == (at, is_write);
            &&& report is Logged <==> !known && seen.len() < 64 && !old(log)@.silenced
            &&& report matches NullAccessReport::Logged { sites } ==> {
                &&& sites == seen.len() + 1
                &&& final(log)@.seen == seen.push((at, is_write))
                &&& !final(log)@.silenced
            }
            &&& report is Silenced <==> !known && seen.len() == 64 && !old(log)@.silenced
            &&& report is Silenced ==> final(log)@.silenced && final(log)@.seen == seen
            &&& report is Silent ==> final(log)@ == old(log)@
        }),
{
    let seen = old(log)@.seen;
    if seen.contains((at, is_write)) {
        let i = seen.index_of((at, is_write));
        assert(seen[i] == (at, is_write));
    }
}

} // verus!
