//! The batch dispatcher: a state machine that cuts the wordlist into batches,
//! hands each one to the device, reads the result slot back and stops at the
//! first match. The program around the library performs the actions; every
//! decision is taken here.

use vstd::prelude::*;
use vstd::arithmetic::div_mod::lemma_fundamental_div_mod;
use vstd::arithmetic::div_mod::lemma_fundamental_div_mod_converse;
use vstd::arithmetic::div_mod::lemma_mod_pos_bound;
use vstd::arithmetic::mul::lemma_mul_inequality;
use vstd::arithmetic::mul::lemma_mul_is_distributive_add_other_way;

verus! {

/// Candidates per batch in the engine's own configuration.
pub const BATCH_SIZE: usize = 1_048_576;

/// What the result slot holds before the kernel runs, and still holds
/// afterwards when no record of the batch matched.
pub const NO_MATCH: i32 = -1;

/// Where one run of the dispatcher stands.
#[derive(Debug, Clone, Copy, PartialEq, Eq, Structural)]
pub enum DispatchState {
    /// Nothing was dispatched yet.
    Init,
    /// The batch of `count` candidates from `start` is on the device.
    AwaitResult { start: usize, count: usize },
    /// The candidate at `index` of the wordlist matched.
    Matched { index: usize },
    /// Every batch was tried and none matched.
    Done,
    /// The device failed; the caller searches the whole wordlist on the CPU.
    Aborted,
}

/// What the program reports back to the dispatcher.
#[derive(Debug, Clone, Copy, PartialEq, Eq, Structural)]
pub enum DispatchEvent {
    /// The run begins.
    Start,
    /// The kernel finished and the result slot was read back.
    SlotRead(i32),
    /// A buffer could not be made, the launch failed or the read-back failed.
    DeviceFailed,
}

/// What the dispatcher asks the program to do next.
#[derive(Debug, Clone, Copy, PartialEq, Eq, Structural)]
pub enum DispatchAction {
    /// Encode the `count` candidates from `start`, upload them with the target
    /// and a slot set to `NO_MATCH`, run one work item per candidate, read the
    /// slot back.
    Launch { start: usize, count: usize },
    /// Report the candidate at `index` as found.
    ReportFound { index: usize },
    /// Report that the wordlist holds no match.
    ReportNotFound,
    /// Give the accelerator up and search the whole wordlist on the CPU.
    FallBack,
    /// Nothing to do: the event does not belong to the state.
    Idle,
}

/// What one batch came to: the place within the batch that matched, or none.
#[derive(Debug, Clone, Copy, PartialEq, Eq, Structural)]
pub struct DispatchResult {
    pub match_index: Option<usize>,
}

/// What a result slot says.
pub open spec fn result_of_slot(slot: i32) -> DispatchResult {
    if slot == NO_MATCH {
        DispatchResult { match_index: None }
    } else {
        DispatchResult { match_index: Some(slot as usize) }
    }
}

/// Reads a result slot: `NO_MATCH` stands for no match, every other value for
/// the place of the matching record within its batch.
pub fn read_slot(slot: i32) -> (result: DispatchResult)
    requires
        slot == NO_MATCH || 0 <= slot,
    ensures
        result == result_of_slot(slot),
{
    if slot == NO_MATCH {
        DispatchResult { match_index: None }
    } else {
        DispatchResult { match_index: Some(slot as usize) }
    }
}

/// One run over a wordlist of `total` candidates in batches of `batch_size`.
#[derive(Debug, Clone, Copy, PartialEq, Eq, Structural)]
pub struct Dispatcher {
    pub total: usize,
    pub batch_size: usize,
    pub state: DispatchState,
}

/// Length of the batch that starts at `start`: a full batch, or what is left.
pub open spec fn batch_len(total: int, batch_size: int, start: int) -> int {
    if total - start < batch_size {
        total - start
    } else {
        batch_size
    }
}

impl Dispatcher {
    /// The batch size is positive, a batch in flight is the batch that its
    /// start calls for and lies inside the wordlist, and a match names a
    /// candidate of the wordlist.
    pub open spec fn wf(&self) -> bool {
        &&& self.batch_size > 0
        &&& match self.state {
            DispatchState::AwaitResult { start, count } => {
                &&& start < self.total
                &&& count == batch_len(self.total as int, self.batch_size as int, start as int)
            },
            DispatchState::Matched { index } => index < self.total,
            _ => true,
        }
    }

    /// No event moves the dispatcher out of such a state.
    pub open spec fn is_terminal(&self) -> bool {
        self.state is Matched || self.state is Done || self.state is Aborted
    }

    /// The kernel's side of the slot contract, as far as the dispatcher can see
    /// it: the slot still holds `NO_MATCH`, or an index inside the batch.
    pub open spec fn admits(&self, event: DispatchEvent) -> bool {
        match (self.state, event) {
            (DispatchState::AwaitResult { start, count }, DispatchEvent::SlotRead(slot)) => slot
                == NO_MATCH || 0 <= slot < count,
            _ => true,
        }
    }

    /// The dispatcher with another state.
    pub open spec fn with_state(&self, state: DispatchState) -> Dispatcher {
        Dispatcher { total: self.total, batch_size: self.batch_size, state }
    }

    /// Moving on to the batch at `start`: launch it, or finish without a match
    /// when the wordlist ends there.
    pub open spec fn enter(&self, start: int) -> (Dispatcher, DispatchAction) {
        if start >= self.total {
            (self.with_state(DispatchState::Done), DispatchAction::ReportNotFound)
        } else {
            let count = batch_len(self.total as int, self.batch_size as int, start);
            (
                self.with_state(
                    DispatchState::AwaitResult { start: start as usize, count: count as usize },
                ),
                DispatchAction::Launch { start: start as usize, count: count as usize },
            )
        }
    }

    /// The transition function: the next dispatcher and the action to perform.
    pub open spec fn step_spec(&self, event: DispatchEvent) -> (Dispatcher, DispatchAction) {
        match (self.state, event) {
            (DispatchState::Init, DispatchEvent::Start) => self.enter(0),
            (DispatchState::AwaitResult { start, count }, DispatchEvent::SlotRead(slot)) => {
                match result_of_slot(slot).match_index {
                    None => self.enter(start + count),
                    Some(offset) => (
                        self.with_state(DispatchState::Matched { index: (start + offset) as usize }),
                        DispatchAction::ReportFound { index: (start + offset) as usize },
                    ),
                }
            },
            (DispatchState::Init, DispatchEvent::DeviceFailed) => (
                self.with_state(DispatchState::Aborted),
                DispatchAction::FallBack,
            ),
            (DispatchState::AwaitResult { .. }, DispatchEvent::DeviceFailed) => (
                self.with_state(DispatchState::Aborted),
                DispatchAction::FallBack,
            ),
            _ => (*self, DispatchAction::Idle),
        }
    }

    /// A dispatcher that has not started.
    pub fn new(total: usize, batch_size: usize) -> (d: Dispatcher)
        requires
            batch_size > 0,
        ensures
            d == (Dispatcher { total, batch_size, state: DispatchState::Init }),
            d.wf(),
    {
        Dispatcher { total, batch_size, state: DispatchState::Init }
    }

    fn enter_batch(&self, start: usize) -> (r: (Dispatcher, DispatchAction))
        requires
            self.batch_size > 0,
            start <= self.total,
        ensures
            r == self.enter(start as int),
            r.0.wf(),
    {
        if start >= self.total {
            (
                Dispatcher {
                    total: self.total,
                    batch_size: self.batch_size,
                    state: DispatchState::Done,
                },
                DispatchAction::ReportNotFound,
            )
        } else {
            let left: usize = self.total - start;
            let count: usize = if left < self.batch_size {
                left
            } else {
                self.batch_size
            };
            (
                Dispatcher {
                    total: self.total,
                    batch_size: self.batch_size,
                    state: DispatchState::AwaitResult { start, count },
                },
                DispatchAction::Launch { start, count },
            )
        }
    }

    /// Takes one event and returns the next dispatcher with the action that the
    /// program is to perform. A slot other than `NO_MATCH` ends the run with the
    /// candidate at that offset of the batch in flight; `NO_MATCH` moves on to
    /// the next batch, or ends the run without a match after the last one. A
    /// device failure gives the accelerator up for the whole wordlist. An event
    /// that does not belong to the state changes nothing.
    pub fn step(&self, event: DispatchEvent) -> (r: (Dispatcher, DispatchAction))
        requires
            self.wf(),
            self.admits(event),
        ensures
            r == self.step_spec(event),
            r.0.wf(),
    {
        match self.state {
            DispatchState::Init => match event {
                DispatchEvent::Start => self.enter_batch(0),
                DispatchEvent::DeviceFailed => (
                    Dispatcher {
                        total: self.total,
                        batch_size: self.batch_size,
                        state: DispatchState::Aborted,
                    },
                    DispatchAction::FallBack,
                ),
                DispatchEvent::SlotRead(_) => (*self, DispatchAction::Idle),
            },
            DispatchState::AwaitResult { start, count } => match event {
                DispatchEvent::SlotRead(slot) => match read_slot(slot).match_index {
                    None => self.enter_batch(start + count),
                    Some(offset) => {
                        let index: usize = start + offset;
                        (
                            Dispatcher {
                                total: self.total,
                                batch_size: self.batch_size,
                                state: DispatchState::Matched { index },
                            },
                            DispatchAction::ReportFound { index },
                        )
                    },
                },
                DispatchEvent::DeviceFailed => (
                    Dispatcher {
                        total: self.total,
                        batch_size: self.batch_size,
                        state: DispatchState::Aborted,
                    },
                    DispatchAction::FallBack,
                ),
                DispatchEvent::Start => (*self, DispatchAction::Idle),
            },
            _ => (*self, DispatchAction::Idle),
        }
    }
}

/// Number of batches that a wordlist of `total` candidates is cut into.
pub open spec fn batch_count(total: int, batch_size: int) -> int {
    (total + batch_size - 1) / batch_size
}

/// Where batch `k` starts.
pub open spec fn batch_start(batch_size: int, k: int) -> int {
    k * batch_size
}

/// Candidate `i` lies in batch `k`.
pub open spec fn in_batch(total: int, batch_size: int, k: int, i: int) -> bool {
    let start = batch_start(batch_size, k);
    start <= i < start + batch_len(total, batch_size, start)
}

/// The first index from `lo` up to, not including, `hi` at which `hits` holds
/// `true`, or -1 when there is none.
pub open spec fn first_hit(hits: Seq<bool>, lo: int, hi: int) -> int
    decreases hi - lo,
{
    if lo >= hi {
        -1
    } else if hits[lo] {
        lo
    } else {
        first_hit(hits, lo + 1, hi)
    }
}

/// The slot contract that the kernel owes for the batch of `count` candidates
/// from `start`, where `hits[i]` says whether candidate `i` matches the target:
/// `NO_MATCH` only when no record of the batch matches, otherwise the offset of
/// the first record that does.
pub open spec fn honors_slot_contract(hits: Seq<bool>, start: int, count: int, slot: int) -> bool {
    if slot == NO_MATCH {
        forall|j: int| 0 <= j < count ==> !#[trigger] hits[start + j]
    } else {
        &&& 0 <= slot < count
        &&& hits[start + slot]
        &&& forall|j: int| 0 <= j < slot ==> !#[trigger] hits[start + j]
    }
}

/// The dispatcher after `Start` and then one `SlotRead` for each of `slots`.
pub open spec fn run(d: Dispatcher, slots: Seq<i32>) -> Dispatcher
    decreases slots.len(),
{
    if slots.len() == 0 {
        d.step_spec(DispatchEvent::Start).0
    } else {
        run(d, slots.drop_last()).step_spec(DispatchEvent::SlotRead(slots.last())).0
    }
}

/// Every slot of `slots` honors the contract for the batch that was in flight
/// when it was read.
pub open spec fn kernel_honest(d: Dispatcher, hits: Seq<bool>, slots: Seq<i32>) -> bool
    decreases slots.len(),
{
    slots.len() == 0 || {
        &&& kernel_honest(d, hits, slots.drop_last())
        &&& match run(d, slots.drop_last()).state {
            DispatchState::AwaitResult { start, count } => honors_slot_contract(
                hits,
                start as int,
                count as int,
                slots.last() as int,
            ),
            _ => true,
        }
    }
}

proof fn lemma_first_hit(hits: Seq<bool>, lo: int, hi: int)
    requires
        0 <= lo,
        hi <= hits.len(),
    ensures
        first_hit(hits, lo, hi) == -1 || lo <= first_hit(hits, lo, hi) < hi,
        first_hit(hits, lo, hi) >= 0 ==> hits[first_hit(hits, lo, hi)],
        first_hit(hits, lo, hi) >= 0 ==> forall|i: int|
            lo <= i < first_hit(hits, lo, hi) ==> !hits[i],
        first_hit(hits, lo, hi) < 0 ==> forall|i: int| lo <= i < hi ==> !hits[i],
    decreases hi - lo,
{
    if lo < hi && !hits[lo] {
        lemma_first_hit(hits, lo + 1, hi);
        let r = first_hit(hits, lo, hi);
        assert(r == first_hit(hits, lo + 1, hi));
        if r >= 0 {
            assert forall|i: int| lo <= i < r implies !hits[i] by {
                if i > lo {
                    assert(lo + 1 <= i < r);
                }
            }
        } else {
            assert forall|i: int| lo <= i < hi implies !hits[i] by {
                if i > lo {
                    assert(lo + 1 <= i < hi);
                }
            }
        }
    }
}

proof fn lemma_first_hit_is(hits: Seq<bool>, lo: int, hi: int, r: int)
    requires
        lo <= r < hi,
        hits[r],
        forall|i: int| lo <= i < r ==> !hits[i],
    ensures
        first_hit(hits, lo, hi) == r,
    decreases hi - lo,
{
    if lo < r {
        lemma_first_hit_is(hits, lo + 1, hi, r);
    }
}

proof fn lemma_no_hit(hits: Seq<bool>, lo: int, hi: int)
    requires
        forall|i: int| lo <= i < hi ==> !hits[i],
    ensures
        first_hit(hits, lo, hi) == -1,
    decreases hi - lo,
{
    if lo < hi {
        lemma_no_hit(hits, lo + 1, hi);
    }
}

/// `batch_count` batches reach the end of the wordlist, and one fewer do not.
proof fn lemma_batch_count(total: int, batch_size: int)
    requires
        0 <= total,
        0 < batch_size,
    ensures
        0 <= batch_count(total, batch_size),
        batch_count(total, batch_size) * batch_size >= total,
        total > 0 ==> (batch_count(total, batch_size) - 1) * batch_size < total,
{
    let x = total + batch_size - 1;
    let q = x / batch_size;
    lemma_fundamental_div_mod(x, batch_size);
    lemma_mod_pos_bound(x, batch_size);
    lemma_mul_is_distributive_add_other_way(batch_size, q, -1);
    assert(batch_size * q == q * batch_size) by (nonlinear_arith);
    assert(q >= 0) by (nonlinear_arith)
        requires
            batch_size * q > -batch_size,
            batch_size > 0,
    ;
}

/// Batch chunking partitions the wordlist: candidate `i` lies in batch
/// `i / batch_size` and in no other, so none is skipped and none is sent twice.
pub proof fn law_batches_partition(total: int, batch_size: int, i: int)
    requires
        0 < batch_size,
        0 <= i < total,
    ensures
        0 <= i / batch_size < batch_count(total, batch_size),
        in_batch(total, batch_size, i / batch_size, i),
        forall|k: int| in_batch(total, batch_size, k, i) ==> k == i / batch_size,
{
    let q = i / batch_size;
    lemma_fundamental_div_mod(i, batch_size);
    lemma_mod_pos_bound(i, batch_size);
    assert(batch_size * q == q * batch_size) by (nonlinear_arith);
    assert(q >= 0) by (nonlinear_arith)
        requires
            batch_size * q > -batch_size,
            batch_size > 0,
    ;
    lemma_batch_count(total, batch_size);
    if q >= batch_count(total, batch_size) {
        lemma_mul_inequality(batch_count(total, batch_size), q, batch_size);
    }
    assert forall|k: int| in_batch(total, batch_size, k, i) implies k == q by {
        let r = i - k * batch_size;
        lemma_fundamental_div_mod_converse(i, batch_size, k, r);
    }
}

/// The final batch covers the tail: it starts inside the wordlist and ends with
/// it, and where the wordlist is no multiple of the batch size it holds the
/// remainder.
pub proof fn law_final_batch_covers_tail(total: int, batch_size: int)
    requires
        0 < batch_size,
        0 < total,
    ensures
        ({
            let last = batch_start(batch_size, batch_count(total, batch_size) - 1);
            &&& 0 <= last < total
            &&& 0 < batch_len(total, batch_size, last) <= batch_size
            &&& last + batch_len(total, batch_size, last) == total
            &&& total % batch_size != 0 ==> batch_len(total, batch_size, last) == total % batch_size
        }),
{
    let n = batch_count(total, batch_size);
    lemma_batch_count(total, batch_size);
    lemma_mul_is_distributive_add_other_way(batch_size, n, -1);
    assert(n >= 1) by (nonlinear_arith)
        requires
            n * batch_size >= total,
            total > 0,
            batch_size > 0,
    ;
    assert((n - 1) * batch_size >= 0) by (nonlinear_arith)
        requires
            n >= 1,
            batch_size > 0,
    ;
    let last = (n - 1) * batch_size;
    if total % batch_size != 0 {
        if total - last == batch_size {
            lemma_fundamental_div_mod_converse(total, batch_size, n, 0);
        }
        lemma_fundamental_div_mod_converse(total, batch_size, n - 1, total - last);
    }
}

/// Once the dispatcher has matched, finished or aborted, no event launches
/// another batch or changes the outcome.
pub proof fn law_terminal_state_stays(d: Dispatcher, event: DispatchEvent)
    requires
        d.is_terminal(),
    ensures
        d.step_spec(event) == (d, DispatchAction::Idle),
{
}

/// What holds after `Start` and any number of honest answers.
proof fn lemma_run_invariant(d: Dispatcher, hits: Seq<bool>, slots: Seq<i32>)
    requires
        d.wf(),
        d.state is Init,
        hits.len() == d.total,
        kernel_honest(d, hits, slots),
    ensures
        run(d, slots).wf(),
        run(d, slots).total == d.total,
        run(d, slots).batch_size == d.batch_size,
        match run(d, slots).state {
            DispatchState::Matched { index } => index == first_hit(hits, 0, d.total as int),
            DispatchState::Done => first_hit(hits, 0, d.total as int) == -1,
            DispatchState::AwaitResult { start, count } => {
                &&& start == slots.len() * d.batch_size
                &&& forall|i: int| 0 <= i < start ==> !hits[i]
            },
            _ => false,
        },
    decreases slots.len(),
{
    let total = d.total as int;
    let bs = d.batch_size as int;
    if slots.len() == 0 {
        if total == 0 {
            lemma_no_hit(hits, 0, 0);
        }
    } else {
        let before = slots.drop_last();
        let p = run(d, before);
        lemma_run_invariant(d, hits, before);
        match p.state {
            DispatchState::AwaitResult { start, count } => {
                let slot = slots.last();
                lemma_mul_is_distributive_add_other_way(bs, before.len() as int, 1);
                if slot == NO_MATCH {
                    assert forall|i: int| 0 <= i < start + count implies !hits[i] by {
                        if i >= start {
                            assert(!hits[start + (i - start)]);
                        }
                    }
                    if start + count >= total {
                        lemma_no_hit(hits, 0, total);
                    }
                } else {
                    assert forall|i: int| 0 <= i < start + slot implies !hits[i] by {
                        if i >= start {
                            assert(!hits[start + (i - start)]);
                        }
                    }
                    lemma_first_hit_is(hits, 0, total, start + slot);
                }
            },
            _ => {},
        }
    }
}

/// With a kernel that honors the slot contract, the dispatcher ends at the
/// first match in wordlist order, and at `Done` exactly when no candidate
/// matches: as soon as one answer per batch was read, the state is final.
pub proof fn law_first_match_in_wordlist_order(d: Dispatcher, hits: Seq<bool>, slots: Seq<i32>)
    requires
        d.wf(),
        d.state is Init,
        hits.len() == d.total,
        kernel_honest(d, hits, slots),
        slots.len() >= batch_count(d.total as int, d.batch_size as int),
    ensures
        first_hit(hits, 0, d.total as int) >= 0 ==> run(d, slots).state == (DispatchState::Matched {
            index: first_hit(hits, 0, d.total as int) as usize,
        }),
        first_hit(hits, 0, d.total as int) < 0 ==> run(d, slots).state == DispatchState::Done,
        first_hit(hits, 0, d.total as int) >= 0 <==> exists|i: int|
            0 <= i < d.total && #[trigger] hits[i],
{
    let total = d.total as int;
    let bs = d.batch_size as int;
    lemma_run_invariant(d, hits, slots);
    lemma_first_hit(hits, 0, total);
    lemma_batch_count(total, bs);
    lemma_mul_inequality(batch_count(total, bs), slots.len() as int, bs);
}

/// While every slot read holds `NO_MATCH`, the batches go out in order, each
/// starting where the one before ended: after `n` answers the dispatcher is at
/// batch `n`, and after the last batch it is done.
pub proof fn law_no_match_moves_to_next_batch(d: Dispatcher, slots: Seq<i32>)
    requires
        d.wf(),
        d.state is Init,
        forall|j: int| 0 <= j < slots.len() ==> slots[j] == NO_MATCH,
        slots.len() <= batch_count(d.total as int, d.batch_size as int),
    ensures
        run(d, slots) == d.enter(batch_start(d.batch_size as int, slots.len() as int)).0,
    decreases slots.len(),
{
    let total = d.total as int;
    let bs = d.batch_size as int;
    if slots.len() > 0 {
        let before = slots.drop_last();
        let n = before.len() as int;
        law_no_match_moves_to_next_batch(d, before);
        lemma_batch_count(total, bs);
        lemma_mul_inequality(n + 1, batch_count(total, bs), bs);
        lemma_mul_is_distributive_add_other_way(bs, n, 1);
        lemma_mul_is_distributive_add_other_way(bs, batch_count(total, bs), -1);
        assert(n * bs >= 0) by (nonlinear_arith)
            requires
                n >= 0,
                bs > 0,
        ;
    }
}

/// The first hit of a wordlist is a hit, and no candidate before it is one.
pub proof fn law_first_hit_is_first(hits: Seq<bool>, total: int)
    requires
        0 <= total <= hits.len(),
    ensures
        first_hit(hits, 0, total) == -1 || 0 <= first_hit(hits, 0, total) < total,
        first_hit(hits, 0, total) >= 0 ==> hits[first_hit(hits, 0, total)],
        first_hit(hits, 0, total) >= 0 ==> forall|i: int|
            0 <= i < first_hit(hits, 0, total) ==> !hits[i],
        first_hit(hits, 0, total) < 0 ==> forall|i: int| 0 <= i < total ==> !hits[i],
{
    lemma_first_hit(hits, 0, total);
}

} // verus!
