//! The bisecting sender: many independent instructions, sent in batches.
//!
//! A transaction is atomic, so one failing instruction fails its whole batch.
//! Every failed batch is sent again at half the batch size, down to single
//! instructions. Those that still fail alone are tried a few more times, then
//! dropped and reported.
use crate::chain::{lemma_views_push, views, Instruction, InstructionView};
use crate::text::{decimal, decimal_text, info, warning, Line};
use crate::tx::{MAX_SINGLE_ATTEMPTS, SINGLE_RETRY_PAUSE_MS};
use vstd::prelude::*;

verus! {

/// Where a bisecting send stands.
#[derive(Clone, Copy, PartialEq, Eq, Structural)]
pub enum BatchPhase {
    /// The pending batches go out.
    Sending,
    /// A rest before lone failing instructions go out again.
    Resting,
    /// Every instruction has landed or was dropped.
    Finished,
    /// The parallel sender itself failed.
    Broken,
}

/// What a bisecting send wants done next.
#[derive(Clone, Copy, Debug, PartialEq, Eq)]
pub enum BatchAction {
    /// Send the batches, one transaction each.
    Send,
    /// Wait this many milliseconds.
    Sleep(u64),
    /// Nothing more: this is the outcome.
    Done(BatchOutcome),
    /// Nothing more: the parallel send failed.
    Abort,
}

/// Result of a bisecting batch send.
#[derive(Clone, Copy, Debug, PartialEq, Eq)]
pub struct BatchOutcome {
    /// Instructions permanently dropped after isolating them at batch size 1.
    pub dropped: usize,
}

/// The answer to an action.
pub enum BatchReply {
    /// For each batch in order, whether it landed.
    Results(Seq<bool>),
    /// The parallel sender failed as a whole.
    SendFailed,
    /// The rest is over.
    Rested,
}

/// The state of a bisecting send.
#[verifier::ext_equal]
pub struct BatchModel {
    pub pending: Seq<InstructionView>,
    pub batch_size: nat,
    pub landed: nat,
    pub dropped: nat,
    pub total: nat,
    /// Passes already spent on single instructions.
    pub single_attempts: nat,
    pub phase: BatchPhase,
}

/// The first batch of `pending`: `size` instructions, or what is left.
pub open spec fn first_batch<T>(pending: Seq<T>, size: nat) -> Seq<T> {
    if size < pending.len() {
        pending.take(size as int)
    } else {
        pending
    }
}

/// What is left of `pending` behind its first batch.
pub open spec fn later_batches<T>(pending: Seq<T>, size: nat) -> Seq<T> {
    if size < pending.len() {
        pending.skip(size as int)
    } else {
        Seq::empty()
    }
}

/// `pending`, cut into batches of `size`.
pub open spec fn split<T>(pending: Seq<T>, size: nat) -> Seq<Seq<T>>
    decreases pending.len(),
    when size > 0
{
    if pending.len() == 0 {
        Seq::empty()
    } else {
        seq![first_batch(pending, size)] + split(later_batches(pending, size), size)
    }
}

/// The instructions of the batches that did not land, in order.
pub open spec fn failed<T>(pending: Seq<T>, size: nat, results: Seq<bool>) -> Seq<T>
    decreases pending.len(),
    when size > 0
{
    if pending.len() == 0 || results.len() == 0 {
        Seq::empty()
    } else {
        let rest = failed(later_batches(pending, size), size, results.drop_first());
        if results[0] {
            rest
        } else {
            first_batch(pending, size) + rest
        }
    }
}

/// How many instructions are in the batches that landed.
pub open spec fn landed_in<T>(pending: Seq<T>, size: nat, results: Seq<bool>) -> nat
    decreases pending.len(),
    when size > 0
{
    if pending.len() == 0 || results.len() == 0 {
        0
    } else {
        let rest = landed_in(later_batches(pending, size), size, results.drop_first());
        if results[0] {
            first_batch(pending, size).len() + rest
        } else {
            rest
        }
    }
}

impl BatchModel {
    /// The start of a send: nothing has landed yet.
    pub open spec fn start(
        instructions: Seq<InstructionView>,
        initial_batch_size: nat,
    ) -> BatchModel {
        BatchModel {
            pending: instructions,
            batch_size: if initial_batch_size > 1 {
                initial_batch_size
            } else {
                1
            },
            landed: 0,
            dropped: 0,
            total: instructions.len(),
            single_attempts: 0,
            phase: if instructions.len() == 0 {
                BatchPhase::Finished
            } else {
                BatchPhase::Sending
            },
        }
    }

    /// What every state of a send keeps.
    pub open spec fn wf(self) -> bool {
        &&& self.batch_size > 0
        &&& self.landed + self.dropped + self.pending.len() <= self.total
        &&& self.single_attempts <= MAX_SINGLE_ATTEMPTS
        &&& self.phase is Finished ==> self.pending.len() == 0
        &&& self.phase is Sending || self.phase is Resting ==> {
            &&& self.pending.len() > 0
            &&& self.dropped == 0
            &&& self.single_attempts < MAX_SINGLE_ATTEMPTS
            &&& self.single_attempts > 0 ==> self.batch_size == 1
        }
    }

    /// Whether `reply` answers what the send asked for.
    pub open spec fn awaits(self, reply: BatchReply) -> bool {
        match reply {
            BatchReply::Results(_) => self.phase is Sending,
            BatchReply::SendFailed => self.phase is Sending,
            BatchReply::Rested => self.phase is Resting,
        }
    }

    /// The state once the batches have been answered for. What landed is done
    /// with. What failed is pending again: in batches of half the size, or,
    /// where single instructions failed, after a rest, until it is dropped.
    pub open spec fn answered(self, results: Seq<bool>) -> BatchModel {
        let again = failed(self.pending, self.batch_size, results);
        let counted = BatchModel {
            pending: again,
            landed: self.landed + landed_in(self.pending, self.batch_size, results),
            ..self
        };
        if again.len() == 0 {
            BatchModel { phase: BatchPhase::Finished, ..counted }
        } else if self.batch_size > 1 {
            BatchModel { batch_size: self.batch_size / 2, ..counted }
        } else if self.single_attempts + 1 < MAX_SINGLE_ATTEMPTS {
            BatchModel {
                single_attempts: self.single_attempts + 1,
                phase: BatchPhase::Resting,
                ..counted
            }
        } else {
            BatchModel {
                pending: Seq::empty(),
                dropped: self.dropped + again.len(),
                single_attempts: self.single_attempts + 1,
                phase: BatchPhase::Finished,
                ..counted
            }
        }
    }

    /// The state after `reply`; a reply that was not asked for changes nothing.
    pub open spec fn after(self, reply: BatchReply) -> BatchModel {
        if !self.awaits(reply) {
            self
        } else {
            match reply {
                BatchReply::Results(results) => self.answered(results),
                BatchReply::SendFailed => BatchModel { phase: BatchPhase::Broken, ..self },
                BatchReply::Rested => BatchModel { phase: BatchPhase::Sending, ..self },
            }
        }
    }

    /// The state after all of `replies`.
    pub open spec fn after_all(self, replies: Seq<BatchReply>) -> BatchModel
        decreases replies.len(),
    {
        if replies.len() == 0 {
            self
        } else {
            self.after_all(replies.drop_last()).after(replies.last())
        }
    }

    /// What the send wants done in this state.
    pub open spec fn wants(self) -> BatchAction {
        match self.phase {
            BatchPhase::Sending => BatchAction::Send,
            BatchPhase::Resting => BatchAction::Sleep(SINGLE_RETRY_PAUSE_MS),
            BatchPhase::Finished => BatchAction::Done(
                BatchOutcome { dropped: self.dropped as usize },
            ),
            BatchPhase::Broken => BatchAction::Abort,
        }
    }
}

/// Batches that have results account for each of their instructions once: it
/// has landed or has failed.
pub proof fn lemma_results_account<T>(pending: Seq<T>, size: nat, results: Seq<bool>)
    requires
        size > 0,
    ensures
        landed_in(pending, size, results) + failed(pending, size, results).len() <= pending.len(),
        results.len() >= split(pending, size).len() ==> landed_in(pending, size, results) + failed(
            pending,
            size,
            results,
        ).len() == pending.len(),
    decreases pending.len(),
{
    if pending.len() > 0 && results.len() > 0 {
        lemma_results_account(later_batches(pending, size), size, results.drop_first());
    }
}

/// A bisecting send in progress.
pub struct BatchSend {
    pending: Vec<Instruction>,
    batch_size: usize,
    landed: usize,
    dropped: usize,
    total: usize,
    single_attempts: u32,
    phase: BatchPhase,
}

impl View for BatchSend {
    type V = BatchModel;

    closed spec fn view(&self) -> BatchModel {
        BatchModel {
            pending: views(self.pending@),
            batch_size: self.batch_size as nat,
            landed: self.landed as nat,
            dropped: self.dropped as nat,
            total: self.total as nat,
            single_attempts: self.single_attempts as nat,
            phase: self.phase,
        }
    }
}

/// Starts to send `instructions`, in batches of `initial_batch_size` at first.
pub fn send_instructions_bisecting(
    instructions: Vec<Instruction>,
    initial_batch_size: usize,
) -> (send: BatchSend)
    ensures
        send@ == BatchModel::start(views(instructions@), initial_batch_size as nat),
{
    let total: usize = instructions.len();
    let batch_size: usize = if initial_batch_size > 1 {
        initial_batch_size
    } else {
        1
    };
    let phase = if total == 0 {
        BatchPhase::Finished
    } else {
        BatchPhase::Sending
    };
    BatchSend {
        pending: instructions,
        batch_size,
        landed: 0,
        dropped: 0,
        total,
        single_attempts: 0,
        phase,
    }
}

/// `instructions`, from `from` up to but without `to`.
fn slice_of(instructions: &Vec<Instruction>, from: usize, to: usize) -> (part: Vec<Instruction>)
    requires
        from <= to <= instructions@.len(),
    ensures
        views(part@) == views(instructions@).subrange(from as int, to as int),
{
    let mut part: Vec<Instruction> = Vec::new();
    let mut i: usize = from;
    while i < to
        invariant
            from <= i <= to <= instructions@.len(),
            views(part@) =~= views(instructions@).subrange(from as int, i as int),
        decreases to - i,
    {
        let next = instructions[i].duplicate();
        proof {
            lemma_views_push(part@, next);
        }
        part.push(next);
        i = i + 1;
        assert(views(instructions@).subrange(from as int, i as int) =~= views(
            instructions@,
        ).subrange(from as int, i - 1).push(views(instructions@)[i - 1]));
    }
    part
}

/// Where the batch that starts at `at` ends.
fn batch_end(at: usize, size: usize, len: usize) -> (end: usize)
    requires
        at <= len,
    ensures
        end == if size < len - at {
            at + size
        } else {
            len as int
        },
{
    if size < len - at {
        at + size
    } else {
        len
    }
}

proof fn lemma_batch_ranges<T>(pending: Seq<T>, at: int, size: nat, end: int)
    requires
        0 <= at <= end <= pending.len(),
        end == if size < pending.len() - at {
            at + size
        } else {
            pending.len() as int
        },
    ensures
        first_batch(pending.skip(at), size) == pending.subrange(at, end),
        later_batches(pending.skip(at), size) == pending.skip(end),
{
    assert(first_batch(pending.skip(at), size) =~= pending.subrange(at, end));
    assert(later_batches(pending.skip(at), size) =~= pending.skip(end));
}

impl BatchSend {
    /// What the program may rely on in every state of the send.
    #[verifier::type_invariant]
    spec fn inv(self) -> bool {
        self@.wf()
    }

    /// What is wanted next.
    pub fn action(&self) -> (action: BatchAction)
        ensures
            action == self@.wants(),
    {
        match self.phase {
            BatchPhase::Sending => BatchAction::Send,
            BatchPhase::Resting => BatchAction::Sleep(SINGLE_RETRY_PAUSE_MS),
            BatchPhase::Finished => BatchAction::Done(BatchOutcome { dropped: self.dropped }),
            BatchPhase::Broken => BatchAction::Abort,
        }
    }

    /// Instructions that have landed so far, and all there are.
    pub fn progress(&self) -> (progress: (usize, usize))
        ensures
            progress.0 == self@.landed,
            progress.1 == self@.total,
    {
        (self.landed, self.total)
    }

    /// The pending instructions, cut into batches.
    pub fn batches(&self) -> (batches: Vec<Vec<Instruction>>)
        ensures
            batches@.len() == split(self@.pending, self@.batch_size).len(),
            forall|i: int|
                0 <= i < batches@.len() ==> views((#[trigger] batches@[i])@) == split(
                    self@.pending,
                    self@.batch_size,
                )[i],
    {
        proof {
            use_type_invariant(self);
        }
        let ghost pending = self@.pending;
        let ghost size = self@.batch_size;
        let ghost all = split(pending, size);
        let len: usize = self.pending.len();
        let mut batches: Vec<Vec<Instruction>> = Vec::new();
        let mut at: usize = 0;
        assert(pending.skip(0) =~= pending);
        while at < len
            invariant
                at <= len,
                len == self.pending@.len(),
                pending == views(self.pending@),
                size == self.batch_size,
                size > 0,
                all == split(pending, size),
                batches@.len() + split(pending.skip(at as int), size).len() == all.len(),
                forall|i: int|
                    0 <= i < batches@.len() ==> views((#[trigger] batches@[i])@) == all[i],
                forall|i: int|
                    0 <= i < split(pending.skip(at as int), size).len() ==> #[trigger] split(
                        pending.skip(at as int),
                        size,
                    )[i] == all[batches@.len() + i],
            decreases len - at,
        {
            let end = batch_end(at, self.batch_size, len);
            let batch = slice_of(&self.pending, at, end);
            let ghost rest = split(pending.skip(at as int), size);
            let ghost done = batches@.len() as int;
            proof {
                lemma_batch_ranges(pending, at as int, size, end as int);
                assert(rest =~= seq![pending.subrange(at as int, end as int)] + split(
                    pending.skip(end as int),
                    size,
                ));
                assert(rest[0] == all[done]);
                assert forall|i: int|
                    0 <= i < split(pending.skip(end as int), size).len() implies #[trigger] split(
                    pending.skip(end as int),
                    size,
                )[i] == all[done + 1 + i] by {
                    assert(rest[i + 1] == all[done + (i + 1)]);
                }
            }
            batches.push(batch);
            at = end;
        }
        batches
    }

    /// Takes in, for each batch in order, whether it landed.
    pub fn on_results(self, results: &[bool]) -> (next: BatchSend)
        ensures
            next@ == self@.after(BatchReply::Results(results@)),
    {
        proof {
            use_type_invariant(&self);
        }
        if !matches!(self.phase, BatchPhase::Sending) {
            return self;
        }
        let ghost before = self@;
        let ghost pending = self@.pending;
        let ghost size = self@.batch_size;
        let len: usize = self.pending.len();
        let count: usize = results.len();
        let mut again: Vec<Instruction> = Vec::new();
        let mut landed: usize = 0;
        let mut at: usize = 0;
        let mut i: usize = 0;
        proof {
            assert(pending.skip(0) =~= pending);
            assert(results@.skip(0) =~= results@);
            assert(views(again@) + failed(pending, size, results@) =~= failed(
                pending,
                size,
                results@,
            ));
        }
        while at < len && i < count
            invariant
                at <= len,
                i <= count,
                len == self.pending@.len(),
                count == results@.len(),
                pending == views(self.pending@),
                size == self.batch_size,
                size > 0,
                landed <= at,
                views(again@) + failed(pending.skip(at as int), size, results@.skip(i as int))
                    == failed(pending, size, results@),
                landed + landed_in(pending.skip(at as int), size, results@.skip(i as int))
                    == landed_in(pending, size, results@),
            decreases len - at,
        {
            let end = batch_end(at, self.batch_size, len);
            let ghost so_far = views(again@);
            let ghost tail = failed(pending.skip(end as int), size, results@.skip(i + 1));
            proof {
                lemma_batch_ranges(pending, at as int, size, end as int);
                assert(results@.skip(i as int).drop_first() =~= results@.skip(i + 1));
                assert(results@.skip(i as int)[0] == results@[i as int]);
            }
            if results[i] {
                landed = landed + (end - at);
            } else {
                let mut batch = slice_of(&self.pending, at, end);
                proof {
                    assert(views(again@ + batch@) =~= views(again@) + views(batch@));
                    assert((so_far + views(batch@)) + tail =~= so_far + (views(batch@) + tail));
                }
                again.append(&mut batch);
            }
            at = end;
            i = i + 1;
        }
        proof {
            assert(views(again@) + Seq::<InstructionView>::empty() =~= views(again@));
            assert(views(again@) == failed(pending, size, results@));
            assert(landed == landed_in(pending, size, results@));
            lemma_results_account(pending, size, results@);
        }
        let failing: usize = again.len();
        let next = if failing == 0 {
            BatchSend {
                pending: again,
                landed: self.landed + landed,
                phase: BatchPhase::Finished,
                ..self
            }
        } else if self.batch_size > 1 {
            BatchSend {
                pending: again,
                landed: self.landed + landed,
                batch_size: self.batch_size / 2,
                ..self
            }
        } else if self.single_attempts + 1 < MAX_SINGLE_ATTEMPTS {
            BatchSend {
                pending: again,
                landed: self.landed + landed,
                single_attempts: self.single_attempts + 1,
                phase: BatchPhase::Resting,
                ..self
            }
        } else {
            let none: Vec<Instruction> = Vec::new();
            assert(views(none@) =~= Seq::empty());
            BatchSend {
                pending: none,
                landed: self.landed + landed,
                dropped: self.dropped + failing,
                single_attempts: self.single_attempts + 1,
                phase: BatchPhase::Finished,
                ..self
            }
        };
        assert(next@ =~= before.answered(results@));
        next
    }

    /// Takes in that the parallel sender failed as a whole.
    pub fn on_send_failed(self) -> (next: BatchSend)
        ensures
            next@ == self@.after(BatchReply::SendFailed),
    {
        proof {
            use_type_invariant(&self);
        }
        if matches!(self.phase, BatchPhase::Sending) {
            BatchSend { phase: BatchPhase::Broken, ..self }
        } else {
            self
        }
    }

    /// Takes in that the rest is over.
    pub fn on_rested(self) -> (next: BatchSend)
        ensures
            next@ == self@.after(BatchReply::Rested),
    {
        proof {
            use_type_invariant(&self);
        }
        if matches!(self.phase, BatchPhase::Resting) {
            BatchSend { phase: BatchPhase::Sending, ..self }
        } else {
            self
        }
    }
}

/// Every state that a send can reach is a valid one.
pub proof fn law_states_stay_valid(
    instructions: Seq<InstructionView>,
    initial_batch_size: nat,
    replies: Seq<BatchReply>,
)
    ensures
        BatchModel::start(instructions, initial_batch_size).after_all(replies).wf(),
    decreases replies.len(),
{
    let start = BatchModel::start(instructions, initial_batch_size);
    if replies.len() > 0 {
        law_states_stay_valid(instructions, initial_batch_size, replies.drop_last());
        lemma_after_keeps_wf(start.after_all(replies.drop_last()), replies.last());
    }
}

pub proof fn lemma_after_keeps_wf(state: BatchModel, reply: BatchReply)
    requires
        state.wf(),
    ensures
        state.after(reply).wf(),
{
    if state.awaits(reply) {
        if let BatchReply::Results(results) = reply {
            lemma_results_account(state.pending, state.batch_size, results);
        }
    }
}

impl BatchModel {
    /// Whether results come for every batch, where results come at all.
    pub open spec fn in_full(self, reply: BatchReply) -> bool {
        match reply {
            BatchReply::Results(results) => self.phase is Sending ==> results.len() == split(
                self.pending,
                self.batch_size,
            ).len(),
            _ => true,
        }
    }

    /// Whether, besides, a batch fails exactly when it holds an instruction
    /// that is `bad`.
    pub open spec fn truthful(self, reply: BatchReply, bad: spec_fn(InstructionView) -> bool) -> bool {
        &&& self.in_full(reply)
        &&& match reply {
            BatchReply::Results(results) => self.phase is Sending ==> fails_where(
                split(self.pending, self.batch_size),
                results,
                bad,
            ),
            _ => true,
        }
    }

    /// An upper bound on the replies that a send still takes.
    pub open spec fn effort(self) -> nat {
        let passes = (halvings(self.batch_size) + MAX_SINGLE_ATTEMPTS
            - self.single_attempts) as nat;
        match self.phase {
            BatchPhase::Sending => 2 * passes,
            BatchPhase::Resting => 2 * passes + 1,
            _ => 0,
        }
    }
}

/// Whether `batch` holds an instruction that is `bad`.
pub open spec fn holds_bad<T>(batch: Seq<T>, bad: spec_fn(T) -> bool) -> bool {
    exists|i: int| 0 <= i < batch.len() && bad(#[trigger] batch[i])
}

/// Whether exactly the batches with a `bad` instruction failed.
pub open spec fn fails_where<T>(
    batches: Seq<Seq<T>>,
    results: Seq<bool>,
    bad: spec_fn(T) -> bool,
) -> bool {
    forall|j: int|
        0 <= j < batches.len() && j < results.len() ==> #[trigger] results[j] == !holds_bad(
            batches[j],
            bad,
        )
}

/// How often `size` can be halved before it is 1.
pub open spec fn halvings(size: nat) -> nat
    decreases size,
{
    if size <= 1 {
        0
    } else {
        1 + halvings(size / 2)
    }
}

/// The batches hold every pending instruction once, in order, and none of
/// them is empty or wider than `size`.
pub proof fn law_batches_hold_everything<T>(pending: Seq<T>, size: nat)
    requires
        size > 0,
    ensures
        split(pending, size).flatten() == pending,
        forall|i: int|
            0 <= i < split(pending, size).len() ==> 0 < (#[trigger] split(pending, size)[i]).len()
                <= size,
    decreases pending.len(),
{
    if pending.len() > 0 {
        let first = first_batch(pending, size);
        let later = later_batches(pending, size);
        let batches = split(pending, size);
        law_batches_hold_everything(later, size);
        assert(batches.first() == first);
        assert(batches.drop_first() =~= split(later, size));
        assert(first + later =~= pending);
        assert forall|i: int| 0 <= i < batches.len() implies 0 < (#[trigger] batches[i]).len()
            <= size by {
            if i > 0 {
                assert(batches[i] == split(later, size)[i - 1]);
            }
        }
    } else {
        assert(split(pending, size).flatten() =~= pending);
    }
}

/// Nothing is lost: while every batch is answered for, each instruction has
/// landed, was dropped or is pending, and it is counted once.
pub proof fn law_nothing_is_lost(
    instructions: Seq<InstructionView>,
    initial_batch_size: nat,
    replies: Seq<BatchReply>,
)
    requires
        forall|k: int|
            0 <= k < replies.len() ==> BatchModel::start(
                instructions,
                initial_batch_size,
            ).after_all(replies.take(k)).in_full(#[trigger] replies[k]),
    ensures
        ({
            let state = BatchModel::start(instructions, initial_batch_size).after_all(replies);
            state.landed + state.dropped + state.pending.len() == instructions.len()
        }),
    decreases replies.len(),
{
    let start = BatchModel::start(instructions, initial_batch_size);
    if replies.len() > 0 {
        let earlier = replies.drop_last();
        assert forall|k: int| 0 <= k < earlier.len() implies start.after_all(
            earlier.take(k),
        ).in_full(#[trigger] earlier[k]) by {
            assert(earlier.take(k) =~= replies.take(k));
            assert(earlier[k] == replies[k]);
        }
        law_nothing_is_lost(instructions, initial_batch_size, earlier);
        law_states_stay_valid(instructions, initial_batch_size, earlier);
        let state = start.after_all(earlier);
        let last = replies.last();
        assert(replies.take(replies.len() - 1) =~= earlier);
        assert(state.in_full(replies[replies.len() - 1]));
        if let BatchReply::Results(results) = last {
            lemma_results_account(state.pending, state.batch_size, results);
        }
    }
}

proof fn lemma_failed_keeps_bad<T>(
    pending: Seq<T>,
    size: nat,
    results: Seq<bool>,
    bad: spec_fn(T) -> bool,
)
    requires
        size > 0,
        results.len() == split(pending, size).len(),
        fails_where(split(pending, size), results, bad),
    ensures
        failed(pending, size, results).filter(bad) == pending.filter(bad),
        size == 1 ==> forall|i: int|
            0 <= i < failed(pending, size, results).len() ==> bad(
                #[trigger] failed(pending, size, results)[i],
            ),
    decreases pending.len(),
{
    if pending.len() > 0 {
        let first = first_batch(pending, size);
        let later = later_batches(pending, size);
        let rest = results.drop_first();
        let batches = split(pending, size);
        let tail = failed(later, size, rest);
        assert(batches[0] == first);
        assert(split(later, size) =~= batches.drop_first());
        assert forall|j: int| 0 <= j < split(later, size).len() && j < rest.len() implies (
        #[trigger] rest[j]) == !holds_bad(split(later, size)[j], bad) by {
            assert(rest[j] == results[j + 1]);
            assert(split(later, size)[j] == batches[j + 1]);
        }
        lemma_failed_keeps_bad(later, size, rest, bad);
        assert(pending =~= first + later);
        Seq::filter_distributes_over_add(first, later, bad);
        assert(results[0] == !holds_bad(batches[0], bad));
        if results[0] {
            lemma_filter_none(first, bad);
            assert(Seq::<T>::empty() + later.filter(bad) =~= later.filter(bad));
        } else {
            Seq::filter_distributes_over_add(first, tail, bad);
            if size == 1 {
                assert(first.len() == 1);
                let k = choose|k: int| 0 <= k < first.len() && bad(#[trigger] first[k]);
                assert(k == 0);
                assert forall|i: int| 0 <= i < (first + tail).len() implies bad(
                    #[trigger] (first + tail)[i],
                ) by {
                    if i > 0 {
                        assert((first + tail)[i] == tail[i - 1]);
                    }
                }
            }
        }
    }
}

proof fn lemma_filter_none<T>(list: Seq<T>, bad: spec_fn(T) -> bool)
    requires
        !holds_bad(list, bad),
    ensures
        list.filter(bad) == Seq::<T>::empty(),
    decreases list.len(),
{
    reveal(Seq::filter);
    if list.len() > 0 {
        assert(!bad(list[list.len() - 1]));
        assert forall|i: int| 0 <= i < list.drop_last().len() implies !bad(
            #[trigger] list.drop_last()[i],
        ) by {
            assert(!bad(list[i]));
        }
        lemma_filter_none(list.drop_last(), bad);
    } else {
        assert(list =~= Seq::<T>::empty());
    }
}

proof fn lemma_filter_all<T>(list: Seq<T>, bad: spec_fn(T) -> bool)
    requires
        forall|i: int| 0 <= i < list.len() ==> bad(#[trigger] list[i]),
    ensures
        list.filter(bad) == list,
    decreases list.len(),
{
    reveal(Seq::filter);
    if list.len() > 0 {
        lemma_filter_all(list.drop_last(), bad);
        assert(list.drop_last().push(list.last()) =~= list);
    }
}

/// The send isolates and discards the bad instructions while it lands all the
/// good ones: where a batch fails exactly when it holds an instruction that is
/// `bad`, a send that has finished dropped as many instructions as are bad,
/// and landed the others. Until then, every bad one is pending.
pub proof fn law_bad_instructions_are_isolated(
    instructions: Seq<InstructionView>,
    initial_batch_size: nat,
    replies: Seq<BatchReply>,
    bad: spec_fn(InstructionView) -> bool,
)
    requires
        forall|k: int|
            0 <= k < replies.len() ==> BatchModel::start(
                instructions,
                initial_batch_size,
            ).after_all(replies.take(k)).truthful(#[trigger] replies[k], bad),
    ensures
        ({
            let state = BatchModel::start(instructions, initial_batch_size).after_all(replies);
            &&& state.phase is Finished ==> {
                &&& state.dropped == instructions.filter(bad).len()
                &&& state.landed == instructions.len() - instructions.filter(bad).len()
            }
            &&& state.phase !is Finished ==> {
                &&& state.dropped == 0
                &&& state.pending.filter(bad) == instructions.filter(bad)
            }
        }),
    decreases replies.len(),
{
    reveal(Seq::filter);
    let start = BatchModel::start(instructions, initial_batch_size);
    if replies.len() > 0 {
        let earlier = replies.drop_last();
        assert forall|k: int| 0 <= k < earlier.len() implies start.after_all(
            earlier.take(k),
        ).truthful(#[trigger] earlier[k], bad) by {
            assert(earlier.take(k) =~= replies.take(k));
            assert(earlier[k] == replies[k]);
        }
        law_bad_instructions_are_isolated(instructions, initial_batch_size, earlier, bad);
        law_states_stay_valid(instructions, initial_batch_size, earlier);
        let state = start.after_all(earlier);
        let last = replies.last();
        assert(replies.take(replies.len() - 1) =~= earlier);
        assert(state.truthful(replies[replies.len() - 1], bad));
        if state.awaits(last) {
            if let BatchReply::Results(results) = last {
                let again = failed(state.pending, state.batch_size, results);
                lemma_failed_keeps_bad(state.pending, state.batch_size, results, bad);
                if again.len() > 0 && state.batch_size == 1 {
                    lemma_filter_all(again, bad);
                }
            }
        }
        assert forall|k: int| 0 <= k < replies.len() implies start.after_all(
            replies.take(k),
        ).in_full(#[trigger] replies[k]) by {
            assert(start.after_all(replies.take(k)).truthful(replies[k], bad));
        }
        law_nothing_is_lost(instructions, initial_batch_size, replies);
        law_states_stay_valid(instructions, initial_batch_size, replies);
    }
}

/// Nothing is retried forever: a send takes at most two replies for each
/// halving of the batch size and for each attempt at single instructions.
pub proof fn law_send_ends(
    instructions: Seq<InstructionView>,
    initial_batch_size: nat,
    replies: Seq<BatchReply>,
)
    requires
        forall|k: int|
            0 <= k < replies.len() ==> BatchModel::start(
                instructions,
                initial_batch_size,
            ).after_all(replies.take(k)).awaits(#[trigger] replies[k]),
    ensures
        BatchModel::start(instructions, initial_batch_size).after_all(replies).effort()
            + replies.len() <= BatchModel::start(instructions, initial_batch_size).effort(),
        BatchModel::start(instructions, initial_batch_size).effort() <= 2 * (halvings(
            initial_batch_size,
        ) + MAX_SINGLE_ATTEMPTS),
        BatchModel::start(instructions, initial_batch_size).after_all(replies).effort() == 0 ==> {
            let state = BatchModel::start(instructions, initial_batch_size).after_all(replies);
            state.phase is Finished || state.phase is Broken
        },
    decreases replies.len(),
{
    let start = BatchModel::start(instructions, initial_batch_size);
    law_states_stay_valid(instructions, initial_batch_size, replies);
    if replies.len() > 0 {
        let earlier = replies.drop_last();
        assert forall|k: int| 0 <= k < earlier.len() implies start.after_all(
            earlier.take(k),
        ).awaits(#[trigger] earlier[k]) by {
            assert(earlier.take(k) =~= replies.take(k));
            assert(earlier[k] == replies[k]);
        }
        law_send_ends(instructions, initial_batch_size, earlier);
        law_states_stay_valid(instructions, initial_batch_size, earlier);
        let state = start.after_all(earlier);
        assert(replies.take(replies.len() - 1) =~= earlier);
        assert(state.awaits(replies[replies.len() - 1]));
    }
}

impl BatchModel {
    /// How often the pending batches went out.
    pub open spec fn sends(self, replies: Seq<BatchReply>) -> nat
        decreases replies.len(),
    {
        if replies.len() == 0 {
            0
        } else {
            let earlier = self.sends(replies.drop_last());
            if self.after_all(replies.drop_last()).answers_a_send(replies.last()) {
                earlier + 1
            } else {
                earlier
            }
        }
    }

    /// How often they went out as single instructions.
    pub open spec fn lone_sends(self, replies: Seq<BatchReply>) -> nat
        decreases replies.len(),
    {
        if replies.len() == 0 {
            0
        } else {
            let earlier = self.lone_sends(replies.drop_last());
            let state = self.after_all(replies.drop_last());
            if state.answers_a_send(replies.last()) && state.batch_size == 1 {
                earlier + 1
            } else {
                earlier
            }
        }
    }

    /// Whether `reply` is what came of sending the pending batches.
    pub open spec fn answers_a_send(self, reply: BatchReply) -> bool {
        self.phase is Sending && !(reply is Rested)
    }
}

/// The batches go out at most once for each halving of the batch size, and at
/// most [`MAX_SINGLE_ATTEMPTS`] times as single instructions.
pub proof fn law_few_sends(
    instructions: Seq<InstructionView>,
    initial_batch_size: nat,
    replies: Seq<BatchReply>,
)
    ensures
        ({
            let start = BatchModel::start(instructions, initial_batch_size);
            &&& start.sends(replies) <= halvings(initial_batch_size) + MAX_SINGLE_ATTEMPTS
            &&& start.lone_sends(replies) <= MAX_SINGLE_ATTEMPTS
        }),
{
    lemma_sends(instructions, initial_batch_size, replies);
}

proof fn lemma_sends(
    instructions: Seq<InstructionView>,
    initial_batch_size: nat,
    replies: Seq<BatchReply>,
)
    ensures
        ({
            let start = BatchModel::start(instructions, initial_batch_size);
            let state = start.after_all(replies);
            &&& start.sends(replies) <= halvings(initial_batch_size) + MAX_SINGLE_ATTEMPTS
            &&& start.lone_sends(replies) <= MAX_SINGLE_ATTEMPTS
            &&& state.phase is Sending || state.phase is Resting ==> {
                &&& start.sends(replies) + halvings(state.batch_size) == halvings(
                    initial_batch_size,
                ) + state.single_attempts
                &&& start.lone_sends(replies) == state.single_attempts
            }
        }),
    decreases replies.len(),
{
    if replies.len() > 0 {
        let earlier = replies.drop_last();
        lemma_sends(instructions, initial_batch_size, earlier);
        law_states_stay_valid(instructions, initial_batch_size, earlier);
    }
}

/// The instructions of the batches that landed, in order.
pub open spec fn landed_of<T>(pending: Seq<T>, size: nat, results: Seq<bool>) -> Seq<T>
    decreases pending.len(),
    when size > 0
{
    if pending.len() == 0 || results.len() == 0 {
        Seq::empty()
    } else {
        let rest = landed_of(later_batches(pending, size), size, results.drop_first());
        if results[0] {
            first_batch(pending, size) + rest
        } else {
            rest
        }
    }
}

impl BatchModel {
    /// The instructions that land with `reply`.
    pub open spec fn landing(self, reply: BatchReply) -> Seq<InstructionView> {
        match (self.phase, reply) {
            (BatchPhase::Sending, BatchReply::Results(results)) => landed_of(
                self.pending,
                self.batch_size,
                results,
            ),
            _ => Seq::empty(),
        }
    }

    /// The instructions that are dropped on `reply`: those that failed alone
    /// in the last pass that they are given.
    pub open spec fn dropping(self, reply: BatchReply) -> Seq<InstructionView> {
        match (self.phase, reply) {
            (BatchPhase::Sending, BatchReply::Results(results)) => if self.batch_size == 1
                && self.single_attempts + 1 >= MAX_SINGLE_ATTEMPTS {
                failed(self.pending, self.batch_size, results)
            } else {
                Seq::empty()
            },
            _ => Seq::empty(),
        }
    }

    /// All instructions that landed, in order.
    pub open spec fn all_landed(self, replies: Seq<BatchReply>) -> Seq<InstructionView>
        decreases replies.len(),
    {
        if replies.len() == 0 {
            Seq::empty()
        } else {
            self.all_landed(replies.drop_last()) + self.after_all(replies.drop_last()).landing(
                replies.last(),
            )
        }
    }

    /// All instructions that were dropped, in order.
    pub open spec fn all_dropped(self, replies: Seq<BatchReply>) -> Seq<InstructionView>
        decreases replies.len(),
    {
        if replies.len() == 0 {
            Seq::empty()
        } else {
            self.all_dropped(replies.drop_last()) + self.after_all(replies.drop_last()).dropping(
                replies.last(),
            )
        }
    }
}

proof fn lemma_landed_or_failed<T>(pending: Seq<T>, size: nat, results: Seq<bool>)
    requires
        size > 0,
    ensures
        landed_of(pending, size, results).len() == landed_in(pending, size, results),
        results.len() == split(pending, size).len() ==> pending.to_multiset() == landed_of(
            pending,
            size,
            results,
        ).to_multiset().add(failed(pending, size, results).to_multiset()),
    decreases pending.len(),
{
    broadcast use vstd::seq_lib::group_to_multiset_ensures;

    if pending.len() > 0 && results.len() > 0 {
        let first = first_batch(pending, size);
        let later = later_batches(pending, size);
        let rest = results.drop_first();
        lemma_landed_or_failed(later, size, rest);
        assert(pending =~= first + later);
        vstd::seq_lib::lemma_multiset_commutative(first, later);
        vstd::seq_lib::lemma_multiset_commutative(first, landed_of(later, size, rest));
        vstd::seq_lib::lemma_multiset_commutative(first, failed(later, size, rest));
        if results.len() == split(pending, size).len() {
            assert(split(pending, size).len() == 1 + split(later, size).len());
            assert(pending.to_multiset() =~= landed_of(pending, size, results).to_multiset().add(
                failed(pending, size, results).to_multiset(),
            ));
        }
    } else {
        let none = Seq::<T>::empty();
        if results.len() == split(pending, size).len() {
            assert(pending =~= none);
            assert(none.to_multiset() =~= none.to_multiset().add(none.to_multiset()));
        }
    }
}

proof fn lemma_landed_is_good<T>(
    pending: Seq<T>,
    size: nat,
    results: Seq<bool>,
    bad: spec_fn(T) -> bool,
)
    requires
        size > 0,
        results.len() == split(pending, size).len(),
        fails_where(split(pending, size), results, bad),
    ensures
        !holds_bad(landed_of(pending, size, results), bad),
    decreases pending.len(),
{
    if pending.len() > 0 {
        let first = first_batch(pending, size);
        let later = later_batches(pending, size);
        let rest = results.drop_first();
        let batches = split(pending, size);
        assert(batches[0] == first);
        assert(split(later, size) =~= batches.drop_first());
        assert forall|j: int| 0 <= j < split(later, size).len() && j < rest.len() implies (
        #[trigger] rest[j]) == !holds_bad(split(later, size)[j], bad) by {
            assert(rest[j] == results[j + 1]);
            assert(split(later, size)[j] == batches[j + 1]);
        }
        lemma_landed_is_good(later, size, rest, bad);
        assert(results[0] == !holds_bad(batches[0], bad));
        lemma_good_together(first, landed_of(later, size, rest), bad);
    }
}

proof fn lemma_good_together<T>(a: Seq<T>, b: Seq<T>, bad: spec_fn(T) -> bool)
    ensures
        holds_bad(a + b, bad) ==> holds_bad(a, bad) || holds_bad(b, bad),
{
    if holds_bad(a + b, bad) {
        let i = choose|i: int| 0 <= i < (a + b).len() && bad(#[trigger] (a + b)[i]);
        if i < a.len() {
            assert(bad(a[i]));
        } else {
            assert(bad(b[i - a.len()]));
        }
    }
}

/// No instruction is lost, doubled or made up: while every batch is answered
/// for, those that landed, those that were dropped and those that are pending
/// are together the ones that were given, each as often as it was given.
pub proof fn law_every_instruction_is_accounted_for(
    instructions: Seq<InstructionView>,
    initial_batch_size: nat,
    replies: Seq<BatchReply>,
)
    requires
        forall|k: int|
            0 <= k < replies.len() ==> BatchModel::start(
                instructions,
                initial_batch_size,
            ).after_all(replies.take(k)).in_full(#[trigger] replies[k]),
    ensures
        ({
            let start = BatchModel::start(instructions, initial_batch_size);
            let state = start.after_all(replies);
            &&& start.all_landed(replies).len() == state.landed
            &&& start.all_dropped(replies).len() == state.dropped
            &&& instructions.to_multiset() == start.all_landed(replies).to_multiset().add(
                start.all_dropped(replies).to_multiset(),
            ).add(state.pending.to_multiset())
        }),
    decreases replies.len(),
{
    broadcast use vstd::seq_lib::group_to_multiset_ensures;

    let start = BatchModel::start(instructions, initial_batch_size);
    let none = Seq::<InstructionView>::empty();
    if replies.len() == 0 {
        assert(instructions.to_multiset() =~= none.to_multiset().add(none.to_multiset()).add(
            instructions.to_multiset(),
        ));
    } else {
        let earlier = replies.drop_last();
        assert forall|k: int| 0 <= k < earlier.len() implies start.after_all(
            earlier.take(k),
        ).in_full(#[trigger] earlier[k]) by {
            assert(earlier.take(k) =~= replies.take(k));
            assert(earlier[k] == replies[k]);
        }
        law_every_instruction_is_accounted_for(instructions, initial_batch_size, earlier);
        law_states_stay_valid(instructions, initial_batch_size, earlier);
        assert(replies.take(replies.len() - 1) =~= earlier);
        assert(start.after_all(earlier).in_full(replies[replies.len() - 1]));
        lemma_accounting_step(
            start.after_all(earlier),
            replies.last(),
            start.all_landed(earlier),
            start.all_dropped(earlier),
            instructions,
        );
    }
}

proof fn lemma_accounting_step(
    state: BatchModel,
    reply: BatchReply,
    landed: Seq<InstructionView>,
    dropped: Seq<InstructionView>,
    instructions: Seq<InstructionView>,
)
    requires
        state.wf(),
        state.in_full(reply),
        landed.len() == state.landed,
        dropped.len() == state.dropped,
        instructions.to_multiset() == landed.to_multiset().add(dropped.to_multiset()).add(
            state.pending.to_multiset(),
        ),
    ensures
        (landed + state.landing(reply)).len() == state.after(reply).landed,
        (dropped + state.dropping(reply)).len() == state.after(reply).dropped,
        instructions.to_multiset() == (landed + state.landing(reply)).to_multiset().add(
            (dropped + state.dropping(reply)).to_multiset(),
        ).add(state.after(reply).pending.to_multiset()),
{
    broadcast use vstd::seq_lib::group_to_multiset_ensures;

    let none = Seq::<InstructionView>::empty();
    let next = state.after(reply);
    vstd::seq_lib::lemma_multiset_commutative(landed, state.landing(reply));
    vstd::seq_lib::lemma_multiset_commutative(dropped, state.dropping(reply));
    assert(landed + none =~= landed);
    assert(dropped + none =~= dropped);
    match (state.phase, reply) {
        (BatchPhase::Sending, BatchReply::Results(results)) => {
            let again = failed(state.pending, state.batch_size, results);
            lemma_landed_or_failed(state.pending, state.batch_size, results);
            assert(again.len() == 0 ==> again =~= none);
            assert(state.pending.to_multiset() =~= state.landing(reply).to_multiset().add(
                state.dropping(reply).to_multiset(),
            ).add(next.pending.to_multiset()));
        },
        _ => {
            assert(next.pending == state.pending);
        },
    }
    assert(instructions.to_multiset() =~= (landed + state.landing(reply)).to_multiset().add(
        (dropped + state.dropping(reply)).to_multiset(),
    ).add(next.pending.to_multiset()));
}

proof fn lemma_good_lands_bad_drops(
    instructions: Seq<InstructionView>,
    initial_batch_size: nat,
    replies: Seq<BatchReply>,
    bad: spec_fn(InstructionView) -> bool,
)
    requires
        forall|k: int|
            0 <= k < replies.len() ==> BatchModel::start(
                instructions,
                initial_batch_size,
            ).after_all(replies.take(k)).truthful(#[trigger] replies[k], bad),
    ensures
        ({
            let start = BatchModel::start(instructions, initial_batch_size);
            let dropped = start.all_dropped(replies);
            &&& !holds_bad(start.all_landed(replies), bad)
            &&& forall|i: int| 0 <= i < dropped.len() ==> bad(#[trigger] dropped[i])
        }),
    decreases replies.len(),
{
    let start = BatchModel::start(instructions, initial_batch_size);
    if replies.len() > 0 {
        let earlier = replies.drop_last();
        assert forall|k: int| 0 <= k < earlier.len() implies start.after_all(
            earlier.take(k),
        ).truthful(#[trigger] earlier[k], bad) by {
            assert(earlier.take(k) =~= replies.take(k));
            assert(earlier[k] == replies[k]);
        }
        lemma_good_lands_bad_drops(instructions, initial_batch_size, earlier, bad);
        law_states_stay_valid(instructions, initial_batch_size, earlier);
        let state = start.after_all(earlier);
        let last = replies.last();
        assert(replies.take(replies.len() - 1) =~= earlier);
        assert(state.truthful(replies[replies.len() - 1], bad));
        match (state.phase, last) {
            (BatchPhase::Sending, BatchReply::Results(results)) => {
                lemma_landed_is_good(state.pending, state.batch_size, results, bad);
                lemma_failed_keeps_bad(state.pending, state.batch_size, results, bad);
            },
            _ => {},
        }
        lemma_good_together(start.all_landed(earlier), state.landing(last), bad);
        let before = start.all_dropped(earlier);
        let dropped = start.all_dropped(replies);
        assert forall|i: int| 0 <= i < dropped.len() implies bad(#[trigger] dropped[i]) by {
            if i < before.len() {
                assert(dropped[i] == before[i]);
            } else {
                assert(dropped[i] == state.dropping(last)[i - before.len()]);
            }
        }
    }
}

/// All the good instructions land, and all the bad ones are dropped: where a
/// batch fails exactly when it holds an instruction that is `bad`, a send that
/// has finished landed each good instruction as often as it was given and no
/// bad one, and dropped each bad one as often as it was given and no good one.
pub proof fn law_good_lands_and_bad_is_dropped(
    instructions: Seq<InstructionView>,
    initial_batch_size: nat,
    replies: Seq<BatchReply>,
    bad: spec_fn(InstructionView) -> bool,
    instruction: InstructionView,
)
    requires
        forall|k: int|
            0 <= k < replies.len() ==> BatchModel::start(
                instructions,
                initial_batch_size,
            ).after_all(replies.take(k)).truthful(#[trigger] replies[k], bad),
        BatchModel::start(instructions, initial_batch_size).after_all(replies).phase is Finished,
    ensures
        ({
            let start = BatchModel::start(instructions, initial_batch_size);
            let given = instructions.to_multiset().count(instruction);
            let landed = start.all_landed(replies).to_multiset().count(instruction);
            let dropped = start.all_dropped(replies).to_multiset().count(instruction);
            if bad(instruction) {
                landed == 0 && dropped == given
            } else {
                landed == given && dropped == 0
            }
        }),
{
    broadcast use vstd::seq_lib::group_to_multiset_ensures;

    let start = BatchModel::start(instructions, initial_batch_size);
    let state = start.after_all(replies);
    let landed = start.all_landed(replies);
    let dropped = start.all_dropped(replies);
    assert forall|k: int| 0 <= k < replies.len() implies start.after_all(replies.take(k)).in_full(
        #[trigger] replies[k],
    ) by {
        assert(start.after_all(replies.take(k)).truthful(replies[k], bad));
    }
    law_every_instruction_is_accounted_for(instructions, initial_batch_size, replies);
    lemma_good_lands_bad_drops(instructions, initial_batch_size, replies, bad);
    law_states_stay_valid(instructions, initial_batch_size, replies);
    assert(state.pending =~= Seq::empty());
    if bad(instruction) {
        if landed.contains(instruction) {
            let i = choose|i: int| 0 <= i < landed.len() && landed[i] == instruction;
            assert(bad(landed[i]));
        }
        assert(!landed.contains(instruction));
    } else {
        if dropped.contains(instruction) {
            let i = choose|i: int| 0 <= i < dropped.len() && dropped[i] == instruction;
            assert(bad(dropped[i]));
        }
        assert(!dropped.contains(instruction));
    }
}

/// Why the parallel sender failed as a whole.
pub fn send_failed_text(label: &str, error: &str) -> (text: String)
    ensures
        text@ == "["@ + label@ + "] parallel send failed: "@ + error@,
{
    let mut text = String::from_str("[");
    text.append(label);
    text.append("] parallel send failed: ");
    text.append(error);
    text
}

impl BatchSend {
    /// The instructions that a batch holds at most.
    pub fn width(&self) -> (width: usize)
        ensures
            width == self@.batch_size,
    {
        self.batch_size
    }

    /// The instructions that have yet to land.
    pub fn pending(&self) -> (count: usize)
        ensures
            count == self@.pending.len(),
    {
        self.pending.len()
    }

    /// How many batches the pending instructions are cut into.
    pub fn batch_count(&self) -> (count: usize)
        ensures
            count == split(self@.pending, self@.batch_size).len(),
    {
        proof {
            use_type_invariant(self);
        }
        let ghost pending = self@.pending;
        let ghost size = self@.batch_size;
        let len: usize = self.pending.len();
        let mut count: usize = 0;
        let mut at: usize = 0;
        assert(pending.skip(0) =~= pending);
        while at < len
            invariant
                count <= at <= len,
                len == self.pending@.len(),
                pending == views(self.pending@),
                size == self.batch_size,
                size > 0,
                count + split(pending.skip(at as int), size).len() == split(pending, size).len(),
            decreases len - at,
        {
            let end = batch_end(at, self.batch_size, len);
            proof {
                lemma_batch_ranges(pending, at as int, size, end as int);
            }
            count = count + 1;
            at = end;
        }
        count
    }

    /// What goes out next: how many transactions, how wide, and how many
    /// instructions are pending.
    pub fn sending_line(&self, label: &str) -> (line: Line)
        ensures
            line@ == info(
                "["@ + label@ + "] sending "@ + decimal(
                    split(self@.pending, self@.batch_size).len(),
                ) + " tx(s) of up to "@ + decimal(self@.batch_size) + " ix each ("@ + decimal(
                    self@.pending.len(),
                ) + " ix pending)"@,
            ),
    {
        let mut text = String::from_str("[");
        text.append(label);
        text.append("] sending ");
        text.append(decimal_text(self.batch_count() as u64).as_str());
        text.append(" tx(s) of up to ");
        text.append(decimal_text(self.width() as u64).as_str());
        text.append(" ix each (");
        text.append(decimal_text(self.pending() as u64).as_str());
        text.append(" ix pending)");
        Line { warning: false, text }
    }

    /// The warning that a batch failed with this error, once batches are single
    /// instructions.
    pub fn failure_warning(&self, label: &str, error: &str) -> (line: Option<Line>)
        ensures
            line is Some <==> self@.batch_size == 1,
            line matches Some(line) ==> line@ == warning(
                "["@ + label@ + "] tx failed (will retry/drop): "@ + error@,
            ),
    {
        if self.batch_size != 1 {
            return None;
        }
        let mut text = String::from_str("[");
        text.append(label);
        text.append("] tx failed (will retry/drop): ");
        text.append(error);
        Some(Line { warning: true, text })
    }

    /// What came of a send: how many instructions have landed, and how many
    /// were dropped.
    pub fn done_line(&self, label: &str) -> (line: Line)
        ensures
            line@ == info(
                "["@ + label@ + "] done: "@ + decimal(self@.landed) + "/"@ + decimal(self@.total)
                    + " landed, "@ + decimal(self@.dropped) + " dropped"@,
            ),
    {
        let mut text = String::from_str("[");
        text.append(label);
        text.append("] done: ");
        text.append(decimal_text(self.landed as u64).as_str());
        text.append("/");
        text.append(decimal_text(self.total as u64).as_str());
        text.append(" landed, ");
        text.append(decimal_text(self.dropped as u64).as_str());
        text.append(" dropped");
        Line { warning: false, text }
    }

    /// The warning that instructions are dropped, if any are.
    pub fn dropped_warning(&self, label: &str) -> (line: Option<Line>)
        ensures
            line is Some <==> self@.dropped > 0,
            line matches Some(line) ==> line@ == warning(
                "["@ + label@ + "] dropping "@ + decimal(self@.dropped)
                    + " instruction(s) that keep failing alone"@,
            ),
    {
        if self.dropped == 0 {
            return None;
        }
        let mut text = String::from_str("[");
        text.append(label);
        text.append("] dropping ");
        text.append(decimal_text(self.dropped as u64).as_str());
        text.append(" instruction(s) that keep failing alone");
        Some(Line { warning: true, text })
    }
}

} // verus!
