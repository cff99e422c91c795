//! Task outcomes and the completion cell shared by a spawned computation and
//! its handle on the cooperative scheduler.
use vstd::prelude::*;
use futures::future::Aborted;

verus! {

/// Declares `futures::future::Aborted`, the error of an abortable future whose
/// abort signal was seen; it is carried as an opaque value.
#[verifier::external_type_specification]
#[verifier::external_body]
pub struct ExAborted(Aborted);

/// Why a task produced no value.
#[derive(Clone, Copy, Debug, PartialEq, Eq, Structural)]
pub enum JoinError {
    /// The task was cancelled, by its owner or by the scheduler dropping it.
    Aborted,
    /// The task terminated abnormally.
    Panicked,
}

impl JoinError {
    /// The error for a task that ended without a value on a scheduler that
    /// tells cancellation apart from abnormal termination.
    pub fn from_cancelled(cancelled: bool) -> (r: JoinError)
        ensures
            r == (if cancelled { JoinError::Aborted } else { JoinError::Panicked }),
    {
        if cancelled {
            JoinError::Aborted
        } else {
            JoinError::Panicked
        }
    }
}

/// How a task ended. Each task ends exactly once.
#[derive(Clone, Copy, Debug, PartialEq, Eq)]
pub enum TaskOutcome<T> {
    Completed(T),
    Aborted,
    Panicked,
}

/// What the handle's owner receives for an outcome.
pub open spec fn outcome_result<T>(o: TaskOutcome<T>) -> Result<T, JoinError> {
    match o {
        TaskOutcome::Completed(v) => Ok(v),
        TaskOutcome::Aborted => Err(JoinError::Aborted),
        TaskOutcome::Panicked => Err(JoinError::Panicked),
    }
}

/// The outcome of a computation that ran under an abort signal: its value,
/// or `Aborted` when the signal was observed first.
pub open spec fn run_outcome<T>(r: Result<T, Aborted>) -> TaskOutcome<T> {
    match r {
        Ok(v) => TaskOutcome::Completed(v),
        Err(_) => TaskOutcome::Aborted,
    }
}

impl<T> TaskOutcome<T> {
    /// `Completed(v)` becomes `Ok(v)`, the others the matching error.
    pub fn into_result(self) -> (r: Result<T, JoinError>)
        ensures
            r == outcome_result(self),
    {
        match self {
            TaskOutcome::Completed(v) => Ok(v),
            TaskOutcome::Aborted => Err(JoinError::Aborted),
            TaskOutcome::Panicked => Err(JoinError::Panicked),
        }
    }

    /// The outcome of a computation that ran under an abort signal.
    pub fn from_run(r: Result<T, Aborted>) -> (o: TaskOutcome<T>)
        ensures
            o == run_outcome(r),
    {
        match r {
            Ok(v) => TaskOutcome::Completed(v),
            Err(_) => TaskOutcome::Aborted,
        }
    }
}

/// The result slot of a completion cell. It goes from `Empty` to `Ready` once,
/// and to `Taken` when the handle has consumed the outcome.
#[derive(Clone, Copy, Debug, PartialEq, Eq)]
pub enum Slot<T> {
    Empty,
    Ready(TaskOutcome<T>),
    Taken,
}

/// The abstract state of a completion cell: the slot, the flag that says an
/// outcome waits to be consumed, and the waker of the handle's last poll.
pub struct CellState<T, W> {
    pub slot: Slot<T>,
    pub pending: bool,
    pub waker: Option<W>,
}

impl<T, W> CellState<T, W> {
    /// A cell that no one has written to or polled.
    pub open spec fn fresh() -> CellState<T, W> {
        CellState { slot: Slot::Empty, pending: false, waker: None }
    }

    /// The flag is set exactly while an outcome waits to be consumed.
    pub open spec fn wf(self) -> bool {
        self.pending <==> self.slot is Ready
    }

    /// An outcome has been published, whether or not it was consumed since.
    pub open spec fn is_finished(self) -> bool {
        !(self.slot is Empty)
    }

    /// After the outcome `o` is published; the registered waker is handed
    /// out to be woken.
    pub open spec fn after_publish(self, o: TaskOutcome<T>) -> CellState<T, W> {
        CellState { slot: Slot::Ready(o), pending: true, waker: None }
    }

    /// The outcome that a take hands out: the waiting one, if the flag is set.
    pub open spec fn taken(self) -> Option<TaskOutcome<T>> {
        if self.pending {
            match self.slot {
                Slot::Ready(o) => Some(o),
                _ => None,
            }
        } else {
            None
        }
    }

    /// After a take: a waiting outcome is consumed, otherwise nothing changes.
    pub open spec fn after_take(self) -> CellState<T, W> {
        if self.pending {
            CellState { slot: Slot::Taken, pending: false, waker: self.waker }
        } else {
            self
        }
    }

    /// After the handle registers the waker `w`, replacing any earlier one.
    pub open spec fn after_register(self, w: W) -> CellState<T, W> {
        CellState { slot: self.slot, pending: self.pending, waker: Some(w) }
    }

    /// What a poll of the handle yields: the waiting outcome as a result, or
    /// nothing yet.
    pub open spec fn poll_result(self) -> Option<Result<T, JoinError>> {
        match self.taken() {
            Some(o) => Some(outcome_result(o)),
            None => None,
        }
    }

    /// After a poll of the handle with waker `w`: the waiting outcome is
    /// consumed, or else `w` is registered.
    pub open spec fn after_poll(self, w: W) -> CellState<T, W> {
        if self.pending {
            self.after_take()
        } else {
            self.after_register(w)
        }
    }

    /// After the computation is torn down: if it never published, `Aborted` is.
    pub open spec fn after_teardown(self) -> CellState<T, W> {
        if self.slot is Empty {
            self.after_publish(TaskOutcome::Aborted)
        } else {
            self
        }
    }

    /// The waker that a teardown hands out to be woken.
    pub open spec fn teardown_waker(self) -> Option<W> {
        if self.slot is Empty {
            self.waker
        } else {
            None
        }
    }
}

/// The write-once result slot of one task, with its pending flag and the
/// waker of the handle's last poll.
pub struct CompletionCell<T, W> {
    slot: Slot<T>,
    pending: bool,
    waker: Option<W>,
}

impl<T, W> View for CompletionCell<T, W> {
    type V = CellState<T, W>;

    closed spec fn view(&self) -> CellState<T, W> {
        CellState { slot: self.slot, pending: self.pending, waker: self.waker }
    }
}

impl<T, W> CompletionCell<T, W> {
    /// A cell that no one has written to or polled.
    pub fn new() -> (r: CompletionCell<T, W>)
        ensures
            r@ == CellState::<T, W>::fresh(),
    {
        CompletionCell { slot: Slot::Empty, pending: false, waker: None }
    }

    /// Whether an outcome has been published, consumed or not.
    pub fn is_finished(&self) -> (r: bool)
        ensures
            r == self@.is_finished(),
    {
        match self.slot {
            Slot::Empty => false,
            _ => true,
        }
    }

    /// Stores `o` and sets the pending flag. Publishing twice is a broken
    /// invariant of the caller, so the cell must still be empty. Returns the
    /// registered waker, which the caller wakes.
    pub fn publish(&mut self, o: TaskOutcome<T>) -> (r: Option<W>)
        requires
            old(self)@.wf(),
            old(self)@.slot is Empty,
        ensures
            final(self)@.wf(),
            final(self)@ == old(self)@.after_publish(o),
            r == old(self)@.waker,
    {
        self.slot = Slot::Ready(o);
        self.pending = true;
        self.waker.take()
    }

    /// Tests and clears the pending flag; if it was set, hands out the outcome.
    pub fn take(&mut self) -> (r: Option<TaskOutcome<T>>)
        requires
            old(self)@.wf(),
        ensures
            final(self)@.wf(),
            final(self)@ == old(self)@.after_take(),
            r == old(self)@.taken(),
    {
        if self.pending {
            self.pending = false;
            let mut slot = Slot::Taken;
            std::mem::swap(&mut self.slot, &mut slot);
            match slot {
                Slot::Ready(o) => Some(o),
                _ => None,
            }
        } else {
            None
        }
    }

    /// Keeps `w` to be woken when an outcome is published, in place of any
    /// earlier waker.
    pub fn register_waker(&mut self, w: W)
        requires
            old(self)@.wf(),
        ensures
            final(self)@.wf(),
            final(self)@ == old(self)@.after_register(w),
    {
        self.waker = Some(w);
    }

    /// One poll of the handle: the waiting outcome as a result if there is
    /// one, otherwise `w` is registered and nothing is yielded yet.
    pub fn poll(&mut self, w: W) -> (r: Option<Result<T, JoinError>>)
        requires
            old(self)@.wf(),
        ensures
            final(self)@.wf(),
            final(self)@ == old(self)@.after_poll(w),
            r == old(self)@.poll_result(),
    {
        match self.take() {
            Some(o) => Some(o.into_result()),
            None => {
                self.register_waker(w);
                None
            },
        }
    }

    /// Records how a computation that ran under an abort signal ended.
    /// Returns the waker to wake.
    pub fn settle(&mut self, r: Result<T, Aborted>) -> (w: Option<W>)
        requires
            old(self)@.wf(),
            old(self)@.slot is Empty,
        ensures
            final(self)@.wf(),
            final(self)@ == old(self)@.after_publish(run_outcome(r)),
            w == old(self)@.waker,
    {
        self.publish(TaskOutcome::from_run(r))
    }

    /// The computation is being dropped: if it never published an outcome,
    /// `Aborted` is published so that the handle does not wait forever.
    /// Returns the waker to wake.
    pub fn teardown(&mut self) -> (w: Option<W>)
        requires
            old(self)@.wf(),
        ensures
            final(self)@.wf(),
            final(self)@ == old(self)@.after_teardown(),
            w == old(self)@.teardown_waker(),
    {
        if self.is_finished() {
            None
        } else {
            self.publish(TaskOutcome::Aborted)
        }
    }
}

/// A computation that completes before any abort: polls before completion
/// yield nothing, and the first poll after it yields `Ok` with the value and
/// consumes the outcome.
pub proof fn lemma_completion_yields_value<T, W>(c: CellState<T, W>, v: T, w: W)
    requires
        c.wf(),
        c.slot is Empty,
    ensures
        c.poll_result() is None,
        c.after_poll(w).slot is Empty,
        c.after_publish(run_outcome(Ok::<T, Aborted>(v))).poll_result() == Some(Ok::<T, JoinError>(v)),
        c.after_publish(run_outcome(Ok::<T, Aborted>(v))).after_poll(w).slot is Taken,
{
}

/// A consumed outcome is yielded only once: every later poll yields nothing
/// and leaves it consumed, and a teardown does not publish again.
pub proof fn lemma_consumed_yields_nothing<T, W>(c: CellState<T, W>, w: W)
    requires
        c.wf(),
        c.slot is Taken,
    ensures
        c.poll_result() is None,
        c.after_poll(w).slot is Taken,
        c.after_poll(w).wf(),
        c.after_teardown() == c,
{
}

/// An abort observed before completion: the task is finished and a poll
/// yields `Err(Aborted)`.
pub proof fn lemma_abort_yields_aborted<T, W>(c: CellState<T, W>, a: Aborted)
    requires
        c.wf(),
        c.slot is Empty,
    ensures
        c.after_publish(run_outcome(Err::<T, Aborted>(a))).is_finished(),
        c.after_publish(run_outcome(Err::<T, Aborted>(a))).poll_result() == Some(
            Err::<T, JoinError>(JoinError::Aborted),
        ),
{
}

/// A computation dropped before it published: the task is finished and a
/// poll yields `Err(Aborted)`, whether or not the handle was polled before.
/// A computation that did publish keeps its outcome.
pub proof fn lemma_teardown_yields_aborted<T, W>(c: CellState<T, W>)
    requires
        c.wf(),
    ensures
        c.slot is Empty ==> c.after_teardown().is_finished() && c.after_teardown().poll_result()
            == Some(Err::<T, JoinError>(JoinError::Aborted)),
        !(c.slot is Empty) ==> c.after_teardown() == c,
        c.after_teardown().wf(),
{
}

/// Once finished, a task stays finished through every step its cell can take.
pub proof fn lemma_finished_stays_finished<T, W>(c: CellState<T, W>, w: W)
    requires
        c.wf(),
        c.is_finished(),
    ensures
        c.after_take().is_finished(),
        c.after_register(w).is_finished(),
        c.after_poll(w).is_finished(),
        c.after_teardown().is_finished(),
{
}

} // verus!
