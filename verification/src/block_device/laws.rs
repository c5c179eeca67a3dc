//! Laws of the ring protocol, proved over the states of an operation.

use crate::block_device::io_uring_device::{
    failure_of, initial_state, status_fails, step_spec, IoError, OperationState, RingAction,
    RingEvent, Submission, SHORT_TRANSFER,
};
use vstd::prelude::*;

verus! {

/// The state after a series of events, taken one after another.
pub open spec fn run(state: OperationState, events: Seq<RingEvent>) -> OperationState
    decreases events.len(),
{
    if events.len() == 0 {
        state
    } else {
        step_spec(run(state, events.drop_last()), events.last())
    }
}

/// The completions that carry `statuses`, in order.
pub open spec fn completion_events(statuses: Seq<i32>) -> Seq<RingEvent> {
    Seq::new(statuses.len(), |i: int| RingEvent::Completion(statuses[i]))
}

/// How far an operation has come: from waiting for the ring to having released it.
pub open spec fn stage(action: RingAction) -> nat {
    match action {
        RingAction::Acquire => 0,
        RingAction::Push(_) => 1,
        RingAction::SubmitAndWait(_) => 2,
        RingAction::NextCompletion => 3,
        RingAction::Release(_) => 4,
    }
}

/// Whether an operation with this pending action has the ring to itself.
pub open spec fn holds_ring(action: RingAction) -> bool {
    1 <= stage(action) <= 3
}

/// Whether `index` is the first completion whose status fails a transfer of
/// `len` bytes.
pub open spec fn first_failure_at(statuses: Seq<i32>, len: u32, index: int) -> bool {
    &&& 0 <= index < statuses.len()
    &&& status_fails(len, statuses[index])
    &&& forall|j: int| 0 <= j < index ==> !status_fails(len, statuses[j])
}

/// Whether every completion reports a full transfer of `len` bytes.
pub open spec fn all_complete(statuses: Seq<i32>, len: u32) -> bool {
    forall|i: int| 0 <= i < statuses.len() ==> !status_fails(len, statuses[i])
}

/// An operation never goes back: each event leaves it where it is or moves it
/// on, its submission stays what it was, and while it stays in its stage the
/// pending action stays the same. So it pushes one entry, once, and holds the
/// ring in one stretch, from the push to the end of the drain.
pub proof fn lemma_step_moves_forward(state: OperationState, event: RingEvent)
    ensures
        stage(step_spec(state, event).pending) >= stage(state.pending),
        stage(step_spec(state, event).pending) == stage(state.pending) ==> step_spec(
            state,
            event,
        ).pending == state.pending,
        step_spec(state, event).submission == state.submission,
        state.pending is Acquire && step_spec(state, event).pending !is Acquire ==> step_spec(
            state,
            event,
        ).pending == RingAction::Push(state.submission),
        holds_ring(state.pending) && !holds_ring(step_spec(state, event).pending) ==> step_spec(
            state,
            event,
        ).pending is Release,
{
}

/// A release is final: no event changes an operation that has released the ring.
pub proof fn lemma_release_is_final(state: OperationState, event: RingEvent)
    requires
        state.pending is Release,
    ensures
        step_spec(state, event) == state,
{
}

/// Over any series of events an operation keeps its submission and never goes back.
pub proof fn lemma_run_moves_forward(state: OperationState, events: Seq<RingEvent>)
    ensures
        stage(run(state, events).pending) >= stage(state.pending),
        run(state, events).submission == state.submission,
    decreases events.len(),
{
    if events.len() > 0 {
        lemma_run_moves_forward(state, events.drop_last());
        lemma_step_moves_forward(run(state, events.drop_last()), events.last());
    }
}

/// Running two series of events one after the other is running their concatenation.
pub proof fn lemma_run_concat(state: OperationState, first: Seq<RingEvent>, then: Seq<RingEvent>)
    ensures
        run(state, first + then) == run(run(state, first), then),
    decreases then.len(),
{
    if then.len() == 0 {
        assert(first + then =~= first);
    } else {
        lemma_run_concat(state, first, then.drop_last());
        assert((first + then).drop_last() =~= first + then.drop_last());
        assert((first + then).last() == then.last());
    }
}

/// While an operation drains, the completions leave on record nothing where
/// there were none, success where each reported a full transfer, and otherwise
/// the failure of the first that did not.
pub proof fn lemma_drain_records_first_failure(state: OperationState, statuses: Seq<i32>)
    requires
        state.pending is NextCompletion,
        state.reported is None,
    ensures
        run(state, completion_events(statuses)).pending is NextCompletion,
        run(state, completion_events(statuses)).submission == state.submission,
        run(state, completion_events(statuses)).reported is None <==> statuses.len() == 0,
        run(state, completion_events(statuses)).reported == Some(Ok::<(), IoError>(()))
            <==> statuses.len() > 0 && all_complete(statuses, state.submission.len),
        forall|i: int| #[trigger]
            first_failure_at(statuses, state.submission.len, i) ==> run(
                state,
                completion_events(statuses),
            ).reported == Some(Err::<(), IoError>(failure_of(statuses[i]))),
    decreases statuses.len(),
{
    let len = state.submission.len;
    let events = completion_events(statuses);
    if statuses.len() > 0 {
        let earlier = statuses.drop_last();
        lemma_drain_records_first_failure(state, earlier);
        assert(events.drop_last() =~= completion_events(earlier));
        assert(events.last() == RingEvent::Completion(statuses.last()));
        let before = run(state, completion_events(earlier));
        assert(forall|j: int| 0 <= j < earlier.len() ==> earlier[j] == statuses[j]);
        assert forall|i: int| #[trigger] first_failure_at(statuses, len, i) implies run(
            state,
            events,
        ).reported == Some(Err::<(), IoError>(failure_of(statuses[i]))) by {
            if i < earlier.len() {
                assert(first_failure_at(earlier, len, i));
            } else {
                assert(all_complete(earlier, len));
            }
        }
        if all_complete(statuses, len) {
            assert(all_complete(earlier, len));
        }
        if run(state, events).reported == Some(Ok::<(), IoError>(())) {
            assert(!status_fails(len, statuses.last()));
            assert(all_complete(earlier, len));
            assert(all_complete(statuses, len));
        }
    }
}

/// The events of an operation that the ring serves: access granted, entry taken,
/// submission gone through, the completions with `statuses`, and the queue empty.
pub open spec fn served(statuses: Seq<i32>) -> Seq<RingEvent> {
    seq![RingEvent::Acquired, RingEvent::Pushed, RingEvent::Submitted] + completion_events(
        statuses,
    ) + seq![RingEvent::QueueEmpty]
}

/// An operation that the ring serves ends in a release. Its result is `Ok` if
/// and only if there was a completion and each reported a full block. Where a
/// completion reported less, the result is the failure of the first that did:
/// the operating system's error number for a negative status, and that of an
/// input/output error for a short transfer. Where no completion came, the
/// submission has failed.
pub proof fn lemma_served_operation(submission: Submission, statuses: Seq<i32>)
    ensures
        run(initial_state(submission), served(statuses)).pending is Release,
        run(initial_state(submission), served(statuses)).pending == RingAction::Release(Ok(()))
            <==> statuses.len() > 0 && all_complete(statuses, submission.len),
        statuses.len() == 0 ==> run(initial_state(submission), served(statuses)).pending
            == RingAction::Release(Err(IoError::RingSubmissionFailed)),
        forall|i: int| #[trigger]
            first_failure_at(statuses, submission.len, i) ==> run(
                initial_state(submission),
                served(statuses),
            ).pending == RingAction::Release(Err(failure_of(statuses[i]))),
{
    let start = initial_state(submission);
    let opening = seq![RingEvent::Acquired, RingEvent::Pushed, RingEvent::Submitted];
    let draining = run(start, opening);
    assert(draining.pending is NextCompletion && draining.reported is None
        && draining.submission == submission) by {
        reveal_with_fuel(run, 4);
        assert(opening.drop_last() =~= seq![RingEvent::Acquired, RingEvent::Pushed]);
        assert(opening.drop_last().drop_last() =~= seq![RingEvent::Acquired]);
        assert(opening.drop_last().drop_last().drop_last() =~= Seq::<RingEvent>::empty());
    }
    lemma_drain_records_first_failure(draining, statuses);
    lemma_run_concat(start, opening, completion_events(statuses));
    let drained = run(start, opening + completion_events(statuses));
    lemma_run_concat(start, opening + completion_events(statuses), seq![RingEvent::QueueEmpty]);
    assert(run(drained, seq![RingEvent::QueueEmpty]) == step_spec(drained, RingEvent::QueueEmpty))
        by {
        reveal_with_fuel(run, 2);
        assert(seq![RingEvent::QueueEmpty].drop_last() =~= Seq::<RingEvent>::empty());
    }
}

/// There is no silent partial success: a transfer whose completion counts fewer
/// bytes than the block is reported as failed, a write as much as a read.
pub proof fn lemma_short_transfer_fails(submission: Submission, moved: i32)
    requires
        0 <= moved < submission.len,
    ensures
        run(initial_state(submission), served(seq![moved])).pending == RingAction::Release(
            Err(IoError::DeviceError(SHORT_TRANSFER)),
        ),
{
    lemma_served_operation(submission, seq![moved]);
    assert(first_failure_at(seq![moved], submission.len, 0));
}

/// An operation whose entry the submission queue does not take, or whose
/// submission is rejected, releases the ring with `RingSubmissionFailed`.
pub proof fn lemma_refused_operation(submission: Submission)
    ensures
        run(initial_state(submission), seq![RingEvent::Acquired, RingEvent::QueueFull]).pending
            == RingAction::Release(Err(IoError::RingSubmissionFailed)),
        run(
            initial_state(submission),
            seq![RingEvent::Acquired, RingEvent::Pushed, RingEvent::SubmitFailed],
        ).pending == RingAction::Release(Err(IoError::RingSubmissionFailed)),
{
    reveal_with_fuel(run, 4);
    let full = seq![RingEvent::Acquired, RingEvent::QueueFull];
    assert(full.drop_last() =~= seq![RingEvent::Acquired]);
    assert(full.drop_last().drop_last() =~= Seq::<RingEvent>::empty());
    let failed = seq![RingEvent::Acquired, RingEvent::Pushed, RingEvent::SubmitFailed];
    assert(failed.drop_last() =~= seq![RingEvent::Acquired, RingEvent::Pushed]);
    assert(failed.drop_last().drop_last() =~= seq![RingEvent::Acquired]);
    assert(failed.drop_last().drop_last().drop_last() =~= Seq::<RingEvent>::empty());
}

} // verus!
