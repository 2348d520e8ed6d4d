//! The aggregation step that folds consumed messages into a state, and the
//! rule by which consumed messages are gathered into batches.

use vstd::prelude::*;

verus! {

/// A state that messages are folded into, one at a time.
pub trait Aggregator: Sized {
    /// What one message is, once decoded.
    type Message;

    /// The state's own invariant, which every operation keeps.
    spec fn wf(&self) -> bool;

    /// `msg` can be folded into this state.
    spec fn accepts(&self, msg: Self::Message) -> bool;

    /// `new` is what folding `msg` into `old` gives.
    spec fn aggregated(old: Self, msg: Self::Message, new: Self) -> bool;

    /// Whether `msg` can be folded into this state.
    fn can_aggregate(&self, msg: &Self::Message) -> (r: bool)
        requires
            self.wf(),
        ensures
            r == self.accepts(*msg),
    ;

    /// Folds `msg` into this state.
    fn aggregate(&mut self, msg: Self::Message)
        requires
            old(self).wf(),
            old(self).accepts(msg),
        ensures
            final(self).wf(),
            Self::aggregated(*old(self), msg, *final(self)),
    ;

    /// Folds `msg` into this state where it can be folded, and says whether it was.
    fn try_aggregate(&mut self, msg: Self::Message) -> (r: bool)
        requires
            old(self).wf(),
        ensures
            final(self).wf(),
            r == old(self).accepts(msg),
            r ==> Self::aggregated(*old(self), msg, *final(self)),
            !r ==> *final(self) == *old(self),
    {
        if self.can_aggregate(&msg) {
            self.aggregate(msg);
            true
        } else {
            false
        }
    }
}

/// `states` is a run of folds of `msgs`: each state is well formed and takes
/// the message of its place, and folding it in gives the next state.
pub open spec fn fold_run<T: Aggregator>(states: Seq<T>, msgs: Seq<T::Message>) -> bool {
    &&& states.len() == msgs.len() + 1
    &&& forall|i: int|
        0 <= i < msgs.len() ==> {
            &&& (#[trigger] states[i]).wf()
            &&& states[i].accepts(msgs[i])
            &&& T::aggregated(states[i], msgs[i], states[i + 1])
        }
}

/// Folds `msgs` into `state` one at a time, in order, up to the first message
/// that the state at that point cannot take, and says how many were folded.
pub fn aggregate_batch<T: Aggregator>(state: &mut T, msgs: Vec<T::Message>) -> (r: usize)
    requires
        old(state).wf(),
    ensures
        final(state).wf(),
        r <= msgs.len(),
        exists|states: Seq<T>|
            fold_run(states, msgs@.take(r as int)) && states[0] == *old(state) && states.last()
                == *final(state),
        r < msgs.len() ==> !final(state).accepts(msgs@[r as int]),
{
    let ghost all = msgs@;
    let ghost mut states: Seq<T> = seq![*state];
    let n = msgs.len();
    let mut count: usize = 0;
    for msg in it: msgs
        invariant
            it.seq() == all,
            all.len() == n,
            count == it.index(),
            state.wf(),
            fold_run(states, all.take(count as int)),
            states[0] == *old(state),
            states.last() == *state,
    {
        if !state.can_aggregate(&msg) {
            return count;
        }
        let ghost before = *state;
        state.aggregate(msg);
        proof {
            let next = states.push(*state);
            assert(all.take(count + 1).drop_last() =~= all.take(count as int));
            assert forall|i: int| 0 <= i < all.take(count + 1).len() implies {
                &&& (#[trigger] next[i]).wf()
                &&& next[i].accepts(all.take(count + 1)[i])
                &&& T::aggregated(next[i], all.take(count + 1)[i], next[i + 1])
            } by {
                if i < count {
                    assert(next[i] == states[i]);
                    assert(next[i + 1] == states[i + 1]);
                    assert(all.take(count + 1)[i] == all.take(count as int)[i]);
                }
            }
            states = next;
        }
        count = count + 1;
    }
    assert(all.take(count as int) =~= all);
    count
}

/// How long a consumer waits for a message when it polls while gathering a batch.
pub const POLL_TIMEOUT_MILLIS: u64 = 0;

/// How long a batch may keep gathering messages before it is folded in.
pub const POLL_EXPAND_TIMEOUT_MILLIS: u64 = 1000;

/// What a poll of the consumer gave.
#[derive(Debug, Clone, Copy, PartialEq, Eq, Structural)]
pub enum PollResult {
    /// A message, now kept in the batch.
    Received,
    /// No message.
    Nothing,
}

/// What the consumer does next.
#[derive(Debug, Clone, Copy, PartialEq, Eq, Structural)]
pub enum NextStep {
    /// Poll again, without waiting, for more of the batch.
    PollAgain,
    /// Fold the batch into the state, commit the consumer's offsets, and start
    /// a new batch with a poll that waits for its first message.
    Flush,
}

/// The time, counted from a batch's first poll, from which the batch is
/// folded in after the next message.
pub fn batch_window_millis() -> (r: u64)
    ensures
        r == POLL_EXPAND_TIMEOUT_MILLIS - POLL_TIMEOUT_MILLIS,
{
    POLL_EXPAND_TIMEOUT_MILLIS - POLL_TIMEOUT_MILLIS
}

/// Decides, after a poll `elapsed_millis` after the batch's first poll, whether
/// to gather more: only after a message, and only while the window is open.
pub fn next_step(result: PollResult, elapsed_millis: u64) -> (r: NextStep)
    ensures
        r == NextStep::PollAgain <==> (result == PollResult::Received && elapsed_millis
            < POLL_EXPAND_TIMEOUT_MILLIS - POLL_TIMEOUT_MILLIS),
{
    match result {
        PollResult::Received => {
            if elapsed_millis >= batch_window_millis() {
                NextStep::Flush
            } else {
                NextStep::PollAgain
            }
        },
        PollResult::Nothing => NextStep::Flush,
    }
}

} // verus!
