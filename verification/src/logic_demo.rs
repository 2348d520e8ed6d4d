//! A state that counts the messages folded into it.

use crate::kafka_aggregator::Aggregator;
use vstd::prelude::*;

verus! {

/// The number of messages folded in, from a starting count.
#[derive(Debug)]
pub struct State(i64);

impl View for State {
    type V = i64;

    closed spec fn view(&self) -> i64 {
        self.0
    }
}

impl State {
    pub fn new(i: i64) -> (r: State)
        ensures
            r@ == i,
    {
        State(i)
    }
}

impl Aggregator for State {
    type Message = Vec<u8>;

    /// Every count is well formed.
    open spec fn wf(&self) -> bool {
        true
    }

    /// Any message, while the count can still grow.
    open spec fn accepts(&self, msg: Vec<u8>) -> bool {
        self@ < i64::MAX
    }

    /// The count grows by one, whatever the message holds.
    open spec fn aggregated(old: State, msg: Vec<u8>, new: State) -> bool {
        new@ == old@ + 1
    }

    fn can_aggregate(&self, msg: &Vec<u8>) -> (r: bool) {
        self.0 < i64::MAX
    }

    fn aggregate(&mut self, msg: Vec<u8>) {
        self.0 += 1;
    }
}


/// Every message, whatever it holds, is taken while the count can still grow,
/// and folding it in adds exactly one to the count.
pub proof fn lemma_counts_every_message(old: State, msg: Vec<u8>, new: State)
    ensures
        old@ < i64::MAX ==> old.accepts(msg),
        State::aggregated(old, msg, new) ==> new@ == old@ + 1,
{
}

} // verus!
