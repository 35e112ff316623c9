use vstd::prelude::*;
use crate::message::{Event, Init, Message};

verus! {

/// Why a node could not start.
#[derive(Debug, Clone)]
pub struct InitError {
    pub reason: String,
}

/// A node of the network, driven one event at a time. `step` consumes an event
/// and gives back the messages that the node sends in answer.
pub trait Node<S, Payload, InjectedPayload = Payload>: Sized {
    /// The events that `step` can take in the node's current state; on any
    /// other event the node gives up.
    spec fn accepts(&self, input: Event<Payload, InjectedPayload>) -> bool;

    /// The node as it starts, after the `init` message.
    fn from_init(state: S, init: Init) -> Result<Self, InitError>;

    /// Tells whether `step` takes `input` now.
    fn can_step(&self, input: &Event<Payload, InjectedPayload>) -> (ok: bool)
        ensures
            ok == self.accepts(*input),
    ;

    /// Handles one event and returns the messages to send, in order.
    fn step(&mut self, input: Event<Payload, InjectedPayload>) -> (output: Vec<Message<Payload>>)
        requires
            old(self).accepts(input),
    ;
}

} // verus!
