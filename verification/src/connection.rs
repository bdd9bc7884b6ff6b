//! The task of one connection: what it does with each thing that happens to
//! it.
//!
//! The task waits for three things in turn: the next item on the stream of
//! its client, the answer of the server to the message that it has passed on,
//! and a line for every client. It does the waiting, the reading and the
//! writing itself. [`BridgeState::step`] decides what follows.

use crate::codec::LanChatCodecError;
use crate::message::LanChatMessage;
use crate::server::Response;
use vstd::prelude::*;

verus! {

/// What the task of a connection remembers.
#[derive(Clone, Copy, Debug, PartialEq, Eq, Structural)]
pub enum BridgeState {
    /// Nothing: the stream of the client is in order.
    Open,
    /// The stream has just given a line that was dropped. It marks the place
    /// by ending once, and goes on after that.
    Recovering,
}

/// What can happen to the task of a connection.
#[derive(Debug, Clone, PartialEq)]
pub enum BridgeEvent {
    /// The client has sent a message.
    Message(LanChatMessage),
    /// The client has sent a line that is no message, or one that is too
    /// long.
    Rejected(LanChatCodecError),
    /// Reading from the client has failed.
    Failed,
    /// The stream of the client has ended.
    Ended,
    /// The server has answered the message that was passed on to it.
    Replied(Response),
    /// The server has let the message that was passed on go unanswered.
    Unanswered,
    /// There is a line for every client.
    Broadcast(String),
    /// The task was too slow: this many lines for every client went by
    /// before it could take them.
    Lagged(u64),
    /// No line for every client will come any more.
    BroadcastClosed,
}

/// What the task of a connection does next.
#[derive(Debug, Clone, PartialEq)]
pub enum BridgeAction {
    /// Pass the message on to the server, and wait for the answer.
    Forward(LanChatMessage),
    /// Write the line to the client.
    Transmit(String),
    /// Close the connection and end.
    Close,
    /// Go on waiting.
    Continue,
}

/// What the task remembers after an event. A line that was dropped is
/// remembered until the stream has marked its place or given a message.
pub open spec fn spec_next_state(state: BridgeState, event: BridgeEvent) -> BridgeState {
    match event {
        BridgeEvent::Rejected(_) => BridgeState::Recovering,
        BridgeEvent::Message(_) => BridgeState::Open,
        BridgeEvent::Ended => BridgeState::Open,
        _ => state,
    }
}

/// What follows from an event. A message goes to the server. A line that was
/// dropped is passed over in silence, and the connection stays open. The
/// task ends when the stream of the client ends, unless that only marks a
/// line that was dropped; when reading from the client fails; and when the
/// server tells it to hang up, and on no other answer. A line for every
/// client is written to this one. Lines that went by are not made up for:
/// the task goes on with the oldest line that is still to be had.
pub open spec fn spec_action(state: BridgeState, event: BridgeEvent) -> BridgeAction {
    match event {
        BridgeEvent::Message(message) => BridgeAction::Forward(message),
        BridgeEvent::Rejected(_) => BridgeAction::Continue,
        BridgeEvent::Failed => BridgeAction::Close,
        BridgeEvent::Ended => match state {
            BridgeState::Open => BridgeAction::Close,
            BridgeState::Recovering => BridgeAction::Continue,
        },
        BridgeEvent::Replied(Response::HangUp) => BridgeAction::Close,
        BridgeEvent::Replied(Response::Ack) => BridgeAction::Continue,
        BridgeEvent::Unanswered => BridgeAction::Continue,
        BridgeEvent::Broadcast(line) => BridgeAction::Transmit(line),
        BridgeEvent::Lagged(_) => BridgeAction::Continue,
        BridgeEvent::BroadcastClosed => BridgeAction::Continue,
    }
}

impl BridgeState {
    /// The state of a task that has just been started.
    pub fn new() -> (state: BridgeState)
        ensures
            state == BridgeState::Open,
    {
        BridgeState::Open
    }

    /// Takes in `event`, and decides what the task does next.
    pub fn step(&mut self, event: BridgeEvent) -> (action: BridgeAction)
        ensures
            *final(self) == spec_next_state(*old(self), event),
            action == spec_action(*old(self), event),
    {
        match event {
            BridgeEvent::Message(message) => {
                *self = BridgeState::Open;
                BridgeAction::Forward(message)
            },
            BridgeEvent::Rejected(_) => {
                *self = BridgeState::Recovering;
                BridgeAction::Continue
            },
            BridgeEvent::Failed => BridgeAction::Close,
            BridgeEvent::Ended => {
                let action = match self {
                    BridgeState::Open => BridgeAction::Close,
                    BridgeState::Recovering => BridgeAction::Continue,
                };
                *self = BridgeState::Open;
                action
            },
            BridgeEvent::Replied(response) => match response {
                Response::Ack => BridgeAction::Continue,
                Response::HangUp => BridgeAction::Close,
            },
            BridgeEvent::Unanswered => BridgeAction::Continue,
            BridgeEvent::Broadcast(line) => BridgeAction::Transmit(line),
            BridgeEvent::Lagged(_) => BridgeAction::Continue,
            BridgeEvent::BroadcastClosed => BridgeAction::Continue,
        }
    }
}

} // verus!
