use vstd::prelude::*;
use crate::router::IncomingMsg;

verus! {

/// What an engine produced when its phase completed.
pub enum PhaseOutcome {
    /// Serialized final output of the phase: a core key share, auxiliary
    /// info, or a signature, in the engine's own encoding.
    Success(Vec<u8>),
    /// The protocol terminated with an inner failure, described in text.
    Failure(String),
}

/// One cooperative-advancement signal of a round-based protocol engine.
pub enum EngineSignal {
    /// Emit a serialized protocol message to one party (`Some`) or to all
    /// parties (`None`), under a human-readable round label.
    Send { recipient: Option<u16>, payload: Vec<u8>, round_label: String },
    /// The engine needs one more incoming message before it can advance.
    NeedsMessage,
    /// An engine-internal computation step with no observable effect.
    Yielded,
    /// The engine terminated, successfully or with an inner failure.
    Finished(PhaseOutcome),
    /// The engine failed fatally while advancing.
    Fault(String),
}

/// How an engine took a message it was fed.
#[derive(Clone, Copy, Debug, PartialEq, Eq, Structural)]
pub enum ReceiveOutcome {
    /// The message was consumed.
    Accepted,
    /// The message body could not be deserialized; it is droppable transport
    /// noise, not an error.
    Malformed,
    /// The message was understood and refused; the whole drive aborts.
    Rejected,
}

/// The round-based state machine capability: the opaque protocol engine of
/// one phase, advanced cooperatively by the round driver. The cryptographic
/// engines of an application implement this interface outside the library;
/// nothing is assumed of their behaviour beyond the signals they return.
pub trait Engine {
    /// Ask the engine to advance one step.
    fn proceed(&mut self) -> EngineSignal;

    /// Hand one incoming message to the engine.
    fn receive(&mut self, msg: IncomingMsg) -> ReceiveOutcome;
}

/// A deterministic replay engine: it answers `proceed` with a fixed script of
/// signals and records every message it accepts. It stands in for a
/// cryptographic engine wherever a reproducible phase execution is needed,
/// e.g. when exercising the driver and the session executor.
pub struct ScriptedEngine {
    /// Signals still to be replayed, in order.
    pub script: Vec<EngineSignal>,
    /// Every message accepted so far, in the order it was fed.
    pub received: Vec<IncomingMsg>,
    /// Once the script is exhausted: terminate successfully with the given
    /// output after having accepted at least the given number of messages.
    pub finish_after: Option<(usize, Vec<u8>)>,
}

impl ScriptedEngine {
    /// A replay engine for the given script.
    pub fn new(script: Vec<EngineSignal>) -> (r: ScriptedEngine)
        ensures
            r.script@ == script@,
            r.received@.len() == 0,
            r.finish_after is None,
    {
        ScriptedEngine { script, received: Vec::new(), finish_after: None }
    }

    /// The messages accepted so far; what a protocol engine would have
    /// consumed.
    pub fn received_messages(&self) -> (r: &Vec<IncomingMsg>)
        ensures
            r@ == self.received@,
    {
        &self.received
    }
}

impl Engine for ScriptedEngine {
    /// Replays the next scripted signal. An exhausted script asks for more
    /// input, or terminates once enough messages were accepted.
    fn proceed(&mut self) -> EngineSignal {
        if self.script.len() > 0 {
            self.script.remove(0)
        } else {
            match &self.finish_after {
                Some((wanted, output)) => {
                    if self.received.len() >= *wanted {
                        EngineSignal::Finished(
                            PhaseOutcome::Success(crate::driver::copy_bytes(output)),
                        )
                    } else {
                        EngineSignal::NeedsMessage
                    }
                },
                None => EngineSignal::NeedsMessage,
            }
        }
    }

    /// An empty body is malformed noise; a body starting with 255 is
    /// refused; anything else is accepted and recorded.
    fn receive(&mut self, msg: IncomingMsg) -> ReceiveOutcome {
        if msg.payload.len() == 0 {
            ReceiveOutcome::Malformed
        } else if msg.payload[0] == 255 {
            ReceiveOutcome::Rejected
        } else {
            self.received.push(msg);
            ReceiveOutcome::Accepted
        }
    }
}

} // verus!
