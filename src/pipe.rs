//! The decisions of the relay that moves frames from a subscriber's channel
//! to its outbound stream. The relay itself waits on both ends; each time
//! something happens it asks `pipe_step` what to do next.
use vstd::prelude::*;

verus! {

/// Whether the relay is still moving frames.
#[derive(Clone, Copy, Debug, PartialEq, Eq, Structural)]
pub enum PipeState {
    Relaying,
    Finished,
}

/// What the relay observed.
#[derive(Clone, Copy, Debug, PartialEq, Eq, Structural)]
pub enum PipeEvent {
    /// A frame came out of the subscriber's channel.
    Received,
    /// The subscriber's channel is empty and closed.
    SourceEnded,
    /// Writing a frame to the outbound stream failed.
    SendFailed,
}

/// What the relay does next.
#[derive(Clone, Copy, Debug, PartialEq, Eq, Structural)]
pub enum PipeAction {
    /// Write the frame to the outbound stream and wait for the next one.
    Forward,
    /// Stop relaying; nothing is left to close.
    Stop,
    /// Close the channel and the outbound stream, and stop relaying.
    CloseBoth,
}

/// A relay forwards frames until its source ends or a write fails; a failed
/// write closes both ends, and a finished relay does nothing more.
pub open spec fn pipe_next(state: PipeState, event: PipeEvent) -> (PipeState, PipeAction) {
    match state {
        PipeState::Finished => (PipeState::Finished, PipeAction::Stop),
        PipeState::Relaying => match event {
            PipeEvent::Received => (PipeState::Relaying, PipeAction::Forward),
            PipeEvent::SourceEnded => (PipeState::Finished, PipeAction::Stop),
            PipeEvent::SendFailed => (PipeState::Finished, PipeAction::CloseBoth),
        },
    }
}

pub fn pipe_step(state: PipeState, event: PipeEvent) -> (r: (PipeState, PipeAction))
    ensures
        r == pipe_next(state, event),
{
    match state {
        PipeState::Finished => (PipeState::Finished, PipeAction::Stop),
        PipeState::Relaying => match event {
            PipeEvent::Received => (PipeState::Relaying, PipeAction::Forward),
            PipeEvent::SourceEnded => (PipeState::Finished, PipeAction::Stop),
            PipeEvent::SendFailed => (PipeState::Finished, PipeAction::CloseBoth),
        },
    }
}

} // verus!
