use vstd::prelude::*;
use crate::key::ActorKey;

verus! {

/// The tag of an `ActorMessage`, without its payload.
#[derive(Clone, Copy, Debug, PartialEq, Eq, Hash, Structural)]
pub enum MessageKind {
    Empty,
    ActorDestroyed,
    ActorAddedToSystem,
    Created,
    Destroyed,
    Changed,
    Process,
}

/// A message handed to actors. `Process` carries the elapsed time of one
/// tick, in microseconds.
#[derive(Clone, Copy, Debug, PartialEq, Eq, Hash, Structural)]
pub enum ActorMessage {
    Empty,
    ActorDestroyed(ActorKey),
    ActorAddedToSystem(ActorKey),
    Created,
    Destroyed,
    Changed,
    Process(u64),
}

pub open spec fn kind_of(m: ActorMessage) -> MessageKind {
    match m {
        ActorMessage::Empty => MessageKind::Empty,
        ActorMessage::ActorDestroyed(_) => MessageKind::ActorDestroyed,
        ActorMessage::ActorAddedToSystem(_) => MessageKind::ActorAddedToSystem,
        ActorMessage::Created => MessageKind::Created,
        ActorMessage::Destroyed => MessageKind::Destroyed,
        ActorMessage::Changed => MessageKind::Changed,
        ActorMessage::Process(_) => MessageKind::Process,
    }
}

impl ActorMessage {
    /// The message's tag; the payload plays no part.
    pub fn kind(&self) -> (r: MessageKind)
        ensures
            r == kind_of(*self),
    {
        match self {
            ActorMessage::Empty => MessageKind::Empty,
            ActorMessage::ActorDestroyed(_) => MessageKind::ActorDestroyed,
            ActorMessage::ActorAddedToSystem(_) => MessageKind::ActorAddedToSystem,
            ActorMessage::Created => MessageKind::Created,
            ActorMessage::Destroyed => MessageKind::Destroyed,
            ActorMessage::Changed => MessageKind::Changed,
            ActorMessage::Process(_) => MessageKind::Process,
        }
    }
}

} // verus!
