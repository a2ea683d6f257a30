//! The message kinds as types of their own, for code that handles one kind
//! at a time.
use vstd::prelude::*;

use crate::messages::{
    Broadcast, DiscoveryAcknowledgeData, DiscoveryRequestData, SolenoidUpdate, UpdateRequest,
};

verus! {

/// A payload type that stands for one kind of the catalog.
pub trait Message {
    /// The catalog entry that this value is.
    spec fn as_message(&self) -> crate::messages::Message;

    fn to_message(&self) -> (r: crate::messages::Message)
        ensures
            r == self.as_message(),
    ;
}

impl Message for Broadcast {
    open spec fn as_message(&self) -> crate::messages::Message {
        crate::messages::Message::Broadcast(*self)
    }

    fn to_message(&self) -> (r: crate::messages::Message) {
        crate::messages::Message::Broadcast(*self)
    }
}

impl Message for UpdateRequest {
    open spec fn as_message(&self) -> crate::messages::Message {
        crate::messages::Message::UpdateRequest(*self)
    }

    fn to_message(&self) -> (r: crate::messages::Message) {
        crate::messages::Message::UpdateRequest(*self)
    }
}

impl Message for SolenoidUpdate {
    open spec fn as_message(&self) -> crate::messages::Message {
        crate::messages::Message::SolenoidUpdate(*self)
    }

    fn to_message(&self) -> (r: crate::messages::Message) {
        crate::messages::Message::SolenoidUpdate(*self)
    }
}

impl Message for DiscoveryRequestData {
    open spec fn as_message(&self) -> crate::messages::Message {
        crate::messages::Message::DiscoveryRequest(*self)
    }

    fn to_message(&self) -> (r: crate::messages::Message) {
        crate::messages::Message::DiscoveryRequest(*self)
    }
}

impl Message for DiscoveryAcknowledgeData {
    open spec fn as_message(&self) -> crate::messages::Message {
        crate::messages::Message::DiscoveryAcknowledge(*self)
    }

    fn to_message(&self) -> (r: crate::messages::Message) {
        crate::messages::Message::DiscoveryAcknowledge(*self)
    }
}

/// What a slave handles once discovery is over: broadcasts and update requests.
#[derive(Debug, Clone, Copy, PartialEq, Eq)]
pub enum SlaveMessage {
    Broadcast(Broadcast),
    UpdateRequest(UpdateRequest),
}

impl SlaveMessage {
    /// The catalog entry that this message is.
    pub open spec fn as_message(self) -> crate::messages::Message {
        match self {
            SlaveMessage::Broadcast(b) => crate::messages::Message::Broadcast(b),
            SlaveMessage::UpdateRequest(u) => crate::messages::Message::UpdateRequest(u),
        }
    }

    /// The slave's message for a catalog entry; none for the other kinds.
    pub fn from_message(message: &crate::messages::Message) -> (r: Option<SlaveMessage>)
        ensures
            r is Some <==> (message is Broadcast || message is UpdateRequest),
            r matches Some(s) ==> s.as_message() == *message,
    {
        match message {
            crate::messages::Message::Broadcast(b) => Some(SlaveMessage::Broadcast(*b)),
            crate::messages::Message::UpdateRequest(u) => Some(SlaveMessage::UpdateRequest(*u)),
            _ => None,
        }
    }

    pub fn to_message(&self) -> (r: crate::messages::Message)
        ensures
            r == self.as_message(),
    {
        match self {
            SlaveMessage::Broadcast(b) => crate::messages::Message::Broadcast(*b),
            SlaveMessage::UpdateRequest(u) => crate::messages::Message::UpdateRequest(*u),
        }
    }
}

} // verus!
