//! The decisions of the discovery handshake, on each message that arrives
//! while a device waits.
//!
//! The master sends a discovery request to each known slave in turn and
//! waits for its acknowledgement. Messages other than acknowledgements are
//! ignored while it waits; an acknowledgement from another device ends
//! discovery with an error.
//!
//! A slave waits for a discovery request and answers it. It is strict: any
//! other message, a request naming another device included, ends its
//! discovery with an error.
use vstd::prelude::*;

use crate::common::Address;
use crate::messages::Message;
use crate::Error;

verus! {

/// What a waiting device does with a message.
#[derive(Debug, Clone, Copy, PartialEq, Eq, Structural)]
pub enum Verdict {
    /// The awaited message: this step of discovery succeeds.
    Accept,
    /// Not of interest: keep waiting.
    Ignore,
    /// Discovery fails with this error.
    Reject(Error),
}

/// The master's verdict on `message` while it waits for `expected` to acknowledge.
pub open spec fn ack_verdict(expected: Address, message: Message) -> Verdict {
    match message {
        Message::DiscoveryAcknowledge(d) => if d.address == expected {
            Verdict::Accept
        } else {
            Verdict::Reject(Error::InvalidDiscoveryAck)
        },
        _ => Verdict::Ignore,
    }
}

/// A slave's verdict, at address `own`, on `message` while it waits for a request.
pub open spec fn request_verdict(own: Address, message: Message) -> Verdict {
    match message {
        Message::DiscoveryRequest(d) => if d.address == own {
            Verdict::Accept
        } else {
            Verdict::Reject(Error::InvalidDiscoveryReq)
        },
        _ => Verdict::Reject(Error::InvalidDiscoveryReq),
    }
}

pub fn check_discovery_ack(expected: Address, message: &Message) -> (r: Verdict)
    ensures
        r == ack_verdict(expected, *message),
{
    match message {
        Message::DiscoveryAcknowledge(d) => {
            if d.responder_address() == expected {
                Verdict::Accept
            } else {
                Verdict::Reject(Error::InvalidDiscoveryAck)
            }
        },
        _ => Verdict::Ignore,
    }
}

pub fn check_discovery_request(own: Address, message: &Message) -> (r: Verdict)
    ensures
        r == request_verdict(own, *message),
{
    match message {
        Message::DiscoveryRequest(d) => {
            if d.target_address() == own {
                Verdict::Accept
            } else {
                Verdict::Reject(Error::InvalidDiscoveryReq)
            }
        },
        _ => Verdict::Reject(Error::InvalidDiscoveryReq),
    }
}

} // verus!
