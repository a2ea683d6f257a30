//! The closed catalog of messages and their binary layout: a one-byte
//! discriminant, then a fixed body, multi-byte fields little-endian.
use vstd::prelude::*;
use vstd::slice::slice_subrange;

use crate::common::{Address, MAX_DATA_LEN};
use crate::Error;

verus! {

/// Wire discriminant of a broadcast.
pub const BROADCAST_ID: u8 = 0;
/// Wire discriminant of a discovery request.
pub const DISCOVERY_REQUEST_ID: u8 = 1;
/// Wire discriminant of a discovery acknowledgement.
pub const DISCOVERY_ACK_ID: u8 = 2;
/// Wire discriminant of an update request.
pub const UPDATE_REQUEST_ID: u8 = 3;
/// Wire discriminant of a solenoid update.
pub const SOLENOID_UPDATE_ID: u8 = 4;

/// Number of opaque bytes a broadcast carries.
pub const BROADCAST_LEN: usize = 10;

/// Number of input flags of a solenoid update (bits 0 to 11).
pub const SOLENOID_INPUTS: u32 = 12;
/// Number of output flags of a solenoid update (bits 12 to 18).
pub const SOLENOID_OUTPUTS: u32 = 7;

/// Ten opaque bytes sent to every slave.
#[derive(Debug, Clone, Copy, PartialEq, Eq)]
pub struct Broadcast {
    pub data: [u8; BROADCAST_LEN],
}

/// A request for a slave's state, carrying one opaque 32-bit value.
#[derive(Debug, Clone, Copy, PartialEq, Eq, Structural)]
pub struct UpdateRequest {
    pub value: u32,
}

/// Input and output flags packed into 32 bits: bits 0 to 11 are the inputs,
/// bits 12 to 18 the outputs; the remaining bits are reserved and kept.
#[derive(Debug, Clone, Copy, PartialEq, Eq, Structural)]
pub struct SolenoidUpdate {
    pub bits: u32,
}

/// Asks the slave at `address` to answer the discovery handshake.
#[derive(Debug, Clone, Copy, PartialEq, Eq, Structural)]
pub struct DiscoveryRequestData {
    pub address: Address,
}

/// Answers a discovery request; `address` is the responding slave.
#[derive(Debug, Clone, Copy, PartialEq, Eq, Structural)]
pub struct DiscoveryAcknowledgeData {
    pub address: Address,
}

/// Every message the stack exchanges.
#[derive(Debug, Clone, Copy, PartialEq, Eq)]
pub enum Message {
    Broadcast(Broadcast),
    DiscoveryRequest(DiscoveryRequestData),
    DiscoveryAcknowledge(DiscoveryAcknowledgeData),
    UpdateRequest(UpdateRequest),
    SolenoidUpdate(SolenoidUpdate),
}

impl Broadcast {
    pub fn new(data: [u8; BROADCAST_LEN]) -> (r: Self)
        ensures
            r.data == data,
    {
        Broadcast { data }
    }
}

impl UpdateRequest {
    pub fn new(value: u32) -> (r: Self)
        ensures
            r.value == value,
    {
        UpdateRequest { value }
    }
}

impl SolenoidUpdate {
    /// Packs twelve input flags and seven output flags; the reserved bits are zero.
    pub fn new(inputs: u16, outputs: u8) -> (r: Self)
        requires
            inputs < 0x1000,
            outputs < 0x80,
        ensures
            r.bits == inputs + outputs * 0x1000,
    {
        SolenoidUpdate { bits: inputs as u32 + outputs as u32 * 0x1000 }
    }

    /// Takes all 32 bits as they are, reserved bits included.
    pub fn from_bits(bits: u32) -> (r: Self)
        ensures
            r.bits == bits,
    {
        SolenoidUpdate { bits }
    }

    pub fn bits(&self) -> (r: u32)
        ensures
            r == self.bits,
    {
        self.bits
    }

    /// The input flags, bits 0 to 11.
    pub fn inputs(&self) -> (r: u16)
        ensures
            r == self.bits % 0x1000,
    {
        (self.bits % 0x1000) as u16
    }

    /// The output flags, bits 12 to 18.
    pub fn outputs(&self) -> (r: u8)
        ensures
            r == self.bits / 0x1000 % 0x80,
    {
        (self.bits / 0x1000 % 0x80) as u8
    }
}

impl DiscoveryRequestData {
    pub fn new(target_address: Address) -> (r: Self)
        ensures
            r.address == target_address,
    {
        DiscoveryRequestData { address: target_address }
    }

    pub fn target_address(&self) -> (r: Address)
        ensures
            r == self.address,
    {
        self.address
    }

    /// Reads the body of a discovery request: its first byte is the target.
    pub fn from_slice(data: &[u8]) -> (r: Result<Self, ()>)
        ensures
            r is Ok <==> data@.len() >= 1,
            r matches Ok(d) ==> d.address == data@[0],
    {
        if data.len() >= 1 {
            return Ok(DiscoveryRequestData { address: data[0] });
        }
        Err(())
    }

    pub fn to_array(&self) -> (r: [u8; 1])
        ensures
            r@ == seq![self.address],
    {
        let r: [u8; 1] = [self.address];
        assert(r@ =~= seq![self.address]);
        r
    }
}

impl DiscoveryAcknowledgeData {
    pub fn new(responder_address: Address) -> (r: Self)
        ensures
            r.address == responder_address,
    {
        DiscoveryAcknowledgeData { address: responder_address }
    }

    pub fn responder_address(&self) -> (r: Address)
        ensures
            r == self.address,
    {
        self.address
    }

    /// Reads the body of a discovery acknowledgement: its first byte is the responder.
    pub fn from_slice(data: &[u8]) -> (r: Result<Self, ()>)
        ensures
            r is Ok <==> data@.len() >= 1,
            r matches Ok(d) ==> d.address == data@[0],
    {
        if data.len() >= 1 {
            return Ok(DiscoveryAcknowledgeData { address: data[0] });
        }
        Err(())
    }

    pub fn to_array(&self) -> (r: [u8; 1])
        ensures
            r@ == seq![self.address],
    {
        let r: [u8; 1] = [self.address];
        assert(r@ =~= seq![self.address]);
        r
    }
}

/// The four little-endian bytes of `v`.
pub open spec fn le_bytes(v: u32) -> Seq<u8> {
    seq![
        (v % 0x100) as u8,
        (v / 0x100 % 0x100) as u8,
        (v / 0x10000 % 0x100) as u8,
        (v / 0x1000000) as u8,
    ]
}

/// The value of four little-endian bytes starting at `at`.
pub open spec fn le_value(s: Seq<u8>, at: int) -> int {
    s[at] + s[at + 1] * 0x100 + s[at + 2] * 0x10000 + s[at + 3] * 0x1000000
}

/// The wire discriminant of each kind.
pub open spec fn message_id(m: Message) -> u8 {
    match m {
        Message::Broadcast(_) => BROADCAST_ID,
        Message::DiscoveryRequest(_) => DISCOVERY_REQUEST_ID,
        Message::DiscoveryAcknowledge(_) => DISCOVERY_ACK_ID,
        Message::UpdateRequest(_) => UPDATE_REQUEST_ID,
        Message::SolenoidUpdate(_) => SOLENOID_UPDATE_ID,
    }
}

/// The length of the body that follows a discriminant, for the known ones.
pub open spec fn body_len(id: u8) -> Option<nat> {
    if id == BROADCAST_ID {
        Some(BROADCAST_LEN as nat)
    } else if id == DISCOVERY_REQUEST_ID || id == DISCOVERY_ACK_ID {
        Some(1)
    } else if id == UPDATE_REQUEST_ID || id == SOLENOID_UPDATE_ID {
        Some(4)
    } else {
        None
    }
}

/// The encoding of a message: its discriminant, then its body.
///
/// Discovery requests and acknowledgements carry one address byte: the
/// target of a request, the responder of an acknowledgement. A frame's
/// address word names only its destination, so the master could not tell
/// which slave answered without it.
pub open spec fn encoding(m: Message) -> Seq<u8> {
    match m {
        Message::Broadcast(b) => seq![BROADCAST_ID] + b.data@,
        Message::DiscoveryRequest(d) => seq![DISCOVERY_REQUEST_ID, d.address],
        Message::DiscoveryAcknowledge(d) => seq![DISCOVERY_ACK_ID, d.address],
        Message::UpdateRequest(u) => seq![UPDATE_REQUEST_ID] + le_bytes(u.value),
        Message::SolenoidUpdate(s) => seq![SOLENOID_UPDATE_ID] + le_bytes(s.bits),
    }
}

/// Whether `s` starts with a known discriminant followed by a complete body.
pub open spec fn recognized(s: Seq<u8>) -> bool {
    &&& s.len() >= 1
    &&& body_len(s[0]) matches Some(n)
    &&& s.len() >= 1 + n
}

/// Whether `m` is what the bytes `s` decode to; bytes after the body are ignored.
pub open spec fn decodes_to(s: Seq<u8>, m: Message) -> bool {
    &&& recognized(s)
    &&& s[0] == message_id(m)
    &&& match m {
        Message::Broadcast(b) => b.data@ == s.subrange(1, 1 + BROADCAST_LEN as int),
        Message::DiscoveryRequest(d) => d.address == s[1],
        Message::DiscoveryAcknowledge(d) => d.address == s[1],
        Message::UpdateRequest(u) => u.value == le_value(s, 1),
        Message::SolenoidUpdate(x) => x.bits == le_value(s, 1),
    }
}

pub fn get_message_id(message: &Message) -> (r: u8)
    ensures
        r == message_id(*message),
{
    match message {
        Message::Broadcast(_) => BROADCAST_ID,
        Message::DiscoveryRequest(_) => DISCOVERY_REQUEST_ID,
        Message::DiscoveryAcknowledge(_) => DISCOVERY_ACK_ID,
        Message::UpdateRequest(_) => UPDATE_REQUEST_ID,
        Message::SolenoidUpdate(_) => SOLENOID_UPDATE_ID,
    }
}

/// Reads the little-endian 32-bit value that starts at `at`.
fn read_u32_le(data: &[u8], at: usize) -> (r: u32)
    requires
        at + 4 <= data@.len(),
    ensures
        r == le_value(data@, at as int),
{
    data[at] as u32 + data[at + 1] as u32 * 0x100 + data[at + 2] as u32 * 0x10000 + data[at + 3] as u32
        * 0x1000000
}

/// Writes the little-endian bytes of `v` from `at` on, leaving the rest of `buf` as it was.
fn write_u32_le(buf: &mut [u8; MAX_DATA_LEN], at: usize, v: u32)
    requires
        at + 4 <= MAX_DATA_LEN,
    ensures
        final(buf)@ == old(buf)@.subrange(0, at as int) + le_bytes(v) + old(buf)@.subrange(
            at + 4,
            MAX_DATA_LEN as int,
        ),
{
    buf[at] = (v % 0x100) as u8;
    buf[at + 1] = (v / 0x100 % 0x100) as u8;
    buf[at + 2] = (v / 0x10000 % 0x100) as u8;
    buf[at + 3] = (v / 0x1000000) as u8;
    assert(final(buf)@ =~= old(buf)@.subrange(0, at as int) + le_bytes(v) + old(buf)@.subrange(
        at + 4,
        MAX_DATA_LEN as int,
    ));
}

/// Decodes a payload: validates the discriminant, then reads the body of its
/// kind; bytes after the body are ignored.
pub fn message_from_data(data: &[u8]) -> (r: Result<Message, Error>)
    ensures
        r is Ok <==> recognized(data@),
        r matches Ok(m) ==> decodes_to(data@, m),
        r is Err ==> r == Err::<Message, Error>(Error::UnrecognizedMessage),
{
    if data.len() == 0 {
        return Err(Error::UnrecognizedMessage);
    }
    let id = data[0];
    if id == BROADCAST_ID {
        if data.len() < 1 + BROADCAST_LEN {
            return Err(Error::UnrecognizedMessage);
        }
        let mut bytes = [0u8; BROADCAST_LEN];
        let mut i: usize = 0;
        while i < BROADCAST_LEN
            invariant
                0 <= i <= BROADCAST_LEN,
                data@.len() >= 1 + BROADCAST_LEN,
                forall|j: int| 0 <= j < i ==> bytes@[j] == data@[1 + j],
            decreases BROADCAST_LEN - i,
        {
            bytes[i] = data[1 + i];
            i = i + 1;
        }
        assert(bytes@ =~= data@.subrange(1, 1 + BROADCAST_LEN as int));
        Ok(Message::Broadcast(Broadcast::new(bytes)))
    } else if id == DISCOVERY_REQUEST_ID {
        match DiscoveryRequestData::from_slice(slice_subrange(data, 1, data.len())) {
            Ok(d) => Ok(Message::DiscoveryRequest(d)),
            Err(_) => Err(Error::UnrecognizedMessage),
        }
    } else if id == DISCOVERY_ACK_ID {
        match DiscoveryAcknowledgeData::from_slice(slice_subrange(data, 1, data.len())) {
            Ok(d) => Ok(Message::DiscoveryAcknowledge(d)),
            Err(_) => Err(Error::UnrecognizedMessage),
        }
    } else if id == UPDATE_REQUEST_ID {
        if data.len() < 5 {
            return Err(Error::UnrecognizedMessage);
        }
        Ok(Message::UpdateRequest(UpdateRequest::new(read_u32_le(data, 1))))
    } else if id == SOLENOID_UPDATE_ID {
        if data.len() < 5 {
            return Err(Error::UnrecognizedMessage);
        }
        Ok(Message::SolenoidUpdate(SolenoidUpdate::from_bits(read_u32_le(data, 1))))
    } else {
        Err(Error::UnrecognizedMessage)
    }
}

/// Encodes a message at the start of `buf` and returns the number of bytes
/// written; the bytes after them are left as they were.
pub fn data_from_message(message: &Message, buf: &mut [u8; MAX_DATA_LEN]) -> (r: Result<
    usize,
    Error,
>)
    ensures
        r == Ok::<usize, Error>(encoding(*message).len() as usize),
        final(buf)@ == encoding(*message) + old(buf)@.subrange(
            encoding(*message).len() as int,
            MAX_DATA_LEN as int,
        ),
{
    buf[0] = get_message_id(message);
    let len: usize = match message {
        Message::Broadcast(b) => {
            let mut i: usize = 0;
            while i < BROADCAST_LEN
                invariant
                    0 <= i <= BROADCAST_LEN,
                    buf@[0] == BROADCAST_ID,
                    forall|j: int| 1 <= j < 1 + i ==> buf@[j] == b.data@[j - 1],
                    forall|j: int| 1 + i <= j < MAX_DATA_LEN ==> buf@[j] == old(buf)@[j],
                decreases BROADCAST_LEN - i,
            {
                buf[1 + i] = b.data[i];
                i = i + 1;
            }
            1 + BROADCAST_LEN
        },
        Message::DiscoveryRequest(d) => {
            let body = d.to_array();
            buf[1] = body[0];
            2
        },
        Message::DiscoveryAcknowledge(d) => {
            let body = d.to_array();
            buf[1] = body[0];
            2
        },
        Message::UpdateRequest(u) => {
            write_u32_le(buf, 1, u.value);
            5
        },
        Message::SolenoidUpdate(s) => {
            write_u32_le(buf, 1, s.bits);
            5
        },
    };
    assert(final(buf)@ =~= encoding(*message) + old(buf)@.subrange(len as int, MAX_DATA_LEN as int));
    Ok(len)
}

/// Four little-endian bytes read back give the value they were made from.
pub proof fn lemma_le_round_trip(v: u32)
    ensures
        le_value(seq![0u8] + le_bytes(v), 1) == v,
{
    let s = seq![0u8] + le_bytes(v);
    assert(s[1] == v % 0x100);
    assert(s[2] == v / 0x100 % 0x100);
    assert(s[3] == v / 0x10000 % 0x100);
    assert(s[4] == v / 0x1000000);
    assert(v % 0x100 + (v / 0x100 % 0x100) * 0x100 + (v / 0x10000 % 0x100) * 0x10000 + (v
        / 0x1000000) * 0x1000000 == v) by (nonlinear_arith);
}

/// The message that the recognized bytes `s` decode to.
pub open spec fn decoded(s: Seq<u8>) -> Message {
    choose|m: Message| decodes_to(s, m)
}

/// Bytes decode to at most one message.
pub proof fn lemma_decodes_to_unique(s: Seq<u8>, a: Message, b: Message)
    requires
        decodes_to(s, a),
        decodes_to(s, b),
    ensures
        a == b,
{
    if let Message::Broadcast(x) = a {
        if let Message::Broadcast(y) = b {
            assert(x.data@ =~= y.data@);
            assert(x.data == y.data);
        }
    }
}

/// A message that bytes decode to is the one `decoded` names.
pub proof fn lemma_decoded(s: Seq<u8>, m: Message)
    requires
        decodes_to(s, m),
    ensures
        decoded(s) == m,
{
    lemma_decodes_to_unique(s, decoded(s), m);
}

/// Decoding the encoding of any message gives back that message and no other.
pub proof fn lemma_message_round_trip(m: Message)
    ensures
        recognized(encoding(m)),
        decodes_to(encoding(m), m),
        forall|other: Message| decodes_to(encoding(m), other) ==> other == m,
{
    let s = encoding(m);
    match m {
        Message::Broadcast(b) => {
            assert(s.subrange(1, 1 + BROADCAST_LEN as int) =~= b.data@);
            assert forall|other: Message| decodes_to(s, other) implies other == m by {
                if let Message::Broadcast(ob) = other {
                    assert(ob.data@ =~= b.data@);
                    assert(ob.data == b.data);
                }
            }
        },
        Message::UpdateRequest(u) => {
            lemma_le_round_trip(u.value);
        },
        Message::SolenoidUpdate(x) => {
            lemma_le_round_trip(x.bits);
        },
        _ => {},
    }
}

} // verus!
