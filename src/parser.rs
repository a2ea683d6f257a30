//! Frame assembly, one word at a time: the receiver collects one frame,
//! the parser filters on the local address and keeps the last decoded
//! message in a single-slot mailbox.
use vstd::prelude::*;
use vstd::slice::slice_subrange;

use crate::common::{Address, MAX_DATA_LEN, MAX_MESSAGE_LEN};
use crate::frame::frame_words;
use crate::messages::{
    decoded, encoding, lemma_decoded, lemma_message_round_trip, message_from_data, recognized, Message,
};
use crate::word::{address_word, data_word, low_byte, unpack, word_of, Word};

verus! {

/// The phases of a receiver.
#[derive(Debug, Clone, Copy, PartialEq, Eq, Structural)]
pub enum ReceiverState {
    /// No frame in progress.
    Idle,
    /// Collecting the bytes of a frame.
    Receiving,
    /// A whole frame is ready.
    Completed,
    /// The frame was malformed; only a new start leaves this state.
    Error,
}

/// What a receiver holds: its state, the declared length (zero until the
/// length byte has come) and the payload bytes received so far.
pub ghost struct ReceiverModel {
    pub state: ReceiverState,
    pub length: nat,
    pub data: Seq<u8>,
}

/// The receiver right after a matching address word.
pub open spec fn started() -> ReceiverModel {
    ReceiverModel { state: ReceiverState::Receiving, length: 0, data: Seq::empty() }
}

/// Whether the receiver takes the byte `b` (else it is dropped).
pub open spec fn accepts(m: ReceiverModel, b: u8) -> bool {
    &&& m.state == ReceiverState::Receiving
    &&& m.length == 0 ==> b <= MAX_MESSAGE_LEN
    &&& m.length != 0 ==> m.data.len() < MAX_DATA_LEN
}

/// The receiver after the byte `b`.
///
/// The first byte after a start is the declared length; one above
/// `MAX_MESSAGE_LEN` abandons the frame. The following bytes are collected
/// until the declared count is reached. A declared length that the buffer
/// cannot hold abandons the frame when the buffer is full. Outside
/// `Receiving` nothing changes.
pub open spec fn after_byte(m: ReceiverModel, b: u8) -> ReceiverModel {
    if m.state != ReceiverState::Receiving {
        m
    } else if m.length == 0 {
        if b > MAX_MESSAGE_LEN {
            ReceiverModel { state: ReceiverState::Error, ..m }
        } else {
            ReceiverModel {
                state: if b == 0 {
                    ReceiverState::Completed
                } else {
                    ReceiverState::Receiving
                },
                length: b as nat,
                data: Seq::empty(),
            }
        }
    } else if m.data.len() < MAX_DATA_LEN {
        ReceiverModel {
            state: if m.data.len() + 1 == m.length {
                ReceiverState::Completed
            } else {
                ReceiverState::Receiving
            },
            length: m.length,
            data: m.data.push(b),
        }
    } else {
        ReceiverModel { state: ReceiverState::Error, ..m }
    }
}

/// The bounds every receiver keeps.
pub open spec fn receiver_model_wf(m: ReceiverModel) -> bool {
    &&& m.length <= MAX_MESSAGE_LEN
    &&& m.data.len() <= MAX_DATA_LEN
    &&& m.data.len() <= m.length
    &&& m.state == ReceiverState::Receiving && m.length > 0 ==> m.data.len() < m.length
    &&& m.state == ReceiverState::Completed ==> m.data.len() == m.length
}

/// Assembles one frame at a time into a fixed buffer of `MAX_DATA_LEN` bytes.
pub struct Receiver {
    state: ReceiverState,
    buffer: [u8; MAX_DATA_LEN],
    data_length: u8,
    received: u8,
}

impl View for Receiver {
    type V = ReceiverModel;

    closed spec fn view(&self) -> ReceiverModel {
        ReceiverModel {
            state: self.state,
            length: self.data_length as nat,
            data: self.buffer@.subrange(0, self.received as int),
        }
    }
}

impl Receiver {
    pub closed spec fn wf(&self) -> bool {
        &&& self.received <= self.data_length
        &&& self.received <= MAX_DATA_LEN
        &&& receiver_model_wf(self@)
    }

    pub fn new() -> (r: Self)
        ensures
            r.wf(),
            r@ == (ReceiverModel { state: ReceiverState::Idle, length: 0, data: Seq::empty() }),
    {
        let r = Receiver { state: ReceiverState::Idle, buffer: [0; MAX_DATA_LEN], data_length: 0, received: 0 };
        assert(r@.data =~= Seq::<u8>::empty());
        r
    }

    pub fn is_complete(&self) -> (r: bool)
        ensures
            r == (self@.state == ReceiverState::Completed),
    {
        match self.state {
            ReceiverState::Completed => true,
            _ => false,
        }
    }

    pub fn state(&self) -> (r: ReceiverState)
        ensures
            r == self@.state,
    {
        self.state
    }

    fn reset(&mut self)
        ensures
            final(self).state == old(self).state,
            final(self).buffer == old(self).buffer,
            final(self).data_length == 0,
            final(self).received == 0,
    {
        self.data_length = 0;
        self.received = 0;
    }

    /// Begins a new frame, whatever the state; called for every address
    /// word that names the local device.
    pub fn start(&mut self)
        requires
            old(self).wf(),
        ensures
            final(self).wf(),
            final(self)@ == started(),
    {
        self.reset();
        self.state = ReceiverState::Receiving;
        assert(self@.data =~= Seq::<u8>::empty());
    }

    /// Feeds one byte; fails, and changes nothing, outside a frame.
    pub fn add_to_buffer(&mut self, data: u8) -> (r: Result<(), ()>)
        requires
            old(self).wf(),
        ensures
            final(self).wf(),
            final(self)@ == after_byte(old(self)@, data),
            r is Ok <==> accepts(old(self)@, data),
    {
        match self.state {
            ReceiverState::Receiving => {
                if self.data_length == 0 {
                    if data as usize > MAX_MESSAGE_LEN {
                        self.state = ReceiverState::Error;
                        return Err(());
                    }
                    self.data_length = data;
                    assert(self@.data =~= Seq::<u8>::empty());
                } else if (self.received as usize) < MAX_DATA_LEN {
                    let ghost before = self.buffer@;
                    self.buffer[self.received as usize] = data;
                    self.received = self.received + 1;
                    assert(self.buffer@.subrange(0, self.received as int) =~= before.subrange(
                        0,
                        self.received - 1,
                    ).push(data));
                } else {
                    self.state = ReceiverState::Error;
                    return Err(());
                }
            },
            _ => {
                return Err(());
            },
        }
        if self.received == self.data_length {
            self.state = ReceiverState::Completed;
        }
        Ok(())
    }

    /// The payload of the current frame: as many bytes as the declared
    /// length, cut to the buffer's `MAX_DATA_LEN`. The bytes received so far
    /// come first; on a completed frame they are all of it.
    pub fn data(&self) -> (r: &[u8])
        requires
            self.wf(),
        ensures
            r@.len() == if self@.length <= MAX_DATA_LEN {
                self@.length
            } else {
                MAX_DATA_LEN as nat
            },
            r@.subrange(0, self@.data.len() as int) == self@.data,
            self@.state == ReceiverState::Completed ==> r@ == self@.data,
    {
        let len: usize = if (self.data_length as usize) <= MAX_DATA_LEN {
            self.data_length as usize
        } else {
            MAX_DATA_LEN
        };
        let r = slice_subrange(self.buffer.as_slice(), 0, len);
        assert(r@.subrange(0, self.received as int) =~= self@.data);
        assert(self@.state == ReceiverState::Completed ==> r@ =~= self@.data);
        r
    }
}

/// What a parser holds: the local address, its receiver and its mailbox.
pub ghost struct ParserModel {
    pub address: Address,
    pub receiver: ReceiverModel,
    pub mailbox: Option<Message>,
}

/// The parser after the word `w`.
///
/// An address word naming the local device starts a frame; any other word
/// feeds its low byte to the receiver. When that word completes a frame whose
/// payload decodes, the message replaces whatever the mailbox held; a payload
/// that does not decode leaves the mailbox as it was.
pub open spec fn after_word(p: ParserModel, w: u16) -> ParserModel {
    let rx = if word_of(w) == Word::Address(p.address) {
        started()
    } else {
        after_byte(p.receiver, low_byte(w))
    };
    let completes = p.receiver.state != ReceiverState::Completed && rx.state
        == ReceiverState::Completed;
    ParserModel {
        address: p.address,
        receiver: rx,
        mailbox: if completes && recognized(rx.data) {
            Some(decoded(rx.data))
        } else {
            p.mailbox
        },
    }
}

/// Turns the words of the bus into messages for the local device.
pub struct Parser {
    address: Address,
    completed: Option<Message>,
    receiver: Receiver,
}

impl View for Parser {
    type V = ParserModel;

    closed spec fn view(&self) -> ParserModel {
        ParserModel { address: self.address, receiver: self.receiver@, mailbox: self.completed }
    }
}

impl Parser {
    pub closed spec fn wf(&self) -> bool {
        self.receiver.wf()
    }

    pub fn new(address: Address) -> (r: Self)
        ensures
            r.wf(),
            r@ == (ParserModel {
                address,
                receiver: ReceiverModel {
                    state: ReceiverState::Idle,
                    length: 0,
                    data: Seq::empty(),
                },
                mailbox: None,
            }),
    {
        Parser { address, completed: None, receiver: Receiver::new() }
    }

    pub fn address(&self) -> (r: Address)
        ensures
            r == self@.address,
    {
        self.address
    }

    /// The address that a word names, if its marker bit is set.
    fn is_address_byte(&self, address_data: u16) -> (r: Option<Address>)
        ensures
            r == (match word_of(address_data) {
                Word::Address(a) => Some(a),
                Word::Data(_) => None::<Address>,
            }),
    {
        match unpack(address_data) {
            Word::Address(a) => Some(a),
            Word::Data(_) => None,
        }
    }

    /// Takes one word from the bus.
    pub fn ingest(&mut self, data: u16)
        requires
            old(self).wf(),
        ensures
            final(self).wf(),
            final(self)@ == after_word(old(self)@, data),
    {
        let was_complete = self.receiver.is_complete();
        let address = self.is_address_byte(data);
        if address.is_some() && address.unwrap() == self.address {
            self.receiver.start();
        } else {
            assert(low_byte(data) == (data as u8)) by (bit_vector);
            let _ = self.receiver.add_to_buffer(data as u8);
        }
        if !was_complete && self.receiver.is_complete() {
            match message_from_data(self.receiver.data()) {
                Ok(msg) => {
                    proof {
                        lemma_decoded(self.receiver@.data, msg);
                    }
                    self.completed = Some(msg);
                },
                Err(_) => {},
            }
        }
    }

    /// Empties the mailbox and returns what it held.
    pub fn poll_message(&mut self) -> (r: Option<Message>)
        ensures
            r == old(self)@.mailbox,
            final(self)@ == (ParserModel { mailbox: None, ..old(self)@ }),
            final(self).wf() == old(self).wf(),
    {
        self.completed.take()
    }
}

/// The receiver after the bytes `bs`, in order.
pub open spec fn after_bytes(m: ReceiverModel, bs: Seq<u8>) -> ReceiverModel
    decreases bs.len(),
{
    if bs.len() == 0 {
        m
    } else {
        after_byte(after_bytes(m, bs.drop_last()), bs.last())
    }
}

/// The parser after the words `ws`, in order.
pub open spec fn after_words(p: ParserModel, ws: Seq<u16>) -> ParserModel
    decreases ws.len(),
{
    if ws.len() == 0 {
        p
    } else {
        after_word(after_words(p, ws.drop_last()), ws.last())
    }
}

/// A declared length above `MAX_MESSAGE_LEN` abandons the frame: the
/// receiver stays in `Error`, never complete, whatever bytes follow, until
/// the next start.
pub proof fn lemma_oversized_length_abandons(b: u8, rest: Seq<u8>)
    requires
        b > MAX_MESSAGE_LEN,
    ensures
        after_byte(started(), b).state == ReceiverState::Error,
        after_bytes(after_byte(started(), b), rest).state == ReceiverState::Error,
        receiver_model_wf(after_bytes(after_byte(started(), b), rest)),
    decreases rest.len(),
{
    if rest.len() > 0 {
        lemma_oversized_length_abandons(b, rest.drop_last());
    }
}

/// Words fed one batch after another act as the batches joined.
pub proof fn lemma_after_words_append(p: ParserModel, a: Seq<u16>, b: Seq<u16>)
    ensures
        after_words(p, a + b) == after_words(after_words(p, a), b),
    decreases b.len(),
{
    if b.len() > 0 {
        assert((a + b).drop_last() =~= a + b.drop_last());
        lemma_after_words_append(p, a, b.drop_last());
    } else {
        assert(a + b =~= a);
    }
}

/// The payload bytes of a frame, fed to a receiver that has read the
/// length byte, are collected one by one; the last completes the frame.
proof fn lemma_payload_prefix(p: ParserModel, payload: Seq<u8>, k: nat)
    requires
        p.receiver == (ReceiverModel {
            state: ReceiverState::Receiving,
            length: payload.len(),
            data: Seq::empty(),
        }),
        0 < payload.len() <= MAX_DATA_LEN,
        k <= payload.len(),
    ensures
        ({
            let q = after_words(p, payload.subrange(0, k as int).map_values(|b: u8| data_word(b)));
            &&& q.address == p.address
            &&& q.receiver == (ReceiverModel {
                state: if k == payload.len() {
                    ReceiverState::Completed
                } else {
                    ReceiverState::Receiving
                },
                length: payload.len(),
                data: payload.subrange(0, k as int),
            })
            &&& q.mailbox == if k == payload.len() && recognized(payload) {
                Some(decoded(payload))
            } else {
                p.mailbox
            }
        }),
    decreases k,
{
    let ws = payload.subrange(0, k as int).map_values(|b: u8| data_word(b));
    if k == 0 {
        assert(ws.len() == 0);
        assert(payload.subrange(0, 0) =~= Seq::<u8>::empty());
    } else {
        let prev = payload.subrange(0, k - 1).map_values(|b: u8| data_word(b));
        assert(ws.drop_last() =~= prev);
        lemma_payload_prefix(p, payload, (k - 1) as nat);
        let w = ws.last();
        assert(w == data_word(payload[k - 1]));
        assert(word_of(w) == Word::Data(payload[k - 1]));
        assert(low_byte(w) == payload[k - 1]);
        assert(payload.subrange(0, k - 1).push(payload[k - 1]) =~= payload.subrange(0, k as int));
        assert(payload.subrange(0, payload.len() as int) =~= payload);
    }
}

/// A frame addressed to the parser's own device, whatever state it was in,
/// leaves the receiver complete with exactly the frame's payload; a payload
/// that decodes lands in the mailbox, replacing what it held.
pub proof fn lemma_frame_delivered(p: ParserModel, payload: Seq<u8>)
    requires
        payload.len() <= MAX_DATA_LEN,
    ensures
        ({
            let q = after_words(p, frame_words(p.address, payload));
            &&& q.address == p.address
            &&& q.receiver == (ReceiverModel {
                state: ReceiverState::Completed,
                length: payload.len(),
                data: payload,
            })
            &&& q.mailbox == if recognized(payload) {
                Some(decoded(payload))
            } else {
                p.mailbox
            }
        }),
{
    let aw = address_word(p.address);
    let lw = data_word(payload.len() as u8);
    let body = payload.map_values(|b: u8| data_word(b));
    let head = seq![aw, lw];
    assert(frame_words(p.address, payload) == head + body);
    lemma_after_words_append(p, head, body);
    assert(head.drop_last() =~= seq![aw]);
    assert(seq![aw].drop_last() =~= Seq::<u16>::empty());
    assert(word_of(aw) == Word::Address(p.address));
    assert(word_of(lw) == Word::Data(payload.len() as u8));
    assert(low_byte(lw) == payload.len());
    let p0 = after_word(p, aw);
    assert(after_words(p, seq![aw]) == after_word(after_words(p, Seq::<u16>::empty()), aw));
    assert(after_words(p, seq![aw]) == p0);
    assert(after_words(p, head) == after_word(after_words(p, seq![aw]), lw));
    let p1 = after_words(p, head);
    assert(p0.receiver == started());
    assert(p1 == after_word(p0, lw));
    assert(p1.receiver == after_byte(started(), payload.len() as u8));
    assert(p1.mailbox == p.mailbox);
    if payload.len() == 0 {
        assert(body.len() == 0);
        assert(payload =~= Seq::<u8>::empty());
    } else {
        assert(payload.subrange(0, payload.len() as int) =~= payload);
        lemma_payload_prefix(p1, payload, payload.len());
    }
}

/// Every word of a frame addressed to the parser's own device but the last
/// leaves the mailbox as it was; only the last word can fill it.
pub proof fn lemma_frame_prefix_silent(p: ParserModel, payload: Seq<u8>, k: int)
    requires
        payload.len() <= MAX_DATA_LEN,
        0 <= k < frame_words(p.address, payload).len(),
    ensures
        after_words(p, frame_words(p.address, payload).subrange(0, k)).mailbox == p.mailbox,
{
    let aw = address_word(p.address);
    let lw = data_word(payload.len() as u8);
    let fw = frame_words(p.address, payload);
    assert(word_of(aw) == Word::Address(p.address));
    assert(word_of(lw) == Word::Data(payload.len() as u8));
    assert(low_byte(lw) == payload.len());
    let p0 = after_word(p, aw);
    assert(p0.receiver == started());
    if k == 0 {
        assert(fw.subrange(0, 0) =~= Seq::<u16>::empty());
    } else if k == 1 {
        assert(fw.subrange(0, 1) =~= seq![aw]);
        assert(seq![aw].drop_last() =~= Seq::<u16>::empty());
        assert(after_words(p, seq![aw]) == after_word(after_words(p, Seq::<u16>::empty()), aw));
    } else {
        let head = seq![aw, lw];
        assert(head.drop_last() =~= seq![aw]);
        assert(seq![aw].drop_last() =~= Seq::<u16>::empty());
        assert(after_words(p, seq![aw]) == after_word(after_words(p, Seq::<u16>::empty()), aw));
        assert(after_words(p, head) == after_word(after_words(p, seq![aw]), lw));
        let p1 = after_words(p, head);
        assert(p1.receiver == after_byte(started(), payload.len() as u8));
        assert(p1.mailbox == p.mailbox);
        assert(payload.len() > 0);
        let m = (k - 2) as nat;
        let body = payload.subrange(0, m as int).map_values(|b: u8| data_word(b));
        assert(fw.subrange(0, k) =~= head + body);
        lemma_after_words_append(p, head, body);
        lemma_payload_prefix(p1, payload, m);
    }
}

/// Of two messages whose frames both complete before the mailbox is
/// emptied, only the later one is kept.
pub proof fn lemma_mailbox_keeps_latest(p: ParserModel, first: Message, second: Message)
    ensures
        after_words(
            p,
            frame_words(p.address, encoding(first)) + frame_words(p.address, encoding(second)),
        ).mailbox == Some(second),
{
    let f1 = frame_words(p.address, encoding(first));
    let f2 = frame_words(p.address, encoding(second));
    lemma_after_words_append(p, f1, f2);
    lemma_message_round_trip(first);
    lemma_message_round_trip(second);
    lemma_frame_delivered(p, encoding(first));
    let p1 = after_words(p, f1);
    lemma_frame_delivered(p1, encoding(second));
    lemma_decoded(encoding(second), second);
}

} // verus!
