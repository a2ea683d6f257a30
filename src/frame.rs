//! Framing: an address word, a length byte, then the payload bytes, each
//! byte a word with the marker bit clear.
use vstd::prelude::*;
use vstd::slice::slice_subrange;

use crate::common::{Address, MASTER_ADDRESS, MAX_DATA_LEN, MAX_MESSAGE_LEN};
use crate::word::{address_word, data_word, has_marker, low_byte, pack_address, pack_data, unpack, Word};
use crate::Error;

verus! {

/// The words of a frame that carries `payload` to `target`.
pub open spec fn frame_words(target: Address, payload: Seq<u8>) -> Seq<u16> {
    seq![address_word(target), data_word(payload.len() as u8)] + payload.map_values(
        |b: u8| data_word(b),
    )
}

/// The address and payload of the frame at the start of `words`, if one is
/// there: an address word, a length byte of at most `MAX_DATA_LEN`, then that
/// many payload bytes. Words after the frame are ignored.
pub open spec fn frame_of(words: Seq<u16>) -> Option<(Address, Seq<u8>)> {
    if words.len() >= 2 && has_marker(words[0]) && !has_marker(words[1]) && low_byte(words[1])
        <= MAX_DATA_LEN && words.len() >= 2 + low_byte(words[1]) && forall|i: int|
        2 <= i < 2 + low_byte(words[1]) ==> !has_marker(#[trigger] words[i]) {
        Some(
            (
                low_byte(words[0]),
                words.subrange(2, 2 + low_byte(words[1])).map_values(|w: u16| low_byte(w)),
            ),
        )
    } else {
        None
    }
}

/// The words of one frame, in a fixed buffer of `MAX_MESSAGE_LEN` words.
#[derive(Debug, Clone, Copy)]
pub struct Frame {
    words: [u16; MAX_MESSAGE_LEN],
    len: usize,
}

impl View for Frame {
    type V = Seq<u16>;

    closed spec fn view(&self) -> Seq<u16> {
        self.words@.subrange(0, self.len as int)
    }
}

impl Frame {
    pub closed spec fn wf(&self) -> bool {
        self.len <= MAX_MESSAGE_LEN
    }

    /// The words, in the order they go on the wire.
    pub fn as_slice(&self) -> (r: &[u16])
        requires
            self.wf(),
        ensures
            r@ == self@,
    {
        slice_subrange(self.words.as_slice(), 0, self.len)
    }

    pub fn len(&self) -> (r: usize)
        requires
            self.wf(),
        ensures
            r == self@.len(),
    {
        self.len
    }
}

/// Builds the words of a frame that carries `payload` to `target`.
pub fn encode_frame(target: Address, payload: &[u8]) -> (r: Result<Frame, Error>)
    ensures
        r is Err <==> payload@.len() > MAX_DATA_LEN,
        r is Err ==> r == Err::<Frame, Error>(Error::FrameTooLong),
        r matches Ok(f) ==> f.wf() && f@ == frame_words(target, payload@),
{
    if payload.len() > MAX_DATA_LEN {
        return Err(Error::FrameTooLong);
    }
    let mut words = [0u16; MAX_MESSAGE_LEN];
    words[0] = pack_address(target);
    words[1] = pack_data(payload.len() as u8);
    let mut i: usize = 0;
    while i < payload.len()
        invariant
            0 <= i <= payload@.len() <= MAX_DATA_LEN,
            words@[0] == address_word(target),
            words@[1] == data_word(payload@.len() as u8),
            forall|j: int| 0 <= j < i ==> words@[2 + j] == data_word(payload@[j]),
        decreases payload@.len() - i,
    {
        words[2 + i] = pack_data(payload[i]);
        i = i + 1;
    }
    let frame = Frame { words, len: 2 + payload.len() };
    assert(frame@ =~= frame_words(target, payload@));
    Ok(frame)
}

/// Frame-level wrapping for one device: the master at `MASTER_ADDRESS`, or a
/// slave at its own address. In loopback mode a device may address itself,
/// which only self-tests need.
#[derive(Debug, Clone, Copy, PartialEq, Eq, Structural)]
pub struct Transport {
    pub address: Address,
    pub loopback: bool,
}

impl Transport {
    /// The transport of the device at `address`: the master's if the
    /// address is `MASTER_ADDRESS`, else a slave's.
    pub fn new(address: Address) -> (r: Self)
        ensures
            r == (Transport { address, loopback: false }),
    {
        if address == MASTER_ADDRESS {
            Transport::new_master()
        } else {
            Transport::new_slave(address)
        }
    }

    pub fn new_master() -> (r: Self)
        ensures
            r == (Transport { address: MASTER_ADDRESS, loopback: false }),
    {
        Transport { address: MASTER_ADDRESS, loopback: false }
    }

    pub fn new_slave(address: Address) -> (r: Self)
        ensures
            r == (Transport { address, loopback: false }),
    {
        Transport { address, loopback: false }
    }

    pub fn new_loopback(address: Address) -> (r: Self)
        ensures
            r == (Transport { address, loopback: true }),
    {
        Transport { address, loopback: true }
    }

    /// Whether this device may not send to `target`.
    pub open spec fn sends_to_self(&self, target: Address) -> bool {
        !self.loopback && target == self.address
    }

    /// The words that carry `payload` to `target`; a frame to the device
    /// itself is refused first, then a payload longer than `MAX_DATA_LEN`.
    pub fn send(&self, target: Address, payload: &[u8]) -> (r: Result<Frame, Error>)
        ensures
            self.sends_to_self(target) ==> r == Err::<Frame, Error>(Error::SendToSelf),
            !self.sends_to_self(target) && payload@.len() > MAX_DATA_LEN ==> r == Err::<
                Frame,
                Error,
            >(Error::FrameTooLong),
            r is Ok <==> !self.sends_to_self(target) && payload@.len() <= MAX_DATA_LEN,
            r matches Ok(f) ==> f.wf() && f@ == frame_words(target, payload@),
    {
        if !self.loopback && target == self.address {
            return Err(Error::SendToSelf);
        }
        encode_frame(target, payload)
    }
}

/// Reads the frame at the start of `words`: its address and its payload.
pub fn decode_frame(words: &[u16]) -> (r: Result<(Address, Vec<u8>), Error>)
    ensures
        r is Ok <==> frame_of(words@) is Some,
        r matches Ok((a, p)) ==> frame_of(words@) == Some((a, p@)),
        r is Err ==> r == Err::<(Address, Vec<u8>), Error>(Error::Truncated),
{
    if words.len() < 2 {
        return Err(Error::Truncated);
    }
    let head = unpack(words[0]);
    let len_word = unpack(words[1]);
    let (target, len) = match (head, len_word) {
        (Word::Address(a), Word::Data(n)) => (a, n),
        _ => {
            return Err(Error::Truncated);
        },
    };
    if len as usize > MAX_DATA_LEN || words.len() < 2 + len as usize {
        return Err(Error::Truncated);
    }
    let mut payload: Vec<u8> = Vec::with_capacity(len as usize);
    let mut i: usize = 0;
    while i < len as usize
        invariant
            0 <= i <= len <= MAX_DATA_LEN,
            words@.len() >= 2 + len,
            has_marker(words@[0]),
            !has_marker(words@[1]),
            low_byte(words@[1]) == len,
            low_byte(words@[0]) == target,
            payload@.len() == i,
            forall|j: int| 0 <= j < i ==> !has_marker(#[trigger] words@[2 + j]),
            forall|j: int| 0 <= j < i ==> payload@[j] == low_byte(#[trigger] words@[2 + j]),
        decreases len - i,
    {
        match unpack(words[2 + i]) {
            Word::Data(b) => payload.push(b),
            Word::Address(_) => {
                assert(has_marker(words@[2 + i as int]));
                assert(frame_of(words@) is None);
                return Err(Error::Truncated);
            },
        }
        i = i + 1;
    }
    proof {
        assert forall|k: int| 2 <= k < 2 + len implies !has_marker(#[trigger] words@[k]) by {
            assert(!has_marker(words@[2 + (k - 2)]));
        }
        let sub = words@.subrange(2, 2 + len);
        assert forall|j: int| 0 <= j < len implies payload@[j] == low_byte(sub[j]) by {
            assert(sub[j] == words@[2 + j]);
        }
        assert(payload@ =~= words@.subrange(2, 2 + len).map_values(|w: u16| low_byte(w)));
    }
    Ok((target, payload))
}

/// A frame for any address and any payload of at most `MAX_DATA_LEN` bytes
/// reads back as that address and that payload.
pub proof fn lemma_frame_round_trip(target: Address, payload: Seq<u8>)
    requires
        payload.len() <= MAX_DATA_LEN,
    ensures
        frame_of(frame_words(target, payload)) == Some((target, payload)),
{
    let w = frame_words(target, payload);
    assert(has_marker(address_word(target)) && low_byte(address_word(target)) == target);
    assert(!has_marker(data_word(payload.len() as u8)) && low_byte(data_word(payload.len() as u8))
        == payload.len());
    assert forall|i: int| 2 <= i < 2 + payload.len() implies !has_marker(#[trigger] w[i]) by {
        assert(w[i] == data_word(payload[i - 2]));
    }
    assert(w.subrange(2, 2 + payload.len() as int).map_values(|x: u16| low_byte(x)) =~= payload);
}

} // verus!
