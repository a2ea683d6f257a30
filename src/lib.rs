//! A link-layer stack for a master and several slaves sharing one
//! half-duplex, multidrop serial line: nine-bit words that mark addresses,
//! an incremental frame receiver, a closed catalog of binary messages and
//! the discovery handshake run at start-up.
use vstd::prelude::*;
use vstd::slice::slice_subrange;

pub mod baud;
pub mod bus;
pub mod catalog;
pub mod common;
pub mod discovery;
pub mod frame;
pub mod messages;
pub mod parser;
pub mod word;

pub use common::{Address, SlaveAddresses, MASTER_ADDRESS, MAX_DATA_LEN, MAX_MESSAGE_LEN};
pub use messages::Message;
pub use bus::Bus;
pub use parser::Parser;

use discovery::{ack_verdict, check_discovery_ack, check_discovery_request, request_verdict, Verdict};
use frame::{frame_words, Transport};
use messages::{data_from_message, encoding, DiscoveryAcknowledgeData, DiscoveryRequestData};
use parser::{after_word, ParserModel};

verus! {

/// What can go wrong in the stack.
#[derive(Debug, Clone, Copy, PartialEq, Eq, Structural)]
pub enum Error {
    /// An operation reserved to the master was asked of a slave.
    NotMaster,
    /// A frame was addressed to the sending device itself.
    SendToSelf,
    /// A payload is longer than a frame can carry.
    FrameTooLong,
    /// A payload starts with an unknown discriminant or is too short for its kind.
    UnrecognizedMessage,
    /// A frame on the wire ended before its declared length.
    Truncated,
    /// The master received a discovery acknowledgement from the wrong device.
    InvalidDiscoveryAck,
    /// Slave received a different message when it was anticipating a discovery request.
    InvalidDiscoveryReq,
    /// No message arrived within the configured number of polls.
    Timeout,
}

/// How many polls a device waits for a discovery message unless told otherwise.
pub const DEFAULT_POLL_LIMIT: u32 = 1000000;

/// The parser after one poll: unchanged if the bus had no word, else after
/// the word it had.
pub open spec fn polled(p: ParserModel, read: Option<u16>) -> ParserModel {
    match read {
        Some(w) => after_word(p, w),
        None => p,
    }
}

/// The words of the discovery request the master sends to `slave`.
pub open spec fn request_frame(slave: Address) -> Seq<u16> {
    frame_words(slave, encoding(Message::DiscoveryRequest(DiscoveryRequestData { address: slave })))
}

/// The words of the acknowledgement that the slave at `own` sends to the master.
pub open spec fn ack_frame(own: Address) -> Seq<u16> {
    frame_words(
        MASTER_ADDRESS,
        encoding(Message::DiscoveryAcknowledge(DiscoveryAcknowledgeData { address: own })),
    )
}

/// The master's verdict on one poll while it waits for `address`: a poll
/// that returned nothing leaves it waiting.
pub open spec fn ack_entry(address: Address, e: Option<Message>) -> Verdict {
    match e {
        Some(m) => ack_verdict(address, m),
        None => Verdict::Ignore,
    }
}

/// A slave's verdict, at `own`, on one poll while it waits for a request.
pub open spec fn request_entry(own: Address, e: Option<Message>) -> Verdict {
    match e {
        Some(m) => request_verdict(own, m),
        None => Verdict::Ignore,
    }
}

/// Whether the polls `polls[from..to]` are a wait of at most `limit` polls
/// for `address` to acknowledge that ends with `outcome`: every poll but the
/// last leaves the master waiting; the last accepts (`Ok`) or rejects
/// (`InvalidDiscoveryAck`), or the limit is spent with none deciding (`Timeout`).
pub open spec fn ack_wait(
    polls: Seq<Option<Message>>,
    address: Address,
    from: int,
    to: int,
    limit: nat,
    outcome: Result<(), Error>,
) -> bool {
    &&& 0 <= from <= to <= polls.len()
    &&& to - from <= limit
    &&& forall|k: int| from <= k < to - 1 ==> ack_entry(address, #[trigger] polls[k]) == Verdict::Ignore
    &&& match outcome {
        Ok(()) => to > from && ack_entry(address, polls[to - 1]) == Verdict::Accept,
        Err(Error::InvalidDiscoveryAck) => to > from && ack_entry(address, polls[to - 1]) is Reject,
        Err(Error::Timeout) => to - from == limit && (to == from || ack_entry(address, polls[to - 1])
            == Verdict::Ignore),
        Err(_) => false,
    }
}

/// The same for a slave at `own` waiting for a discovery request; any
/// message but a request naming `own` rejects (`InvalidDiscoveryReq`).
pub open spec fn request_wait(
    polls: Seq<Option<Message>>,
    own: Address,
    from: int,
    to: int,
    limit: nat,
    outcome: Result<(), Error>,
) -> bool {
    &&& 0 <= from <= to <= polls.len()
    &&& to - from <= limit
    &&& forall|k: int| from <= k < to - 1 ==> request_entry(own, #[trigger] polls[k]) == Verdict::Ignore
    &&& match outcome {
        Ok(()) => to > from && request_entry(own, polls[to - 1]) == Verdict::Accept,
        Err(Error::InvalidDiscoveryReq) => to > from && request_entry(own, polls[to - 1]) is Reject,
        Err(Error::Timeout) => to - from == limit && (to == from || request_entry(own, polls[to - 1])
            == Verdict::Ignore),
        Err(_) => false,
    }
}

/// A wait stays what it was when more polls follow it.
pub proof fn lemma_ack_wait_extend(
    p: Seq<Option<Message>>,
    q: Seq<Option<Message>>,
    address: Address,
    from: int,
    to: int,
    limit: nat,
    outcome: Result<(), Error>,
)
    requires
        ack_wait(p, address, from, to, limit, outcome),
        p.len() <= q.len(),
        q.subrange(0, p.len() as int) == p,
    ensures
        ack_wait(q, address, from, to, limit, outcome),
{
    assert forall|k: int| 0 <= k < p.len() implies q[k] == p[k] by {
        assert(q.subrange(0, p.len() as int)[k] == q[k]);
    }
}

/// Where the wait after request `i` of a discovery starts: where the
/// discovery started for the first request, else where the previous wait ended.
pub open spec fn step_start(start: int, ends: Seq<int>, i: int) -> int {
    if i == 0 {
        start
    } else {
        ends[i - 1]
    }
}

/// One device on the bus: its address and role, the bus it owns and the
/// parser that assembles the frames addressed to it. Ghost logs record every
/// burst of words handed to the bus, how many polls had been made when each
/// was sent, and what every poll returned.
pub struct Palantir<B: Bus> {
    parser: Parser,
    transport: Transport,
    bus: B,
    slaves: Option<SlaveAddresses>,
    poll_limit: u32,
    sent: Ghost<Seq<Seq<u16>>>,
    sent_at: Ghost<Seq<nat>>,
    polls: Ghost<Seq<Option<Message>>>,
}

impl<B: Bus> Palantir<B> {
    pub closed spec fn wf(&self) -> bool {
        &&& self.parser.wf()
        &&& self.parser@.address == self.transport.address
        &&& self.slaves matches Some(s) ==> s.wf()
        &&& self.sent_at@.len() == self.sent@.len()
    }

    /// The state of the parser.
    pub closed spec fn parser_model(&self) -> ParserModel {
        self.parser@
    }

    /// The device's address and whether it may address itself.
    pub closed spec fn transport_spec(&self) -> Transport {
        self.transport
    }

    /// The slaves a master visits; none on a slave.
    pub closed spec fn slave_list(&self) -> Option<Seq<Address>> {
        match self.slaves {
            Some(s) => Some(s@),
            None => None,
        }
    }

    pub closed spec fn bus_spec(&self) -> B {
        self.bus
    }

    pub closed spec fn poll_limit_spec(&self) -> u32 {
        self.poll_limit
    }

    /// Every burst of words handed to the bus, oldest first.
    pub closed spec fn sent_log(&self) -> Seq<Seq<u16>> {
        self.sent@
    }

    /// For each burst of `sent_log`, the number of polls made before it was sent.
    pub closed spec fn sent_at_log(&self) -> Seq<nat> {
        self.sent_at@
    }

    /// What every call of `poll` returned, oldest first.
    pub closed spec fn polls_log(&self) -> Seq<Option<Message>> {
        self.polls@
    }

    /// Whether only the parser, the bus and the logs differ between `self` and `other`.
    pub open spec fn same_setup(&self, other: &Self) -> bool {
        &&& self.transport_spec() == other.transport_spec()
        &&& self.slave_list() == other.slave_list()
        &&& self.poll_limit_spec() == other.poll_limit_spec()
        &&& self.parser_model().address == other.parser_model().address
    }

    /// Whether the logs of `self` continue those of `before`.
    pub open spec fn extends(&self, before: &Self) -> bool {
        &&& before.polls_log().len() <= self.polls_log().len()
        &&& self.polls_log().subrange(0, before.polls_log().len() as int) == before.polls_log()
        &&& before.sent_log().len() <= self.sent_log().len()
        &&& self.sent_log().subrange(0, before.sent_log().len() as int) == before.sent_log()
        &&& before.sent_at_log().len() <= self.sent_at_log().len()
        &&& self.sent_at_log().subrange(0, before.sent_at_log().len() as int)
            == before.sent_at_log()
    }

    /// Whether request `i` of a discovery of `list` since `before` stands in
    /// the logs: it was sent to `list[i]` when the polls stood at
    /// `step_start`, and the polls from there to `ends[i]` are a wait that
    /// `list[i]` acknowledged.
    pub open spec fn request_step(&self, before: &Self, list: Seq<Address>, ends: Seq<int>, i: int) -> bool {
        let s0 = before.sent_log().len() as int;
        let start = step_start(before.polls_log().len() as int, ends, i);
        &&& self.sent_log()[s0 + i] == request_frame(list[i])
        &&& self.sent_at_log()[s0 + i] == start
        &&& ack_wait(self.polls_log(), list[i], start, ends[i], before.poll_limit_spec() as nat, Ok(()))
    }

    /// Whether, since `before`, the first `n` slaves of `list` were each sent
    /// a discovery request and each acknowledged it before the next request.
    pub open spec fn discovered(&self, before: &Self, list: Seq<Address>, n: int, ends: Seq<int>) -> bool {
        &&& 0 <= n <= list.len()
        &&& ends.len() == n
        &&& self.sent_log().len() >= before.sent_log().len() + n
        &&& self.sent_at_log().len() == self.sent_log().len()
        &&& forall|i: int| 0 <= i < n ==> #[trigger] self.request_step(before, list, ends, i)
    }

    /// Whether discovery, having passed the first `n` slaves of `list`, failed
    /// on slave `n` with the error of `r`: either the request could not be sent
    /// (`SendToSelf`), or it was sent and the wait that followed ended with `r`.
    pub open spec fn failed_at(
        &self,
        before: &Self,
        list: Seq<Address>,
        n: int,
        ends: Seq<int>,
        r: Result<(), Error>,
    ) -> bool {
        let s0 = before.sent_log().len() as int;
        let start = step_start(before.polls_log().len() as int, ends, n);
        &&& 0 <= n < list.len()
        &&& match r {
            Err(Error::SendToSelf) => {
                &&& before.transport_spec().sends_to_self(list[n])
                &&& self.sent_log().len() == s0 + n
                &&& self.polls_log().len() == start
            },
            Err(_) => {
                &&& self.sent_log().len() == s0 + n + 1
                &&& self.sent_log()[s0 + n] == request_frame(list[n])
                &&& self.sent_at_log()[s0 + n] == start
                &&& ack_wait(
                    self.polls_log(),
                    list[n],
                    start,
                    self.polls_log().len() as int,
                    before.poll_limit_spec() as nat,
                    r,
                )
            },
            Ok(()) => false,
        }
    }

    /// Logs that continue logs that continue `a` continue `a`.
    proof fn lemma_extends_trans(a: &Self, b: &Self, c: &Self)
        requires
            b.extends(a),
            c.extends(b),
        ensures
            c.extends(a),
    {
        assert(c.polls_log().subrange(0, a.polls_log().len() as int) =~= b.polls_log().subrange(
            0,
            a.polls_log().len() as int,
        ));
        assert(c.sent_log().subrange(0, a.sent_log().len() as int) =~= b.sent_log().subrange(
            0,
            a.sent_log().len() as int,
        ));
        assert(c.sent_at_log().subrange(0, a.sent_at_log().len() as int) =~= b.sent_at_log().subrange(
            0,
            a.sent_at_log().len() as int,
        ));
    }

    /// Discovery progress is kept when the logs go on.
    proof fn lemma_discovered_extend(&self, later: &Self, before: &Self, list: Seq<Address>, n: int, ends: Seq<int>)
        requires
            self.discovered(before, list, n, ends),
            later.extends(self),
            later.sent_at_log().len() == later.sent_log().len(),
        ensures
            later.discovered(before, list, n, ends),
    {
        let s0 = before.sent_log().len() as int;
        let p0 = before.polls_log().len() as int;
        assert forall|i: int| 0 <= i < n implies #[trigger] later.request_step(before, list, ends, i) by {
            assert(self.request_step(before, list, ends, i));
            let start = step_start(p0, ends, i);
            assert(later.sent_log().subrange(0, self.sent_log().len() as int)[s0 + i]
                == later.sent_log()[s0 + i]);
            assert(later.sent_at_log().subrange(0, self.sent_at_log().len() as int)[s0 + i]
                == later.sent_at_log()[s0 + i]);
            lemma_ack_wait_extend(
                self.polls_log(),
                later.polls_log(),
                list[i],
                start,
                ends[i],
                before.poll_limit_spec() as nat,
                Ok(()),
            );
        }
    }

    /// The parser of a device at `address` that has seen nothing yet.
    pub open spec fn fresh_parser(address: Address) -> ParserModel {
        ParserModel {
            address,
            receiver: parser::ReceiverModel {
                state: parser::ReceiverState::Idle,
                length: 0,
                data: Seq::empty(),
            },
            mailbox: None,
        }
    }

    /// Whether nothing has been sent or polled yet.
    pub open spec fn logs_empty(&self) -> bool {
        &&& self.sent_log() == Seq::<Seq<u16>>::empty()
        &&& self.sent_at_log() == Seq::<nat>::empty()
        &&& self.polls_log() == Seq::<Option<Message>>::empty()
    }

    fn with_transport(transport: Transport, slaves: Option<SlaveAddresses>, bus: B) -> (r: Self)
        requires
            slaves matches Some(s) ==> s.wf(),
        ensures
            r.wf(),
            r.transport_spec() == transport,
            r.parser_model() == Self::fresh_parser(transport.address),
            r.slave_list() == match slaves {
                Some(s) => Some(s@),
                None => None::<Seq<Address>>,
            },
            r.bus_spec() == bus,
            r.poll_limit_spec() == DEFAULT_POLL_LIMIT,
            r.logs_empty(),
    {
        Palantir {
            parser: Parser::new(transport.address),
            transport,
            bus,
            slaves,
            poll_limit: DEFAULT_POLL_LIMIT,
            sent: Ghost(Seq::empty()),
            sent_at: Ghost(Seq::empty()),
            polls: Ghost(Seq::empty()),
        }
    }

    /// A device whose role follows its address: the master at
    /// `MASTER_ADDRESS`, with no slaves to discover, else a slave.
    pub fn new(device_address: Address, bus: B) -> (r: Self)
        ensures
            r.wf(),
            r.transport_spec() == (Transport { address: device_address, loopback: false }),
            r.parser_model() == Self::fresh_parser(device_address),
            device_address == MASTER_ADDRESS ==> r.slave_list() == Some(Seq::<Address>::empty()),
            device_address != MASTER_ADDRESS ==> r.slave_list() is None,
            r.bus_spec() == bus,
            r.poll_limit_spec() == DEFAULT_POLL_LIMIT,
            r.logs_empty(),
    {
        let transport = Transport::new(device_address);
        if device_address == MASTER_ADDRESS {
            Self::with_transport(transport, Some(SlaveAddresses::new()), bus)
        } else {
            Self::with_transport(transport, None, bus)
        }
    }

    pub fn new_slave(device_address: Address, bus: B) -> (r: Self)
        ensures
            r.wf(),
            r.transport_spec() == (Transport { address: device_address, loopback: false }),
            r.parser_model() == Self::fresh_parser(device_address),
            r.slave_list() is None,
            r.bus_spec() == bus,
            r.poll_limit_spec() == DEFAULT_POLL_LIMIT,
            r.logs_empty(),
    {
        Self::with_transport(Transport::new_slave(device_address), None, bus)
    }

    pub fn new_master(slaves: SlaveAddresses, bus: B) -> (r: Self)
        requires
            slaves.wf(),
        ensures
            r.wf(),
            r.transport_spec() == (Transport { address: MASTER_ADDRESS, loopback: false }),
            r.parser_model() == Self::fresh_parser(MASTER_ADDRESS),
            r.slave_list() == Some(slaves@),
            r.bus_spec() == bus,
            r.poll_limit_spec() == DEFAULT_POLL_LIMIT,
            r.logs_empty(),
    {
        Self::with_transport(Transport::new_master(), Some(slaves), bus)
    }

    /// A device that may send frames to itself, for self-tests over a bus
    /// that echoes what it sends.
    pub fn new_loopback(address: Address, bus: B) -> (r: Self)
        ensures
            r.wf(),
            r.transport_spec() == (Transport { address, loopback: true }),
            r.parser_model() == Self::fresh_parser(address),
            r.slave_list() is None,
            r.bus_spec() == bus,
            r.poll_limit_spec() == DEFAULT_POLL_LIMIT,
            r.logs_empty(),
    {
        Self::with_transport(Transport::new_loopback(address), None, bus)
    }

    pub fn address(&self) -> (r: Address)
        ensures
            r == self.transport_spec().address,
    {
        self.transport.address
    }

    /// Sets how many polls each wait of discovery makes before it gives up.
    pub fn set_poll_limit(&mut self, limit: u32)
        ensures
            final(self).poll_limit_spec() == limit,
            final(self).transport_spec() == old(self).transport_spec(),
            final(self).slave_list() == old(self).slave_list(),
            final(self).parser_model() == old(self).parser_model(),
            final(self).bus_spec() == old(self).bus_spec(),
            final(self).sent_log() == old(self).sent_log(),
            final(self).sent_at_log() == old(self).sent_at_log(),
            final(self).polls_log() == old(self).polls_log(),
            final(self).wf() == old(self).wf(),
    {
        self.poll_limit = limit;
    }

    /// Takes one word received from the bus.
    pub fn ingest(&mut self, word: u16)
        requires
            old(self).wf(),
        ensures
            final(self).wf(),
            final(self).same_setup(old(self)),
            final(self).parser_model() == after_word(old(self).parser_model(), word),
            final(self).bus_spec() == old(self).bus_spec(),
            final(self).sent_log() == old(self).sent_log(),
            final(self).sent_at_log() == old(self).sent_at_log(),
            final(self).polls_log() == old(self).polls_log(),
    {
        self.parser.ingest(word);
    }

    /// Feeds the parser the next word of the bus, if one is waiting, then
    /// empties the mailbox and returns what it held.
    pub fn poll(&mut self) -> (r: Option<Message>)
        requires
            old(self).wf(),
        ensures
            final(self).wf(),
            final(self).same_setup(old(self)),
            exists|read: Option<u16>|
                {
                    let mid = #[trigger] polled(old(self).parser_model(), read);
                    &&& r == mid.mailbox
                    &&& final(self).parser_model() == (ParserModel { mailbox: None, ..mid })
                },
            final(self).sent_log() == old(self).sent_log(),
            final(self).sent_at_log() == old(self).sent_at_log(),
            final(self).polls_log() == old(self).polls_log().push(r),
            final(self).extends(old(self)),
    {
        let ghost before = self.parser@;
        let r = match self.bus.read() {
            Ok(data) => {
                self.parser.ingest(data);
                assert(polled(before, Some(data)) == self.parser@);
                self.parser.poll_message()
            },
            _ => {
                assert(polled(before, None) == before);
                self.parser.poll_message()
            },
        };
        let ghost old_polls = self.polls@;
        self.polls = Ghost(self.polls@.push(r));
        assert(self.polls@.subrange(0, old_polls.len() as int) =~= old_polls);
        assert(self.sent@.subrange(0, self.sent@.len() as int) =~= self.sent@);
        assert(self.sent_at@.subrange(0, self.sent_at@.len() as int) =~= self.sent_at@);
        r
    }

    /// Sends `message` in one frame to `address`. A device may not address
    /// itself, unless it is in loopback mode; then nothing is sent.
    pub fn send(&mut self, address: Address, message: &Message) -> (r: Result<(), Error>)
        requires
            old(self).wf(),
        ensures
            final(self).wf(),
            final(self).same_setup(old(self)),
            final(self).parser_model() == old(self).parser_model(),
            final(self).polls_log() == old(self).polls_log(),
            r == if old(self).transport_spec().sends_to_self(address) {
                Err::<(), Error>(Error::SendToSelf)
            } else {
                Ok(())
            },
            r is Ok ==> final(self).sent_log() == old(self).sent_log().push(
                frame_words(address, encoding(*message)),
            ),
            r is Ok ==> final(self).sent_at_log() == old(self).sent_at_log().push(
                old(self).polls_log().len(),
            ),
            r is Err ==> final(self).sent_log() == old(self).sent_log(),
            r is Err ==> final(self).sent_at_log() == old(self).sent_at_log(),
            r is Err ==> final(self).bus_spec() == old(self).bus_spec(),
            final(self).extends(old(self)),
    {
        proof {
            assert(self.polls@.subrange(0, self.polls@.len() as int) =~= self.polls@);
            assert(self.sent@.subrange(0, self.sent@.len() as int) =~= self.sent@);
            assert(self.sent_at@.subrange(0, self.sent_at@.len() as int) =~= self.sent_at@);
        }
        if !self.transport.loopback && address == self.transport.address {
            return Err(Error::SendToSelf);
        }
        let mut data = [0u8; MAX_DATA_LEN];
        let len = match data_from_message(message, &mut data) {
            Ok(len) => len,
            Err(e) => {
                return Err(e);
            },
        };
        proof {
            messages::lemma_message_round_trip(*message);
        }
        let payload = slice_subrange(data.as_slice(), 0, len);
        assert(payload@ =~= encoding(*message));
        match self.transport.send(address, payload) {
            Ok(words) => {
                self.bus.send(words.as_slice());
                let ghost old_sent = self.sent@;
                let ghost old_at = self.sent_at@;
                self.sent = Ghost(self.sent@.push(words@));
                self.sent_at = Ghost(self.sent_at@.push(self.polls@.len()));
                assert(self.sent@.subrange(0, old_sent.len() as int) =~= old_sent);
                assert(self.sent_at@.subrange(0, old_at.len() as int) =~= old_at);
                Ok(())
            },
            Err(e) => Err(e),
        }
    }

    /// Polls until a message arrives that the master, waiting for `address`
    /// to acknowledge, does not ignore, or until the poll limit is spent.
    fn wait_for_discovery_ack(&mut self, address: Address) -> (r: Result<(), Error>)
        requires
            old(self).wf(),
        ensures
            final(self).wf(),
            final(self).same_setup(old(self)),
            final(self).sent_log() == old(self).sent_log(),
            final(self).sent_at_log() == old(self).sent_at_log(),
            final(self).extends(old(self)),
            ack_wait(
                final(self).polls_log(),
                address,
                old(self).polls_log().len() as int,
                final(self).polls_log().len() as int,
                old(self).poll_limit_spec() as nat,
                r,
            ),
    {
        let ghost p0 = self.polls@.len() as int;
        let mut i: u32 = 0;
        proof {
            assert(self.polls@.subrange(0, self.polls@.len() as int) =~= self.polls@);
            assert(self.sent@.subrange(0, self.sent@.len() as int) =~= self.sent@);
            assert(self.sent_at@.subrange(0, self.sent_at@.len() as int) =~= self.sent_at@);
        }
        while i < self.poll_limit
            invariant
                self.wf(),
                self.same_setup(old(self)),
                self.sent_log() == old(self).sent_log(),
                self.sent_at_log() == old(self).sent_at_log(),
                self.extends(old(self)),
                p0 == old(self).polls_log().len(),
                self.polls_log().len() == p0 + i,
                i <= self.poll_limit,
                forall|k: int|
                    p0 <= k < self.polls_log().len() ==> ack_entry(address, #[trigger] self.polls_log()[k])
                        == Verdict::Ignore,
            decreases self.poll_limit - i,
        {
            let ghost before = self.polls_log();
            let polled = self.poll();
            assert(self.polls_log()[before.len() as int] == polled);
            assert forall|k: int| 0 <= k < before.len() implies self.polls_log()[k] == before[k] by {
                assert(self.polls_log().subrange(0, before.len() as int)[k] == self.polls_log()[k]);
            }
            assert(self.polls_log().subrange(0, p0) =~= old(self).polls_log()) by {
                assert(before.subrange(0, p0) == old(self).polls_log());
            }
            match polled {
                Some(msg) => match check_discovery_ack(address, &msg) {
                    Verdict::Accept => {
                        return Ok(());
                    },
                    Verdict::Reject(_) => {
                        return Err(Error::InvalidDiscoveryAck);
                    },
                    Verdict::Ignore => {},
                },
                None => {},
            }
            i = i + 1;
        }
        Err(Error::Timeout)
    }

    /// Polls until a slave receives a message, or until the poll limit is
    /// spent; only a discovery request naming this device is accepted.
    fn wait_for_discovery_request(&mut self) -> (r: Result<(), Error>)
        requires
            old(self).wf(),
        ensures
            final(self).wf(),
            final(self).same_setup(old(self)),
            final(self).sent_log() == old(self).sent_log(),
            final(self).sent_at_log() == old(self).sent_at_log(),
            final(self).extends(old(self)),
            request_wait(
                final(self).polls_log(),
                old(self).transport_spec().address,
                old(self).polls_log().len() as int,
                final(self).polls_log().len() as int,
                old(self).poll_limit_spec() as nat,
                r,
            ),
    {
        let own = self.transport.address;
        let ghost p0 = self.polls@.len() as int;
        let mut i: u32 = 0;
        proof {
            assert(self.polls@.subrange(0, self.polls@.len() as int) =~= self.polls@);
            assert(self.sent@.subrange(0, self.sent@.len() as int) =~= self.sent@);
            assert(self.sent_at@.subrange(0, self.sent_at@.len() as int) =~= self.sent_at@);
        }
        while i < self.poll_limit
            invariant
                self.wf(),
                self.same_setup(old(self)),
                own == old(self).transport_spec().address,
                self.sent_log() == old(self).sent_log(),
                self.sent_at_log() == old(self).sent_at_log(),
                self.extends(old(self)),
                p0 == old(self).polls_log().len(),
                self.polls_log().len() == p0 + i,
                i <= self.poll_limit,
                forall|k: int|
                    p0 <= k < self.polls_log().len() ==> request_entry(own, #[trigger] self.polls_log()[k])
                        == Verdict::Ignore,
            decreases self.poll_limit - i,
        {
            let ghost before = self.polls_log();
            let polled = self.poll();
            assert(self.polls_log()[before.len() as int] == polled);
            assert forall|k: int| 0 <= k < before.len() implies self.polls_log()[k] == before[k] by {
                assert(self.polls_log().subrange(0, before.len() as int)[k] == self.polls_log()[k]);
            }
            assert(self.polls_log().subrange(0, p0) =~= old(self).polls_log()) by {
                assert(before.subrange(0, p0) == old(self).polls_log());
            }
            match polled {
                Some(msg) => match check_discovery_request(own, &msg) {
                    Verdict::Accept => {
                        return Ok(());
                    },
                    _ => {
                        return Err(Error::InvalidDiscoveryReq);
                    },
                },
                None => {},
            }
            i = i + 1;
        }
        Err(Error::Timeout)
    }

    /// Runs the master's side of discovery: each known slave in turn, in list
    /// order, gets a discovery request and must acknowledge it before the
    /// next one is asked. The first error ends discovery; nothing more is
    /// sent. Only a master can discover devices.
    pub fn discover_devices(&mut self) -> (r: Result<(), Error>)
        requires
            old(self).wf(),
        ensures
            final(self).wf(),
            final(self).same_setup(old(self)),
            final(self).extends(old(self)),
            r == Err::<(), Error>(Error::NotMaster) <==> old(self).slave_list() is None,
            r == Err::<(), Error>(Error::NotMaster) ==> final(self).sent_log() == old(self).sent_log()
                && final(self).polls_log() == old(self).polls_log(),
            r is Ok ==> (old(self).slave_list() matches Some(list) && exists|ends: Seq<int>|
                #[trigger] final(self).discovered(old(self), list, list.len() as int, ends)
                    && final(self).sent_log().len() == old(self).sent_log().len() + list.len()
                    && final(self).polls_log().len() == step_start(
                    old(self).polls_log().len() as int,
                    ends,
                    list.len() as int,
                )),
            r is Err && r != Err::<(), Error>(Error::NotMaster) ==> (old(self).slave_list() matches Some(
                list,
            ) && exists|n: int, ends: Seq<int>|
                #[trigger] final(self).discovered(old(self), list, n, ends) && final(self).failed_at(
                    old(self),
                    list,
                    n,
                    ends,
                    r,
                )),
    {
        proof {
            assert(self.polls@.subrange(0, self.polls@.len() as int) =~= self.polls@);
            assert(self.sent@.subrange(0, self.sent@.len() as int) =~= self.sent@);
            assert(self.sent_at@.subrange(0, self.sent_at@.len() as int) =~= self.sent_at@);
        }
        let count = match &self.slaves {
            Some(s) => s.len(),
            None => {
                return Err(Error::NotMaster);
            },
        };
        let ghost list = self.slave_list()->Some_0;
        let ghost p0 = self.polls@.len() as int;
        let ghost s0 = self.sent@.len() as int;
        let ghost mut ends: Seq<int> = Seq::empty();
        let mut i: usize = 0;
        while i < count
            invariant
                self.wf(),
                self.same_setup(old(self)),
                self.extends(old(self)),
                old(self).slave_list() == Some(list),
                list.len() == count,
                p0 == old(self).polls_log().len(),
                s0 == old(self).sent_log().len(),
                0 <= i <= count,
                self.discovered(old(self), list, i as int, ends),
                self.sent_log().len() == s0 + i,
                self.polls_log().len() == step_start(p0, ends, i as int),
            decreases count - i,
        {
            let slave = match &self.slaves {
                Some(s) => s.get(i),
                None => {
                    return Err(Error::NotMaster);
                },
            };
            let message = Message::DiscoveryRequest(DiscoveryRequestData::new(slave));
            let ghost before = *self;
            let sent = self.send(slave, &message);
            proof {
                before.lemma_discovered_extend(&*self, old(self), list, i as int, ends);
                Self::lemma_extends_trans(old(self), &before, &*self);
            }
            match sent {
                Ok(()) => {},
                Err(e) => {
                    assert(self.failed_at(old(self), list, i as int, ends, Err(e)));
                    assert(self.discovered(old(self), list, i as int, ends));
                    assert(old(self).slave_list() matches Some(l) && l == list);
                    assert(exists|n: int, en: Seq<int>|
                        #[trigger] self.discovered(old(self), list, n, en) && self.failed_at(
                            old(self),
                            list,
                            n,
                            en,
                            Err(e),
                        ));
                    return Err(e);
                },
            }
            let ghost sent_one = *self;
            let ghost start = step_start(p0, ends, i as int);
            assert(self.sent_log()[s0 + i] == request_frame(list[i as int]));
            assert(self.sent_at_log()[s0 + i] == start);
            let waited = self.wait_for_discovery_ack(slave);
            proof {
                sent_one.lemma_discovered_extend(&*self, old(self), list, i as int, ends);
                Self::lemma_extends_trans(old(self), &sent_one, &*self);
                assert(self.sent_log() == sent_one.sent_log());
                assert(self.sent_at_log() == sent_one.sent_at_log());
            }
            match waited {
                Ok(()) => {},
                Err(e) => {
                    assert(self.failed_at(old(self), list, i as int, ends, Err(e)));
                    assert(self.discovered(old(self), list, i as int, ends));
                    assert(old(self).slave_list() matches Some(l) && l == list);
                    assert(exists|n: int, en: Seq<int>|
                        #[trigger] self.discovered(old(self), list, n, en) && self.failed_at(
                            old(self),
                            list,
                            n,
                            en,
                            Err(e),
                        ));
                    return Err(e);
                },
            }
            proof {
                let next = ends.push(self.polls_log().len() as int);
                assert forall|j: int| 0 <= j < i + 1 implies #[trigger] self.request_step(
                    old(self),
                    list,
                    next,
                    j,
                ) by {
                    if j < i {
                        assert(self.request_step(old(self), list, ends, j));
                        assert(next[j] == ends[j]);
                        assert(step_start(p0, next, j) == step_start(p0, ends, j));
                    } else {
                        assert(step_start(p0, next, j) == start);
                    }
                }
                assert(self.discovered(old(self), list, i + 1, next));
                ends = next;
            }
            i = i + 1;
        }
        assert(list.subrange(0, count as int) =~= list);
        Ok(())
    }

    /// Runs a slave's side of discovery: waits for a discovery request
    /// naming this device, then acknowledges it to the master. The slave is
    /// strict: any other message ends discovery with `InvalidDiscoveryReq`.
    /// Nothing is sent unless the request came.
    pub fn discovery_mode(&mut self) -> (r: Result<(), Error>)
        requires
            old(self).wf(),
        ensures
            final(self).wf(),
            final(self).same_setup(old(self)),
            final(self).extends(old(self)),
            r is Ok || r == Err::<(), Error>(Error::InvalidDiscoveryReq) || r == Err::<(), Error>(
                Error::Timeout,
            ) || r == Err::<(), Error>(Error::SendToSelf),
            r is Ok ==> request_wait(
                final(self).polls_log(),
                old(self).transport_spec().address,
                old(self).polls_log().len() as int,
                final(self).polls_log().len() as int,
                old(self).poll_limit_spec() as nat,
                Ok(()),
            ) && final(self).sent_log() == old(self).sent_log().push(
                ack_frame(old(self).transport_spec().address),
            ) && final(self).sent_at_log() == old(self).sent_at_log().push(
                final(self).polls_log().len(),
            ),
            r == Err::<(), Error>(Error::SendToSelf) ==> old(self).transport_spec().sends_to_self(
                MASTER_ADDRESS,
            ) && request_wait(
                final(self).polls_log(),
                old(self).transport_spec().address,
                old(self).polls_log().len() as int,
                final(self).polls_log().len() as int,
                old(self).poll_limit_spec() as nat,
                Ok(()),
            ),
            r == Err::<(), Error>(Error::InvalidDiscoveryReq) || r == Err::<(), Error>(Error::Timeout)
                ==> request_wait(
                final(self).polls_log(),
                old(self).transport_spec().address,
                old(self).polls_log().len() as int,
                final(self).polls_log().len() as int,
                old(self).poll_limit_spec() as nat,
                r,
            ),
            r is Err ==> final(self).sent_log() == old(self).sent_log(),
    {
        match self.wait_for_discovery_request() {
            Ok(()) => {},
            Err(e) => {
                return Err(e);
            },
        }
        let ghost waited = *self;
        let own = self.transport.address;
        let r = self.send(MASTER_ADDRESS, &Message::DiscoveryAcknowledge(DiscoveryAcknowledgeData::new(own)));
        proof {
            assert(self.polls_log().subrange(0, old(self).polls_log().len() as int)
                =~= old(self).polls_log()) by {
                assert(waited.polls_log().subrange(0, old(self).polls_log().len() as int)
                    == old(self).polls_log());
            }
            assert(self.sent_log().subrange(0, old(self).sent_log().len() as int)
                =~= old(self).sent_log());
            assert(self.sent_at_log().subrange(0, old(self).sent_at_log().len() as int)
                =~= old(self).sent_at_log());
        }
        r
    }
}

} // verus!
