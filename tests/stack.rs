use std::cell::RefCell;
use std::collections::VecDeque;
use std::rc::Rc;

use palantir::catalog::{Message as _, SlaveMessage};
use palantir::discovery::{check_discovery_ack, check_discovery_request, Verdict};
use palantir::frame::{decode_frame, encode_frame, Frame, Transport};
use palantir::messages::{
    data_from_message, Broadcast, DiscoveryAcknowledgeData, DiscoveryRequestData, Message,
    UpdateRequest,
};
use palantir::parser::{Parser, Receiver, ReceiverState};
use palantir::word::{pack_address, pack_data, unpack, Word};
use palantir::{Bus, Error, Palantir, SlaveAddresses, MASTER_ADDRESS, MAX_DATA_LEN};

#[derive(Default)]
struct Line {
    incoming: VecDeque<u16>,
    sent: Vec<u16>,
    sends: usize,
}

/// A bus whose incoming words are queued by the test and whose sent words are recorded.
#[derive(Clone)]
struct MockBus {
    line: Rc<RefCell<Line>>,
    echo: bool,
}

impl MockBus {
    fn new() -> Self {
        MockBus { line: Rc::new(RefCell::new(Line::default())), echo: true }
    }

    fn recording() -> Self {
        MockBus { line: Rc::new(RefCell::new(Line::default())), echo: false }
    }

    fn feed(&self, words: &[u16]) {
        self.line.borrow_mut().incoming.extend(words.iter().copied());
    }

    fn sent(&self) -> Vec<u16> {
        self.line.borrow().sent.clone()
    }

    fn sends(&self) -> usize {
        self.line.borrow().sends
    }
}

impl Bus for MockBus {
    type Error = ();

    fn send(&mut self, data: &[u16]) {
        let mut line = self.line.borrow_mut();
        line.sends += 1;
        line.sent.extend_from_slice(data);
        if self.echo {
            line.incoming.extend(data.iter().copied());
        }
    }

    fn read(&mut self) -> nb::Result<u16, ()> {
        match self.line.borrow_mut().incoming.pop_front() {
            Some(val) => Ok(val),
            None => Err(nb::Error::WouldBlock),
        }
    }
}

fn payload_of(msg: &Message) -> Vec<u8> {
    let mut buf = [0u8; MAX_DATA_LEN];
    let len = data_from_message(msg, &mut buf).unwrap();
    buf[..len].to_vec()
}

fn frame_of(target: u8, msg: &Message) -> Vec<u16> {
    encode_frame(target, &payload_of(msg)).unwrap().as_slice().to_vec()
}

fn slaves(list: &[u8]) -> SlaveAddresses {
    let mut s = SlaveAddresses::new();
    s.extend_from_slice(list).unwrap();
    s
}

fn words(r: Result<Frame, Error>) -> Result<Vec<u16>, Error> {
    r.map(|f| f.as_slice().to_vec())
}

#[test]
fn echo_bus() {
    let mut bus = MockBus::new();
    bus.send(&[5]);
    match bus.read() {
        Ok(v) => assert_eq!(v, 5),
        Err(_) => panic!("did not get same value back"),
    }
}

#[test]
fn discovery_req_transmit() {
    let bus = MockBus::new();
    let mut palantir = Palantir::new_loopback(MASTER_ADDRESS, bus);

    let msg = Message::DiscoveryRequest(DiscoveryRequestData::new(9));

    palantir.send(MASTER_ADDRESS, &msg).unwrap();

    let mut msg: Option<Message> = None;

    for _ in 0..palantir::MAX_MESSAGE_LEN {
        msg = palantir.poll();
        if msg.is_some() {
            break;
        }
    }
    match msg {
        Some(Message::DiscoveryRequest(data)) => assert_eq!(data.target_address(), 9),
        _ => panic!("got something that wasnt a discovery request"),
    }
}

#[test]
fn word_codec() {
    assert_eq!(pack_address(5), 0x105);
    assert_eq!(pack_data(0xAB), 0x0AB);
    assert_eq!(unpack(0x105), Word::Address(5));
    assert_eq!(unpack(0x0AB), Word::Data(0xAB));
    assert_eq!(unpack(0x1FF), Word::Address(0xFF));
    assert_eq!(unpack(0x000), Word::Data(0));
}

#[test]
fn receiver_collects_a_frame() {
    let mut rx = Receiver::new();
    assert_eq!(rx.state(), ReceiverState::Idle);
    assert!(rx.add_to_buffer(3).is_err());
    rx.start();
    assert_eq!(rx.state(), ReceiverState::Receiving);
    assert!(rx.add_to_buffer(3).is_ok());
    assert!(rx.add_to_buffer(10).is_ok());
    assert!(rx.add_to_buffer(20).is_ok());
    assert!(!rx.is_complete());
    assert!(rx.add_to_buffer(30).is_ok());
    assert!(rx.is_complete());
    assert_eq!(rx.data(), &[10, 20, 30]);
    assert!(rx.add_to_buffer(40).is_err());
    assert_eq!(rx.data(), &[10, 20, 30]);
}

#[test]
fn receiver_zero_length_completes_at_once() {
    let mut rx = Receiver::new();
    rx.start();
    assert!(rx.add_to_buffer(0).is_ok());
    assert!(rx.is_complete());
    assert_eq!(rx.data(), &[] as &[u8]);
}

#[test]
fn receiver_rejects_oversized_length() {
    let mut rx = Receiver::new();
    rx.start();
    assert!(rx.add_to_buffer(65).is_err());
    assert_eq!(rx.state(), ReceiverState::Error);
    for b in 0..200u8 {
        assert!(rx.add_to_buffer(b).is_err());
        assert!(!rx.is_complete());
    }
    rx.start();
    assert!(rx.add_to_buffer(1).is_ok());
    assert!(rx.add_to_buffer(7).is_ok());
    assert!(rx.is_complete());
}

#[test]
fn receiver_never_overruns_its_buffer() {
    let mut rx = Receiver::new();
    rx.start();
    assert!(rx.add_to_buffer(64).is_ok());
    for b in 0..62u8 {
        assert!(rx.add_to_buffer(b).is_ok());
    }
    assert!(!rx.is_complete());
    assert!(rx.add_to_buffer(62).is_err());
    assert_eq!(rx.state(), ReceiverState::Error);
    assert!(!rx.is_complete());
    assert_eq!(rx.data().len(), 62);
}

#[test]
fn parser_delivers_a_frame_for_its_address() {
    let mut parser = Parser::new(4);
    let msg = Message::UpdateRequest(UpdateRequest::new(99));
    for w in frame_of(4, &msg) {
        parser.ingest(w);
    }
    assert_eq!(parser.poll_message(), Some(msg));
    assert_eq!(parser.poll_message(), None);
}

#[test]
fn parser_ignores_frames_for_others() {
    let mut parser = Parser::new(4);
    let msg = Message::UpdateRequest(UpdateRequest::new(99));
    for w in frame_of(5, &msg) {
        parser.ingest(w);
    }
    assert_eq!(parser.poll_message(), None);
}

#[test]
fn parser_delivers_a_completed_frame_once() {
    let mut parser = Parser::new(4);
    let msg = Message::UpdateRequest(UpdateRequest::new(1));
    for w in frame_of(4, &msg) {
        parser.ingest(w);
    }
    assert_eq!(parser.poll_message(), Some(msg));
    for w in frame_of(5, &Message::UpdateRequest(UpdateRequest::new(2))) {
        parser.ingest(w);
    }
    assert_eq!(parser.poll_message(), None);
}

#[test]
fn mailbox_keeps_only_the_later_message() {
    let mut parser = Parser::new(2);
    let first = Message::UpdateRequest(UpdateRequest::new(1));
    let second = Message::Broadcast(Broadcast::new([7; 10]));
    for w in frame_of(2, &first).into_iter().chain(frame_of(2, &second)) {
        parser.ingest(w);
    }
    assert_eq!(parser.poll_message(), Some(second));
    assert_eq!(parser.poll_message(), None);
}

#[test]
fn undecodable_frame_leaves_mailbox() {
    let mut parser = Parser::new(2);
    let first = Message::UpdateRequest(UpdateRequest::new(1));
    for w in frame_of(2, &first) {
        parser.ingest(w);
    }
    for w in encode_frame(2, &[9, 9, 9]).unwrap().as_slice().iter().copied() {
        parser.ingest(w);
    }
    assert_eq!(parser.poll_message(), Some(first));
}

#[test]
fn new_address_word_restarts_a_frame() {
    let mut parser = Parser::new(2);
    parser.ingest(pack_address(2));
    parser.ingest(pack_data(5));
    parser.ingest(pack_data(1));
    let msg = Message::DiscoveryAcknowledge(DiscoveryAcknowledgeData::new(3));
    for w in frame_of(2, &msg) {
        parser.ingest(w);
    }
    assert_eq!(parser.poll_message(), Some(msg));
}

#[test]
fn frame_layout() {
    assert_eq!(words(encode_frame(3, &[0xAA, 0x01])).unwrap(), vec![0x103, 2, 0xAA, 0x01]);
    assert_eq!(words(encode_frame(0, &[])).unwrap(), vec![0x100, 0]);
}

#[test]
fn frame_round_trip() {
    for len in [0usize, 1, 11, 62] {
        let payload: Vec<u8> = (0..len).map(|i| (i * 7) as u8).collect();
        for addr in [0u8, 1, 2, 255] {
            let frame = encode_frame(addr, &payload).unwrap();
            assert_eq!(frame.len(), 2 + len);
            assert_eq!(decode_frame(frame.as_slice()), Ok((addr, payload.clone())));
        }
    }
}

#[test]
fn frame_too_long() {
    assert_eq!(words(encode_frame(2, &[0u8; 63])), Err(Error::FrameTooLong));
    assert!(encode_frame(2, &[0u8; 62]).is_ok());
}

#[test]
fn decode_frame_errors() {
    assert_eq!(decode_frame(&[0x102]), Err(Error::Truncated));
    assert_eq!(decode_frame(&[0x002, 1, 5]), Err(Error::Truncated));
    assert_eq!(decode_frame(&[0x102, 3, 5, 6]), Err(Error::Truncated));
    assert_eq!(decode_frame(&[0x102, 2, 5, 0x103]), Err(Error::Truncated));
    assert_eq!(decode_frame(&[0x102, 63]), Err(Error::Truncated));
}

#[test]
fn transport_send() {
    let master = Transport::new_master();
    assert_eq!(words(master.send(MASTER_ADDRESS, &[1])), Err(Error::SendToSelf));
    assert_eq!(words(master.send(2, &[0u8; 63])), Err(Error::FrameTooLong));
    assert_eq!(words(master.send(2, &[7])), Ok(vec![0x102, 1, 7]));
    let slave = Transport::new_slave(2);
    assert_eq!(words(slave.send(2, &[7])), Err(Error::SendToSelf));
    assert_eq!(words(slave.send(MASTER_ADDRESS, &[7])), Ok(vec![0x101, 1, 7]));
    let looped = Transport::new_loopback(2);
    assert_eq!(words(looped.send(2, &[7])), Ok(vec![0x102, 1, 7]));
}

#[test]
fn verdicts() {
    let ack2 = Message::DiscoveryAcknowledge(DiscoveryAcknowledgeData::new(2));
    let ack3 = Message::DiscoveryAcknowledge(DiscoveryAcknowledgeData::new(3));
    let req2 = Message::DiscoveryRequest(DiscoveryRequestData::new(2));
    let other = Message::UpdateRequest(UpdateRequest::new(0));
    assert_eq!(check_discovery_ack(2, &ack2), Verdict::Accept);
    assert_eq!(check_discovery_ack(2, &ack3), Verdict::Reject(Error::InvalidDiscoveryAck));
    assert_eq!(check_discovery_ack(2, &other), Verdict::Ignore);
    assert_eq!(check_discovery_request(2, &req2), Verdict::Accept);
    assert_eq!(check_discovery_request(3, &req2), Verdict::Reject(Error::InvalidDiscoveryReq));
    assert_eq!(check_discovery_request(2, &other), Verdict::Reject(Error::InvalidDiscoveryReq));
}

#[test]
fn slave_list() {
    let mut s = SlaveAddresses::new();
    assert_eq!(s.len(), 0);
    s.push(2);
    assert!(s.extend_from_slice(&[3, 4, 5, 6, 7, 8]).is_ok());
    assert_eq!(s.len(), 7);
    assert_eq!(s.get(0), 2);
    assert_eq!(s.get(6), 8);
    assert!(s.extend_from_slice(&[9]).is_err());
    assert_eq!(s.len(), 7);
}

#[test]
fn self_send_is_rejected_without_touching_the_bus() {
    let bus = MockBus::recording();
    let mut master = Palantir::new_master(slaves(&[2]), bus.clone());
    assert_eq!(master.address(), 1);
    let msg = Message::UpdateRequest(UpdateRequest::new(5));
    assert_eq!(master.send(1, &msg), Err(Error::SendToSelf));
    assert_eq!(bus.sends(), 0);
    assert!(bus.sent().is_empty());
    assert_eq!(master.send(2, &msg), Ok(()));
    assert_eq!(bus.sends(), 1);
    assert_eq!(bus.sent(), frame_of(2, &msg));
}

#[test]
fn discovery_succeeds() {
    let request = frame_of(2, &Message::DiscoveryRequest(DiscoveryRequestData::new(2)));

    let slave_bus = MockBus::recording();
    slave_bus.feed(&request);
    let mut slave = Palantir::new_slave(2, slave_bus.clone());
    assert_eq!(slave.discovery_mode(), Ok(()));
    let ack = slave_bus.sent();
    assert_eq!(ack, frame_of(MASTER_ADDRESS, &Message::DiscoveryAcknowledge(DiscoveryAcknowledgeData::new(2))));

    let master_bus = MockBus::recording();
    master_bus.feed(&ack);
    let mut master = Palantir::new_master(slaves(&[2]), master_bus.clone());
    assert_eq!(master.discover_devices(), Ok(()));
    assert_eq!(master_bus.sent(), request);
}

#[test]
fn discovery_rejects_ack_from_wrong_slave() {
    let bus = MockBus::recording();
    bus.feed(&frame_of(MASTER_ADDRESS, &Message::DiscoveryAcknowledge(DiscoveryAcknowledgeData::new(3))));
    let mut master = Palantir::new_master(slaves(&[2]), bus);
    assert_eq!(master.discover_devices(), Err(Error::InvalidDiscoveryAck));
}

#[test]
fn discovery_ignores_other_messages_while_waiting() {
    let bus = MockBus::recording();
    bus.feed(&frame_of(MASTER_ADDRESS, &Message::UpdateRequest(UpdateRequest::new(4))));
    bus.feed(&frame_of(MASTER_ADDRESS, &Message::DiscoveryAcknowledge(DiscoveryAcknowledgeData::new(2))));
    bus.feed(&frame_of(MASTER_ADDRESS, &Message::DiscoveryAcknowledge(DiscoveryAcknowledgeData::new(3))));
    let mut master = Palantir::new_master(slaves(&[2, 3]), bus);
    assert_eq!(master.discover_devices(), Ok(()));
}

#[test]
fn discovery_times_out() {
    let bus = MockBus::recording();
    let mut master = Palantir::new_master(slaves(&[2]), bus.clone());
    master.set_poll_limit(10);
    assert_eq!(master.discover_devices(), Err(Error::Timeout));
    assert_eq!(bus.sends(), 1);
}

#[test]
fn discovery_with_no_slaves_succeeds() {
    let mut master = Palantir::new_master(SlaveAddresses::new(), MockBus::recording());
    assert_eq!(master.discover_devices(), Ok(()));
}

#[test]
fn only_a_master_discovers() {
    let mut slave = Palantir::new_slave(2, MockBus::recording());
    assert_eq!(slave.discover_devices(), Err(Error::NotMaster));
}

#[test]
fn slave_discovery_is_strict() {
    let bus = MockBus::recording();
    bus.feed(&frame_of(2, &Message::UpdateRequest(UpdateRequest::new(4))));
    let mut slave = Palantir::new_slave(2, bus.clone());
    assert_eq!(slave.discovery_mode(), Err(Error::InvalidDiscoveryReq));
    assert!(bus.sent().is_empty());
}

#[test]
fn slave_discovery_times_out() {
    let mut slave = Palantir::new_slave(2, MockBus::recording());
    slave.set_poll_limit(5);
    assert_eq!(slave.discovery_mode(), Err(Error::Timeout));
}

#[test]
fn ingest_then_poll_drains_the_mailbox() {
    let mut slave = Palantir::new_slave(2, MockBus::recording());
    let msg = Message::UpdateRequest(UpdateRequest::new(77));
    for w in frame_of(2, &msg) {
        slave.ingest(w);
    }
    assert_eq!(slave.poll(), Some(msg));
    assert_eq!(slave.poll(), None);
}

#[test]
fn transport_role_follows_address() {
    assert_eq!(Transport::new(MASTER_ADDRESS), Transport::new_master());
    assert_eq!(Transport::new(6), Transport::new_slave(6));
    assert!(!Transport::new(6).loopback);
}

#[test]
fn slave_messages_from_the_catalog() {
    let b = Broadcast::new([3; 10]);
    let u = UpdateRequest::new(12);
    assert_eq!(SlaveMessage::from_message(&Message::Broadcast(b)), Some(SlaveMessage::Broadcast(b)));
    assert_eq!(SlaveMessage::from_message(&Message::UpdateRequest(u)), Some(SlaveMessage::UpdateRequest(u)));
    assert_eq!(
        SlaveMessage::from_message(&Message::DiscoveryRequest(DiscoveryRequestData::new(2))),
        None
    );
    assert_eq!(SlaveMessage::UpdateRequest(u).to_message(), Message::UpdateRequest(u));
    assert_eq!(b.to_message(), Message::Broadcast(b));
    assert_eq!(DiscoveryAcknowledgeData::new(4).to_message(), Message::DiscoveryAcknowledge(DiscoveryAcknowledgeData::new(4)));
}

#[test]
fn receiver_data_has_the_declared_length() {
    let mut rx = Receiver::new();
    assert_eq!(rx.data().len(), 0);
    rx.start();
    assert!(rx.add_to_buffer(3).is_ok());
    assert_eq!(rx.data().len(), 3);
    assert!(rx.add_to_buffer(42).is_ok());
    assert_eq!(rx.data().len(), 3);
    assert_eq!(rx.data()[0], 42);
    rx.start();
    assert!(rx.add_to_buffer(64).is_ok());
    assert_eq!(rx.data().len(), MAX_DATA_LEN);
}

#[test]
fn role_follows_address() {
    let mut master = Palantir::new(MASTER_ADDRESS, MockBus::recording());
    assert_eq!(master.address(), MASTER_ADDRESS);
    assert_eq!(master.discover_devices(), Ok(()));
    let mut slave = Palantir::new(5, MockBus::recording());
    assert_eq!(slave.address(), 5);
    assert_eq!(slave.discover_devices(), Err(Error::NotMaster));
}

#[test]
fn discovery_stops_sending_after_an_error() {
    let bus = MockBus::recording();
    bus.feed(&frame_of(MASTER_ADDRESS, &Message::DiscoveryAcknowledge(DiscoveryAcknowledgeData::new(3))));
    let mut master = Palantir::new_master(slaves(&[2, 3]), bus.clone());
    assert_eq!(master.discover_devices(), Err(Error::InvalidDiscoveryAck));
    assert_eq!(bus.sends(), 1);
    assert_eq!(bus.sent(), frame_of(2, &Message::DiscoveryRequest(DiscoveryRequestData::new(2))));
}

#[test]
fn master_in_its_own_list_cannot_send_to_itself() {
    let bus = MockBus::recording();
    let mut master = Palantir::new_master(slaves(&[MASTER_ADDRESS]), bus.clone());
    assert_eq!(master.discover_devices(), Err(Error::SendToSelf));
    assert_eq!(bus.sends(), 0);
}
