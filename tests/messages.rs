use palantir::baud::calculate_baud_value;
use palantir::messages::{
    data_from_message, get_message_id, message_from_data, Broadcast, DiscoveryAcknowledgeData,
    DiscoveryRequestData, Message, SolenoidUpdate, UpdateRequest,
};
use palantir::{Error, MAX_DATA_LEN};

fn encode(msg: &Message) -> Vec<u8> {
    let mut buf = [0u8; MAX_DATA_LEN];
    let len = match data_from_message(msg, &mut buf) {
        Ok(len) => len,
        Err(_) => panic!("Could not gen data array from message"),
    };
    buf[..len].to_vec()
}

#[test]
fn test_discovery_request() {
    let msg = Message::DiscoveryRequest(DiscoveryRequestData::new(1));
    let mut buf = [0u8; MAX_DATA_LEN];
    let data_size = match data_from_message(&msg, &mut buf) {
        Ok(len) => len,
        _ => panic!("Could not gen data array from message"),
    };

    let lazarus = match message_from_data(buf.split_at(data_size).0) {
        Ok(Message::DiscoveryRequest(data)) => data,
        _ => panic!("could not recreate message from data"),
    };

    match msg {
        Message::DiscoveryRequest(data) => {
            assert_eq!(data.target_address(), lazarus.target_address())
        }
        _ => panic!(),
    }
}

#[test]
fn test_discovery_acknowledge() {
    let msg = Message::DiscoveryAcknowledge(DiscoveryAcknowledgeData::new(1));
    let mut buf = [0u8; MAX_DATA_LEN];
    let data_size = match data_from_message(&msg, &mut buf) {
        Ok(len) => len,
        _ => panic!("Could not gen data array from message"),
    };

    let lazarus = match message_from_data(buf.split_at(data_size).0) {
        Ok(Message::DiscoveryAcknowledge(data)) => data,
        _ => panic!("could not recreate message from data"),
    };

    match msg {
        Message::DiscoveryAcknowledge(data) => {
            assert_eq!(data.responder_address(), lazarus.responder_address())
        }
        _ => panic!(),
    }
}

#[test]
fn discriminants_are_fixed() {
    let all = [
        Message::Broadcast(Broadcast::new([0; 10])),
        Message::DiscoveryRequest(DiscoveryRequestData::new(2)),
        Message::DiscoveryAcknowledge(DiscoveryAcknowledgeData::new(2)),
        Message::UpdateRequest(UpdateRequest::new(7)),
        Message::SolenoidUpdate(SolenoidUpdate::from_bits(7)),
    ];
    for (i, m) in all.iter().enumerate() {
        assert_eq!(get_message_id(m) as usize, i);
        assert_eq!(encode(m)[0] as usize, i);
    }
}

#[test]
fn every_kind_round_trips() {
    let all = [
        Message::Broadcast(Broadcast::new([1, 2, 3, 4, 5, 6, 7, 8, 9, 250])),
        Message::DiscoveryRequest(DiscoveryRequestData::new(200)),
        Message::DiscoveryAcknowledge(DiscoveryAcknowledgeData::new(3)),
        Message::UpdateRequest(UpdateRequest::new(0xDEAD_BEEF)),
        Message::SolenoidUpdate(SolenoidUpdate::from_bits(0xFFF8_0123)),
    ];
    for m in all.iter() {
        let bytes = encode(m);
        assert_eq!(message_from_data(&bytes), Ok(*m));
    }
}

#[test]
fn update_request_layout_is_little_endian() {
    let bytes = encode(&Message::UpdateRequest(UpdateRequest::new(0x1234_5678)));
    assert_eq!(bytes, vec![3, 0x78, 0x56, 0x34, 0x12]);
}

#[test]
fn broadcast_layout() {
    let bytes = encode(&Message::Broadcast(Broadcast::new([9, 8, 7, 6, 5, 4, 3, 2, 1, 0])));
    assert_eq!(bytes, vec![0, 9, 8, 7, 6, 5, 4, 3, 2, 1, 0]);
}

#[test]
fn solenoid_bit_pack_example() {
    let update = SolenoidUpdate::new(0xFFF, 0);
    assert_eq!(update.bits(), 0x0000_0FFF);
    let bytes = encode(&Message::SolenoidUpdate(update));
    assert_eq!(bytes, vec![4, 0xFF, 0x0F, 0x00, 0x00]);
    match message_from_data(&bytes) {
        Ok(Message::SolenoidUpdate(back)) => {
            assert_eq!(back.bits(), 0x0000_0FFF);
            assert_eq!(back.inputs(), 0xFFF);
            assert_eq!(back.outputs(), 0);
        }
        _ => panic!("could not recreate message from data"),
    }
}

#[test]
fn solenoid_outputs_and_reserved_bits() {
    let update = SolenoidUpdate::new(0x001, 0x7F);
    assert_eq!(update.bits(), 0x0007_F001);
    assert_eq!(update.inputs(), 1);
    assert_eq!(update.outputs(), 0x7F);
    let raw = SolenoidUpdate::from_bits(0xFFFF_FFFF);
    assert_eq!(raw.inputs(), 0xFFF);
    assert_eq!(raw.outputs(), 0x7F);
    let bytes = encode(&Message::SolenoidUpdate(raw));
    match message_from_data(&bytes) {
        Ok(Message::SolenoidUpdate(back)) => assert_eq!(back.bits(), 0xFFFF_FFFF),
        _ => panic!("reserved bits were not kept"),
    }
}

#[test]
fn unknown_discriminant_is_unrecognized() {
    assert_eq!(message_from_data(&[5, 1, 2, 3, 4]), Err(Error::UnrecognizedMessage));
    assert_eq!(message_from_data(&[255]), Err(Error::UnrecognizedMessage));
}

#[test]
fn short_payloads_are_unrecognized() {
    assert_eq!(message_from_data(&[]), Err(Error::UnrecognizedMessage));
    assert_eq!(message_from_data(&[1]), Err(Error::UnrecognizedMessage));
    assert_eq!(message_from_data(&[2]), Err(Error::UnrecognizedMessage));
    assert_eq!(message_from_data(&[3, 1, 2, 3]), Err(Error::UnrecognizedMessage));
    assert_eq!(message_from_data(&[4, 1]), Err(Error::UnrecognizedMessage));
    assert_eq!(message_from_data(&[0, 1, 2, 3, 4, 5, 6, 7, 8, 9]), Err(Error::UnrecognizedMessage));
}

#[test]
fn trailing_bytes_are_ignored() {
    match message_from_data(&[1, 6, 99, 98]) {
        Ok(Message::DiscoveryRequest(d)) => assert_eq!(d.target_address(), 6),
        _ => panic!("expected a discovery request"),
    }
}

#[test]
fn discovery_data_from_slice() {
    assert!(DiscoveryRequestData::from_slice(&[]).is_err());
    assert_eq!(DiscoveryRequestData::from_slice(&[4, 5]).unwrap().target_address(), 4);
    assert!(DiscoveryAcknowledgeData::from_slice(&[]).is_err());
    assert_eq!(DiscoveryAcknowledgeData::from_slice(&[8]).unwrap().responder_address(), 8);
    assert_eq!(DiscoveryRequestData::new(11).to_array(), [11]);
    assert_eq!(DiscoveryAcknowledgeData::new(12).to_array(), [12]);
}

#[test]
fn encoding_leaves_the_rest_of_the_buffer() {
    let mut buf = [0xAAu8; MAX_DATA_LEN];
    let len = data_from_message(&Message::DiscoveryRequest(DiscoveryRequestData::new(3)), &mut buf).unwrap();
    assert_eq!(len, 2);
    assert_eq!(&buf[..2], &[1, 3]);
    assert!(buf[2..].iter().all(|b| *b == 0xAA));
}

#[test]
fn it_works() {
    assert_eq!(2 + 2, 4);
}

#[test]
fn baud_value_for_9600_at_48_mhz() {
    assert_eq!(calculate_baud_value(9600, 48_000_000, 16), 65326);
    assert_eq!(calculate_baud_value(115_200, 48_000_000, 16), 63019);
    assert_eq!(calculate_baud_value(0, 48_000_000, 16), 0);
}
