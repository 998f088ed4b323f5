use feudle::protocol::{frame_packet, MessageType, StreamId, MAGIC_BYTE, MAX_PLAYERS};

#[test]
fn constants_match_the_wire_format() {
    assert_eq!(MAGIC_BYTE, 42);
    assert_eq!(MAX_PLAYERS, 2);
}

#[test]
fn message_types_have_their_bytes() {
    let all = [
        MessageType::Heartbeat,
        MessageType::JoinEvent,
        MessageType::AssignIdEvent,
        MessageType::ReadyEvent,
        MessageType::StartEvent,
        MessageType::GuessEvent,
        MessageType::FinishEvent,
        MessageType::EndEvent,
    ];
    for (i, t) in all.iter().enumerate() {
        assert_eq!(t.to_byte(), i as u8);
        assert_eq!(MessageType::from_byte(i as u8), Some(*t));
    }
    assert_eq!(MessageType::from_byte(8), None);
    assert_eq!(MessageType::from_byte(255), None);
}

#[test]
fn stream_ids_have_their_bytes() {
    assert_eq!(StreamId::Heartbeat.to_byte(), 0);
    assert_eq!(StreamId::Event.to_byte(), 1);
}

#[test]
fn frame_prepends_the_header() {
    assert_eq!(frame_packet(MessageType::GuessEvent, &[1, 65, 66]), vec![42, 5, 1, 65, 66]);
    assert_eq!(frame_packet(MessageType::Heartbeat, &[]), vec![42, 0]);
}

#[test]
fn framed_packet_parses_back() {
    let p = frame_packet(MessageType::EndEvent, &[9]);
    assert_eq!(p[0], MAGIC_BYTE);
    assert_eq!(MessageType::from_byte(p[1]), Some(MessageType::EndEvent));
    assert_eq!(&p[2..], &[9]);
}
