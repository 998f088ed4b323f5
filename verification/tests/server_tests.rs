use feudle::client::{client_packet_check, ClientNotice, ClientState};
use feudle::protocol::{frame_packet, MessageType};
use feudle::server::{Outgoing, PeerAddr, ServerState};

fn addr(port: u16) -> PeerAddr {
    PeerAddr { ip: 0x7f00_0001, port, is_v6: false, flowinfo: 0, scope_id: 0 }
}

fn sent(outs: &[Outgoing]) -> Vec<(u16, Vec<u8>)> {
    outs.iter().map(|o| (o.to.port, o.bytes.clone())).collect()
}

fn two_players() -> ServerState {
    let mut s = ServerState::new();
    s.handle_packet(addr(1), &frame_packet(MessageType::JoinEvent, &[]), 3);
    s.handle_packet(addr(2), &frame_packet(MessageType::JoinEvent, &[]), 3);
    s
}

#[test]
fn new_server_is_empty() {
    let s = ServerState::new();
    assert_eq!(s.get_player_count(), 0);
    assert!(s.heartbeats().is_empty());
}

#[test]
fn next_player_id_counts_players() {
    let mut s = ServerState::new();
    assert_eq!(s.get_next_player_id(), 0);
    assert_eq!(s.get_next_player_id(), 1);
    assert_eq!(s.get_player_count(), 2);
}

#[test]
fn join_assigns_ids_in_order() {
    let mut s = ServerState::new();
    let outs = s.handle_packet(addr(1), &frame_packet(MessageType::JoinEvent, &[]), 3);
    assert_eq!(sent(&outs), vec![(1, vec![42, 2, 0])]);
    let outs = s.handle_packet(addr(2), &frame_packet(MessageType::JoinEvent, &[]), 3);
    assert_eq!(sent(&outs), vec![(2, vec![42, 2, 1])]);
    assert_eq!(s.get_player_count(), 2);
}

#[test]
fn join_twice_or_when_full_is_refused() {
    let mut s = ServerState::new();
    s.handle_packet(addr(1), &frame_packet(MessageType::JoinEvent, &[]), 3);
    assert!(s.handle_packet(addr(1), &frame_packet(MessageType::JoinEvent, &[]), 3).is_empty());
    assert_eq!(s.get_player_count(), 1);
    s.handle_packet(addr(2), &frame_packet(MessageType::JoinEvent, &[]), 3);
    assert!(s.handle_packet(addr(3), &frame_packet(MessageType::JoinEvent, &[]), 3).is_empty());
    assert_eq!(s.get_player_count(), 2);
}

#[test]
fn all_ready_starts_the_match() {
    let mut s = two_players();
    assert!(s.handle_packet(addr(1), &frame_packet(MessageType::ReadyEvent, &[0]), 3).is_empty());
    assert!(s.handle_packet(addr(1), &frame_packet(MessageType::ReadyEvent, &[0]), 3).is_empty());
    let outs = s.handle_packet(addr(2), &frame_packet(MessageType::ReadyEvent, &[1]), 3);
    assert_eq!(sent(&outs), vec![(1, vec![42, 4, 3]), (2, vec![42, 4, 3])]);
}

#[test]
fn guess_goes_to_the_others() {
    let mut s = two_players();
    let outs = s.handle_packet(addr(1), &frame_packet(MessageType::GuessEvent, &[0, b'A', b'B']), 3);
    assert_eq!(sent(&outs), vec![(2, vec![42, 5, 0, b'A', b'B'])]);
    let outs = s.handle_packet(addr(2), &frame_packet(MessageType::GuessEvent, &[1, b'Z']), 3);
    assert_eq!(sent(&outs), vec![(1, vec![42, 5, 1, b'Z'])]);
    let outs = s.handle_packet(addr(2), &frame_packet(MessageType::GuessEvent, &[1]), 3);
    assert_eq!(sent(&outs), vec![(1, vec![42, 5, 1])]);
}

#[test]
fn finish_ends_the_match_for_all() {
    let mut s = two_players();
    let outs = s.handle_packet(addr(2), &frame_packet(MessageType::FinishEvent, &[1, 4]), 3);
    assert_eq!(sent(&outs), vec![(1, vec![42, 7, 1]), (2, vec![42, 7, 1])]);
}

#[test]
fn heartbeat_is_answered() {
    let mut s = ServerState::new();
    let outs = s.handle_packet(addr(9), &frame_packet(MessageType::Heartbeat, &[]), 3);
    assert_eq!(sent(&outs), vec![(9, vec![42, 0])]);
}

#[test]
fn heartbeats_go_to_all_players() {
    let s = two_players();
    assert_eq!(sent(&s.heartbeats()), vec![(1, vec![42, 0]), (2, vec![42, 0])]);
}

#[test]
fn other_packets_change_nothing() {
    let mut s = two_players();
    assert!(s.handle_packet(addr(1), &vec![7, 1], 3).is_empty());
    assert!(s.handle_packet(addr(1), &vec![7], 3).is_empty());
    assert!(s.handle_packet(addr(1), &vec![42, 2, 5], 3).is_empty());
    assert!(s.handle_packet(addr(1), &vec![42, 200], 3).is_empty());
    assert_eq!(s.get_player_count(), 2);
}

#[test]
fn bind_player_rebinds() {
    let mut s = ServerState::new();
    s.bind_player(addr(1), 5);
    s.bind_player(addr(1), 6);
    let outs = s.heartbeats();
    assert_eq!(sent(&outs), vec![(1, vec![42, 0])]);
    assert!(!s.packet_check(&frame_packet(MessageType::GuessEvent, &[6, 1])));
    assert!(!s.packet_check(&frame_packet(MessageType::GuessEvent, &[5, 1])));
}

#[test]
fn start_and_end_game_run() {
    let mut s = ServerState::new();
    s.start_game();
    s.end_game();
    assert_eq!(s.get_player_count(), 0);
}

#[test]
fn packets_the_server_gives_up_on() {
    let s = two_players();
    assert!(s.packet_check(&vec![]));
    assert!(s.packet_check(&vec![42]));
    assert!(!s.packet_check(&vec![3]));
    assert!(s.packet_check(&vec![42, 3]));
    assert!(s.packet_check(&vec![42, 6]));
    assert!(s.packet_check(&vec![42, 5]));
    assert!(!s.packet_check(&vec![42, 5, 0]));
    assert!(s.packet_check(&vec![42, 5, 9, 1]));
    assert!(!s.packet_check(&vec![42, 5, 0, 1]));
    assert!(!s.packet_check(&vec![42, 1]));
    assert!(!s.packet_check(&vec![42, 3, 0]));
}

#[test]
fn clients_accept_the_start_message() {
    let mut s = two_players();
    s.handle_packet(addr(1), &frame_packet(MessageType::ReadyEvent, &[0]), 9);
    let outs = s.handle_packet(addr(2), &frame_packet(MessageType::ReadyEvent, &[1]), 9);
    assert_eq!(outs.len(), 2);
    for out in outs {
        assert!(!client_packet_check(&out.bytes));
        let mut c = ClientState::new();
        let (changed, notice) = c.handle_packet(&out.bytes);
        assert!(changed);
        assert!(matches!(notice, ClientNotice::WordRequested(9)));
    }
}
