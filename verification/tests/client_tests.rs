use feudle::client::{client_packet_check, color_marks, ClientNotice, ClientState, TurnEnd};
use feudle::feudle::Feudle;
use feudle::protocol::{frame_packet, MessageType};

fn chars(s: &str) -> Vec<char> {
    s.chars().collect()
}

#[test]
fn new_client_is_idle() {
    let s = ClientState::new();
    assert_eq!(s.get_id(), 0);
    assert!(!s.get_ready());
    assert!(!s.get_game_started());
    assert!(!s.get_game_over());
}

#[test]
fn setters_and_getters() {
    let mut s = ClientState::new();
    s.set_ready(true);
    s.set_game_started(true);
    s.set_id(7);
    s.set_game_over(true);
    assert!(s.get_ready());
    assert!(s.get_game_started());
    assert_eq!(s.get_id(), 7);
    assert!(s.get_game_over());
}

#[test]
fn marks_of_a_guess() {
    assert_eq!(color_marks(&chars("CRATE"), &chars("TRACE")), chars("YGGYG"));
    assert_eq!(color_marks(&chars("CRANE"), &chars("CRANE")), chars("GGGGG"));
    assert_eq!(color_marks(&chars("AB"), &chars("XBAQ")), chars("_GY_"));
}

#[test]
fn color_vec_upper_cases_the_guess() {
    let mut s = ClientState::new();
    s.set_word("CRATE".to_string());
    assert_eq!(s.get_color_vec("crane".to_string()), chars("GGG_G"));
}

#[test]
fn color_vec_uses_the_unicode_upper_case() {
    let mut s = ClientState::new();
    s.set_word("SS".to_string());
    assert_eq!(s.get_color_vec("ß".to_string()), chars("GG"));
}

#[test]
fn begin_game_sets_both_words() {
    let mut s = ClientState::new();
    let mut game = Feudle::new();
    s.begin_game(&mut game, "crane".to_string());
    assert!(s.get_game_started());
    assert_eq!(game.revealed_word(), chars("_____"));
    assert_eq!(s.get_color_vec("CRANE".to_string()), chars("GGGGG"));
}

#[test]
fn bad_magic_is_ignored() {
    let mut s = ClientState::new();
    let (changed, notice) = s.handle_packet(&vec![1, 2, 3]);
    assert!(!changed);
    assert!(matches!(notice, ClientNotice::BadMagic));
}

#[test]
fn assigned_id_is_taken() {
    let mut s = ClientState::new();
    let (changed, notice) = s.handle_packet(&frame_packet(MessageType::AssignIdEvent, &[1]));
    assert!(!changed);
    assert!(matches!(notice, ClientNotice::IdAssigned(1)));
    assert_eq!(s.get_id(), 1);
}

#[test]
fn start_asks_for_the_word() {
    let mut s = ClientState::new();
    let (changed, notice) = s.handle_packet(&frame_packet(MessageType::StartEvent, &[3]));
    assert!(changed);
    assert!(matches!(notice, ClientNotice::WordRequested(3)));
    assert!(!s.get_game_started());
}

#[test]
fn opponent_guess_is_marked() {
    let mut s = ClientState::new();
    s.set_word("CRATE".to_string());
    let (changed, notice) =
        s.handle_packet(&frame_packet(MessageType::GuessEvent, &[1, b't', b'r', b'a', b'c', b'e']));
    assert!(changed);
    match notice {
        ClientNotice::OpponentGuess(marks) => assert_eq!(marks, chars("YGGYG")),
        other => panic!("unexpected {:?}", other),
    }
}

#[test]
fn end_tells_winner_and_loser() {
    let mut s = ClientState::new();
    s.set_id(1);
    let (changed, notice) = s.handle_packet(&frame_packet(MessageType::EndEvent, &[1]));
    assert!(changed);
    assert!(matches!(notice, ClientNotice::Won));
    assert!(s.get_game_over());

    let mut t = ClientState::new();
    let (_, notice) = t.handle_packet(&frame_packet(MessageType::EndEvent, &[1]));
    assert!(matches!(notice, ClientNotice::Lost));
    assert!(t.get_game_over());
}

#[test]
fn heartbeat_and_unknown() {
    let mut s = ClientState::new();
    let (changed, notice) = s.handle_packet(&frame_packet(MessageType::Heartbeat, &[]));
    assert!(!changed);
    assert!(matches!(notice, ClientNotice::Heartbeat));
    let (changed, notice) = s.handle_packet(&vec![42, 99]);
    assert!(!changed);
    assert!(matches!(notice, ClientNotice::UnknownMessage));
    let (_, notice) = s.handle_packet(&frame_packet(MessageType::JoinEvent, &[]));
    assert!(matches!(notice, ClientNotice::UnknownMessage));
}

#[test]
fn packets_the_client_gives_up_on() {
    assert!(client_packet_check(&vec![]));
    assert!(client_packet_check(&vec![42]));
    assert!(!client_packet_check(&vec![7]));
    assert!(client_packet_check(&vec![42, 2]));
    assert!(client_packet_check(&vec![42, 4]));
    assert!(client_packet_check(&vec![42, 7]));
    assert!(client_packet_check(&vec![42, 5]));
    assert!(client_packet_check(&vec![42, 5, 1, 0xff]));
    assert!(!client_packet_check(&vec![42, 5, 1]));
    assert!(!client_packet_check(&vec![42, 5, 1, b'A']));
    assert!(!client_packet_check(&vec![42, 0]));
    assert!(!client_packet_check(&vec![42, 2, 0]));
}

#[test]
fn a_turn_sends_the_guess() {
    let mut s = ClientState::new();
    s.set_id(1);
    let mut game = Feudle::new();
    game.set_word("CRANE".to_string());
    let turn = s.play_turn(&mut game, &"CRANX".to_string()).unwrap();
    assert_eq!(turn.guess_packet, vec![42, 5, 1, b'C', b'R', b'A', b'N', b'X']);
    assert_eq!(turn.shown, chars("CRAN_"));
    assert!(turn.finish_packet.is_none());
    assert_eq!(turn.end, TurnEnd::Playing);

    let turn = s.play_turn(&mut game, &"E".to_string()).unwrap();
    assert_eq!(turn.end, TurnEnd::Playing);
    assert_eq!(turn.shown, chars("CRAN_"));

    let turn = s.play_turn(&mut game, &"CRANE".to_string()).unwrap();
    assert_eq!(turn.end, TurnEnd::Won);
    assert_eq!(turn.finish_packet, Some(vec![42, 6, 1]));
}

#[test]
fn a_turn_cuts_characters_to_bytes() {
    let s = ClientState::new();
    let mut game = Feudle::new();
    game.set_word("A".to_string());
    let turn = s.play_turn(&mut game, &"A\u{20ac}".to_string()).unwrap();
    assert_eq!(turn.guess_packet, vec![42, 5, 0, b'A', 0xac]);
    assert_eq!(turn.end, TurnEnd::Won);
}

#[test]
fn turns_run_out() {
    let s = ClientState::new();
    let mut game = Feudle::new();
    game.set_word("CRANE".to_string());
    for _ in 0..5 {
        assert_eq!(s.play_turn(&mut game, &"ZZ".to_string()).unwrap().end, TurnEnd::Playing);
    }
    assert_eq!(s.play_turn(&mut game, &"ZZ".to_string()).unwrap().end, TurnEnd::OutOfGuesses);
}

#[test]
fn a_turn_the_board_cannot_take() {
    let s = ClientState::new();
    let mut game = Feudle::new();
    game.set_word("CRANE".to_string());
    assert!(s.play_turn(&mut game, &"crane".to_string()).is_none());
    assert!(!game.check_lose());
}

#[test]
fn a_turn_needs_a_tracked_word() {
    let s = ClientState::new();
    let mut game = Feudle::new();
    game.set_word("A1".to_string());
    assert!(s.play_turn(&mut game, &"B".to_string()).is_none());
    assert!(!game.check_lose());
}

#[test]
fn ascii_guess_case_does_not_change_marks() {
    let mut s = ClientState::new();
    s.set_word("HELLO".to_string());
    assert_eq!(s.get_color_vec("hello".to_string()), chars("GGGGG"));
    assert_eq!(s.get_color_vec("HeLlO".to_string()), chars("GGGGG"));
    assert_eq!(s.get_color_vec("olleh".to_string()), s.get_color_vec("OLLEH".to_string()));
}
