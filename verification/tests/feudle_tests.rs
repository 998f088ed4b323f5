use feudle::feudle::Feudle;

fn board(word: &str) -> Feudle {
    let mut f = Feudle::new();
    f.set_word(word.to_string());
    f
}

#[test]
fn new_board_has_not_lost() {
    let f = Feudle::new();
    assert!(!f.check_lose());
    assert!(f.check_win());
    assert_eq!(f.revealed_word(), Vec::<char>::new());
}

#[test]
fn set_word_upper_cases_and_hides() {
    let f = board("crane");
    assert_eq!(f.revealed_word(), vec!['_', '_', '_', '_', '_']);
    assert!(!f.check_win());
}

#[test]
fn guessing_the_word_wins() {
    let mut f = board("crane");
    assert!(f.guess(&"CRANE".to_string()));
    assert!(f.check_win());
    assert_eq!(f.revealed_word(), vec!['C', 'R', 'A', 'N', 'E']);
}

#[test]
fn guessed_letters_show_where_they_are() {
    let mut f = board("CRANE");
    assert!(!f.guess(&"CRANX".to_string()));
    assert_eq!(f.revealed_word(), vec!['C', 'R', 'A', 'N', '_']);
}

#[test]
fn letters_at_other_places_stay_hidden() {
    let mut f = board("CRANE");
    assert!(!f.guess(&"NARC".to_string()));
    assert_eq!(f.revealed_word(), vec!['_', '_', '_', '_', '_']);
}

#[test]
fn non_letters_are_ignored() {
    let mut f = board("CRANE");
    assert!(!f.guess(&"12 !?".to_string()));
    assert_eq!(f.revealed_word(), vec!['_', '_', '_', '_', '_']);
}

#[test]
fn letters_out_of_place_do_not_win() {
    let mut f = board("CRANE");
    assert!(!f.guess(&"ENARC".to_string()));
    assert_eq!(f.revealed_word(), vec!['_', '_', 'A', '_', '_']);
    let mut g = board("CAT");
    assert!(!g.guess(&"TAC".to_string()));
    assert_eq!(g.revealed_word(), vec!['_', 'A', '_']);
    assert!(g.guess(&"CAT".to_string()));
}

#[test]
fn places_found_over_several_guesses_add_up() {
    let mut f = board("CAT");
    assert!(!f.guess(&"CXX".to_string()));
    assert!(!f.guess(&"XAX".to_string()));
    assert!(f.guess(&"XXT".to_string()));
}

#[test]
fn six_guesses_lose() {
    let mut f = board("CRANE");
    for i in 0..6 {
        assert!(!f.check_lose(), "after {} guesses", i);
        assert!(!f.guess(&"ZZZZZ".to_string()));
    }
    assert!(f.check_lose());
}

#[test]
fn try_guess_refuses_untracked_letters() {
    let mut f = board("CRANE");
    assert_eq!(f.try_guess(&"crane".to_string()), None);
    assert_eq!(f.revealed_word(), vec!['_', '_', '_', '_', '_']);
    assert!(!f.check_lose());
    assert_eq!(f.try_guess(&"CRANE".to_string()), Some(true));
}

#[test]
fn try_guess_refuses_an_untracked_word() {
    let mut f = board("AB1");
    assert_eq!(f.try_guess(&"AB".to_string()), None);
}

#[test]
fn update_changes_nothing() {
    let mut f = board("CRANE");
    f.update(true);
    assert_eq!(f.revealed_word(), vec!['_', '_', '_', '_', '_']);
}

#[test]
fn try_guess_skips_non_letters() {
    let mut f = board("A");
    assert_eq!(f.try_guess(&"1".to_string()), Some(false));
    assert_eq!(f.revealed_word(), vec!['_']);
    assert_eq!(f.try_guess(&"1A".to_string()), Some(false));
    assert_eq!(f.try_guess(&"A1".to_string()), Some(true));
}

#[test]
fn win_check_stops_before_an_untracked_character() {
    let mut f = board("A1");
    assert_eq!(f.try_guess(&"B".to_string()), Some(false));
    assert!(!f.check_win());
    assert_eq!(f.try_guess(&"A".to_string()), None);
}
