//! What a client knows of the match, and how it answers the server.

use vstd::prelude::*;
use vstd::utf8::{decode_utf8, valid_utf8};

use crate::feudle::{
    all_in_position, ascii_letters_alphabetic, guess_tracked, letters_after, revealed,
    settled_before, word_tracked, Feudle,
};
use crate::protocol::{bytes_from, framed, frame_packet, MessageType, PlayerId, MAGIC_BYTE};
use crate::text::{all_ascii, ascii_upper, chars_of, contains_char, string_from_utf8, to_uppercase, unicode_uppercase};

verus! {

/// A client's view of the match.
pub struct ClientState {
    id: PlayerId,
    ready: bool,
    game_started: bool,
    game_over: bool,
    word: String,
}

/// What a client state holds.
pub struct ClientView {
    pub id: PlayerId,
    pub ready: bool,
    pub game_started: bool,
    pub game_over: bool,
    pub word: Seq<char>,
}

impl View for ClientState {
    type V = ClientView;

    closed spec fn view(&self) -> ClientView {
        ClientView {
            id: self.id,
            ready: self.ready,
            game_started: self.game_started,
            game_over: self.game_over,
            word: self.word@,
        }
    }
}

/// A call of one of the client's setters, with the value it sets.
pub enum ClientUpdate {
    Ready(bool),
    GameStarted(bool),
    Id(PlayerId),
    GameOver(bool),
    Word(Seq<char>),
}

/// The state after a setter call: its field takes the value, the others
/// stay.
pub open spec fn updated(v: ClientView, u: ClientUpdate) -> ClientView {
    match u {
        ClientUpdate::Ready(b) => ClientView { ready: b, ..v },
        ClientUpdate::GameStarted(b) => ClientView { game_started: b, ..v },
        ClientUpdate::Id(i) => ClientView { id: i, ..v },
        ClientUpdate::GameOver(b) => ClientView { game_over: b, ..v },
        ClientUpdate::Word(w) => ClientView { word: w, ..v },
    }
}

/// The mark for position `i` of a guess against the word: `G` where the
/// word has that character at that position, `Y` where it has it
/// elsewhere only, `_` where it does not have it.
pub open spec fn color_at(word: Seq<char>, guess: Seq<char>, i: int) -> char {
    if word.contains(guess[i]) && i < word.len() && word[i] == guess[i] {
        'G'
    } else if word.contains(guess[i]) {
        'Y'
    } else {
        '_'
    }
}

/// The marks of a whole guess against the word.
pub open spec fn colors(word: Seq<char>, guess: Seq<char>) -> Seq<char> {
    Seq::new(guess.len(), |i: int| color_at(word, guess, i))
}

/// The marks of `guess` against `word`, one per character of the guess.
pub fn color_marks(word: &Vec<char>, guess: &Vec<char>) -> (marks: Vec<char>)
    ensures
        marks@ == colors(word@, guess@),
{
    let mut marks: Vec<char> = Vec::new();
    let n = guess.len();
    for i in 0..n
        invariant
            n == guess@.len(),
            marks@ == colors(word@, guess@).take(i as int),
    {
        let c = guess[i];
        let in_word = contains_char(word, c);
        let mark = if in_word && i < word.len() && word[i] == c {
            'G'
        } else if in_word {
            'Y'
        } else {
            '_'
        };
        marks.push(mark);
        assert(colors(word@, guess@).take(i + 1) =~= colors(word@, guess@).take(i as int).push(mark));
    }
    assert(colors(word@, guess@).take(n as int) =~= colors(word@, guess@));
    marks
}

/// What a packet from the server told the client.
#[derive(Debug)]
pub enum ClientNotice {
    /// The packet did not open with the magic byte.
    BadMagic,
    /// The server gave this client its id.
    IdAssigned(PlayerId),
    /// The match starts with the word of this index, which the caller
    /// looks up and hands to `ClientState::begin_game`.
    WordRequested(u8),
    /// The opponent guessed; the marks of that guess against our word.
    OpponentGuess(Vec<char>),
    /// The match is over and this client won.
    Won,
    /// The match is over and another player won.
    Lost,
    /// A heartbeat.
    Heartbeat,
    /// A message type the client does not handle.
    UnknownMessage,
}

/// The type byte and data of a packet that opens with the magic byte.
pub open spec fn type_byte(payload: Seq<u8>) -> u8 {
    payload[1]
}

pub open spec fn data_of(payload: Seq<u8>) -> Seq<u8> {
    payload.skip(2)
}

/// The packets on which the client gives up: too short for what its type
/// needs, or an opponent's guess that is not UTF-8.
pub open spec fn client_packet_fails(payload: Seq<u8>) -> bool {
    ||| payload.len() == 0
    ||| (payload[0] == MAGIC_BYTE && payload.len() < 2)
    ||| (payload[0] == MAGIC_BYTE && payload.len() >= 2 && {
        let t = type_byte(payload);
        let data = data_of(payload);
        ||| ((t == MessageType::AssignIdEvent.spec_byte() || t
            == MessageType::StartEvent.spec_byte() || t == MessageType::EndEvent.spec_byte())
            && data.len() == 0)
        ||| (t == MessageType::GuessEvent.spec_byte() && (data.len() == 0 || !valid_utf8(
            data.skip(1),
        )))
    })
}

/// Decides whether the client gives up on `payload`.
pub fn client_packet_check(payload: &Vec<u8>) -> (fails: bool)
    ensures
        fails == client_packet_fails(payload@),
{
    if payload.len() == 0 {
        return true;
    }
    if payload[0] != MAGIC_BYTE {
        return false;
    }
    if payload.len() < 2 {
        return true;
    }
    let t = payload[1];
    if t == MessageType::AssignIdEvent.to_byte() || t == MessageType::StartEvent.to_byte() || t
        == MessageType::EndEvent.to_byte() {
        return payload.len() == 2;
    }
    if t == MessageType::GuessEvent.to_byte() {
        if payload.len() == 2 {
            return true;
        }
        let guess_bytes = bytes_from(payload, 3);
        assert(guess_bytes@ =~= data_of(payload@).skip(1));
        return string_from_utf8(guess_bytes).is_none();
    }
    false
}

/// The data of a guess message: the player's id, then each character of
/// the guess cut to its low byte.
pub open spec fn guess_data(id: PlayerId, guess: Seq<char>) -> Seq<u8> {
    seq![id] + guess.map_values(|c: char| c as u8)
}

/// How a turn left the player's match.
#[derive(Clone, Copy, Debug, PartialEq, Eq, Structural)]
pub enum TurnEnd {
    Playing,
    Won,
    OutOfGuesses,
}

/// What one turn of the player gives to send and to show.
pub struct Turn {
    /// The guess, framed for the server.
    pub guess_packet: Vec<u8>,
    /// The word as the player now sees it.
    pub shown: Vec<char>,
    /// The finish message, framed, where the word is complete.
    pub finish_packet: Option<Vec<u8>>,
    pub end: TurnEnd,
}

/// The client state after a packet: an id assignment sets the id, an end
/// message ends the match, nothing else changes the state.
pub open spec fn client_after(v: ClientView, payload: Seq<u8>) -> ClientView {
    if payload[0] != MAGIC_BYTE {
        v
    } else if type_byte(payload) == MessageType::AssignIdEvent.spec_byte() {
        ClientView { id: data_of(payload)[0], ..v }
    } else if type_byte(payload) == MessageType::EndEvent.spec_byte() {
        ClientView { game_over: true, ..v }
    } else {
        v
    }
}

/// Whether an end message names this client as the winner.
pub open spec fn names_winner(v: ClientView, payload: Seq<u8>) -> bool {
    data_of(payload)[0] == v.id
}

impl ClientState {
    /// A client with id 0, not ready, no match started or over, no word.
    pub fn new() -> (s: ClientState)
        ensures
            s@.id == 0,
            !s@.ready,
            !s@.game_started,
            !s@.game_over,
            s@.word == Seq::<char>::empty(),
    {
        ClientState { id: 0, ready: false, game_started: false, game_over: false, word: String::new() }
    }

    pub fn set_ready(&mut self, ready: bool)
        ensures
            final(self)@ == updated(old(self)@, ClientUpdate::Ready(ready)),
    {
        self.ready = ready;
    }

    pub fn get_ready(&self) -> (r: bool)
        ensures
            r == self@.ready,
    {
        self.ready
    }

    pub fn set_game_started(&mut self, game_started: bool)
        ensures
            final(self)@ == updated(old(self)@, ClientUpdate::GameStarted(game_started)),
    {
        self.game_started = game_started;
    }

    pub fn get_game_started(&self) -> (r: bool)
        ensures
            r == self@.game_started,
    {
        self.game_started
    }

    pub fn set_id(&mut self, id: PlayerId)
        ensures
            final(self)@ == updated(old(self)@, ClientUpdate::Id(id)),
    {
        self.id = id;
    }

    pub fn get_id(&self) -> (r: PlayerId)
        ensures
            r == self@.id,
    {
        self.id
    }

    pub fn set_game_over(&mut self, game_over: bool)
        ensures
            final(self)@ == updated(old(self)@, ClientUpdate::GameOver(game_over)),
    {
        self.game_over = game_over;
    }

    pub fn get_game_over(&self) -> (r: bool)
        ensures
            r == self@.game_over,
    {
        self.game_over
    }

    pub fn set_word(&mut self, word: String)
        ensures
            final(self)@ == updated(old(self)@, ClientUpdate::Word(word@)),
    {
        self.word = word;
    }

    /// The marks of the upper-cased guess against the word.
    pub fn get_color_vec(&self, guess: String) -> (marks: Vec<char>)
        ensures
            marks@ == colors(self@.word, unicode_uppercase(guess@)),
            all_ascii(guess@) ==> marks@ == colors(
                self@.word,
                guess@.map_values(|c: char| ascii_upper(c)),
            ),
    {
        let upper = to_uppercase(guess.as_str());
        let word = chars_of(self.word.as_str());
        let g = chars_of(upper.as_str());
        color_marks(&word, &g)
    }

    /// Starts the match with `word`: the board gets it in ASCII upper case,
    /// this state in Unicode upper case.
    pub fn begin_game(&mut self, game: &mut Feudle, word: String)
        ensures
            final(game)@.word == word@.map_values(|c: char| ascii_upper(c)),
            final(game)@.letters == old(game)@.letters,
            final(game)@.total_guesses == old(game)@.total_guesses,
            final(game)@.guesses == old(game)@.guesses,
            final(self)@ == (ClientView {
                word: unicode_uppercase(word@),
                game_started: true,
                ..old(self)@
            }),
    {
        let upper = to_uppercase(word.as_str());
        game.set_word(word);
        self.set_word(upper);
        self.set_game_started(true);
    }

    /// One turn of the player: takes the guess on the board, frames it for
    /// the server, shows the word, and tells whether the match is won (with
    /// the finish message to send) or the guesses are used up. `None`, with
    /// the board unchanged, where the board cannot take the guess.
    pub fn play_turn(&self, game: &mut Feudle, word_guess: &String) -> (turn: Option<Turn>)
        ensures
            turn is Some <==> (guess_tracked(old(game)@.letters, word_guess@) && word_tracked(
                old(game)@.letters,
                old(game)@.word,
            ) && old(game)@.guesses < u32::MAX),
            turn is None ==> final(game)@ == old(game)@,
            turn matches Some(t) ==> {
                &&& final(game)@.letters == letters_after(
                    old(game)@.letters,
                    old(game)@.word,
                    word_guess@,
                )
                &&& final(game)@.word == old(game)@.word
                &&& final(game)@.total_guesses == old(game)@.total_guesses
                &&& final(game)@.guesses == old(game)@.guesses + 1
                &&& ascii_letters_alphabetic(word_guess@)
                &&& t.guess_packet@ == framed(
                    MessageType::GuessEvent,
                    guess_data(self@.id, word_guess@),
                )
                &&& t.shown@ == revealed(final(game)@.letters, final(game)@.word)
                &&& if all_in_position(final(game)@.letters, final(game)@.word) {
                    &&& t.end == TurnEnd::Won
                    &&& t.finish_packet matches Some(p) && p@ == framed(
                        MessageType::FinishEvent,
                        seq![self@.id],
                    )
                } else {
                    &&& t.finish_packet is None
                    &&& t.end == (if final(game)@.guesses >= final(game)@.total_guesses {
                        TurnEnd::OutOfGuesses
                    } else {
                        TurnEnd::Playing
                    })
                }
            },
    {
        if !game.tracks_word() {
            return None;
        }
        proof {
            let after = letters_after(game@.letters, game@.word, word_guess@);
            assert(after.dom() =~= game@.letters.dom());
            assert forall|j: int|
                0 <= j < game@.word.len() && #[trigger] settled_before(after, game@.word, j) implies after.contains_key(
                game@.word[j] as u32,
            ) by {}
        }
        let won = match game.try_guess(word_guess) {
            Some(w) => w,
            None => {
                return None;
            },
        };
        let g = chars_of(word_guess.as_str());
        let mut data: Vec<u8> = Vec::new();
        data.push(self.id);
        let n = g.len();
        for i in 0..n
            invariant
                n == g@.len(),
                g@ == word_guess@,
                data@ == seq![self@.id] + g@.take(i as int).map_values(|c: char| c as u8),
        {
            data.push(g[i] as u8);
            assert(g@.take(i + 1).map_values(|c: char| c as u8) =~= g@.take(i as int).map_values(
                |c: char| c as u8,
            ).push(g@[i as int] as u8));
        }
        assert(g@.take(n as int) =~= g@);
        let guess_packet = frame_packet(MessageType::GuessEvent, data.as_slice());
        let shown = game.revealed_word();
        if won {
            let id_data: Vec<u8> = vec![self.id];
            let finish = frame_packet(MessageType::FinishEvent, id_data.as_slice());
            assert(id_data@ =~= seq![self@.id]);
            Some(Turn { guess_packet, shown, finish_packet: Some(finish), end: TurnEnd::Won })
        } else if game.check_lose() {
            Some(Turn { guess_packet, shown, finish_packet: None, end: TurnEnd::OutOfGuesses })
        } else {
            Some(Turn { guess_packet, shown, finish_packet: None, end: TurnEnd::Playing })
        }
    }

    /// Reacts to a packet from the server. The flag tells whether what the
    /// player sees changed.
    pub fn handle_packet(&mut self, payload: &Vec<u8>) -> (r: (bool, ClientNotice))
        requires
            !client_packet_fails(payload@),
        ensures
            final(self)@ == client_after(old(self)@, payload@),
            payload@[0] != MAGIC_BYTE ==> r == (false, ClientNotice::BadMagic),
            payload@[0] == MAGIC_BYTE ==> {
                let t = type_byte(payload@);
                let data = data_of(payload@);
                if t == MessageType::AssignIdEvent.spec_byte() {
                    r == (false, ClientNotice::IdAssigned(data[0]))
                } else if t == MessageType::StartEvent.spec_byte() {
                    r == (true, ClientNotice::WordRequested(data[0]))
                } else if t == MessageType::GuessEvent.spec_byte() {
                    &&& r.0
                    &&& r.1 matches ClientNotice::OpponentGuess(marks) && marks@ == colors(
                        old(self)@.word,
                        unicode_uppercase(decode_utf8(data.skip(1))),
                    )
                } else if t == MessageType::EndEvent.spec_byte() {
                    r == (true, if names_winner(old(self)@, payload@) {
                        ClientNotice::Won
                    } else {
                        ClientNotice::Lost
                    })
                } else if t == MessageType::Heartbeat.spec_byte() {
                    r == (false, ClientNotice::Heartbeat)
                } else {
                    r == (false, ClientNotice::UnknownMessage)
                }
            },
    {
        if payload[0] != MAGIC_BYTE {
            return (false, ClientNotice::BadMagic);
        }
        let message_type = payload[1];
        if message_type == MessageType::AssignIdEvent.to_byte() {
            let assigned_id = payload[2];
            self.set_id(assigned_id);
            (false, ClientNotice::IdAssigned(assigned_id))
        } else if message_type == MessageType::StartEvent.to_byte() {
            (true, ClientNotice::WordRequested(payload[2]))
        } else if message_type == MessageType::GuessEvent.to_byte() {
            let guess_bytes = bytes_from(payload, 3);
            assert(guess_bytes@ =~= data_of(payload@).skip(1));
            match string_from_utf8(guess_bytes) {
                Some(guess) => {
                    let marks = self.get_color_vec(guess);
                    (true, ClientNotice::OpponentGuess(marks))
                },
                None => {
                    assert(false);
                    (true, ClientNotice::OpponentGuess(Vec::new()))
                },
            }
        } else if message_type == MessageType::EndEvent.to_byte() {
            let id = payload[2];
            self.set_game_over(true);
            if id == self.get_id() {
                (true, ClientNotice::Won)
            } else {
                (true, ClientNotice::Lost)
            }
        } else if message_type == MessageType::Heartbeat.to_byte() {
            (false, ClientNotice::Heartbeat)
        } else {
            (false, ClientNotice::UnknownMessage)
        }
    }
}


/// A mark is `G` exactly where the guess has the word's character at that
/// position, and `Y` exactly where the word has the character elsewhere only.
pub proof fn lemma_marks(word: Seq<char>, guess: Seq<char>, i: int)
    requires
        0 <= i < guess.len(),
    ensures
        colors(word, guess).len() == guess.len(),
        colors(word, guess)[i] == 'G' <==> (i < word.len() && word[i] == guess[i]),
        colors(word, guess)[i] == 'Y' <==> (word.contains(guess[i]) && !(i < word.len() && word[i]
            == guess[i])),
        colors(word, guess)[i] == '_' <==> !word.contains(guess[i]),
{
    if i < word.len() && word[i] == guess[i] {
        assert(word.contains(guess[i]));
    }
}

/// Guessing the word itself marks every position `G`.
pub proof fn lemma_word_itself_all_green(word: Seq<char>)
    ensures
        colors(word, word) == Seq::new(word.len(), |i: int| 'G'),
{
    assert forall|i: int| 0 <= i < word.len() implies colors(word, word)[i] == 'G' by {
        assert(word.contains(word[i]));
    }
    assert(colors(word, word) =~= Seq::new(word.len(), |i: int| 'G'));
}

/// The marks of an ASCII guess do not depend on its letters' case: two
/// guesses that agree up to ASCII case get the same marks.
pub proof fn lemma_marks_ignore_ascii_case(word: Seq<char>, g1: Seq<char>, g2: Seq<char>)
    requires
        g1.len() == g2.len(),
        forall|i: int| 0 <= i < g1.len() ==> ascii_upper(#[trigger] g1[i]) == ascii_upper(g2[i]),
    ensures
        colors(word, g1.map_values(|c: char| ascii_upper(c))) == colors(
            word,
            g2.map_values(|c: char| ascii_upper(c)),
        ),
{
    assert(g1.map_values(|c: char| ascii_upper(c)) =~= g2.map_values(|c: char| ascii_upper(c)));
}

/// The same field is set by both updates.
pub open spec fn same_field(u1: ClientUpdate, u2: ClientUpdate) -> bool {
    match (u1, u2) {
        (ClientUpdate::Ready(_), ClientUpdate::Ready(_)) => true,
        (ClientUpdate::GameStarted(_), ClientUpdate::GameStarted(_)) => true,
        (ClientUpdate::Id(_), ClientUpdate::Id(_)) => true,
        (ClientUpdate::GameOver(_), ClientUpdate::GameOver(_)) => true,
        (ClientUpdate::Word(_), ClientUpdate::Word(_)) => true,
        _ => false,
    }
}

/// The field that `u` sets holds `u`'s value in `v`: what its getter
/// returns.
pub open spec fn reads_back(v: ClientView, u: ClientUpdate) -> bool {
    match u {
        ClientUpdate::Ready(b) => v.ready == b,
        ClientUpdate::GameStarted(b) => v.game_started == b,
        ClientUpdate::Id(i) => v.id == i,
        ClientUpdate::GameOver(b) => v.game_over == b,
        ClientUpdate::Word(w) => v.word == w,
    }
}

/// The state after a run of setter calls, in order.
pub open spec fn updated_all(v: ClientView, us: Seq<ClientUpdate>) -> ClientView
    decreases us.len(),
{
    if us.len() == 0 {
        v
    } else {
        updated(updated_all(v, us.drop_last()), us.last())
    }
}

/// A getter gives back what the last call of its setter set, whatever
/// calls of the other setters came after it.
pub proof fn lemma_last_set_reads_back(v: ClientView, u: ClientUpdate, later: Seq<ClientUpdate>)
    requires
        forall|k: int| 0 <= k < later.len() ==> !same_field(#[trigger] later[k], u),
    ensures
        reads_back(updated_all(updated(v, u), later), u),
    decreases later.len(),
{
    if later.len() > 0 {
        lemma_last_set_reads_back(v, u, later.drop_last());
        assert(!same_field(later[later.len() - 1], u));
    }
}

/// The client gives up on a packet exactly when it is empty, opens with
/// the magic byte but has no type byte, is an id assignment, start or end
/// message with no data, or is a guess with no id or whose letters are not
/// UTF-8. In particular every guess `[42, 5, id] + letters` with UTF-8
/// letters is accepted, whatever its length.
pub proof fn lemma_client_refuses_only_malformed(p: Seq<u8>, id: u8, letters: Seq<u8>)
    ensures
        !client_packet_fails(p) <==> (p.len() >= 1 && (p[0] != 42 || (p.len() >= 2 && ((p[1] == 2
            || p[1] == 4 || p[1] == 7) ==> p.len() >= 3) && (p[1] == 5 ==> p.len() >= 3
            && valid_utf8(p.skip(3)))))),
        valid_utf8(letters) ==> !client_packet_fails(seq![42u8, 5u8, id] + letters),
{
    if p.len() >= 3 {
        assert(p.skip(2).skip(1) =~= p.skip(3));
    }
    let q = seq![42u8, 5u8, id] + letters;
    assert(q.skip(2).skip(1) =~= letters);
}

/// An id assignment `[42, 2, i, ..]` sets the client's id to `i`, an end
/// message `[42, 7, ..]` ends its match, and no other packet changes the
/// client's state. An end message `[42, 7, w, ..]` names the client the
/// winner exactly when `w` is its id.
pub proof fn lemma_client_state_changes(v: ClientView, p: Seq<u8>)
    requires
        p.len() >= 1,
    ensures
        p.len() >= 3 && p[0] == 42 && p[1] == 2 ==> client_after(v, p) == (ClientView { id: p[2], ..v }),
        p.len() >= 2 && p[0] == 42 && p[1] == 7 ==> client_after(v, p) == (ClientView {
            game_over: true,
            ..v
        }),
        (p[0] != 42 || (p.len() >= 2 && p[1] != 2 && p[1] != 7)) ==> client_after(v, p) == v,
        p.len() >= 3 ==> (names_winner(v, p) <==> p[2] == v.id),
{
    if p.len() >= 3 {
        assert(p.skip(2)[0] == p[2]);
    }
}

/// The data of a guess message is the player's id followed by one byte per
/// character of the guess, its low byte.
pub proof fn lemma_guess_data(id: PlayerId, g: Seq<char>)
    ensures
        guess_data(id, g).len() == g.len() + 1,
        guess_data(id, g)[0] == id,
        forall|i: int| 0 <= i < g.len() ==> #[trigger] guess_data(id, g)[i + 1] == g[i] as u8,
{
}

} // verus!
