//! One player's own board: the secret word, what each letter is known to
//! be, and how many guesses are used.

use std::collections::HashMap;
use vstd::prelude::*;

use crate::text::{
    ascii_letter, ascii_upper, ascii_upper_all, chars_of, contains_char, is_alphabetic,
    is_ascii_char, to_ascii_upper, unicode_alphabetic,
};

verus! {

broadcast use vstd::std_specs::hash::group_hash_axioms;

/// What is known of one letter of the alphabet.
#[derive(Clone, Copy, Debug)]
pub struct Letter {
    pub guessed: bool,
    pub in_word: bool,
    pub in_position: bool,
}

impl Letter {
    /// A letter nobody has guessed yet.
    pub open spec fn unseen() -> Letter {
        Letter { guessed: false, in_word: false, in_position: false }
    }
}

/// The board; letters are kept by their code point.
pub struct Feudle {
    letter_map: HashMap<u32, Letter>,
    word: Vec<char>,
    total_guesses: u32,
    guesses: u32,
}

/// What a board holds.
pub struct FeudleView {
    pub letters: Map<u32, Letter>,
    pub word: Seq<char>,
    pub total_guesses: u32,
    pub guesses: u32,
}

impl View for Feudle {
    type V = FeudleView;

    closed spec fn view(&self) -> FeudleView {
        FeudleView {
            letters: self.letter_map@,
            word: self.word@,
            total_guesses: self.total_guesses,
            guesses: self.guesses,
        }
    }
}

/// The letters a new board tracks: `A` to `Z`, none of them guessed.
pub open spec fn alphabet() -> Map<u32, Letter> {
    Map::new(|k: u32| 65 <= k <= 90, |k: u32| Letter::unseen())
}

/// Whether the character with code point `k` occurs in `word`.
pub open spec fn word_has(word: Seq<char>, k: u32) -> bool {
    exists|j: int| 0 <= j < word.len() && word[j] as u32 == k
}

/// Whether a guess names the letter with code point `k`: only alphabetic
/// characters of a guess count.
pub open spec fn guess_names(g: Seq<char>, k: u32) -> bool {
    exists|i: int| 0 <= i < g.len() && unicode_alphabetic(g[i]) && g[i] as u32 == k
}

/// Whether the guess holds the letter with code point `k`, as an
/// alphabetic character, at a position where the word holds it too.
pub open spec fn placed(g: Seq<char>, word: Seq<char>, k: u32) -> bool {
    exists|i: int|
        0 <= i < g.len() && i < word.len() && unicode_alphabetic(g[i]) && g[i] as u32 == k && word[i]
            == g[i]
}

/// A letter after the guess `g` named it: it is guessed, in the word where
/// the word holds it, and in position where the guess placed it.
pub open spec fn after_guessed(l: Letter, word: Seq<char>, g: Seq<char>, k: u32) -> Letter {
    Letter {
        guessed: true,
        in_word: l.in_word || word_has(word, k),
        in_position: l.in_position || placed(g, word, k),
    }
}

/// The letters after the guess `g` against `word`.
pub open spec fn letters_after(letters: Map<u32, Letter>, word: Seq<char>, g: Seq<char>) -> Map<
    u32,
    Letter,
> {
    Map::new(
        |k: u32| letters.contains_key(k),
        |k: u32|
            if guess_names(g, k) {
                after_guessed(letters[k], word, g, k)
            } else {
                letters[k]
            },
    )
}

/// Every alphabetic character of the guess is a tracked letter.
pub open spec fn guess_tracked(letters: Map<u32, Letter>, g: Seq<char>) -> bool {
    forall|i: int| 0 <= i < g.len() && unicode_alphabetic(g[i]) ==> letters.contains_key(g[i] as u32)
}

/// Every character of the word is a tracked letter.
pub open spec fn word_tracked(letters: Map<u32, Letter>, word: Seq<char>) -> bool {
    forall|j: int| 0 <= j < word.len() ==> letters.contains_key(word[j] as u32)
}

/// The first `j` characters of the word are tracked letters known to be in
/// position.
pub open spec fn settled_before(letters: Map<u32, Letter>, word: Seq<char>, j: int) -> bool {
    forall|i: int|
        0 <= i < j ==> letters.contains_key(#[trigger] word[i] as u32) && letters[word[i] as u32].in_position
}

/// Every letter of the word is tracked and known to be in position.
pub open spec fn all_in_position(letters: Map<u32, Letter>, word: Seq<char>) -> bool {
    settled_before(letters, word, word.len() as int)
}

/// Checking the word letter by letter, up to the first one not in
/// position, meets only tracked letters.
pub open spec fn win_check_safe(letters: Map<u32, Letter>, word: Seq<char>) -> bool {
    forall|j: int|
        0 <= j < word.len() && #[trigger] settled_before(letters, word, j) ==> letters.contains_key(
            word[j] as u32,
        )
}

/// Among the guess's ASCII characters, exactly the letters are alphabetic.
pub open spec fn ascii_letters_alphabetic(g: Seq<char>) -> bool {
    forall|i: int| 0 <= i < g.len() && is_ascii_char(#[trigger] g[i]) ==> (unicode_alphabetic(g[i]) == ascii_letter(g[i]))
}

/// The word as a player sees it: letters known in position in upper case,
/// the others as `_`.
pub open spec fn revealed(letters: Map<u32, Letter>, word: Seq<char>) -> Seq<char> {
    Seq::new(
        word.len(),
        |j: int|
            if letters[word[j] as u32].in_position {
                ascii_upper(word[j])
            } else {
                '_'
            },
    )
}

impl Feudle {
    /// A board with `A` to `Z` unguessed, no word, six guesses allowed and
    /// none used.
    pub fn new() -> (f: Feudle)
        ensures
            f@.letters == alphabet(),
            f@.word == Seq::<char>::empty(),
            f@.total_guesses == 6,
            f@.guesses == 0,
    {
        let mut letters: HashMap<u32, Letter> = HashMap::new();
        for code in 65u32..91u32
            invariant
                letters@ == Map::new(|k: u32| 65 <= k < code, |k: u32| Letter::unseen()),
        {
            letters.insert(code, Letter { guessed: false, in_word: false, in_position: false });
            assert(letters@ =~= Map::new(|k: u32| 65 <= k < code + 1, |k: u32| Letter::unseen()));
        }
        assert(letters@ =~= alphabet());
        Feudle { letter_map: letters, word: Vec::new(), total_guesses: 6, guesses: 0 }
    }

    /// Sets the secret word, in ASCII upper case.
    pub fn set_word(&mut self, word: String)
        ensures
            final(self)@.word == word@.map_values(|c: char| ascii_upper(c)),
            final(self)@.letters == old(self)@.letters,
            final(self)@.total_guesses == old(self)@.total_guesses,
            final(self)@.guesses == old(self)@.guesses,
    {
        let chars = chars_of(word.as_str());
        self.word = ascii_upper_all(&chars);
    }

    /// Takes a guess: each alphabetic character of it marks its letter as
    /// guessed, in the word where the word holds it, and in position where
    /// the word holds it at the same index. Counts the guess and answers
    /// whether the word is now complete.
    pub fn guess(&mut self, word_guess: &String) -> (won: bool)
        requires
            guess_tracked(old(self)@.letters, word_guess@),
            win_check_safe(
                letters_after(old(self)@.letters, old(self)@.word, word_guess@),
                old(self)@.word,
            ),
            old(self)@.guesses < u32::MAX,
        ensures
            final(self)@.letters == letters_after(old(self)@.letters, old(self)@.word, word_guess@),
            final(self)@.word == old(self)@.word,
            final(self)@.total_guesses == old(self)@.total_guesses,
            final(self)@.guesses == old(self)@.guesses + 1,
            won == all_in_position(final(self)@.letters, final(self)@.word),
            ascii_letters_alphabetic(word_guess@),
    {
        let g = chars_of(word_guess.as_str());
        let ghost old_letters = self.letter_map@;
        let ghost word = self.word@;
        let ghost total = self.total_guesses;
        let ghost used = self.guesses;
        let n = g.len();
        for i in 0..n
            invariant
                n == g@.len(),
                g@ == word_guess@,
                word == self.word@,
                total == self.total_guesses,
                used == self.guesses,
                used < u32::MAX,
                guess_tracked(old_letters, g@),
                self.letter_map@ == letters_after(old_letters, word, g@.take(i as int)),
                forall|j: int|
                    0 <= j < i && is_ascii_char(#[trigger] g@[j]) ==> (unicode_alphabetic(g@[j])
                        == ascii_letter(g@[j])),
        {
            let ch = g[i];
            let ghost before = self.letter_map@;
            let ghost prev = g@.take(i as int);
            let ghost next = g@.take(i + 1);
            let alphabetic = is_alphabetic(ch);
            if alphabetic {
                let k = ch as u32;
                assert(old_letters.contains_key(k));
                let mut letter = match self.letter_map.get(&k) {
                    Some(l) => *l,
                    None => {
                        assert(false);
                        Letter { guessed: false, in_word: false, in_position: false }
                    },
                };
                letter.guessed = true;
                if contains_char(&self.word, ch) {
                    letter.in_word = true;
                }
                let here = i < self.word.len() && self.word[i] == ch;
                if here {
                    letter.in_position = true;
                }
                proof {
                    assert(self.word@.contains(ch) == word_has(word, k)) by {
                        if word_has(word, k) {
                            let j = choose|j: int| 0 <= j < word.len() && word[j] as u32 == k;
                            vstd::utf8::char_u32_cast(word[j], k);
                            vstd::utf8::char_u32_cast(ch, k);
                            assert(word[j] == ch);
                        }
                    }
                    assert(placed(next, word, k) == (placed(prev, word, k) || here)) by {
                        if placed(next, word, k) {
                            let j = choose|j: int|
                                0 <= j < next.len() && j < word.len() && unicode_alphabetic(next[j])
                                    && next[j] as u32 == k && word[j] == next[j];
                            if j < i {
                                assert(prev[j] == next[j]);
                            } else {
                                vstd::utf8::char_u32_cast(next[j], k);
                                vstd::utf8::char_u32_cast(ch, k);
                            }
                        }
                        if placed(prev, word, k) {
                            let j = choose|j: int|
                                0 <= j < prev.len() && j < word.len() && unicode_alphabetic(prev[j])
                                    && prev[j] as u32 == k && word[j] == prev[j];
                            assert(next[j] == prev[j]);
                        }
                        if here {
                            assert(next[i as int] == ch);
                        }
                    }
                    if !guess_names(prev, k) {
                        if placed(prev, word, k) {
                            let j = choose|j: int|
                                0 <= j < prev.len() && j < word.len() && unicode_alphabetic(prev[j])
                                    && prev[j] as u32 == k && word[j] == prev[j];
                            assert(guess_names(prev, k));
                        }
                    }
                }
                assert(letter == after_guessed(before[k], word, next, k));
                self.letter_map.insert(k, letter);
            }
            proof {
                assert forall|k: u32|
                    #![trigger guess_names(next, k)]
                    guess_names(next, k) == (guess_names(prev, k) || (unicode_alphabetic(g@[i as int])
                        && g@[i as int] as u32 == k)) by {
                    if guess_names(next, k) {
                        let j = choose|j: int|
                            0 <= j < next.len() && unicode_alphabetic(next[j]) && next[j] as u32 == k;
                        if j < i {
                            assert(prev[j] == next[j]);
                        }
                    }
                    if guess_names(prev, k) {
                        let j = choose|j: int|
                            0 <= j < prev.len() && unicode_alphabetic(prev[j]) && prev[j] as u32 == k;
                        assert(next[j] == prev[j]);
                    }
                    if unicode_alphabetic(g@[i as int]) && g@[i as int] as u32 == k {
                        assert(next[i as int] == g@[i as int]);
                    }
                }
                assert forall|k: u32|
                    #![trigger placed(next, word, k)]
                    !(unicode_alphabetic(g@[i as int]) && g@[i as int] as u32 == k) implies placed(
                        next,
                        word,
                        k,
                    ) == placed(prev, word, k) by {
                    if placed(next, word, k) {
                        let j = choose|j: int|
                            0 <= j < next.len() && j < word.len() && unicode_alphabetic(next[j])
                                && next[j] as u32 == k && word[j] == next[j];
                        if j < i {
                            assert(prev[j] == next[j]);
                        }
                    }
                    if placed(prev, word, k) {
                        let j = choose|j: int|
                            0 <= j < prev.len() && j < word.len() && unicode_alphabetic(prev[j])
                                && prev[j] as u32 == k && word[j] == prev[j];
                        assert(next[j] == prev[j]);
                    }
                }
                assert forall|key: u32| #[trigger]
                    old_letters.contains_key(key) implies self.letter_map@.contains_key(key)
                    && self.letter_map@[key] == letters_after(old_letters, word, next)[key] by {
                    assert(guess_names(next, key) == (guess_names(prev, key) || (unicode_alphabetic(
                        g@[i as int],
                    ) && g@[i as int] as u32 == key)));
                    if !(unicode_alphabetic(g@[i as int]) && g@[i as int] as u32 == key) {
                        assert(placed(next, word, key) == placed(prev, word, key));
                    }
                }
                assert(self.letter_map@.dom() =~= old_letters.dom());
                assert(self.letter_map@ =~= letters_after(old_letters, word, next));
                assert forall|j: int|
                    0 <= j < i + 1 && is_ascii_char(#[trigger] g@[j]) implies (unicode_alphabetic(
                        g@[j],
                    ) == ascii_letter(g@[j])) by {}
            }
        }
        assert(g@.take(n as int) =~= g@);
        self.guesses = self.guesses + 1;
        self.check_win()
    }

    /// Whether the guess places the letter with code point `k`.
    fn places(&self, g: &Vec<char>, k: u32) -> (b: bool)
        ensures
            b == placed(g@, self@.word, k),
    {
        let n = g.len();
        for i in 0..n
            invariant
                n == g@.len(),
                forall|j: int|
                    0 <= j < i ==> !(j < self@.word.len() && unicode_alphabetic(g@[j]) && g@[j] as u32
                        == k && self@.word[j] == g@[j]),
        {
            if i < self.word.len() && g[i] as u32 == k && self.word[i] == g[i] && is_alphabetic(g[i]) {
                return true;
            }
        }
        false
    }

    /// Whether checking the word after the guess `g` would meet only
    /// tracked letters.
    fn win_check_safe_after(&self, g: &Vec<char>) -> (b: bool)
        requires
            guess_tracked(self@.letters, g@),
        ensures
            b == win_check_safe(letters_after(self@.letters, self@.word, g@), self@.word),
    {
        let ghost after = letters_after(self@.letters, self@.word, g@);
        let ghost word = self@.word;
        let n = self.word.len();
        for j in 0..n
            invariant
                n == word.len(),
                word == self@.word,
                after == letters_after(self@.letters, self@.word, g@),
                settled_before(after, word, j as int),
        {
            let k = self.word[j] as u32;
            match self.letter_map.get(&k) {
                None => {
                    assert(settled_before(after, word, j as int));
                    return false;
                },
                Some(l) => {
                    let in_position = l.in_position || self.places(g, k);
                    proof {
                        if placed(g@, word, k) {
                            let i = choose|i: int|
                                0 <= i < g@.len() && i < word.len() && unicode_alphabetic(g@[i])
                                    && g@[i] as u32 == k && word[i] == g@[i];
                            assert(guess_names(g@, k));
                        }
                    }
                    assert(in_position == after[k].in_position);
                    if !in_position {
                        assert forall|jj: int|
                            0 <= jj < word.len() && #[trigger] settled_before(after, word, jj)
                            implies after.contains_key(word[jj] as u32) by {
                            if jj > j {
                                assert(word[j as int] as u32 == k);
                            }
                        }
                        return true;
                    }
                    assert(settled_before(after, word, j + 1));
                },
            }
        }
        assert forall|jj: int|
            0 <= jj < word.len() && #[trigger] settled_before(after, word, jj) implies after.contains_key(
            word[jj] as u32,
        ) by {
            assert(word[jj] as u32 == word[jj] as u32);
        }
        true
    }

    /// Takes a guess where `guess` can take it, and answers whether the word
    /// is complete; `None`, with the board unchanged, where a character
    /// that `guess` or the win check looks up is not a tracked letter, or
    /// the guess count is at its limit.
    pub fn try_guess(&mut self, word_guess: &String) -> (won: Option<bool>)
        ensures
            won is Some <==> (guess_tracked(old(self)@.letters, word_guess@) && win_check_safe(
                letters_after(old(self)@.letters, old(self)@.word, word_guess@),
                old(self)@.word,
            ) && old(self)@.guesses < u32::MAX),
            won is None ==> final(self)@ == old(self)@,
            won matches Some(w) ==> {
                &&& final(self)@.letters == letters_after(
                    old(self)@.letters,
                    old(self)@.word,
                    word_guess@,
                )
                &&& final(self)@.word == old(self)@.word
                &&& final(self)@.total_guesses == old(self)@.total_guesses
                &&& final(self)@.guesses == old(self)@.guesses + 1
                &&& w == all_in_position(final(self)@.letters, final(self)@.word)
                &&& ascii_letters_alphabetic(word_guess@)
            },
    {
        if self.guesses == u32::MAX {
            return None;
        }
        let g = chars_of(word_guess.as_str());
        let n = g.len();
        for i in 0..n
            invariant
                n == g@.len(),
                g@ == word_guess@,
                forall|j: int|
                    0 <= j < i && unicode_alphabetic(g@[j]) ==> self.letter_map@.contains_key(
                        g@[j] as u32,
                    ),
        {
            if is_alphabetic(g[i]) && !self.letter_map.contains_key(&(g[i] as u32)) {
                return None;
            }
        }
        if !self.win_check_safe_after(&g) {
            return None;
        }
        Some(self.guess(word_guess))
    }

    /// Whether every letter of the word is known to be in position. The
    /// letters are looked up in order until one is not in position.
    pub fn check_win(&self) -> (won: bool)
        requires
            win_check_safe(self@.letters, self@.word),
        ensures
            won == all_in_position(self@.letters, self@.word),
    {
        let n = self.word.len();
        for j in 0..n
            invariant
                n == self.word@.len(),
                win_check_safe(self@.letters, self@.word),
                settled_before(self@.letters, self@.word, j as int),
        {
            let k = self.word[j] as u32;
            assert(self.letter_map@.contains_key(k));
            match self.letter_map.get(&k) {
                Some(l) => {
                    if !l.in_position {
                        return false;
                    }
                },
                None => {
                    assert(false);
                },
            }
            assert(settled_before(self@.letters, self@.word, j + 1));
        }
        true
    }

    /// Whether every character of the word is a tracked letter.
    pub(crate) fn tracks_word(&self) -> (b: bool)
        ensures
            b == word_tracked(self@.letters, self@.word),
    {
        let n = self.word.len();
        for j in 0..n
            invariant
                n == self.word@.len(),
                forall|i: int| 0 <= i < j ==> self.letter_map@.contains_key(self.word@[i] as u32),
        {
            if !self.letter_map.contains_key(&(self.word[j] as u32)) {
                return false;
            }
        }
        true
    }

    /// Whether the allowed guesses are used up.
    pub fn check_lose(&self) -> (lost: bool)
        ensures
            lost == (self@.guesses >= self@.total_guesses),
    {
        self.guesses >= self.total_guesses
    }

    /// The word as the player sees it.
    pub fn revealed_word(&self) -> (shown: Vec<char>)
        requires
            word_tracked(self@.letters, self@.word),
        ensures
            shown@ == revealed(self@.letters, self@.word),
    {
        let mut shown: Vec<char> = Vec::new();
        let n = self.word.len();
        for j in 0..n
            invariant
                n == self.word@.len(),
                word_tracked(self@.letters, self@.word),
                shown@ == revealed(self@.letters, self@.word).take(j as int),
        {
            let letter = self.word[j];
            let cap = to_ascii_upper(letter);
            let k = letter as u32;
            assert(self.letter_map@.contains_key(k));
            let shown_char = match self.letter_map.get(&k) {
                Some(l) => if l.in_position {
                    cap
                } else {
                    '_'
                },
                None => {
                    assert(false);
                    '_'
                },
            };
            shown.push(shown_char);
            assert(revealed(self@.letters, self@.word).take(j + 1) =~= revealed(
                self@.letters,
                self@.word,
            ).take(j as int).push(shown_char));
        }
        assert(revealed(self@.letters, self@.word).take(n as int) =~= revealed(
            self@.letters,
            self@.word,
        ));
        shown
    }

    /// Does nothing: the board has nothing to refresh.
    pub fn update(&mut self, should_update: bool)
        ensures
            final(self)@ == old(self)@,
    {
    }
}


/// A guess only adds knowledge: the tracked letters stay the same, and
/// nothing known of a letter is lost.
pub proof fn lemma_guess_only_adds(letters: Map<u32, Letter>, word: Seq<char>, g: Seq<char>)
    ensures
        letters_after(letters, word, g).dom() == letters.dom(),
        forall|k: u32|
            #![trigger letters_after(letters, word, g)[k]]
            letters.contains_key(k) ==> {
                let l = letters[k];
                let l2 = letters_after(letters, word, g)[k];
                &&& l.guessed ==> l2.guessed
                &&& l.in_word ==> l2.in_word
                &&& l.in_position ==> l2.in_position
            },
{
    assert(letters_after(letters, word, g).dom() =~= letters.dom());
}

/// Every tracked letter that the guess names is marked guessed, and marked
/// in the word exactly where the word holds it (or it was known before).
pub proof fn lemma_guess_marks_named_letters(
    letters: Map<u32, Letter>,
    word: Seq<char>,
    g: Seq<char>,
    i: int,
)
    requires
        0 <= i < g.len(),
        unicode_alphabetic(g[i]),
        letters.contains_key(g[i] as u32),
    ensures
        letters_after(letters, word, g)[g[i] as u32].guessed,
        letters_after(letters, word, g)[g[i] as u32].in_word == (letters[g[i] as u32].in_word
            || word.contains(g[i])),
{
    let k = g[i] as u32;
    assert(guess_names(g, k));
    if word_has(word, k) {
        let j = choose|j: int| 0 <= j < word.len() && word[j] as u32 == k;
        vstd::utf8::char_u32_cast(word[j], k);
        vstd::utf8::char_u32_cast(g[i], k);
        assert(word[j] == g[i]);
    }
    if word.contains(g[i]) {
        let j = choose|j: int| 0 <= j < word.len() && word[j] == g[i];
        assert(word[j] as u32 == k);
    }
}

/// Whether the board tracks exactly the letters `A` to `Z`, as every board
/// does from `Feudle::new` on (only a guess changes the letters, and it
/// keeps them: `lemma_guess_only_adds`).
pub open spec fn tracks_alphabet(letters: Map<u32, Letter>) -> bool {
    letters.dom() == alphabet().dom()
}

/// On a board tracking `A` to `Z`, a guess and a word of upper-case ASCII
/// letters meet every requirement of `Feudle::guess` but the guess count:
/// the guess is tracked, and checking the word after it meets only tracked
/// letters.
pub proof fn lemma_uppercase_needs_no_checks(letters: Map<u32, Letter>, word: Seq<char>, g: Seq<char>)
    requires
        tracks_alphabet(letters),
        forall|i: int| 0 <= i < g.len() ==> 'A' <= #[trigger] g[i] && g[i] <= 'Z',
        forall|j: int| 0 <= j < word.len() ==> 'A' <= #[trigger] word[j] && word[j] <= 'Z',
    ensures
        guess_tracked(letters, g),
        win_check_safe(letters_after(letters, word, g), word),
{
    assert forall|i: int| 0 <= i < g.len() implies letters.contains_key(#[trigger] g[i] as u32) by {
        assert(alphabet().dom().contains(g[i] as u32));
    }
    let after = letters_after(letters, word, g);
    assert(after.dom() =~= letters.dom());
    assert forall|j: int|
        0 <= j < word.len() && #[trigger] settled_before(after, word, j) implies after.contains_key(
        word[j] as u32,
    ) by {
        assert(alphabet().dom().contains(word[j] as u32));
    }
}

/// A guess that holds each letter of the word at its index wins, where the
/// word's characters are tracked alphabetic letters; in particular,
/// guessing the word itself wins.
pub proof fn lemma_guessing_the_word_wins(letters: Map<u32, Letter>, word: Seq<char>, g: Seq<char>)
    requires
        word_tracked(letters, word),
        forall|j: int| 0 <= j < word.len() ==> unicode_alphabetic(#[trigger] word[j]),
        word.len() <= g.len(),
        forall|j: int| 0 <= j < word.len() ==> g[j] == #[trigger] word[j],
    ensures
        all_in_position(letters_after(letters, word, g), word),
{
    assert forall|j: int| 0 <= j < word.len() implies letters_after(letters, word, g).contains_key(
        #[trigger] word[j] as u32,
    ) && letters_after(letters, word, g)[word[j] as u32].in_position by {
        let k = word[j] as u32;
        assert(g[j] == word[j]);
        assert(guess_names(g, k));
        assert(placed(g, word, k));
    }
}

/// A letter is in position after a guess exactly when it was before or the
/// guess holds it, as an alphabetic character, at an index where the word
/// holds it.
pub proof fn lemma_in_position_is_positional(
    letters: Map<u32, Letter>,
    word: Seq<char>,
    g: Seq<char>,
    k: u32,
)
    requires
        letters.contains_key(k),
    ensures
        letters_after(letters, word, g)[k].in_position == (letters[k].in_position || placed(
            g,
            word,
            k,
        )),
{
    if placed(g, word, k) {
        let i = choose|i: int|
            0 <= i < g.len() && i < word.len() && unicode_alphabetic(g[i]) && g[i] as u32 == k
                && word[i] == g[i];
        assert(guess_names(g, k));
    }
}

/// The word is complete exactly when every character of it is a tracked
/// letter known to be in position; so one letter that is tracked and not
/// in position means the word is not complete.
pub proof fn lemma_complete_means_every_letter_placed(letters: Map<u32, Letter>, word: Seq<char>)
    ensures
        all_in_position(letters, word) <==> (forall|j: int|
            0 <= j < word.len() ==> letters.contains_key(#[trigger] word[j] as u32)
                && letters[word[j] as u32].in_position),
        forall|j: int|
            0 <= j < word.len() && letters.contains_key(#[trigger] word[j] as u32)
                && !letters[word[j] as u32].in_position ==> !all_in_position(letters, word),
{
}

/// What the player sees has one character per character of the word: the
/// word's character in ASCII upper case where its letter is known in
/// position, `_` elsewhere. A complete word in upper case is shown whole.
pub proof fn lemma_revealed_shows_placed_letters(letters: Map<u32, Letter>, word: Seq<char>)
    ensures
        revealed(letters, word).len() == word.len(),
        forall|j: int|
            0 <= j < word.len() ==> (#[trigger] revealed(letters, word)[j] == if letters[word[j]
                as u32].in_position {
                ascii_upper(word[j])
            } else {
                '_'
            }),
        all_in_position(letters, word) && (forall|j: int|
            0 <= j < word.len() ==> 'A' <= #[trigger] word[j] && word[j] <= 'Z') ==> revealed(
            letters,
            word,
        ) == word,
{
    if all_in_position(letters, word) && (forall|j: int|
        0 <= j < word.len() ==> 'A' <= #[trigger] word[j] && word[j] <= 'Z') {
        assert forall|j: int| 0 <= j < word.len() implies revealed(letters, word)[j] == word[j] by {
            crate::text::lemma_ascii_upper(word[j]);
        }
        assert(revealed(letters, word) =~= word);
    }
}

/// Setting a word of ASCII letters leaves a board word of `A`..`Z` only,
/// with the same letters up to case: each `a`..`z` becomes the letter 32
/// below it.
pub proof fn lemma_set_word_upper_cases(word: Seq<char>)
    ensures
        word.map_values(|c: char| ascii_upper(c)).len() == word.len(),
        forall|j: int|
            0 <= j < word.len() && ascii_letter(#[trigger] word[j]) ==> 'A' <= word.map_values(
                |c: char| ascii_upper(c),
            )[j] && word.map_values(|c: char| ascii_upper(c))[j] <= 'Z',
        forall|j: int|
            0 <= j < word.len() && 'a' <= #[trigger] word[j] && word[j] <= 'z' ==> word.map_values(
                |c: char| ascii_upper(c),
            )[j] as u32 == word[j] as u32 - 32,
        forall|j: int|
            0 <= j < word.len() && !('a' <= #[trigger] word[j] && word[j] <= 'z') ==> word.map_values(
                |c: char| ascii_upper(c),
            )[j] == word[j],
{
    assert forall|j: int| 0 <= j < word.len() implies {
        let u = word.map_values(|c: char| ascii_upper(c))[j];
        &&& ascii_letter(#[trigger] word[j]) ==> 'A' <= u && u <= 'Z'
        &&& ('a' <= word[j] && word[j] <= 'z') ==> u as u32 == word[j] as u32 - 32
        &&& !('a' <= word[j] && word[j] <= 'z') ==> u == word[j]
    } by {
        crate::text::lemma_ascii_upper(word[j]);
    }
}

/// A guess changes only the letters it names: a tracked letter that no
/// alphabetic character of the guess is stays as it was.
pub proof fn lemma_unnamed_letters_unchanged(
    letters: Map<u32, Letter>,
    word: Seq<char>,
    g: Seq<char>,
    k: u32,
)
    requires
        letters.contains_key(k),
        forall|i: int| 0 <= i < g.len() && unicode_alphabetic(#[trigger] g[i]) ==> g[i] as u32 != k,
    ensures
        letters_after(letters, word, g)[k] == letters[k],
{
}

/// A new board tracks exactly the code points of `A` to `Z`, each with
/// nothing known yet.
pub proof fn lemma_alphabet()
    ensures
        forall|k: u32| #[trigger] alphabet().contains_key(k) <==> 65 <= k <= 90,
        forall|k: u32|
            65 <= k <= 90 ==> !(#[trigger] alphabet()[k]).guessed && !alphabet()[k].in_word
                && !alphabet()[k].in_position,
        forall|c: char| 'A' <= c && c <= 'Z' ==> #[trigger] alphabet().contains_key(c as u32),
{
}

} // verus!
