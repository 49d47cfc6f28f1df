//! The rules of a word guessing game.
//!
//! A secret word is shown with every letter hidden.  Each guess uncovers
//! one hidden place that holds the guessed letter, the first there is, or
//! counts as a miss where there is none.  The game is won when no place
//! is hidden any more and lost at the fifth miss.

use vstd::prelude::*;

verus! {

/// The number of misses that ends a game.
pub const NUM_INCORRECT_GUESSES: u32 = 5;

/// What is shown in the place of a letter that is still hidden.
pub const HIDDEN: char = '-';

/// A game in progress.
pub struct Game {
    secret: Vec<char>,
    shown: Vec<char>,
    guessed: Vec<char>,
    misses: u32,
}

/// Place `i` is hidden and holds `letter`.
pub open spec fn uncovers(secret: Seq<char>, shown: Seq<char>, letter: char, i: int) -> bool {
    0 <= i < secret.len() && shown[i] == HIDDEN && secret[i] == letter
}

/// Place `i` is the first that a guess of `letter` can uncover.
pub open spec fn first_uncovered(secret: Seq<char>, shown: Seq<char>, letter: char, i: int) -> bool {
    uncovers(secret, shown, letter, i) && forall|j: int|
        0 <= j < i ==> !uncovers(secret, shown, letter, j)
}

impl Game {
    /// The word to be guessed.
    pub closed spec fn secret(&self) -> Seq<char> {
        self.secret@
    }

    /// The word as the player sees it.
    pub closed spec fn shown(&self) -> Seq<char> {
        self.shown@
    }

    /// The letters guessed so far, in the order of the guesses.
    pub closed spec fn guessed(&self) -> Seq<char> {
        self.guessed@
    }

    /// The number of guesses that uncovered nothing.
    pub closed spec fn misses(&self) -> nat {
        self.misses as nat
    }

    /// What is shown is as long as the secret.
    pub closed spec fn wf(&self) -> bool {
        self.shown@.len() == self.secret@.len()
    }

    /// No place is hidden any more.
    pub open spec fn spec_is_won(&self) -> bool {
        !self.shown().contains(HIDDEN)
    }

    /// The misses have reached their limit.
    pub open spec fn spec_is_lost(&self) -> bool {
        self.misses() >= NUM_INCORRECT_GUESSES
    }

    /// A new game for `secret`: every place hidden, no guess made.
    pub fn new(secret: Vec<char>) -> (game: Game)
        ensures
            game.wf(),
            game.secret() == secret@,
            game.shown() == Seq::new(secret@.len(), |i: int| HIDDEN),
            game.guessed() == Seq::<char>::empty(),
            game.misses() == 0,
    {
        let mut shown: Vec<char> = Vec::new();
        let mut i: usize = 0;
        while i < secret.len()
            invariant
                i <= secret@.len(),
                shown@ == Seq::new(i as nat, |k: int| HIDDEN),
            decreases secret@.len() - i,
        {
            shown.push(HIDDEN);
            assert(shown@ =~= Seq::new((i + 1) as nat, |k: int| HIDDEN));
            i += 1;
        }
        Game { secret, shown, guessed: Vec::new(), misses: 0 }
    }

    /// Plays a guess of `letter` and says whether it uncovered a place.
    ///
    /// The guess uncovers the first hidden place that holds the letter and
    /// no other; where no hidden place holds it, nothing is uncovered and
    /// the guess counts as a miss.  Either way the letter joins the
    /// letters guessed.
    pub fn guess(&mut self, letter: char) -> (hit: bool)
        requires
            old(self).wf(),
            old(self).misses() < u32::MAX,
        ensures
            final(self).wf(),
            final(self).secret() == old(self).secret(),
            final(self).guessed() == old(self).guessed().push(letter),
            hit <==> exists|i: int| uncovers(old(self).secret(), old(self).shown(), letter, i),
            hit ==> final(self).misses() == old(self).misses(),
            hit ==> exists|i: int|
                first_uncovered(old(self).secret(), old(self).shown(), letter, i)
                    && final(self).shown() == old(self).shown().update(i, letter),
            !hit ==> final(self).misses() == old(self).misses() + 1,
            !hit ==> final(self).shown() == old(self).shown(),
    {
        self.guessed.push(letter);
        let mut i: usize = 0;
        while i < self.secret.len()
            invariant
                i <= self.secret@.len(),
                self.shown@.len() == self.secret@.len(),
                self.shown@ == old(self).shown@,
                self.secret@ == old(self).secret@,
                self.misses == old(self).misses,
                self.guessed@ == old(self).guessed@.push(letter),
                forall|j: int| 0 <= j < i ==> !uncovers(self.secret@, self.shown@, letter, j),
            decreases self.secret@.len() - i,
        {
            if self.shown[i] == HIDDEN && self.secret[i] == letter {
                self.shown.set(i, letter);
                proof {
                    assert(first_uncovered(old(self).secret(), old(self).shown(), letter, i as int));
                }
                return true;
            }
            i += 1;
        }
        self.misses += 1;
        false
    }

    /// Whether every place is uncovered.
    pub fn is_won(&self) -> (won: bool)
        ensures
            won == self.spec_is_won(),
    {
        let mut i: usize = 0;
        while i < self.shown.len()
            invariant
                i <= self.shown@.len(),
                forall|j: int| 0 <= j < i ==> self.shown@[j] != HIDDEN,
            decreases self.shown@.len() - i,
        {
            if self.shown[i] == HIDDEN {
                assert(self.shown@.contains(self.shown@[i as int]));
                return false;
            }
            i += 1;
        }
        true
    }

    /// Whether the misses have reached their limit.
    pub fn is_lost(&self) -> (lost: bool)
        ensures
            lost == self.spec_is_lost(),
    {
        self.misses >= NUM_INCORRECT_GUESSES
    }

    /// The number of misses that the player can still afford.
    pub fn guesses_left(&self) -> (left: u32)
        ensures
            left == if self.misses() < NUM_INCORRECT_GUESSES {
                NUM_INCORRECT_GUESSES - self.misses()
            } else {
                0
            },
    {
        if self.misses < NUM_INCORRECT_GUESSES {
            NUM_INCORRECT_GUESSES - self.misses
        } else {
            0
        }
    }

    /// The word as the player sees it.
    pub fn word_so_far(&self) -> (shown: &Vec<char>)
        ensures
            shown@ == self.shown(),
    {
        &self.shown
    }

    /// The letters guessed so far.
    pub fn letters_guessed(&self) -> (letters: &Vec<char>)
        ensures
            letters@ == self.guessed(),
    {
        &self.guessed
    }
}

} // verus!
