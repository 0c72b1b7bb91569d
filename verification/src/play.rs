use vstd::prelude::*;
use crate::board::Board;
use crate::enums::{Move, MoveError, Notation, ParseError};
use crate::helpers::{move_from_str, move_of};

use crate::position::{wall_slot, Position};
use crate::rules::lemma_legal_can_apply;
use crate::text::{number_of, parse_number, split_words, texts, words_of};

verus! {

/// Why a sequence of moves was not played. The number is the place of
/// the failing word in the sequence, counted from 0.
#[derive(Clone, Copy, Debug, PartialEq, Eq, Structural)]
pub enum PlayError {
    /// The word names no move.
    Invalid(usize),
    /// The word names a move that breaks the rule given.
    Illegal(usize, MoveError),
}

/// The wall `(o, x, y)` lies in the block that `fill` walls up between
/// the corners `(x0, y0)` and `(x1, y1)`: an anchor strictly inside it, in
/// either orientation; a horizontal wall on its lower or upper side; a
/// vertical wall on its left or right side. The corners themselves stay
/// free.
pub open spec fn in_fill(o: int, x: int, y: int, x0: int, y0: int, x1: int, y1: int) -> bool {
    ||| x0 < x < x1 && y0 < y < y1
    ||| o == 0 && x0 < x < x1 && (y == y0 || y == y1)
    ||| o == 1 && y0 < y < y1 && (x == x0 || x == x1)
}

/// The walls that `fill` adds between two corners.
pub open spec fn fill_set(x0: int, y0: int, x1: int, y1: int) -> Set<(int, int, int)> {
    Set::new(
        |t: (int, int, int)| wall_slot(t.0, t.1, t.2) && in_fill(t.0, t.1, t.2, x0, y0, x1, y1),
    )
}

/// The walls in place once `fill` has gone through the first `k` wall
/// slots, in the order of their bits.
spec fn fill_part(
    before: Set<(int, int, int)>,
    x0: int,
    y0: int,
    x1: int,
    y1: int,
    k: int,
) -> Set<(int, int, int)> {
    Set::new(
        |t: (int, int, int)|
            before.contains(t) || (wall_slot(t.0, t.1, t.2) && in_fill(
                t.0,
                t.1,
                t.2,
                x0,
                y0,
                x1,
                y1,
            ) && 64 * t.0 + 8 * t.1 + t.2 < k),
    )
}

impl Position {
    /// The move that a word names for the side to move.
    pub open spec fn word_move(self, word: Seq<char>, notation: Notation) -> Result<
        Move,
        ParseError,
    > {
        let me = self.cell(self.mover());
        let other = self.cell(1 - self.mover());
        move_of(word, me.0, me.1, other.0, other.1, notation)
    }

    /// The position that playing the words from place `from` on leads
    /// to, each word read and validated in the position that the words
    /// before it led to; or the first failure.
    pub open spec fn play(self, words: Seq<Seq<char>>, from: nat, notation: Notation) -> Result<
        Position,
        PlayError,
    >
        decreases words.len() - from,
    {
        if from >= words.len() {
            Ok(self)
        } else {
            match self.word_move(words[from as int], notation) {
                Err(_) => Err(PlayError::Invalid(from as usize)),
                Ok(m) => match self.check(m) {
                    Err(e) => Err(PlayError::Illegal(from as usize, e)),
                    Ok(_) => self.after(m).play(words, from + 1, notation),
                },
            }
        }
    }

    /// The moves that the words from place `from` on name, each read in
    /// the position that the words before it led to; the record ends at
    /// the first word that names none.
    pub open spec fn record(self, words: Seq<Seq<char>>, from: nat, notation: Notation) -> Seq<Move>
        decreases words.len() - from,
    {
        if from >= words.len() {
            Seq::empty()
        } else {
            match self.word_move(words[from as int], notation) {
                Err(_) => Seq::empty(),
                Ok(m) => seq![m] + self.after(m).record(words, from + 1, notation),
            }
        }
    }

    /// The position that applying the words from place `from` on leads
    /// to without validation; or the place of the first word that names no
    /// move or names one that cannot be carried out.
    pub open spec fn play_unchecked(self, words: Seq<Seq<char>>, from: nat, notation: Notation) -> Result<
        Position,
        usize,
    >
        decreases words.len() - from,
    {
        if from >= words.len() {
            Ok(self)
        } else {
            match self.word_move(words[from as int], notation) {
                Err(_) => Err(from as usize),
                Ok(m) => if self.can_apply(m) {
                    self.after(m).play_unchecked(words, from + 1, notation)
                } else {
                    Err(from as usize)
                },
            }
        }
    }
}

/// The four numbers that a list of words spells, where it holds four
/// words that each spell a number the machine can hold.
pub open spec fn corners_of(words: Seq<Seq<char>>) -> Option<(int, int, int, int)> {
    if words.len() == 4 && (forall|i: int|
        0 <= i < 4 ==> (#[trigger] number_of(words[i])) is Some && number_of(words[i]).unwrap()
            <= usize::MAX) {
        Some(
            (
                number_of(words[0]).unwrap() as int,
                number_of(words[1]).unwrap() as int,
                number_of(words[2]).unwrap() as int,
                number_of(words[3]).unwrap() as int,
            ),
        )
    } else {
        None
    }
}

impl Board {
    /// Tells whether the move can be carried out: a pawn move lands on
    /// the grid, a wall is paid from a budget that is not empty.
    pub fn can_apply(&self, m: &Move) -> (r: bool)
        requires
            self.wf(),
            m.wf(),
        ensures
            r == self@.can_apply(*m),
    {
        let tm = self.to_move_indices().0;
        match m {
            Move::Step(c) => {
                let c = *c;
                let d1 = if c < 10 {
                    c
                } else {
                    c / 10
                };
                let d2 = if c < 10 {
                    0
                } else {
                    c % 10
                };
                let mut x: i128 = self.players[tm][0] as i128;
                let mut y: i128 = self.players[tm][1] as i128;
                if d1 == 1 {
                    y += 1;
                }
                if d2 == 1 {
                    y += 1;
                }
                if d1 == 2 {
                    x += 1;
                }
                if d2 == 2 {
                    x += 1;
                }
                if d1 == 3 {
                    y -= 1;
                }
                if d2 == 3 {
                    y -= 1;
                }
                if d1 == 4 {
                    x -= 1;
                }
                if d2 == 4 {
                    x -= 1;
                }
                0 <= x && x <= 8 && 0 <= y && y <= 8
            },
            Move::Wall(_) => self.walls_left[tm] > 0,
        }
    }

    /// Plays a sequence of words, each read in the notation given and
    /// validated before it is applied. All or nothing: where a word names
    /// no move or an illegal one, the board is left as it was and the
    /// failure is reported with the place of the word.
    pub fn extend_words(&mut self, words: &Vec<String>, notation: Notation) -> (r: Result<
        (),
        PlayError,
    >)
        requires
            old(self).wf(),
        ensures
            final(self).wf(),
            match old(self)@.play(texts(words@), 0, notation) {
                Ok(p) => r is Ok && final(self)@ == p && final(self).move_sequence@ == old(self)
                    .move_sequence@ + old(self)@.record(texts(words@), 0, notation),
                Err(e) => r == Err::<(), PlayError>(e) && final(self)@ == old(self)@
                    && final(self).move_sequence@ == old(self).move_sequence@,
            },
    {
        let saved = self.clone();
        let ghost start = self@;
        let ghost all = texts(words@);
        let ghost before = self.move_sequence@;
        let mut i: usize = 0;
        while i < words.len()
            invariant
                0 <= i <= words.len(),
                self.wf(),
                all == texts(words@),
                start == old(self)@,
                before == old(self).move_sequence@,
                saved@ == start,
                saved.move_sequence@ == before,
                saved.wf(),
                start.play(all, 0, notation) == self@.play(all, i as nat, notation),
                before + start.record(all, 0, notation) == self.move_sequence@ + self@.record(
                    all,
                    i as nat,
                    notation,
                ),
            decreases words.len() - i,
        {
            let (tm, ntm) = self.to_move_indices();
            assert(all[i as int] == words@[i as int]@);
            match move_from_str(words[i].as_str(), self.players[tm], self.players[ntm], notation) {
                Err(_) => {
                    *self = saved;
                    return Err(PlayError::Invalid(i));
                },
                Ok(m) => {
                    match self.check_move(&m) {
                        Err(e) => {
                            *self = saved;
                            return Err(PlayError::Illegal(i, e));
                        },
                        Ok(_) => {},
                    }
                    proof {
                        lemma_legal_can_apply(self@, m);
                        assert(self.move_sequence@ + (seq![m] + self@.after(m).record(
                            all,
                            (i + 1) as nat,
                            notation,
                        )) =~= self.move_sequence@.push(m) + self@.after(m).record(
                            all,
                            (i + 1) as nat,
                            notation,
                        ));
                    }
                    self.mv(&m);
                },
            }
            i += 1;
        }
        proof {
            assert(self.move_sequence@ + Seq::<Move>::empty() =~= self.move_sequence@);
        }
        Ok(())
    }

    /// Plays the moves that a text holds, separated by white space, as
    /// `extend_words` plays its words.
    pub fn extend(&mut self, s: &str, notation: Notation) -> (r: Result<(), PlayError>)
        requires
            old(self).wf(),
        ensures
            final(self).wf(),
            match old(self)@.play(words_of(s@), 0, notation) {
                Ok(p) => r is Ok && final(self)@ == p && final(self).move_sequence@ == old(self)
                    .move_sequence@ + old(self)@.record(words_of(s@), 0, notation),
                Err(e) => r == Err::<(), PlayError>(e) && final(self)@ == old(self)@
                    && final(self).move_sequence@ == old(self).move_sequence@,
            },
    {
        let words = split_words(s);
        assert(texts(words@) =~= words_of(s@));
        self.extend_words(&words, notation)
    }

    /// Applies a sequence of words without validating the moves. All or
    /// nothing: where a word names no move, or one that cannot be carried
    /// out, the board is left as it was and the place of the word is
    /// reported.
    pub fn extend_words_no_check(&mut self, words: &Vec<String>, notation: Notation) -> (r: Result<
        (),
        usize,
    >)
        requires
            old(self).wf(),
        ensures
            final(self).wf(),
            match old(self)@.play_unchecked(texts(words@), 0, notation) {
                Ok(p) => r is Ok && final(self)@ == p && final(self).move_sequence@ == old(self)
                    .move_sequence@ + old(self)@.record(texts(words@), 0, notation),
                Err(e) => r == Err::<(), usize>(e) && final(self)@ == old(self)@
                    && final(self).move_sequence@ == old(self).move_sequence@,
            },
    {
        let saved = self.clone();
        let ghost start = self@;
        let ghost all = texts(words@);
        let ghost before = self.move_sequence@;
        let mut i: usize = 0;
        while i < words.len()
            invariant
                0 <= i <= words.len(),
                self.wf(),
                all == texts(words@),
                start == old(self)@,
                saved@ == start,
                saved.move_sequence@ == old(self).move_sequence@,
                saved.wf(),
                before == old(self).move_sequence@,
                start.play_unchecked(all, 0, notation) == self@.play_unchecked(
                    all,
                    i as nat,
                    notation,
                ),
                before + start.record(all, 0, notation) == self.move_sequence@ + self@.record(
                    all,
                    i as nat,
                    notation,
                ),
            decreases words.len() - i,
        {
            let (tm, ntm) = self.to_move_indices();
            assert(all[i as int] == words@[i as int]@);
            match move_from_str(words[i].as_str(), self.players[tm], self.players[ntm], notation) {
                Err(_) => {
                    *self = saved;
                    return Err(i);
                },
                Ok(m) => {
                    if !self.can_apply(&m) {
                        *self = saved;
                        return Err(i);
                    }
                    proof {
                        assert(self.move_sequence@ + (seq![m] + self@.after(m).record(
                            all,
                            (i + 1) as nat,
                            notation,
                        )) =~= self.move_sequence@.push(m) + self@.after(m).record(
                            all,
                            (i + 1) as nat,
                            notation,
                        ));
                    }
                    self.mv(&m);
                },
            }
            i += 1;
        }
        proof {
            assert(self.move_sequence@ + Seq::<Move>::empty() =~= self.move_sequence@);
        }
        Ok(())
    }

    /// Applies the moves that a text holds, separated by white space, as
    /// `extend_words_no_check` applies its words.
    pub fn extend_no_check(&mut self, s: &str, notation: Notation) -> (r: Result<(), usize>)
        requires
            old(self).wf(),
        ensures
            final(self).wf(),
            match old(self)@.play_unchecked(words_of(s@), 0, notation) {
                Ok(p) => r is Ok && final(self)@ == p && final(self).move_sequence@ == old(self)
                    .move_sequence@ + old(self)@.record(words_of(s@), 0, notation),
                Err(e) => r == Err::<(), usize>(e) && final(self)@ == old(self)@
                    && final(self).move_sequence@ == old(self).move_sequence@,
            },
    {
        let words = split_words(s);
        assert(texts(words@) =~= words_of(s@));
        self.extend_words_no_check(&words, notation)
    }

    /// The board that the moves of a text lead to from the opening
    /// position, or the first failure.
    pub fn from(s: &str, notation: Notation) -> (r: Result<Board, PlayError>)
        ensures
            match Board::start().play(words_of(s@), 0, notation) {
                Ok(p) => r matches Ok(b) && b@ == p && b.wf() && b.move_sequence@
                    == Board::start().record(words_of(s@), 0, notation),
                Err(e) => r matches Err(f) && f == e,
            },
    {
        let mut b = Board::new();
        match b.extend(s, notation) {
            Ok(_) => {
                assert(Seq::<Move>::empty() + Board::start().record(words_of(s@), 0, notation)
                    =~= Board::start().record(words_of(s@), 0, notation));
                Ok(b)
            },
            Err(e) => Err(e),
        }
    }

    /// Walls up the block between two corners: every wall of `fill_set`
    /// is added to those in place; nothing else changes.
    pub fn fill(&mut self, from: [usize; 2], to: [usize; 2])
        ensures
            final(self)@ == (Position {
                walls: old(self)@.walls.union(
                    fill_set(from[0] as int, from[1] as int, to[0] as int, to[1] as int),
                ),
                ..old(self)@
            }),
            final(self).move_sequence == old(self).move_sequence,
    {
        let ghost x0 = from[0] as int;
        let ghost y0 = from[1] as int;
        let ghost x1 = to[0] as int;
        let ghost y1 = to[1] as int;
        let ghost before = self@.walls;
        let mut k: usize = 0;
        proof {
            assert(before =~= fill_part(before, x0, y0, x1, y1, 0));
        }
        while k < 128
            invariant
                0 <= k <= 128,
                x0 == from[0],
                y0 == from[1],
                x1 == to[0],
                y1 == to[1],
                *self == (Board { walls: self.walls, ..*old(self) }),
                before == old(self)@.walls,
                self@.walls == fill_part(before, x0, y0, x1, y1, k as int),
            decreases 128 - k,
        {
            let i = k / 64;
            let x = (k / 8) % 8;
            let y = k % 8;
            let ghost prev = self@.walls;
            assert(k == 64 * i + 8 * x + y);
            let inside = from[0] < x && x < to[0] && from[1] < y && y < to[1];
            let on_row = i == 0 && from[0] < x && x < to[0] && (y == from[1] || y == to[1]);
            let on_column = i == 1 && from[1] < y && y < to[1] && (x == from[0] || x == to[0]);
            if inside || on_row || on_column {
                self.place_wall(i, x, y);
            }
            proof {
                let next = fill_part(before, x0, y0, x1, y1, k + 1);
                assert forall|t: (int, int, int)| self@.walls.contains(t) == next.contains(t) by {
                    assert(prev.contains(t) == fill_part(before, x0, y0, x1, y1, k as int).contains(
                        t,
                    ));
                    if wall_slot(t.0, t.1, t.2) && 64 * t.0 + 8 * t.1 + t.2 == k {
                        assert(t.0 == i && t.1 == x && t.2 == y);
                        assert(t == (i as int, x as int, y as int));
                    }
                }
                assert(self@.walls =~= next);
            }
            k += 1;
        }
        proof {
            assert(fill_part(before, x0, y0, x1, y1, 128) =~= before.union(
                fill_set(x0, y0, x1, y1),
            ));
        }
    }

    /// Walls up the block between the corners that four words spell as
    /// numbers, `x0 y0 x1 y1`; refuses any other list of words and leaves
    /// the board as it is.
    pub fn fill_from_words(&mut self, words: &Vec<String>) -> (r: Result<(), ParseError>)
        ensures
            final(self).move_sequence == old(self).move_sequence,
            match corners_of(texts(words@)) {
                Some(c) => r is Ok && final(self)@ == (Position {
                    walls: old(self)@.walls.union(fill_set(c.0, c.1, c.2, c.3)),
                    ..old(self)@
                }),
                None => r == Err::<(), ParseError>(ParseError::FillChordsIncorrect) && *final(self)
                    == *old(self),
            },
    {
        if words.len() != 4 {
            return Err(ParseError::FillChordsIncorrect);
        }
        let ghost all = texts(words@);
        assert(all[0] == words@[0]@ && all[1] == words@[1]@ && all[2] == words@[2]@ && all[3]
            == words@[3]@);
        let x0 = match parse_number(words[0].as_str()) {
            Some(n) => n,
            None => {
                assert(!(number_of(all[0]) is Some && number_of(all[0]).unwrap() <= usize::MAX));
                return Err(ParseError::FillChordsIncorrect);
            },
        };
        let y0 = match parse_number(words[1].as_str()) {
            Some(n) => n,
            None => {
                assert(!(number_of(all[1]) is Some && number_of(all[1]).unwrap() <= usize::MAX));
                return Err(ParseError::FillChordsIncorrect);
            },
        };
        let x1 = match parse_number(words[2].as_str()) {
            Some(n) => n,
            None => {
                assert(!(number_of(all[2]) is Some && number_of(all[2]).unwrap() <= usize::MAX));
                return Err(ParseError::FillChordsIncorrect);
            },
        };
        let y1 = match parse_number(words[3].as_str()) {
            Some(n) => n,
            None => {
                assert(!(number_of(all[3]) is Some && number_of(all[3]).unwrap() <= usize::MAX));
                return Err(ParseError::FillChordsIncorrect);
            },
        };
        self.fill([x0, y0], [x1, y1]);
        Ok(())
    }

    /// Walls up the block between the corners that a text holds as four
    /// numbers separated by white space, as `fill_from_words` does for its
    /// words.
    pub fn try_fill_from_str(&mut self, input: String) -> (r: Result<(), ParseError>)
        ensures
            final(self).move_sequence == old(self).move_sequence,
            match corners_of(words_of(input@)) {
                Some(c) => r is Ok && final(self)@ == (Position {
                    walls: old(self)@.walls.union(fill_set(c.0, c.1, c.2, c.3)),
                    ..old(self)@
                }),
                None => r == Err::<(), ParseError>(ParseError::FillChordsIncorrect) && *final(self)
                    == *old(self),
            },
    {
        let words = split_words(input.as_str());
        assert(texts(words@) =~= words_of(input@));
        self.fill_from_words(&words)
    }
}

} // verus!
