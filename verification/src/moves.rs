use vstd::prelude::*;
use crate::board::Board;
use crate::enums::{Move, Player};
use crate::position::Position;
use crate::rules::is_step_code;

verus! {

/// The pawn move codes in the order in which a side tries them: those
/// that lead toward its own goal row first.
pub open spec fn step_order(p: Player) -> Seq<int> {
    match p {
        Player::Player1 => seq![1, 11, 12, 14, 21, 2, 4, 22, 23, 41, 44, 43, 3, 32, 33, 34],
        Player::Player2 => seq![3, 33, 32, 34, 2, 4, 23, 22, 21, 44, 43, 41, 1, 14, 12, 11],
    }
}

/// The move that places the wall `(o, x, y)`.
pub open spec fn wall_move(o: int, x: int, y: int) -> Move {
    Move::Wall([o as usize, x as usize, y as usize])
}

/// The candidate moves of a side, in the order in which they are tried:
/// the sixteen pawn moves, then the 128 walls by orientation, column, row.
pub open spec fn candidates(p: Player) -> Seq<Move> {
    Seq::new(
        144,
        |k: int|
            if k < 16 {
                Move::Step(step_order(p)[k] as usize)
            } else {
                wall_move((k - 16) / 64, ((k - 16) / 8) % 8, (k - 16) % 8)
            },
    )
}

/// The moves of `c` that are legal in `pos`, in the order of `c`.
pub open spec fn legal_among(pos: Position, c: Seq<Move>) -> Seq<Move>
    decreases c.len(),
{
    if c.len() == 0 {
        Seq::empty()
    } else {
        let rest = legal_among(pos, c.drop_last());
        if pos.legal(c.last()) {
            rest.push(c.last())
        } else {
            rest
        }
    }
}

impl Position {
    /// All legal moves of the side to move, in the order of the candidates.
    pub open spec fn legal_moves(self) -> Seq<Move> {
        legal_among(self, candidates(self.to_move))
    }
}

/// Two walls with the same orientation and anchor are one move.
pub proof fn lemma_wall_move_eq(a: [usize; 3], b: [usize; 3])
    requires
        a[0] == b[0],
        a[1] == b[1],
        a[2] == b[2],
    ensures
        Move::Wall(a) == Move::Wall(b),
{
    assert(a =~= b);
}

/// Every candidate is well formed.
pub proof fn lemma_candidates_wf(p: Player, k: int)
    requires
        0 <= k < 144,
    ensures
        candidates(p)[k].wf(),
{
    if k < 16 {
        let s = step_order(p);
        assert(is_step_code(s[0]) && is_step_code(s[1]) && is_step_code(s[2]) && is_step_code(s[3])
            && is_step_code(s[4]) && is_step_code(s[5]) && is_step_code(s[6]) && is_step_code(s[7])
            && is_step_code(s[8]) && is_step_code(s[9]) && is_step_code(s[10]) && is_step_code(
            s[11],
        ) && is_step_code(s[12]) && is_step_code(s[13]) && is_step_code(s[14]) && is_step_code(
            s[15],
        ));
    }
}

/// Place of a pawn move code among the candidates of a side.
pub open spec fn step_place(p: Player, c: int) -> int {
    let s = step_order(p);
    if s[0] == c {
        0
    } else if s[1] == c {
        1
    } else if s[2] == c {
        2
    } else if s[3] == c {
        3
    } else if s[4] == c {
        4
    } else if s[5] == c {
        5
    } else if s[6] == c {
        6
    } else if s[7] == c {
        7
    } else if s[8] == c {
        8
    } else if s[9] == c {
        9
    } else if s[10] == c {
        10
    } else if s[11] == c {
        11
    } else if s[12] == c {
        12
    } else if s[13] == c {
        13
    } else if s[14] == c {
        14
    } else {
        15
    }
}

/// Every well-formed move is among the candidates of either side.
pub proof fn lemma_candidates_complete(p: Player, m: Move)
    requires
        m.wf(),
    ensures
        candidates(p).contains(m),
{
    match m {
        Move::Step(c) => {
            let k = step_place(p, c as int);
            assert(0 <= k < 16);
            assert(step_order(p)[k] == c);
            assert(candidates(p)[k] == m);
        },
        Move::Wall(a) => {
            let k = 16 + 64 * a[0] + 8 * a[1] + a[2];
            let c = candidates(p)[k];
            assert(c == wall_move((k - 16) / 64, ((k - 16) / 8) % 8, (k - 16) % 8));
            assert((k - 16) / 64 == a[0]);
            assert(((k - 16) / 8) % 8 == a[1]);
            assert((k - 16) % 8 == a[2]);
            lemma_wall_move_eq(a, [a[0], a[1], a[2]]);
            assert(c == m);
        },
    }
}

/// A move is among the legal ones of `c` exactly if it is in `c` and legal.
pub proof fn lemma_legal_among_contains(pos: Position, c: Seq<Move>, m: Move)
    ensures
        legal_among(pos, c).contains(m) <==> c.contains(m) && pos.legal(m),
    decreases c.len(),
{
    if c.len() > 0 {
        let rest = legal_among(pos, c.drop_last());
        lemma_legal_among_contains(pos, c.drop_last(), m);
        if c.contains(m) {
            let i = choose|i: int| 0 <= i < c.len() && c[i] == m;
            if i < c.len() - 1 {
                assert(c.drop_last()[i] == m);
            }
        }
        if c.drop_last().contains(m) {
            let i = choose|i: int| 0 <= i < c.drop_last().len() && c.drop_last()[i] == m;
            assert(c[i] == m);
        }
        if pos.legal(c.last()) {
            let all = rest.push(c.last());
            if rest.contains(m) {
                let i = choose|i: int| 0 <= i < rest.len() && rest[i] == m;
                assert(all[i] == m);
            }
            if c.last() == m {
                assert(all[rest.len() as int] == m);
            }
            if all.contains(m) {
                let i = choose|i: int| 0 <= i < all.len() && all[i] == m;
                if i < rest.len() {
                    assert(rest[i] == m);
                }
            }
        }
    }
}

/// Every move among the legal ones of a list is legal.
pub proof fn lemma_legal_among_legal(pos: Position, c: Seq<Move>, i: int)
    requires
        0 <= i < legal_among(pos, c).len(),
    ensures
        pos.legal(legal_among(pos, c)[i]),
    decreases c.len(),
{
    if c.len() > 0 {
        let rest = legal_among(pos, c.drop_last());
        if i < rest.len() {
            lemma_legal_among_legal(pos, c.drop_last(), i);
        }
    }
}

impl Board {
    /// All legal moves of the side to move: the pawn moves first, in the
    /// side's own order, then the walls. The board is left as it was.
    pub fn all_legal_moves(&mut self) -> (moves: Vec<Move>)
        requires
            old(self).wf(),
        ensures
            *final(self) == *old(self),
            moves@ == old(self)@.legal_moves(),
            forall|i: int| 0 <= i < moves@.len() ==> old(self)@.legal(#[trigger] moves@[i]),
            forall|m: Move| m.wf() ==> (moves@.contains(m) <==> old(self)@.check(m) is Ok),
    {
        let mut moves: Vec<Move> = Vec::new();
        let order: [usize; 16] = match self.to_move {
            Player::Player1 => [1, 11, 12, 14, 21, 2, 4, 22, 23, 41, 44, 43, 3, 32, 33, 34],
            Player::Player2 => [3, 33, 32, 34, 2, 4, 23, 22, 21, 44, 43, 41, 1, 14, 12, 11],
        };
        let ghost pos = self@;
        let ghost cands = candidates(self.to_move);
        proof {
            let s = step_order(self.to_move);
            assert(order[0] == s[0] && order[1] == s[1] && order[2] == s[2] && order[3] == s[3]
                && order[4] == s[4] && order[5] == s[5] && order[6] == s[6] && order[7] == s[7]
                && order[8] == s[8] && order[9] == s[9] && order[10] == s[10] && order[11] == s[11]
                && order[12] == s[12] && order[13] == s[13] && order[14] == s[14] && order[15]
                == s[15]);
            assert(order@ =~= Seq::new(16, |k: int| s[k] as usize));
            assert(cands.take(0) =~= Seq::<Move>::empty());
        }
        let mut k: usize = 0;
        while k < 16
            invariant
                0 <= k <= 16,
                *self == *old(self),
                self.wf(),
                pos == self@,
                cands == candidates(self.to_move),
                order@ == Seq::new(16, |k: int| step_order(self.to_move)[k] as usize),
                moves@ == legal_among(pos, cands.take(k as int)),
            decreases 16 - k,
        {
            let m = Move::Step(order[k]);
            proof {
                lemma_candidates_wf(self.to_move, k as int);
                assert(cands[k as int] == m);
                assert(cands.take(k + 1).drop_last() =~= cands.take(k as int));
            }
            if self.check_move(&m).is_ok() {
                moves.push(m);
            }
            k += 1;
        }
        let mut i: usize = 0;
        while i < 2
            invariant
                0 <= i <= 2,
                *self == *old(self),
                self.wf(),
                pos == self@,
                cands == candidates(self.to_move),
                moves@ == legal_among(pos, cands.take(16 + 64 * i)),
            decreases 2 - i,
        {
            let mut x: usize = 0;
            while x < 8
                invariant
                    0 <= i < 2,
                    0 <= x <= 8,
                    *self == *old(self),
                    self.wf(),
                    pos == self@,
                    cands == candidates(self.to_move),
                    moves@ == legal_among(pos, cands.take(16 + 64 * i + 8 * x)),
                decreases 8 - x,
            {
                let mut y: usize = 0;
                while y < 8
                    invariant
                        0 <= i < 2,
                        0 <= x < 8,
                        0 <= y <= 8,
                        *self == *old(self),
                        self.wf(),
                        pos == self@,
                        cands == candidates(self.to_move),
                        moves@ == legal_among(pos, cands.take(16 + 64 * i + 8 * x + y)),
                    decreases 8 - y,
                {
                    let m = Move::Wall([i, x, y]);
                    proof {
                        let n = 16 + 64 * i + 8 * x + y;
                        assert((n - 16) / 64 == i);
                        assert(((n - 16) / 8) % 8 == x);
                        assert((n - 16) % 8 == y);
                        assert(cands[n] == wall_move(i as int, x as int, y as int));
                        assert(cands[n] == m);
                        assert(cands.take(n + 1).drop_last() =~= cands.take(n));
                    }
                    if self.check_move(&m).is_ok() {
                        moves.push(m);
                    }
                    y += 1;
                }
                x += 1;
            }
            i += 1;
        }
        proof {
            assert(cands.take(144) =~= cands);
            assert forall|i: int| 0 <= i < moves@.len() implies pos.legal(#[trigger] moves@[i]) by {
                lemma_legal_among_legal(pos, cands, i);
            }
            assert forall|m: Move| m.wf() implies (moves@.contains(m) <==> pos.check(m) is Ok) by {
                lemma_legal_among_contains(pos, cands, m);
                lemma_candidates_complete(pos.to_move, m);
            }
        }
        moves
    }
}

} // verus!
