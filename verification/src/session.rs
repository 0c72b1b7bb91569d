use vstd::prelude::*;
use crate::board::Board;
use crate::brute::{brute_force, brute_force_5x5};
use crate::enums::{HelpMessage, IoState, IoStateView, Move, Notation, ParseError};
use crate::helpers::{get_and_parse_input, help, line_command, topic_of};
use crate::play::{corners_of, fill_set, PlayError};
use crate::position::Position;
use crate::text::{trim_of, words_of};
use crate::vis::{print_board, shows, Glyph};

verus! {

/// What a step of the session hands out to be shown or done.
#[derive(Debug, PartialEq, Eq)]
pub enum Output {
    /// Nothing.
    Nothing,
    /// The greeting.
    Greeting,
    /// The session waits for a line of input.
    Prompt,
    /// The command failed in the way given.
    Failed(ParseError),
    /// The help text on a topic.
    Help(HelpMessage),
    /// A new board was set up.
    NewBoard,
    /// The moves were played; the number says which player moves next.
    BoardUpdated(usize),
    /// The moves were not played.
    Refused(PlayError),
    /// The word at the place given names no move that can be carried out.
    NotAMove(usize),
    /// The picture of the board.
    Picture(Vec<Vec<Glyph>>),
    /// The block was walled up.
    Filled,
    /// The best line of play that a search found, and its score.
    Found(Vec<Move>, isize),
    /// No search: a player has no way to its goal row.
    NoWay,
    /// The session is over.
    Quit,
}

/// The state of an interactive session: the board in play, the boards
/// before it, what to do next, and the settings.
#[derive(Debug)]
pub struct InteractiveInstance {
    pub board: Board,
    pub history: Vec<Board>,
    pub state: IoState,
    pub input: Option<String>,
    pub invert: bool,
    pub notation: Notation,
}

/// Two boards show the same position and the same record of moves.
pub open spec fn alike(a: Board, b: Board) -> bool {
    a@ == b@ && a.move_sequence@ == b.move_sequence@
}

/// The text of an optional word.
pub open spec fn word_view(s: Option<String>) -> Option<Seq<char>> {
    match s {
        Some(t) => Some(t@),
        None => None,
    }
}

impl InteractiveInstance {
    /// The board in play and every board of the history are well formed.
    pub open spec fn wf(&self) -> bool {
        &&& self.board.wf()
        &&& forall|i: int| 0 <= i < self.history@.len() ==> (#[trigger] self.history@[i]).wf()
    }

    /// `next` has the settings of this session.
    pub open spec fn same_settings(&self, next: &InteractiveInstance) -> bool {
        next.invert == self.invert && next.notation == self.notation
    }

    /// `next` has the history of this session.
    pub open spec fn same_history(&self, next: &InteractiveInstance) -> bool {
        &&& next.history@.len() == self.history@.len()
        &&& forall|i: int|
            0 <= i < self.history@.len() ==> alike(#[trigger] next.history@[i], self.history@[i])
    }

    /// The history of `next` is that of this session with the board in
    /// play added at its end.
    pub open spec fn remembered(&self, next: &InteractiveInstance) -> bool {
        &&& next.history@.len() == self.history@.len() + 1
        &&& forall|i: int|
            0 <= i < self.history@.len() ==> alike(#[trigger] next.history@[i], self.history@[i])
        &&& alike(next.history@[self.history@.len() as int], self.board)
    }

    /// `next` is this session but for what it does next.
    pub open spec fn unchanged(&self, next: &InteractiveInstance) -> bool {
        &&& alike(next.board, self.board)
        &&& self.same_history(next)
        &&& self.same_settings(next)
    }

    /// What a step in the state `Await` leads to: a prompt while no line is
    /// there, else the state that the line asks for, or the failure to
    /// read it.
    pub open spec fn awaited(&self, line: Option<&str>, next: &InteractiveInstance, out: Output) -> bool {
        &&& self.unchanged(next)
        &&& match line {
            None => next.state@ == IoStateView::Await && out == Output::Prompt,
            Some(l) => match line_command(trim_of(l@)) {
                Ok(s) => next.state@ == s && out == Output::Nothing,
                Err(e) => next.state@ == IoStateView::Await && out == Output::Failed(e),
            },
        }
    }

    /// What playing the moves of a text leads to: where all are legal, the
    /// board they lead to, the old board added to the history, and the
    /// picture next; else nothing but the report of the failure.
    pub open spec fn played(&self, text: Seq<char>, next: &InteractiveInstance, out: Output) -> bool {
        &&& self.same_settings(next)
        &&& match self.board@.play(words_of(text), 0, self.notation) {
            Ok(p) => {
                &&& next.board@ == p
                &&& next.board.move_sequence@ == self.board.move_sequence@ + self.board@.record(
                    words_of(text),
                    0,
                    self.notation,
                )
                &&& self.remembered(next)
                &&& next.state@ == IoStateView::ShowBoard
                &&& out == Output::BoardUpdated((p.mover() + 1) as usize)
            },
            Err(e) => {
                &&& alike(next.board, self.board)
                &&& self.same_history(next)
                &&& next.state@ == IoStateView::Await
                &&& out == Output::Refused(e)
            },
        }
    }

    /// What applying the moves of a text without validation leads to: the
    /// old board is added to the history; where every word names a move
    /// that can be carried out, the board they lead to and the picture
    /// next; else the board as it was and the place of the failing word.
    pub open spec fn forced(&self, text: Seq<char>, next: &InteractiveInstance, out: Output) -> bool {
        &&& self.same_settings(next)
        &&& self.remembered(next)
        &&& match self.board@.play_unchecked(words_of(text), 0, self.notation) {
            Ok(p) => {
                &&& next.board@ == p
                &&& next.board.move_sequence@ == self.board.move_sequence@ + self.board@.record(
                    words_of(text),
                    0,
                    self.notation,
                )
                &&& next.state@ == IoStateView::ShowBoard
                &&& out == Output::BoardUpdated((p.mover() + 1) as usize)
            },
            Err(i) => {
                &&& alike(next.board, self.board)
                &&& next.state@ == IoStateView::Await
                &&& out == Output::NotAMove(i)
            },
        }
    }

    /// What walling up a block leads to: where the text holds four
    /// numbers, the walls added, the old board added to the history, and
    /// the picture next; else nothing but the report of the failure.
    pub open spec fn filled(&self, text: Seq<char>, next: &InteractiveInstance, out: Output) -> bool {
        &&& self.same_settings(next)
        &&& next.board.move_sequence@ == self.board.move_sequence@
        &&& match corners_of(words_of(text)) {
            Some(c) => {
                &&& next.board@ == (Position {
                    walls: self.board@.walls.union(fill_set(c.0, c.1, c.2, c.3)),
                    ..self.board@
                })
                &&& self.remembered(next)
                &&& next.state@ == IoStateView::ShowBoard
                &&& out == Output::Filled
            },
            None => {
                &&& alike(next.board, self.board)
                &&& self.same_history(next)
                &&& next.state@ == IoStateView::Await
                &&& out == Output::Failed(ParseError::FillChordsIncorrect)
            },
        }
    }

    /// What a search leads to: its best line and score where both players
    /// have a way to their goal rows, else the report that one has none.
    pub open spec fn searched(
        &self,
        depth: usize,
        small: bool,
        next: &InteractiveInstance,
        out: Output,
    ) -> bool {
        &&& self.unchanged(next)
        &&& next.state@ == IoStateView::Await
        &&& if self.board@.paths_open() {
            out matches Output::Found(line, score) && score == self.board@.root_value(
                depth as nat,
                small,
            ) && self.board@.root_line(line@, depth as nat, small)
        } else {
            out == Output::NoWay
        }
    }

    /// What taking back `n` steps leads to: the board that was in play
    /// `n` steps ago (one step ago for `n` = 0), with the history cut back
    /// to before it; where the history is too short, nothing but the
    /// report of that.
    pub open spec fn undone(&self, n: usize, next: &InteractiveInstance, out: Output) -> bool {
        let back: int = if n == 0 {
            1
        } else {
            n as int
        };
        let len = self.history@.len() as int;
        &&& self.same_settings(next)
        &&& next.state@ == IoStateView::Await
        &&& if len < back {
            &&& alike(next.board, self.board)
            &&& self.same_history(next)
            &&& out == Output::Failed(ParseError::NotEnoughToUndo)
        } else {
            &&& alike(next.board, self.history@[len - back])
            &&& next.history@.len() == len - back
            &&& forall|i: int|
                0 <= i < len - back ==> alike(#[trigger] next.history@[i], self.history@[i])
            &&& out == Output::Nothing
        }
    }

    /// What one step of the session leads to, by the state it is in.
    pub open spec fn stepped(&self, line: Option<&str>, next: &InteractiveInstance, out: Output) -> bool {
        match self.state@ {
            IoStateView::Hello => self.unchanged(next) && next.state@ == IoStateView::Await && out
                == Output::Greeting,
            IoStateView::Await => self.awaited(line, next, out),
            IoStateView::Help(s) => self.unchanged(next) && next.state@ == IoStateView::Await
                && out == Output::Help(topic_of(s)),
            IoStateView::NewBoard => self.same_settings(next) && self.remembered(next)
                && next.board@ == Board::start() && next.board.move_sequence@.len() == 0
                && next.input is None && next.state@ == IoStateView::Await && out
                == Output::NewBoard,
            IoStateView::NewBoard5x5 => self.same_settings(next) && self.remembered(next)
                && next.board@ == Board::start_small() && next.board.move_sequence@.len() == 0
                && next.input is None && next.state@ == IoStateView::Await && out
                == Output::NewBoard,
            IoStateView::PlayMoves(text) => self.played(text, next, out),
            IoStateView::PlayMovesNoCheck(text) => self.forced(text, next, out),
            IoStateView::ShowBoard => self.unchanged(next) && next.state@ == IoStateView::Await
                && (out matches Output::Picture(rows) && shows(rows@, self.board, self.invert)),
            IoStateView::SetFlag(f) => alike(next.board, self.board) && self.same_history(next)
                && next.notation == self.notation && next.invert && next.state@
                == IoStateView::Await && out == Output::Nothing,
            IoStateView::Unset(f) => alike(next.board, self.board) && self.same_history(next)
                && next.notation == self.notation && !next.invert && next.state@
                == IoStateView::Await && out == Output::Nothing,
            IoStateView::SetNotation(n) => alike(next.board, self.board) && self.same_history(next)
                && next.invert == self.invert && next.notation == n && next.state@
                == IoStateView::Await && out == Output::Nothing,
            IoStateView::Fill(text) => self.filled(text, next, out),
            IoStateView::Brute(depth) => self.searched(depth, false, next, out),
            IoStateView::Brute5x5(depth) => self.searched(depth, true, next, out),
            IoStateView::Undo(n) => self.undone(n, next, out),
            IoStateView::Quit => self.unchanged(next) && next.state@ == IoStateView::Quit && out
                == Output::Quit,
        }
    }

    /// A session at its start: the opening position, no history, relative
    /// notation, the board shown upright, the greeting next.
    pub fn new() -> (s: InteractiveInstance)
        ensures
            s.wf(),
            s.board@ == Board::start(),
            s.board.move_sequence@.len() == 0,
            s.history@.len() == 0,
            s.state@ == IoStateView::Hello,
            s.input is None,
            !s.invert,
            s.notation == Notation::Relative,
    {
        InteractiveInstance {
            board: Board::new(),
            history: Vec::new(),
            state: IoState::Hello,
            input: None,
            invert: false,
            notation: Notation::Relative,
        }
    }

    /// Tells whether the session is well formed.
    pub fn is_wf(&self) -> (r: bool)
        ensures
            r == self.wf(),
    {
        if !self.board.is_wf() {
            return false;
        }
        let mut i: usize = 0;
        while i < self.history.len()
            invariant
                0 <= i <= self.history.len(),
                forall|j: int| 0 <= j < i ==> (#[trigger] self.history@[j]).wf(),
            decreases self.history.len() - i,
        {
            if !self.history[i].is_wf() {
                return false;
            }
            i += 1;
        }
        true
    }

    /// Tells whether both players have a way to their goal rows.
    fn searchable(board: &Board) -> (r: bool)
        requires
            board.wf(),
        ensures
            r == board@.paths_open(),
    {
        board.dist_to_goal(0).is_some() && board.dist_to_goal(1).is_some()
    }

    /// Does what the state of the session asks for and says what is to be
    /// shown. A line of input is looked at in the state `Await` only.
    pub fn step(self, line: Option<&str>) -> (r: (InteractiveInstance, Output))
        requires
            self.wf(),
        ensures
            r.0.wf(),
            self.stepped(line, &r.0, r.1),
    {
        let InteractiveInstance { board, history, state, input, invert, notation } = self;
        let mut board = board;
        let mut history = history;
        let ghost old_board = board;
        let ghost old_history = history@;
        match state {
            IoState::Hello => {
                (
                    InteractiveInstance { board, history, state: IoState::Await, input, invert, notation },
                    Output::Greeting,
                )
            },
            IoState::Await => {
                match line {
                    None => (
                        InteractiveInstance {
                            board,
                            history,
                            state: IoState::Await,
                            input,
                            invert,
                            notation,
                        },
                        Output::Prompt,
                    ),
                    Some(l) => match get_and_parse_input(l) {
                        Ok(s) => (
                            InteractiveInstance { board, history, state: s, input, invert, notation },
                            Output::Nothing,
                        ),
                        Err(e) => (
                            InteractiveInstance {
                                board,
                                history,
                                state: IoState::Await,
                                input,
                                invert,
                                notation,
                            },
                            Output::Failed(e),
                        ),
                    },
                }
            },
            IoState::Help(s) => {
                let topic = help(&s);
                (
                    InteractiveInstance { board, history, state: IoState::Await, input, invert, notation },
                    Output::Help(topic),
                )
            },
            IoState::NewBoard => {
                history.push(board);
                (
                    InteractiveInstance {
                        board: Board::new(),
                        history,
                        state: IoState::Await,
                        input: None,
                        invert,
                        notation,
                    },
                    Output::NewBoard,
                )
            },
            IoState::NewBoard5x5 => {
                history.push(board);
                (
                    InteractiveInstance {
                        board: Board::new5x5(),
                        history,
                        state: IoState::Await,
                        input: None,
                        invert,
                        notation,
                    },
                    Output::NewBoard,
                )
            },
            IoState::PlayMoves(text) => {
                let before = board.clone();
                match board.extend(text.as_str(), notation) {
                    Ok(_) => {
                        history.push(before);
                        let player = board.to_move_indices().0 + 1;
                        (
                            InteractiveInstance {
                                board,
                                history,
                                state: IoState::ShowBoard,
                                input,
                                invert,
                                notation,
                            },
                            Output::BoardUpdated(player),
                        )
                    },
                    Err(e) => (
                        InteractiveInstance {
                            board,
                            history,
                            state: IoState::Await,
                            input,
                            invert,
                            notation,
                        },
                        Output::Refused(e),
                    ),
                }
            },
            IoState::PlayMovesNoCheck(text) => {
                history.push(board.clone());
                match board.extend_no_check(text.as_str(), notation) {
                    Ok(_) => {
                        let player = board.to_move_indices().0 + 1;
                        (
                            InteractiveInstance {
                                board,
                                history,
                                state: IoState::ShowBoard,
                                input,
                                invert,
                                notation,
                            },
                            Output::BoardUpdated(player),
                        )
                    },
                    Err(i) => (
                        InteractiveInstance {
                            board,
                            history,
                            state: IoState::Await,
                            input,
                            invert,
                            notation,
                        },
                        Output::NotAMove(i),
                    ),
                }
            },
            IoState::ShowBoard => {
                let rows = print_board(&board, invert);
                (
                    InteractiveInstance { board, history, state: IoState::Await, input, invert, notation },
                    Output::Picture(rows),
                )
            },
            IoState::SetFlag(flag) => {
                (
                    InteractiveInstance {
                        board,
                        history,
                        state: IoState::Await,
                        input,
                        invert: true,
                        notation,
                    },
                    Output::Nothing,
                )
            },
            IoState::Unset(flag) => {
                (
                    InteractiveInstance {
                        board,
                        history,
                        state: IoState::Await,
                        input,
                        invert: false,
                        notation,
                    },
                    Output::Nothing,
                )
            },
            IoState::SetNotation(n) => {
                (
                    InteractiveInstance {
                        board,
                        history,
                        state: IoState::Await,
                        input,
                        invert,
                        notation: n,
                    },
                    Output::Nothing,
                )
            },
            IoState::Brute(depth) => {
                let out = if Self::searchable(&board) {
                    let found = brute_force(board.clone(), depth);
                    Output::Found(found.0, found.1)
                } else {
                    Output::NoWay
                };
                (
                    InteractiveInstance { board, history, state: IoState::Await, input, invert, notation },
                    out,
                )
            },
            IoState::Brute5x5(depth) => {
                let out = if Self::searchable(&board) {
                    let found = brute_force_5x5(board.clone(), depth);
                    Output::Found(found.0, found.1)
                } else {
                    Output::NoWay
                };
                (
                    InteractiveInstance { board, history, state: IoState::Await, input, invert, notation },
                    out,
                )
            },
            IoState::Fill(text) => {
                let before = board.clone();
                match board.try_fill_from_str(text) {
                    Ok(_) => {
                        history.push(before);
                        (
                            InteractiveInstance {
                                board,
                                history,
                                state: IoState::ShowBoard,
                                input,
                                invert,
                                notation,
                            },
                            Output::Filled,
                        )
                    },
                    Err(e) => (
                        InteractiveInstance {
                            board,
                            history,
                            state: IoState::Await,
                            input,
                            invert,
                            notation,
                        },
                        Output::Failed(e),
                    ),
                }
            },
            IoState::Undo(n) => {
                let back: usize = if n == 0 {
                    1
                } else {
                    n
                };
                if history.len() < back {
                    (
                        InteractiveInstance {
                            board,
                            history,
                            state: IoState::Await,
                            input,
                            invert,
                            notation,
                        },
                        Output::Failed(ParseError::NotEnoughToUndo),
                    )
                } else {
                    let keep = history.len() - back;
                    while history.len() > keep + 1
                        invariant
                            keep < history@.len() <= old_history.len(),
                            history@ == old_history.take(history@.len() as int),
                        decreases history@.len(),
                    {
                        history.pop();
                    }
                    let restored = history.pop().unwrap();
                    assert(restored == old_history[keep as int]);
                    (
                        InteractiveInstance {
                            board: restored,
                            history,
                            state: IoState::Await,
                            input,
                            invert,
                            notation,
                        },
                        Output::Nothing,
                    )
                }
            },
            IoState::Quit => {
                (
                    InteractiveInstance { board, history, state: IoState::Quit, input, invert, notation },
                    Output::Quit,
                )
            },
        }
    }
}

} // verus!
