use vstd::prelude::*;

verus! {

/// Fill colour of a square or wall segment on the rendered board.
#[derive(Clone, Copy, Debug, PartialEq, Eq, Structural)]
pub enum Color {
    Empty,
    White,
}

/// A move in structured form.
///
/// `Step(code)` is a pawn move. A single digit 1, 2, 3, 4 steps north, east,
/// south, west. Two digits are a jump over the adjacent opponent: the tens
/// digit is the leg toward the opponent, the units digit the leg that
/// follows. `Wall([o, x, y])` places a wall of orientation `o` (0 horizontal,
/// 1 vertical) anchored at `(x, y)`.
#[derive(Clone, Copy, Debug, PartialEq, Eq)]
pub enum Move {
    Step(usize),
    Wall([usize; 3]),
}

/// One of the two sides. `Player1` heads for row 8, `Player2` for row 0.
#[derive(Clone, Copy, Debug, PartialEq, Eq, Structural)]
pub enum Player {
    Player1,
    Player2,
}

/// What the interactive session does next.
#[derive(Debug, PartialEq, Eq)]
pub enum IoState {
    Hello,
    Await,
    Help(Option<String>),
    NewBoard,
    NewBoard5x5,
    PlayMoves(String),
    PlayMovesNoCheck(String),
    ShowBoard,
    SetFlag(Flag),
    SetNotation(Notation),
    Unset(Flag),
    Fill(String),
    Brute(usize),
    Brute5x5(usize),
    Undo(usize),
    Quit,
}

/// The mathematical model of an [`IoState`]: texts are sequences of
/// characters.
pub enum IoStateView {
    Hello,
    Await,
    Help(Option<Seq<char>>),
    NewBoard,
    NewBoard5x5,
    PlayMoves(Seq<char>),
    PlayMovesNoCheck(Seq<char>),
    ShowBoard,
    SetFlag(Flag),
    SetNotation(Notation),
    Unset(Flag),
    Fill(Seq<char>),
    Brute(usize),
    Brute5x5(usize),
    Undo(usize),
    Quit,
}

impl View for IoState {
    type V = IoStateView;

    open spec fn view(&self) -> IoStateView {
        match *self {
            IoState::Hello => IoStateView::Hello,
            IoState::Await => IoStateView::Await,
            IoState::Help(s) => IoStateView::Help(
                match s {
                    Some(t) => Some(t@),
                    None => None,
                },
            ),
            IoState::NewBoard => IoStateView::NewBoard,
            IoState::NewBoard5x5 => IoStateView::NewBoard5x5,
            IoState::PlayMoves(s) => IoStateView::PlayMoves(s@),
            IoState::PlayMovesNoCheck(s) => IoStateView::PlayMovesNoCheck(s@),
            IoState::ShowBoard => IoStateView::ShowBoard,
            IoState::SetFlag(f) => IoStateView::SetFlag(f),
            IoState::SetNotation(n) => IoStateView::SetNotation(n),
            IoState::Unset(f) => IoStateView::Unset(f),
            IoState::Fill(s) => IoStateView::Fill(s@),
            IoState::Brute(d) => IoStateView::Brute(d),
            IoState::Brute5x5(d) => IoStateView::Brute5x5(d),
            IoState::Undo(n) => IoStateView::Undo(n),
            IoState::Quit => IoStateView::Quit,
        }
    }
}

/// The two textual move notations.
#[derive(Clone, Copy, Debug, PartialEq, Eq, Structural)]
pub enum Notation {
    Relative,
    Absolute,
}

/// Display switches of the session.
#[derive(Clone, Copy, Debug, PartialEq, Eq, Hash, Structural)]
pub enum Flag {
    Invert,
}

/// Why a line of input was not understood.
#[derive(Clone, Copy, Debug, PartialEq, Eq, Hash, Structural)]
pub enum ParseError {
    NoMovesGiven,
    NoFlagGiven,
    UnknownFlag,
    UnknownNotation,
    NoNotationGiven,
    NoFillChordsGiven,
    FillChordsIncorrect,
    UnknownCommand,
    InputAfterShow,
    BruteNoDepthGiven,
    InvalidMove,
    NotANumber,
    NotEnoughToUndo,
    InputAfterNew,
}

/// The rule that an illegal move breaks.
#[derive(Clone, Copy, Debug, PartialEq, Eq, Hash, Structural)]
pub enum MoveError {
    EdgeOfBoard,
    BlockedByWall,
    BlockedByOpponent,
    OpponentNotThere,
    SpaceBehindFree,
    NoWallsLeft,
    SpaceOccupied,
    P1NoPath,
    P2NoPath,
    GameIsOver,
}

/// Topics of the help texts.
#[derive(Clone, Copy, Debug, PartialEq, Eq, Hash, Structural)]
pub enum HelpMessage {
    General,
    New,
    Move,
    Show,
    SetFlag,
    Unset,
    Brute,
    Fill,
    Undo,
    Notation,
    WrongInput,
}

} // verus!
