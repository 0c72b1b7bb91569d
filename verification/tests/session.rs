use quoridor::board::Board;
use quoridor::enums::{Flag, HelpMessage, IoState, Move, MoveError, Notation, ParseError, Player};
use quoridor::play::PlayError;
use quoridor::session::{InteractiveInstance, Output};

fn in_state(state: IoState) -> InteractiveInstance {
    let mut s = InteractiveInstance::new();
    s.state = state;
    s
}

#[test]
fn session_starts_with_the_greeting() {
    let s = InteractiveInstance::new();
    assert!(s.is_wf());
    assert_eq!(s.state, IoState::Hello);
    assert_eq!(s.notation, Notation::Relative);
    assert!(!s.invert);
    assert!(s.history.is_empty());
    let (s, out) = s.step(None);
    assert_eq!(out, Output::Greeting);
    assert_eq!(s.state, IoState::Await);
    let (s, out) = s.step(None);
    assert_eq!(out, Output::Prompt);
    assert_eq!(s.state, IoState::Await);
}

#[test]
fn a_line_sets_the_next_state() {
    let (s, out) = in_state(IoState::Await).step(Some("move N S\n"));
    assert_eq!(out, Output::Nothing);
    assert_eq!(s.state, IoState::PlayMoves("N S".to_string()));
    let (s, out) = in_state(IoState::Await).step(Some("jump\n"));
    assert_eq!(out, Output::Failed(ParseError::UnknownCommand));
    assert_eq!(s.state, IoState::Await);
    // Outside the state Await a line is not looked at.
    let (s, out) = in_state(IoState::Hello).step(Some("quit"));
    assert_eq!(out, Output::Greeting);
    assert_eq!(s.state, IoState::Await);
}

#[test]
fn playing_moves_updates_board_and_history() {
    let (s, out) = in_state(IoState::PlayMoves("N S E".to_string())).step(None);
    assert_eq!(out, Output::BoardUpdated(2));
    assert_eq!(s.state, IoState::ShowBoard);
    assert_eq!(s.board.players, [[5, 1], [4, 7]]);
    assert_eq!(s.history.len(), 1);
    assert_eq!(s.history[0].players, [[4, 0], [4, 8]]);
    let (s, out) = s.step(None);
    assert!(matches!(out, Output::Picture(_)));
    assert_eq!(s.state, IoState::Await);
}

#[test]
fn refused_moves_leave_everything() {
    let (s, out) = in_state(IoState::PlayMoves("N S S S S".to_string())).step(None);
    assert_eq!(out, Output::Refused(PlayError::Illegal(4, MoveError::EdgeOfBoard)));
    assert_eq!(s.state, IoState::Await);
    assert_eq!(s.board.players, [[4, 0], [4, 8]]);
    assert!(s.history.is_empty());
    let (s, out) = in_state(IoState::PlayMoves("N ?".to_string())).step(None);
    assert_eq!(out, Output::Refused(PlayError::Invalid(1)));
    assert!(s.history.is_empty());
}

#[test]
fn unchecked_moves_are_remembered_even_when_they_fail() {
    let (s, out) = in_state(IoState::PlayMovesNoCheck("NN".to_string())).step(None);
    assert_eq!(out, Output::BoardUpdated(2));
    assert_eq!(s.board.players[0], [4, 2]);
    assert_eq!(s.history.len(), 1);
    assert_eq!(s.state, IoState::ShowBoard);
    let (s, out) = in_state(IoState::PlayMovesNoCheck("N S S S S".to_string())).step(None);
    assert_eq!(out, Output::NotAMove(4));
    assert_eq!(s.board.players, [[4, 0], [4, 8]]);
    assert_eq!(s.history.len(), 1);
    assert_eq!(s.state, IoState::Await);
}

#[test]
fn new_boards_remember_the_old_one() {
    let mut s = in_state(IoState::NewBoard);
    s.board.mv(&Move::Step(1));
    s.input = Some("kept".to_string());
    let (s, out) = s.step(None);
    assert_eq!(out, Output::NewBoard);
    assert_eq!(s.board.players, [[4, 0], [4, 8]]);
    assert_eq!(s.board.to_move, Player::Player1);
    assert!(s.board.move_sequence.is_empty());
    assert_eq!(s.history.len(), 1);
    assert_eq!(s.history[0].players[0], [4, 1]);
    assert_eq!(s.input, None);
    let (s, out) = in_state(IoState::NewBoard5x5).step(None);
    assert_eq!(out, Output::NewBoard);
    assert_eq!(s.board.walls, Board::new5x5().walls);
    assert_eq!(s.board.players, [[4, 2], [4, 6]]);
    assert_eq!(s.board.walls_left, [3, 3]);
}

#[test]
fn settings() {
    let (s, out) = in_state(IoState::SetFlag(Flag::Invert)).step(None);
    assert_eq!(out, Output::Nothing);
    assert!(s.invert);
    let mut s = s;
    s.state = IoState::Unset(Flag::Invert);
    let (s, _) = s.step(None);
    assert!(!s.invert);
    let (s, out) = in_state(IoState::SetNotation(Notation::Absolute)).step(None);
    assert_eq!(out, Output::Nothing);
    assert_eq!(s.notation, Notation::Absolute);
    assert_eq!(s.state, IoState::Await);
    let mut s = s;
    s.state = IoState::PlayMoves("e2 e8".to_string());
    let (s, out) = s.step(None);
    assert_eq!(out, Output::BoardUpdated(1));
    assert_eq!(s.board.players, [[4, 1], [4, 7]]);
}

#[test]
fn help_and_quit() {
    let (s, out) = in_state(IoState::Help(None)).step(None);
    assert_eq!(out, Output::Help(HelpMessage::General));
    assert_eq!(s.state, IoState::Await);
    let (_, out) = in_state(IoState::Help(Some("brute".to_string()))).step(None);
    assert_eq!(out, Output::Help(HelpMessage::Brute));
    let (_, out) = in_state(IoState::Help(Some("chess".to_string()))).step(None);
    assert_eq!(out, Output::Help(HelpMessage::WrongInput));
    let (s, out) = in_state(IoState::Quit).step(None);
    assert_eq!(out, Output::Quit);
    assert_eq!(s.state, IoState::Quit);
}

#[test]
fn search_steps() {
    let (s, out) = in_state(IoState::Brute(1)).step(None);
    assert_eq!(out, Output::Found(vec![Move::Step(1)], 1));
    assert_eq!(s.state, IoState::Await);
    assert!(s.history.is_empty());
    let mut s = in_state(IoState::Brute5x5(1));
    s.board = Board::new5x5();
    let (_, out) = s.step(None);
    assert_eq!(out, Output::Found(vec![Move::Step(1)], 1));
    let mut s = in_state(IoState::Brute(2));
    s.board.fill([0, 2], [8, 4]);
    s.board.place_wall(0, 0, 3);
    s.board.place_wall(0, 7, 3);
    let (_, out) = s.step(None);
    assert_eq!(out, Output::NoWay);
}

#[test]
fn fill_steps() {
    let (s, out) = in_state(IoState::Fill("1 1 3 3".to_string())).step(None);
    assert_eq!(out, Output::Filled);
    assert_eq!(s.state, IoState::ShowBoard);
    assert_eq!(s.history.len(), 1);
    assert_eq!(s.history[0].walls, 0);
    let mut want = Board::new();
    want.fill([1, 1], [3, 3]);
    assert_eq!(s.board.walls, want.walls);
    let (s, out) = in_state(IoState::Fill("1 1 3".to_string())).step(None);
    assert_eq!(out, Output::Failed(ParseError::FillChordsIncorrect));
    assert_eq!(s.state, IoState::Await);
    assert!(s.history.is_empty());
    assert_eq!(s.board.walls, 0);
}

fn with_history() -> InteractiveInstance {
    let mut s = InteractiveInstance::new();
    for text in ["N S", "E W", "N S"] {
        s.state = IoState::PlayMoves(text.to_string());
        let (next, out) = s.step(None);
        assert!(matches!(out, Output::BoardUpdated(_)));
        s = next;
    }
    assert_eq!(s.history.len(), 3);
    assert_eq!(s.board.players, [[5, 2], [3, 6]]);
    s
}

#[test]
fn undo_goes_back_through_the_history() {
    let mut s = with_history();
    s.state = IoState::Undo(1);
    let (s, out) = s.step(None);
    assert_eq!(out, Output::Nothing);
    assert_eq!(s.state, IoState::Await);
    assert_eq!(s.board.players, [[5, 1], [3, 7]]);
    assert_eq!(s.history.len(), 2);

    let mut s = with_history();
    s.state = IoState::Undo(3);
    let (s, _) = s.step(None);
    assert_eq!(s.board.players, [[4, 0], [4, 8]]);
    assert!(s.history.is_empty());

    let mut s = with_history();
    s.state = IoState::Undo(2);
    let (s, _) = s.step(None);
    assert_eq!(s.board.players, [[4, 1], [4, 7]]);
    assert_eq!(s.history.len(), 1);
    assert_eq!(s.history[0].players, [[4, 0], [4, 8]]);

    let mut s = with_history();
    s.state = IoState::Undo(0);
    let (s, _) = s.step(None);
    assert_eq!(s.board.players, [[5, 1], [3, 7]]);
    assert_eq!(s.history.len(), 2);
}

#[test]
fn undo_needs_enough_history() {
    let mut s = with_history();
    s.state = IoState::Undo(4);
    let (s, out) = s.step(None);
    assert_eq!(out, Output::Failed(ParseError::NotEnoughToUndo));
    assert_eq!(s.board.players, [[5, 2], [3, 6]]);
    assert_eq!(s.history.len(), 3);
    let (s, out) = in_state(IoState::Undo(0)).step(None);
    assert_eq!(out, Output::Failed(ParseError::NotEnoughToUndo));
    assert!(s.history.is_empty());
    let (_, out) = in_state(IoState::Undo(1)).step(None);
    assert_eq!(out, Output::Failed(ParseError::NotEnoughToUndo));
}

#[test]
fn session_with_a_bad_board_is_not_well_formed() {
    let mut s = InteractiveInstance::new();
    s.board.players = [[9, 0], [4, 8]];
    assert!(!s.is_wf());
    let mut s = with_history();
    assert!(s.is_wf());
    s.history[1].walls_left = [11, 0];
    assert!(!s.is_wf());
}
