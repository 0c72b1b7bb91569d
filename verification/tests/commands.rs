use quoridor::enums::{Flag, HelpMessage, IoState, MoveError, Notation, ParseError};
use quoridor::helpers::{
    depth_from_str, flag_from_str, get_and_parse_input, help, help_message_from_str,
    message_pairs, move_error_from_str, notation_from_str, parse_error_from_str, parse_line,
};

#[test]
fn bare_commands() {
    assert_eq!(get_and_parse_input("help"), Ok(IoState::Help(None)));
    assert_eq!(get_and_parse_input("h"), Ok(IoState::Help(None)));
    assert_eq!(get_and_parse_input("new"), Ok(IoState::NewBoard));
    assert_eq!(get_and_parse_input("n"), Ok(IoState::NewBoard));
    assert_eq!(get_and_parse_input("show"), Ok(IoState::ShowBoard));
    assert_eq!(get_and_parse_input("s"), Ok(IoState::ShowBoard));
    assert_eq!(get_and_parse_input("exit"), Ok(IoState::Quit));
    assert_eq!(get_and_parse_input("end"), Ok(IoState::Quit));
    assert_eq!(get_and_parse_input("quit"), Ok(IoState::Quit));
}

#[test]
fn bare_commands_that_want_more() {
    assert_eq!(get_and_parse_input("move"), Err(ParseError::NoMovesGiven));
    assert_eq!(get_and_parse_input("m"), Err(ParseError::NoMovesGiven));
    assert_eq!(get_and_parse_input("_move_no_check"), Err(ParseError::NoMovesGiven));
    assert_eq!(get_and_parse_input("_mnc"), Err(ParseError::NoMovesGiven));
    assert_eq!(get_and_parse_input("set"), Err(ParseError::NoFlagGiven));
    assert_eq!(get_and_parse_input("unset"), Err(ParseError::NoFlagGiven));
    assert_eq!(get_and_parse_input("notation"), Err(ParseError::NoNotationGiven));
    assert_eq!(get_and_parse_input("brute"), Err(ParseError::BruteNoDepthGiven));
    assert_eq!(get_and_parse_input("b"), Err(ParseError::BruteNoDepthGiven));
    assert_eq!(get_and_parse_input("fill"), Err(ParseError::NoFillChordsGiven));
}

#[test]
fn commands_with_input() {
    assert_eq!(get_and_parse_input("help move"), Ok(IoState::Help(Some("move".to_string()))));
    assert_eq!(get_and_parse_input("move N S Ha3"), Ok(IoState::PlayMoves("N S Ha3".to_string())));
    assert_eq!(get_and_parse_input("m N"), Ok(IoState::PlayMoves("N".to_string())));
    assert_eq!(
        get_and_parse_input("_mnc NN SS"),
        Ok(IoState::PlayMovesNoCheck("NN SS".to_string()))
    );
    assert_eq!(
        get_and_parse_input("_move_no_check E"),
        Ok(IoState::PlayMovesNoCheck("E".to_string()))
    );
    assert_eq!(get_and_parse_input("fill 1 1 3 3"), Ok(IoState::Fill("1 1 3 3".to_string())));
    assert_eq!(get_and_parse_input("set invert"), Ok(IoState::SetFlag(Flag::Invert)));
    assert_eq!(get_and_parse_input("unset invert"), Ok(IoState::Unset(Flag::Invert)));
    assert_eq!(
        get_and_parse_input("notation absolute"),
        Ok(IoState::SetNotation(Notation::Absolute))
    );
    assert_eq!(
        get_and_parse_input("notation relative"),
        Ok(IoState::SetNotation(Notation::Relative))
    );
    assert_eq!(get_and_parse_input("brute 3"), Ok(IoState::Brute(3)));
    assert_eq!(get_and_parse_input("b 12"), Ok(IoState::Brute(12)));
    assert_eq!(get_and_parse_input("quit now"), Ok(IoState::Quit));
}

#[test]
fn commands_with_wrong_input() {
    assert_eq!(get_and_parse_input("show all"), Err(ParseError::InputAfterShow));
    assert_eq!(get_and_parse_input("new 5x5"), Err(ParseError::InputAfterNew));
    assert_eq!(get_and_parse_input("set colours"), Err(ParseError::UnknownFlag));
    assert_eq!(get_and_parse_input("unset Invert"), Err(ParseError::UnknownFlag));
    assert_eq!(get_and_parse_input("notation roman"), Err(ParseError::UnknownNotation));
    assert_eq!(get_and_parse_input("brute deep"), Err(ParseError::NotANumber));
    assert_eq!(get_and_parse_input("brute -1"), Err(ParseError::NotANumber));
    assert_eq!(get_and_parse_input("brute 3 4"), Err(ParseError::NotANumber));
    assert_eq!(get_and_parse_input("dance"), Err(ParseError::UnknownCommand));
    assert_eq!(get_and_parse_input("dance now"), Err(ParseError::UnknownCommand));
    assert_eq!(get_and_parse_input("forget"), Err(ParseError::UnknownCommand));
    assert_eq!(get_and_parse_input(""), Err(ParseError::UnknownCommand));
    assert_eq!(get_and_parse_input("Help"), Err(ParseError::UnknownCommand));
}

#[test]
fn white_space_at_the_ends_is_dropped() {
    assert_eq!(get_and_parse_input("  show \n"), Ok(IoState::ShowBoard));
    assert_eq!(get_and_parse_input("\tmove N\r\n"), Ok(IoState::PlayMoves("N".to_string())));
    assert_eq!(get_and_parse_input("   "), Err(ParseError::UnknownCommand));
    // Only the first blank parts command and input.
    assert_eq!(get_and_parse_input("move  N"), Ok(IoState::PlayMoves(" N".to_string())));
    assert_eq!(get_and_parse_input("set  invert"), Err(ParseError::UnknownFlag));
}

#[test]
fn parse_line_takes_the_line_as_it_is() {
    assert_eq!(parse_line("show"), Ok(IoState::ShowBoard));
    assert_eq!(parse_line(" show"), Err(ParseError::UnknownCommand));
    assert_eq!(parse_line("show "), Err(ParseError::InputAfterShow));
    assert_eq!(parse_line("help "), Ok(IoState::Help(Some(String::new()))));
    assert_eq!(parse_line("move\tN"), Err(ParseError::UnknownCommand));
}

#[test]
fn words_for_flags_notations_and_depths() {
    assert_eq!(flag_from_str("invert"), Ok(Flag::Invert));
    assert_eq!(flag_from_str("inverted"), Err(ParseError::UnknownFlag));
    assert_eq!(flag_from_str(""), Err(ParseError::UnknownFlag));
    assert_eq!(notation_from_str("absolute"), Ok(Notation::Absolute));
    assert_eq!(notation_from_str("relative"), Ok(Notation::Relative));
    assert_eq!(notation_from_str("Relative"), Err(ParseError::UnknownNotation));
    assert_eq!(depth_from_str("0"), Ok(0));
    assert_eq!(depth_from_str("007"), Ok(7));
    assert_eq!(depth_from_str("+4"), Ok(4));
    assert_eq!(depth_from_str("4 "), Err(ParseError::NotANumber));
    assert_eq!(depth_from_str(""), Err(ParseError::NotANumber));
    assert_eq!(depth_from_str("+"), Err(ParseError::NotANumber));
}

#[test]
fn help_topics() {
    assert_eq!(help(&None), HelpMessage::General);
    let table = [
        ("help", HelpMessage::General),
        ("new", HelpMessage::New),
        ("move", HelpMessage::Move),
        ("show", HelpMessage::Show),
        ("notation", HelpMessage::Notation),
        ("brute", HelpMessage::Brute),
        ("set", HelpMessage::SetFlag),
        ("unset", HelpMessage::Unset),
        ("fill", HelpMessage::WrongInput),
        ("undo", HelpMessage::WrongInput),
        ("", HelpMessage::WrongInput),
        ("Move", HelpMessage::WrongInput),
    ];
    for (word, topic) in table {
        assert_eq!(help(&Some(word.to_string())), topic);
    }
}

#[test]
fn names_in_the_message_tables() {
    let parse = [
        ("NoMovesGiven", ParseError::NoMovesGiven),
        ("NoFlagGiven", ParseError::NoFlagGiven),
        ("UnknownFlag", ParseError::UnknownFlag),
        ("UnknownNotation", ParseError::UnknownNotation),
        ("NoNotationGiven", ParseError::NoNotationGiven),
        ("NoFillChordsGiven", ParseError::NoFillChordsGiven),
        ("FillChordsIncorrect", ParseError::FillChordsIncorrect),
        ("UnknownCommand", ParseError::UnknownCommand),
        ("InputAfterShow", ParseError::InputAfterShow),
        ("InputAfterNew", ParseError::InputAfterNew),
        ("BruteNoDepthGiven", ParseError::BruteNoDepthGiven),
        ("InvalidMove", ParseError::InvalidMove),
        ("NotANumber", ParseError::NotANumber),
        ("NotEnoughToUndo", ParseError::NotEnoughToUndo),
    ];
    for (name, key) in parse {
        assert_eq!(parse_error_from_str(name), Some(key));
    }
    assert_eq!(parse_error_from_str("EdgeOfBoard"), None);
    assert_eq!(parse_error_from_str(""), None);
    let moves = [
        ("EdgeOfBoard", MoveError::EdgeOfBoard),
        ("BlockedByWall", MoveError::BlockedByWall),
        ("BlockedByOpponent", MoveError::BlockedByOpponent),
        ("OpponentNotThere", MoveError::OpponentNotThere),
        ("SpaceBehindFree", MoveError::SpaceBehindFree),
        ("NoWallsLeft", MoveError::NoWallsLeft),
        ("SpaceOccupied", MoveError::SpaceOccupied),
        ("P1NoPath", MoveError::P1NoPath),
        ("P2NoPath", MoveError::P2NoPath),
    ];
    for (name, key) in moves {
        assert_eq!(move_error_from_str(name), Some(key));
    }
    assert_eq!(move_error_from_str("GameIsOver"), None);
    assert_eq!(move_error_from_str("NotANumber"), None);
    let topics = [
        ("General", HelpMessage::General),
        ("New", HelpMessage::New),
        ("Move", HelpMessage::Move),
        ("Show", HelpMessage::Show),
        ("Set", HelpMessage::SetFlag),
        ("Unset", HelpMessage::Unset),
        ("Brute", HelpMessage::Brute),
        ("Notation", HelpMessage::Notation),
        ("Fill", HelpMessage::Fill),
        ("Undo", HelpMessage::Undo),
        ("WrongInput", HelpMessage::WrongInput),
    ];
    for (name, key) in topics {
        assert_eq!(help_message_from_str(name), Some(key));
    }
    assert_eq!(help_message_from_str("general"), None);
}

fn pair(name: &str, text: Option<&str>) -> (String, Option<String>) {
    (name.to_string(), text.map(|t| t.to_string()))
}

#[test]
fn message_tables_are_read_entry_by_entry() {
    let table = "NoMovesGiven: Please give moves.\nUnknownFlag: No such flag.\n";
    assert_eq!(
        message_pairs(table, "\n"),
        vec![
            pair("NoMovesGiven", Some("Please give moves.")),
            pair("UnknownFlag", Some("No such flag.")),
            pair("", None),
        ]
    );
    let help = "General: Type a command.\nOne per line.\n\nMove: move N: steps north";
    assert_eq!(
        message_pairs(help, "\n\n"),
        vec![
            pair("General", Some("Type a command.\nOne per line.")),
            pair("Move", Some("move N")),
        ]
    );
}

#[test]
fn message_entries_without_a_message() {
    assert_eq!(message_pairs("", "\n"), vec![pair("", None)]);
    assert_eq!(message_pairs("NoMovesGiven", "\n"), vec![pair("NoMovesGiven", None)]);
    assert_eq!(message_pairs("NoMovesGiven:", "\n"), vec![pair("NoMovesGiven:", None)]);
    assert_eq!(message_pairs("NoMovesGiven: ", "\n"), vec![pair("NoMovesGiven", Some(""))]);
    assert_eq!(message_pairs(": text", "\n"), vec![pair("", Some("text"))]);
    assert_eq!(
        message_pairs("a: b\nc: d", ""),
        vec![pair("a", Some("b\nc"))]
    );
}
