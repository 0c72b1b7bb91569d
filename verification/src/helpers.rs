use vstd::prelude::*;
use vstd::string::*;
use crate::enums::{
    Flag, HelpMessage, IoState, IoStateView, Move, MoveError, Notation, ParseError,
};
use crate::moves::{lemma_wall_move_eq, wall_move};
use crate::position::{dx, dy, on_board};
use crate::rules::{code_dx, code_dy, is_jump_code, is_step_code};
use crate::text::{
    chars_of, decimal, digit_char, digits, lemma_pieces_some, number_of, parse_number, pieces,
    rows, same_text, split_on, string_of, trim_of, trimmed,
};

verus! {

/// The direction that a capital letter names: N, E, S, W; 0 for any other
/// character.
pub open spec fn letter_dir(c: char) -> int {
    if c == 'N' {
        1
    } else if c == 'E' {
        2
    } else if c == 'S' {
        3
    } else if c == 'W' {
        4
    } else {
        0
    }
}

/// The capital letter of the direction `d`.
pub open spec fn dir_letter(d: int) -> char {
    if d == 1 {
        'N'
    } else if d == 2 {
        'E'
    } else if d == 3 {
        'S'
    } else {
        'W'
    }
}

/// The pawn move code that one or two capital letters spell; 0 where the
/// text spells none.
pub open spec fn spelled_code(s: Seq<char>) -> int {
    if s.len() == 1 {
        letter_dir(s[0])
    } else if s.len() == 2 && is_jump_code(10 * letter_dir(s[0]) + letter_dir(s[1])) {
        10 * letter_dir(s[0]) + letter_dir(s[1])
    } else {
        0
    }
}

/// The letters that spell the pawn move code `c`.
pub open spec fn code_letters(c: int) -> Seq<char> {
    if c < 10 {
        seq![dir_letter(c)]
    } else {
        seq![dir_letter(c / 10), dir_letter(c % 10)]
    }
}

/// The column that a small letter names: `a` is column 0, `i` column 8;
/// -1 for any other character.
pub open spec fn column_of(c: char) -> int {
    if 'a' <= c <= 'i' {
        c as int - 'a' as int
    } else {
        -1
    }
}

/// The row that a digit names: `1` is row 0, `9` row 8; -1 for any other
/// character.
pub open spec fn row_of(c: char) -> int {
    if '1' <= c <= '9' {
        c as int - '1' as int
    } else {
        -1
    }
}

/// The letter of column `x`; a blank where there is no such column.
pub open spec fn column_char(x: int) -> char {
    if 0 <= x <= 8 {
        ('a' as int + x) as char
    } else {
        ' '
    }
}

/// The letter of the wall orientation `o` in the notation given; a blank
/// where `o` is no orientation.
pub open spec fn orientation_char(o: int, notation: Notation) -> char {
    match notation {
        Notation::Relative => if o == 0 {
            'H'
        } else if o == 1 {
            'V'
        } else {
            ' '
        },
        Notation::Absolute => if o == 0 {
            'h'
        } else if o == 1 {
            'v'
        } else {
            ' '
        },
    }
}

/// The move that a text names in relative notation: letters for a pawn
/// move; for a wall `H` or `V`, the column letter and the row digit of
/// its anchor, whatever follows.
pub open spec fn relative_move(s: Seq<char>) -> Result<Move, ParseError> {
    if spelled_code(s) != 0 {
        Ok(Move::Step(spelled_code(s) as usize))
    } else if s.len() >= 3 && (s[0] == 'H' || s[0] == 'V') && 0 <= column_of(s[1]) <= 7 && 0
        <= row_of(s[2]) <= 7 {
        Ok(
            wall_move(
                if s[0] == 'H' {
                    0
                } else {
                    1
                },
                column_of(s[1]),
                row_of(s[2]),
            ),
        )
    } else {
        Err(ParseError::InvalidMove)
    }
}

/// The code of the pawn move that shifts the token by `(sx, sy)` while
/// the opponent stands at the offset `(ox, oy)`; 0 where no pawn move
/// does. A diagonal shift is a jump whose first leg points at the
/// opponent: sideways where the opponent stands beside the mover in the
/// direction of the shift, up or down otherwise.
pub open spec fn shift_code(sx: int, sy: int, ox: int, oy: int) -> int {
    if sx == 0 && sy == 1 {
        1
    } else if sx == 1 && sy == 0 {
        2
    } else if sx == 0 && sy == -1 {
        3
    } else if sx == -1 && sy == 0 {
        4
    } else if sx == 0 && sy == 2 {
        11
    } else if sx == 2 && sy == 0 {
        22
    } else if sx == 0 && sy == -2 {
        33
    } else if sx == -2 && sy == 0 {
        44
    } else if (sx == 1 || sx == -1) && (sy == 1 || sy == -1) {
        let h: int = if sx == 1 {
            2
        } else {
            4
        };
        let v: int = if sy == 1 {
            1
        } else {
            3
        };
        if ox == sx && oy == 0 {
            10 * h + v
        } else {
            10 * v + h
        }
    } else {
        0
    }
}

/// The move that a text names in absolute notation for a mover at
/// `(a, b)` with the opponent at `(m, n)`: two characters name the cell
/// that a pawn move leads to; three or more name a wall by the column
/// letter and the row digit of its anchor and `h` or `v`.
pub open spec fn absolute_move(s: Seq<char>, a: int, b: int, m: int, n: int) -> Result<
    Move,
    ParseError,
> {
    if s.len() == 2 && column_of(s[0]) >= 0 && row_of(s[1]) >= 0 && shift_code(
        column_of(s[0]) - a,
        row_of(s[1]) - b,
        m - a,
        n - b,
    ) != 0 {
        Ok(Move::Step(shift_code(column_of(s[0]) - a, row_of(s[1]) - b, m - a, n - b) as usize))
    } else if s.len() >= 3 && 0 <= column_of(s[0]) <= 7 && 0 <= row_of(s[1]) <= 7 && (s[2] == 'h'
        || s[2] == 'v') {
        Ok(
            wall_move(
                if s[2] == 'h' {
                    0
                } else {
                    1
                },
                column_of(s[0]),
                row_of(s[1]),
            ),
        )
    } else {
        Err(ParseError::InvalidMove)
    }
}

/// The move that a text names in the notation given.
pub open spec fn move_of(s: Seq<char>, a: int, b: int, m: int, n: int, notation: Notation) -> Result<
    Move,
    ParseError,
> {
    match notation {
        Notation::Relative => relative_move(s),
        Notation::Absolute => absolute_move(s, a, b, m, n),
    }
}

/// The text that names a move in the notation given, for a mover at
/// `(a, b)`. A pawn move is spelled by its letters in relative notation
/// and named by the cell it leads to in absolute notation; a code that is
/// no pawn move gives a blank. A wall is named by its orientation and the
/// column letter and row number of its anchor.
pub open spec fn name_of(mv: Move, a: int, b: int, notation: Notation) -> Seq<char> {
    match mv {
        Move::Step(c) => if !is_step_code(c as int) {
            seq![' ']
        } else {
            match notation {
                Notation::Relative => code_letters(c as int),
                Notation::Absolute => seq![column_char(a + code_dx(c as int))] + decimal(
                    (b + 1 + code_dy(c as int)) as nat,
                ),
            }
        },
        Move::Wall(w) => match notation {
            Notation::Relative => seq![
                orientation_char(w[0] as int, notation),
                column_char(w[1] as int),
            ] + decimal((w[2] + 1) as nat),
            Notation::Absolute => (seq![column_char(w[1] as int)] + decimal((w[2] + 1) as nat)).push(
                orientation_char(w[0] as int, notation),
            ),
        },
    }
}

/// The move can be named for a mover at `(a, b)`: the numbers to be
/// written are neither negative nor too large for the machine.
pub open spec fn nameable(mv: Move, a: int, b: int, notation: Notation) -> bool {
    match mv {
        Move::Step(c) => notation is Absolute && is_step_code(c as int) ==> a + code_dx(c as int)
            >= 0 && b + 1 + code_dy(c as int) >= 0 && a + 2 <= usize::MAX && b + 3 <= usize::MAX,
        Move::Wall(w) => w[2] < usize::MAX,
    }
}

/// Tells whether the move can be named for a mover at `me`.
pub fn can_name(mv: &Move, me: [usize; 2], notation: Notation) -> (r: bool)
    ensures
        r == nameable(*mv, me[0] as int, me[1] as int, notation),
{
    match mv {
        Move::Wall(w) => w[2] < usize::MAX,
        Move::Step(c) => {
            match notation {
                Notation::Relative => true,
                Notation::Absolute => {
                    if !mv.is_wf() {
                        true
                    } else {
                        let c = *c;
                        let d1 = if c < 10 {
                            c
                        } else {
                            c / 10
                        };
                        let d2 = if c < 10 {
                            0
                        } else {
                            c % 10
                        };
                        let west: usize = if d1 == 4 && d2 == 4 {
                            2
                        } else if d1 == 4 || d2 == 4 {
                            1
                        } else {
                            0
                        };
                        let south: usize = if d1 == 3 && d2 == 3 {
                            2
                        } else if d1 == 3 || d2 == 3 {
                            1
                        } else {
                            0
                        };
                        let east: usize = if d1 == 2 && d2 == 2 {
                            2
                        } else if d1 == 2 || d2 == 2 {
                            1
                        } else {
                            0
                        };
                        let north: usize = if d1 == 1 && d2 == 1 {
                            2
                        } else if d1 == 1 || d2 == 1 {
                            1
                        } else {
                            0
                        };
                        assert(code_dx(c as int) == east - west);
                        assert(code_dy(c as int) == north - south);
                        me[0] <= usize::MAX - 2 && me[1] <= usize::MAX - 3 && me[0] + east >= west
                            && me[1] + 1 + north >= south
                    }
                },
            }
        },
    }
}

/// The letter of column `x`.
pub fn char_from_x(x: usize) -> (c: char)
    ensures
        c == column_char(x as int),
{
    if x <= 8 {
        (97u8 + x as u8) as char
    } else {
        ' '
    }
}

/// The letter of the wall orientation `i` in the notation given.
pub fn char_from_i(i: usize, notation: Notation) -> (c: char)
    ensures
        c == orientation_char(i as int, notation),
{
    match notation {
        Notation::Relative => {
            if i == 0 {
                'H'
            } else if i == 1 {
                'V'
            } else {
                ' '
            }
        },
        Notation::Absolute => {
            if i == 0 {
                'h'
            } else if i == 1 {
                'v'
            } else {
                ' '
            }
        },
    }
}

fn dir_from_letter(c: char) -> (d: usize)
    ensures
        d == letter_dir(c),
{
    if c == 'N' {
        1
    } else if c == 'E' {
        2
    } else if c == 'S' {
        3
    } else if c == 'W' {
        4
    } else {
        0
    }
}

fn letter_from_dir(d: usize) -> (c: char)
    ensures
        c == dir_letter(d as int),
{
    if d == 1 {
        'N'
    } else if d == 2 {
        'E'
    } else if d == 3 {
        'S'
    } else {
        'W'
    }
}

fn column_from_char(c: char) -> (x: Option<usize>)
    ensures
        match x {
            Some(v) => v == column_of(c) && v <= 8,
            None => column_of(c) == -1,
        },
{
    if 'a' <= c && c <= 'i' {
        Some((c as u32 - 'a' as u32) as usize)
    } else {
        None
    }
}

fn row_from_char(c: char) -> (y: Option<usize>)
    ensures
        match y {
            Some(v) => v == row_of(c) && v <= 8,
            None => row_of(c) == -1,
        },
{
    if '1' <= c && c <= '9' {
        Some((c as u32 - '1' as u32) as usize)
    } else {
        None
    }
}

fn code_from_shift(sx: i128, sy: i128, ox: i128, oy: i128) -> (c: usize)
    ensures
        c == shift_code(sx as int, sy as int, ox as int, oy as int),
        c != 0 ==> is_step_code(c as int),
{
    if sx == 0 && sy == 1 {
        1
    } else if sx == 1 && sy == 0 {
        2
    } else if sx == 0 && sy == -1 {
        3
    } else if sx == -1 && sy == 0 {
        4
    } else if sx == 0 && sy == 2 {
        11
    } else if sx == 2 && sy == 0 {
        22
    } else if sx == 0 && sy == -2 {
        33
    } else if sx == -2 && sy == 0 {
        44
    } else if (sx == 1 || sx == -1) && (sy == 1 || sy == -1) {
        let h: usize = if sx == 1 {
            2
        } else {
            4
        };
        let v: usize = if sy == 1 {
            1
        } else {
            3
        };
        if ox == sx && oy == 0 {
            10 * h + v
        } else {
            10 * v + h
        }
    } else {
        0
    }
}

/// Reads a move from its text in the notation given, for a mover at `me`
/// with the opponent at `other`.
pub fn move_from_str(s: &str, me: [usize; 2], other: [usize; 2], notation: Notation) -> (r: Result<
    Move,
    ParseError,
>)
    ensures
        r == move_of(
            s@,
            me[0] as int,
            me[1] as int,
            other[0] as int,
            other[1] as int,
            notation,
        ),
        r matches Ok(m) ==> m.wf(),
{
    let n = s.unicode_len();
    match notation {
        Notation::Relative => {
            if n == 1 {
                let d = dir_from_letter(s.get_char(0));
                if d != 0 {
                    return Ok(Move::Step(d));
                }
            } else if n == 2 {
                let d1 = dir_from_letter(s.get_char(0));
                let d2 = dir_from_letter(s.get_char(1));
                if d1 != 0 && d2 != 0 && !(d1 + 2 == d2 || d2 + 2 == d1) {
                    return Ok(Move::Step(10 * d1 + d2));
                }
            }
            if n < 3 {
                return Err(ParseError::InvalidMove);
            }
            let c0 = s.get_char(0);
            let i: usize = if c0 == 'H' {
                0
            } else if c0 == 'V' {
                1
            } else {
                return Err(ParseError::InvalidMove);
            };
            let x = match column_from_char(s.get_char(1)) {
                Some(x) => x,
                None => {
                    return Err(ParseError::InvalidMove);
                },
            };
            let y = match row_from_char(s.get_char(2)) {
                Some(y) => y,
                None => {
                    return Err(ParseError::InvalidMove);
                },
            };
            if x > 7 || y > 7 {
                return Err(ParseError::InvalidMove);
            }
            Ok(Move::Wall([i, x, y]))
        },
        Notation::Absolute => {
            if n < 2 {
                return Err(ParseError::InvalidMove);
            }
            let x = match column_from_char(s.get_char(0)) {
                Some(x) => x,
                None => {
                    return Err(ParseError::InvalidMove);
                },
            };
            let y = match row_from_char(s.get_char(1)) {
                Some(y) => y,
                None => {
                    return Err(ParseError::InvalidMove);
                },
            };
            if n == 2 {
                let c = code_from_shift(
                    x as i128 - me[0] as i128,
                    y as i128 - me[1] as i128,
                    other[0] as i128 - me[0] as i128,
                    other[1] as i128 - me[1] as i128,
                );
                if c != 0 {
                    return Ok(Move::Step(c));
                }
                return Err(ParseError::InvalidMove);
            }
            let c2 = s.get_char(2);
            let i: usize = if c2 == 'h' {
                0
            } else if c2 == 'v' {
                1
            } else {
                return Err(ParseError::InvalidMove);
            };
            if x > 7 || y > 7 {
                return Err(ParseError::InvalidMove);
            }
            Ok(Move::Wall([i, x, y]))
        },
    }
}

/// Writes a move in the notation given, for a mover at `me`.
pub fn string_from_move(mv: &Move, me: [usize; 2], notation: Notation) -> (r: String)
    requires
        nameable(*mv, me[0] as int, me[1] as int, notation),
    ensures
        r@ == name_of(*mv, me[0] as int, me[1] as int, notation),
{
    let mut out: Vec<char> = Vec::new();
    match mv {
        Move::Step(c) => {
            let c = *c;
            if !(Move::Step(c)).is_wf() {
                out.push(' ');
                assert(out@ =~= seq![' ']);
            } else {
                match notation {
                    Notation::Relative => {
                        if c < 10 {
                            out.push(letter_from_dir(c));
                        } else {
                            out.push(letter_from_dir(c / 10));
                            out.push(letter_from_dir(c % 10));
                        }
                        assert(out@ =~= code_letters(c as int));
                    },
                    Notation::Absolute => {
                        let d1 = if c < 10 {
                            c
                        } else {
                            c / 10
                        };
                        let d2 = if c < 10 {
                            0
                        } else {
                            c % 10
                        };
                        let mut x = me[0];
                        let mut y = me[1] + 1;
                        if d1 == 2 {
                            x += 1;
                        }
                        if d2 == 2 {
                            x += 1;
                        }
                        if d1 == 1 {
                            y += 1;
                        }
                        if d2 == 1 {
                            y += 1;
                        }
                        if d1 == 4 {
                            x -= 1;
                        }
                        if d2 == 4 {
                            x -= 1;
                        }
                        if d1 == 3 {
                            y -= 1;
                        }
                        if d2 == 3 {
                            y -= 1;
                        }
                        out.push(char_from_x(x));
                        let mut number = digits(y);
                        out.append(&mut number);
                    },
                }
            }
        },
        Move::Wall(w) => {
            let mut number = digits(w[2] + 1);
            match notation {
                Notation::Relative => {
                    out.push(char_from_i(w[0], notation));
                    out.push(char_from_x(w[1]));
                    out.append(&mut number);
                },
                Notation::Absolute => {
                    out.push(char_from_x(w[1]));
                    out.append(&mut number);
                    out.push(char_from_i(w[0], notation));
                },
            }
        },
    }
    assert(out@ =~= name_of(*mv, me[0] as int, me[1] as int, notation));
    string_of(&out)
}

/// In relative notation, reading the name of a well-formed move gives the
/// move back.
pub proof fn lemma_relative_round_trip(mv: Move, a: int, b: int)
    requires
        mv.wf(),
    ensures
        relative_move(name_of(mv, a, b, Notation::Relative)) == Ok::<Move, ParseError>(mv),
{
    let s = name_of(mv, a, b, Notation::Relative);
    match mv {
        Move::Step(c) => {
            assert(s == code_letters(c as int));
            assert(spelled_code(s) == c);
        },
        Move::Wall(w) => {
            let y = w[2] as int;
            assert(decimal((y + 1) as nat) =~= seq![digit_char(y + 1)]);
            assert(s =~= seq![
                orientation_char(w[0] as int, Notation::Relative),
                column_char(w[1] as int),
                digit_char(y + 1),
            ]);
            assert(spelled_code(s) == 0);
            assert(column_of(s[1]) == w[1]);
            assert(row_of(s[2]) == y);
            lemma_wall_move_eq(
                w,
                [
                    (if s[0] == 'H' {
                        0int
                    } else {
                        1int
                    }) as usize,
                    column_of(s[1]) as usize,
                    row_of(s[2]) as usize,
                ],
            );
        },
    }
}

/// In absolute notation, reading the name of a well-formed move gives the
/// move back, where a pawn move leads to a cell of the grid and a jump's
/// first leg points at the opponent.
pub proof fn lemma_absolute_round_trip(mv: Move, a: int, b: int, m: int, n: int)
    requires
        mv.wf(),
        on_board(a, b),
        mv matches Move::Step(c) ==> on_board(a + code_dx(c as int), b + code_dy(c as int)),
        mv matches Move::Step(c) ==> c >= 10 ==> m == a + dx(c as int / 10) && n == b + dy(
            c as int / 10,
        ),
    ensures
        absolute_move(name_of(mv, a, b, Notation::Absolute), a, b, m, n) == Ok::<Move, ParseError>(
            mv,
        ),
{
    let s = name_of(mv, a, b, Notation::Absolute);
    match mv {
        Move::Step(c) => {
            let x = a + code_dx(c as int);
            let y = b + code_dy(c as int);
            assert(decimal((y + 1) as nat) =~= seq![digit_char(y + 1)]);
            assert(s =~= seq![column_char(x), digit_char(y + 1)]);
            assert(column_of(s[0]) == x);
            assert(row_of(s[1]) == y);
            assert(shift_code(x - a, y - b, m - a, n - b) == c);
        },
        Move::Wall(w) => {
            let y = w[2] as int;
            assert(decimal((y + 1) as nat) =~= seq![digit_char(y + 1)]);
            assert(s =~= seq![
                column_char(w[1] as int),
                digit_char(y + 1),
                orientation_char(w[0] as int, Notation::Absolute),
            ]);
            assert(column_of(s[0]) == w[1]);
            assert(row_of(s[1]) == y);
            lemma_wall_move_eq(
                w,
                [
                    (if s[2] == 'h' {
                        0int
                    } else {
                        1int
                    }) as usize,
                    column_of(s[0]) as usize,
                    row_of(s[1]) as usize,
                ],
            );
        },
    }
}

/// The flag that a word names.
pub open spec fn flag_of(s: Seq<char>) -> Result<Flag, ParseError> {
    if s == "invert"@ {
        Ok(Flag::Invert)
    } else {
        Err(ParseError::UnknownFlag)
    }
}

/// The notation that a word names.
pub open spec fn notation_of(s: Seq<char>) -> Result<Notation, ParseError> {
    if s == "absolute"@ {
        Ok(Notation::Absolute)
    } else if s == "relative"@ {
        Ok(Notation::Relative)
    } else {
        Err(ParseError::UnknownNotation)
    }
}

/// The search depth that a text spells.
pub open spec fn depth_of(s: Seq<char>) -> Result<usize, ParseError> {
    match number_of(s) {
        Some(n) => if n <= usize::MAX {
            Ok(n as usize)
        } else {
            Err(ParseError::NotANumber)
        },
        None => Err(ParseError::NotANumber),
    }
}

/// The verb that a command word stands for, by number: 1 help, 2 new, 3
/// move, 4 move without check, 5 show, 6 quit, 7 set, 8 unset, 9 notation,
/// 10 brute, 11 fill; 0 for a word that is no command.
pub open spec fn verb_of(cmd: Seq<char>) -> int {
    if cmd == "help"@ || cmd == "h"@ {
        1
    } else if cmd == "new"@ || cmd == "n"@ {
        2
    } else if cmd == "move"@ || cmd == "m"@ {
        3
    } else if cmd == "_move_no_check"@ || cmd == "_mnc"@ {
        4
    } else if cmd == "show"@ || cmd == "s"@ {
        5
    } else if cmd == "exit"@ || cmd == "end"@ || cmd == "quit"@ {
        6
    } else if cmd == "set"@ {
        7
    } else if cmd == "unset"@ {
        8
    } else if cmd == "notation"@ {
        9
    } else if cmd == "brute"@ || cmd == "b"@ {
        10
    } else if cmd == "fill"@ {
        11
    } else {
        0
    }
}

/// What a command word alone asks for.
pub open spec fn bare_command(verb: int) -> Result<IoStateView, ParseError> {
    if verb == 1 {
        Ok(IoStateView::Help(None))
    } else if verb == 2 {
        Ok(IoStateView::NewBoard)
    } else if verb == 3 || verb == 4 {
        Err(ParseError::NoMovesGiven)
    } else if verb == 5 {
        Ok(IoStateView::ShowBoard)
    } else if verb == 6 {
        Ok(IoStateView::Quit)
    } else if verb == 7 || verb == 8 {
        Err(ParseError::NoFlagGiven)
    } else if verb == 9 {
        Err(ParseError::NoNotationGiven)
    } else if verb == 10 {
        Err(ParseError::BruteNoDepthGiven)
    } else if verb == 11 {
        Err(ParseError::NoFillChordsGiven)
    } else {
        Err(ParseError::UnknownCommand)
    }
}

/// What a command word asks for with the text that follows it.
pub open spec fn full_command(verb: int, rest: Seq<char>) -> Result<IoStateView, ParseError> {
    if verb == 1 {
        Ok(IoStateView::Help(Some(rest)))
    } else if verb == 2 {
        Err(ParseError::InputAfterNew)
    } else if verb == 3 {
        Ok(IoStateView::PlayMoves(rest))
    } else if verb == 4 {
        Ok(IoStateView::PlayMovesNoCheck(rest))
    } else if verb == 5 {
        Err(ParseError::InputAfterShow)
    } else if verb == 6 {
        Ok(IoStateView::Quit)
    } else if verb == 7 {
        match flag_of(rest) {
            Ok(f) => Ok(IoStateView::SetFlag(f)),
            Err(e) => Err(e),
        }
    } else if verb == 8 {
        match flag_of(rest) {
            Ok(f) => Ok(IoStateView::Unset(f)),
            Err(e) => Err(e),
        }
    } else if verb == 9 {
        match notation_of(rest) {
            Ok(n) => Ok(IoStateView::SetNotation(n)),
            Err(e) => Err(e),
        }
    } else if verb == 10 {
        match depth_of(rest) {
            Ok(d) => Ok(IoStateView::Brute(d)),
            Err(e) => Err(e),
        }
    } else if verb == 11 {
        Ok(IoStateView::Fill(rest))
    } else {
        Err(ParseError::UnknownCommand)
    }
}

/// Number of characters of `s` before its first blank; its length where
/// it holds none.
pub open spec fn first_blank(s: Seq<char>) -> int
    decreases s.len(),
{
    if s.len() == 0 || s[0] == ' ' {
        0
    } else {
        1 + first_blank(s.skip(1))
    }
}

/// What a line asks for: the text before its first blank is the command
/// word, the text after that blank, if there is one, goes with it.
pub open spec fn line_command(line: Seq<char>) -> Result<IoStateView, ParseError> {
    let k = first_blank(line);
    if k < line.len() {
        full_command(verb_of(line.take(k)), line.skip(k + 1))
    } else {
        bare_command(verb_of(line))
    }
}

/// The model of a parsed line.
pub open spec fn parsed_view(r: Result<IoState, ParseError>) -> Result<IoStateView, ParseError> {
    match r {
        Ok(s) => Ok(s@),
        Err(e) => Err(e),
    }
}

/// Reads a flag from its name.
pub fn flag_from_str(s: &str) -> (r: Result<Flag, ParseError>)
    ensures
        r == flag_of(s@),
{
    if same_text(s, "invert") {
        Ok(Flag::Invert)
    } else {
        Err(ParseError::UnknownFlag)
    }
}

/// Reads a notation from its name.
pub fn notation_from_str(s: &str) -> (r: Result<Notation, ParseError>)
    ensures
        r == notation_of(s@),
{
    if same_text(s, "absolute") {
        Ok(Notation::Absolute)
    } else if same_text(s, "relative") {
        Ok(Notation::Relative)
    } else {
        Err(ParseError::UnknownNotation)
    }
}

/// Reads a search depth.
pub fn depth_from_str(s: &str) -> (r: Result<usize, ParseError>)
    ensures
        r == depth_of(s@),
{
    match parse_number(s) {
        Some(n) => Ok(n),
        None => Err(ParseError::NotANumber),
    }
}

fn verb_from_str(cmd: &str) -> (v: usize)
    ensures
        v == verb_of(cmd@),
{
    if same_text(cmd, "help") || same_text(cmd, "h") {
        1
    } else if same_text(cmd, "new") || same_text(cmd, "n") {
        2
    } else if same_text(cmd, "move") || same_text(cmd, "m") {
        3
    } else if same_text(cmd, "_move_no_check") || same_text(cmd, "_mnc") {
        4
    } else if same_text(cmd, "show") || same_text(cmd, "s") {
        5
    } else if same_text(cmd, "exit") || same_text(cmd, "end") || same_text(cmd, "quit") {
        6
    } else if same_text(cmd, "set") {
        7
    } else if same_text(cmd, "unset") {
        8
    } else if same_text(cmd, "notation") {
        9
    } else if same_text(cmd, "brute") || same_text(cmd, "b") {
        10
    } else if same_text(cmd, "fill") {
        11
    } else {
        0
    }
}

proof fn lemma_first_blank(s: Seq<char>, k: int)
    requires
        0 <= k <= s.len(),
        forall|j: int| 0 <= j < k ==> s[j] != ' ',
        k < s.len() ==> s[k] == ' ',
    ensures
        first_blank(s) == k,
    decreases k,
{
    if k > 0 {
        let t = s.skip(1);
        assert forall|j: int| 0 <= j < k - 1 implies t[j] != ' ' by {
            assert(t[j] == s[j + 1]);
        }
        lemma_first_blank(t, k - 1);
    }
}

/// Reads a command from a line that has no white space at its ends.
pub fn parse_line(line: &str) -> (r: Result<IoState, ParseError>)
    ensures
        parsed_view(r) == line_command(line@),
{
    let n = line.unicode_len();
    let mut word: Vec<char> = Vec::new();
    let mut k: usize = 0;
    while k < n && line.get_char(k) != ' '
        invariant
            0 <= k <= n,
            n == line@.len(),
            word@ == line@.take(k as int),
            forall|j: int| 0 <= j < k ==> line@[j] != ' ',
        decreases n - k,
    {
        word.push(line.get_char(k));
        assert(word@ =~= line@.take(k + 1));
        k += 1;
    }
    proof {
        lemma_first_blank(line@, k as int);
    }
    if k == n {
        assert(line@.take(n as int) =~= line@);
        let verb = verb_from_str(line);
        if verb == 1 {
            Ok(IoState::Help(None))
        } else if verb == 2 {
            Ok(IoState::NewBoard)
        } else if verb == 3 || verb == 4 {
            Err(ParseError::NoMovesGiven)
        } else if verb == 5 {
            Ok(IoState::ShowBoard)
        } else if verb == 6 {
            Ok(IoState::Quit)
        } else if verb == 7 || verb == 8 {
            Err(ParseError::NoFlagGiven)
        } else if verb == 9 {
            Err(ParseError::NoNotationGiven)
        } else if verb == 10 {
            Err(ParseError::BruteNoDepthGiven)
        } else if verb == 11 {
            Err(ParseError::NoFillChordsGiven)
        } else {
            Err(ParseError::UnknownCommand)
        }
    } else {
        let mut tail: Vec<char> = Vec::new();
        let mut j: usize = k + 1;
        while j < n
            invariant
                k + 1 <= j <= n,
                n == line@.len(),
                tail@ == line@.subrange(k + 1, j as int),
            decreases n - j,
        {
            tail.push(line.get_char(j));
            assert(tail@ =~= line@.subrange(k + 1, j + 1));
            j += 1;
        }
        assert(tail@ =~= line@.skip(k + 1));
        let cmd = string_of(&word);
        let rest = string_of(&tail);
        let verb = verb_from_str(cmd.as_str());
        if verb == 1 {
            Ok(IoState::Help(Some(rest)))
        } else if verb == 2 {
            Err(ParseError::InputAfterNew)
        } else if verb == 3 {
            Ok(IoState::PlayMoves(rest))
        } else if verb == 4 {
            Ok(IoState::PlayMovesNoCheck(rest))
        } else if verb == 5 {
            Err(ParseError::InputAfterShow)
        } else if verb == 6 {
            Ok(IoState::Quit)
        } else if verb == 7 {
            match flag_from_str(rest.as_str()) {
                Ok(f) => Ok(IoState::SetFlag(f)),
                Err(e) => Err(e),
            }
        } else if verb == 8 {
            match flag_from_str(rest.as_str()) {
                Ok(f) => Ok(IoState::Unset(f)),
                Err(e) => Err(e),
            }
        } else if verb == 9 {
            match notation_from_str(rest.as_str()) {
                Ok(n) => Ok(IoState::SetNotation(n)),
                Err(e) => Err(e),
            }
        } else if verb == 10 {
            match depth_from_str(rest.as_str()) {
                Ok(d) => Ok(IoState::Brute(d)),
                Err(e) => Err(e),
            }
        } else if verb == 11 {
            Ok(IoState::Fill(rest))
        } else {
            Err(ParseError::UnknownCommand)
        }
    }
}

/// Reads a command from a line of input: the white space at its ends is
/// taken off, the rest is read as `parse_line` reads it.
pub fn get_and_parse_input(line: &str) -> (r: Result<IoState, ParseError>)
    ensures
        parsed_view(r) == line_command(trim_of(line@)),
{
    let t = trimmed(line);
    parse_line(t.as_str())
}

/// The help topic that a word after `help` asks for: the general text
/// where there is no word, the text on wrong input for a word that names
/// no topic.
pub open spec fn topic_of(word: Option<Seq<char>>) -> HelpMessage {
    match word {
        None => HelpMessage::General,
        Some(s) => if s == "help"@ {
            HelpMessage::General
        } else if s == "new"@ {
            HelpMessage::New
        } else if s == "move"@ {
            HelpMessage::Move
        } else if s == "show"@ {
            HelpMessage::Show
        } else if s == "notation"@ {
            HelpMessage::Notation
        } else if s == "brute"@ {
            HelpMessage::Brute
        } else if s == "set"@ {
            HelpMessage::SetFlag
        } else if s == "unset"@ {
            HelpMessage::Unset
        } else {
            HelpMessage::WrongInput
        },
    }
}

/// The help topic to show; the texts themselves are kept by the caller.
pub fn help(s: &Option<String>) -> (topic: HelpMessage)
    ensures
        topic == topic_of(
            match *s {
                Some(t) => Some(t@),
                None => None,
            },
        ),
{
    match s {
        None => HelpMessage::General,
        Some(t) => {
            let c = t.as_str();
            if same_text(c, "help") {
                HelpMessage::General
            } else if same_text(c, "new") {
                HelpMessage::New
            } else if same_text(c, "move") {
                HelpMessage::Move
            } else if same_text(c, "show") {
                HelpMessage::Show
            } else if same_text(c, "notation") {
                HelpMessage::Notation
            } else if same_text(c, "brute") {
                HelpMessage::Brute
            } else if same_text(c, "set") {
                HelpMessage::SetFlag
            } else if same_text(c, "unset") {
                HelpMessage::Unset
            } else {
                HelpMessage::WrongInput
            }
        },
    }
}

/// The parse error that a name in the table of messages stands for.
pub open spec fn parse_error_of(name: Seq<char>) -> Option<ParseError> {
    if name == "NoMovesGiven"@ {
        Some(ParseError::NoMovesGiven)
    } else if name == "NoFlagGiven"@ {
        Some(ParseError::NoFlagGiven)
    } else if name == "UnknownFlag"@ {
        Some(ParseError::UnknownFlag)
    } else if name == "UnknownNotation"@ {
        Some(ParseError::UnknownNotation)
    } else if name == "NoNotationGiven"@ {
        Some(ParseError::NoNotationGiven)
    } else if name == "NoFillChordsGiven"@ {
        Some(ParseError::NoFillChordsGiven)
    } else if name == "FillChordsIncorrect"@ {
        Some(ParseError::FillChordsIncorrect)
    } else if name == "UnknownCommand"@ {
        Some(ParseError::UnknownCommand)
    } else if name == "InputAfterShow"@ {
        Some(ParseError::InputAfterShow)
    } else if name == "InputAfterNew"@ {
        Some(ParseError::InputAfterNew)
    } else if name == "BruteNoDepthGiven"@ {
        Some(ParseError::BruteNoDepthGiven)
    } else if name == "InvalidMove"@ {
        Some(ParseError::InvalidMove)
    } else if name == "NotANumber"@ {
        Some(ParseError::NotANumber)
    } else if name == "NotEnoughToUndo"@ {
        Some(ParseError::NotEnoughToUndo)
    } else {
        None
    }
}

/// Reads a parse error from its name in the table of messages.
pub fn parse_error_from_str(name: &str) -> (r: Option<ParseError>)
    ensures
        r == parse_error_of(name@),
{
    if same_text(name, "NoMovesGiven") {
        Some(ParseError::NoMovesGiven)
    } else if same_text(name, "NoFlagGiven") {
        Some(ParseError::NoFlagGiven)
    } else if same_text(name, "UnknownFlag") {
        Some(ParseError::UnknownFlag)
    } else if same_text(name, "UnknownNotation") {
        Some(ParseError::UnknownNotation)
    } else if same_text(name, "NoNotationGiven") {
        Some(ParseError::NoNotationGiven)
    } else if same_text(name, "NoFillChordsGiven") {
        Some(ParseError::NoFillChordsGiven)
    } else if same_text(name, "FillChordsIncorrect") {
        Some(ParseError::FillChordsIncorrect)
    } else if same_text(name, "UnknownCommand") {
        Some(ParseError::UnknownCommand)
    } else if same_text(name, "InputAfterShow") {
        Some(ParseError::InputAfterShow)
    } else if same_text(name, "InputAfterNew") {
        Some(ParseError::InputAfterNew)
    } else if same_text(name, "BruteNoDepthGiven") {
        Some(ParseError::BruteNoDepthGiven)
    } else if same_text(name, "InvalidMove") {
        Some(ParseError::InvalidMove)
    } else if same_text(name, "NotANumber") {
        Some(ParseError::NotANumber)
    } else if same_text(name, "NotEnoughToUndo") {
        Some(ParseError::NotEnoughToUndo)
    } else {
        None
    }
}

/// The rule that a name in the table of messages stands for.
pub open spec fn move_error_of(name: Seq<char>) -> Option<MoveError> {
    if name == "EdgeOfBoard"@ {
        Some(MoveError::EdgeOfBoard)
    } else if name == "BlockedByWall"@ {
        Some(MoveError::BlockedByWall)
    } else if name == "BlockedByOpponent"@ {
        Some(MoveError::BlockedByOpponent)
    } else if name == "OpponentNotThere"@ {
        Some(MoveError::OpponentNotThere)
    } else if name == "SpaceBehindFree"@ {
        Some(MoveError::SpaceBehindFree)
    } else if name == "NoWallsLeft"@ {
        Some(MoveError::NoWallsLeft)
    } else if name == "SpaceOccupied"@ {
        Some(MoveError::SpaceOccupied)
    } else if name == "P1NoPath"@ {
        Some(MoveError::P1NoPath)
    } else if name == "P2NoPath"@ {
        Some(MoveError::P2NoPath)
    } else {
        None
    }
}

/// Reads a broken rule from its name in the table of messages.
pub fn move_error_from_str(name: &str) -> (r: Option<MoveError>)
    ensures
        r == move_error_of(name@),
{
    if same_text(name, "EdgeOfBoard") {
        Some(MoveError::EdgeOfBoard)
    } else if same_text(name, "BlockedByWall") {
        Some(MoveError::BlockedByWall)
    } else if same_text(name, "BlockedByOpponent") {
        Some(MoveError::BlockedByOpponent)
    } else if same_text(name, "OpponentNotThere") {
        Some(MoveError::OpponentNotThere)
    } else if same_text(name, "SpaceBehindFree") {
        Some(MoveError::SpaceBehindFree)
    } else if same_text(name, "NoWallsLeft") {
        Some(MoveError::NoWallsLeft)
    } else if same_text(name, "SpaceOccupied") {
        Some(MoveError::SpaceOccupied)
    } else if same_text(name, "P1NoPath") {
        Some(MoveError::P1NoPath)
    } else if same_text(name, "P2NoPath") {
        Some(MoveError::P2NoPath)
    } else {
        None
    }
}

/// The help topic that a name in the table of help texts stands for.
pub open spec fn help_message_of(name: Seq<char>) -> Option<HelpMessage> {
    if name == "General"@ {
        Some(HelpMessage::General)
    } else if name == "New"@ {
        Some(HelpMessage::New)
    } else if name == "Move"@ {
        Some(HelpMessage::Move)
    } else if name == "Show"@ {
        Some(HelpMessage::Show)
    } else if name == "Set"@ {
        Some(HelpMessage::SetFlag)
    } else if name == "Unset"@ {
        Some(HelpMessage::Unset)
    } else if name == "Brute"@ {
        Some(HelpMessage::Brute)
    } else if name == "Notation"@ {
        Some(HelpMessage::Notation)
    } else if name == "Fill"@ {
        Some(HelpMessage::Fill)
    } else if name == "Undo"@ {
        Some(HelpMessage::Undo)
    } else if name == "WrongInput"@ {
        Some(HelpMessage::WrongInput)
    } else {
        None
    }
}

/// Reads a help topic from its name in the table of help texts.
pub fn help_message_from_str(name: &str) -> (r: Option<HelpMessage>)
    ensures
        r == help_message_of(name@),
{
    if same_text(name, "General") {
        Some(HelpMessage::General)
    } else if same_text(name, "New") {
        Some(HelpMessage::New)
    } else if same_text(name, "Move") {
        Some(HelpMessage::Move)
    } else if same_text(name, "Show") {
        Some(HelpMessage::Show)
    } else if same_text(name, "Set") {
        Some(HelpMessage::SetFlag)
    } else if same_text(name, "Unset") {
        Some(HelpMessage::Unset)
    } else if same_text(name, "Brute") {
        Some(HelpMessage::Brute)
    } else if same_text(name, "Notation") {
        Some(HelpMessage::Notation)
    } else if same_text(name, "Fill") {
        Some(HelpMessage::Fill)
    } else if same_text(name, "Undo") {
        Some(HelpMessage::Undo)
    } else if same_text(name, "WrongInput") {
        Some(HelpMessage::WrongInput)
    } else {
        None
    }
}

/// The name and the message of one entry of a table of messages: the
/// entry is parted at each colon followed by a blank; the first piece is
/// the name, the second the message, and further pieces are left out. An
/// entry without a colon and blank has a name and no message.
pub open spec fn entry_of(e: Seq<char>) -> (Seq<char>, Option<Seq<char>>) {
    let parts = pieces(e, ": "@, 0);
    (
        parts[0],
        if parts.len() > 1 {
            Some(parts[1])
        } else {
            None
        },
    )
}

/// The names and messages of a table of messages whose entries the
/// separator parts, in the order of the table.
pub open spec fn message_pairs_of(text: Seq<char>, separator: Seq<char>) -> Seq<
    (Seq<char>, Option<Seq<char>>),
> {
    let entries = pieces(text, separator, 0);
    Seq::new(entries.len(), |i: int| entry_of(entries[i]))
}

/// The texts of a name and a message.
pub open spec fn pair_view(p: (String, Option<String>)) -> (Seq<char>, Option<Seq<char>>) {
    (
        p.0@,
        match p.1 {
            Some(t) => Some(t@),
            None => None,
        },
    )
}

/// Reads a table of messages: the name and the message of each entry.
pub fn message_pairs(text: &str, separator: &str) -> (r: Vec<(String, Option<String>)>)
    ensures
        r@.len() == message_pairs_of(text@, separator@).len(),
        forall|i: int|
            0 <= i < r@.len() ==> pair_view(#[trigger] r@[i]) == message_pairs_of(
                text@,
                separator@,
            )[i],
{
    let all = chars_of(text);
    let sep = chars_of(separator);
    let colon = chars_of(": ");
    let entries = split_on(&all, &sep);
    let ghost want = pieces(text@, separator@, 0);
    let mut out: Vec<(String, Option<String>)> = Vec::new();
    let mut i: usize = 0;
    while i < entries.len()
        invariant
            0 <= i <= entries.len(),
            rows(entries@) == want,
            want == pieces(text@, separator@, 0),
            colon@ == ": "@,
            out@.len() == i,
            forall|j: int| 0 <= j < i ==> pair_view(#[trigger] out@[j]) == entry_of(want[j]),
        decreases entries.len() - i,
    {
        assert(want[i as int] == entries@[i as int]@);
        let parts = split_on(&entries[i], &colon);
        proof {
            lemma_pieces_some(entries@[i as int]@, colon@, 0);
            assert(rows(parts@)[0] == parts@[0]@);
        }
        let name = string_of(&parts[0]);
        let message = if parts.len() > 1 {
            assert(rows(parts@)[1] == parts@[1]@);
            Some(string_of(&parts[1]))
        } else {
            None
        };
        out.push((name, message));
        i += 1;
    }
    out
}

} // verus!
