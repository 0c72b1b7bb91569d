use vstd::prelude::*;
use crate::board::{wall_set, Board};
use crate::enums::Color;
use crate::position::{blocked_above, blocked_right, wall_slot};

verus! {

/// How a character of the picture is painted.
#[derive(Clone, Copy, Debug, PartialEq, Eq, Structural)]
pub enum Paint {
    Plain,
    BlackOnWhite,
    OnWhite,
    Bold,
    BoldBlue,
    OnWhiteBoldBlue,
}

/// One character of the picture of a board.
#[derive(Clone, Copy, Debug, PartialEq, Eq, Structural)]
pub struct Glyph {
    pub ch: char,
    pub paint: Paint,
}

/// Width of the picture in characters: nine squares of seven, eight gaps.
pub const PICTURE_WIDTH: usize = 71;

/// Height of the picture in characters: nine squares of three, eight gaps.
pub const PICTURE_HEIGHT: usize = 35;

/// The walls that a table of wall colours shows: those coloured white.
pub open spec fn shown_walls(walls: [[[Color; 8]; 8]; 2]) -> Set<(int, int, int)> {
    Set::new(|t: (int, int, int)| wall_slot(t.0, t.1, t.2) && walls[t.0][t.1][t.2] == Color::White)
}

/// Index of the first token that stands on the cell `(x, y)`, if one does.
pub open spec fn token_at(players: Seq<[usize; 2]>, x: int, y: int) -> Option<int> {
    if players.len() > 0 && players[0][0] == x && players[0][1] == y {
        Some(0)
    } else if players.len() > 1 && players[1][0] == x && players[1][1] == y {
        Some(1)
    } else {
        None
    }
}

/// A wall character: black on white.
pub open spec fn wall_glyph(ch: char) -> Glyph {
    Glyph { ch, paint: Paint::BlackOnWhite }
}

/// A character in no colour.
pub open spec fn plain_glyph(ch: char) -> Glyph {
    Glyph { ch, paint: Paint::Plain }
}

/// The character at column `x` and row `y` of the picture, rows counted
/// from the bottom. Squares are seven wide and three high, with one
/// character between neighbours. Where four squares meet there is `-` for
/// a horizontal wall anchored there, else `|` for a vertical one, else
/// `+`. Between two squares there is the wall that bars the edge, or a
/// dot. The middle of a square shows the number of the token on it, blue
/// for the side to move; the rest of a square is blank, on white where
/// `white` says that the square is coloured.
pub open spec fn glyph_of(
    x: int,
    y: int,
    players: Seq<[usize; 2]>,
    w: Set<(int, int, int)>,
    white: bool,
    to_move: int,
) -> Glyph {
    let cx = x / 8;
    let cy = y / 4;
    if x % 8 == 7 && y % 4 == 3 {
        if w.contains((0, cx, cy)) {
            wall_glyph('-')
        } else if w.contains((1, cx, cy)) {
            wall_glyph('|')
        } else {
            plain_glyph('+')
        }
    } else if x % 8 == 7 {
        if blocked_right(w, cx, cy) {
            wall_glyph('|')
        } else {
            plain_glyph('.')
        }
    } else if y % 4 == 3 {
        if blocked_above(w, cx, cy) {
            wall_glyph('-')
        } else {
            plain_glyph('.')
        }
    } else {
        match (if x % 8 == 3 && y % 4 == 1 {
            token_at(players, cx, cy)
        } else {
            None
        }) {
            Some(i) => Glyph {
                ch: if i == 0 {
                    '1'
                } else {
                    '2'
                },
                paint: if i != to_move {
                    Paint::Bold
                } else if white {
                    Paint::OnWhiteBoldBlue
                } else {
                    Paint::BoldBlue
                },
            },
            None => Glyph {
                ch: ' ',
                paint: if white {
                    Paint::OnWhite
                } else {
                    Paint::Plain
                },
            },
        }
    }
}

/// The table of wall colours of a bitmap: white where a wall is placed.
pub fn default_wall_colors(walls: u128) -> (res: [[[Color; 8]; 8]; 2])
    ensures
        shown_walls(res) == wall_set(walls),
        forall|i: int, x: int, y: int|
            wall_slot(i, x, y) ==> (#[trigger] res[i][x][y] == Color::Empty || res[i][x][y]
                == Color::White),
{
    let mut res = [[[Color::Empty; 8]; 8]; 2];
    let board = Board {
        walls,
        players: [[0, 0], [0, 0]],
        to_move: crate::enums::Player::Player1,
        walls_left: [0, 0],
        move_sequence: Vec::new(),
    };
    let mut k: usize = 0;
    while k < 128
        invariant
            0 <= k <= 128,
            board.walls == walls,
            forall|i: int, x: int, y: int|
                wall_slot(i, x, y) ==> (#[trigger] res[i][x][y]) == (if 64 * i + 8 * x + y < k
                    && wall_set(walls).contains((i, x, y)) {
                    Color::White
                } else {
                    Color::Empty
                }),
        decreases 128 - k,
    {
        let i = k / 64;
        let x = (k / 8) % 8;
        let y = k % 8;
        assert(k == 64 * i + 8 * x + y);
        let ghost before = res;
        if board.is_wall(i, x, y) {
            res[i][x][y] = Color::White;
        }
        assert forall|a: int, b: int, c: int| wall_slot(a, b, c) implies (#[trigger] res[a][b][c])
            == (if 64 * a + 8 * b + c < k + 1 && wall_set(walls).contains((a, b, c)) {
            Color::White
        } else {
            Color::Empty
        }) by {
            if a == i && b == x && c == y {
            } else {
                assert(res[a][b][c] == before[a][b][c]);
                assert(64 * a + 8 * b + c != k);
            }
        }
        k += 1;
    }
    proof {
        assert forall|t: (int, int, int)|
            shown_walls(res).contains(t) == wall_set(walls).contains(t) by {
            if wall_slot(t.0, t.1, t.2) {
                assert(64 * t.0 + 8 * t.1 + t.2 < 128);
                assert(res[t.0][t.1][t.2] == (if wall_set(walls).contains((t.0, t.1, t.2)) {
                    Color::White
                } else {
                    Color::Empty
                }));
            }
        }
        assert(shown_walls(res) =~= wall_set(walls));
    }
    res
}

fn is_white(c: Color) -> (r: bool)
    ensures
        r == (c == Color::White),
{
    match c {
        Color::White => true,
        Color::Empty => false,
    }
}

/// The character at column `x` and row `y` of the picture.
pub fn glyph_at(
    x: usize,
    y: usize,
    players: &Vec<[usize; 2]>,
    walls: &[[[Color; 8]; 8]; 2],
    squares: &[[Color; 9]; 9],
    to_move: usize,
) -> (g: Glyph)
    requires
        x < PICTURE_WIDTH,
        y < PICTURE_HEIGHT,
    ensures
        g == glyph_of(
            x as int,
            y as int,
            players@,
            shown_walls(*walls),
            squares[x as int / 8][y as int / 4] == Color::White,
            to_move as int,
        ),
{
    let cx = x / 8;
    let cy = y / 4;
    if x % 8 == 7 && y % 4 == 3 {
        if is_white(walls[0][cx][cy]) {
            Glyph { ch: '-', paint: Paint::BlackOnWhite }
        } else if is_white(walls[1][cx][cy]) {
            Glyph { ch: '|', paint: Paint::BlackOnWhite }
        } else {
            Glyph { ch: '+', paint: Paint::Plain }
        }
    } else if x % 8 == 7 {
        if (cy <= 7 && is_white(walls[1][cx][cy])) || (cy >= 1 && is_white(walls[1][cx][cy - 1])) {
            Glyph { ch: '|', paint: Paint::BlackOnWhite }
        } else {
            Glyph { ch: '.', paint: Paint::Plain }
        }
    } else if y % 4 == 3 {
        if (cx <= 7 && is_white(walls[0][cx][cy])) || (cx >= 1 && is_white(walls[0][cx - 1][cy])) {
            Glyph { ch: '-', paint: Paint::BlackOnWhite }
        } else {
            Glyph { ch: '.', paint: Paint::Plain }
        }
    } else {
        let white = is_white(squares[cx][cy]);
        let mut token: usize = 2;
        if x % 8 == 3 && y % 4 == 1 {
            if players.len() > 0 && players[0][0] == cx && players[0][1] == cy {
                token = 0;
            } else if players.len() > 1 && players[1][0] == cx && players[1][1] == cy {
                token = 1;
            }
        }
        if token < 2 {
            Glyph {
                ch: if token == 0 {
                    '1'
                } else {
                    '2'
                },
                paint: if token != to_move {
                    Paint::Bold
                } else if white {
                    Paint::OnWhiteBoldBlue
                } else {
                    Paint::BoldBlue
                },
            }
        } else {
            Glyph {
                ch: ' ',
                paint: if white {
                    Paint::OnWhite
                } else {
                    Paint::Plain
                },
            }
        }
    }
}

/// `rows` is the picture of the board, row by row from the top of the
/// print, upside down with `invert`: `PICTURE_HEIGHT` rows of
/// `PICTURE_WIDTH` characters, each the character that `glyph_of` gives
/// for its place, with no square coloured.
pub open spec fn shows(rows: Seq<Vec<Glyph>>, board: Board, invert: bool) -> bool {
    &&& rows.len() == PICTURE_HEIGHT
    &&& forall|r: int| 0 <= r < PICTURE_HEIGHT ==> (#[trigger] rows[r])@.len() == PICTURE_WIDTH
    &&& forall|r: int, x: int|
        0 <= r < PICTURE_HEIGHT && 0 <= x < PICTURE_WIDTH ==> (#[trigger] rows[r]@[x]) == glyph_of(
            x,
            if invert {
                r
            } else {
                34 - r
            },
            seq![board.players[0], board.players[1]],
            board@.walls,
            false,
            board@.mover(),
        )
}

/// The picture of a board, row by row from the top of the print; with
/// `invert` the board is shown upside down. Each row holds the
/// `PICTURE_WIDTH` characters between the frame; no square is coloured.
pub fn print_board(board: &Board, invert: bool) -> (rows: Vec<Vec<Glyph>>)
    ensures
        shows(rows@, *board, invert),
{
    let mut players: Vec<[usize; 2]> = Vec::new();
    players.push(board.players[0]);
    players.push(board.players[1]);
    assert(players@ =~= seq![board.players[0], board.players[1]]);
    let walls = default_wall_colors(board.walls);
    let squares = [[Color::Empty; 9]; 9];
    let to_move = board.to_move_indices().0;
    let ghost w = board@.walls;
    let mut rows: Vec<Vec<Glyph>> = Vec::new();
    let mut r: usize = 0;
    while r < PICTURE_HEIGHT
        invariant
            0 <= r <= PICTURE_HEIGHT,
            rows@.len() == r,
            players@ == seq![board.players[0], board.players[1]],
            shown_walls(walls) == w,
            forall|a: int, b: int| 0 <= a < 9 && 0 <= b < 9 ==> (#[trigger] squares[a][b])
                == Color::Empty,
            to_move == board@.mover(),
            forall|j: int, x: int|
                0 <= j < r && 0 <= x < PICTURE_WIDTH ==> (#[trigger] rows@[j]@[x]) == glyph_of(
                    x,
                    if invert {
                        j
                    } else {
                        34 - j
                    },
                    players@,
                    w,
                    false,
                    to_move as int,
                ),
            forall|j: int| 0 <= j < r ==> (#[trigger] rows@[j])@.len() == PICTURE_WIDTH,
        decreases PICTURE_HEIGHT - r,
    {
        let y = if invert {
            r
        } else {
            34 - r
        };
        let mut row: Vec<Glyph> = Vec::new();
        let mut x: usize = 0;
        while x < PICTURE_WIDTH
            invariant
                0 <= x <= PICTURE_WIDTH,
                y < PICTURE_HEIGHT,
                row@.len() == x,
                shown_walls(walls) == w,
                forall|a: int, b: int| 0 <= a < 9 && 0 <= b < 9 ==> (#[trigger] squares[a][b])
                    == Color::Empty,
                forall|j: int|
                    0 <= j < x ==> (#[trigger] row@[j]) == glyph_of(
                        j,
                        y as int,
                        players@,
                        w,
                        false,
                        to_move as int,
                    ),
            decreases PICTURE_WIDTH - x,
        {
            assert(squares[x as int / 8][y as int / 4] == Color::Empty);
            row.push(glyph_at(x, y, &players, &walls, &squares, to_move));
            x += 1;
        }
        rows.push(row);
        r += 1;
    }
    rows
}

} // verus!
