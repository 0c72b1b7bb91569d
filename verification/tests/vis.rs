use quoridor::board::Board;
use quoridor::enums::{Color, Move};
use quoridor::vis::{
    default_wall_colors, glyph_at, print_board, Glyph, Paint, PICTURE_HEIGHT, PICTURE_WIDTH,
};

fn plain(ch: char) -> Glyph {
    Glyph { ch, paint: Paint::Plain }
}

fn wall(ch: char) -> Glyph {
    Glyph { ch, paint: Paint::BlackOnWhite }
}

#[test]
fn wall_colours_follow_the_bitmap() {
    let mut b = Board::new();
    b.place_wall(0, 2, 5);
    b.place_wall(1, 7, 0);
    let colours = default_wall_colors(b.walls);
    for i in 0..2 {
        for x in 0..8 {
            for y in 0..8 {
                let want = if b.is_wall(i, x, y) { Color::White } else { Color::Empty };
                assert_eq!(colours[i][x][y], want);
            }
        }
    }
    assert_eq!(colours[0][2][5], Color::White);
    assert_eq!(colours[1][7][0], Color::White);
    assert_eq!(colours[0][5][2], Color::Empty);
}

#[test]
fn picture_of_the_open_board() {
    let rows = print_board(&Board::new(), false);
    assert_eq!(rows.len(), PICTURE_HEIGHT);
    assert_eq!(PICTURE_HEIGHT, 35);
    assert_eq!(PICTURE_WIDTH, 71);
    for row in rows.iter() {
        assert_eq!(row.len(), PICTURE_WIDTH);
    }
    // Bottom row of squares is printed last; its middle line is row 1 of the picture.
    let bottom = &rows[34 - 1];
    assert_eq!(bottom[8 * 4 + 3], Glyph { ch: '1', paint: Paint::BoldBlue });
    let top = &rows[34 - 33];
    assert_eq!(top[8 * 4 + 3], Glyph { ch: '2', paint: Paint::Bold });
    assert_eq!(rows[34 - 3][7], plain('+'));
    assert_eq!(rows[34 - 3][6], plain('.'));
    assert_eq!(rows[34 - 2][7], plain('.'));
    assert_eq!(rows[34 - 2][6], plain(' '));
    assert_eq!(rows[34 - 1][8 * 3 + 3], plain(' '));
}

#[test]
fn picture_upside_down() {
    let mut b = Board::new();
    b.mv(&Move::Step(1));
    let up = print_board(&b, false);
    let down = print_board(&b, true);
    for r in 0..PICTURE_HEIGHT {
        assert_eq!(up[r], down[PICTURE_HEIGHT - 1 - r]);
    }
    // Player 1 stands on (4, 1); player 2 is to move.
    assert_eq!(down[4 + 1][8 * 4 + 3], Glyph { ch: '1', paint: Paint::Bold });
    assert_eq!(down[32 + 1][8 * 4 + 3], Glyph { ch: '2', paint: Paint::BoldBlue });
}

#[test]
fn picture_shows_walls() {
    let mut b = Board::new();
    b.place_wall(0, 2, 5);
    b.place_wall(1, 6, 1);
    let rows = print_board(&b, true);
    // Horizontal wall anchored at (2, 5): above the squares (2, 5) and (3, 5).
    let y = 5 * 4 + 3;
    for x in 16..23 {
        assert_eq!(rows[y][x], wall('-'));
    }
    assert_eq!(rows[y][23], wall('-'));
    for x in 24..31 {
        assert_eq!(rows[y][x], wall('-'));
    }
    assert_eq!(rows[y][15], plain('+'));
    assert_eq!(rows[y][31], plain('+'));
    assert_eq!(rows[y][14], plain('.'));
    // Vertical wall anchored at (6, 1): right of the squares (6, 1) and (6, 2).
    let x = 6 * 8 + 7;
    for y in 4..7 {
        assert_eq!(rows[y][x], wall('|'));
    }
    assert_eq!(rows[7][x], wall('|'));
    for y in 8..11 {
        assert_eq!(rows[y][x], wall('|'));
    }
    assert_eq!(rows[3][x], plain('+'));
    assert_eq!(rows[11][x], plain('+'));
    assert_eq!(rows[2][x], plain('.'));
}

#[test]
fn glyphs_of_coloured_squares() {
    let players = vec![[4, 0], [4, 8]];
    let walls = [[[Color::Empty; 8]; 8]; 2];
    let mut squares = [[Color::Empty; 9]; 9];
    squares[4][0] = Color::White;
    squares[4][8] = Color::White;
    squares[0][0] = Color::White;
    assert_eq!(
        glyph_at(35, 1, &players, &walls, &squares, 0),
        Glyph { ch: '1', paint: Paint::OnWhiteBoldBlue }
    );
    assert_eq!(
        glyph_at(35, 33, &players, &walls, &squares, 0),
        Glyph { ch: '2', paint: Paint::Bold }
    );
    assert_eq!(
        glyph_at(35, 33, &players, &walls, &squares, 1),
        Glyph { ch: '2', paint: Paint::OnWhiteBoldBlue }
    );
    assert_eq!(glyph_at(34, 1, &players, &walls, &squares, 0), Glyph { ch: ' ', paint: Paint::OnWhite });
    assert_eq!(glyph_at(3, 1, &players, &walls, &squares, 0), Glyph { ch: ' ', paint: Paint::OnWhite });
    assert_eq!(glyph_at(11, 1, &players, &walls, &squares, 0), plain(' '));
}

#[test]
fn crossing_shows_the_horizontal_wall_first() {
    let players = vec![[4, 0], [4, 8]];
    let mut walls = [[[Color::Empty; 8]; 8]; 2];
    let squares = [[Color::Empty; 9]; 9];
    walls[1][3][3] = Color::White;
    assert_eq!(glyph_at(31, 15, &players, &walls, &squares, 0), wall('|'));
    walls[0][3][3] = Color::White;
    assert_eq!(glyph_at(31, 15, &players, &walls, &squares, 0), wall('-'));
}

#[test]
fn first_token_on_a_cell_is_shown() {
    let players = vec![[4, 4], [4, 4]];
    let walls = [[[Color::Empty; 8]; 8]; 2];
    let squares = [[Color::Empty; 9]; 9];
    assert_eq!(
        glyph_at(35, 17, &players, &walls, &squares, 1),
        Glyph { ch: '1', paint: Paint::Bold }
    );
}
