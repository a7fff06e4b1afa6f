//! What a replay shows of an ultimate tic-tac-toe game: a code of two
//! characters per cell (who took the cell, who won or locked its square)
//! and the referee's values as text.
use vstd::prelude::*;
use crate::record::{BoardRepresentation, BoardType, CellClass, ClassText, GameState, binary, position_text, binary_string, bool_string, bool_text, cell_class, classes_text, entry, plain, plain_class, style, styles, text_class, text_pairs, text_rows, zero_padded};
use crate::text::{decimal, push_char, push_u64, string_from, u64_to_string};
use crate::tic_tac_toe::board::{ALL_CELLS, cell_bit, has_bit, spec_move81_to_movetuple, move81_to_movetuple, to_vector};
use crate::tic_tac_toe::game::{MoveResult, TicTacToeGame};

verus! {

/// The mark of a cell or a square: the first player's, the second's, or
/// none.
pub open spec fn mark(first: bool, second: bool) -> char {
    if first {
        '❌'
    } else if second {
        '⭕'
    } else {
        '.'
    }
}

/// The code of the cell `(r, c)`: who took it, then who won its square,
/// or a lock when the square is full without a winner.
pub open spec fn cell_code(g: TicTacToeGame, r: int, c: int) -> Seq<char> {
    let b = cell_bit(r, c);
    seq![
        mark(has_bit(g.p_boards[0], b), has_bit(g.p_boards[1], b)),
        if !has_bit(g.p_squares[0], b) && !has_bit(g.p_squares[1], b) && has_bit(g.locked_squares, b) {
            '🔒'
        } else {
            mark(has_bit(g.p_squares[0], b), has_bit(g.p_squares[1], b))
        },
    ]
}

/// The codes of the 9 rows of 9 cells.
pub open spec fn board_codes(g: TicTacToeGame) -> Seq<Seq<Seq<char>>> {
    Seq::new(9, |r: int| Seq::new(9, |c: int| cell_code(g, r, c)))
}

/// The name of a move's result.
pub open spec fn move_result_name(r: MoveResult) -> Seq<char> {
    match r {
        MoveResult::NormalMove => "NormalMove"@,
        MoveResult::MoveWinningSquare => "MoveWinningSquare"@,
        MoveResult::MoveFillingSquareWithoutWinningIt => "MoveFillingSquareWithoutWinningIt"@,
        MoveResult::MoveWinningBoard => "MoveWinningBoard"@,
        MoveResult::MoveFillingBoardWithoutWinning => "MoveFillingBoardWithoutWinning"@,
        MoveResult::InvalidMove => "InvalidMove"@,
    }
}

/// The last move as `(row,col)`, `None` before the first.
pub open spec fn last_move_text(g: TicTacToeGame) -> Seq<char> {
    if g.last_move == 0 {
        "None"@
    } else {
        let t = spec_move81_to_movetuple(g.last_move);
        seq!['('] + decimal(t.0 as nat) + seq![','] + decimal(t.1 as nat) + seq![')']
    }
}

/// The 81 cell bits of `x` in base 2.
pub open spec fn bits_text(x: u128) -> Seq<char> {
    zero_padded(binary(x as nat), 81)
}

/// The referee's values, by name.
pub open spec fn state_entries(g: TicTacToeGame) -> Seq<(Seq<char>, Seq<char>)> {
    seq![
        ("turn"@, decimal(g.turn as nat)),
        ("active"@, bool_text(g.active)),
        ("active_player"@, decimal(g.active_player as nat)),
        ("last_move"@, last_move_text(g)),
        ("last_move_result"@, match g.last_move_result {
            None => "None"@,
            Some(r) => move_result_name(r),
        }),
        ("p_board[0]"@, bits_text(g.p_boards[0])),
        ("p_squares[0]"@, bits_text(g.p_squares[0])),
        ("p_board[1]"@, bits_text(g.p_boards[1])),
        ("p_squares[1]"@, bits_text(g.p_squares[1])),
        ("locked_squares"@, bits_text(g.locked_squares)),
    ]
}

/// How the two characters of a cell's code are drawn.
pub open spec fn board_classes() -> Seq<Seq<(char, ClassText)>> {
    seq![
        seq![
            ('❌', (Some("❌"@), Some(seq![("color"@, "transparent"@), ("textShadow"@, "0 0 0 #F2B213"@)]), None)),
            ('⭕', (Some("⭕"@), Some(seq![("color"@, "transparent"@), ("textShadow"@, "0 0 0 #22A1E4"@)]), None)),
            ('.', plain()),
        ],
        seq![
            ('❌', (None, None, Some(seq![("backgroundColor"@, "#fcf0d0"@)]))),
            ('⭕', (None, None, Some(seq![("backgroundColor"@, "#d3ecfa"@)]))),
            ('🔒', (None, None, Some(seq![("backgroundColor"@, "#adadad"@)]))),
            ('.', plain()),
        ],
    ]
}

/// What the replay board shows of cell `(r, c)`: its first character is
/// ❌ when the first player took the cell, ⭕ when the second did and `.`
/// when it is free; its second character is ❌ or ⭕ when that player won
/// the cell's square, 🔒 when the square is locked without a winner and `.`
/// otherwise.
pub proof fn law_board_shows_who_took_each_cell(g: TicTacToeGame, r: int, c: int)
    requires
        0 <= r < 9,
        0 <= c < 9,
    ensures
        board_codes(g)[r][c].len() == 2,
        has_bit(g.p_boards[0], cell_bit(r, c)) ==> board_codes(g)[r][c][0] == '❌',
        !has_bit(g.p_boards[0], cell_bit(r, c)) && has_bit(g.p_boards[1], cell_bit(r, c)) ==> board_codes(g)[r][c][0] == '⭕',
        !has_bit(g.p_boards[0], cell_bit(r, c)) && !has_bit(g.p_boards[1], cell_bit(r, c)) ==> board_codes(g)[r][c][0] == '.',
        has_bit(g.p_squares[0], cell_bit(r, c)) ==> board_codes(g)[r][c][1] == '❌',
        !has_bit(g.p_squares[0], cell_bit(r, c)) && has_bit(g.p_squares[1], cell_bit(r, c)) ==> board_codes(g)[r][c][1] == '⭕',
        !has_bit(g.p_squares[0], cell_bit(r, c)) && !has_bit(g.p_squares[1], cell_bit(r, c)) && has_bit(g.locked_squares, cell_bit(r, c))
            ==> board_codes(g)[r][c][1] == '🔒',
        !has_bit(g.p_squares[0], cell_bit(r, c)) && !has_bit(g.p_squares[1], cell_bit(r, c)) && !has_bit(g.locked_squares, cell_bit(r, c))
            ==> board_codes(g)[r][c][1] == '.',
{
}

fn mark_char(first: bool, second: bool) -> (c: char)
    ensures
        c == mark(first, second),
{
    if first {
        '❌'
    } else if second {
        '⭕'
    } else {
        '.'
    }
}

fn move_result_string(r: MoveResult) -> (s: String)
    ensures
        s@ == move_result_name(r),
{
    match r {
        MoveResult::NormalMove => string_from("NormalMove"),
        MoveResult::MoveWinningSquare => string_from("MoveWinningSquare"),
        MoveResult::MoveFillingSquareWithoutWinningIt => string_from("MoveFillingSquareWithoutWinningIt"),
        MoveResult::MoveWinningBoard => string_from("MoveWinningBoard"),
        MoveResult::MoveFillingBoardWithoutWinning => string_from("MoveFillingBoardWithoutWinning"),
        MoveResult::InvalidMove => string_from("InvalidMove"),
    }
}

fn board_rows(g: &TicTacToeGame) -> (board: Vec<Vec<String>>)
    ensures
        text_rows(board@) == board_codes(*g),
{
    let board_p0 = to_vector(g.p_boards[0]);
    let board_p1 = to_vector(g.p_boards[1]);
    let squares_p0 = to_vector(g.p_squares[0]);
    let squares_p1 = to_vector(g.p_squares[1]);
    let locked = to_vector(g.locked_squares);
    let mut board: Vec<Vec<String>> = Vec::new();
    let mut r: usize = 0;
    while r < 9
        invariant
            r <= 9,
            board@.len() == r,
            board_p0@.len() == 9 && board_p1@.len() == 9 && squares_p0@.len() == 9,
            squares_p1@.len() == 9 && locked@.len() == 9,
            forall|i: int| 0 <= i < 9 ==> #[trigger] board_p0@[i]@.len() == 9,
            forall|i: int| 0 <= i < 9 ==> #[trigger] board_p1@[i]@.len() == 9,
            forall|i: int| 0 <= i < 9 ==> #[trigger] squares_p0@[i]@.len() == 9,
            forall|i: int| 0 <= i < 9 ==> #[trigger] squares_p1@[i]@.len() == 9,
            forall|i: int| 0 <= i < 9 ==> #[trigger] locked@[i]@.len() == 9,
            forall|i: int, c: int| 0 <= i < 9 && 0 <= c < 9 ==> #[trigger] board_p0@[i]@[c] == has_bit(g.p_boards[0], cell_bit(i, c)),
            forall|i: int, c: int| 0 <= i < 9 && 0 <= c < 9 ==> #[trigger] board_p1@[i]@[c] == has_bit(g.p_boards[1], cell_bit(i, c)),
            forall|i: int, c: int| 0 <= i < 9 && 0 <= c < 9 ==> #[trigger] squares_p0@[i]@[c] == has_bit(g.p_squares[0], cell_bit(i, c)),
            forall|i: int, c: int| 0 <= i < 9 && 0 <= c < 9 ==> #[trigger] squares_p1@[i]@[c] == has_bit(g.p_squares[1], cell_bit(i, c)),
            forall|i: int, c: int| 0 <= i < 9 && 0 <= c < 9 ==> #[trigger] locked@[i]@[c] == has_bit(g.locked_squares, cell_bit(i, c)),
            forall|i: int| 0 <= i < r ==> (#[trigger] board@[i])@.map_values(|s: String| s@) == board_codes(*g)[i],
        decreases 9 - r,
    {
        let mut row: Vec<String> = Vec::new();
        let mut c: usize = 0;
        while c < 9
            invariant
                r < 9,
                c <= 9,
                row@.len() == c,
                board_p0@.len() == 9 && board_p1@.len() == 9 && squares_p0@.len() == 9,
                squares_p1@.len() == 9 && locked@.len() == 9,
                board_p0@[r as int]@.len() == 9 && board_p1@[r as int]@.len() == 9,
                squares_p0@[r as int]@.len() == 9 && squares_p1@[r as int]@.len() == 9,
                locked@[r as int]@.len() == 9,
                forall|j: int| 0 <= j < 9 ==> #[trigger] board_p0@[r as int]@[j] == has_bit(g.p_boards[0], cell_bit(r as int, j)),
                forall|j: int| 0 <= j < 9 ==> #[trigger] board_p1@[r as int]@[j] == has_bit(g.p_boards[1], cell_bit(r as int, j)),
                forall|j: int| 0 <= j < 9 ==> #[trigger] squares_p0@[r as int]@[j] == has_bit(g.p_squares[0], cell_bit(r as int, j)),
                forall|j: int| 0 <= j < 9 ==> #[trigger] squares_p1@[r as int]@[j] == has_bit(g.p_squares[1], cell_bit(r as int, j)),
                forall|j: int| 0 <= j < 9 ==> #[trigger] locked@[r as int]@[j] == has_bit(g.locked_squares, cell_bit(r as int, j)),
                forall|j: int| 0 <= j < c ==> (#[trigger] row@[j])@ == cell_code(*g, r as int, j),
            decreases 9 - c,
        {
            let mut code = String::new();
            push_char(&mut code, mark_char(board_p0[r][c], board_p1[r][c]));
            let second = if !squares_p0[r][c] && !squares_p1[r][c] && locked[r][c] {
                '🔒'
            } else {
                mark_char(squares_p0[r][c], squares_p1[r][c])
            };
            push_char(&mut code, second);
            assert(code@ =~= cell_code(*g, r as int, c as int));
            row.push(code);
            c += 1;
        }
        assert(row@.map_values(|s: String| s@) =~= board_codes(*g)[r as int]);
        board.push(row);
        r += 1;
    }
    assert(text_rows(board@) =~= board_codes(*g));
    board
}

fn bits_string(x: u128) -> (s: String)
    ensures
        s@ == bits_text(x),
{
    binary_string(x, 81)
}

impl TicTacToeGame {
    /// The state a replay shows: the code of each cell (see `cell_code`)
    /// and the referee's values (see `state_entries`).
    pub fn get_state(&self) -> (s: GameState)
        requires
            self.last_move == 0 || self.last_move & ALL_CELLS != 0,
        ensures
            s.board is Some,
            text_rows(s.board->0@) == board_codes(*self),
            text_pairs(s.state@) == state_entries(*self),
    {
        let board = board_rows(self);
        let last_move = if self.last_move == 0 {
            string_from("None")
        } else {
            let t = move81_to_movetuple(self.last_move);
            let mut m = String::new();
            push_char(&mut m, '(');
            push_u64(&mut m, t.0 as u64);
            push_char(&mut m, ',');
            push_u64(&mut m, t.1 as u64);
            push_char(&mut m, ')');
            assert(m@ =~= last_move_text(*self));
            m
        };
        let last_result = match self.last_move_result {
            None => string_from("None"),
            Some(r) => move_result_string(r),
        };
        let state = vec![
            entry("turn", u64_to_string(self.turn as u64)),
            entry("active", bool_string(self.active)),
            entry("active_player", u64_to_string(self.active_player as u64)),
            entry("last_move", last_move),
            entry("last_move_result", last_result),
            entry("p_board[0]", bits_string(self.p_boards[0])),
            entry("p_squares[0]", bits_string(self.p_squares[0])),
            entry("p_board[1]", bits_string(self.p_boards[1])),
            entry("p_squares[1]", bits_string(self.p_squares[1])),
            entry("locked_squares", bits_string(self.locked_squares)),
        ];
        assert(text_pairs(state@) =~= state_entries(*self));
        GameState { board: Some(board), state }
    }

    /// How a replay draws the board: 9 rows of 9 cells, with the classes
    /// of `board_classes` for the two characters of a cell's code.
    pub fn get_board_representation() -> (r: Option<BoardRepresentation>)
        ensures
            r is Some,
            r->0.board_type == BoardType::SQUARE(9, 9),
            classes_text(r->0.classes@) == board_classes(),
    {
        let x_styles = vec![style("color", "transparent"), style("textShadow", "0 0 0 #F2B213")];
        assert(text_pairs(x_styles@) =~= board_classes()[0][0].1.1->0);
        let o_styles = vec![style("color", "transparent"), style("textShadow", "0 0 0 #22A1E4")];
        assert(text_pairs(o_styles@) =~= board_classes()[0][1].1.1->0);
        let first = vec![
            ('❌', text_class("❌", styles(x_styles))),
            ('⭕', text_class("⭕", styles(o_styles))),
            ('.', plain_class()),
        ];
        assert(position_text(first@) =~= board_classes()[0]);
        let second = vec![
            ('❌', cell_class("backgroundColor", "#fcf0d0")),
            ('⭕', cell_class("backgroundColor", "#d3ecfa")),
            ('🔒', cell_class("backgroundColor", "#adadad")),
            ('.', plain_class()),
        ];
        assert(position_text(second@) =~= board_classes()[1]);
        let classes = vec![first, second];
        assert(classes_text(classes@) =~= board_classes());
        Some(BoardRepresentation { board_type: BoardType::SQUARE(9, 9), classes })
    }
}

} // verus!
