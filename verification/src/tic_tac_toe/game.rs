//! The ultimate tic-tac-toe referee.
use vstd::prelude::*;
use crate::game::{Game, Message, WinLossTie, lines_of};
use crate::text::{decimal, find_char, before_char, after_char, parse_trimmed_unsigned, str_chars, find_char_from, lemma_find_char_bounds, parse_trimmed_unsigned_in, push_char, push_u64, u64_to_string};
use crate::tic_tac_toe::board::{ALL_CELLS, cell_bit, square_mask, spec_valid_moves, holds_line_in_square, holds_board_line, bit_count, is_cell_move, spec_move81_to_movetuple, cells_of, movetuple_to_move81, square_of_move81, valid_moves, won_the_square, won_the_board, count_ones, lemma_cell_move_bit, move81_to_movetuple, moves81_to_movetuples};

verus! {

/// What the last move did.
#[derive(Debug, Clone, Copy, PartialEq, Eq, Structural)]
pub enum MoveResult {
    NormalMove,
    MoveWinningSquare,
    MoveFillingSquareWithoutWinningIt,
    MoveWinningBoard,
    MoveFillingBoardWithoutWinning,
    InvalidMove,
}

pub struct TicTacToeGame {
    /// The cells taken by each player.
    pub p_boards: [u128; 2],
    /// The squares won by each player, as masks of their cells.
    pub p_squares: [u128; 2],
    /// The squares that are won or full.
    pub locked_squares: u128,
    pub active: bool,
    pub active_player: u8,
    pub turn: u8,
    /// The bit of the last cell played, 0 before the first move.
    pub last_move: u128,
    pub last_move_result: Option<MoveResult>,
    pub winners: Option<(WinLossTie, WinLossTie)>,
}

/// The two numbers of a `"row col"` move message: the pieces before and
/// after the first space (up to the next one), trimmed and read as `u8`.
pub open spec fn spec_parse_cell(msg: Seq<char>) -> Option<(u8, u8)> {
    if find_char(msg, ' ') >= msg.len() {
        None
    } else {
        match (
            parse_trimmed_unsigned(before_char(msg, ' '), 255),
            parse_trimmed_unsigned(before_char(after_char(msg, ' '), ' '), 255),
        ) {
            (Some(r), Some(c)) => Some((r as u8, c as u8)),
            _ => None,
        }
    }
}

/// The text `"row col"` of a cell.
pub open spec fn cell_text(t: (u8, u8)) -> Seq<char> {
    decimal(t.0 as nat) + seq![' '] + decimal(t.1 as nat)
}

/// The statuses of both players when player `pid` wins.
pub open spec fn win_for(pid: int) -> (WinLossTie, WinLossTie) {
    if pid == 0 {
        (WinLossTie::Win, WinLossTie::Loss)
    } else {
        (WinLossTie::Loss, WinLossTie::Win)
    }
}

/// The statuses when the board is full: the player with more won squares
/// wins.
pub open spec fn full_board_result(squares: [u128; 2]) -> (WinLossTie, WinLossTie) {
    if bit_count(squares[0], 128) > bit_count(squares[1], 128) {
        (WinLossTie::Win, WinLossTie::Loss)
    } else if bit_count(squares[0], 128) < bit_count(squares[1], 128) {
        (WinLossTie::Loss, WinLossTie::Win)
    } else {
        (WinLossTie::Tie, WinLossTie::Tie)
    }
}

impl TicTacToeGame {
    /// The state is one the referee can continue from.
    pub open spec fn wf(&self) -> bool {
        &&& self.active_player < 2
        &&& self.last_move == 0 || is_cell_move(self.last_move)
    }

    /// The state after the active player plays the cell `(row, col)`.
    pub open spec fn spec_play_cell(self, row: int, col: int) -> TicTacToeGame {
        let b = cell_bit(row, col);
        let m = 1u128 << (b as u32);
        let sq = square_mask(b / 9);
        let pid = self.active_player as int;
        let valid = spec_valid_moves(self.p_boards, self.locked_squares, self.last_move);
        if valid & m == 0 {
            TicTacToeGame {
                last_move_result: Some(MoveResult::InvalidMove),
                active: false,
                winners: Some(win_for(1 - pid)),
                ..self
            }
        } else {
            let board = self.p_boards[pid] | m;
            let boards = if pid == 0 {
                [board, self.p_boards[1]]
            } else {
                [self.p_boards[0], board]
            };
            let won_square = holds_line_in_square(board, b / 9);
            let filled = !won_square && (boards[0] | boards[1]) & sq == sq;
            let squares = if won_square {
                if pid == 0 {
                    [self.p_squares[0] | sq, self.p_squares[1]]
                } else {
                    [self.p_squares[0], self.p_squares[1] | sq]
                }
            } else {
                self.p_squares
            };
            let locked = if won_square || filled {
                self.locked_squares | sq
            } else {
                self.locked_squares
            };
            let won_board = holds_board_line(squares[pid]);
            let full = !won_board && locked == ALL_CELLS;
            let result = if won_board {
                MoveResult::MoveWinningBoard
            } else if full {
                MoveResult::MoveFillingBoardWithoutWinning
            } else if won_square {
                MoveResult::MoveWinningSquare
            } else if filled {
                MoveResult::MoveFillingSquareWithoutWinningIt
            } else {
                MoveResult::NormalMove
            };
            let active = self.active && !won_board && !full;
            TicTacToeGame {
                p_boards: boards,
                p_squares: squares,
                locked_squares: locked,
                active,
                active_player: if active {
                    ((self.active_player + 1) % 2) as u8
                } else {
                    self.active_player
                },
                turn: (self.turn + 1) as u8,
                last_move: m,
                last_move_result: Some(result),
                winners: if won_board {
                    Some(win_for(pid))
                } else if full {
                    Some(full_board_result(squares))
                } else {
                    self.winners
                },
            }
        }
    }

    /// The first input line of a turn: the last move, `-1 -1` before any.
    pub open spec fn last_move_line(&self) -> Seq<char> {
        if self.last_move == 0 {
            seq!['-', '1', ' ', '-', '1']
        } else {
            cell_text(spec_move81_to_movetuple(self.last_move))
        }
    }

    /// The cells the active player may play, in position order.
    pub open spec fn valid_cells(&self) -> Seq<(u8, u8)> {
        cells_of(spec_valid_moves(self.p_boards, self.locked_squares, self.last_move), 81)
    }

    /// Reads a `"row col"` move message.
    pub fn parse_cell(msg: &str) -> (r: Option<(u8, u8)>)
        ensures
            r == spec_parse_cell(msg@),
    {
        let cs = str_chars(msg);
        let n = cs.len();
        let sp = find_char_from(cs.as_slice(), 0, ' ');
        assert(cs@.skip(0) =~= cs@);
        if sp >= n {
            return None;
        }
        let sp2 = find_char_from(cs.as_slice(), sp + 1, ' ');
        proof {
            lemma_find_char_bounds(cs@, ' ');
            assert(cs@.subrange(0, sp as int) =~= before_char(cs@, ' '));
            assert(cs@.skip(sp + 1) =~= after_char(cs@, ' '));
            assert(cs@.subrange(sp + 1, sp2 as int) =~= before_char(after_char(cs@, ' '), ' '));
        }
        let row = parse_trimmed_unsigned_in(cs.as_slice(), 0, sp, 255);
        let col = parse_trimmed_unsigned_in(cs.as_slice(), sp + 1, sp2, 255);
        match (row, col) {
            (Some(r), Some(c)) => Some((r as u8, c as u8)),
            _ => None,
        }
    }

    /// Applies the move of the active player at `(row, col)`.
    pub fn play_cell(&mut self, row: u8, col: u8)
        requires
            old(self).wf(),
            row < 9,
            col < 9,
            old(self).turn < 255,
        ensures
            final(self).wf(),
            *final(self) == old(self).spec_play_cell(row as int, col as int),
    {
        let move81 = movetuple_to_move81((row, col));
        let square81 = square_of_move81(move81);
        let ghost b = cell_bit(row as int, col as int);
        assert(square81 == square_mask(b / 9));
        let pid = self.active_player;
        let valid_moves = valid_moves(&self.p_boards, self.locked_squares, self.last_move);
        if valid_moves & move81 == 0 {
            self.last_move_result = Some(MoveResult::InvalidMove);
            self.active = false;
            self.winners = if pid == 0 {
                Some((WinLossTie::Loss, WinLossTie::Win))
            } else {
                Some((WinLossTie::Win, WinLossTie::Loss))
            };
            return;
        }
        self.last_move_result = Some(MoveResult::NormalMove);
        let board = self.p_boards[pid as usize] | move81;
        self.p_boards[pid as usize] = board;
        let won_square = won_the_square(board, square81);
        assert(won_square == holds_line_in_square(board, b / 9)) by {
            assert(b / 9 < 9);
            assert(square81 == square_mask(((b / 9) as u32) as int));
        }
        if won_square {
            self.last_move_result = Some(MoveResult::MoveWinningSquare);
            let sq = self.p_squares[pid as usize] | square81;
            self.p_squares[pid as usize] = sq;
            self.locked_squares = self.locked_squares | square81;
        } else if (self.p_boards[0] | self.p_boards[1]) & square81 == square81 {
            self.last_move_result = Some(MoveResult::MoveFillingSquareWithoutWinningIt);
            self.locked_squares = self.locked_squares | square81;
        }
        let ghost sp0 = old(self).spec_play_cell(row as int, col as int);
        assert(self.p_squares@ =~= sp0.p_squares@);
        if won_the_board(self.p_squares[pid as usize]) {
            self.last_move_result = Some(MoveResult::MoveWinningBoard);
            self.active = false;
            self.winners = if pid == 0 {
                Some((WinLossTie::Win, WinLossTie::Loss))
            } else {
                Some((WinLossTie::Loss, WinLossTie::Win))
            };
        } else if self.locked_squares == ALL_CELLS {
            self.last_move_result = Some(MoveResult::MoveFillingBoardWithoutWinning);
            self.active = false;
            let won0 = count_ones(self.p_squares[0]);
            let won1 = count_ones(self.p_squares[1]);
            if won0 > won1 {
                self.winners = Some((WinLossTie::Win, WinLossTie::Loss));
            } else if won0 < won1 {
                self.winners = Some((WinLossTie::Loss, WinLossTie::Win));
            } else {
                self.winners = Some((WinLossTie::Tie, WinLossTie::Tie));
            }
        }
        self.turn = self.turn + 1;
        self.last_move = move81;
        if self.active {
            self.active_player = (self.active_player + 1) % 2;
        }
        let ghost sp = old(self).spec_play_cell(row as int, col as int);
        assert(self.p_boards =~= sp.p_boards);
        assert(self.p_squares =~= sp.p_squares);
        assert(self.locked_squares == sp.locked_squares);
        assert(self.active == sp.active);
        assert(self.winners == sp.winners);
        assert(self.last_move_result == sp.last_move_result);
        assert(self.p_boards@ =~= old(self).spec_play_cell(row as int, col as int).p_boards@);
        assert(self.p_squares@ =~= old(self).spec_play_cell(row as int, col as int).p_squares@);
    }
}

impl Game for TicTacToeGame {
    open spec fn accepts(&self, msg: Seq<char>) -> bool {
        &&& self.wf()
        &&& self.turn < 255
        &&& spec_parse_cell(msg) matches Some(t) && t.0 < 9 && t.1 < 9
    }

    open spec fn is_active(&self) -> bool {
        self.active
    }

    open spec fn outcome(&self) -> Option<(WinLossTie, WinLossTie)> {
        self.winners
    }

    fn new() -> (g: Self)
        ensures
            g.wf(),
            g.p_boards == [0u128, 0u128],
            g.p_squares == [0u128, 0u128],
            g.locked_squares == 0,
            g.active,
            g.active_player == 0,
            g.turn == 0,
            g.last_move == 0,
            g.last_move_result is None,
            g.winners is None,
    {
        TicTacToeGame {
            p_boards: [0, 0],
            p_squares: [0, 0],
            locked_squares: 0,
            active: true,
            active_player: 0,
            turn: 0,
            last_move: 0,
            last_move_result: None,
            winners: None,
        }
    }

    /// The input of the active player: the last move, the number of valid
    /// moves, then the valid moves, one per line.
    fn turn(&self) -> (m: Option<Message>)
        ensures
            m is None <==> !self.active,
            m matches Some(msg) ==> self.wf() ==> {
                &&& msg.player_id == self.active_player
                &&& lines_of(msg.messages@) == seq![self.last_move_line(), decimal(
                    self.valid_cells().len(),
                )] + self.valid_cells().map_values(|t: (u8, u8)| cell_text(t))
            },
    {
        if !self.active {
            return None;
        }
        if !(self.active_player < 2 && (self.last_move == 0 || is_cell_move_exec(self.last_move))) {
            // the state cannot be continued from: nothing is promised of the message
            return Some(Message { player_id: self.active_player as usize, messages: Vec::new() });
        }
        let mut out: Vec<String> = Vec::new();
        let mut first = String::new();
        if self.last_move == 0 {
            push_char(&mut first, '-');
            push_char(&mut first, '1');
            push_char(&mut first, ' ');
            push_char(&mut first, '-');
            push_char(&mut first, '1');
        } else {
            proof {
                let b = choose|b: u32| b < 81 && self.last_move == 1u128 << b;
                lemma_cell_move_bit(self.last_move, b);
            }
            let t = move81_to_movetuple(self.last_move);
            push_cell_text(&mut first, t);
        }
        assert(first@ =~= self.last_move_line());
        out.push(first);
        let valid = valid_moves(&self.p_boards, self.locked_squares, self.last_move);
        let cells = moves81_to_movetuples(valid);
        out.push(u64_to_string(cells.len() as u64));
        let mut i: usize = 0;
        while i < cells.len()
            invariant
                i <= cells@.len(),
                out@.len() == 2 + i,
                lines_of(out@) == seq![self.last_move_line(), decimal(cells@.len())] + cells@.take(
                    i as int,
                ).map_values(|t: (u8, u8)| cell_text(t)),
            decreases cells@.len() - i,
        {
            let mut line = String::new();
            push_cell_text(&mut line, cells[i]);
            assert(line@ =~= cell_text(cells@[i as int]));
            let ghost before = out@;
            out.push(line);
            assert(cells@.take(i + 1).map_values(|t: (u8, u8)| cell_text(t)) =~= cells@.take(
                i as int,
            ).map_values(|t: (u8, u8)| cell_text(t)).push(cell_text(cells@[i as int])));
            assert(lines_of(out@) =~= lines_of(before).push(line@));
            i += 1;
        }
        assert(cells@.take(cells@.len() as int) =~= cells@);
        Some(Message { player_id: self.active_player as usize, messages: out })
    }

    /// Reads the `"row col"` move of the active player and applies it.
    fn play(&mut self, msg: String)
        ensures
            ({
                let t = spec_parse_cell(msg@)->0;
                *final(self) == old(self).spec_play_cell(t.0 as int, t.1 as int)
            }),
            final(self).wf(),
    {
        let t = TicTacToeGame::parse_cell(msg.as_str());
        match t {
            Some((row, col)) => self.play_cell(row, col),
            None => {},
        }
    }

    fn winners(&self) -> (w: Option<Vec<WinLossTie>>) {
        match self.winners {
            Some(w) => Some(vec![w.0, w.1]),
            None => None,
        }
    }

    fn end_game(&mut self, players_status: Vec<WinLossTie>)
        ensures
            final(self).p_boards == old(self).p_boards,
            final(self).p_squares == old(self).p_squares,
            final(self).locked_squares == old(self).locked_squares,
            final(self).active_player == old(self).active_player,
            final(self).turn == old(self).turn,
            final(self).last_move == old(self).last_move,
            final(self).last_move_result == old(self).last_move_result,
    {
        self.active = false;
        self.winners = Some((players_status[0], players_status[1]));
    }
}

/// Appends the text `"row col"` of a cell.
pub fn push_cell_text(s: &mut String, t: (u8, u8))
    ensures
        final(s)@ == old(s)@ + cell_text(t),
{
    push_u64(s, t.0 as u64);
    push_char(s, ' ');
    push_u64(s, t.1 as u64);
    assert(final(s)@ =~= old(s)@ + cell_text(t));
}

/// `m` has exactly one bit set, that of a cell.
pub fn is_cell_move_exec(m: u128) -> (b: bool)
    ensures
        b == is_cell_move(m),
{
    let mut k: u32 = 0;
    while k < 81
        invariant
            k <= 81,
            forall|j: u32| j < k ==> m != 1u128 << j,
        decreases 81 - k,
    {
        if m == 1u128 << k {
            return true;
        }
        k += 1;
    }
    false
}

proof fn lemma_valid_moves_free(p_boards: [u128; 2], locked_squares: u128, last_move: u128)
    ensures
        spec_valid_moves(p_boards, locked_squares, last_move) & (p_boards[0] | p_boards[1] | locked_squares) == 0,
{
    let b0 = p_boards[0];
    let b1 = p_boards[1];
    let l = locked_squares;
    assert((!(b0 | b1 | l) & 0x1ffffffffffffffffffffu128) & (b0 | b1 | l) == 0) by (bit_vector);
    assert(forall|n: u128| ((!(b0 | b1 | l) & 0x1ffffffffffffffffffffu128) & n) & (b0 | b1 | l) == 0) by (bit_vector);
}

/// A cell is never taken by both players: playing a cell keeps the two
/// boards disjoint, and a played cell stays taken.
pub proof fn law_cells_taken_once(g: TicTacToeGame, row: int, col: int)
    requires
        0 <= row < 9,
        0 <= col < 9,
        g.active_player < 2,
        g.p_boards[0] & g.p_boards[1] == 0,
    ensures
        g.spec_play_cell(row, col).p_boards[0] & g.spec_play_cell(row, col).p_boards[1] == 0,
        g.spec_play_cell(row, col).p_boards[0] & g.p_boards[0] == g.p_boards[0],
        g.spec_play_cell(row, col).p_boards[1] & g.p_boards[1] == g.p_boards[1],
{
    crate::tic_tac_toe::board::lemma_cell_position(row, col);
    let b = cell_bit(row, col);
    let k = b as u32;
    let m = 1u128 << k;
    let valid = spec_valid_moves(g.p_boards, g.locked_squares, g.last_move);
    lemma_valid_moves_free(g.p_boards, g.locked_squares, g.last_move);
    let b0 = g.p_boards[0];
    let b1 = g.p_boards[1];
    let l = g.locked_squares;
    if valid & m != 0 {
        assert(m & b0 == 0 && m & b1 == 0) by (bit_vector)
            requires
                valid & m != 0,
                valid & (b0 | b1 | l) == 0,
                m == 1u128 << k,
                k < 81,
        ;
        assert((b0 | m) & b1 == 0 && b0 & (b1 | m) == 0) by (bit_vector)
            requires
                b0 & b1 == 0,
                m & b0 == 0,
                m & b1 == 0,
        ;
        assert((b0 | m) & b0 == b0 && (b1 | m) & b1 == b1 && b0 & b0 == b0 && b1 & b1 == b1) by (bit_vector);
    } else {
        assert(b0 & b0 == b0 && b1 & b1 == b1) by (bit_vector);
    }
}

/// The locked squares only grow.
pub proof fn law_locked_squares_grow(g: TicTacToeGame, row: int, col: int)
    ensures
        g.spec_play_cell(row, col).locked_squares & g.locked_squares == g.locked_squares,
{
    let l = g.locked_squares;
    let sq = square_mask(cell_bit(row, col) / 9);
    assert(l & l == l && (l | sq) & l == l) by (bit_vector);
}

/// A cell the referee writes reads back as the same cell.
pub proof fn law_cell_text_roundtrip(t: (u8, u8))
    ensures
        spec_parse_cell(cell_text(t)) == Some(t),
{
    let d0 = decimal(t.0 as nat);
    let d1 = decimal(t.1 as nat);
    let msg = cell_text(t);
    crate::text::lemma_decimal_digits(t.0 as nat);
    crate::text::lemma_decimal_digits(t.1 as nat);
    crate::text::law_parse_decimal(t.0 as nat, 255);
    crate::text::law_parse_decimal(t.1 as nat, 255);
    crate::text::lemma_trim_decimal(t.0 as nat);
    crate::text::lemma_trim_decimal(t.1 as nat);
    assert forall|j: int| 0 <= j < d0.len() implies msg[j] != ' ' by {
        assert(msg[j] == d0[j]);
        assert(!crate::text::is_whitespace(d0[j]));
    }
    assert(msg[d0.len() as int] == ' ');
    crate::text::lemma_find_char_is(msg, ' ', d0.len() as int);
    assert(before_char(msg, ' ') =~= d0);
    assert(after_char(msg, ' ') =~= d1);
    assert forall|j: int| 0 <= j < d1.len() implies d1[j] != ' ' by {
        assert(!crate::text::is_whitespace(d1[j]));
    }
    crate::text::lemma_find_char_is(d1, ' ', d1.len() as int);
    assert(before_char(d1, ' ') =~= d1);
}

} // verus!
