//! The ultimate tic-tac-toe game as a search player simulates it, square
//! by square: each small square is a 9-bit number per player, the bit
//! `(2 - row) * 3 + (2 - col)` standing for the cell at `row`, `col` of the
//! square (0 to 2 each); the big board of won and locked squares is read
//! the same way.
use vstd::prelude::*;
use crate::game::WinLossTie;
use crate::stack_vector::StackVector;

verus! {

/// The nine bits of a full square or board.
pub const FULL: u16 = 0b111_111_111;

#[derive(Clone, Copy, Debug)]
pub struct State {
    /// Per player, the cells taken in each square (square `r * 3 + c`).
    pub p_boards: [[u16; 9]; 2],
    /// Per player, the squares won.
    pub p_squares: [u16; 2],
    /// The squares won or full.
    pub locked_squares: u16,
    pub active: bool,
    /// The player to move.
    pub active_player: u8,
    pub turn: u8,
    pub last_move: Option<(u8, u8)>,
    pub winners: Option<(WinLossTie, WinLossTie)>,
}

/// The game as the rules see it.
#[verifier::ext_equal]
pub struct SquaresModel {
    pub boards: Seq<Seq<u16>>,
    pub squares: Seq<u16>,
    pub locked: u16,
    pub active: bool,
    pub active_player: u8,
    pub turn: u8,
    pub last_move: Option<(u8, u8)>,
    pub winners: Option<(WinLossTie, WinLossTie)>,
}

impl View for State {
    type V = SquaresModel;

    open spec fn view(&self) -> SquaresModel {
        SquaresModel {
            boards: seq![self.p_boards[0]@, self.p_boards[1]@],
            squares: self.p_squares@,
            locked: self.locked_squares,
            active: self.active,
            active_player: self.active_player,
            turn: self.turn,
            last_move: self.last_move,
            winners: self.winners,
        }
    }
}

/// The bit of a cell of a square (or of a square of the board).
pub open spec fn bit_index(row: u8, col: u8) -> u8 {
    ((2 - row) * 3 + (2 - col)) as u8
}

/// Bit `k` of `b` is set.
pub open spec fn has_bit(b: u16, k: u16) -> bool {
    (b >> k) & 1u16 == 1u16
}

pub open spec fn spec_set_bit(bit_9: u16, row: u8, col: u8) -> u16 {
    (1u16 << bit_index(row, col)) | bit_9
}

pub open spec fn spec_get_bit(bit_9: u16, row: u8, col: u8) -> u8 {
    ((bit_9 >> bit_index(row, col)) & 1u16) as u8
}

/// The eight lines of a square: three rows, three columns, two diagonals.
pub open spec fn winning_configuration(j: int) -> u16 {
    if j == 0 {
        0b111000000
    } else if j == 1 {
        0b000111000
    } else if j == 2 {
        0b000000111
    } else if j == 3 {
        0b100100100
    } else if j == 4 {
        0b010010010
    } else if j == 5 {
        0b001001001
    } else if j == 6 {
        0b100010001
    } else {
        0b001010100
    }
}

/// The square (or board) holds a whole line.
pub open spec fn spec_is_won(bit_9: u16) -> bool {
    exists|j: int| 0 <= j < 8 && bit_9 & #[trigger] winning_configuration(j) == winning_configuration(j)
}

/// The square (0 to 2, 0 to 2) holding a cell of the big board.
pub open spec fn spec_square_of_cell(cell: (u8, u8)) -> (u8, u8) {
    ((cell.0 / 3) as u8, (cell.1 / 3) as u8)
}

/// The place of a cell of the big board inside its square.
pub open spec fn spec_cell99_to_cell33(cell: (u8, u8)) -> (u8, u8) {
    ((cell.0 % 3) as u8, (cell.1 % 3) as u8)
}

/// The cell of the big board at a place of a square.
pub open spec fn spec_cell33_to_cell99(cell: (u8, u8), square: (u8, u8)) -> (u8, u8) {
    ((cell.0 + square.0 * 3) as u8, (cell.1 + square.1 * 3) as u8)
}

pub fn square_of_cell(cell: (u8, u8)) -> (r: (u8, u8))
    ensures
        r == spec_square_of_cell(cell),
{
    (cell.0 / 3, cell.1 / 3)
}

pub fn cell99_to_cell33(cell: (u8, u8)) -> (r: (u8, u8))
    ensures
        r == spec_cell99_to_cell33(cell),
{
    (cell.0 % 3, cell.1 % 3)
}

pub fn cell33_to_cell99(cell: (u8, u8), square: (u8, u8)) -> (r: (u8, u8))
    requires
        cell.0 < 3 && cell.1 < 3 && square.0 < 3 && square.1 < 3,
    ensures
        r == spec_cell33_to_cell99(cell, square),
        r.0 < 9 && r.1 < 9,
{
    (cell.0 + square.0 * 3, cell.1 + square.1 * 3)
}

/// Bit of the cell (`row`, `col`), as 0 or 1.
pub fn get_bit(bit_9: u16, row: u8, col: u8) -> (b: u8)
    requires
        row < 3 && col < 3,
    ensures
        b == spec_get_bit(bit_9, row, col),
        b == 1 <==> has_bit(bit_9, bit_index(row, col) as u16),
        b == 0 || b == 1,
{
    let k: u8 = (2 - row) * 3 + (2 - col);
    let r = (bit_9 >> k) & 0b1;
    assert(r == (bit_9 >> (k as u16)) & 1u16) by (bit_vector)
        requires
            r == (bit_9 >> k) & 1u16,
            k < 9,
    ;
    assert(r <= 1) by (bit_vector)
        requires
            r == (bit_9 >> k) & 1u16,
    ;
    r as u8
}

/// Sets the bit of the cell (`row`, `col`).
pub fn set_bit(bit_9: u16, row: u8, col: u8) -> (r: u16)
    requires
        row < 3 && col < 3,
    ensures
        r == spec_set_bit(bit_9, row, col),
{
    (0b1 << ((2 - row) * 3 + (2 - col))) | bit_9
}

/// Whether the square (or board) holds a whole line.
pub fn is_won(bit_9: u16) -> (won: bool)
    ensures
        won == spec_is_won(bit_9),
{
    let winning_configurations: [u16; 8] = [
        0b111000000,
        0b000111000,
        0b000000111,
        0b100100100,
        0b010010010,
        0b001001001,
        0b100010001,
        0b001010100,
    ];
    let mut i: usize = 0;
    while i < 8
        invariant
            i <= 8,
            forall|j: int| 0 <= j < 8 ==> winning_configurations@[j] == winning_configuration(j),
            forall|j: int| 0 <= j < i ==> bit_9 & #[trigger] winning_configuration(j) != winning_configuration(j),
        decreases 8 - i,
    {
        let wc = winning_configurations[i];
        if bit_9 & wc == wc {
            assert(bit_9 & winning_configuration(i as int) == winning_configuration(i as int));
            return true;
        }
        i += 1;
    }
    false
}

/// How many of the first `n` bits of `x` are set.
pub open spec fn bit_count(x: u16, n: int) -> int
    decreases n,
{
    if n <= 0 {
        0
    } else {
        bit_count(x, n - 1) + if (x >> ((n - 1) as u16)) & 1u16 == 1u16 {
            1int
        } else {
            0int
        }
    }
}

/// The number of set bits of `x` (`u16::count_ones`).
pub fn count_ones(x: u16) -> (n: u32)
    ensures
        n == bit_count(x, 16),
{
    let mut n: u32 = 0;
    let mut b: u16 = 0;
    while b < 16
        invariant
            b <= 16,
            n == bit_count(x, b as int),
            n <= b,
        decreases 16 - b,
    {
        if (x >> b) & 1 == 1 {
            n += 1;
        }
        b += 1;
    }
    n
}

pub open spec fn new_squares() -> SquaresModel {
    SquaresModel {
        boards: seq![Seq::new(9, |i: int| 0u16), Seq::new(9, |i: int| 0u16)],
        squares: seq![0u16, 0u16],
        locked: 0,
        active: true,
        active_player: 0,
        turn: 0,
        last_move: None,
        winners: None,
    }
}

/// An empty board, player 0 to move.
pub fn new() -> (s: State)
    ensures
        s@ == new_squares(),
{
    let s = State {
        p_boards: [[0b000_000_000; 9]; 2],
        p_squares: [0b000_000_000; 2],
        locked_squares: 0b000_000_000,
        active: true,
        active_player: 0,
        turn: 0,
        last_move: None,
        winners: None,
    };
    assert(s.p_boards[0]@ =~= Seq::new(9, |i: int| 0u16));
    assert(s.p_boards[1]@ =~= Seq::new(9, |i: int| 0u16));
    assert(s@.boards =~= new_squares().boards);
    assert(s@.squares =~= new_squares().squares);
    s
}

/// The result once every square is locked: more squares won wins.
pub open spec fn count_result(squares: Seq<u16>) -> (WinLossTie, WinLossTie) {
    if bit_count(squares[0], 16) > bit_count(squares[1], 16) {
        (WinLossTie::Win, WinLossTie::Loss)
    } else if bit_count(squares[0], 16) < bit_count(squares[1], 16) {
        (WinLossTie::Loss, WinLossTie::Win)
    } else {
        (WinLossTie::Tie, WinLossTie::Tie)
    }
}

pub open spec fn win_of(player: u8) -> (WinLossTie, WinLossTie) {
    if player == 0 {
        (WinLossTie::Win, WinLossTie::Loss)
    } else {
        (WinLossTie::Loss, WinLossTie::Win)
    }
}

/// The game after `player` plays the cell `m` of the big board: the cell
/// is taken; a square with a line is won and locked, a full square locked;
/// a board line of won squares wins the game, and once every square is
/// locked the player with more squares wins. The turn passes while the
/// game goes on.
pub open spec fn spec_update_state(s: SquaresModel, player: u8, m: (u8, u8)) -> SquaresModel {
    let sq = spec_square_of_cell(m);
    let c = spec_cell99_to_cell33(m);
    let k = sq.0 * 3 + sq.1;
    let board = spec_set_bit(s.boards[player as int][k], c.0, c.1);
    let boards = s.boards.update(player as int, s.boards[player as int].update(k, board));
    let won = spec_is_won(board);
    let squares = if won {
        s.squares.update(player as int, spec_set_bit(s.squares[player as int], sq.0, sq.1))
    } else {
        s.squares
    };
    let locked = if won || boards[0][k] | boards[1][k] == FULL {
        spec_set_bit(s.locked, sq.0, sq.1)
    } else {
        s.locked
    };
    let game_won = spec_is_won(squares[player as int]);
    let ends = game_won || locked == FULL;
    SquaresModel {
        boards,
        squares,
        locked,
        active: if ends {
            false
        } else {
            s.active
        },
        winners: if game_won {
            Some(win_of(player))
        } else if locked == FULL {
            Some(count_result(squares))
        } else {
            s.winners
        },
        turn: (s.turn + 1) as u8,
        last_move: Some(m),
        active_player: if ends || !s.active {
            s.active_player
        } else {
            ((s.active_player + 1) % 2) as u8
        },
    }
}

/// Plays the cell `m` for `player` (see `spec_update_state`); the move is
/// assumed to be the player's and legal.
pub fn update_state(state: &mut State, player: u8, move_: (u8, u8))
    requires
        player < 2,
        move_.0 < 9 && move_.1 < 9,
        old(state).turn < 255,
        old(state).active_player < 255,
    ensures
        final(state)@ == spec_update_state(old(state)@, player, move_),
{
    let ghost s = state@;
    let square = square_of_cell(move_);
    let (row33, col33) = cell99_to_cell33(move_);
    let sq_idx: usize = (square.0 * 3 + square.1) as usize;
    let mut p_board = state.p_boards[player as usize];
    p_board[sq_idx] = set_bit(p_board[sq_idx], row33, col33);
    state.p_boards[player as usize] = p_board;
    let p_square = state.p_boards[player as usize][sq_idx];
    let won = is_won(p_square);
    if won {
        state.p_squares[player as usize] = set_bit(state.p_squares[player as usize], square.0, square.1);
        state.locked_squares = set_bit(state.locked_squares, square.0, square.1);
    } else if state.p_boards[0][sq_idx] | state.p_boards[1][sq_idx] == 0b111_111_111 {
        state.locked_squares = set_bit(state.locked_squares, square.0, square.1);
    }
    assert(state@.boards =~= spec_update_state(s, player, move_).boards);
    assert(state@.squares =~= spec_update_state(s, player, move_).squares);
    if is_won(state.p_squares[player as usize]) {
        state.active = false;
        state.winners = if player == 0 {
            Some((WinLossTie::Win, WinLossTie::Loss))
        } else {
            Some((WinLossTie::Loss, WinLossTie::Win))
        };
    } else if state.locked_squares == 0b111_111_111 {
        state.active = false;
        let won_squares = [count_ones(state.p_squares[0]), count_ones(state.p_squares[1])];
        if won_squares[0] > won_squares[1] {
            state.winners = Some((WinLossTie::Win, WinLossTie::Loss));
        } else if won_squares[0] < won_squares[1] {
            state.winners = Some((WinLossTie::Loss, WinLossTie::Win));
        } else {
            state.winners = Some((WinLossTie::Tie, WinLossTie::Tie));
        }
    }
    state.turn += 1;
    state.last_move = Some(move_);
    if state.active == true {
        state.active_player = (state.active_player + 1) % 2;
    }
    assert(state@ =~= spec_update_state(s, player, move_));
}

pub fn is_terminal(state: &State) -> (b: bool)
    ensures
        b == !state.active,
{
    !state.active
}

/// The empty cells of a square among its first `n` bits, bit 0 (the cell
/// 2, 2) first.
pub open spec fn free_cells(square_bin: u16, n: int) -> Seq<(u8, u8)>
    decreases n,
{
    if n <= 0 {
        Seq::empty()
    } else {
        let sh = (n - 1) as u8;
        free_cells(square_bin, n - 1) + if (square_bin >> sh) & 1u16 == 0 {
            seq![(((8 - sh) / 3) as u8, ((8 - sh) % 3) as u8)]
        } else {
            Seq::<(u8, u8)>::empty()
        }
    }
}

proof fn lemma_free_cells(square_bin: u16, n: int)
    requires
        n <= 9,
    ensures
        free_cells(square_bin, n).len() <= if n < 0 { 0 } else { n },
        forall|i: int| 0 <= i < free_cells(square_bin, n).len() ==> (#[trigger] free_cells(square_bin, n)[i]).0 < 3
            && free_cells(square_bin, n)[i].1 < 3,
    decreases n,
{
    if n > 0 {
        lemma_free_cells(square_bin, n - 1);
    }
}

/// The empty cells of a square (see `free_cells`).
pub fn valid_moves_in_square(square_bin: u16) -> (v: StackVector<(u8, u8), 9>)
    ensures
        v.wf(),
        v@ == free_cells(square_bin, 9),
{
    let mut valid_moves: StackVector<(u8, u8), 9> = StackVector::new();
    let sq = square_bin;
    let mut sh: u8 = 0;
    while sh < 9
        invariant
            sh <= 9,
            sq == square_bin,
            valid_moves.wf(),
            valid_moves@ == free_cells(square_bin, sh as int),
        decreases 9 - sh,
    {
        proof {
            lemma_free_cells(square_bin, sh as int);
        }
        if (sq >> sh) & 0b1 == 0 {
            valid_moves.add(((8 - sh) / 3, (8 - sh) % 3));
        }
        sh += 1;
    }
    valid_moves
}

/// The squares the next move may be played in: any at the first move;
/// else the square the last move points to, unless it is locked, in which
/// case every square not locked.
pub open spec fn spec_valid_squares(s: SquaresModel) -> u16 {
    match s.last_move {
        None => FULL,
        Some(m) => {
            let sq = spec_cell99_to_cell33(m);
            if spec_get_bit(s.locked, sq.0, sq.1) == 0 {
                1u16 << bit_index(sq.0, sq.1)
            } else {
                !s.locked
            }
        },
    }
}

/// The moves in the first `n` squares (row by row) that `valid_squares`
/// allows: the empty cells of each, as cells of the big board.
pub open spec fn moves_upto(s: SquaresModel, valid_squares: u16, n: int) -> Seq<(u8, u8)>
    decreases n,
{
    if n <= 0 {
        Seq::empty()
    } else {
        let r = ((n - 1) / 3) as u8;
        let c = ((n - 1) % 3) as u8;
        moves_upto(s, valid_squares, n - 1) + if spec_get_bit(valid_squares, r, c) == 1 {
            free_cells(s.boards[0][n - 1] | s.boards[1][n - 1], 9).map_values(|m: (u8, u8)| spec_cell33_to_cell99(m, (r, c)))
        } else {
            Seq::<(u8, u8)>::empty()
        }
    }
}

/// The moves of the player to move.
pub open spec fn squares_moves(s: SquaresModel) -> Seq<(u8, u8)> {
    moves_upto(s, spec_valid_squares(s), 9)
}

/// The player to move and her moves (see `squares_moves`).
pub fn valid_moves(state: &State) -> (r: (u8, StackVector<(u8, u8), 81>))
    ensures
        r.0 == state.active_player,
        r.1.wf(),
        r.1@ == squares_moves(state@),
{
    let ghost s = state@;
    let p_boards = &state.p_boards;
    let locked_squares = state.locked_squares;
    let last_move = state.last_move;
    let valid_squares: u16 = match last_move {
        None => 0b111_111_111,
        Some(m) => {
            let sq = cell99_to_cell33(m);
            if get_bit(locked_squares, sq.0, sq.1) == 0 {
                0b1 << (2 - sq.0) * 3 + (2 - sq.1)
            } else {
                !locked_squares
            }
        },
    };
    let mut valid_moves: StackVector<(u8, u8), 81> = StackVector::new();
    let mut j: usize = 0;
    while j < 9
        invariant
            j <= 9,
            s == state@,
            valid_squares == spec_valid_squares(s),
            *p_boards == state.p_boards,
            valid_moves.wf(),
            valid_moves@.len() <= 9 * j,
            valid_moves@ == moves_upto(s, valid_squares, j as int),
        decreases 9 - j,
    {
        let r: u8 = (j / 3) as u8;
        let c: u8 = (j % 3) as u8;
        if get_bit(valid_squares, r, c) == 1 {
            let sq_ix = (r * 3 + c) as usize;
            assert(sq_ix == j);
            let square_bin = p_boards[0][sq_ix] | p_boards[1][sq_ix];
            let in_square = valid_moves_in_square(square_bin);
            let ghost before = valid_moves@;
            let ghost cells = free_cells(square_bin, 9);
            proof {
                lemma_free_cells(square_bin, 9);
            }
            let mut k: usize = 0;
            while k < in_square.len()
                invariant
                    k <= in_square@.len(),
                    in_square@ == cells,
                    cells.len() <= 9,
                    forall|i: int| 0 <= i < cells.len() ==> (#[trigger] cells[i]).0 < 3 && cells[i].1 < 3,
                    r < 3 && c < 3,
                    before.len() <= 9 * j,
                    j < 9,
                    valid_moves.wf(),
                    valid_moves@ == before + cells.take(k as int).map_values(|m: (u8, u8)| spec_cell33_to_cell99(m, (r, c))),
                decreases in_square@.len() - k,
            {
                let m_sq = *in_square.get(k);
                valid_moves.add(cell33_to_cell99(m_sq, (r, c)));
                assert(cells.take(k + 1).map_values(|m: (u8, u8)| spec_cell33_to_cell99(m, (r, c))) =~= cells.take(
                    k as int,
                ).map_values(|m: (u8, u8)| spec_cell33_to_cell99(m, (r, c))).push(spec_cell33_to_cell99(m_sq, (r, c))));
                k += 1;
            }
            assert(cells.take(cells.len() as int) =~= cells);
        }
        assert(valid_moves@ =~= moves_upto(s, valid_squares, j + 1));
        j += 1;
    }
    (state.active_player, valid_moves)
}

proof fn lemma_set_bit_keeps(b: u16, i: u8, k: u16)
    requires
        i < 9,
        k < 16,
    ensures
        has_bit((1u16 << i) | b, i as u16),
        has_bit(b, k) ==> has_bit((1u16 << i) | b, k),
{
    assert(((((1u16 << i) | b) >> (i as u16)) & 1u16) == 1u16) by (bit_vector)
        requires
            i < 9,
    ;
    assert(((b >> k) & 1u16) == 1u16 ==> ((((1u16 << i) | b) >> k) & 1u16) == 1u16) by (bit_vector)
        requires
            i < 9,
            k < 16,
    ;
}

/// A game is over exactly when it has a result: a new game has none and is
/// going on, and every move keeps the two together.
pub proof fn law_over_when_decided(s: SquaresModel, player: u8, m: (u8, u8))
    requires
        s.active == s.winners is None,
    ensures
        spec_update_state(s, player, m).active == spec_update_state(s, player, m).winners is None,
{
}

/// A move takes its cell: the cell's bit is set in the player's square.
pub proof fn law_move_takes_its_cell(s: SquaresModel, player: u8, m: (u8, u8))
    requires
        player < 2,
        m.0 < 9 && m.1 < 9,
        s.boards.len() == 2,
        s.boards[0].len() == 9 && s.boards[1].len() == 9,
    ensures
        ({
            let sq = spec_square_of_cell(m);
            let c = spec_cell99_to_cell33(m);
            has_bit(spec_update_state(s, player, m).boards[player as int][sq.0 * 3 + sq.1], bit_index(c.0, c.1) as u16)
        }),
{
    let sq = spec_square_of_cell(m);
    let c = spec_cell99_to_cell33(m);
    lemma_set_bit_keeps(s.boards[player as int][sq.0 * 3 + sq.1], bit_index(c.0, c.1), 0);
}

/// Taken cells stay taken, won squares stay won, and locked squares stay
/// locked, whatever move is played.
pub proof fn law_taken_stays_taken(s: SquaresModel, player: u8, m: (u8, u8), p: int, q: int, k: u16)
    requires
        player < 2,
        m.0 < 9 && m.1 < 9,
        s.boards.len() == 2,
        s.boards[0].len() == 9 && s.boards[1].len() == 9,
        s.squares.len() == 2,
        0 <= p < 2,
        0 <= q < 9,
        k < 16,
    ensures
        has_bit(s.boards[p][q], k) ==> has_bit(spec_update_state(s, player, m).boards[p][q], k),
        has_bit(s.squares[p], k) ==> has_bit(spec_update_state(s, player, m).squares[p], k),
        has_bit(s.locked, k) ==> has_bit(spec_update_state(s, player, m).locked, k),
{
    let sq = spec_square_of_cell(m);
    let c = spec_cell99_to_cell33(m);
    lemma_set_bit_keeps(s.boards[p][q], bit_index(c.0, c.1), k);
    lemma_set_bit_keeps(s.squares[p], bit_index(sq.0, sq.1), k);
    lemma_set_bit_keeps(s.locked, bit_index(sq.0, sq.1), k);
}

proof fn lemma_free_cell(b: u16, n: int, i: int)
    requires
        0 <= n <= 9,
        0 <= i < free_cells(b, n).len(),
    ensures
        free_cells(b, n)[i].0 < 3,
        free_cells(b, n)[i].1 < 3,
        !has_bit(b, bit_index(free_cells(b, n)[i].0, free_cells(b, n)[i].1) as u16),
    decreases n,
{
    let prev = free_cells(b, n - 1);
    if i < prev.len() {
        lemma_free_cell(b, n - 1, i);
    } else {
        let sh = (n - 1) as u8;
        let f = free_cells(b, n)[i];
        assert((b >> sh) & 1u16 == 0);
        assert(f == (((8 - sh) / 3) as u8, ((8 - sh) % 3) as u8));
        let x = 8 - sh;
        vstd::arithmetic::div_mod::lemma_fundamental_div_mod(x, 3);
        assert(bit_index(f.0, f.1) == sh);
        assert(!(((b >> (sh as u16)) & 1u16) == 1u16)) by (bit_vector)
            requires
                (b >> sh) & 1u16 == 0,
                sh < 9,
        ;
    }
}

proof fn lemma_move_free(s: SquaresModel, vs: u16, n: int, k: int)
    requires
        s.boards.len() == 2,
        s.boards[0].len() == 9 && s.boards[1].len() == 9,
        0 <= n <= 9,
        0 <= k < moves_upto(s, vs, n).len(),
    ensures
        ({
            let m = moves_upto(s, vs, n)[k];
            let sq = spec_square_of_cell(m);
            let c = spec_cell99_to_cell33(m);
            &&& m.0 < 9 && m.1 < 9
            &&& sq.0 * 3 + sq.1 < n
            &&& spec_get_bit(vs, sq.0, sq.1) == 1
            &&& !has_bit(s.boards[0][sq.0 * 3 + sq.1] | s.boards[1][sq.0 * 3 + sq.1], bit_index(c.0, c.1) as u16)
        }),
    decreases n,
{
    let prev = moves_upto(s, vs, n - 1);
    if k < prev.len() {
        lemma_move_free(s, vs, n - 1, k);
    } else {
        let r = ((n - 1) / 3) as u8;
        let c = ((n - 1) % 3) as u8;
        let b = s.boards[0][n - 1] | s.boards[1][n - 1];
        let cells = free_cells(b, 9);
        let j = k - prev.len();
        lemma_free_cells(b, 9);
        lemma_free_cell(b, 9, j);
        let f = cells[j];
        let m = moves_upto(s, vs, n)[k];
        assert(m == spec_cell33_to_cell99(f, (r, c)));
        vstd::arithmetic::div_mod::lemma_fundamental_div_mod(n - 1, 3);
        assert(spec_square_of_cell(m) == (r, c));
        assert(spec_cell99_to_cell33(m) == f);
        assert(r * 3 + c == n - 1);
    }
}

/// A move of the player to move is in a square the rules allow, and takes
/// a cell that neither player holds.
pub proof fn law_moves_are_free_cells(s: SquaresModel, k: int)
    requires
        s.boards.len() == 2,
        s.boards[0].len() == 9 && s.boards[1].len() == 9,
        0 <= k < squares_moves(s).len(),
    ensures
        ({
            let m = squares_moves(s)[k];
            let sq = spec_square_of_cell(m);
            let c = spec_cell99_to_cell33(m);
            &&& m.0 < 9 && m.1 < 9
            &&& spec_get_bit(spec_valid_squares(s), sq.0, sq.1) == 1
            &&& !has_bit(s.boards[0][sq.0 * 3 + sq.1] | s.boards[1][sq.0 * 3 + sq.1], bit_index(c.0, c.1) as u16)
        }),
{
    lemma_move_free(s, spec_valid_squares(s), 9, k);
}

} // verus!
