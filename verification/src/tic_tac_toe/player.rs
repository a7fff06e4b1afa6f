//! Ultimate tic-tac-toe as a searching player simulates it, on the 81-bit
//! boards of the referee, with a store of random cell orders for fast
//! random play-outs.
use vstd::prelude::*;
use crate::game::WinLossTie;
use crate::random::shuffle;
use crate::stack_vector::StackVector;
use crate::text::{line_field, read_field};
use crate::tic_tac_toe::board::{
    ALL_CELLS, has_bit, square_mask, is_cell_move, first_position_from, holds_line_in_square, holds_board_line,
    spec_valid_moves, cell_move_bit, lemma_cell_move_bit, lemma_drop_top_bit, square_of_move81, valid_moves as free_cells,
    won_the_square, won_the_board, count_ones, movetuple_to_move81, cell_bit,
};
use crate::tic_tac_toe::game::{win_for, full_board_result, TicTacToeGame};
use crate::tic_tac_toe::board::lemma_cell_position;

verus! {

/// How many random cell orders the store keeps.
pub const RANDOM_ORDERS: usize = 100_000;

/// What a player knows of a game.
#[derive(Clone, Debug)]
pub struct State {
    /// The cells taken by each player.
    pub p_boards: [u128; 2],
    /// The squares won by each player, as masks of their cells.
    pub p_squares: [u128; 2],
    /// The squares that are won or full.
    pub locked_squares: u128,
    pub active: bool,
    /// The player who moves next.
    pub active_player: u8,
    pub turn: u8,
    /// The bit of the last cell played, 0 before the first move.
    pub last_move: u128,
    pub winners: Option<(WinLossTie, WinLossTie)>,
}

impl State {
    /// The last move is a cell (or none) and the player to move is 0 or 1.
    pub open spec fn wf(&self) -> bool {
        &&& self.active_player < 2
        &&& self.last_move == 0 || is_cell_move(self.last_move)
    }
}

/// The bit of a cell move.
pub open spec fn move_bit(m: u128) -> int {
    80 - first_position_from(m, 0)
}

/// The state after `player` takes the cell of `m`: the square of the cell
/// is won or locked when full, the board is won with a line of squares or
/// decided by the count of won squares when every square is locked, and
/// the other player moves next while the game goes on.
pub open spec fn spec_update_state(s: State, player: u8, m: u128) -> State {
    let b = move_bit(m);
    let sq = square_mask(b / 9);
    let pid = player as int;
    let board = s.p_boards[pid] | m;
    let boards = if pid == 0 {
        [board, s.p_boards[1]]
    } else {
        [s.p_boards[0], board]
    };
    let won_square = holds_line_in_square(board, b / 9);
    let filled = !won_square && (boards[0] | boards[1]) & sq == sq;
    let squares = if won_square {
        if pid == 0 {
            [s.p_squares[0] | sq, s.p_squares[1]]
        } else {
            [s.p_squares[0], s.p_squares[1] | sq]
        }
    } else {
        s.p_squares
    };
    let locked = if won_square || filled {
        s.locked_squares | sq
    } else {
        s.locked_squares
    };
    let won_board = holds_board_line(squares[pid]);
    let full = !won_board && locked == ALL_CELLS;
    let active = s.active && !won_board && !full;
    State {
        p_boards: boards,
        p_squares: squares,
        locked_squares: locked,
        active,
        active_player: if active {
            ((s.active_player + 1) % 2) as u8
        } else {
            s.active_player
        },
        turn: (s.turn + 1) as u8,
        last_move: m,
        winners: if won_board {
            Some(win_for(pid))
        } else if full {
            Some(full_board_result(squares))
        } else {
            s.winners
        },
    }
}

/// An empty board, player 0 to move.
pub fn new() -> (s: State)
    ensures
        s.wf(),
        s.p_boards == [0u128, 0u128],
        s.p_squares == [0u128, 0u128],
        s.locked_squares == 0,
        s.active,
        s.active_player == 0,
        s.turn == 0,
        s.last_move == 0,
        s.winners is None,
{
    State {
        p_boards: [0; 2],
        p_squares: [0; 2],
        locked_squares: 0,
        active: true,
        active_player: 0,
        turn: 0,
        last_move: 0,
        winners: None,
    }
}

/// Plays the cell of `move_` for `player` (see `spec_update_state`); the
/// move is taken as legal.
pub fn update_state(state: &mut State, player: u8, move_: u128)
    requires
        old(state).wf(),
        player < 2,
        is_cell_move(move_),
        old(state).turn < 255,
    ensures
        final(state).wf(),
        *final(state) == spec_update_state(*old(state), player, move_),
{
    let b = cell_move_bit(move_);
    proof {
        lemma_cell_move_bit(move_, b);
    }
    let square81 = square_of_move81(move_);
    assert(square81 == square_mask((b / 9) as int));
    let board = state.p_boards[player as usize] | move_;
    state.p_boards[player as usize] = board;
    let won_square = won_the_square(board, square81);
    assert(won_square == holds_line_in_square(board, (b / 9) as int)) by {
        assert(square81 == square_mask(((b / 9) as u32) as int));
    }
    if won_square {
        let sq = state.p_squares[player as usize] | square81;
        state.p_squares[player as usize] = sq;
        state.locked_squares = state.locked_squares | square81;
    } else if (state.p_boards[0] | state.p_boards[1]) & square81 == square81 {
        state.locked_squares = state.locked_squares | square81;
    }
    let ghost sp0 = spec_update_state(*old(state), player, move_);
    assert(state.p_boards@ =~= sp0.p_boards@);
    assert(state.p_squares@ =~= sp0.p_squares@);
    assert(state.locked_squares == sp0.locked_squares);
    if won_the_board(state.p_squares[player as usize]) {
        state.active = false;
        state.winners = if player == 0 {
            Some((WinLossTie::Win, WinLossTie::Loss))
        } else {
            Some((WinLossTie::Loss, WinLossTie::Win))
        };
    } else if state.locked_squares == ALL_CELLS {
        state.active = false;
        let won0 = count_ones(state.p_squares[0]);
        let won1 = count_ones(state.p_squares[1]);
        if won0 > won1 {
            state.winners = Some((WinLossTie::Win, WinLossTie::Loss));
        } else if won0 < won1 {
            state.winners = Some((WinLossTie::Loss, WinLossTie::Win));
        } else {
            state.winners = Some((WinLossTie::Tie, WinLossTie::Tie));
        }
    }
    state.turn = state.turn + 1;
    state.last_move = move_;
    if state.active {
        state.active_player = (state.active_player + 1) % 2;
    }
    let ghost sp = spec_update_state(*old(state), player, move_);
    assert(state.p_boards@ =~= sp.p_boards@);
    assert(state.p_squares@ =~= sp.p_squares@);
    assert(state.active == sp.active);
    assert(state.winners == sp.winners);
    assert(state.active_player == sp.active_player);
    assert(state.p_boards =~= sp.p_boards);
    assert(state.p_squares =~= sp.p_squares);
}

pub fn is_terminal(state: &State) -> (b: bool)
    ensures
        b == !state.active,
{
    !state.active
}

/// The single-bit moves of the set bits among the `n` low bits of `v`,
/// from the lowest bit up.
pub open spec fn bit_moves(v: u128, n: int) -> Seq<u128>
    decreases n,
{
    if n <= 0 {
        Seq::empty()
    } else if has_bit(v, n - 1) {
        bit_moves(v, n - 1).push(1u128 << ((n - 1) as u32))
    } else {
        bit_moves(v, n - 1)
    }
}

proof fn lemma_bit_moves_len(v: u128, n: int)
    ensures
        bit_moves(v, n).len() <= if n < 0 { 0 } else { n },
    decreases n,
{
    if n > 0 {
        lemma_bit_moves_len(v, n - 1);
    }
}

/// The moves the player to move may make (see `spec_valid_moves`), one
/// bit each, from the lowest bit up.
pub open spec fn player_moves(s: State) -> Seq<u128> {
    bit_moves(spec_valid_moves(s.p_boards, s.locked_squares, s.last_move), 81)
}

/// The player to move and its moves (see `player_moves`).
pub fn valid_moves(state: &State) -> (r: (u8, StackVector<u128, 81>))
    requires
        state.wf(),
    ensures
        r.0 == state.active_player,
        r.1.wf(),
        r.1@ == player_moves(*state),
{
    let valid_moves81 = free_cells(&state.p_boards, state.locked_squares, state.last_move);
    let mut valid_moves_vec: StackVector<u128, 81> = StackVector::new();
    let mut m: u128 = 1;
    let mut i: u32 = 0;
    assert(1u128 << 0u32 == 1u128) by (bit_vector);
    while i < 81
        invariant
            i <= 81,
            m == 1u128 << i,
            valid_moves_vec.wf(),
            valid_moves_vec@ == bit_moves(valid_moves81, i as int),
        decreases 81 - i,
    {
        proof {
            lemma_bit_moves_len(valid_moves81, i as int);
        }
        assert((valid_moves81 & m > 0) == has_bit(valid_moves81, i as int)) by {
            assert(((valid_moves81 & (1u128 << i)) > 0) == ((valid_moves81 >> (i as u128)) & 1u128 == 1u128)) by (bit_vector)
                requires
                    i < 81,
            ;
        }
        if valid_moves81 & m > 0 {
            valid_moves_vec.add(m);
        }
        assert((1u128 << i) << 1u128 == 1u128 << ((i + 1) as u32)) by (bit_vector)
            requires
                i < 81,
        ;
        m = m << 1;
        i += 1;
    }
    (state.active_player, valid_moves_vec)
}

/// `order` lists each of the 81 cell bits once.
pub open spec fn is_cell_order(order: Seq<u8>) -> bool {
    &&& order.len() == 81
    &&& forall|b: int| 0 <= b < 81 ==> #[trigger] order.contains(b as u8)
    &&& forall|j: int| 0 <= j < order.len() ==> #[trigger] order[j] < 81
}

/// A store of random orders of the 81 cells, handed out in turn.
pub struct Cache {
    random_indices: Vec<Vec<u8>>,
    random_indices_i: usize,
}

impl Cache {
    /// Every stored order lists each cell once, and the next one to hand
    /// out is in the store.
    pub closed spec fn wf(&self) -> bool {
        &&& self.random_indices@.len() == RANDOM_ORDERS
        &&& self.random_indices_i < RANDOM_ORDERS
        &&& forall|k: int| 0 <= k < RANDOM_ORDERS ==> is_cell_order(#[trigger] self.random_indices@[k]@)
    }

    /// The order handed out next.
    pub closed spec fn next_order(&self) -> Seq<u8> {
        self.random_indices@[self.random_indices_i as int]@
    }

    /// The position of the next order in the store.
    pub closed spec fn position(&self) -> int {
        self.random_indices_i as int
    }

    pub proof fn lemma_next_order(&self)
        requires
            self.wf(),
        ensures
            is_cell_order(self.next_order()),
            0 <= self.position() < RANDOM_ORDERS,
    {
    }

    /// A store of random orders (each a shuffle of `0..81`), handing out
    /// the first one next.
    pub fn new() -> (c: Cache)
        ensures
            c.wf(),
            c.position() == 0,
    {
        let mut random_indices: Vec<Vec<u8>> = Vec::new();
        let mut n: usize = 0;
        while n < RANDOM_ORDERS
            invariant
                n <= RANDOM_ORDERS,
                random_indices@.len() == n,
                forall|k: int| 0 <= k < n ==> is_cell_order(#[trigger] random_indices@[k]@),
            decreases RANDOM_ORDERS - n,
        {
            let mut arr: Vec<u8> = Vec::new();
            let mut b: u8 = 0;
            while b < 81
                invariant
                    b <= 81,
                    arr@.len() == b,
                    forall|j: int| 0 <= j < b ==> #[trigger] arr@[j] == j as u8,
                decreases 81 - b,
            {
                arr.push(b);
                b += 1;
            }
            let ghost before = arr@;
            assert forall|c: int| 0 <= c < 81 implies #[trigger] before.contains(c as u8) by {
                assert(before[c] == c as u8);
            }
            shuffle(&mut arr);
            proof {
                broadcast use vstd::seq_lib::group_to_multiset_ensures;
                assert forall|c: int| 0 <= c < 81 implies #[trigger] arr@.contains(c as u8) by {
                    assert(before.to_multiset().count(c as u8) > 0);
                }
                assert forall|j: int| 0 <= j < arr@.len() implies #[trigger] arr@[j] < 81 by {
                    assert(arr@.contains(arr@[j]));
                    assert(before.to_multiset().count(arr@[j]) > 0);
                }
            }
            random_indices.push(arr);
            n += 1;
        }
        Cache { random_indices, random_indices_i: 0 }
    }
}

/// The first place at or after `j` in `order` whose cell is set in `v`.
pub open spec fn first_in_order(order: Seq<u8>, v: u128, j: int) -> int
    decreases order.len() - j,
{
    if j >= order.len() {
        j
    } else if has_bit(v, order[j] as int) {
        j
    } else {
        first_in_order(order, v, j + 1)
    }
}

proof fn lemma_first_in_order(order: Seq<u8>, v: u128, j: int, c: int)
    requires
        0 <= j <= order.len(),
        j <= c < order.len(),
        has_bit(v, order[c] as int),
    ensures
        j <= first_in_order(order, v, j) <= c,
        has_bit(v, order[first_in_order(order, v, j)] as int),
        forall|i: int| j <= i < first_in_order(order, v, j) ==> !has_bit(v, #[trigger] order[i] as int),
    decreases order.len() - j,
{
    if !has_bit(v, order[j] as int) {
        lemma_first_in_order(order, v, j + 1, c);
    }
}

/// The player to move and a random move of it: the first cell of the next
/// order of the store that the player may take. The store moves on to the
/// following order.
pub fn random_valid_move(state: &State, cache: &mut Cache) -> (r: (u8, u128))
    requires
        state.wf(),
        old(cache).wf(),
        spec_valid_moves(state.p_boards, state.locked_squares, state.last_move) != 0,
    ensures
        final(cache).wf(),
        final(cache).position() == (old(cache).position() + 1) % (RANDOM_ORDERS as int),
        r.0 == state.active_player,
        0 <= first_in_order(old(cache).next_order(), spec_valid_moves(state.p_boards, state.locked_squares, state.last_move), 0) < 81,
        r.1 == 1u128 << (old(cache).next_order()[first_in_order(
            old(cache).next_order(),
            spec_valid_moves(state.p_boards, state.locked_squares, state.last_move),
            0,
        )] as u32),
        player_moves(*state).contains(r.1),
{
    let valid_moves81 = free_cells(&state.p_boards, state.locked_squares, state.last_move);
    let ghost order = cache.next_order();
    proof {
        cache.lemma_next_order();
        let v = valid_moves81;
        lemma_valid_within_cells(state.p_boards, state.locked_squares, state.last_move);
        lemma_some_valid_bit(v);
        let c = choose|c: int| 0 <= c < 81 && has_bit(v, c);
        assert(order.contains(c as u8));
        let k = choose|k: int| 0 <= k < order.len() && order[k] == c as u8;
        lemma_first_in_order(order, v, 0, k);
    }
    let i = cache.random_indices_i;
    cache.random_indices_i = (cache.random_indices_i + 1) % RANDOM_ORDERS;
    let indices = &cache.random_indices[i];
    let mut j: usize = 0;
    while j < indices.len()
        invariant
            indices@ == order,
            order == old(cache).next_order(),
            is_cell_order(order),
            cache.wf(),
            cache.position() == (old(cache).position() + 1) % (RANDOM_ORDERS as int),
            j <= 81,
            forall|k: int| 0 <= k < j ==> !has_bit(valid_moves81, #[trigger] order[k] as int),
            first_in_order(order, valid_moves81, 0) < 81,
            has_bit(valid_moves81, order[first_in_order(order, valid_moves81, 0)] as int),
            valid_moves81 == spec_valid_moves(state.p_boards, state.locked_squares, state.last_move),
        decreases 81 - j,
    {
        let c = indices[j];
        let m: u128 = 1u128 << (c as u32);
        assert((valid_moves81 & m > 0) == has_bit(valid_moves81, c as int)) by {
            assert(((valid_moves81 & (1u128 << (c as u32))) > 0) == ((valid_moves81 >> ((c as u32) as u128)) & 1u128 == 1u128))
                by (bit_vector)
                requires
                    c < 81,
            ;
        }
        if valid_moves81 & m > 0 {
            proof {
                lemma_first_in_order(order, valid_moves81, 0, j as int);
                lemma_first_in_order(order, valid_moves81, 0, first_in_order(order, valid_moves81, 0));
                lemma_bit_moves_contains(valid_moves81, 81, c as int);
                let f = first_in_order(order, valid_moves81, 0);
                assert(f == j);
                assert(m == 1u128 << (order[f] as u32));
                assert(player_moves(*state).contains(m));
            }
            return (state.active_player, m);
        }
        j += 1;
    }
    proof {
        let f = first_in_order(order, valid_moves81, 0);
        lemma_first_in_order(order, valid_moves81, 0, f);
    }
    (state.active_player, 0)
}

proof fn lemma_bit_moves_contains(v: u128, n: int, c: int)
    requires
        0 <= c < n <= 128,
        has_bit(v, c),
    ensures
        bit_moves(v, n).contains(1u128 << (c as u32)),
    decreases n,
{
    if c < n - 1 {
        lemma_bit_moves_contains(v, n - 1, c);
        if has_bit(v, n - 1) {
            assert(bit_moves(v, n) == bit_moves(v, n - 1).push(1u128 << ((n - 1) as u32)));
            vstd::seq_lib::lemma_seq_contains_after_push(bit_moves(v, n - 1), 1u128 << ((n - 1) as u32), 1u128 << (c as u32));
        }
    } else {
        assert(bit_moves(v, n) == bit_moves(v, n - 1).push(1u128 << ((n - 1) as u32)));
        assert(bit_moves(v, n)[bit_moves(v, n).len() - 1] == 1u128 << (c as u32));
    }
}

proof fn lemma_no_bits_from(v: u128, i: u32)
    requires
        i <= 81,
        forall|c: int| 0 <= c < 81 ==> !has_bit(v, c),
    ensures
        v & (0x1ffffffffffffffffffffu128 >> i) == v & (0x1ffffffffffffffffffffu128 >> 81u32),
    decreases 81 - i,
{
    if i < 81 {
        let k: u32 = (80 - i) as u32;
        assert(!has_bit(v, k as int));
        assert((v >> (k as u128)) == (v >> k)) by (bit_vector)
            requires
                k < 81,
        ;
        lemma_drop_top_bit(v, i);
        lemma_no_bits_from(v, (i + 1) as u32);
    }
}

proof fn lemma_some_valid_bit(v: u128)
    requires
        v != 0,
        v & 0x1ffffffffffffffffffffu128 == v,
    ensures
        exists|c: int| 0 <= c < 81 && has_bit(v, c),
{
    if forall|c: int| 0 <= c < 81 ==> !has_bit(v, c) {
        lemma_no_bits_from(v, 0);
        assert(v & (0x1ffffffffffffffffffffu128 >> 0u32) == v & 0x1ffffffffffffffffffffu128) by (bit_vector);
        assert(v & (0x1ffffffffffffffffffffu128 >> 81u32) == 0) by (bit_vector);
    }
}

proof fn lemma_valid_within_cells(p_boards: [u128; 2], locked_squares: u128, last_move: u128)
    ensures
        spec_valid_moves(p_boards, locked_squares, last_move) & 0x1ffffffffffffffffffffu128 == spec_valid_moves(
            p_boards,
            locked_squares,
            last_move,
        ),
{
    let x = !(p_boards[0] | p_boards[1] | locked_squares);
    assert((x & 0x1ffffffffffffffffffffu128) & 0x1ffffffffffffffffffffu128 == x & 0x1ffffffffffffffffffffu128)
        by (bit_vector);
    assert(forall|n: u128| ((x & 0x1ffffffffffffffffffffu128) & n) & 0x1ffffffffffffffffffffu128 == (x
        & 0x1ffffffffffffffffffffu128) & n) by (bit_vector);
}


/// What a player knows of a referee's game: all of it but the result of
/// the last move.
pub open spec fn state_of(g: TicTacToeGame) -> State {
    State {
        p_boards: g.p_boards,
        p_squares: g.p_squares,
        locked_squares: g.locked_squares,
        active: g.active,
        active_player: g.active_player,
        turn: g.turn,
        last_move: g.last_move,
        winners: g.winners,
    }
}

/// A player's simulation follows the referee: when the player to move
/// takes a cell it may take, updating what a player knows of the game gives
/// what it knows of the game the referee goes on with.
pub proof fn law_simulation_follows_referee(g: TicTacToeGame, row: int, col: int)
    requires
        g.wf(),
        0 <= row < 9,
        0 <= col < 9,
        spec_valid_moves(g.p_boards, g.locked_squares, g.last_move) & (1u128 << (cell_bit(row, col) as u32)) != 0,
    ensures
        spec_update_state(state_of(g), g.active_player, 1u128 << (cell_bit(row, col) as u32)) == state_of(
            g.spec_play_cell(row, col),
        ),
{
    lemma_cell_position(row, col);
    let b = cell_bit(row, col) as u32;
    lemma_cell_move_bit(1u128 << b, b);
    let s1 = spec_update_state(state_of(g), g.active_player, 1u128 << b);
    let s2 = state_of(g.spec_play_cell(row, col));
    assert(s1.p_boards =~= s2.p_boards);
    assert(s1.p_squares =~= s2.p_squares);
}

/// A line `row col` of two numbers (the other player's last move, `-1 -1`
/// before any).
pub open spec fn spec_move_line(line: Seq<char>) -> Option<(i32, i32)> {
    match (line_field(line, 0, i32::MIN as int, i32::MAX as int), line_field(line, 1, i32::MIN as int, i32::MAX as int)) {
        (Some(r), Some(c)) => Some((r as i32, c as i32)),
        _ => None,
    }
}

pub fn move_line(line: &str) -> (r: Option<(i32, i32)>)
    ensures
        r == spec_move_line(line@),
{
    let cs = crate::text::str_chars(line);
    match (
        read_field(cs.as_slice(), 0, i32::MIN as i64, i32::MAX as i64),
        read_field(cs.as_slice(), 1, i32::MIN as i64, i32::MAX as i64),
    ) {
        (Some(r), Some(c)) => Some((r as i32, c as i32)),
        _ => None,
    }
}

/// A line `row col` of a cell the player may take.
pub open spec fn spec_action_line(line: Seq<char>) -> Option<(u8, u8)> {
    match (line_field(line, 0, 0, 255), line_field(line, 1, 0, 255)) {
        (Some(r), Some(c)) => Some((r as u8, c as u8)),
        _ => None,
    }
}

pub fn action_line(line: &str) -> (r: Option<(u8, u8)>)
    ensures
        r == spec_action_line(line@),
{
    let cs = crate::text::str_chars(line);
    match (read_field(cs.as_slice(), 0, 0, 255), read_field(cs.as_slice(), 1, 0, 255)) {
        (Some(r), Some(c)) => Some((r as u8, c as u8)),
        _ => None,
    }
}

/// What the player makes of the other player's last move, given its own
/// and the other player's ids: `-1` as the row means that there was none
/// and that the player moves first, as player 0; else the move is played
/// for the other player.
pub fn take_opponent_move(state: &mut State, pids: (u8, u8), opponent: (i32, i32)) -> (r: (u8, u8))
    requires
        opponent.0 != -1 ==> {
            &&& 0 <= opponent.0 < 9
            &&& 0 <= opponent.1 < 9
            &&& old(state).wf()
            &&& pids.1 < 2
            &&& old(state).turn < 255
        },
    ensures
        opponent.0 == -1 ==> r == (0u8, 1u8) && *final(state) == *old(state),
        opponent.0 != -1 ==> r == pids && *final(state) == spec_update_state(
            *old(state),
            pids.1,
            1u128 << (cell_bit(opponent.0 as int, opponent.1 as int) as u32),
        ),
{
    if opponent.0 == -1 {
        (0, 1)
    } else {
        let m = movetuple_to_move81((opponent.0 as u8, opponent.1 as u8));
        update_state(state, pids.1, m);
        pids
    }
}

} // verus!
