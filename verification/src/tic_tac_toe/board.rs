//! The 81-cell board of ultimate tic-tac-toe, one bit per cell.
//!
//! Cell `(row, col)` (both in `0..9`) lies in the small square
//! `(row / 3, col / 3)`. Its position is `9 * square + inner` where
//! `square = 3 * (row / 3) + col / 3` and `inner = 3 * (row % 3) + col % 3`,
//! and it is stored in bit `80 - position`: the first cell is the most
//! significant of the 81 bits.
use vstd::prelude::*;

verus! {

/// The 81 low bits, one per cell.
pub const ALL_CELLS: u128 = 0x1ffffffffffffffffffffu128;

/// The nine cells of the bottom-right small square.
pub const SQUARE_BITS: u128 = 0x1ffu128;

/// Bit `b` of `x` is set.
pub open spec fn has_bit(x: u128, b: int) -> bool {
    0 <= b < 128 && (x >> (b as u128)) & 1u128 == 1u128
}

/// The cell at position `p` is set in `x`.
pub open spec fn has_position(x: u128, p: int) -> bool {
    has_bit(x, 80 - p)
}

pub open spec fn position_of(row: int, col: int) -> int {
    9 * (3 * (row / 3) + col / 3) + 3 * (row % 3) + col % 3
}

/// The bit of cell `(row, col)`.
pub open spec fn cell_bit(row: int, col: int) -> int {
    80 - position_of(row, col)
}

/// The cell at a position.
pub open spec fn cell_of_position(p: int) -> (int, int) {
    (3 * ((p / 9) / 3) + (p % 9) / 3, 3 * ((p / 9) % 3) + (p % 9) % 3)
}

/// The first position at or after `i` that is set in `m` (81 if none).
pub open spec fn first_position_from(m: u128, i: int) -> int
    decreases 81 - i,
{
    if i >= 81 {
        81
    } else if has_position(m, i) {
        i
    } else {
        first_position_from(m, i + 1)
    }
}

/// The cell of the first set position of `m`.
pub open spec fn spec_move81_to_movetuple(m: u128) -> (u8, u8) {
    let c = cell_of_position(first_position_from(m, 0));
    (c.0 as u8, c.1 as u8)
}

/// The single-bit value of cell `t`.
pub open spec fn spec_movetuple_to_move81(t: (u8, u8)) -> u128 {
    1u128 << (cell_bit(t.0 as int, t.1 as int) as u32)
}

/// A value with exactly one bit set, that of a cell.
pub open spec fn is_cell_move(m: u128) -> bool {
    exists|b: u32| b < 81 && m == 1u128 << b
}

/// The mask of the small square `k` (counted from the bottom-right one, 0,
/// to the top-left one, 8).
pub open spec fn square_mask(k: int) -> u128 {
    SQUARE_BITS << ((9 * k) as u128)
}

/// One of the 9 small-square masks.
pub open spec fn is_square_mask(s: u128) -> bool {
    exists|k: u32| k < 9 && s == square_mask(k as int)
}

/// The eight lines of a 3x3 grid, the first cell in the most significant bit.
pub open spec fn line(j: int) -> u128 {
    if j == 0 {
        0b111000000u128
    } else if j == 1 {
        0b000111000u128
    } else if j == 2 {
        0b000000111u128
    } else if j == 3 {
        0b100100100u128
    } else if j == 4 {
        0b010010010u128
    } else if j == 5 {
        0b001001001u128
    } else if j == 6 {
        0b100010001u128
    } else {
        0b001010100u128
    }
}

/// The board holds a full line of small square `k`.
pub open spec fn holds_line_in_square(board: u128, k: int) -> bool {
    exists|j: int|
        0 <= j < 8 && #[trigger] (board & (line(j) << ((9 * k) as u128))) == line(j) << ((9
            * k) as u128)
}

/// The eight lines of small squares of the whole board.
pub open spec fn board_line(j: int) -> u128 {
    if j == 0 {
        0b111111111_111111111_111111111_000000000_000000000_000000000_000000000_000000000_000000000u128
    } else if j == 1 {
        0b000000000_000000000_000000000_111111111_111111111_111111111_000000000_000000000_000000000u128
    } else if j == 2 {
        0b000000000_000000000_000000000_000000000_000000000_000000000_111111111_111111111_111111111u128
    } else if j == 3 {
        0b111111111_000000000_000000000_111111111_000000000_000000000_111111111_000000000_000000000u128
    } else if j == 4 {
        0b000000000_111111111_000000000_000000000_111111111_000000000_000000000_111111111_000000000u128
    } else if j == 5 {
        0b000000000_000000000_111111111_000000000_000000000_111111111_000000000_000000000_111111111u128
    } else if j == 6 {
        0b111111111_000000000_000000000_000000000_111111111_000000000_000000000_000000000_111111111u128
    } else {
        0b000000000_000000000_111111111_000000000_111111111_000000000_111111111_000000000_000000000u128
    }
}

/// The won squares form a line of squares.
pub open spec fn holds_board_line(squares: u128) -> bool {
    exists|j: int| 0 <= j < 8 && #[trigger] (squares & board_line(j)) == board_line(j)
}

/// The cells of the set bits of `moves`, taken in position order among the
/// first `n` positions.
pub open spec fn cells_of(moves: u128, n: int) -> Seq<(u8, u8)>
    decreases n,
{
    if n <= 0 {
        Seq::empty()
    } else {
        let rest = cells_of(moves, n - 1);
        if has_position(moves, n - 1) {
            let c = cell_of_position(n - 1);
            rest.push((c.0 as u8, c.1 as u8))
        } else {
            rest
        }
    }
}

pub proof fn lemma_single_bit(b: u32, c: u32)
    requires
        b < 128,
        c < 128,
    ensures
        ((1u128 << b) >> c) & 1u128 == 1u128 <==> b == c,
{
    assert(((1u128 << b) >> c) & 1u128 == 1u128 <==> b == c) by (bit_vector)
        requires
            b < 128,
            c < 128,
    ;
}

pub proof fn lemma_cell_position(row: int, col: int)
    requires
        0 <= row < 9,
        0 <= col < 9,
    ensures
        0 <= position_of(row, col) < 81,
        cell_of_position(position_of(row, col)) == (row, col),
{
    let a = row / 3;
    let b = row % 3;
    let d = col / 3;
    let e = col % 3;
    let p = 9 * (3 * a + d) + (3 * b + e);
    vstd::arithmetic::div_mod::lemma_fundamental_div_mod_converse(p, 9, 3 * a + d, 3 * b + e);
    vstd::arithmetic::div_mod::lemma_fundamental_div_mod_converse(3 * a + d, 3, a, d);
    vstd::arithmetic::div_mod::lemma_fundamental_div_mod_converse(3 * b + e, 3, b, e);
}

pub(crate) proof fn lemma_drop_top_bit(x: u128, i: u32)
    requires
        i < 81,
        (x >> ((80 - i) as u32)) & 1u128 != 1u128,
    ensures
        x & (0x1ffffffffffffffffffffu128 >> i) == x & (0x1ffffffffffffffffffffu128 >> ((i + 1) as u32)),
{
    assert(x & (0x1ffffffffffffffffffffu128 >> i) == x & (0x1ffffffffffffffffffffu128 >> ((i + 1) as u32)))
        by (bit_vector)
        requires
            i < 81,
            (x >> ((80 - i) as u32)) & 1u128 != 1u128,
    ;
}

/// The bit of the cell `(row, col)`.
pub fn movetuple_to_move81(move_: (u8, u8)) -> (m: u128)
    requires
        move_.0 < 9,
        move_.1 < 9,
    ensures
        m == 1u128 << (cell_bit(move_.0 as int, move_.1 as int) as u32),
        0 <= cell_bit(move_.0 as int, move_.1 as int) < 81,
        is_cell_move(m),
{
    let (r, c) = (move_.0 % 3, move_.1 % 3);
    let (sq_r, sq_c) = (move_.0 / 3, move_.1 / 3);
    let shift: u32 = (((2 - sq_r) * 3 + (2 - sq_c)) * 9 + ((2 - r) * 3 + (2 - c))) as u32;
    assert(shift == cell_bit(move_.0 as int, move_.1 as int));
    1u128 << shift
}

/// The cell of the most significant of the 81 cell bits that is set.
pub fn move81_to_movetuple(move_: u128) -> (t: (u8, u8))
    requires
        move_ & ALL_CELLS != 0,
    ensures
        t == spec_move81_to_movetuple(move_),
        first_position_from(move_, 0) < 81,
{
    let mut i: u32 = 0;
    assert(ALL_CELLS >> 0u32 == ALL_CELLS) by (bit_vector);
    while i < 81
        invariant
            i <= 81,
            first_position_from(move_, 0) == first_position_from(move_, i as int),
            move_ & (ALL_CELLS >> i) == move_ & ALL_CELLS,
            move_ & ALL_CELLS != 0,
        decreases 81 - i,
    {
        if (move_ >> (80 - i)) & 1 == 1 {
            let p = i;
            let sq = p / 9;
            let inner = p % 9;
            let t = ((3 * (sq / 3) + inner / 3) as u8, (3 * (sq % 3) + inner % 3) as u8);
            assert(has_position(move_, p as int));
            return t;
        }
        proof {
            lemma_drop_top_bit(move_, i);
        }
        i += 1;
    }
    assert(move_ & (0x1ffffffffffffffffffffu128 >> 81u32) == 0) by (bit_vector);
    (0, 0)
}

proof fn lemma_first_position_single(b: u32, i: int)
    requires
        b < 81,
        0 <= i <= 80 - b,
    ensures
        first_position_from(1u128 << b, i) == 80 - b,
    decreases 81 - i,
{
    lemma_single_bit(b, (80 - i) as u32);
    if i < 80 - b {
        lemma_first_position_single(b, i + 1);
    }
}

/// Reading back the cell of the bit of a cell gives that cell.
pub proof fn law_move_tuple_roundtrip(t: (u8, u8))
    requires
        t.0 < 9,
        t.1 < 9,
    ensures
        spec_move81_to_movetuple(spec_movetuple_to_move81(t)) == t,
{
    lemma_cell_position(t.0 as int, t.1 as int);
    lemma_first_position_single(cell_bit(t.0 as int, t.1 as int) as u32, 0);
}

/// The bit of the cell read from a single cell bit is that bit.
pub proof fn law_move_bit_roundtrip(b: u32)
    requires
        b < 81,
    ensures
        spec_movetuple_to_move81(spec_move81_to_movetuple(1u128 << b)) == 1u128 << b,
        spec_move81_to_movetuple(1u128 << b).0 < 9,
        spec_move81_to_movetuple(1u128 << b).1 < 9,
{
    lemma_first_position_single(b, 0);
    let p = 80 - b;
    let c = cell_of_position(p);
    assert(0 <= c.0 < 9 && 0 <= c.1 < 9);
    let a = p / 9;
    let e = p % 9;
    vstd::arithmetic::div_mod::lemma_fundamental_div_mod_converse(a, 3, a / 3, a % 3);
    vstd::arithmetic::div_mod::lemma_fundamental_div_mod_converse(e, 3, e / 3, e % 3);
    lemma_cell_position_inverse(p);
}

proof fn lemma_cell_position_inverse(p: int)
    requires
        0 <= p < 81,
    ensures
        0 <= cell_of_position(p).0 < 9,
        0 <= cell_of_position(p).1 < 9,
        position_of(cell_of_position(p).0, cell_of_position(p).1) == p,
{
    let a = p / 9;
    let e = p % 9;
    let row = 3 * (a / 3) + e / 3;
    let col = 3 * (a % 3) + e % 3;
    vstd::arithmetic::div_mod::lemma_fundamental_div_mod_converse(row, 3, a / 3, e / 3);
    vstd::arithmetic::div_mod::lemma_fundamental_div_mod_converse(col, 3, a % 3, e % 3);
}

/// `x` is the cell at position `p`, whose bit is set in `moves`.
pub open spec fn cell_from(moves: u128, x: (u8, u8), p: int) -> bool {
    &&& 0 <= p
    &&& has_position(moves, p)
    &&& x == (cell_of_position(p).0 as u8, cell_of_position(p).1 as u8)
}

/// `x` is the cell of some position below `n` whose bit is set in `moves`.
pub open spec fn from_position_below(moves: u128, x: (u8, u8), n: int) -> bool {
    exists|p: int| p < n && #[trigger] cell_from(moves, x, p)
}

proof fn lemma_cells_of_members(moves: u128, n: int)
    requires
        0 <= n <= 81,
    ensures
        cells_of(moves, n).no_duplicates(),
        forall|k: int| 0 <= k < cells_of(moves, n).len() ==> from_position_below(moves, #[trigger] cells_of(moves, n)[k], n),
        forall|p: int| 0 <= p < n && has_position(moves, p) ==> cells_of(moves, n).contains(
            (cell_of_position(p).0 as u8, cell_of_position(p).1 as u8),
        ),
    decreases n,
{
    if n > 0 {
        lemma_cells_of_members(moves, n - 1);
        let rest = cells_of(moves, n - 1);
        let c = cell_of_position(n - 1);
        let cc = (c.0 as u8, c.1 as u8);
        lemma_cell_position_inverse(n - 1);
        if has_position(moves, n - 1) {
            assert(cells_of(moves, n) == rest.push(cc));
            assert forall|k: int| 0 <= k < rest.len() implies rest[k] != cc by {
                let p = choose|p: int| p < n - 1 && #[trigger] cell_from(moves, rest[k], p);
                lemma_cell_position_inverse(p);
            }
            assert(rest.push(cc)[rest.len() as int] == cc);
            assert forall|p: int| 0 <= p < n && has_position(moves, p) implies cells_of(moves, n).contains(
                (cell_of_position(p).0 as u8, cell_of_position(p).1 as u8),
            ) by {
                if p < n - 1 {
                    let k = choose|k: int| 0 <= k < rest.len() && rest[k] == (cell_of_position(p).0 as u8, cell_of_position(p).1 as u8);
                    assert(rest.push(cc)[k] == rest[k]);
                }
            }
            assert forall|k: int| 0 <= k < cells_of(moves, n).len() implies from_position_below(moves, #[trigger] cells_of(moves, n)[k], n) by {
                if k < rest.len() {
                    assert(cells_of(moves, n)[k] == rest[k]);
                    let p = choose|p: int| p < n - 1 && #[trigger] cell_from(moves, rest[k], p);
                    assert(cell_from(moves, cells_of(moves, n)[k], p));
                } else {
                    assert(cells_of(moves, n)[k] == cc);
                    assert(cell_from(moves, cells_of(moves, n)[k], n - 1));
                }
            }
        } else {
            assert(cells_of(moves, n) == rest);
            assert forall|k: int| 0 <= k < cells_of(moves, n).len() implies from_position_below(moves, #[trigger] cells_of(moves, n)[k], n) by {
                let p = choose|p: int| p < n - 1 && #[trigger] cell_from(moves, rest[k], p);
                assert(cell_from(moves, cells_of(moves, n)[k], p));
            }
        }
    } else {
        assert(cells_of(moves, n) =~= Seq::<(u8, u8)>::empty());
    }
}

/// The cells that `moves81_to_movetuples` lists are exactly those whose
/// bit is set, each once.
pub proof fn law_cells_are_the_set_bits(moves: u128, row: u8, col: u8)
    requires
        row < 9,
        col < 9,
    ensures
        cells_of(moves, 81).no_duplicates(),
        cells_of(moves, 81).contains((row, col)) <==> has_bit(moves, cell_bit(row as int, col as int)),
{
    lemma_cells_of_members(moves, 81);
    lemma_cell_position(row as int, col as int);
    let p = position_of(row as int, col as int);
    assert((cell_of_position(p).0 as u8, cell_of_position(p).1 as u8) == (row, col));
    assert(has_bit(moves, cell_bit(row as int, col as int)) == has_position(moves, p));
    if cells_of(moves, 81).contains((row, col)) {
        let k = choose|k: int| 0 <= k < cells_of(moves, 81).len() && cells_of(moves, 81)[k] == (row, col);
        let q = choose|q: int| q < 81 && #[trigger] cell_from(moves, cells_of(moves, 81)[k], q);
        lemma_cell_position_inverse(q);
        assert(q == p);
    }
}

/// Cell `(r, c)` of small square `k` (rows and columns 0 to 2 from the
/// square's top-left cell) is held on `board`.
pub open spec fn holds_cell(board: u128, k: int, r: int, c: int) -> bool {
    has_bit(board, 9 * k + 8 - (3 * r + c))
}

/// Three cells in a line of small square `k` are held: a whole row, a
/// whole column, or one of the two diagonals.
pub open spec fn holds_three_in_line(board: u128, k: int) -> bool {
    ||| exists|r: int| 0 <= r < 3 && #[trigger] holds_cell(board, k, r, 0) && holds_cell(board, k, r, 1) && holds_cell(board, k, r, 2)
    ||| exists|c: int| 0 <= c < 3 && #[trigger] holds_cell(board, k, 0, c) && holds_cell(board, k, 1, c) && holds_cell(board, k, 2, c)
    ||| holds_cell(board, k, 0, 0) && holds_cell(board, k, 1, 1) && holds_cell(board, k, 2, 2)
    ||| holds_cell(board, k, 0, 2) && holds_cell(board, k, 1, 1) && holds_cell(board, k, 2, 0)
}

proof fn lemma_line_masks() by (bit_vector)
    ensures
        0b111000000u128 == (1u128 << 8u128) | (1u128 << 7u128) | (1u128 << 6u128),
        0b000111000u128 == (1u128 << 5u128) | (1u128 << 4u128) | (1u128 << 3u128),
        0b000000111u128 == (1u128 << 2u128) | (1u128 << 1u128) | (1u128 << 0u128),
        0b100100100u128 == (1u128 << 8u128) | (1u128 << 5u128) | (1u128 << 2u128),
        0b010010010u128 == (1u128 << 7u128) | (1u128 << 4u128) | (1u128 << 1u128),
        0b001001001u128 == (1u128 << 6u128) | (1u128 << 3u128) | (1u128 << 0u128),
        0b100010001u128 == (1u128 << 8u128) | (1u128 << 4u128) | (1u128 << 0u128),
        0b001010100u128 == (1u128 << 6u128) | (1u128 << 4u128) | (1u128 << 2u128),
{
}

proof fn lemma_three_bits_in_square(x: u128, s: u128, a: u128, b: u128, c: u128, sa: u128, sb: u128, sc: u128) by (bit_vector)
    requires
        s <= 72,
        a < 9,
        b < 9,
        c < 9,
        sa == s + a,
        sb == s + b,
        sc == s + c,
    ensures
        ((x & (((1u128 << a) | (1u128 << b) | (1u128 << c)) << s)) == (((1u128 << a) | (1u128 << b) | (1u128 << c)) << s))
            == ((x >> sa) & 1u128 == 1u128 && (x >> sb) & 1u128 == 1u128 && (x >> sc) & 1u128 == 1u128),
{
}

/// A player wins a small square exactly when he holds three cells in a
/// line of it: one of its three rows, three columns or two diagonals.
pub proof fn law_square_won_by_a_line(board: u128, k: int)
    requires
        0 <= k < 9,
    ensures
        holds_line_in_square(board, k) <==> holds_three_in_line(board, k),
{
    let sh = (9 * k) as u128;
    lemma_line_masks();
    lemma_three_bits_in_square(board, sh, 8u128, 7u128, 6u128, (sh + 8) as u128, (sh + 7) as u128, (sh + 6) as u128);
    assert(line(0) == (1u128 << 8u128) | (1u128 << 7u128) | (1u128 << 6u128));
    assert(((board & (line(0) << sh)) == line(0) << sh) == (holds_cell(board, k, 0, 0) && holds_cell(board, k, 0, 1) && holds_cell(board, k, 0, 2)));
    lemma_three_bits_in_square(board, sh, 5u128, 4u128, 3u128, (sh + 5) as u128, (sh + 4) as u128, (sh + 3) as u128);
    assert(line(1) == (1u128 << 5u128) | (1u128 << 4u128) | (1u128 << 3u128));
    assert(((board & (line(1) << sh)) == line(1) << sh) == (holds_cell(board, k, 1, 0) && holds_cell(board, k, 1, 1) && holds_cell(board, k, 1, 2)));
    lemma_three_bits_in_square(board, sh, 2u128, 1u128, 0u128, (sh + 2) as u128, (sh + 1) as u128, (sh + 0) as u128);
    assert(line(2) == (1u128 << 2u128) | (1u128 << 1u128) | (1u128 << 0u128));
    assert(((board & (line(2) << sh)) == line(2) << sh) == (holds_cell(board, k, 2, 0) && holds_cell(board, k, 2, 1) && holds_cell(board, k, 2, 2)));
    lemma_three_bits_in_square(board, sh, 8u128, 5u128, 2u128, (sh + 8) as u128, (sh + 5) as u128, (sh + 2) as u128);
    assert(line(3) == (1u128 << 8u128) | (1u128 << 5u128) | (1u128 << 2u128));
    assert(((board & (line(3) << sh)) == line(3) << sh) == (holds_cell(board, k, 0, 0) && holds_cell(board, k, 1, 0) && holds_cell(board, k, 2, 0)));
    lemma_three_bits_in_square(board, sh, 7u128, 4u128, 1u128, (sh + 7) as u128, (sh + 4) as u128, (sh + 1) as u128);
    assert(line(4) == (1u128 << 7u128) | (1u128 << 4u128) | (1u128 << 1u128));
    assert(((board & (line(4) << sh)) == line(4) << sh) == (holds_cell(board, k, 0, 1) && holds_cell(board, k, 1, 1) && holds_cell(board, k, 2, 1)));
    lemma_three_bits_in_square(board, sh, 6u128, 3u128, 0u128, (sh + 6) as u128, (sh + 3) as u128, (sh + 0) as u128);
    assert(line(5) == (1u128 << 6u128) | (1u128 << 3u128) | (1u128 << 0u128));
    assert(((board & (line(5) << sh)) == line(5) << sh) == (holds_cell(board, k, 0, 2) && holds_cell(board, k, 1, 2) && holds_cell(board, k, 2, 2)));
    lemma_three_bits_in_square(board, sh, 8u128, 4u128, 0u128, (sh + 8) as u128, (sh + 4) as u128, (sh + 0) as u128);
    assert(line(6) == (1u128 << 8u128) | (1u128 << 4u128) | (1u128 << 0u128));
    assert(((board & (line(6) << sh)) == line(6) << sh) == (holds_cell(board, k, 0, 0) && holds_cell(board, k, 1, 1) && holds_cell(board, k, 2, 2)));
    lemma_three_bits_in_square(board, sh, 6u128, 4u128, 2u128, (sh + 6) as u128, (sh + 4) as u128, (sh + 2) as u128);
    assert(line(7) == (1u128 << 6u128) | (1u128 << 4u128) | (1u128 << 2u128));
    assert(((board & (line(7) << sh)) == line(7) << sh) == (holds_cell(board, k, 0, 2) && holds_cell(board, k, 1, 1) && holds_cell(board, k, 2, 0)));
    if holds_line_in_square(board, k) {
        let j = choose|j: int| 0 <= j < 8 && #[trigger] (board & (line(j) << ((9 * k) as u128))) == line(j) << ((9 * k) as u128);
        if j == 0 { assert(holds_cell(board, k, 0, 0)); }
        else if j == 1 { assert(holds_cell(board, k, 1, 0)); }
        else if j == 2 { assert(holds_cell(board, k, 2, 0)); }
        else if j == 3 { assert(holds_cell(board, k, 0, 0)); }
        else if j == 4 { assert(holds_cell(board, k, 0, 1)); }
        else if j == 5 { assert(holds_cell(board, k, 0, 2)); }
    }
    if holds_three_in_line(board, k) {
        if exists|r: int| 0 <= r < 3 && #[trigger] holds_cell(board, k, r, 0) && holds_cell(board, k, r, 1) && holds_cell(board, k, r, 2) {
            let r = choose|r: int| 0 <= r < 3 && #[trigger] holds_cell(board, k, r, 0) && holds_cell(board, k, r, 1) && holds_cell(board, k, r, 2);
            assert((board & (line(r) << sh)) == line(r) << sh);
        } else if exists|c: int| 0 <= c < 3 && #[trigger] holds_cell(board, k, 0, c) && holds_cell(board, k, 1, c) && holds_cell(board, k, 2, c) {
            let c = choose|c: int| 0 <= c < 3 && #[trigger] holds_cell(board, k, 0, c) && holds_cell(board, k, 1, c) && holds_cell(board, k, 2, c);
            assert((board & (line(3 + c) << sh)) == line(3 + c) << sh);
        } else if holds_cell(board, k, 0, 0) && holds_cell(board, k, 1, 1) && holds_cell(board, k, 2, 2) {
            assert((board & (line(6) << sh)) == line(6) << sh);
        } else {
            assert((board & (line(7) << sh)) == line(7) << sh);
        }
    }
}

/// The cells of all the set cell bits, in position order.
pub fn moves81_to_movetuples(moves: u128) -> (cells: Vec<(u8, u8)>)
    ensures
        cells@ == cells_of(moves, 81),
{
    let mut valid_moves: Vec<(u8, u8)> = Vec::new();
    let mut i: u32 = 0;
    while i < 81
        invariant
            i <= 81,
            valid_moves@ == cells_of(moves, i as int),
        decreases 81 - i,
    {
        if (moves >> (80 - i)) & 1 == 1 {
            let sq = i / 9;
            let inner = i % 9;
            valid_moves.push(((3 * (sq / 3) + inner / 3) as u8, (3 * (sq % 3) + inner % 3) as u8));
        }
        i += 1;
    }
    valid_moves
}

/// The index of the set bit of a cell move.
pub(crate) fn cell_move_bit(m: u128) -> (b: u32)
    requires
        is_cell_move(m),
    ensures
        b < 81,
        m == 1u128 << b,
{
    let mut k: u32 = 0;
    while k < 81
        invariant
            k <= 81,
            forall|j: u32| j < k ==> m != 1u128 << j,
            is_cell_move(m),
        decreases 81 - k,
    {
        if m == 1u128 << k {
            return k;
        }
        k += 1;
    }
    assert(false);
    0
}

/// The mask of the small square that holds the cell of `move_`.
pub fn square_of_move81(move_: u128) -> (s: u128)
    requires
        is_cell_move(move_),
    ensures
        forall|b: u32| b < 81 && move_ == 1u128 << b ==> s == square_mask((b / 9) as int),
        is_square_mask(s),
{
    let b = cell_move_bit(move_);
    proof {
        assert forall|c: u32| c < 81 && move_ == 1u128 << c implies c == b by {
            lemma_single_bit(b, c);
            lemma_single_bit(c, c);
        }
    }
    let s = SQUARE_BITS << (9 * (b / 9));
    assert(s == square_mask((b / 9) as int));
    s
}

/// The mask of the small square that the cell of `move_` points to: the
/// square at the same place in the board as the cell in its own square.
pub fn square_pointed_by_move81(move_: u128) -> (s: u128)
    requires
        is_cell_move(move_),
    ensures
        forall|b: u32| b < 81 && move_ == 1u128 << b ==> s == square_mask((b % 9) as int),
        is_square_mask(s),
{
    let b = cell_move_bit(move_);
    proof {
        assert forall|c: u32| c < 81 && move_ == 1u128 << c implies c == b by {
            lemma_single_bit(b, c);
            lemma_single_bit(c, c);
        }
    }
    let s = SQUARE_BITS << (9 * (b % 9));
    assert(s == square_mask((b % 9) as int));
    s
}

/// The free cells that the next move may take. After the first move, the
/// move must be in the square that the last move points to, unless that
/// square is locked (won or full).
pub fn valid_moves(p_boards: &[u128; 2], locked_squares: u128, last_move: u128) -> (v: u128)
    requires
        last_move == 0 || is_cell_move(last_move),
    ensures
        v == spec_valid_moves(*p_boards, locked_squares, last_move),
{
    let valid_moves = (!(p_boards[0] | p_boards[1] | locked_squares)) & ALL_CELLS;
    if last_move == 0 {
        valid_moves
    } else {
        let next_square = square_pointed_by_move81(last_move);
        proof {
            let b = choose|b: u32| b < 81 && last_move == 1u128 << b;
            lemma_cell_move_bit(last_move, b);
        }
        if next_square & locked_squares == 0 {
            valid_moves & next_square
        } else {
            valid_moves
        }
    }
}

fn square_index(square81: u128) -> (k: u32)
    requires
        is_square_mask(square81),
    ensures
        k < 9,
        square81 == square_mask(k as int),
{
    let mut k: u32 = 0;
    while k < 9
        invariant
            k <= 9,
            is_square_mask(square81),
            forall|j: u32| j < k ==> square81 != square_mask(j as int),
        decreases 9 - k,
    {
        if square81 == SQUARE_BITS << (9 * k) {
            return k;
        }
        k += 1;
    }
    assert(false);
    0
}

fn line_bits(j: usize) -> (l: u128)
    requires
        j < 8,
    ensures
        l == line(j as int),
{
    if j == 0 {
        0b111000000u128
    } else if j == 1 {
        0b000111000u128
    } else if j == 2 {
        0b000000111u128
    } else if j == 3 {
        0b100100100u128
    } else if j == 4 {
        0b010010010u128
    } else if j == 5 {
        0b001001001u128
    } else if j == 6 {
        0b100010001u128
    } else {
        0b001010100u128
    }
}

/// The board holds a full line of three cells in the given small square.
pub fn won_the_square(p_board81: u128, square81: u128) -> (won: bool)
    requires
        is_square_mask(square81),
    ensures
        forall|k: u32| k < 9 && square81 == square_mask(k as int) ==> (won == holds_line_in_square(p_board81, k as int)),
{
    let k = square_index(square81);
    proof {
        assert forall|k2: u32| k2 < 9 && square81 == square_mask(k2 as int) implies k2 == k by {
            assert(square_mask(k2 as int) == square_mask(k as int) ==> k2 == k) by (bit_vector)
                requires
                    k2 < 9,
                    k < 9,
            ;
        }
    }
    let mut j: usize = 0;
    while j < 8
        invariant
            j <= 8,
            k < 9,
            square81 == square_mask(k as int),
            forall|k2: u32| k2 < 9 && square81 == square_mask(k2 as int) ==> k2 == k,
            forall|i: int| 0 <= i < j ==> (p_board81 & (line(i) << ((9 * k) as u128))) != line(i) << ((9 * k) as u128),
        decreases 8 - j,
    {
        let wc = line_bits(j) << (9 * k);
        if p_board81 & wc == wc {
            assert((p_board81 & (line(j as int) << ((9 * k) as u128))) == line(j as int) << ((9 * k) as u128));
            return true;
        }
        j += 1;
    }
    false
}

fn board_line_bits(j: usize) -> (l: u128)
    requires
        j < 8,
    ensures
        l == board_line(j as int),
{
    if j == 0 {
        0b111111111_111111111_111111111_000000000_000000000_000000000_000000000_000000000_000000000u128
    } else if j == 1 {
        0b000000000_000000000_000000000_111111111_111111111_111111111_000000000_000000000_000000000u128
    } else if j == 2 {
        0b000000000_000000000_000000000_000000000_000000000_000000000_111111111_111111111_111111111u128
    } else if j == 3 {
        0b111111111_000000000_000000000_111111111_000000000_000000000_111111111_000000000_000000000u128
    } else if j == 4 {
        0b000000000_111111111_000000000_000000000_111111111_000000000_000000000_111111111_000000000u128
    } else if j == 5 {
        0b000000000_000000000_111111111_000000000_000000000_111111111_000000000_000000000_111111111u128
    } else if j == 6 {
        0b111111111_000000000_000000000_000000000_111111111_000000000_000000000_000000000_111111111u128
    } else {
        0b000000000_000000000_111111111_000000000_111111111_000000000_111111111_000000000_000000000u128
    }
}

/// The won squares form a line of three squares.
pub fn won_the_board(p_squares81: u128) -> (won: bool)
    ensures
        won == holds_board_line(p_squares81),
{
    let mut j: usize = 0;
    while j < 8
        invariant
            j <= 8,
            forall|i: int| 0 <= i < j ==> (p_squares81 & board_line(i)) != board_line(i),
        decreases 8 - j,
    {
        let wc = board_line_bits(j);
        if p_squares81 & wc == wc {
            return true;
        }
        j += 1;
    }
    false
}

/// The board as a 9x9 grid of flags, indexed by row then column.
pub fn to_vector(board: u128) -> (grid: Vec<Vec<bool>>)
    ensures
        grid@.len() == 9,
        forall|r: int| 0 <= r < 9 ==> #[trigger] grid@[r]@.len() == 9,
        forall|r: int, c: int|
            0 <= r < 9 && 0 <= c < 9 ==> #[trigger] grid@[r]@[c] == has_bit(board, cell_bit(r, c)),
{
    let mut grid: Vec<Vec<bool>> = Vec::new();
    let mut r: usize = 0;
    while r < 9
        invariant
            r <= 9,
            grid@.len() == r,
            forall|i: int| 0 <= i < r ==> #[trigger] grid@[i]@.len() == 9,
            forall|i: int, c: int|
                0 <= i < r && 0 <= c < 9 ==> #[trigger] grid@[i]@[c] == has_bit(board, cell_bit(i, c)),
        decreases 9 - r,
    {
        let mut row: Vec<bool> = Vec::new();
        let mut c: usize = 0;
        while c < 9
            invariant
                r < 9,
                c <= 9,
                row@.len() == c,
                forall|j: int| 0 <= j < c ==> #[trigger] row@[j] == has_bit(board, cell_bit(r as int, j)),
            decreases 9 - c,
        {
            let bit: u32 = (80 - (9 * (3 * (r / 3) + c / 3) + 3 * (r % 3) + c % 3)) as u32;
            assert(bit == cell_bit(r as int, c as int));
            row.push((board >> bit) & 1 == 1);
            c += 1;
        }
        grid.push(row);
        r += 1;
    }
    grid
}

} // verus!

verus! {

/// The number of set bits of `x` among its `n` low bits.
pub open spec fn bit_count(x: u128, n: int) -> int
    decreases n,
{
    if n <= 0 {
        0
    } else {
        bit_count(x, n - 1) + if has_bit(x, n - 1) {
            1int
        } else {
            0
        }
    }
}

/// The number of set bits of `x` (`u128::count_ones`).
pub fn count_ones(x: u128) -> (n: u32)
    ensures
        n == bit_count(x, 128),
{
    let mut n: u32 = 0;
    let mut b: u32 = 0;
    while b < 128
        invariant
            b <= 128,
            n == bit_count(x, b as int),
            n <= b,
        decreases 128 - b,
    {
        if (x >> b) & 1 == 1 {
            n += 1;
        }
        b += 1;
    }
    n
}

/// The free cells that may be played (see `valid_moves`).
pub open spec fn spec_valid_moves(p_boards: [u128; 2], locked_squares: u128, last_move: u128) -> u128 {
    let free = !(p_boards[0] | p_boards[1] | locked_squares) & ALL_CELLS;
    if last_move == 0 {
        free
    } else {
        let b = 80 - first_position_from(last_move, 0);
        let next = square_mask(b % 9);
        if next & locked_squares == 0 {
            free & next
        } else {
            free
        }
    }
}

pub proof fn lemma_cell_move_bit(m: u128, b: u32)
    requires
        b < 81,
        m == 1u128 << b,
    ensures
        80 - first_position_from(m, 0) == b,
        m & ALL_CELLS != 0,
{
    lemma_first_position_single(b, 0);
    assert((1u128 << b) & 0x1ffffffffffffffffffffu128 != 0) by (bit_vector)
        requires
            b < 81,
    ;
}

} // verus!
