//! The rules of the forest game: shadows, sun points and the moves a
//! player can make.
use vstd::prelude::*;
use crate::wood_spirit::cache::{Cache, SoilRichness, Tree, size, tree_size, shadow_list, walk, is_cell, lemma_walk_on_board, lemma_reach_cells, reach, seedable};

verus! {

/// A move of the forest game.
#[derive(Clone, Copy, PartialEq, Eq, Debug, Structural)]
pub enum Move {
    /// Grow the tree on a cell by one size.
    GROW(u8),
    /// Cut the large tree on a cell down for points.
    COMPLETE(u8),
    /// Drop a seed from the tree on the first cell onto the second.
    SEED(u8, u8),
    /// Sleep until the next day.
    WAIT,
}

/// A tree on the board.
#[derive(Clone, Copy, PartialEq, Eq, Debug, Structural)]
pub struct Cell {
    pub player: u8,
    pub tree: Tree,
    /// A dormant tree cannot act again this day.
    pub is_dormant: bool,
}

/// What the referee keeps of a player.
#[derive(Clone, Copy, PartialEq, Eq, Debug, Structural)]
pub struct Player {
    /// The move played this turn, if any.
    pub move_: Option<Move>,
    pub sun: u32,
    pub score: u32,
    pub seed_count: u8,
    pub small_tree_count: u8,
    pub medium_tree_count: u8,
    pub large_tree_count: u8,
    /// The player has waited and sleeps until the next day.
    pub is_asleep: bool,
}

/// The soil of a cell at the start: rich in the centre, poorer outwards.
pub open spec fn initial_soil(i: int) -> SoilRichness {
    if i <= 6 {
        SoilRichness::HIGH_QUALITY
    } else if i <= 18 {
        SoilRichness::MEDIUM_QUALITY
    } else {
        SoilRichness::LOW_QUALITY
    }
}

pub fn get_initial_soil_richness() -> (r: [SoilRichness; 37])
    ensures
        forall|i: int| 0 <= i < 37 ==> #[trigger] r[i] == initial_soil(i),
{
    let mut soil_richness: [SoilRichness; 37] = [SoilRichness::UNUSABLE; 37];
    let mut i: usize = 0;
    while i < 37
        invariant
            i <= 37,
            forall|j: int| 0 <= j < i ==> #[trigger] soil_richness[j] == initial_soil(j),
        decreases 37 - i,
    {
        soil_richness[i] = if i <= 6 {
            SoilRichness::HIGH_QUALITY
        } else if i <= 18 {
            SoilRichness::MEDIUM_QUALITY
        } else {
            SoilRichness::LOW_QUALITY
        };
        i += 1;
    }
    soil_richness
}

/// The tree on cell `q` shades cell `p` on day `day`.
pub open spec fn shades(board: Seq<Option<Cell>>, day: int, q: int, p: int) -> bool {
    board[q] matches Some(c) && c.tree != Tree::SEED && shadow_list(q, day % 6, size(c.tree) as nat).contains(
        p as usize,
    )
}

/// Some tree shades cell `p` on day `day`.
pub open spec fn is_shadowed(board: Seq<Option<Cell>>, day: int, p: int) -> bool {
    exists|q: int| 0 <= q < 37 && #[trigger] shades(board, day, q, p)
}

/// The tree on `p` is shaded by a tree at least as large: it gives no sun.
pub open spec fn spooks(board: Seq<Option<Cell>>, day: int, q: int, p: int) -> bool {
    &&& shades(board, day, q, p)
    &&& dwarfs(board, board[q]->0.tree, p)
}

/// The tree on `p`, if any, is no larger than a tree `t`.
pub open spec fn dwarfs(board: Seq<Option<Cell>>, t: Tree, p: int) -> bool {
    board[p] matches Some(s) && size(t) >= size(s.tree)
}

pub open spec fn is_spookied(board: Seq<Option<Cell>>, day: int, p: int) -> bool {
    exists|q: int| 0 <= q < 37 && #[trigger] spooks(board, day, q, p)
}

pub proof fn lemma_shadow_list_cells(c: int, d: int, s: nat)
    requires
        is_cell(c),
        0 <= d < 6,
    ensures
        forall|k: int| 0 <= k < shadow_list(c, d, s).len() ==> #[trigger] shadow_list(c, d, s)[k] < 37,
    decreases s,
{
    if s > 0 {
        lemma_shadow_list_cells(c, d, (s - 1) as nat);
        lemma_walk_on_board(c, d, s);
        let rest = shadow_list(c, d, (s - 1) as nat);
        if let Some(n) = walk(c, d, s) {
            assert(shadow_list(c, d, s) == rest.push(n as usize));
            assert forall|k: int| 0 <= k < shadow_list(c, d, s).len() implies #[trigger] shadow_list(c, d, s)[k] < 37 by {
                if k < rest.len() {
                    assert(shadow_list(c, d, s)[k] == rest[k]);
                }
            }
        }
    }
}

/// Each cell shaded by some tree on day `day`.
pub fn get_shadowed_cells(board: &[Option<Cell>; 37], day: u8, cache: &Cache) -> (r: [bool; 37])
    ensures
        forall|p: int| 0 <= p < 37 ==> #[trigger] r[p] == is_shadowed(board@, day as int, p),
{
    let mut all_shadowed_cells = [false; 37];
    let mut q: usize = 0;
    while q < 37
        invariant
            q <= 37,
            forall|p: int| 0 <= p < 37 ==> #[trigger] all_shadowed_cells[p] == exists|x: int| 0 <= x < q && #[trigger] shades(board@, day as int, x, p),
        decreases 37 - q,
    {
        if let Some(c) = board[q] {
            if c.tree != Tree::SEED {
                let shadowed = cache.get_shadowed_cells(q, c.tree, day as usize);
                proof {
                    lemma_shadow_list_cells(q as int, (day % 6) as int, size(c.tree) as nat);
                }
                let ghost before = all_shadowed_cells@;
                let mut k: usize = 0;
                while k < shadowed.len()
                    invariant
                        q < 37,
                        k <= shadowed@.len(),
                        board[q as int] == Some(c),
                        c.tree != Tree::SEED,
                        shadowed@ == shadow_list(q as int, (day % 6) as int, size(c.tree) as nat),
                        forall|j: int| 0 <= j < shadowed@.len() ==> #[trigger] shadowed@[j] < 37,
                        forall|p: int| 0 <= p < 37 ==> #[trigger] before[p] == exists|x: int| 0 <= x < q && #[trigger] shades(board@, day as int, x, p),
                        forall|p: int| 0 <= p < 37 ==> #[trigger] all_shadowed_cells[p] == (before[p] || shadowed@.take(k as int).contains(p as usize)),
                    decreases shadowed@.len() - k,
                {
                    let pos = shadowed[k];
                    all_shadowed_cells[pos] = true;
                    assert forall|p: int| 0 <= p < 37 implies #[trigger] all_shadowed_cells[p] == (before[p] || shadowed@.take(k + 1).contains(p as usize)) by {
                        assert(shadowed@.take(k + 1) == shadowed@.take(k as int).push(pos));
                        vstd::seq_lib::lemma_seq_contains_after_push(shadowed@.take(k as int), pos, p as usize);
                    }
                    k += 1;
                }
                assert(shadowed@.take(shadowed@.len() as int) == shadowed@);
                assert forall|p: int| 0 <= p < 37 implies #[trigger] all_shadowed_cells[p] == exists|x: int| 0 <= x < q + 1 && #[trigger] shades(board@, day as int, x, p) by {
                    if shades(board@, day as int, q as int, p) {
                        assert(all_shadowed_cells[p]);
                    }
                }
            } else {
                assert forall|p: int| 0 <= p < 37 implies #[trigger] all_shadowed_cells[p] == exists|x: int| 0 <= x < q + 1 && #[trigger] shades(board@, day as int, x, p) by {
                    assert(!shades(board@, day as int, q as int, p));
                }
            }
        } else {
            assert forall|p: int| 0 <= p < 37 implies #[trigger] all_shadowed_cells[p] == exists|x: int| 0 <= x < q + 1 && #[trigger] shades(board@, day as int, x, p) by {
                assert(!shades(board@, day as int, q as int, p));
            }
        }
        q += 1;
    }
    all_shadowed_cells
}

/// Cells holding a tree shaded by a tree at least as large on day `day`.
pub fn get_spookied_cells(board: &[Option<Cell>; 37], day: u8, cache: &Cache) -> (r: [bool; 37])
    ensures
        forall|p: int| 0 <= p < 37 ==> #[trigger] r[p] == is_spookied(board@, day as int, p),
{
    let mut spookied_cells = [false; 37];
    let mut q: usize = 0;
    while q < 37
        invariant
            q <= 37,
            forall|p: int| 0 <= p < 37 ==> #[trigger] spookied_cells[p] == exists|x: int| 0 <= x < q && #[trigger] spooks(board@, day as int, x, p),
        decreases 37 - q,
    {
        if let Some(c) = board[q] {
            if c.tree != Tree::SEED {
                let shadowed = cache.get_shadowed_cells(q, c.tree, day as usize);
                proof {
                    lemma_shadow_list_cells(q as int, (day % 6) as int, size(c.tree) as nat);
                }
                let ghost before = spookied_cells@;
                let mut k: usize = 0;
                while k < shadowed.len()
                    invariant
                        q < 37,
                        k <= shadowed@.len(),
                        board[q as int] == Some(c),
                        c.tree != Tree::SEED,
                        shadowed@ == shadow_list(q as int, (day % 6) as int, size(c.tree) as nat),
                        forall|j: int| 0 <= j < shadowed@.len() ==> #[trigger] shadowed@[j] < 37,
                        forall|p: int| 0 <= p < 37 ==> #[trigger] before[p] == exists|x: int| 0 <= x < q && #[trigger] spooks(board@, day as int, x, p),
                        forall|p: int| 0 <= p < 37 ==> #[trigger] spookied_cells[p] == (before[p] || (shadowed@.take(k as int).contains(p as usize)
                            && dwarfs(board@, c.tree, p))),
                    decreases shadowed@.len() - k,
                {
                    let pos = shadowed[k];
                    if let Some(shadowed_cell) = board[pos] {
                        if tree_size(c.tree) >= tree_size(shadowed_cell.tree) {
                            spookied_cells[pos] = true;
                        }
                    }
                    assert forall|p: int| 0 <= p < 37 implies #[trigger] spookied_cells[p] == (before[p] || (shadowed@.take(k + 1).contains(p as usize)
                        && dwarfs(board@, c.tree, p))) by {
                        assert(shadowed@.take(k + 1) == shadowed@.take(k as int).push(pos));
                        vstd::seq_lib::lemma_seq_contains_after_push(shadowed@.take(k as int), pos, p as usize);
                    }
                    k += 1;
                }
                assert(shadowed@.take(shadowed@.len() as int) == shadowed@);
                assert forall|p: int| 0 <= p < 37 implies #[trigger] spookied_cells[p] == exists|x: int| 0 <= x < q + 1 && #[trigger] spooks(board@, day as int, x, p) by {
                    if spooks(board@, day as int, q as int, p) {
                        assert(spookied_cells[p]);
                    }
                }
            } else {
                assert forall|p: int| 0 <= p < 37 implies #[trigger] spookied_cells[p] == exists|x: int| 0 <= x < q + 1 && #[trigger] spooks(board@, day as int, x, p) by {
                    assert(!spooks(board@, day as int, q as int, p));
                }
            }
        } else {
            assert forall|p: int| 0 <= p < 37 implies #[trigger] spookied_cells[p] == exists|x: int| 0 <= x < q + 1 && #[trigger] spooks(board@, day as int, x, p) by {
                assert(!spooks(board@, day as int, q as int, p));
            }
        }
        q += 1;
    }
    spookied_cells
}

/// Every tree on the board belongs to player 0 or 1.
pub open spec fn owners_ok(board: Seq<Option<Cell>>) -> bool {
    forall|p: int| 0 <= p < board.len() ==> (#[trigger] board[p] matches Some(c) ==> c.player < 2)
}

/// The sun the trees of player `pid` on the first `n` cells collect: each
/// tree not spookied gives its size.
pub open spec fn sun_from(board: Seq<Option<Cell>>, spookied: Seq<bool>, pid: int, n: int) -> int
    decreases n,
{
    if n <= 0 {
        0
    } else {
        sun_from(board, spookied, pid, n - 1) + match board[n - 1] {
            Some(c) => if c.player == pid && !spookied[n - 1] {
                size(c.tree)
            } else {
                0
            },
            None => 0,
        }
    }
}

/// The sun points each player's trees collect.
pub fn gained_sun_points(board: &[Option<Cell>; 37], spookied_cells: &[bool; 37]) -> (r: [u32; 2])
    requires
        owners_ok(board@),
    ensures
        r[0] == sun_from(board@, spookied_cells@, 0, 37),
        r[1] == sun_from(board@, spookied_cells@, 1, 37),
{
    let mut gained: [u32; 2] = [0, 0];
    let mut cell_pos: usize = 0;
    while cell_pos < 37
        invariant
            cell_pos <= 37,
            owners_ok(board@),
            gained[0] == sun_from(board@, spookied_cells@, 0, cell_pos as int),
            gained[1] == sun_from(board@, spookied_cells@, 1, cell_pos as int),
            gained[0] <= 3 * cell_pos,
            gained[1] <= 3 * cell_pos,
        decreases 37 - cell_pos,
    {
        if let Some(c) = board[cell_pos] {
            if spookied_cells[cell_pos] == false {
                assert(board@[cell_pos as int] == Some(c));
                let pid = c.player as usize;
                gained[pid] = gained[pid] + tree_size(c.tree) as u32;
            }
        }
        cell_pos += 1;
    }
    gained
}

/// The seeds the tree on `pos` can drop onto the free cells of `nbrs`.
pub open spec fn seed_moves(pos: int, nbrs: Seq<usize>, board: Seq<Option<Cell>>) -> Seq<Move>
    decreases nbrs.len(),
{
    if nbrs.len() == 0 {
        Seq::empty()
    } else {
        let rest = seed_moves(pos, nbrs.drop_last(), board);
        if board[nbrs.last() as int] is None {
            rest.push(Move::SEED(pos as u8, nbrs.last() as u8))
        } else {
            rest
        }
    }
}

/// The moves the player `pid` can make with its tree on cell `pos`, if any:
/// grow it if it has the sun, complete it if large, and drop seeds on free
/// cells if it has as much sun as it has seeds.
pub open spec fn cell_moves(
    board: Seq<Option<Cell>>,
    pos: int,
    pid: u8,
    sun: u32,
    seed_count: u8,
    small: u8,
    medium: u8,
    large: u8,
    cache: Cache,
) -> Seq<Move> {
    match board[pos] {
        Some(c) => if c.player == pid && !c.is_dormant {
            let seeds = if sun >= seed_count && c.tree != Tree::SEED {
                seed_moves(pos, cache.seedable_at(pos, size(c.tree)), board)
            } else {
                Seq::empty()
            };
            match c.tree {
                Tree::SEED => if sun >= 1 + small {
                    seq![Move::GROW(pos as u8)]
                } else {
                    Seq::empty()
                },
                Tree::SMALL_TREE => (if sun >= 3 + medium {
                    seq![Move::GROW(pos as u8)]
                } else {
                    Seq::empty()
                }) + seeds,
                Tree::MEDIUM_TREE => (if sun >= 7 + large {
                    seq![Move::GROW(pos as u8)]
                } else {
                    Seq::empty()
                }) + seeds,
                Tree::LARGE_TREE => (if sun >= 4 {
                    seq![Move::COMPLETE(pos as u8)]
                } else {
                    Seq::empty()
                }) + seeds,
            }
        } else {
            Seq::empty()
        },
        None => Seq::empty(),
    }
}

/// The moves of the trees on the first `n` cells, cell after cell.
pub open spec fn board_moves(
    board: Seq<Option<Cell>>,
    n: int,
    pid: u8,
    sun: u32,
    seed_count: u8,
    small: u8,
    medium: u8,
    large: u8,
    cache: Cache,
) -> Seq<Move>
    decreases n,
{
    if n <= 0 {
        Seq::empty()
    } else {
        board_moves(board, n - 1, pid, sun, seed_count, small, medium, large, cache) + cell_moves(
            board,
            n - 1,
            pid,
            sun,
            seed_count,
            small,
            medium,
            large,
            cache,
        )
    }
}

/// The moves of a player: none when asleep, else the moves of its trees,
/// cell after cell, then WAIT.
pub open spec fn spec_valid_moves(
    board: Seq<Option<Cell>>,
    pid: u8,
    sun: u32,
    seed_count: u8,
    small: u8,
    medium: u8,
    large: u8,
    asleep: bool,
    cache: Cache,
) -> Seq<Move> {
    if asleep {
        Seq::empty()
    } else {
        board_moves(board, 37, pid, sun, seed_count, small, medium, large, cache).push(Move::WAIT)
    }
}

fn push_seed_moves(moves: &mut Vec<Move>, pos: usize, nbrs: &[usize], board: &[Option<Cell>; 37])
    requires
        pos < 37,
        forall|j: int| 0 <= j < nbrs@.len() ==> #[trigger] nbrs@[j] < 37,
    ensures
        final(moves)@ == old(moves)@ + seed_moves(pos as int, nbrs@, board@),
{
    let ghost start = old(moves)@;
    let mut k: usize = 0;
    while k < nbrs.len()
        invariant
            pos < 37,
            k <= nbrs@.len(),
            forall|j: int| 0 <= j < nbrs@.len() ==> #[trigger] nbrs@[j] < 37,
            moves@ == start + seed_moves(pos as int, nbrs@.take(k as int), board@),
        decreases nbrs@.len() - k,
    {
        let neighbor = nbrs[k];
        assert(nbrs@.take(k + 1).drop_last() == nbrs@.take(k as int));
        assert(nbrs@.take(k + 1).last() == neighbor);
        if board[neighbor].is_none() {
            moves.push(Move::SEED(pos as u8, neighbor as u8));
        }
        k += 1;
    }
    assert(nbrs@.take(nbrs@.len() as int) == nbrs@);
}

/// The valid moves of player `p_id` (see `spec_valid_moves`).
pub fn valid_moves(
    board: &[Option<Cell>; 37],
    p_id: u8,
    p_sun: u32,
    p_seed_count: u8,
    p_small_tree_count: u8,
    p_medium_tree_count: u8,
    p_large_tree_count: u8,
    p_is_asleep: bool,
    cache: &Cache,
) -> (moves: Vec<Move>)
    ensures
        moves@ == spec_valid_moves(
            board@,
            p_id,
            p_sun,
            p_seed_count,
            p_small_tree_count,
            p_medium_tree_count,
            p_large_tree_count,
            p_is_asleep,
            *cache,
        ),
{
    let mut valid_moves: Vec<Move> = Vec::new();
    if p_is_asleep {
        return valid_moves;
    }
    let mut cell_pos: usize = 0;
    while cell_pos < 37
        invariant
            cell_pos <= 37,
            valid_moves@ == board_moves(
                board@,
                cell_pos as int,
                p_id,
                p_sun,
                p_seed_count,
                p_small_tree_count,
                p_medium_tree_count,
                p_large_tree_count,
                *cache,
            ),
        decreases 37 - cell_pos,
    {
        let ghost before = valid_moves@;
        if let Some(c) = board[cell_pos] {
            if c.player == p_id && !c.is_dormant {
                if c.tree == Tree::SEED {
                    if p_sun >= 1 + p_small_tree_count as u32 {
                        valid_moves.push(Move::GROW(cell_pos as u8));
                    }
                } else {
                    if c.tree == Tree::SMALL_TREE {
                        if p_sun >= 3 + p_medium_tree_count as u32 {
                            valid_moves.push(Move::GROW(cell_pos as u8));
                        }
                    } else if c.tree == Tree::MEDIUM_TREE {
                        if p_sun >= 7 + p_large_tree_count as u32 {
                            valid_moves.push(Move::GROW(cell_pos as u8));
                        }
                    } else {
                        if p_sun >= 4 {
                            valid_moves.push(Move::COMPLETE(cell_pos as u8));
                        }
                    }
                    let ghost mid = valid_moves@;
                    if p_sun >= p_seed_count as u32 {
                        let nbrs = cache.get_seedable_neighbors(cell_pos, c.tree);
                        proof {
                            assert forall|j: int| 0 <= j < nbrs@.len() implies #[trigger] nbrs@[j] < 37 by {
                                assert(nbrs@.contains(nbrs@[j]));
                                let n = nbrs@[j] as int;
                                assert(seedable(cell_pos as int, size(c.tree), cache.soil()).contains(n));
                                let k = choose|k: nat| 1 <= k <= size(c.tree) && #[trigger] reach(cell_pos as int, k).contains(n);
                                lemma_reach_cells(cell_pos as int, k);
                            }
                        }
                        push_seed_moves(&mut valid_moves, cell_pos, nbrs, board);
                    }
                    assert(valid_moves@ == mid + (if p_sun >= p_seed_count {
                        seed_moves(cell_pos as int, cache.seedable_at(cell_pos as int, size(c.tree)), board@)
                    } else {
                        Seq::empty()
                    }));
                }
            }
        }
        assert(valid_moves@ =~= before + cell_moves(
            board@,
            cell_pos as int,
            p_id,
            p_sun,
            p_seed_count,
            p_small_tree_count,
            p_medium_tree_count,
            p_large_tree_count,
            *cache,
        ));
        cell_pos += 1;
    }
    valid_moves.push(Move::WAIT);
    valid_moves
}

} // verus!
