//! The referee of the forest game.
use vstd::prelude::*;
use crate::game::{Game, Message, WinLossTie, contains_false, invalid_move_status, invalid_move_statuses, lines_of};
use crate::wood_spirit::cache::{Cache, SoilRichness, Tree, size, tree_size};
use crate::wood_spirit::protocol::{spec_parse_move, parse_move, move_text};
use crate::wood_spirit::messages::{bit, cell_line, tree_lines, push_cell_lines, push_tree_lines, push_move_lines};
use crate::text::{decimal, push_char, push_u64, u64_to_string};
use crate::wood_spirit::rules::{
    Cell, Move, Player, get_spookied_cells, gained_sun_points, is_spookied, owners_ok, spec_valid_moves,
    sun_from, valid_moves,
};

verus! {

pub struct WoodSpiritGame {
    pub board: [Option<Cell>; 37],
    pub players: [Player; 2],
    pub nutrient: u8,
    pub day: u8,
    pub turn_during_day: u8,
    pub turn: u8,
    pub active: bool,
    pub active_player: u8,
    pub winners: Option<(WinLossTie, WinLossTie)>,
    /// The board geometry of this game.
    pub cache: Cache,
}

/// The game as the rules see it (the geometry aside).
#[verifier::ext_equal]
pub struct ForestModel {
    pub board: Seq<Option<Cell>>,
    pub players: Seq<Player>,
    pub nutrient: u8,
    pub day: u8,
    pub turn_during_day: u8,
    pub turn: u8,
    pub active: bool,
    pub active_player: u8,
    pub winners: Option<(WinLossTie, WinLossTie)>,
}

impl View for WoodSpiritGame {
    type V = ForestModel;

    open spec fn view(&self) -> ForestModel {
        ForestModel {
            board: self.board@,
            players: self.players@,
            nutrient: self.nutrient,
            day: self.day,
            turn_during_day: self.turn_during_day,
            turn: self.turn,
            active: self.active,
            active_player: self.active_player,
            winners: self.winners,
        }
    }
}

/// The sun a player's trees collect on day `day`: each tree that no
/// larger-or-equal tree shades gives its size.
pub open spec fn day_sun(board: Seq<Option<Cell>>, day: int, pid: int) -> int {
    sun_from(board, Seq::new(37, |p: int| is_spookied(board, day, p)), pid, 37)
}

/// The points the soil of a completed tree's cell adds.
pub open spec fn soil_bonus(s: SoilRichness) -> int {
    match s {
        SoilRichness::UNUSABLE => 0,
        SoilRichness::LOW_QUALITY => 0,
        SoilRichness::MEDIUM_QUALITY => 2,
        SoilRichness::HIGH_QUALITY => 4,
    }
}

pub open spec fn dormant(c: Cell) -> Cell {
    Cell { is_dormant: true, ..c }
}

pub open spec fn next_size(t: Tree) -> Tree {
    match t {
        Tree::SEED => Tree::SMALL_TREE,
        Tree::SMALL_TREE => Tree::MEDIUM_TREE,
        _ => Tree::LARGE_TREE,
    }
}

/// The other player seeds the same cell: both seeds are lost.
pub open spec fn clashes(other: Option<Move>, cell: u8) -> bool {
    other matches Some(Move::SEED(_, c)) && c == cell
}

/// A player's move played on `board`, while the other player plays `other`:
/// the board, the player and the number of trees completed after it.
pub open spec fn apply_one(
    board: Seq<Option<Cell>>,
    nutrient: u8,
    soil: Seq<SoilRichness>,
    p: Player,
    pid: u8,
    other: Option<Move>,
) -> (Seq<Option<Cell>>, Player, int) {
    let done = Player { move_: None, ..p };
    if p.is_asleep {
        (board, done, 0)
    } else {
        match p.move_ {
            Some(Move::SEED(t, s)) => {
                let b = board.update(t as int, Some(dormant(board[t as int]->0)));
                if clashes(other, s) {
                    (b, done, 0)
                } else {
                    (
                        b.update(s as int, Some(Cell { player: pid, tree: Tree::SEED, is_dormant: true })),
                        Player { sun: (p.sun - p.seed_count) as u32, seed_count: (p.seed_count + 1) as u8, ..done },
                        0,
                    )
                }
            },
            Some(Move::GROW(c)) => {
                let cell = board[c as int]->0;
                let b = board.update(c as int, Some(Cell { tree: next_size(cell.tree), is_dormant: true, ..cell }));
                match cell.tree {
                    Tree::SEED => (b, Player {
                        sun: (p.sun - 1 - p.small_tree_count) as u32,
                        seed_count: (p.seed_count - 1) as u8,
                        small_tree_count: (p.small_tree_count + 1) as u8,
                        ..done
                    }, 0),
                    Tree::SMALL_TREE => (b, Player {
                        sun: (p.sun - 3 - p.medium_tree_count) as u32,
                        small_tree_count: (p.small_tree_count - 1) as u8,
                        medium_tree_count: (p.medium_tree_count + 1) as u8,
                        ..done
                    }, 0),
                    _ => (b, Player {
                        sun: (p.sun - 7 - p.large_tree_count) as u32,
                        medium_tree_count: (p.medium_tree_count - 1) as u8,
                        large_tree_count: (p.large_tree_count + 1) as u8,
                        ..done
                    }, 0),
                }
            },
            Some(Move::COMPLETE(c)) => (board.update(c as int, None), Player {
                sun: (p.sun - 4) as u32,
                score: (p.score + nutrient + soil_bonus(soil[c as int])) as u32,
                large_tree_count: (p.large_tree_count - 1) as u8,
                ..done
            }, 1),
            Some(Move::WAIT) => (board, Player { is_asleep: true, ..done }, 0),
            None => (board, done, 0),
        }
    }
}

/// Completing a tree on cell `c` adds to the player's score the current
/// nutrient plus the soil bonus of `c`: nothing on poor soil, 2 on medium
/// soil, 4 on rich soil. The tree leaves the board and four sun are spent.
pub proof fn law_complete_scores_nutrient_and_soil(
    board: Seq<Option<Cell>>,
    nutrient: u8,
    soil: Seq<SoilRichness>,
    p: Player,
    pid: u8,
    other: Option<Move>,
    c: u8,
)
    requires
        !p.is_asleep,
        p.move_ == Some(Move::COMPLETE(c)),
        c < 37,
        board.len() == 37,
        p.sun >= 4,
        p.score + nutrient + 4 <= u32::MAX,
    ensures
        ({
            let bonus: int = if soil[c as int] == SoilRichness::HIGH_QUALITY {
                4
            } else if soil[c as int] == SoilRichness::MEDIUM_QUALITY {
                2
            } else {
                0
            };
            let after = apply_one(board, nutrient, soil, p, pid, other);
            &&& after.1.score == p.score + nutrient + bonus
            &&& after.1.sun == p.sun - 4
            &&& after.0[c as int] is None
        }),
{
}

/// Growing a tree of size `t` stays in range (and is not a large tree).
pub open spec fn grow_fits(p: Player, t: Tree) -> bool {
    match t {
        Tree::SEED => p.sun >= 1 + p.small_tree_count && p.seed_count >= 1 && p.small_tree_count < 255,
        Tree::SMALL_TREE => p.sun >= 3 + p.medium_tree_count && p.small_tree_count >= 1 && p.medium_tree_count < 255,
        Tree::MEDIUM_TREE => p.sun >= 7 + p.large_tree_count && p.medium_tree_count >= 1 && p.large_tree_count < 255,
        Tree::LARGE_TREE => false,
    }
}

/// The move of a player can be played on `board`: its cells are on the
/// board, hold the trees it acts on, and the counts stay in range.
pub open spec fn one_fits(
    board: Seq<Option<Cell>>,
    nutrient: u8,
    soil: Seq<SoilRichness>,
    p: Player,
    pid: u8,
    other: Option<Move>,
) -> bool {
    p.is_asleep || match p.move_ {
        Some(Move::SEED(t, s)) => {
            &&& t < 37
            &&& s < 37
            &&& board[t as int] is Some
            &&& clashes(other, s) || (p.sun >= p.seed_count && p.seed_count < 255)
        },
        Some(Move::GROW(c)) => {
            &&& c < 37
            &&& board[c as int] is Some
            &&& grow_fits(p, board[c as int]->0.tree)
        },
        Some(Move::COMPLETE(c)) => {
            &&& c < 37
            &&& soil[c as int] != SoilRichness::UNUSABLE
            &&& p.sun >= 4
            &&& p.large_tree_count >= 1
            &&& p.score + nutrient + soil_bonus(soil[c as int]) <= u32::MAX
        },
        Some(Move::WAIT) => true,
        None => false,
    }
}

pub open spec fn with_move(p: Player, m: Move) -> Player {
    Player { move_: Some(m), ..p }
}

/// The number of trees and seeds of both players.
pub open spec fn all_trees(g: ForestModel) -> int {
    let p0 = g.players[0];
    let p1 = g.players[1];
    p0.seed_count + p0.small_tree_count + p0.medium_tree_count + p0.large_tree_count + p1.seed_count
        + p1.small_tree_count + p1.medium_tree_count + p1.large_tree_count
}

/// The input of the active player: at the first turn the board (37 cells
/// with their soil and neighbours); then the day, the nutrient, its sun and
/// score, the other player's sun, score and sleep, the number of trees, the
/// trees, the number of its valid moves and the moves.
pub open spec fn turn_lines(g: ForestModel, cache: Cache) -> Seq<Seq<char>> {
    let me = g.players[g.active_player as int];
    let other = g.players[((g.active_player + 1) % 2) as int];
    let header = if g.turn == 0 {
        seq![decimal(37)] + Seq::new(37, |c: int| cell_line(c, cache.soil()[c]))
    } else {
        Seq::empty()
    };
    let moves = spec_valid_moves(
        g.board,
        g.active_player,
        me.sun,
        me.seed_count,
        me.small_tree_count,
        me.medium_tree_count,
        me.large_tree_count,
        me.is_asleep,
        cache,
    );
    header + seq![
        decimal(g.day as nat),
        decimal(g.nutrient as nat),
        decimal(me.sun as nat) + seq![' '] + decimal(me.score as nat),
        decimal(other.sun as nat) + seq![' '] + decimal(other.score as nat) + seq![' '] + bit(other.is_asleep),
        decimal(all_trees(g) as nat),
    ] + tree_lines(g.board, g.active_player, 37) + seq![decimal(moves.len())] + moves.map_values(
        |m: Move| move_text(m),
    )
}

/// The game with `m` recorded as the move of the active player.
pub open spec fn record(g: ForestModel, m: Move) -> ForestModel {
    ForestModel { players: g.players.update(g.active_player as int, with_move(g.players[g.active_player as int], m)), ..g }
}

/// Every player who is awake has moved.
pub open spec fn both_played(g: ForestModel) -> bool {
    let p0 = g.players[0];
    let p1 = g.players[1];
    ||| p0.move_ is Some && p1.move_ is Some
    ||| p0.move_ is Some && p1.is_asleep
    ||| p0.is_asleep && p1.move_ is Some
}

/// The move of player `pid` is one of its valid moves (a sleeping player
/// has nothing to check).
pub open spec fn move_ok(g: ForestModel, cache: Cache, pid: int) -> bool {
    let p = g.players[pid];
    p.is_asleep || spec_valid_moves(
        g.board,
        pid as u8,
        p.sun,
        p.seed_count,
        p.small_tree_count,
        p.medium_tree_count,
        p.large_tree_count,
        p.is_asleep,
        cache,
    ).contains(p.move_->0)
}

/// Both moves applied, player 0's first, then the nutrient drops by the
/// number of completed trees and the turn counters go up.
pub open spec fn apply_moves(g: ForestModel, cache: Cache) -> ForestModel {
    let soil = cache.soil();
    let r0 = apply_one(g.board, g.nutrient, soil, g.players[0], 0, g.players[1].move_);
    let r1 = apply_one(r0.0, g.nutrient, soil, g.players[1], 1, g.players[0].move_);
    ForestModel {
        board: r1.0,
        players: seq![r0.1, r1.1],
        nutrient: g.nutrient.saturating_sub((r0.2 + r1.2) as u8),
        turn_during_day: (g.turn_during_day + 1) as u8,
        turn: (g.turn + 1) as u8,
        ..g
    }
}

pub open spec fn moves_fit(g: ForestModel, cache: Cache) -> bool {
    let soil = cache.soil();
    let r0 = apply_one(g.board, g.nutrient, soil, g.players[0], 0, g.players[1].move_);
    &&& one_fits(g.board, g.nutrient, soil, g.players[0], 0, g.players[1].move_)
    &&& one_fits(r0.0, g.nutrient, soil, g.players[1], 1, g.players[0].move_)
    &&& g.turn_during_day < 255
    &&& g.turn < 255
}

pub open spec fn awake(o: Option<Cell>) -> Option<Cell> {
    match o {
        Some(c) => Some(Cell { is_dormant: false, ..c }),
        None => None,
    }
}

pub open spec fn woken(p: Player) -> Player {
    Player { move_: None, is_asleep: false, ..p }
}

/// A new day: trees wake up, players wake up, and before day 24 each
/// player collects the sun of its trees.
pub open spec fn next_day(g: ForestModel) -> ForestModel {
    let day = g.day + 1;
    let board = g.board.map_values(|o: Option<Cell>| awake(o));
    let p0 = woken(g.players[0]);
    let p1 = woken(g.players[1]);
    let players = if day < 24 {
        seq![
            Player { sun: (p0.sun + day_sun(board, day, 0)) as u32, ..p0 },
            Player { sun: (p1.sun + day_sun(board, day, 1)) as u32, ..p1 },
        ]
    } else {
        seq![p0, p1]
    };
    ForestModel { board, players, day: day as u8, turn_during_day: 0, active_player: 0, ..g }
}

pub open spec fn day_fits(g: ForestModel) -> bool {
    let day = g.day + 1;
    let board = g.board.map_values(|o: Option<Cell>| awake(o));
    g.players[0].is_asleep && g.players[1].is_asleep ==> {
        &&& day <= 255
        &&& day < 24 ==> g.players[0].sun + day_sun(board, day, 0) <= u32::MAX
        &&& day < 24 ==> g.players[1].sun + day_sun(board, day, 1) <= u32::MAX
    }
}

/// Both asleep: a new day; else the other player plays next unless it
/// sleeps.
pub open spec fn after_moves(g: ForestModel) -> ForestModel {
    if g.players[0].is_asleep && g.players[1].is_asleep {
        next_day(g)
    } else {
        let next = (g.active_player + 1) % 2;
        if !g.players[next].is_asleep {
            ForestModel { active_player: next as u8, ..g }
        } else {
            g
        }
    }
}

pub open spec fn final_points(p: Player) -> int {
    p.score + p.sun / 3
}

pub open spec fn tree_total(p: Player) -> int {
    p.small_tree_count + p.medium_tree_count + p.large_tree_count
}

/// The result at the end: more points wins, then more trees.
pub open spec fn final_statuses(p0: Player, p1: Player) -> (WinLossTie, WinLossTie) {
    if final_points(p0) > final_points(p1) {
        (WinLossTie::Win, WinLossTie::Loss)
    } else if final_points(p0) < final_points(p1) {
        (WinLossTie::Loss, WinLossTie::Win)
    } else if tree_total(p0) > tree_total(p1) {
        (WinLossTie::Win, WinLossTie::Loss)
    } else if tree_total(p0) < tree_total(p1) {
        (WinLossTie::Loss, WinLossTie::Win)
    } else {
        (WinLossTie::Tie, WinLossTie::Tie)
    }
}

/// On day 24 the game ends.
pub open spec fn finish(g: ForestModel) -> ForestModel {
    if g.day == 24 {
        ForestModel { active: false, winners: Some(final_statuses(g.players[0], g.players[1])), ..g }
    } else {
        g
    }
}

pub open spec fn finish_fits(g: ForestModel) -> bool {
    g.day == 24 ==> {
        &&& final_points(g.players[0]) <= u32::MAX
        &&& final_points(g.players[1]) <= u32::MAX
        &&& tree_total(g.players[0]) <= 255
        &&& tree_total(g.players[1]) <= 255
    }
}

/// The game after the active player's move `m`: once every awake player
/// has moved, an invalid move ends the game (its player loses), else both
/// moves are played; then the day or the player to move advances.
pub open spec fn spec_play(g: ForestModel, cache: Cache, m: Move) -> ForestModel {
    let g1 = record(g, m);
    if both_played(g1) {
        let ok0 = move_ok(g1, cache, 0);
        let ok1 = move_ok(g1, cache, 1);
        if !ok0 || !ok1 {
            ForestModel {
                active: false,
                winners: Some((invalid_move_status(ok0), invalid_move_status(ok1))),
                ..g1
            }
        } else {
            finish(after_moves(apply_moves(g1, cache)))
        }
    } else {
        finish(after_moves(g1))
    }
}

/// The arithmetic of `spec_play` stays in range.
pub open spec fn play_fits(g: ForestModel, cache: Cache, m: Move) -> bool {
    let g1 = record(g, m);
    if both_played(g1) {
        move_ok(g1, cache, 0) && move_ok(g1, cache, 1) ==> {
            let g2 = apply_moves(g1, cache);
            &&& moves_fit(g1, cache)
            &&& day_fits(g2)
            &&& finish_fits(after_moves(g2))
        }
    } else {
        &&& day_fits(g1)
        &&& finish_fits(after_moves(g1))
    }
}

/// Plays one player's move (see `apply_one`); returns how many trees it
/// completed.
pub(crate) fn apply_player_move(
    board: &mut [Option<Cell>; 37],
    player: &mut Player,
    pid: u8,
    other: Option<Move>,
    nutrient: u8,
    cache: &Cache,
) -> (completed: u8)
    requires
        pid < 2,
        one_fits(old(board)@, nutrient, cache.soil(), *old(player), pid, other),
    ensures
        ({
            let r = apply_one(old(board)@, nutrient, cache.soil(), *old(player), pid, other);
            &&& final(board)@ == r.0
            &&& *final(player) == r.1
            &&& completed as int == r.2
        }),
        completed <= 1,
{
    let ghost b0 = board@;
    let mut completed: u8 = 0;
    if !player.is_asleep {
        match player.move_ {
            Some(Move::SEED(tree_pos, seed_pos)) => {
                let clash = match other {
                    Some(Move::SEED(_, o_seed_pos)) => o_seed_pos == seed_pos,
                    _ => false,
                };
                if clash {
                    let tree_cell = board[tree_pos as usize].unwrap();
                    board[tree_pos as usize] = Some(Cell { is_dormant: true, ..tree_cell });
                } else {
                    player.sun = player.sun - player.seed_count as u32;
                    player.seed_count = player.seed_count + 1;
                    let tree_cell = board[tree_pos as usize].unwrap();
                    board[tree_pos as usize] = Some(Cell { is_dormant: true, ..tree_cell });
                    board[seed_pos as usize] = Some(Cell { player: pid, tree: Tree::SEED, is_dormant: true });
                }
            },
            Some(Move::GROW(cell_pos)) => {
                let cell = board[cell_pos as usize].unwrap();
                match cell.tree {
                    Tree::SEED => {
                        player.sun = player.sun - (1 + player.small_tree_count as u32);
                        player.seed_count = player.seed_count - 1;
                        player.small_tree_count = player.small_tree_count + 1;
                        board[cell_pos as usize] = Some(Cell { tree: Tree::SMALL_TREE, is_dormant: true, ..cell });
                    },
                    Tree::SMALL_TREE => {
                        player.sun = player.sun - (3 + player.medium_tree_count as u32);
                        player.small_tree_count = player.small_tree_count - 1;
                        player.medium_tree_count = player.medium_tree_count + 1;
                        board[cell_pos as usize] = Some(Cell { tree: Tree::MEDIUM_TREE, is_dormant: true, ..cell });
                    },
                    _ => {
                        player.sun = player.sun - (7 + player.large_tree_count as u32);
                        player.medium_tree_count = player.medium_tree_count - 1;
                        player.large_tree_count = player.large_tree_count + 1;
                        board[cell_pos as usize] = Some(Cell { tree: Tree::LARGE_TREE, is_dormant: true, ..cell });
                    },
                }
            },
            Some(Move::COMPLETE(cell_pos)) => {
                let bonus: u32 = match cache.get_soil_richness(cell_pos as usize) {
                    SoilRichness::LOW_QUALITY => 0,
                    SoilRichness::MEDIUM_QUALITY => 2,
                    _ => 4,
                };
                player.sun = player.sun - 4;
                player.score = player.score + (nutrient as u32 + bonus);
                player.large_tree_count = player.large_tree_count - 1;
                board[cell_pos as usize] = None;
                completed = 1;
            },
            Some(Move::WAIT) => {
                player.is_asleep = true;
            },
            None => {},
        }
    }
    player.move_ = None;
    let ghost r = apply_one(b0, nutrient, cache.soil(), *old(player), pid, other);
    assert(board@ =~= r.0);
    completed
}

pub(crate) proof fn lemma_apply_one_owners(
    board: Seq<Option<Cell>>,
    nutrient: u8,
    soil: Seq<SoilRichness>,
    p: Player,
    pid: u8,
    other: Option<Move>,
)
    requires
        board.len() == 37,
        owners_ok(board),
        pid < 2,
        one_fits(board, nutrient, soil, p, pid, other),
    ensures
        owners_ok(apply_one(board, nutrient, soil, p, pid, other).0),
        apply_one(board, nutrient, soil, p, pid, other).0.len() == 37,
{
    let b = apply_one(board, nutrient, soil, p, pid, other).0;
    assert forall|q: int| 0 <= q < b.len() implies (#[trigger] b[q] matches Some(c) ==> c.player < 2) by {
        assert(board[q] matches Some(c) ==> c.player < 2);
    }
}

impl WoodSpiritGame {
    /// The state the referee can continue from.
    pub open spec fn wf(&self) -> bool {
        &&& owners_ok(self.board@)
        &&& self.active_player < 2
    }

    fn apply_both_moves(&mut self)
        requires
            old(self).wf(),
            moves_fit(old(self)@, old(self).cache),
        ensures
            final(self)@ == apply_moves(old(self)@, old(self).cache),
            final(self).cache == old(self).cache,
            final(self).wf(),
    {
        let ghost g = self@;
        let move0 = self.players[0].move_;
        let move1 = self.players[1].move_;
        proof {
            lemma_apply_one_owners(g.board, g.nutrient, self.cache.soil(), g.players[0], 0, move1);
        }
        let c0 = apply_player_move(&mut self.board, &mut self.players[0], 0, move1, self.nutrient, &self.cache);
        proof {
            lemma_apply_one_owners(self.board@, g.nutrient, self.cache.soil(), g.players[1], 1, move0);
        }
        let c1 = apply_player_move(&mut self.board, &mut self.players[1], 1, move0, self.nutrient, &self.cache);
        self.nutrient = self.nutrient.saturating_sub(c0 + c1);
        self.turn_during_day = self.turn_during_day + 1;
        self.turn = self.turn + 1;
        assert(self@ =~= apply_moves(g, self.cache));
    }

    fn start_next_day(&mut self)
        requires
            old(self).wf(),
            old(self).players[0].is_asleep && old(self).players[1].is_asleep,
            day_fits(old(self)@),
        ensures
            final(self)@ == next_day(old(self)@),
            final(self).cache == old(self).cache,
            final(self).wf(),
    {
        let ghost g = self@;
        self.day = self.day + 1;
        self.turn_during_day = 0;
        self.players[0].move_ = None;
        self.players[1].move_ = None;
        self.players[0].is_asleep = false;
        self.players[1].is_asleep = false;
        self.active_player = 0;
        let mut board = self.board;
        let mut i: usize = 0;
        while i < 37
            invariant
                i <= 37,
                g.board.len() == 37,
                owners_ok(g.board),
                forall|q: int| 0 <= q < i ==> #[trigger] board@[q] == awake(g.board[q]),
                forall|q: int| i <= q < 37 ==> #[trigger] board@[q] == g.board[q],
            decreases 37 - i,
        {
            if let Some(c) = board[i] {
                board[i] = Some(Cell { is_dormant: false, ..c });
            }
            i += 1;
        }
        self.board = board;
        assert(self.board@ =~= g.board.map_values(|o: Option<Cell>| awake(o)));
        assert(owners_ok(self.board@)) by {
            assert forall|q: int| 0 <= q < self.board@.len() implies (#[trigger] self.board@[q] matches Some(c) ==> c.player < 2) by {
                assert(g.board[q] matches Some(c) ==> c.player < 2);
            }
        }
        if self.day < 24 {
            let spookied_cells = get_spookied_cells(&self.board, self.day, &self.cache);
            assert(spookied_cells@ =~= Seq::new(37, |p: int| is_spookied(self.board@, self.day as int, p)));
            let gained = gained_sun_points(&self.board, &spookied_cells);
            self.players[0].sun = self.players[0].sun + gained[0];
            self.players[1].sun = self.players[1].sun + gained[1];
        }
        assert(self@.players =~= next_day(g).players);
        assert(self@ =~= next_day(g));
    }

    fn advance(&mut self)
        requires
            old(self).wf(),
            day_fits(old(self)@),
        ensures
            final(self)@ == after_moves(old(self)@),
            final(self).cache == old(self).cache,
            final(self).wf(),
    {
        if self.players[0].is_asleep && self.players[1].is_asleep {
            self.start_next_day();
        } else {
            let next_player = (self.active_player + 1) % 2;
            if !self.players[next_player as usize].is_asleep {
                self.active_player = next_player;
            }
        }
    }

    fn finish_on_last_day(&mut self)
        requires
            old(self).wf(),
            finish_fits(old(self)@),
        ensures
            final(self)@ == finish(old(self)@),
            final(self).cache == old(self).cache,
            final(self).wf(),
    {
        if self.day == 24 {
            let score0 = self.players[0].score + self.players[0].sun / 3;
            let score1 = self.players[1].score + self.players[1].sun / 3;
            let status = if score0 > score1 {
                (WinLossTie::Win, WinLossTie::Loss)
            } else if score0 < score1 {
                (WinLossTie::Loss, WinLossTie::Win)
            } else {
                let tree_count0 = self.players[0].small_tree_count + self.players[0].medium_tree_count
                    + self.players[0].large_tree_count;
                let tree_count1 = self.players[1].small_tree_count + self.players[1].medium_tree_count
                    + self.players[1].large_tree_count;
                if tree_count0 > tree_count1 {
                    (WinLossTie::Win, WinLossTie::Loss)
                } else if tree_count0 < tree_count1 {
                    (WinLossTie::Loss, WinLossTie::Win)
                } else {
                    (WinLossTie::Tie, WinLossTie::Tie)
                }
            };
            self.end_game(vec![status.0, status.1]);
        }
    }
}

impl Game for WoodSpiritGame {
    open spec fn accepts(&self, msg: Seq<char>) -> bool {
        &&& self.wf()
        &&& spec_parse_move(msg) is Some
        &&& play_fits(self@, self.cache, spec_parse_move(msg)->0)
    }

    open spec fn is_active(&self) -> bool {
        self.active
    }

    open spec fn outcome(&self) -> Option<(WinLossTie, WinLossTie)> {
        self.winners
    }

    /// A new game (see `new_game`).
    fn new() -> (g: Self)
        ensures
            g.wf(),
            starts(g@),
            g@.players == seq![start_player(g@.board, 0, 2), start_player(g@.board, 1, 2)],
            forall|i: int| 0 <= i < 37 ==> (#[trigger] g.board[i] matches Some(c) ==> c == small_tree(c.player) && c.player < 2),
            forall|i: int| 0 <= i < 37 ==> #[trigger] g.cache.soil()[i] == crate::wood_spirit::rules::initial_soil(i)
                || g.cache.soil()[i] == SoilRichness::UNUSABLE,
            random_start(g.board@, g.cache.soil()),
    {
        WoodSpiritGame::new_game()
    }

    /// The input of the active player (see `turn_lines`).
    fn turn(&self) -> (m: Option<Message>)
        ensures
            m is None <==> !self.active,
            m matches Some(msg) ==> self.wf() && all_trees(self@) <= 255 ==> {
                &&& msg.player_id == self.active_player
                &&& lines_of(msg.messages@) == turn_lines(self@, self.cache)
            },
    {
        if !self.active {
            return None;
        }
        let ap = self.active_player;
        if ap >= 2 {
            // the state cannot be continued from: nothing is promised of the message
            return Some(Message { player_id: ap as usize, messages: Vec::new() });
        }
        let me = self.players[ap as usize];
        let other = self.players[((ap + 1) % 2) as usize];
        let count: u32 = me.seed_count as u32 + me.small_tree_count as u32 + me.medium_tree_count as u32
            + me.large_tree_count as u32 + other.seed_count as u32 + other.small_tree_count as u32
            + other.medium_tree_count as u32 + other.large_tree_count as u32;
        if count > 255 {
            // the tree count is sent as a `u8`, which would overflow: nothing is promised of the message
            return Some(Message { player_id: ap as usize, messages: Vec::new() });
        }
        let mut out: Vec<String> = Vec::new();
        if self.turn == 0 {
            let l = u64_to_string(37);
            out.push(l);
            assert(lines_of(out@) =~= seq![decimal(37)]);
            push_cell_lines(&mut out, &self.cache);
        }
        let ghost header = lines_of(out@);
        let l0 = u64_to_string(self.day as u64);
        let l1 = u64_to_string(self.nutrient as u64);
        let mut l2 = String::new();
        push_u64(&mut l2, me.sun as u64);
        push_char(&mut l2, ' ');
        push_u64(&mut l2, me.score as u64);
        assert(l2@ =~= decimal(me.sun as nat) + seq![' '] + decimal(me.score as nat));
        let mut l3 = String::new();
        push_u64(&mut l3, other.sun as u64);
        push_char(&mut l3, ' ');
        push_u64(&mut l3, other.score as u64);
        push_char(&mut l3, ' ');
        push_char(&mut l3, if other.is_asleep { '1' } else { '0' });
        assert(l3@ =~= decimal(other.sun as nat) + seq![' '] + decimal(other.score as nat) + seq![' '] + bit(other.is_asleep));
        let l4 = u64_to_string(count as u64);
        let ghost fixed = seq![l0@, l1@, l2@, l3@, l4@];
        out.push(l0);
        out.push(l1);
        out.push(l2);
        out.push(l3);
        out.push(l4);
        assert(lines_of(out@) =~= header + fixed);
        push_tree_lines(&mut out, &self.board, ap);
        let moves = valid_moves(
            &self.board,
            ap,
            me.sun,
            me.seed_count,
            me.small_tree_count,
            me.medium_tree_count,
            me.large_tree_count,
            me.is_asleep,
            &self.cache,
        );
        let ghost before_count = out@;
        let l5 = u64_to_string(moves.len() as u64);
        out.push(l5);
        assert(lines_of(out@) =~= lines_of(before_count).push(l5@));
        push_move_lines(&mut out, moves.as_slice());
        proof {
            let g = self@;
            assert(me == g.players[g.active_player as int]);
            assert(other == g.players[((g.active_player + 1) % 2) as int]);
            assert(count == all_trees(g));
            if g.turn == 0 {
                assert(header =~= seq![decimal(37)] + Seq::new(37, |c: int| cell_line(c, self.cache.soil()[c])));
            } else {
                assert(header =~= Seq::<Seq<char>>::empty());
            }
        }
        assert(lines_of(out@) =~= turn_lines(self@, self.cache));
        Some(Message { player_id: ap as usize, messages: out })
    }

    /// Records the move of the active player and, once every awake player
    /// has moved, plays the turn (see `spec_play`).
    fn play(&mut self, msg: String)
        ensures
            final(self)@ == spec_play(old(self)@, old(self).cache, spec_parse_move(msg@)->0),
            final(self).cache == old(self).cache,
            final(self).wf(),
    {
        let move_ = parse_move(msg.as_str()).unwrap();
        let ghost g = self@;
        if self.active_player == 0 {
            self.players[0].move_ = Some(move_);
        } else {
            self.players[1].move_ = Some(move_);
        }
        assert(self@ =~= record(g, move_));
        let p0 = self.players[0];
        let p1 = self.players[1];
        if (p0.move_.is_some() && p1.move_.is_some()) || (p0.move_.is_some() && p1.is_asleep)
            || (p0.is_asleep && p1.move_.is_some()) {
            let mut player_did_a_valid_move: [bool; 2] = [true, true];
            let ghost g1 = self@;
            if !p0.is_asleep {
                let moves = valid_moves(
                    &self.board,
                    0,
                    p0.sun,
                    p0.seed_count,
                    p0.small_tree_count,
                    p0.medium_tree_count,
                    p0.large_tree_count,
                    p0.is_asleep,
                    &self.cache,
                );
                player_did_a_valid_move[0] = contains_move(moves.as_slice(), p0.move_.unwrap());
            }
            if !p1.is_asleep {
                let moves = valid_moves(
                    &self.board,
                    1,
                    p1.sun,
                    p1.seed_count,
                    p1.small_tree_count,
                    p1.medium_tree_count,
                    p1.large_tree_count,
                    p1.is_asleep,
                    &self.cache,
                );
                player_did_a_valid_move[1] = contains_move(moves.as_slice(), p1.move_.unwrap());
            }
            assert(player_did_a_valid_move[0] == move_ok(g1, self.cache, 0));
            assert(player_did_a_valid_move[1] == move_ok(g1, self.cache, 1));
            assert(player_did_a_valid_move@ == seq![move_ok(g1, self.cache, 0), move_ok(g1, self.cache, 1)]);
            if contains_false(&player_did_a_valid_move) {
                let players_status = invalid_move_statuses(&player_did_a_valid_move);
                self.end_game(players_status);
                return;
            }
            self.apply_both_moves();
        }
        self.advance();
        self.finish_on_last_day();
    }

    fn winners(&self) -> (w: Option<Vec<WinLossTie>>) {
        match self.winners {
            Some(w) => Some(vec![w.0, w.1]),
            None => None,
        }
    }

    fn end_game(&mut self, players_status: Vec<WinLossTie>)
        ensures
            final(self)@ == (ForestModel {
                active: false,
                winners: Some((players_status@[0], players_status@[1])),
                ..old(self)@
            }),
            final(self).cache == old(self).cache,
    {
        self.active = false;
        self.winners = Some((players_status[0], players_status[1]));
    }
}

fn contains_move(moves: &[Move], m: Move) -> (b: bool)
    ensures
        b == moves@.contains(m),
{
    let mut i: usize = 0;
    while i < moves.len()
        invariant
            i <= moves@.len(),
            forall|j: int| 0 <= j < i ==> moves@[j] != m,
        decreases moves@.len() - i,
    {
        if moves[i] == m {
            return true;
        }
        i += 1;
    }
    false
}

pub open spec fn small_tree(pid: u8) -> Cell {
    Cell { player: pid, tree: Tree::SMALL_TREE, is_dormant: false }
}

/// The board with the given starting small trees; a cell listed for both
/// players goes to player 1.
pub open spec fn start_board(trees: [[usize; 2]; 2]) -> Seq<Option<Cell>> {
    Seq::new(
        37,
        |p: int|
            if p == trees[1][0] || p == trees[1][1] {
                Some(small_tree(1))
            } else if p == trees[0][0] || p == trees[0][1] {
                Some(small_tree(0))
            } else {
                None
            },
    )
}

/// A player at the start of a game on `board`: the sun of day 0 and
/// `small` small trees.
pub open spec fn start_player(board: Seq<Option<Cell>>, pid: int, small: u8) -> Player {
    Player {
        move_: None,
        sun: day_sun(board, 0, pid) as u32,
        score: 0,
        seed_count: 0,
        small_tree_count: small,
        medium_tree_count: 0,
        large_tree_count: 0,
        is_asleep: false,
    }
}

/// The counters of a game that starts.
pub open spec fn starts(g: ForestModel) -> bool {
    &&& g.nutrient == 20
    &&& g.day == 0
    &&& g.turn_during_day == 0
    &&& g.turn == 0
    &&& g.active
    &&& g.active_player == 0
    &&& g.winners is None
}

proof fn lemma_sun_from_bound(board: Seq<Option<Cell>>, spookied: Seq<bool>, pid: int, n: int)
    ensures
        0 <= sun_from(board, spookied, pid, n) <= 3 * (if n < 0 { 0 } else { n }),
    decreases n,
{
    if n > 0 {
        lemma_sun_from_bound(board, spookied, pid, n - 1);
    }
}

fn empty_board() -> (board: [Option<Cell>; 37])
    ensures
        forall|i: int| 0 <= i < 37 ==> #[trigger] board@[i] is None,
{
    let mut board: [Option<Cell>; 37] = [None; 37];
    let mut i: usize = 0;
    while i < 37
        invariant
            i <= 37,
            forall|j: int| 0 <= j < i ==> #[trigger] board@[j] is None,
        decreases 37 - i,
    {
        board[i] = None;
        i += 1;
    }
    board
}

/// The start of a game with the given small trees of each player and the
/// given unusable cells (each player is counted four small trees).
pub fn init_with_params(players_initial_small_trees: &[[usize; 2]; 2], invalid_cells: &[usize]) -> (g: WoodSpiritGame)
    requires
        forall|p: int, k: int| 0 <= p < 2 && 0 <= k < 2 ==> #[trigger] players_initial_small_trees[p][k] < 37,
        forall|k: int| 0 <= k < invalid_cells@.len() ==> #[trigger] invalid_cells@[k] < 37,
    ensures
        g.wf(),
        starts(g@),
        g@.board == start_board(*players_initial_small_trees),
        g@.players == seq![start_player(g@.board, 0, 4), start_player(g@.board, 1, 4)],
        forall|i: int| 0 <= i < 37 ==> #[trigger] g.cache.soil()[i] == if invalid_cells@.contains(i as usize) {
            SoilRichness::UNUSABLE
        } else {
            crate::wood_spirit::rules::initial_soil(i)
        },
{
    let mut board = empty_board();
    let mut p_id: usize = 0;
    while p_id < 2
        invariant
            p_id <= 2,
            forall|p: int, k: int| 0 <= p < 2 && 0 <= k < 2 ==> #[trigger] players_initial_small_trees[p][k] < 37,
            forall|q: int| 0 <= q < 37 ==> #[trigger] board@[q] == (if p_id >= 2 && (q == players_initial_small_trees[1][0] || q == players_initial_small_trees[1][1]) {
                Some(small_tree(1))
            } else if p_id >= 1 && (q == players_initial_small_trees[0][0] || q == players_initial_small_trees[0][1]) {
                Some(small_tree(0))
            } else {
                None
            }),
        decreases 2 - p_id,
    {
        let cells = players_initial_small_trees[p_id];
        board[cells[0]] = Some(Cell { player: p_id as u8, tree: Tree::SMALL_TREE, is_dormant: false });
        board[cells[1]] = Some(Cell { player: p_id as u8, tree: Tree::SMALL_TREE, is_dormant: false });
        p_id += 1;
    }
    assert(board@ =~= start_board(*players_initial_small_trees));
    let mut soil_richness = crate::wood_spirit::rules::get_initial_soil_richness();
    let mut k: usize = 0;
    while k < invalid_cells.len()
        invariant
            k <= invalid_cells@.len(),
            forall|j: int| 0 <= j < invalid_cells@.len() ==> #[trigger] invalid_cells@[j] < 37,
            forall|i: int| 0 <= i < 37 ==> #[trigger] soil_richness[i] == if invalid_cells@.take(k as int).contains(i as usize) {
                SoilRichness::UNUSABLE
            } else {
                crate::wood_spirit::rules::initial_soil(i)
            },
        decreases invalid_cells@.len() - k,
    {
        soil_richness[invalid_cells[k]] = SoilRichness::UNUSABLE;
        assert forall|i: int| 0 <= i < 37 implies #[trigger] soil_richness[i] == if invalid_cells@.take(k + 1).contains(i as usize) {
            SoilRichness::UNUSABLE
        } else {
            crate::wood_spirit::rules::initial_soil(i)
        } by {
            assert(invalid_cells@.take(k + 1) == invalid_cells@.take(k as int).push(invalid_cells@[k as int]));
            vstd::seq_lib::lemma_seq_contains_after_push(invalid_cells@.take(k as int), invalid_cells@[k as int], i as usize);
        }
        k += 1;
    }
    assert(invalid_cells@.take(invalid_cells@.len() as int) == invalid_cells@);
    let cache = Cache::new(soil_richness);
    let spookied_cells = get_spookied_cells(&board, 0, &cache);
    assert(spookied_cells@ =~= Seq::new(37, |p: int| is_spookied(board@, 0, p)));
    let gained = gained_sun_points(&board, &spookied_cells);
    let players = [
        Player {
            move_: None,
            sun: gained[0],
            score: 0,
            seed_count: 0,
            small_tree_count: 4,
            medium_tree_count: 0,
            large_tree_count: 0,
            is_asleep: false,
        },
        Player {
            move_: None,
            sun: gained[1],
            score: 0,
            seed_count: 0,
            small_tree_count: 4,
            medium_tree_count: 0,
            large_tree_count: 0,
            is_asleep: false,
        },
    ];
    let g = WoodSpiritGame {
        board,
        players,
        nutrient: 20,
        day: 0,
        turn_during_day: 0,
        turn: 0,
        active: true,
        active_player: 0,
        winners: None,
        cache,
    };
    assert(g@.players =~= seq![start_player(g@.board, 0, 4), start_player(g@.board, 1, 4)]);
    g
}

proof fn lemma_shuffled_from<T>(before: Seq<T>, after: Seq<T>, x: T)
    requires
        before.to_multiset() == after.to_multiset(),
        after.contains(x),
    ensures
        before.contains(x),
{
    vstd::seq_lib::to_multiset_contains(after, x);
    vstd::seq_lib::to_multiset_contains(before, x);
}

/// The soil ring of a cell: the centre ring (cells 0 to 6), the middle one
/// (7 to 18) or the outer one (19 to 36).
pub open spec fn ring_of(c: int) -> int {
    if c < 7 {
        0
    } else if c < 19 {
        1
    } else {
        2
    }
}

/// Pairs of two cells of the same ring, no cell in two places.
pub open spec fn disjoint_pairs(ps: Seq<(usize, usize)>) -> bool {
    &&& forall|i: int| 0 <= i < ps.len() ==> {
        &&& (#[trigger] ps[i]).0 < 37
        &&& ps[i].1 < 37
        &&& ps[i].0 != ps[i].1
        &&& ring_of(ps[i].0 as int) == ring_of(ps[i].1 as int)
    }
    &&& forall|i: int, j: int| 0 <= i < ps.len() && 0 <= j < ps.len() && i != j ==> {
        &&& (#[trigger] ps[i]).0 != (#[trigger] ps[j]).0
        &&& ps[i].0 != ps[j].1
        &&& ps[i].1 != ps[j].1
    }
}

/// The tree a new game puts on cell `i`: a small tree of player 0 on the
/// first cell of a tree pair, one of player 1 on the second, none elsewhere.
pub open spec fn start_tree(trees: Seq<(usize, usize)>, i: int) -> Option<Cell> {
    if exists|j: int| 0 <= j < trees.len() && (#[trigger] trees[j]).0 == i {
        Some(small_tree(0))
    } else if exists|j: int| 0 <= j < trees.len() && (#[trigger] trees[j]).1 == i {
        Some(small_tree(1))
    } else {
        None
    }
}

/// The soil of cell `i` in a new game: unusable on the cells of the given
/// pairs, the ring's richness elsewhere.
pub open spec fn start_soil(unusable: Seq<(usize, usize)>, i: int) -> SoilRichness {
    if exists|j: int| 0 <= j < unusable.len() && ((#[trigger] unusable[j]).0 == i || unusable[j].1 == i) {
        SoilRichness::UNUSABLE
    } else {
        crate::wood_spirit::rules::initial_soil(i)
    }
}

/// How a new game places its random trees and unusable cells: two pairs of
/// cells for the trees (a tree of each player on each pair) and up to five
/// pairs of unusable cells, each pair in one soil ring, no cell used twice.
pub open spec fn random_start(board: Seq<Option<Cell>>, soil: Seq<SoilRichness>) -> bool {
    exists|unusable: Seq<(usize, usize)>, trees: Seq<(usize, usize)>|
        #[trigger] disjoint_pairs(unusable + trees) && trees.len() == 2 && unusable.len() <= 5
            && (forall|i: int| 0 <= i < 37 ==> #[trigger] board[i] == start_tree(trees, i))
            && (forall|i: int| 0 <= i < 37 ==> #[trigger] soil[i] == start_soil(unusable, i))
}

proof fn lemma_start_tree_front(p: (usize, usize), os: Seq<(usize, usize)>, i: int)
    requires
        p.0 != p.1,
        forall|j: int| 0 <= j < os.len() ==> (#[trigger] os[j]).0 != p.1,
    ensures
        i == p.0 ==> start_tree(seq![p] + os, i) == Some(small_tree(0)),
        i == p.1 ==> start_tree(seq![p] + os, i) == Some(small_tree(1)),
        i != p.0 && i != p.1 ==> start_tree(seq![p] + os, i) == start_tree(os, i),
{
    let ns = seq![p] + os;
    assert(ns[0] == p);
    assert forall|j: int| 1 <= j < ns.len() implies #[trigger] ns[j] == os[j - 1] by {}
    if i != p.0 && i != p.1 {
        if exists|j: int| 0 <= j < os.len() && (#[trigger] os[j]).0 == i {
            let j = choose|j: int| 0 <= j < os.len() && (#[trigger] os[j]).0 == i;
            assert(ns[j + 1].0 == i);
        }
        if exists|j: int| 0 <= j < ns.len() && (#[trigger] ns[j]).0 == i {
            let j = choose|j: int| 0 <= j < ns.len() && (#[trigger] ns[j]).0 == i;
            assert(os[j - 1].0 == i);
        }
        if exists|j: int| 0 <= j < os.len() && (#[trigger] os[j]).1 == i {
            let j = choose|j: int| 0 <= j < os.len() && (#[trigger] os[j]).1 == i;
            assert(ns[j + 1].1 == i);
        }
        if exists|j: int| 0 <= j < ns.len() && (#[trigger] ns[j]).1 == i {
            let j = choose|j: int| 0 <= j < ns.len() && (#[trigger] ns[j]).1 == i;
            assert(os[j - 1].1 == i);
        }
    }
    if i == p.1 {
        assert forall|j: int| 0 <= j < ns.len() implies (#[trigger] ns[j]).0 != i by {
            if j > 0 {
                assert(ns[j] == os[j - 1]);
            }
        }
    }
}

proof fn lemma_start_soil_front(p: (usize, usize), os: Seq<(usize, usize)>, i: int)
    ensures
        start_soil(seq![p] + os, i) == if i == p.0 || i == p.1 {
            SoilRichness::UNUSABLE
        } else {
            start_soil(os, i)
        },
{
    let ns = seq![p] + os;
    assert(ns[0] == p);
    assert forall|j: int| 1 <= j < ns.len() implies #[trigger] ns[j] == os[j - 1] by {}
    if i != p.0 && i != p.1 {
        if exists|j: int| 0 <= j < os.len() && ((#[trigger] os[j]).0 == i || os[j].1 == i) {
            let j = choose|j: int| 0 <= j < os.len() && ((#[trigger] os[j]).0 == i || os[j].1 == i);
            assert(ns[j + 1] == os[j]);
        }
        if exists|j: int| 0 <= j < ns.len() && ((#[trigger] ns[j]).0 == i || ns[j].1 == i) {
            let j = choose|j: int| 0 <= j < ns.len() && ((#[trigger] ns[j]).0 == i || ns[j].1 == i);
            assert(os[j - 1] == ns[j]);
        }
    }
}

proof fn lemma_disjoint_subrange(s: Seq<(usize, usize)>, a: int, b: int)
    requires
        disjoint_pairs(s),
        0 <= a <= b <= s.len(),
    ensures
        disjoint_pairs(s.subrange(a, b)),
{
    let t = s.subrange(a, b);
    assert forall|i: int| 0 <= i < t.len() implies #[trigger] t[i] == s[a + i] by {}
    assert forall|i: int, j: int| 0 <= i < t.len() && 0 <= j < t.len() && i != j implies {
        &&& (#[trigger] t[i]).0 != (#[trigger] t[j]).0
        &&& t[i].0 != t[j].1
        &&& t[i].1 != t[j].1
    } by {
        assert(t[i] == s[a + i] && t[j] == s[a + j]);
    }
}

proof fn lemma_shuffle_keeps_distinct<T>(before: Seq<T>, after: Seq<T>)
    requires
        before.no_duplicates(),
        before.to_multiset() == after.to_multiset(),
    ensures
        after.no_duplicates(),
{
    before.lemma_multiset_has_no_duplicates();
    after.lemma_multiset_has_no_duplicates_conv();
}

/// Shuffles the cells `lo..hi` of a soil ring and appends them in pairs.
fn push_ring_pairs(cell_pairs: &mut Vec<(usize, usize)>, lo: usize, hi: usize)
    requires
        lo <= hi <= 37,
    ensures
        final(cell_pairs)@.len() == old(cell_pairs)@.len() + (hi - lo) / 2,
        forall|i: int| 0 <= i < old(cell_pairs)@.len() ==> #[trigger] final(cell_pairs)@[i] == old(cell_pairs)@[i],
        forall|i: int| old(cell_pairs)@.len() <= i < final(cell_pairs)@.len() ==> lo <= (#[trigger] final(cell_pairs)@[i]).0 < hi
            && lo <= final(cell_pairs)@[i].1 < hi,
        forall|i: int, j: int| old(cell_pairs)@.len() <= i < final(cell_pairs)@.len() && old(cell_pairs)@.len() <= j
            < final(cell_pairs)@.len() && i != j ==> {
            &&& (#[trigger] final(cell_pairs)@[i]).0 != (#[trigger] final(cell_pairs)@[j]).0
            &&& final(cell_pairs)@[i].0 != final(cell_pairs)@[j].1
            &&& final(cell_pairs)@[i].1 != final(cell_pairs)@[j].1
        },
        forall|i: int| old(cell_pairs)@.len() <= i < final(cell_pairs)@.len() ==> (#[trigger] final(cell_pairs)@[i]).0
            != final(cell_pairs)@[i].1,
{
    let mut cells: Vec<usize> = Vec::new();
    let mut c = lo;
    while c < hi
        invariant
            lo <= c <= hi <= 37,
            cells@.len() == c - lo,
            forall|i: int| 0 <= i < cells@.len() ==> #[trigger] cells@[i] == lo + i,
        decreases hi - c,
    {
        cells.push(c);
        c += 1;
    }
    let ghost before = cells@;
    crate::random::shuffle(&mut cells);
    assert forall|i: int| 0 <= i < cells@.len() implies lo <= #[trigger] cells@[i] < hi by {
        assert(cells@.contains(cells@[i]));
        lemma_shuffled_from(before, cells@, cells@[i]);
    }
    proof {
        lemma_shuffle_keeps_distinct(before, cells@);
    }
    let ghost start = cell_pairs@;
    let n = (hi - lo) / 2;
    let mut i: usize = 0;
    while i < n
        invariant
            n == (hi - lo) / 2,
            cells@.len() == hi - lo,
            i <= n,
            forall|j: int| 0 <= j < cells@.len() ==> lo <= #[trigger] cells@[j] < hi,
            cell_pairs@.len() == start.len() + i,
            forall|j: int| 0 <= j < start.len() ==> #[trigger] cell_pairs@[j] == start[j],
            forall|j: int| start.len() <= j < cell_pairs@.len() ==> lo <= (#[trigger] cell_pairs@[j]).0 < hi
                && lo <= cell_pairs@[j].1 < hi,
            cells@.no_duplicates(),
            forall|j: int| start.len() <= j < cell_pairs@.len() ==> (#[trigger] cell_pairs@[j]) == (
                cells@[2 * (j - start.len())],
                cells@[2 * (j - start.len()) + 1],
            ),
        decreases n - i,
    {
        cell_pairs.push((cells[i * 2], cells[i * 2 + 1]));
        i += 1;
    }
    assert forall|a: int, b: int| start.len() <= a < cell_pairs@.len() && start.len() <= b < cell_pairs@.len() && a != b implies {
        &&& (#[trigger] cell_pairs@[a]).0 != (#[trigger] cell_pairs@[b]).0
        &&& cell_pairs@[a].0 != cell_pairs@[b].1
        &&& cell_pairs@[a].1 != cell_pairs@[b].1
    } by {
        let x = a - start.len();
        let y = b - start.len();
        assert(cells@[2 * x] != cells@[2 * y]);
        assert(cells@[2 * x] != cells@[2 * y + 1]);
        assert(cells@[2 * x + 1] != cells@[2 * y + 1]);
    }
    assert forall|a: int| start.len() <= a < cell_pairs@.len() implies (#[trigger] cell_pairs@[a]).0 != cell_pairs@[a].1 by {
        let x = a - start.len();
        assert(cells@[2 * x] != cells@[2 * x + 1]);
    }
}

/// The cells of each soil ring, shuffled and paired, then the pairs
/// shuffled: 3 pairs of the centre ring, 6 of the middle one, 9 of the
/// outer one.
fn generate_random_cell_pairs() -> (cell_pairs: Vec<(usize, usize)>)
    ensures
        cell_pairs@.len() == 18,
        forall|i: int| 0 <= i < 18 ==> (#[trigger] cell_pairs@[i]).0 < 37 && cell_pairs@[i].1 < 37,
        disjoint_pairs(cell_pairs@),
{
    let mut cell_pairs: Vec<(usize, usize)> = Vec::new();
    push_ring_pairs(&mut cell_pairs, 0, 7);
    let ghost a = cell_pairs@;
    push_ring_pairs(&mut cell_pairs, 7, 19);
    let ghost b = cell_pairs@;
    push_ring_pairs(&mut cell_pairs, 19, 37);
    let ghost before = cell_pairs@;
    assert(a.len() == 3 && b.len() == 9 && before.len() == 18);
    assert forall|i: int| 0 <= i < 18 implies (if i < 3 { 0 <= (#[trigger] before[i]).0 < 7 && before[i].1 < 7 } else if i < 9 {
        7 <= before[i].0 < 19 && 7 <= before[i].1 < 19
    } else {
        19 <= before[i].0 < 37 && 19 <= before[i].1 < 37
    }) by {
        if i < 3 {
            assert(before[i] == b[i] && b[i] == a[i]);
        } else if i < 9 {
            assert(before[i] == b[i]);
        }
    }
    assert(disjoint_pairs(before)) by {
        assert forall|i: int, j: int| 0 <= i < before.len() && 0 <= j < before.len() && i != j implies {
            &&& (#[trigger] before[i]).0 != (#[trigger] before[j]).0
            &&& before[i].0 != before[j].1
            &&& before[i].1 != before[j].1
        } by {
            if i < 3 && j < 3 {
                assert(before[i] == b[i] && b[i] == a[i] && before[j] == b[j] && b[j] == a[j]);
            } else if 3 <= i < 9 && 3 <= j < 9 {
                assert(before[i] == b[i] && before[j] == b[j]);
            }
        }
        assert forall|i: int| 0 <= i < before.len() implies {
            &&& (#[trigger] before[i]).0 < 37
            &&& before[i].1 < 37
            &&& before[i].0 != before[i].1
            &&& ring_of(before[i].0 as int) == ring_of(before[i].1 as int)
        } by {
            if i < 3 {
                assert(before[i] == b[i] && b[i] == a[i]);
            } else if i < 9 {
                assert(before[i] == b[i]);
            }
        }
    }
    assert(before.no_duplicates()) by {
        assert forall|i: int, j: int| 0 <= i < before.len() && 0 <= j < before.len() && i != j implies before[i] != before[j] by {
            assert(before[i].0 != before[j].0);
        }
    }
    crate::random::shuffle(&mut cell_pairs);
    proof {
        lemma_shuffle_keeps_distinct(before, cell_pairs@);
        let after = cell_pairs@;
        assert forall|i: int, j: int| 0 <= i < after.len() && 0 <= j < after.len() && i != j implies {
            &&& (#[trigger] after[i]).0 != (#[trigger] after[j]).0
            &&& after[i].0 != after[j].1
            &&& after[i].1 != after[j].1
        } by {
            assert(after.contains(after[i]) && after.contains(after[j]));
            lemma_shuffled_from(before, after, after[i]);
            lemma_shuffled_from(before, after, after[j]);
            let k = choose|k: int| 0 <= k < before.len() && before[k] == after[i];
            let l = choose|l: int| 0 <= l < before.len() && before[l] == after[j];
            assert(k != l);
            assert(before[k].1 != before[l].0);
        }
        assert forall|i: int| 0 <= i < after.len() implies {
            &&& (#[trigger] after[i]).0 < 37
            &&& after[i].1 < 37
            &&& after[i].0 != after[i].1
            &&& ring_of(after[i].0 as int) == ring_of(after[i].1 as int)
        } by {
            assert(after.contains(after[i]));
            lemma_shuffled_from(before, after, after[i]);
            let k = choose|k: int| 0 <= k < before.len() && before[k] == after[i];
            assert(before[k] == after[i]);
        }
    }
    assert forall|i: int| 0 <= i < 18 implies (#[trigger] cell_pairs@[i]).0 < 37 && cell_pairs@[i].1 < 37 by {
        assert(cell_pairs@.contains(cell_pairs@[i]));
        lemma_shuffled_from(before, cell_pairs@, cell_pairs@[i]);
        let k = choose|k: int| 0 <= k < before.len() && before[k] == cell_pairs@[i];
    }
    cell_pairs
}

impl WoodSpiritGame {
    /// A new game: two small trees per player and up to five pairs of
    /// unusable cells, all at random cells of paired soil rings; each
    /// player collects the sun of day 0.
    pub fn new_game() -> (g: Self)
        ensures
            g.wf(),
            starts(g@),
            g@.players == seq![start_player(g@.board, 0, 2), start_player(g@.board, 1, 2)],
            forall|i: int| 0 <= i < 37 ==> (#[trigger] g.board[i] matches Some(c) ==> c == small_tree(c.player) && c.player < 2),
            forall|i: int| 0 <= i < 37 ==> #[trigger] g.cache.soil()[i] == crate::wood_spirit::rules::initial_soil(i)
                || g.cache.soil()[i] == SoilRichness::UNUSABLE,
            random_start(g.board@, g.cache.soil()),
    {
        let mut soil_richness = crate::wood_spirit::rules::get_initial_soil_richness();
        let mut cell_pairs = generate_random_cell_pairs();
        let ghost cp0 = cell_pairs@;
        let mut board = empty_board();
        assert forall|i: int| 0 <= i < 37 implies #[trigger] board@[i] == start_tree(cp0.subrange(18, 18), i) by {}
        let mut k: usize = 0;
        while k < 2
            invariant
                k <= 2,
                cell_pairs@.len() == 18 - k,
                forall|i: int| 0 <= i < cell_pairs@.len() ==> (#[trigger] cell_pairs@[i]).0 < 37 && cell_pairs@[i].1 < 37,
                forall|i: int| 0 <= i < 37 ==> (#[trigger] board@[i] matches Some(c) ==> c == small_tree(c.player) && c.player < 2),
                cp0.len() == 18,
                disjoint_pairs(cp0),
                cell_pairs@ == cp0.take(18 - k),
                forall|i: int| 0 <= i < 37 ==> #[trigger] board@[i] == start_tree(cp0.subrange(18 - k, 18), i),
                forall|i: int| 0 <= i < 37 ==> #[trigger] soil_richness[i] == crate::wood_spirit::rules::initial_soil(i),
            decreases 2 - k,
        {
            let ghost before = board@;
            let cells = cell_pairs.pop().unwrap();
            board[cells.0] = Some(Cell { player: 0, tree: Tree::SMALL_TREE, is_dormant: false });
            board[cells.1] = Some(Cell { player: 1, tree: Tree::SMALL_TREE, is_dormant: false });
            proof {
                let os = cp0.subrange(18 - k, 18);
                assert(cells == cp0[17 - k]);
                assert(cp0.subrange(17 - k, 18) =~= seq![cells] + os);
                assert forall|j: int| 0 <= j < os.len() implies (#[trigger] os[j]).0 != cells.1 by {
                    assert(os[j] == cp0[18 - k + j]);
                    assert(cp0[18 - k + j].0 != cp0[17 - k].1);
                }
                assert(cells.0 != cells.1);
                assert forall|i: int| 0 <= i < 37 implies #[trigger] board@[i] == start_tree(cp0.subrange(17 - k, 18), i) by {
                    lemma_start_tree_front(cells, os, i);
                }
            }
            k += 1;
        }
        let invalid_cells_count = crate::random::random_in_range(0, 5);
        let mut k: usize = 0;
        while k < invalid_cells_count
            invariant
                k <= invalid_cells_count <= 5,
                cell_pairs@.len() == 16 - k,
                forall|i: int| 0 <= i < cell_pairs@.len() ==> (#[trigger] cell_pairs@[i]).0 < 37 && cell_pairs@[i].1 < 37,
                forall|i: int| 0 <= i < 37 ==> #[trigger] soil_richness[i] == crate::wood_spirit::rules::initial_soil(i)
                    || soil_richness[i] == SoilRichness::UNUSABLE,
                cp0.len() == 18,
                disjoint_pairs(cp0),
                cell_pairs@ == cp0.take(16 - k),
                forall|i: int| 0 <= i < 37 ==> #[trigger] board@[i] == start_tree(cp0.subrange(16, 18), i),
                forall|i: int| 0 <= i < 37 ==> #[trigger] soil_richness[i] == start_soil(cp0.subrange(16 - k, 16), i),
                forall|i: int| 0 <= i < 37 ==> (#[trigger] board@[i] matches Some(c) ==> c == small_tree(c.player) && c.player < 2),
            decreases invalid_cells_count - k,
        {
            let cells = cell_pairs.pop().unwrap();
            soil_richness[cells.0] = SoilRichness::UNUSABLE;
            soil_richness[cells.1] = SoilRichness::UNUSABLE;
            proof {
                let os = cp0.subrange(16 - k, 16);
                assert(cells == cp0[15 - k]);
                assert(cp0.subrange(15 - k, 16) =~= seq![cells] + os);
                assert forall|i: int| 0 <= i < 37 implies #[trigger] soil_richness[i] == start_soil(cp0.subrange(15 - k, 16), i) by {
                    lemma_start_soil_front(cells, os, i);
                }
            }
            k += 1;
        }
        let ghost n = invalid_cells_count as int;
        let ghost soil_at_end = soil_richness@;
        proof {
            let unusable = cp0.subrange(16 - n, 16);
            let trees = cp0.subrange(16, 18);
            assert(unusable + trees =~= cp0.subrange(16 - n, 18));
            lemma_disjoint_subrange(cp0, 16 - n, 18);
            assert(disjoint_pairs(unusable + trees));
            assert(random_start(board@, soil_at_end));
        }
        let cache = Cache::new(soil_richness);
        let spookied_cells = get_spookied_cells(&board, 0, &cache);
        assert(spookied_cells@ =~= Seq::new(37, |p: int| is_spookied(board@, 0, p)));
        assert(owners_ok(board@));
        let gained = gained_sun_points(&board, &spookied_cells);
        let players = [
            Player {
                move_: None,
                sun: gained[0],
                score: 0,
                seed_count: 0,
                small_tree_count: 2,
                medium_tree_count: 0,
                large_tree_count: 0,
                is_asleep: false,
            },
            Player {
                move_: None,
                sun: gained[1],
                score: 0,
                seed_count: 0,
                small_tree_count: 2,
                medium_tree_count: 0,
                large_tree_count: 0,
                is_asleep: false,
            },
        ];
        let g = WoodSpiritGame {
            board,
            players,
            nutrient: 20,
            day: 0,
            turn_during_day: 0,
            turn: 0,
            active: true,
            active_player: 0,
            winners: None,
            cache,
        };
        assert(g@.players =~= seq![start_player(g@.board, 0, 2), start_player(g@.board, 1, 2)]);
        assert(g.cache.soil() == soil_at_end);
        g
    }
}

/// The nutrient never grows.
pub proof fn law_nutrient_never_grows(g: ForestModel, cache: Cache, m: Move)
    ensures
        spec_play(g, cache, m).nutrient <= g.nutrient,
{
}

/// Days only go forward, one at a time.
pub proof fn law_days_advance(g: ForestModel, cache: Cache, m: Move)
    requires
        play_fits(g, cache, m),
    ensures
        spec_play(g, cache, m).day == g.day || spec_play(g, cache, m).day == g.day + 1,
{
}

/// When both players drop a seed on the same cell, no seed is placed there
/// and neither player pays for it; both trees become dormant.
pub proof fn law_seed_clash(g: ForestModel, cache: Cache, t0: u8, t1: u8, s: u8)
    requires
        g.board.len() == 37,
        t0 < 37,
        t1 < 37,
        s < 37,
        t0 != s,
        t1 != s,
        !g.players[0].is_asleep,
        !g.players[1].is_asleep,
        g.players[0].move_ == Some(Move::SEED(t0, s)),
        g.players[1].move_ == Some(Move::SEED(t1, s)),
    ensures
        apply_moves(g, cache).board[s as int] == g.board[s as int],
        apply_moves(g, cache).players[0].seed_count == g.players[0].seed_count,
        apply_moves(g, cache).players[1].seed_count == g.players[1].seed_count,
        apply_moves(g, cache).players[0].sun == g.players[0].sun,
        apply_moves(g, cache).players[1].sun == g.players[1].sun,
        apply_moves(g, cache).board[t0 as int] == Some(dormant(g.board[t0 as int]->0)) || t0 == t1,
{
}

} // verus!
