//! The forest game as a searching player simulates it: the referee's rules
//! on a state rebuilt from the player's input, without the checks of the
//! moves (the search only plays valid ones).
use vstd::prelude::*;
use crate::game::WinLossTie;
use crate::random::random_element;
use crate::stack_vector::StackVector;
use crate::wood_spirit::cache::{Cache, SoilRichness, Tree};
use crate::text::{line_field, parse_integer, trim, read_field, read_number};
use crate::wood_spirit::game::{
    apply_one, one_fits, apply_player_move, lemma_apply_one_owners, awake, woken, day_sun, final_statuses,
    final_points, tree_total, with_move, ForestModel, spec_play, record, move_ok, apply_moves, after_moves, next_day,
    finish, both_played,
};
use crate::wood_spirit::rules::{
    Cell, Move, Player, owners_ok, spec_valid_moves, valid_moves as rule_moves, get_spookied_cells,
    gained_sun_points, is_spookied,
};

verus! {

/// The most moves a player's search keeps for one turn.
pub const MAX_VALID_MOVES: usize = 80;

/// What the player knows of a game.
#[derive(Clone, Copy)]
pub struct State {
    pub board: [Option<Cell>; 37],
    pub players: [Player; 2],
    pub nutrient: u8,
    pub day: u8,
    pub turn_during_day: u8,
    pub active: bool,
    pub active_player: u8,
    pub winners: Option<(WinLossTie, WinLossTie)>,
}

/// A player's state as the rules see it.
#[verifier::ext_equal]
pub struct SimModel {
    pub board: Seq<Option<Cell>>,
    pub players: Seq<Player>,
    pub nutrient: u8,
    pub day: u8,
    pub turn_during_day: u8,
    pub active: bool,
    pub active_player: u8,
    pub winners: Option<(WinLossTie, WinLossTie)>,
}

impl View for State {
    type V = SimModel;

    open spec fn view(&self) -> SimModel {
        SimModel {
            board: self.board@,
            players: self.players@,
            nutrient: self.nutrient,
            day: self.day,
            turn_during_day: self.turn_during_day,
            active: self.active,
            active_player: self.active_player,
            winners: self.winners,
        }
    }
}

impl State {
    /// Every tree belongs to player 0 or 1, and the player to move is one
    /// of them.
    pub open spec fn wf(&self) -> bool {
        &&& owners_ok(self.board@)
        &&& self.active_player < 2
    }
}

/// The state with `m` recorded as the move of the player to move.
pub open spec fn recorded(s: SimModel, m: Move) -> SimModel {
    SimModel { players: s.players.update(s.active_player as int, with_move(s.players[s.active_player as int], m)), ..s }
}

/// Every player who is awake has moved.
pub open spec fn all_moved(s: SimModel) -> bool {
    let p0 = s.players[0];
    let p1 = s.players[1];
    ||| p0.move_ is Some && p1.move_ is Some
    ||| p0.move_ is Some && p1.is_asleep
    ||| p0.is_asleep && p1.move_ is Some
}

/// Both recorded moves played, player 0's first; the nutrient drops by the
/// number of trees completed and the turn of the day goes up.
pub open spec fn applied(s: SimModel, cache: Cache) -> SimModel {
    let soil = cache.soil();
    let r0 = apply_one(s.board, s.nutrient, soil, s.players[0], 0, s.players[1].move_);
    let r1 = apply_one(r0.0, s.nutrient, soil, s.players[1], 1, s.players[0].move_);
    SimModel {
        board: r1.0,
        players: seq![r0.1, r1.1],
        nutrient: s.nutrient.saturating_sub((r0.2 + r1.2) as u8),
        turn_during_day: (s.turn_during_day + 1) as u8,
        ..s
    }
}

/// Playing the recorded moves stays on the board and in range.
pub open spec fn applied_fits(s: SimModel, cache: Cache) -> bool {
    let soil = cache.soil();
    let r0 = apply_one(s.board, s.nutrient, soil, s.players[0], 0, s.players[1].move_);
    &&& one_fits(s.board, s.nutrient, soil, s.players[0], 0, s.players[1].move_)
    &&& one_fits(r0.0, s.nutrient, soil, s.players[1], 1, s.players[0].move_)
    &&& s.turn_during_day < 255
}

/// A new day: trees and players wake up and, before day 24, each player
/// collects the sun of its trees.
pub open spec fn new_day(s: SimModel) -> SimModel {
    let day = s.day + 1;
    let board = s.board.map_values(|o: Option<Cell>| awake(o));
    let p0 = woken(s.players[0]);
    let p1 = woken(s.players[1]);
    let players = if day < 24 {
        seq![
            Player { sun: (p0.sun + day_sun(board, day, 0)) as u32, ..p0 },
            Player { sun: (p1.sun + day_sun(board, day, 1)) as u32, ..p1 },
        ]
    } else {
        seq![p0, p1]
    };
    SimModel { board, players, day: day as u8, turn_during_day: 0, active_player: 0, ..s }
}

/// When both players sleep, the new day stays in range.
pub open spec fn new_day_fits(s: SimModel) -> bool {
    let day = s.day + 1;
    let board = s.board.map_values(|o: Option<Cell>| awake(o));
    s.players[0].is_asleep && s.players[1].is_asleep ==> {
        &&& day <= 255
        &&& day < 24 ==> s.players[0].sun + day_sun(board, day, 0) <= u32::MAX
        &&& day < 24 ==> s.players[1].sun + day_sun(board, day, 1) <= u32::MAX
    }
}

/// Both asleep: a new day; else the other player moves next unless it
/// sleeps.
pub open spec fn advanced(s: SimModel) -> SimModel {
    if s.players[0].is_asleep && s.players[1].is_asleep {
        new_day(s)
    } else {
        let next = (s.active_player + 1) % 2;
        if !s.players[next].is_asleep {
            SimModel { active_player: next as u8, ..s }
        } else {
            s
        }
    }
}

/// On day 24 the game ends: more points wins, then more trees.
pub open spec fn ended(s: SimModel) -> SimModel {
    if s.day == 24 {
        SimModel { active: false, winners: Some(final_statuses(s.players[0], s.players[1])), ..s }
    } else {
        s
    }
}

pub open spec fn ended_fits(s: SimModel) -> bool {
    s.day == 24 ==> {
        &&& final_points(s.players[0]) <= u32::MAX
        &&& final_points(s.players[1]) <= u32::MAX
        &&& tree_total(s.players[0]) <= 255
        &&& tree_total(s.players[1]) <= 255
    }
}

/// The recorded state, with both moves played once every awake player has
/// moved.
pub open spec fn played(s: SimModel, cache: Cache, m: Move) -> SimModel {
    let r = recorded(s, m);
    if all_moved(r) {
        applied(r, cache)
    } else {
        r
    }
}

/// The state after the player to move plays `m`: the move is recorded;
/// once every awake player has moved both moves are played; then the day
/// or the player to move advances, and day 24 ends the game.
pub open spec fn spec_update_state(s: SimModel, cache: Cache, m: Move) -> SimModel {
    ended(advanced(played(s, cache, m)))
}

/// Playing `m` stays on the board and in range: the cells it names hold the
/// trees it acts on, the player has the sun it spends, and no counter
/// overflows.
pub open spec fn update_fits(s: SimModel, cache: Cache, m: Move) -> bool {
    let r = recorded(s, m);
    &&& all_moved(r) ==> applied_fits(r, cache)
    &&& new_day_fits(played(s, cache, m))
    &&& ended_fits(advanced(played(s, cache, m)))
}

/// The moves of the player to move, in the order the rules list them.
pub open spec fn player_moves(s: SimModel, cache: Cache) -> Seq<Move> {
    let p = s.players[s.active_player as int];
    spec_valid_moves(
        s.board,
        s.active_player,
        p.sun,
        p.seed_count,
        p.small_tree_count,
        p.medium_tree_count,
        p.large_tree_count,
        false,
        cache,
    )
}

fn play_recorded_moves(state: &mut State, cache: &Cache)
    requires
        old(state).wf(),
        applied_fits(old(state)@, *cache),
    ensures
        final(state)@ == applied(old(state)@, *cache),
        final(state).wf(),
{
    let ghost s = state@;
    let move0 = state.players[0].move_;
    let move1 = state.players[1].move_;
    proof {
        lemma_apply_one_owners(s.board, s.nutrient, cache.soil(), s.players[0], 0, move1);
    }
    let c0 = apply_player_move(&mut state.board, &mut state.players[0], 0, move1, state.nutrient, cache);
    proof {
        lemma_apply_one_owners(state.board@, s.nutrient, cache.soil(), s.players[1], 1, move0);
    }
    let c1 = apply_player_move(&mut state.board, &mut state.players[1], 1, move0, state.nutrient, cache);
    state.nutrient = state.nutrient.saturating_sub(c0 + c1);
    state.turn_during_day = state.turn_during_day + 1;
    assert(state@ =~= applied(s, *cache));
}

fn start_new_day(state: &mut State, cache: &Cache)
    requires
        old(state).wf(),
        old(state).players[0].is_asleep && old(state).players[1].is_asleep,
        new_day_fits(old(state)@),
    ensures
        final(state)@ == new_day(old(state)@),
        final(state).wf(),
{
    let ghost s = state@;
    state.day = state.day + 1;
    state.turn_during_day = 0;
    state.players[0].move_ = None;
    state.players[1].move_ = None;
    state.players[0].is_asleep = false;
    state.players[1].is_asleep = false;
    state.active_player = 0;
    let mut board = state.board;
    let mut i: usize = 0;
    while i < 37
        invariant
            i <= 37,
            s.board.len() == 37,
            forall|q: int| 0 <= q < i ==> #[trigger] board@[q] == awake(s.board[q]),
            forall|q: int| i <= q < 37 ==> #[trigger] board@[q] == s.board[q],
        decreases 37 - i,
    {
        if let Some(c) = board[i] {
            board[i] = Some(Cell { is_dormant: false, ..c });
        }
        i += 1;
    }
    state.board = board;
    assert(state.board@ =~= s.board.map_values(|o: Option<Cell>| awake(o)));
    assert(owners_ok(state.board@)) by {
        assert forall|q: int| 0 <= q < state.board@.len() implies (#[trigger] state.board@[q] matches Some(c) ==> c.player < 2) by {
            assert(s.board[q] matches Some(c) ==> c.player < 2);
        }
    }
    if state.day < 24 {
        let spookied_cells = get_spookied_cells(&state.board, state.day, cache);
        assert(spookied_cells@ =~= Seq::new(37, |p: int| is_spookied(state.board@, state.day as int, p)));
        let gained = gained_sun_points(&state.board, &spookied_cells);
        state.players[0].sun = state.players[0].sun + gained[0];
        state.players[1].sun = state.players[1].sun + gained[1];
    }
    assert(state@.players =~= new_day(s).players);
    assert(state@ =~= new_day(s));
}

/// Plays the move `move_` of the player to move (see `spec_update_state`).
/// `player` names that player; the state's own record of who moves is
/// what counts.
pub fn update_state(state: &mut State, player: u8, move_: Move, cache: &Cache)
    requires
        old(state).wf(),
        update_fits(old(state)@, *cache, move_),
    ensures
        final(state).wf(),
        final(state)@ == spec_update_state(old(state)@, *cache, move_),
{
    let ghost s = state@;
    if state.active_player == 0 {
        state.players[0].move_ = Some(move_);
    } else {
        state.players[1].move_ = Some(move_);
    }
    assert(state@ =~= recorded(s, move_));
    let p0 = state.players[0];
    let p1 = state.players[1];
    if (p0.move_.is_some() && p1.move_.is_some()) || (p0.move_.is_some() && p1.is_asleep) || (p0.is_asleep
        && p1.move_.is_some()) {
        play_recorded_moves(state, cache);
    }
    assert(state@ == played(s, *cache, move_));
    if state.players[0].is_asleep && state.players[1].is_asleep {
        start_new_day(state, cache);
    } else {
        let next_player = (state.active_player + 1) % 2;
        if !state.players[next_player as usize].is_asleep {
            state.active_player = next_player;
        }
    }
    assert(state@ == advanced(played(s, *cache, move_)));
    if state.day == 24 {
        let player0 = state.players[0];
        let player1 = state.players[1];
        let score0 = player0.score + player0.sun / 3;
        let score1 = player1.score + player1.sun / 3;
        if score0 > score1 {
            state.active = false;
            state.winners = Some((WinLossTie::Win, WinLossTie::Loss));
        } else if score0 < score1 {
            state.active = false;
            state.winners = Some((WinLossTie::Loss, WinLossTie::Win));
        } else {
            let tree_count0 = player0.small_tree_count + player0.medium_tree_count + player0.large_tree_count;
            let tree_count1 = player1.small_tree_count + player1.medium_tree_count + player1.large_tree_count;
            if tree_count0 > tree_count1 {
                state.active = false;
                state.winners = Some((WinLossTie::Win, WinLossTie::Loss));
            } else if tree_count0 < tree_count1 {
                state.active = false;
                state.winners = Some((WinLossTie::Loss, WinLossTie::Win));
            } else {
                state.active = false;
                state.winners = Some((WinLossTie::Tie, WinLossTie::Tie));
            }
        }
    }
    assert(state@ =~= spec_update_state(s, *cache, move_));
}

pub fn is_terminal(state: &State) -> (b: bool)
    ensures
        b == !state.active,
{
    !state.active
}

/// The player to move and its moves (see `player_moves`).
pub fn valid_moves(state: &State, cache: &Cache) -> (r: (u8, StackVector<Move, MAX_VALID_MOVES>))
    requires
        state.active_player < 2,
        player_moves(state@, *cache).len() <= MAX_VALID_MOVES,
    ensures
        r.0 == state.active_player,
        r.1.wf(),
        r.1@ == player_moves(state@, *cache),
{
    let p_id = state.active_player;
    let p = state.players[p_id as usize];
    let moves = rule_moves(
        &state.board,
        p_id,
        p.sun,
        p.seed_count,
        p.small_tree_count,
        p.medium_tree_count,
        p.large_tree_count,
        false,
        cache,
    );
    (p_id, StackVector::from(moves.as_slice()))
}

/// The player to move and one of its moves, picked at random.
pub fn random_valid_move(state: &State, cache: &Cache) -> (r: (u8, Move))
    requires
        state.active_player < 2,
        player_moves(state@, *cache).len() <= MAX_VALID_MOVES,
    ensures
        r.0 == state.active_player,
        player_moves(state@, *cache).contains(r.1),
{
    let (p_id, moves) = valid_moves(state, cache);
    let chosen = random_element(moves.slice());
    (p_id, chosen)
}


/// The soil of a richness number of the input: 0 unusable to 3 rich.
pub open spec fn richness_of(v: int) -> Option<SoilRichness> {
    if v == 0 {
        Some(SoilRichness::UNUSABLE)
    } else if v == 1 {
        Some(SoilRichness::LOW_QUALITY)
    } else if v == 2 {
        Some(SoilRichness::MEDIUM_QUALITY)
    } else if v == 3 {
        Some(SoilRichness::HIGH_QUALITY)
    } else {
        None
    }
}

/// The tree of a size number of the input: 0 a seed to 3 a large tree.
pub open spec fn tree_of(v: int) -> Tree {
    if v == 0 {
        Tree::SEED
    } else if v == 1 {
        Tree::SMALL_TREE
    } else if v == 2 {
        Tree::MEDIUM_TREE
    } else {
        Tree::LARGE_TREE
    }
}

/// A line of the board description, `index richness n0 n1 n2 n3 n4 n5`:
/// the cell (on the board) and its soil, provided the richness is 0 to 3
/// and the six neighbours are numbers.
pub open spec fn spec_cell_soil(line: Seq<char>) -> Option<(usize, SoilRichness)> {
    match (line_field(line, 0, 0, i64::MAX as int), line_field(line, 1, i32::MIN as int, i32::MAX as int)) {
        (Some(i), Some(r)) => if i < 37 && richness_of(r) is Some && forall|k: nat|
            2 <= k < 8 ==> #[trigger] line_field(line, k, i32::MIN as int, i32::MAX as int) is Some {
            Some((i as usize, richness_of(r)->0))
        } else {
            None
        },
        _ => None,
    }
}

/// Reads a line of the board description (see `spec_cell_soil`).
pub fn cell_soil(line: &str) -> (r: Option<(usize, SoilRichness)>)
    ensures
        r == spec_cell_soil(line@),
{
    let cs = crate::text::str_chars(line);
    let index = read_field(cs.as_slice(), 0, 0, i64::MAX);
    let richness = read_field(cs.as_slice(), 1, i32::MIN as i64, i32::MAX as i64);
    match (index, richness) {
        (Some(i), Some(r)) => {
            if i >= 37 {
                return None;
            }
            let soil = if r == 0 {
                SoilRichness::UNUSABLE
            } else if r == 1 {
                SoilRichness::LOW_QUALITY
            } else if r == 2 {
                SoilRichness::MEDIUM_QUALITY
            } else if r == 3 {
                SoilRichness::HIGH_QUALITY
            } else {
                return None;
            };
            let mut k: usize = 2;
            while k < 8
                invariant
                    2 <= k <= 8,
                    cs@ == line@,
                    forall|j: nat| 2 <= j < k ==> #[trigger] line_field(line@, j, i32::MIN as int, i32::MAX as int) is Some,
                decreases 8 - k,
            {
                if read_field(cs.as_slice(), k, i32::MIN as i64, i32::MAX as i64).is_none() {
                    return None;
                }
                k += 1;
            }
            Some((i as usize, soil))
        },
        _ => None,
    }
}

/// The soil a board description gives a cell: that of the last line about
/// it, unusable when no line names it.
pub open spec fn soil_at(cells: Seq<(usize, SoilRichness)>, p: int, n: int) -> SoilRichness
    decreases n,
{
    if n <= 0 {
        SoilRichness::UNUSABLE
    } else if cells[n - 1].0 == p {
        cells[n - 1].1
    } else {
        soil_at(cells, p, n - 1)
    }
}

/// The soil of the 37 cells from the lines of the board description.
pub fn soil_from_cells(cells: &[(usize, SoilRichness)]) -> (r: [SoilRichness; 37])
    requires
        forall|k: int| 0 <= k < cells@.len() ==> #[trigger] cells@[k].0 < 37,
    ensures
        forall|p: int| 0 <= p < 37 ==> #[trigger] r[p] == soil_at(cells@, p, cells@.len() as int),
{
    let mut soil_richness: [SoilRichness; 37] = [SoilRichness::UNUSABLE; 37];
    let mut k: usize = 0;
    while k < cells.len()
        invariant
            k <= cells@.len(),
            forall|j: int| 0 <= j < cells@.len() ==> #[trigger] cells@[j].0 < 37,
            forall|p: int| 0 <= p < 37 ==> #[trigger] soil_richness[p] == soil_at(cells@, p, k as int),
        decreases cells@.len() - k,
    {
        let (index, soil) = cells[k];
        soil_richness[index] = soil;
        k += 1;
    }
    soil_richness
}

/// A line of the trees, `cell size is_mine is_dormant`: the cell (on the
/// board) and the tree, provided the size is 0 to 3 and the flags are 0 or
/// 1. The reading player is player 0.
pub open spec fn spec_tree_line(line: Seq<char>) -> Option<(usize, Cell)> {
    match (
        line_field(line, 0, 0, i64::MAX as int),
        line_field(line, 1, 0, 255),
        line_field(line, 2, i32::MIN as int, i32::MAX as int),
        line_field(line, 3, i32::MIN as int, i32::MAX as int),
    ) {
        (Some(i), Some(size), Some(mine), Some(dormant)) => if i < 37 && size <= 3 && (mine == 0 || mine == 1)
            && (dormant == 0 || dormant == 1) {
            Some(
                (
                    i as usize,
                    Cell { player: if mine == 1 { 0u8 } else { 1u8 }, tree: tree_of(size), is_dormant: dormant == 1 },
                ),
            )
        } else {
            None
        },
        _ => None,
    }
}

/// Reads a line of the trees (see `spec_tree_line`).
pub fn tree_line(line: &str) -> (r: Option<(usize, Cell)>)
    ensures
        r == spec_tree_line(line@),
{
    let cs = crate::text::str_chars(line);
    let index = read_field(cs.as_slice(), 0, 0, i64::MAX);
    let size = read_field(cs.as_slice(), 1, 0, 255);
    let mine = read_field(cs.as_slice(), 2, i32::MIN as i64, i32::MAX as i64);
    let dormant = read_field(cs.as_slice(), 3, i32::MIN as i64, i32::MAX as i64);
    match (index, size, mine, dormant) {
        (Some(i), Some(sz), Some(m), Some(d)) => {
            if i >= 37 || sz > 3 || (m != 0 && m != 1) || (d != 0 && d != 1) {
                return None;
            }
            let tree = if sz == 0 {
                Tree::SEED
            } else if sz == 1 {
                Tree::SMALL_TREE
            } else if sz == 2 {
                Tree::MEDIUM_TREE
            } else {
                Tree::LARGE_TREE
            };
            Some((i as usize, Cell { player: if m == 1 { 0u8 } else { 1u8 }, tree, is_dormant: d == 1 }))
        },
        _ => None,
    }
}

/// A line `sun score` of the reading player.
pub open spec fn spec_sun_and_score(line: Seq<char>) -> Option<(u32, u32)> {
    match (line_field(line, 0, 0, u32::MAX as int), line_field(line, 1, 0, u32::MAX as int)) {
        (Some(sun), Some(score)) => Some((sun as u32, score as u32)),
        _ => None,
    }
}

pub fn sun_and_score(line: &str) -> (r: Option<(u32, u32)>)
    ensures
        r == spec_sun_and_score(line@),
{
    let cs = crate::text::str_chars(line);
    match (read_field(cs.as_slice(), 0, 0, u32::MAX as i64), read_field(cs.as_slice(), 1, 0, u32::MAX as i64)) {
        (Some(sun), Some(score)) => Some((sun as u32, score as u32)),
        _ => None,
    }
}

/// A line `sun score is_waiting` of the other player, the flag 0 or 1.
pub open spec fn spec_opponent_line(line: Seq<char>) -> Option<(u32, u32, bool)> {
    match (
        line_field(line, 0, 0, u32::MAX as int),
        line_field(line, 1, 0, u32::MAX as int),
        line_field(line, 2, i32::MIN as int, i32::MAX as int),
    ) {
        (Some(sun), Some(score), Some(w)) => if w == 0 || w == 1 {
            Some((sun as u32, score as u32, w == 1))
        } else {
            None
        },
        _ => None,
    }
}

pub fn opponent_line(line: &str) -> (r: Option<(u32, u32, bool)>)
    ensures
        r == spec_opponent_line(line@),
{
    let cs = crate::text::str_chars(line);
    match (
        read_field(cs.as_slice(), 0, 0, u32::MAX as i64),
        read_field(cs.as_slice(), 1, 0, u32::MAX as i64),
        read_field(cs.as_slice(), 2, i32::MIN as i64, i32::MAX as i64),
    ) {
        (Some(sun), Some(score), Some(w)) => if w == 0 || w == 1 {
            Some((sun as u32, score as u32, w == 1))
        } else {
            None
        },
        _ => None,
    }
}

/// A line holding one number of an integer type with values `min..=max`.
pub open spec fn spec_number_line(line: Seq<char>, min: int, max: int) -> Option<int> {
    parse_integer(trim(line), min, max)
}

pub fn number_line(line: &str, min: i64, max: i64) -> (r: Option<i64>)
    requires
        min <= 0 <= max,
    ensures
        r matches Some(v) ==> spec_number_line(line@, min as int, max as int) == Some(v as int),
        r is None ==> spec_number_line(line@, min as int, max as int) is None,
{
    let cs = crate::text::str_chars(line);
    read_number(cs.as_slice(), min, max)
}

/// The tree a list of trees puts on cell `p`: that of the last entry for
/// it, if any.
pub open spec fn tree_at(trees: Seq<(usize, Cell)>, p: int, n: int) -> Option<Cell>
    decreases n,
{
    if n <= 0 {
        None
    } else if trees[n - 1].0 == p {
        Some(trees[n - 1].1)
    } else {
        tree_at(trees, p, n - 1)
    }
}

/// The board of the listed trees.
pub open spec fn input_board(trees: Seq<(usize, Cell)>) -> Seq<Option<Cell>> {
    Seq::new(37, |p: int| tree_at(trees, p, trees.len() as int))
}

/// The number of trees of size `t` of player `pid` on the first `n` cells.
pub open spec fn count_of(board: Seq<Option<Cell>>, pid: int, t: Tree, n: int) -> int
    decreases n,
{
    if n <= 0 {
        0
    } else {
        count_of(board, pid, t, n - 1) + if board[n - 1] matches Some(c) && c.player == pid && c.tree == t {
            1int
        } else {
            0int
        }
    }
}

/// A player as the input shows it: its sun, score and sleep, and its trees
/// counted on the board.
pub open spec fn input_player(board: Seq<Option<Cell>>, pid: int, sun: u32, score: u32, asleep: bool) -> Player {
    Player {
        move_: None,
        sun,
        score,
        seed_count: count_of(board, pid, Tree::SEED, 37) as u8,
        small_tree_count: count_of(board, pid, Tree::SMALL_TREE, 37) as u8,
        medium_tree_count: count_of(board, pid, Tree::MEDIUM_TREE, 37) as u8,
        large_tree_count: count_of(board, pid, Tree::LARGE_TREE, 37) as u8,
        is_asleep: asleep,
    }
}

/// The state of a turn from the input: the reading player is player 0 and
/// moves; the game goes on.
pub open spec fn input_state(
    day: u8,
    nutrient: u8,
    me: (u32, u32),
    opponent: (u32, u32, bool),
    trees: Seq<(usize, Cell)>,
    turn_during_day: u8,
) -> SimModel {
    let board = input_board(trees);
    SimModel {
        board,
        players: seq![
            input_player(board, 0, me.0, me.1, false),
            input_player(board, 1, opponent.0, opponent.1, opponent.2),
        ],
        nutrient,
        day,
        turn_during_day,
        active: true,
        active_player: 0,
        winners: None,
    }
}

proof fn lemma_count_bound(board: Seq<Option<Cell>>, pid: int, t: Tree, n: int)
    ensures
        0 <= count_of(board, pid, t, n) <= if n < 0 { 0 } else { n },
    decreases n,
{
    if n > 0 {
        lemma_count_bound(board, pid, t, n - 1);
    }
}

/// Builds the state of a turn (see `input_state`).
pub fn state_from_input(
    day: u8,
    nutrient: u8,
    me: (u32, u32),
    opponent: (u32, u32, bool),
    trees: &[(usize, Cell)],
    turn_during_day: u8,
) -> (s: State)
    requires
        forall|k: int| 0 <= k < trees@.len() ==> (#[trigger] trees@[k]).0 < 37 && trees@[k].1.player < 2,
    ensures
        s.wf(),
        s@ == input_state(day, nutrient, me, opponent, trees@, turn_during_day),
{
    let mut board: [Option<Cell>; 37] = [None; 37];
    let mut i: usize = 0;
    while i < 37
        invariant
            i <= 37,
            forall|q: int| 0 <= q < i ==> #[trigger] board@[q] is None,
        decreases 37 - i,
    {
        board[i] = None;
        i += 1;
    }
    let mut k: usize = 0;
    while k < trees.len()
        invariant
            k <= trees@.len(),
            forall|j: int| 0 <= j < trees@.len() ==> (#[trigger] trees@[j]).0 < 37 && trees@[j].1.player < 2,
            forall|q: int| 0 <= q < 37 ==> #[trigger] board@[q] == tree_at(trees@, q, k as int),
        decreases trees@.len() - k,
    {
        let (index, cell) = trees[k];
        board[index] = Some(cell);
        k += 1;
    }
    assert(board@ =~= input_board(trees@));
    let mut counts: [[u8; 4]; 2] = [[0; 4]; 2];
    let mut q: usize = 0;
    while q < 37
        invariant
            q <= 37,
            board@ == input_board(trees@),
            forall|pid: int| 0 <= pid < 2 ==> #[trigger] counts[pid][0] == count_of(board@, pid, Tree::SEED, q as int),
            forall|pid: int| 0 <= pid < 2 ==> #[trigger] counts[pid][1] == count_of(board@, pid, Tree::SMALL_TREE, q as int),
            forall|pid: int| 0 <= pid < 2 ==> #[trigger] counts[pid][2] == count_of(board@, pid, Tree::MEDIUM_TREE, q as int),
            forall|pid: int| 0 <= pid < 2 ==> #[trigger] counts[pid][3] == count_of(board@, pid, Tree::LARGE_TREE, q as int),
            forall|j: int| 0 <= j < trees@.len() ==> (#[trigger] trees@[j]).0 < 37 && trees@[j].1.player < 2,
        decreases 37 - q,
    {
        proof {
            lemma_count_bound(board@, 0, Tree::SEED, q as int);
            lemma_count_bound(board@, 1, Tree::SEED, q as int);
            lemma_count_bound(board@, 0, Tree::SMALL_TREE, q as int);
            lemma_count_bound(board@, 1, Tree::SMALL_TREE, q as int);
            lemma_count_bound(board@, 0, Tree::MEDIUM_TREE, q as int);
            lemma_count_bound(board@, 1, Tree::MEDIUM_TREE, q as int);
            lemma_count_bound(board@, 0, Tree::LARGE_TREE, q as int);
            lemma_count_bound(board@, 1, Tree::LARGE_TREE, q as int);
        }
        if let Some(c) = board[q] {
            proof {
                assert(tree_at(trees@, q as int, trees@.len() as int) == Some(c));
                lemma_tree_at_owner(trees@, q as int, trees@.len() as int);
            }
            let pid = c.player as usize;
            let t: usize = if c.tree == Tree::SEED {
                0
            } else if c.tree == Tree::SMALL_TREE {
                1
            } else if c.tree == Tree::MEDIUM_TREE {
                2
            } else {
                3
            };
            counts[pid][t] = counts[pid][t] + 1;
        }
        q += 1;
    }
    let players: [Player; 2] = [
        Player {
            move_: None,
            sun: me.0,
            score: me.1,
            seed_count: counts[0][0],
            small_tree_count: counts[0][1],
            medium_tree_count: counts[0][2],
            large_tree_count: counts[0][3],
            is_asleep: false,
        },
        Player {
            move_: None,
            sun: opponent.0,
            score: opponent.1,
            seed_count: counts[1][0],
            small_tree_count: counts[1][1],
            medium_tree_count: counts[1][2],
            large_tree_count: counts[1][3],
            is_asleep: opponent.2,
        },
    ];
    let s = State {
        board,
        players,
        nutrient,
        day,
        turn_during_day,
        active: true,
        active_player: 0,
        winners: None,
    };
    assert(owners_ok(s.board@)) by {
        assert forall|p: int| 0 <= p < s.board@.len() implies (#[trigger] s.board@[p] matches Some(c) ==> c.player < 2) by {
            lemma_tree_at_owner(trees@, p, trees@.len() as int);
        }
    }
    assert(s@.players =~= input_state(day, nutrient, me, opponent, trees@, turn_during_day).players);
    assert(s@ =~= input_state(day, nutrient, me, opponent, trees@, turn_during_day));
    s
}

proof fn lemma_tree_at_owner(trees: Seq<(usize, Cell)>, p: int, n: int)
    requires
        n <= trees.len(),
        forall|k: int| 0 <= k < trees.len() ==> (#[trigger] trees[k]).0 < 37 && trees[k].1.player < 2,
    ensures
        tree_at(trees, p, n) matches Some(c) ==> c.player < 2,
    decreases n,
{
    if n > 0 {
        assert(trees[n - 1].0 < 37);
        lemma_tree_at_owner(trees, p, n - 1);
    }
}

/// The turn within the day at a new input: 0 on a new day, else one more
/// than at the last input.
pub fn next_turn_during_day(prev_day: i8, day: u8, turn_during_day: u8) -> (r: u8)
    requires
        prev_day >= day as i8 ==> turn_during_day < 255,
    ensures
        r == if prev_day < day as i8 { 0 } else { turn_during_day + 1 },
{
    if prev_day < day as i8 {
        0
    } else {
        turn_during_day + 1
    }
}


/// What a player knows of a referee's game: all of it but the count of
/// turns.
pub open spec fn sim_of(g: ForestModel) -> SimModel {
    SimModel {
        board: g.board,
        players: g.players,
        nutrient: g.nutrient,
        day: g.day,
        turn_during_day: g.turn_during_day,
        active: g.active,
        active_player: g.active_player,
        winners: g.winners,
    }
}

/// A player's simulation follows the referee: when every move of the turn
/// is one of its player's valid moves, playing a move on what the player
/// knows of a game gives what it knows of the game the referee goes on
/// with.
pub proof fn law_simulation_follows_referee(g: ForestModel, cache: Cache, m: Move)
    requires
        g.players.len() == 2,
        g.active_player < 2,
        both_played(record(g, m)) ==> move_ok(record(g, m), cache, 0) && move_ok(record(g, m), cache, 1),
    ensures
        spec_update_state(sim_of(g), cache, m) == sim_of(spec_play(g, cache, m)),
{
    let g1 = record(g, m);
    assert(recorded(sim_of(g), m) =~= sim_of(g1));
    if both_played(g1) {
        let g2 = apply_moves(g1, cache);
        assert(applied(sim_of(g1), cache) =~= sim_of(g2));
        assert(new_day(sim_of(g2)) =~= sim_of(next_day(g2)));
        assert(advanced(sim_of(g2)) =~= sim_of(after_moves(g2)));
        assert(ended(sim_of(after_moves(g2))) =~= sim_of(finish(after_moves(g2))));
    } else {
        assert(new_day(sim_of(g1)) =~= sim_of(next_day(g1)));
        assert(advanced(sim_of(g1)) =~= sim_of(after_moves(g1)));
        assert(ended(sim_of(after_moves(g1))) =~= sim_of(finish(after_moves(g1))));
    }
}

} // verus!
