//! The forest game as a beam-searching player plans its own moves: only its
//! own trees, no seeds, six days, and a fixed soil (rich in the centre,
//! poorer outwards).
use vstd::prelude::*;
use crate::text::{decimal, line_field, push_u64, read_field, str_chars};
use crate::witches_brew::protocol::push_chars;

verus! {

/// A move the planner considers.
#[derive(Clone, Copy, PartialEq, Eq, Debug, Structural)]
pub enum Move {
    GROW(u8),
    COMPLETE(u8),
    WAIT,
}

/// The text of a move: `GROW cell`, `COMPLETE cell` or `WAIT`.
pub open spec fn solo_move_text(m: Move) -> Seq<char> {
    match m {
        Move::GROW(i) => seq!['G', 'R', 'O', 'W', ' '] + decimal(i as nat),
        Move::COMPLETE(i) => seq!['C', 'O', 'M', 'P', 'L', 'E', 'T', 'E', ' '] + decimal(i as nat),
        Move::WAIT => seq!['W', 'A', 'I', 'T'],
    }
}

impl Move {
    pub fn to_string(&self) -> (s: String)
        ensures
            s@ == solo_move_text(*self),
    {
        let mut s = String::new();
        match *self {
            Move::GROW(i) => {
                push_chars(&mut s, &['G', 'R', 'O', 'W', ' ']);
                push_u64(&mut s, i as u64);
            },
            Move::COMPLETE(i) => {
                push_chars(&mut s, &['C', 'O', 'M', 'P', 'L', 'E', 'T', 'E', ' ']);
                push_u64(&mut s, i as u64);
            },
            Move::WAIT => push_chars(&mut s, &['W', 'A', 'I', 'T']),
        }
        s
    }
}

/// A tree the planner considers (seeds are left out).
#[allow(non_camel_case_types)]
#[derive(Clone, Copy, PartialEq, Eq, Debug, Structural)]
pub enum Tree {
    SMALL_TREE,
    MEDIUM_TREE,
    LARGE_TREE,
}

#[derive(Clone, Copy, PartialEq, Eq, Debug, Structural)]
pub struct Cell {
    pub player: u8,
    pub tree: Tree,
    pub is_dormant: bool,
}

#[derive(Clone, Copy, PartialEq, Eq, Debug, Structural)]
pub struct Player {
    pub sun: u32,
    pub score: u32,
    pub small_tree_count: u8,
    pub medium_tree_count: u8,
    pub large_tree_count: u8,
}

/// What the planner knows: its trees, its sun, score and tree counts, the
/// nutrient and the time.
#[derive(Clone, Copy)]
pub struct State {
    pub board: [Option<Cell>; 37],
    pub player: Player,
    pub nutrient: u8,
    pub day: u8,
    pub turn_during_day: u8,
}

/// The planner's state as the rules see it.
#[verifier::ext_equal]
pub struct SoloModel {
    pub board: Seq<Option<Cell>>,
    pub player: Player,
    pub nutrient: u8,
    pub day: u8,
    pub turn_during_day: u8,
}

impl View for State {
    type V = SoloModel;

    open spec fn view(&self) -> SoloModel {
        SoloModel {
            board: self.board@,
            player: self.player,
            nutrient: self.nutrient,
            day: self.day,
            turn_during_day: self.turn_during_day,
        }
    }
}

impl Default for State {
    /// An empty board, no sun, nutrient 20, day 0.
    fn default() -> (s: Self)
        ensures
            forall|i: int| 0 <= i < 37 ==> #[trigger] s.board@[i] is None,
            s.player == (Player { sun: 0, score: 0, small_tree_count: 0, medium_tree_count: 0, large_tree_count: 0 }),
            s.nutrient == 20,
            s.day == 0,
            s.turn_during_day == 0,
    {
        let mut board: [Option<Cell>; 37] = [None; 37];
        let mut i: usize = 0;
        while i < 37
            invariant
                i <= 37,
                forall|j: int| 0 <= j < i ==> #[trigger] board@[j] is None,
            decreases 37 - i,
        {
            board[i] = None;
            i += 1;
        }
        State {
            board,
            player: Player { sun: 0, score: 0, small_tree_count: 0, medium_tree_count: 0, large_tree_count: 0 },
            nutrient: 20,
            day: 0,
            turn_during_day: 0,
        }
    }
}

/// The points the soil of a cell adds to a completed tree: 4 in the
/// centre (cells 0 to 6), 2 around (7 to 18), none at the edge.
pub open spec fn soil_points(cell: int) -> int {
    if cell <= 6 {
        4
    } else if cell <= 18 {
        2
    } else {
        0
    }
}

pub fn get_cell_richness_points(cell: usize) -> (p: u32)
    requires
        cell < 37,
    ensures
        p == soil_points(cell as int),
{
    if cell <= 6 {
        4
    } else if cell <= 18 {
        2
    } else {
        0
    }
}

/// The sun of a day: one per small tree, two per medium, three per large.
pub open spec fn day_sun(p: Player) -> int {
    p.small_tree_count + 2 * p.medium_tree_count + 3 * p.large_tree_count
}

pub fn gained_sun_points(small_tree_count: u8, medium_tree_count: u8, large_tree_count: u8) -> (s: u32)
    ensures
        s == small_tree_count + 2 * medium_tree_count + 3 * large_tree_count,
{
    small_tree_count as u32 + medium_tree_count as u32 * 2 + large_tree_count as u32 * 3
}

/// The move a tree on cell `i` allows: grow a small or medium tree, or
/// complete a large one, if the sun suffices.
pub open spec fn cell_move(s: SoloModel, i: int) -> Option<Move> {
    match s.board[i] {
        Some(c) => match c.tree {
            Tree::SMALL_TREE => if s.player.sun >= 3 + s.player.medium_tree_count {
                Some(Move::GROW(i as u8))
            } else {
                None
            },
            Tree::MEDIUM_TREE => if s.player.sun >= 7 + s.player.large_tree_count {
                Some(Move::GROW(i as u8))
            } else {
                None
            },
            Tree::LARGE_TREE => if s.player.sun >= 4 {
                Some(Move::COMPLETE(i as u8))
            } else {
                None
            },
        },
        None => None,
    }
}

/// The moves of the trees on the first `n` cells, in cell order.
pub open spec fn board_moves(s: SoloModel, n: int) -> Seq<Move>
    decreases n,
{
    if n <= 0 {
        Seq::empty()
    } else {
        board_moves(s, n - 1) + match cell_move(s, n - 1) {
            Some(m) => seq![m],
            None => Seq::<Move>::empty(),
        }
    }
}

/// The moves the planner considers: none from day 6 on, else the moves of
/// its trees, then WAIT.
pub open spec fn solo_moves(s: SoloModel) -> Seq<Move> {
    if s.day >= 6 {
        Seq::empty()
    } else {
        board_moves(s, 37).push(Move::WAIT)
    }
}

pub open spec fn awake(o: Option<Cell>) -> Option<Cell> {
    match o {
        Some(c) => Some(Cell { is_dormant: false, ..c }),
        None => None,
    }
}

/// The state after a move: a grown tree becomes dormant and costs sun; a
/// completed tree scores the nutrient and the soil points and takes two
/// from the nutrient (the other player is assumed to complete one too);
/// WAIT starts a new day, on which the trees collect sun before day 6.
pub open spec fn spec_update(s: SoloModel, m: Move) -> SoloModel {
    let p = s.player;
    match m {
        Move::GROW(c) => {
            let cell = s.board[c as int]->0;
            match cell.tree {
                Tree::SMALL_TREE => SoloModel {
                    board: s.board.update(c as int, Some(Cell { tree: Tree::MEDIUM_TREE, is_dormant: true, ..cell })),
                    player: Player {
                        sun: (p.sun - 3 - p.medium_tree_count) as u32,
                        small_tree_count: (p.small_tree_count - 1) as u8,
                        medium_tree_count: (p.medium_tree_count + 1) as u8,
                        ..p
                    },
                    turn_during_day: (s.turn_during_day + 1) as u8,
                    ..s
                },
                _ => SoloModel {
                    board: s.board.update(c as int, Some(Cell { tree: Tree::LARGE_TREE, is_dormant: true, ..cell })),
                    player: Player {
                        sun: (p.sun - 7 - p.large_tree_count) as u32,
                        medium_tree_count: (p.medium_tree_count - 1) as u8,
                        large_tree_count: (p.large_tree_count + 1) as u8,
                        ..p
                    },
                    turn_during_day: (s.turn_during_day + 1) as u8,
                    ..s
                },
            }
        },
        Move::COMPLETE(c) => SoloModel {
            board: s.board.update(c as int, None),
            player: Player {
                sun: (p.sun - 4) as u32,
                score: (p.score + s.nutrient + soil_points(c as int)) as u32,
                large_tree_count: (p.large_tree_count - 1) as u8,
                ..p
            },
            nutrient: (s.nutrient - 2) as u8,
            turn_during_day: (s.turn_during_day + 1) as u8,
            ..s
        },
        Move::WAIT => {
            let day = s.day + 1;
            SoloModel {
                board: s.board.map_values(|o: Option<Cell>| awake(o)),
                player: if day < 6 {
                    Player { sun: (p.sun + day_sun(p)) as u32, ..p }
                } else {
                    p
                },
                day: day as u8,
                turn_during_day: 0,
                ..s
            }
        },
    }
}

/// A move can be played: its cell holds a tree it can act on (not a large
/// tree to grow), and no count, sun, score, nutrient or time leaves its
/// range.
pub open spec fn update_fits(s: SoloModel, m: Move) -> bool {
    let p = s.player;
    match m {
        Move::GROW(c) => {
            &&& c < 37
            &&& s.board[c as int] is Some
            &&& s.turn_during_day < 255
            &&& match s.board[c as int]->0.tree {
                Tree::SMALL_TREE => p.sun >= 3 + p.medium_tree_count && p.small_tree_count >= 1 && p.medium_tree_count < 255,
                Tree::MEDIUM_TREE => p.sun >= 7 + p.large_tree_count && p.medium_tree_count >= 1 && p.large_tree_count < 255,
                Tree::LARGE_TREE => false,
            }
        },
        Move::COMPLETE(c) => {
            &&& c < 37
            &&& p.sun >= 4
            &&& p.score + s.nutrient + soil_points(c as int) <= u32::MAX
            &&& p.large_tree_count >= 1
            &&& s.nutrient >= 2
            &&& s.turn_during_day < 255
        },
        Move::WAIT => {
            &&& s.day < 255
            &&& s.day + 1 < 6 ==> p.sun + day_sun(p) <= u32::MAX
        },
    }
}

/// Plays a move (see `spec_update`).
pub fn update(state: &State, move_: &Move) -> (r: State)
    requires
        update_fits(state@, *move_),
    ensures
        r@ == spec_update(state@, *move_),
{
    let mut new_state = *state;
    match *move_ {
        Move::GROW(cell_id) => {
            let cell = new_state.board[cell_id as usize].unwrap();
            if cell.tree == Tree::SMALL_TREE {
                new_state.player.sun = new_state.player.sun - (3 + new_state.player.medium_tree_count as u32);
                new_state.player.small_tree_count = new_state.player.small_tree_count - 1;
                new_state.player.medium_tree_count = new_state.player.medium_tree_count + 1;
                new_state.board[cell_id as usize] = Some(Cell { tree: Tree::MEDIUM_TREE, is_dormant: true, ..cell });
            } else {
                new_state.player.sun = new_state.player.sun - (7 + new_state.player.large_tree_count as u32);
                new_state.player.medium_tree_count = new_state.player.medium_tree_count - 1;
                new_state.player.large_tree_count = new_state.player.large_tree_count + 1;
                new_state.board[cell_id as usize] = Some(Cell { tree: Tree::LARGE_TREE, is_dormant: true, ..cell });
            }
            new_state.turn_during_day = new_state.turn_during_day + 1;
        },
        Move::COMPLETE(cell_id) => {
            new_state.player.sun = new_state.player.sun - 4;
            new_state.player.score = new_state.player.score + (new_state.nutrient as u32 + get_cell_richness_points(
                cell_id as usize,
            ));
            new_state.player.large_tree_count = new_state.player.large_tree_count - 1;
            new_state.board[cell_id as usize] = None;
            new_state.nutrient = new_state.nutrient - 2;
            new_state.turn_during_day = new_state.turn_during_day + 1;
        },
        Move::WAIT => {
            new_state.day = new_state.day + 1;
            new_state.turn_during_day = 0;
            let ghost b0 = new_state.board@;
            let mut i: usize = 0;
            while i < 37
                invariant
                    i <= 37,
                    b0.len() == 37,
                    b0 == state.board@,
                    new_state.player == state.player,
                    new_state.day == state.day + 1,
                    new_state.nutrient == state.nutrient,
                    new_state.turn_during_day == 0,
                    update_fits(state@, *move_),
                    *move_ == Move::WAIT,
                    forall|q: int| 0 <= q < i ==> #[trigger] new_state.board@[q] == awake(b0[q]),
                    forall|q: int| i <= q < 37 ==> #[trigger] new_state.board@[q] == b0[q],
                decreases 37 - i,
            {
                if let Some(c) = new_state.board[i] {
                    new_state.board[i] = Some(Cell { is_dormant: false, ..c });
                }
                i += 1;
            }
            assert(new_state.board@ =~= b0.map_values(|o: Option<Cell>| awake(o)));
            if new_state.day < 6 {
                new_state.player.sun = new_state.player.sun + gained_sun_points(
                    new_state.player.small_tree_count,
                    new_state.player.medium_tree_count,
                    new_state.player.large_tree_count,
                );
            }
        },
    }
    assert(new_state@ =~= spec_update(state@, *move_));
    new_state
}

/// Every move the planner considers can be played.
pub open spec fn moves_fit(s: SoloModel) -> bool {
    forall|k: int| 0 <= k < solo_moves(s).len() ==> update_fits(s, #[trigger] solo_moves(s)[k])
}

/// The moves the planner considers (see `solo_moves`), each with the state
/// it leads to.
pub fn next_states(state: &State) -> (r: Vec<(Move, State)>)
    requires
        moves_fit(state@),
    ensures
        r@.len() == solo_moves(state@).len(),
        forall|k: int| 0 <= k < r@.len() ==> (#[trigger] r@[k]).0 == solo_moves(state@)[k] && r@[k].1@ == spec_update(
            state@,
            solo_moves(state@)[k],
        ),
{
    let p_sun = state.player.sun;
    let p_medium_tree_count = state.player.medium_tree_count;
    let p_large_tree_count = state.player.large_tree_count;
    let mut valid_moves: Vec<Move> = Vec::new();
    if state.day < 6 {
        let mut i: usize = 0;
        while i < 37
            invariant
                i <= 37,
                p_sun == state.player.sun,
                p_medium_tree_count == state.player.medium_tree_count,
                p_large_tree_count == state.player.large_tree_count,
                valid_moves@ == board_moves(state@, i as int),
            decreases 37 - i,
        {
            if let Some(c) = state.board[i] {
                if c.tree == Tree::SMALL_TREE {
                    if p_sun >= 3 + p_medium_tree_count as u32 {
                        valid_moves.push(Move::GROW(i as u8));
                    }
                } else if c.tree == Tree::MEDIUM_TREE {
                    if p_sun >= 7 + p_large_tree_count as u32 {
                        valid_moves.push(Move::GROW(i as u8));
                    }
                } else {
                    if p_sun >= 4 {
                        valid_moves.push(Move::COMPLETE(i as u8));
                    }
                }
            }
            assert(valid_moves@ =~= board_moves(state@, i + 1));
            i += 1;
        }
        valid_moves.push(Move::WAIT);
    }
    assert(valid_moves@ =~= solo_moves(state@));
    let mut result: Vec<(Move, State)> = Vec::new();
    let mut k: usize = 0;
    while k < valid_moves.len()
        invariant
            k <= valid_moves@.len(),
            valid_moves@ == solo_moves(state@),
            moves_fit(state@),
            result@.len() == k,
            forall|j: int| 0 <= j < k ==> (#[trigger] result@[j]).0 == solo_moves(state@)[j] && result@[j].1@
                == spec_update(state@, solo_moves(state@)[j]),
        decreases valid_moves@.len() - k,
    {
        let m = valid_moves[k];
        assert(update_fits(state@, solo_moves(state@)[k as int]));
        let next = update(state, &m);
        result.push((m, next));
        k += 1;
    }
    result
}

/// The tree of a size number of the input (1 to 3; seeds are not read).
pub open spec fn solo_tree_of(size: int) -> Option<Tree> {
    if size == 1 {
        Some(Tree::SMALL_TREE)
    } else if size == 2 {
        Some(Tree::MEDIUM_TREE)
    } else if size == 3 {
        Some(Tree::LARGE_TREE)
    } else {
        None
    }
}

/// A tree line of the input, `cell size is_mine is_dormant`: the planner's
/// own trees (size 1 to 3, dormancy 0 or 1, the cell on the board); other
/// trees are `Some(None)`; `None` where the line cannot be read.
pub open spec fn spec_own_tree_line(line: Seq<char>) -> Option<Option<(usize, Cell)>> {
    let index = line_field(line, 0, 0, i64::MAX as int);
    let size = line_field(line, 1, 0, 255);
    let mine = line_field(line, 2, i32::MIN as int, i32::MAX as int);
    let dormant = line_field(line, 3, i32::MIN as int, i32::MAX as int);
    if index is Some && size is Some && mine is Some && dormant is Some {
        if mine->0 != 1 {
            Some(None)
        } else if index->0 < 37 && solo_tree_of(size->0) is Some && (dormant->0 == 0 || dormant->0 == 1) {
            Some(
                Some(
                    (
                        index->0 as usize,
                        Cell { player: 0, tree: solo_tree_of(size->0)->0, is_dormant: dormant->0 == 1 },
                    ),
                ),
            )
        } else {
            None
        }
    } else {
        None
    }
}

pub fn own_tree_line(line: &str) -> (r: Option<Option<(usize, Cell)>>)
    ensures
        r == spec_own_tree_line(line@),
{
    let cs = str_chars(line);
    let index = read_field(cs.as_slice(), 0, 0, i64::MAX);
    let size = read_field(cs.as_slice(), 1, 0, 255);
    let mine = read_field(cs.as_slice(), 2, i32::MIN as i64, i32::MAX as i64);
    let dormant = read_field(cs.as_slice(), 3, i32::MIN as i64, i32::MAX as i64);
    match (index, size, mine, dormant) {
        (Some(i), Some(sz), Some(m), Some(d)) => {
            if m != 1 {
                return Some(None);
            }
            if i >= 37 || (d != 0 && d != 1) {
                return None;
            }
            let tree = if sz == 1 {
                Tree::SMALL_TREE
            } else if sz == 2 {
                Tree::MEDIUM_TREE
            } else if sz == 3 {
                Tree::LARGE_TREE
            } else {
                return None;
            };
            Some(Some((i as usize, Cell { player: 0, tree, is_dormant: d == 1 })))
        },
        _ => None,
    }
}

/// The planner's state of a turn from its own trees (later lines about a
/// cell replace earlier ones; each line counts its tree), its sun and score,
/// the nutrient and the time. `None` when a count would pass 255.
pub open spec fn own_state(
    trees: Seq<(usize, Cell)>,
    sun: u32,
    score: u32,
    nutrient: u8,
    day: u8,
    turn_during_day: u8,
) -> Option<SoloModel>
    decreases trees.len(),
{
    if trees.len() == 0 {
        Some(
            SoloModel {
                board: Seq::new(37, |i: int| None),
                player: Player { sun, score, small_tree_count: 0, medium_tree_count: 0, large_tree_count: 0 },
                nutrient,
                day,
                turn_during_day,
            },
        )
    } else {
        match own_state(trees.drop_last(), sun, score, nutrient, day, turn_during_day) {
            Some(s) => {
                let (i, c) = trees.last();
                let p = s.player;
                let counted = match c.tree {
                    Tree::SMALL_TREE => if p.small_tree_count < 255 {
                        Some(Player { small_tree_count: (p.small_tree_count + 1) as u8, ..p })
                    } else {
                        None
                    },
                    Tree::MEDIUM_TREE => if p.medium_tree_count < 255 {
                        Some(Player { medium_tree_count: (p.medium_tree_count + 1) as u8, ..p })
                    } else {
                        None
                    },
                    Tree::LARGE_TREE => if p.large_tree_count < 255 {
                        Some(Player { large_tree_count: (p.large_tree_count + 1) as u8, ..p })
                    } else {
                        None
                    },
                };
                match counted {
                    Some(q) => Some(SoloModel { board: s.board.update(i as int, Some(c)), player: q, ..s }),
                    None => None,
                }
            },
            None => None,
        }
    }
}

/// Builds the planner's state of a turn (see `own_state`).
pub fn state_from_own_trees(
    trees: &[(usize, Cell)],
    sun: u32,
    score: u32,
    nutrient: u8,
    day: u8,
    turn_during_day: u8,
) -> (r: Option<State>)
    requires
        forall|k: int| 0 <= k < trees@.len() ==> (#[trigger] trees@[k]).0 < 37,
    ensures
        match r {
            Some(s) => own_state(trees@, sun, score, nutrient, day, turn_during_day) == Some(s@),
            None => own_state(trees@, sun, score, nutrient, day, turn_during_day) is None,
        },
{
    let mut state = State::default();
    state.player.sun = sun;
    state.player.score = score;
    state.nutrient = nutrient;
    state.day = day;
    state.turn_during_day = turn_during_day;
    assert(state@ =~= own_state(trees@.take(0), sun, score, nutrient, day, turn_during_day)->0);
    let mut k: usize = 0;
    while k < trees.len()
        invariant
            k <= trees@.len(),
            forall|j: int| 0 <= j < trees@.len() ==> (#[trigger] trees@[j]).0 < 37,
            own_state(trees@.take(k as int), sun, score, nutrient, day, turn_during_day) == Some(state@),
        decreases trees@.len() - k,
    {
        let (i, c) = trees[k];
        assert(trees@.take(k + 1).drop_last() =~= trees@.take(k as int));
        assert(trees@.take(k + 1).last() == (i, c));
        if c.tree == Tree::SMALL_TREE {
            if state.player.small_tree_count == 255 {
                proof {
                    lemma_own_state_stuck(trees@, k as int, sun, score, nutrient, day, turn_during_day);
                }
                return None;
            }
            state.player.small_tree_count = state.player.small_tree_count + 1;
        } else if c.tree == Tree::MEDIUM_TREE {
            if state.player.medium_tree_count == 255 {
                proof {
                    lemma_own_state_stuck(trees@, k as int, sun, score, nutrient, day, turn_during_day);
                }
                return None;
            }
            state.player.medium_tree_count = state.player.medium_tree_count + 1;
        } else {
            if state.player.large_tree_count == 255 {
                proof {
                    lemma_own_state_stuck(trees@, k as int, sun, score, nutrient, day, turn_during_day);
                }
                return None;
            }
            state.player.large_tree_count = state.player.large_tree_count + 1;
        }
        state.board[i] = Some(c);
        assert(state@ =~= own_state(trees@.take(k + 1), sun, score, nutrient, day, turn_during_day)->0);
        k += 1;
    }
    assert(trees@.take(trees@.len() as int) =~= trees@);
    Some(state)
}

proof fn lemma_own_state_stuck(
    trees: Seq<(usize, Cell)>,
    k: int,
    sun: u32,
    score: u32,
    nutrient: u8,
    day: u8,
    turn_during_day: u8,
)
    requires
        0 <= k < trees.len(),
        own_state(trees.take(k + 1), sun, score, nutrient, day, turn_during_day) is None,
    ensures
        own_state(trees, sun, score, nutrient, day, turn_during_day) is None,
    decreases trees.len(),
{
    if k < trees.len() - 1 {
        assert(trees.drop_last().take(k + 1) =~= trees.take(k + 1));
        lemma_own_state_stuck(trees.drop_last(), k, sun, score, nutrient, day, turn_during_day);
    } else {
        assert(trees.take(k + 1) =~= trees);
    }
}

} // verus!
