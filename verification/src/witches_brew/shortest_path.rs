//! The potion game as the shortest-path search sees it: one witch, her
//! stock and her spells by id, and one order to brew; and the
//! breadth-first search of the moves that brew it.
use vstd::prelude::*;
use crate::stack_vector::StackVector;
use crate::witches_brew::cache::{Cache, in_table, all_spells, lemma_all_spells_consistent, EXISTING_SPELL_COUNT, EXISTING_ORDER_COUNT};
use crate::witches_brew::rules::{
    Ingredients, Move, Spell, spec_all_orders, add_recipe, fits_repeated, brew_and_update_stock, cast_and_update_stock,
    valid_stock, stock_total, consistent_spell, spec_can_fulfill_order, spec_can_cast_spell,
    spec_how_many_times_can_cast_spell, times_castable, order_amounts, lemma_cast_keeps_stock_valid, lemma_times_step,
    lemma_times_castable_bound,
};
use crate::witches_brew::planner::{
    first_position_of, get_player_spell_position, pair_cast_moves, some_exhausted, lemma_first_position_of_bounds,
};

verus! {

/// The searching witch: her stock, its id, and her spells (id, castable).
pub struct Player {
    pub stock: Ingredients,
    pub stock_id: usize,
    pub spells: StackVector<(u32, bool), EXISTING_SPELL_COUNT>,
}

/// A state of the search: the witch and the order she aims at.
pub struct State {
    pub player: Player,
    pub counter_order: u32,
}

/// A state as the rules see it.
#[verifier::ext_equal]
pub struct PathModel {
    pub stock: Ingredients,
    pub spells: Seq<(u32, bool)>,
    pub counter_order: u32,
}

impl View for State {
    type V = PathModel;

    open spec fn view(&self) -> PathModel {
        PathModel { stock: self.player.stock, spells: self.player.spells@, counter_order: self.counter_order }
    }
}

/// The ids are those of the game.
pub open spec fn path_ids_known(s: PathModel) -> bool {
    &&& s.counter_order < EXISTING_ORDER_COUNT
    &&& forall|i: int| 0 <= i < s.spells.len() ==> (#[trigger] s.spells[i]).0 < EXISTING_SPELL_COUNT
}

impl State {
    /// A state the search can go on from: a stock a witch can hold, with
    /// its id in `cache`, and ids of the game.
    pub open spec fn wf(&self, cache: Cache) -> bool {
        &&& cache.wf()
        &&& self.player.spells.wf()
        &&& valid_stock(self.player.stock)
        &&& self.player.stock_id == cache.stock_id(self.player.stock)
        &&& path_ids_known(self@)
    }

    /// A copy of the state.
    pub fn copy(&self) -> (c: State)
        requires
            self.player.spells.wf(),
        ensures
            c@ == self@,
            c.player.stock_id == self.player.stock_id,
            c.player.spells.wf(),
    {
        State {
            player: Player {
                stock: self.player.stock,
                stock_id: self.player.stock_id,
                spells: StackVector::from(self.player.spells.slice()),
            },
            counter_order: self.counter_order,
        }
    }
}

impl Default for State {
    /// No stock, no spell, order 0.
    fn default() -> (s: Self)
        ensures
            s.player.stock == [0i8, 0i8, 0i8, 0i8],
            s.player.stock_id == 0,
            s@.spells == Seq::<(u32, bool)>::empty(),
            s.player.spells.wf(),
            s.counter_order == 0,
    {
        State { player: Player { stock: [0, 0, 0, 0], stock_id: 0, spells: StackVector::new() }, counter_order: 0 }
    }
}

/// The moves the search considers: brewing the order if the stock allows,
/// casting each castable spell once, twice, ... as many times as it can,
/// and resting when a spell is exhausted.
pub open spec fn path_moves(s: PathModel, cache: Cache, sid: int) -> Seq<Move> {
    (if cache.fulfills_at(sid, s.counter_order as int) {
        seq![Move::BREW(s.counter_order)]
    } else {
        Seq::empty()
    }) + pair_cast_moves(s.spells, cache, sid) + (if some_exhausted(s.spells) {
        seq![Move::REST]
    } else {
        Seq::empty()
    })
}

/// The state after a move: a brew takes the order's ingredients, a cast
/// adds the spell's recipe as many times as cast and exhausts it, a rest
/// makes every spell castable.
pub open spec fn path_update(s: PathModel, m: Move) -> PathModel {
    match m {
        Move::BREW(id) => PathModel { stock: add_recipe(s.stock, spec_all_orders()[id as int].recipe, 1), ..s },
        Move::CAST(id, times) => {
            let pos = first_position_of(s.spells, id)->0;
            PathModel {
                stock: add_recipe(s.stock, all_spells()[id as int].recipe, times as int),
                spells: s.spells.update(pos, (s.spells[pos].0, false)),
                ..s
            }
        },
        Move::REST => PathModel { spells: s.spells.map_values(|p: (u32, bool)| (p.0, true)), ..s },
        _ => s,
    }
}

/// The move can be played: what it names is there, no amount leaves an
/// `i8` and the new stock is one a witch can hold. The search never
/// learns.
pub open spec fn path_update_fits(s: PathModel, m: Move) -> bool {
    match m {
        Move::BREW(id) => {
            &&& id < EXISTING_ORDER_COUNT
            &&& fits_repeated(s.stock, spec_all_orders()[id as int].recipe, 1)
            &&& valid_stock(add_recipe(s.stock, spec_all_orders()[id as int].recipe, 1))
        },
        Move::CAST(id, times) => {
            &&& id < EXISTING_SPELL_COUNT
            &&& first_position_of(s.spells, id) is Some
            &&& fits_repeated(s.stock, all_spells()[id as int].recipe, times as int)
            &&& valid_stock(add_recipe(s.stock, all_spells()[id as int].recipe, times as int))
        },
        Move::LEARN(_) => false,
        _ => true,
    }
}

/// Plays a move of the search (see `path_update`).
pub fn update(state: &State, move_: &Move, cache: &Cache) -> (r: State)
    requires
        state.wf(*cache),
        path_update_fits(state@, *move_),
    ensures
        r.wf(*cache),
        r@ == path_update(state@, *move_),
{
    let ghost s = state@;
    let mut new_state = state.copy();
    match *move_ {
        Move::BREW(order_id) => {
            let order = cache.getOrder(order_id);
            brew_and_update_stock(&mut new_state.player.stock, &order);
            new_state.player.stock_id = cache.getStockId(&new_state.player.stock);
        },
        Move::CAST(spell_id, times) => {
            let spell = cache.getSpell(spell_id);
            let spell_pos = get_player_spell_position(new_state.player.spells.slice(), spell_id).unwrap();
            cast_and_update_stock(&mut new_state.player.stock, &spell.recipe, times);
            new_state.player.stock_id = cache.getStockId(&new_state.player.stock);
            let id = new_state.player.spells.get(spell_pos).0;
            let entry = new_state.player.spells.get_mut(spell_pos);
            *entry = (id, false);
            proof {
                lemma_first_position_of_bounds(s.spells, spell_id);
            }
        },
        Move::REST => {
            let n = new_state.player.spells.len();
            let mut i: usize = 0;
            while i < n
                invariant
                    i <= n,
                    n == s.spells.len(),
                    new_state.player.spells.wf(),
                    new_state.player.spells@.len() == n,
                    new_state.player.stock == s.stock,
                    new_state.counter_order == s.counter_order,
                    new_state.player.stock_id == state.player.stock_id,
                    forall|j: int| 0 <= j < i ==> new_state.player.spells@[j] == (s.spells[j].0, true),
                    forall|j: int| i <= j < n ==> new_state.player.spells@[j] == s.spells[j],
                decreases n - i,
            {
                let id = new_state.player.spells.get(i).0;
                let entry = new_state.player.spells.get_mut(i);
                *entry = (id, true);
                i += 1;
            }
            assert(new_state.player.spells@ =~= s.spells.map_values(|p: (u32, bool)| (p.0, true)));
        },
        Move::LEARN(_) => {},
        _ => {},
    }
    proof {
        assert(new_state@ =~= path_update(s, *move_));
        assert forall|i: int| 0 <= i < new_state@.spells.len() implies (#[trigger] new_state@.spells[i]).0
            < EXISTING_SPELL_COUNT by {
            assert(new_state@.spells[i].0 == s.spells[i].0);
        }
    }
    new_state
}

/// The amounts after adding `k` times `recipe` stay a stock a witch can
/// hold, counted as integers.
pub open spec fn holds_after(s: Ingredients, r: Ingredients, k: int) -> bool {
    &&& 0 <= s[0] + k * r[0]
    &&& 0 <= s[1] + k * r[1]
    &&& 0 <= s[2] + k * r[2]
    &&& 0 <= s[3] + k * r[3]
    &&& (s[0] + k * r[0]) + (s[1] + k * r[1]) + (s[2] + k * r[2]) + (s[3] + k * r[3]) <= 10
}

/// Every order takes from 0 to 5 ingredients of each tier.
proof fn lemma_order_recipes(id: int)
    requires
        0 <= id < EXISTING_ORDER_COUNT,
    ensures
        forall|i: int| 0 <= i < 4 ==> -5 <= #[trigger] spec_all_orders()[id].recipe[i] <= 0,
{
    let a = order_amounts()[id].0;
    assert(0 <= a[0] <= 5 && 0 <= a[1] <= 5 && 0 <= a[2] <= 5 && 0 <= a[3] <= 5);
}

proof fn lemma_brew_fits(s: Ingredients, id: u32)
    requires
        valid_stock(s),
        id < EXISTING_ORDER_COUNT,
        spec_can_fulfill_order(spec_all_orders()[id as int], s),
    ensures
        fits_repeated(s, spec_all_orders()[id as int].recipe, 1),
        valid_stock(add_recipe(s, spec_all_orders()[id as int].recipe, 1)),
{
    let r = spec_all_orders()[id as int].recipe;
    lemma_order_recipes(id as int);
    assert(-5 <= r[0] <= 0 && -5 <= r[1] <= 0 && -5 <= r[2] <= 0 && -5 <= r[3] <= 0);
    assert forall|k: int, i: int| 0 <= k <= 1 && 0 <= i < 4 implies -128 <= #[trigger] (s[i] + k * r[i]) <= 127 by {
        assert(k == 0 || k == 1);
    }
    assert(holds_after(s, r, 1));
}

/// A spell that can be cast `t` times in a row leaves a stock a witch can
/// hold after each of the `k <= t` casts.
proof fn lemma_cast_holds(sp: Spell, s: Ingredients, k: int)
    requires
        consistent_spell(sp),
        valid_stock(s),
        sp.active,
        0 <= k <= spec_how_many_times_can_cast_spell(sp, s),
    ensures
        holds_after(s, sp.recipe, k),
    decreases k,
{
    let r = sp.recipe;
    if k == 0 {
        assert(s[0] + 0 * r[0] == s[0] && s[1] + 0 * r[1] == s[1] && s[2] + 0 * r[2] == s[2] && s[3] + 0 * r[3] == s[3]);
    } else {
        assert(spec_can_cast_spell(sp, s));
        lemma_cast_keeps_stock_valid(sp, s);
        assert(r[0] < 0 ==> s[0] >= -r[0]);
        assert(r[1] < 0 ==> s[1] >= -r[1]);
        assert(r[2] < 0 ==> s[2] >= -r[2]);
        assert(r[3] < 0 ==> s[3] >= -r[3]);
        if k == 1 {
            assert(s[0] + 1 * r[0] == s[0] + r[0] && s[1] + 1 * r[1] == s[1] + r[1] && s[2] + 1 * r[2] == s[2] + r[2] && s[3]
                + 1 * r[3] == s[3] + r[3]);
        } else {
            let s1 = add_recipe(s, r, 1);
            assert(sp.repeatable);
            assert(spec_how_many_times_can_cast_spell(sp, s) == times_castable(sp, s));
            assert(times_castable(sp, s) == 1 + times_castable(sp, s1));
            lemma_cast_holds(sp, s1, k - 1);
            assert(s1[0] == s[0] + r[0] && s1[1] == s[1] + r[1] && s1[2] == s[2] + r[2] && s1[3] == s[3] + r[3]);
            lemma_times_step(s[0] as int, k - 1, r[0] as int);
            lemma_times_step(s[1] as int, k - 1, r[1] as int);
            lemma_times_step(s[2] as int, k - 1, r[2] as int);
            lemma_times_step(s[3] as int, k - 1, r[3] as int);
            assert(s1[0] + (k - 1) * r[0] == s[0] + k * r[0]) by {
                assert(s[0] + k * r[0] == (s[0] + (k - 1) * r[0]) + r[0]);
            }
            assert(s1[1] + (k - 1) * r[1] == s[1] + k * r[1]) by {
                assert(s[1] + k * r[1] == (s[1] + (k - 1) * r[1]) + r[1]);
            }
            assert(s1[2] + (k - 1) * r[2] == s[2] + k * r[2]) by {
                assert(s[2] + k * r[2] == (s[2] + (k - 1) * r[2]) + r[2]);
            }
            assert(s1[3] + (k - 1) * r[3] == s[3] + k * r[3]) by {
                assert(s[3] + k * r[3] == (s[3] + (k - 1) * r[3]) + r[3]);
            }
        }
    }
}

proof fn lemma_cast_fits(sp: Spell, s: Ingredients, t: int)
    requires
        consistent_spell(sp),
        valid_stock(s),
        sp.active,
        0 <= t <= spec_how_many_times_can_cast_spell(sp, s),
    ensures
        fits_repeated(s, sp.recipe, t),
        valid_stock(add_recipe(s, sp.recipe, t)),
{
    assert forall|k: int, i: int| 0 <= k <= t && 0 <= i < 4 implies -128 <= #[trigger] (s[i] + k * sp.recipe[i]) <= 127 by {
        lemma_cast_holds(sp, s, k);
        assert(0 <= s[i] + k * sp.recipe[i] <= 10);
    }
    lemma_cast_holds(sp, s, t);
}

proof fn lemma_first_position_of_member(spells: Seq<(u32, bool)>, j: int)
    requires
        0 <= j < spells.len(),
    ensures
        first_position_of(spells, spells[j].0) is Some,
    decreases spells.len(),
{
    if spells[0].0 != spells[j].0 {
        assert(spells.drop_first()[j - 1] == spells[j]);
        lemma_first_position_of_member(spells.drop_first(), j - 1);
    }
}

/// Each CAST move the tables allow names a castable spell of the witch,
/// cast from once up to as many times as the table says.
proof fn lemma_pair_cast_moves(spells: Seq<(u32, bool)>, cache: Cache, sid: int)
    ensures
        forall|k: int| 0 <= k < pair_cast_moves(spells, cache, sid).len() ==> ((#[trigger] pair_cast_moves(spells, cache, sid)[k])
            matches Move::CAST(id, t) && exists|j: int| 0 <= j < spells.len() && spells[j] == (id, true) && 1 <= t
            <= cache.times_at(sid, id as int)),
    decreases spells.len(),
{
    if spells.len() > 0 {
        let rest = spells.drop_last();
        lemma_pair_cast_moves(rest, cache, sid);
        let moves = pair_cast_moves(spells, cache, sid);
        let (id, active) = spells.last();
        assert forall|k: int| 0 <= k < moves.len() implies ((#[trigger] moves[k]) matches Move::CAST(i, t) && exists|j: int|
            0 <= j < spells.len() && spells[j] == (i, true) && 1 <= t <= cache.times_at(sid, i as int)) by {
            let before = pair_cast_moves(rest, cache, sid);
            if k < before.len() {
                assert(moves[k] == before[k]);
                if let Move::CAST(i, t) = before[k] {
                    let j = choose|j: int| 0 <= j < rest.len() && rest[j] == (i, true) && 1 <= t <= cache.times_at(sid, i as int);
                    assert(spells[j] == rest[j]);
                }
            } else {
                assert(active);
                let n = cache.times_at(sid, id as int);
                assert(moves[k] == Move::CAST(id, (k - before.len() + 1) as u8));
                assert(spells[spells.len() - 1] == (id, true));
                cache.lemma_times_at_byte(sid, id as int);
            }
        }
    }
}

/// Every move the search considers from a stock a witch can hold can be
/// played, and leads to a stock a witch can hold.
pub proof fn lemma_path_moves_fit(s: PathModel, cache: Cache)
    requires
        cache.wf(),
        valid_stock(s.stock),
        path_ids_known(s),
    ensures
        forall|k: int|
            0 <= k < path_moves(s, cache, cache.stock_id(s.stock)).len() ==> path_update_fits(
                s,
                #[trigger] path_moves(s, cache, cache.stock_id(s.stock))[k],
            ),
{
    let sid = cache.stock_id(s.stock);
    cache.lemma_tables(s.stock);
    lemma_all_spells_consistent();
    lemma_pair_cast_moves(s.spells, cache, sid);
    let moves = path_moves(s, cache, sid);
    let brews = if cache.fulfills_at(sid, s.counter_order as int) {
        seq![Move::BREW(s.counter_order)]
    } else {
        Seq::<Move>::empty()
    };
    let casts = pair_cast_moves(s.spells, cache, sid);
    assert forall|k: int| 0 <= k < moves.len() implies path_update_fits(s, #[trigger] moves[k]) by {
        if k < brews.len() {
            assert(moves[k] == Move::BREW(s.counter_order));
            lemma_brew_fits(s.stock, s.counter_order);
        } else if k < brews.len() + casts.len() {
            let m = casts[k - brews.len()];
            assert(moves[k] == m);
            if let Move::CAST(id, t) = m {
                let j = choose|j: int|
                    0 <= j < s.spells.len() && s.spells[j] == (id, true) && 1 <= t <= cache.times_at(sid, id as int);
                assert(s.spells[j].0 < EXISTING_SPELL_COUNT);
                lemma_first_position_of_member(s.spells, j);
                let sp = all_spells()[id as int];
                assert(cache.times_at(sid, id as int) == spec_how_many_times_can_cast_spell(sp, s.stock));
                assert(sp.active);
                lemma_cast_fits(sp, s.stock, t as int);
            }
        } else {
            assert(moves[k] == Move::REST);
        }
    }
}

/// The moves the search considers (see `path_moves`), each with the state
/// it leads to.
pub fn next_states(state: &State, cache: &Cache) -> (r: Vec<(Move, State)>)
    requires
        state.wf(*cache),
    ensures
        r@.len() == path_moves(state@, *cache, state.player.stock_id as int).len(),
        forall|k: int| 0 <= k < r@.len() ==> {
            &&& (#[trigger] r@[k]).0 == path_moves(state@, *cache, state.player.stock_id as int)[k]
            &&& r@[k].1.wf(*cache)
            &&& r@[k].1@ == path_update(state@, path_moves(state@, *cache, state.player.stock_id as int)[k])
        },
{
    let ghost s = state@;
    let player_spells = state.player.spells.slice();
    let player_stock_id = state.player.stock_id;
    let ghost sid = player_stock_id as int;
    proof {
        cache.lemma_ids(state.player.stock);
    }
    let mut valid_moves: Vec<Move> = Vec::new();
    if cache.can_fulfill_order(state.counter_order, player_stock_id) {
        valid_moves.push(Move::BREW(state.counter_order));
    }
    let ghost brews = valid_moves@;
    let mut all_spells_are_active = true;
    let mut k: usize = 0;
    while k < player_spells.len()
        invariant
            k <= player_spells@.len(),
            player_spells@ == s.spells,
            path_ids_known(s),
            cache.wf(),
            player_stock_id < cache.row_count(),
            sid == player_stock_id,
            valid_moves@ == brews + pair_cast_moves(player_spells@.take(k as int), *cache, sid),
            all_spells_are_active == !some_exhausted(player_spells@.take(k as int)),
        decreases player_spells@.len() - k,
    {
        let (spell_id, active) = player_spells[k];
        proof {
            assert(player_spells@.take(k + 1).drop_last() =~= player_spells@.take(k as int));
            assert(player_spells@.take(k + 1).last() == (spell_id, active));
            if !active {
                assert(!(player_spells@.take(k + 1)[k as int]).1);
            }
            assert(some_exhausted(player_spells@.take(k + 1)) == (some_exhausted(player_spells@.take(k as int)) || !active)) by {
                if some_exhausted(player_spells@.take(k as int)) {
                    let j = choose|j: int| 0 <= j < k && !(#[trigger] player_spells@.take(k as int)[j]).1;
                    assert(!(player_spells@.take(k + 1)[j]).1);
                }
                if some_exhausted(player_spells@.take(k + 1)) {
                    let j = choose|j: int| 0 <= j < k + 1 && !(#[trigger] player_spells@.take(k + 1)[j]).1;
                    if j < k {
                        assert(!(player_spells@.take(k as int)[j]).1);
                    }
                }
            }
        }
        if active == false {
            all_spells_are_active = false;
        } else {
            assert(player_spells@[k as int].0 < EXISTING_SPELL_COUNT);
            let times_can_cast_spell = cache.how_many_times_can_cast_spell(spell_id, player_stock_id);
            let ghost before = valid_moves@;
            let ghost run = Seq::new(times_can_cast_spell as nat, |j: int| Move::CAST(spell_id, (j + 1) as u8));
            let mut n: u16 = 1;
            while n <= times_can_cast_spell as u16
                invariant
                    1 <= n <= times_can_cast_spell as int + 1,
                    run == Seq::new(times_can_cast_spell as nat, |j: int| Move::CAST(spell_id, (j + 1) as u8)),
                    valid_moves@ == before + run.take(n - 1),
                decreases times_can_cast_spell + 1 - n,
            {
                assert(run.take(n as int) =~= run.take(n - 1).push(Move::CAST(spell_id, n as u8)));
                valid_moves.push(Move::CAST(spell_id, n as u8));
                n += 1;
            }
            assert(run.take(times_can_cast_spell as int) =~= run);
        }
        k += 1;
    }
    assert(player_spells@.take(player_spells@.len() as int) =~= player_spells@);
    if all_spells_are_active == false {
        valid_moves.push(Move::REST);
    }
    assert(valid_moves@ =~= path_moves(s, *cache, sid));
    proof {
        lemma_path_moves_fit(s, *cache);
    }
    let mut result: Vec<(Move, State)> = Vec::new();
    let mut k: usize = 0;
    while k < valid_moves.len()
        invariant
            k <= valid_moves@.len(),
            valid_moves@ == path_moves(s, *cache, sid),
            state.wf(*cache),
            s == state@,
            sid == state.player.stock_id,
            sid == cache.stock_id(s.stock),
            forall|j: int| 0 <= j < valid_moves@.len() ==> path_update_fits(s, #[trigger] valid_moves@[j]),
            result@.len() == k,
            forall|j: int| 0 <= j < k ==> {
                &&& (#[trigger] result@[j]).0 == path_moves(s, *cache, sid)[j]
                &&& result@[j].1.wf(*cache)
                &&& result@[j].1@ == path_update(s, path_moves(s, *cache, sid)[j])
            },
        decreases valid_moves@.len() - k,
    {
        let m = valid_moves[k];
        let next = update(state, &m, cache);
        result.push((m, next));
        k += 1;
    }
    result
}

/// The state reached from `s` by playing `moves` in order.
pub open spec fn walk(s: PathModel, moves: Seq<Move>) -> PathModel
    decreases moves.len(),
{
    if moves.len() == 0 {
        s
    } else {
        path_update(walk(s, moves.drop_last()), moves.last())
    }
}

/// Each of `moves` is one the search considers where it is played.
pub open spec fn follows(s: PathModel, moves: Seq<Move>, cache: Cache) -> bool
    decreases moves.len(),
{
    if moves.len() == 0 {
        true
    } else {
        let w = walk(s, moves.drop_last());
        follows(s, moves.drop_last(), cache) && path_moves(w, cache, cache.stock_id(w.stock)).contains(moves.last())
    }
}

/// A node of the search tree: the move that led to it and its state.
pub struct Node {
    pub move_: Move,
    pub state: State,
    pub parent: Option<usize>,
    pub child_first: Option<usize>,
    pub child_count: usize,
    pub depth: usize,
}

/// The breadth-first search, with the nodes it has made.
pub struct Search {
    pub arr: Vec<Node>,
}

/// The tree grows from `start`: each node but the root comes from its
/// parent, placed before it, by a move the search considers there.
#[verifier::opaque]
pub open spec fn tree_ok(nodes: Seq<Node>, start: PathModel, cache: Cache) -> bool {
    &&& nodes.len() >= 1
    &&& nodes[0].state@ == start
    &&& nodes[0].parent is None
    &&& nodes[0].move_ == Move::NONE
    &&& forall|i: int| 0 <= i < nodes.len() ==> (#[trigger] nodes[i]).state.wf(cache) && nodes[i].depth <= i
    &&& forall|i: int| 1 <= i < nodes.len() ==> #[trigger] comes_from_parent(nodes, i, cache)
}

proof fn lemma_parent(nodes: Seq<Node>, start: PathModel, cache: Cache, i: int)
    requires
        tree_ok(nodes, start, cache),
        0 <= i < nodes.len(),
    ensures
        i == 0 ==> nodes[i].parent is None,
        i > 0 ==> (nodes[i].parent matches Some(p) && p < i),
{
    reveal(tree_ok);
    if i > 0 {
        assert(comes_from_parent(nodes, i, cache));
    }
}

proof fn lemma_node_wf(nodes: Seq<Node>, start: PathModel, cache: Cache, i: int)
    requires
        tree_ok(nodes, start, cache),
        0 <= i < nodes.len(),
    ensures
        nodes[i].state.wf(cache),
{
    reveal(tree_ok);
}

proof fn lemma_depth(nodes: Seq<Node>, start: PathModel, cache: Cache, i: int)
    requires
        tree_ok(nodes, start, cache),
        0 <= i < nodes.len(),
    ensures
        nodes[i].depth <= i,
{
    reveal(tree_ok);
}

/// Node `i` comes from its parent by a move the search considers there.
pub open spec fn comes_from_parent(nodes: Seq<Node>, i: int, cache: Cache) -> bool {
    nodes[i].parent matches Some(p) && p < i && path_moves(
        nodes[p as int].state@,
        cache,
        nodes[p as int].state.player.stock_id as int,
    ).contains(nodes[i].move_) && nodes[i].state@ == path_update(nodes[p as int].state@, nodes[i].move_)
}

proof fn lemma_comes_from_parent(nodes: Seq<Node>, start: PathModel, cache: Cache, i: int)
    requires
        tree_ok(nodes, start, cache),
        1 <= i < nodes.len(),
    ensures
        comes_from_parent(nodes, i, cache),
{
    reveal(tree_ok);
}

/// What adding to node `n` its children, one per move the search
/// considers there, gives.
pub open spec fn grown(nodes: Seq<Node>, a: Seq<Node>, kids: Seq<Node>, n: int, cache: Cache) -> bool {
    let moves = path_moves(nodes[n].state@, cache, nodes[n].state.player.stock_id as int);
    &&& 0 <= n < nodes.len() <= usize::MAX
    &&& a.len() == nodes.len() + kids.len()
    &&& a[n].move_ == nodes[n].move_
    &&& a[n].state@ == nodes[n].state@
    &&& a[n].state.player.stock_id == nodes[n].state.player.stock_id
    &&& a[n].state.player.spells.wf()
    &&& a[n].parent == nodes[n].parent
    &&& a[n].depth == nodes[n].depth
    &&& (forall|i: int| 0 <= i < nodes.len() && i != n ==> a[i] == nodes[i])
    &&& (forall|j: int| 0 <= j < kids.len() ==> a[nodes.len() + j] == #[trigger] kids[j])
    &&& kids.len() == moves.len()
    &&& forall|j: int| 0 <= j < kids.len() ==> {
        &&& (#[trigger] kids[j]).move_ == moves[j]
        &&& kids[j].state@ == path_update(nodes[n].state@, moves[j])
        &&& kids[j].state.wf(cache)
        &&& kids[j].parent == Some(n as usize)
        &&& kids[j].depth == nodes[n].depth + 1
    }
}

proof fn lemma_grown_node(nodes: Seq<Node>, a: Seq<Node>, kids: Seq<Node>, n: int, start: PathModel, cache: Cache, i: int)
    requires
        tree_ok(nodes, start, cache),
        grown(nodes, a, kids, n, cache),
        0 <= i < a.len(),
    ensures
        a[i].state.wf(cache),
        a[i].depth <= i,
        i >= 1 ==> comes_from_parent(a, i, cache),
{
    let first = nodes.len() as int;
    lemma_node_wf(nodes, start, cache, n);
    lemma_depth(nodes, start, cache, n);
    if i >= first {
        let j = i - first;
        assert(a[i] == kids[j]);
        let moves = path_moves(nodes[n].state@, cache, nodes[n].state.player.stock_id as int);
        assert(moves[j] == kids[j].move_);
        assert(moves.contains(a[i].move_));
        assert(a[i].parent == Some(n as usize));
        assert(path_moves(a[n].state@, cache, a[n].state.player.stock_id as int) == moves);
    } else {
        lemma_node_wf(nodes, start, cache, i);
        lemma_depth(nodes, start, cache, i);
        if i >= 1 {
            lemma_comes_from_parent(nodes, start, cache, i);
            let p = nodes[i].parent->0 as int;
            if p != n {
                assert(a[p] == nodes[p]);
            }
            assert(a[p].state@ == nodes[p].state@ && a[p].state.player.stock_id == nodes[p].state.player.stock_id);
            if i != n {
                assert(a[i] == nodes[i]);
            }
            assert(a[i].parent == nodes[i].parent && a[i].move_ == nodes[i].move_ && a[i].state@ == nodes[i].state@);
        }
    }
}

/// Adding to a node its children, one per move the search considers
/// there, keeps the tree growing from the start.
proof fn lemma_grown_tree(nodes: Seq<Node>, a: Seq<Node>, kids: Seq<Node>, n: int, start: PathModel, cache: Cache)
    requires
        tree_ok(nodes, start, cache),
        grown(nodes, a, kids, n, cache),
    ensures
        tree_ok(a, start, cache),
{
    assert forall|i: int| 0 <= i < a.len() implies (#[trigger] a[i]).state.wf(cache) && a[i].depth <= i by {
        lemma_grown_node(nodes, a, kids, n, start, cache, i);
    }
    assert forall|i: int| 1 <= i < a.len() implies comes_from_parent(a, i, cache) by {
        lemma_grown_node(nodes, a, kids, n, start, cache, i);
    }
    lemma_parent(nodes, start, cache, 0);
    reveal(tree_ok);
    if n != 0 {
        assert(a[0] == nodes[0]);
    }
}

/// The nodes from the root's child down to node `n`.
pub open spec fn chain(nodes: Seq<Node>, n: int) -> Seq<int>
    decreases n,
{
    if 0 < n < nodes.len() {
        match nodes[n].parent {
            Some(p) => if p < n {
                chain(nodes, p as int).push(n)
            } else {
                Seq::empty()
            },
            None => Seq::empty(),
        }
    } else {
        Seq::empty()
    }
}

/// The moves of a path.
pub open spec fn moves_of(r: Seq<(Move, Ingredients)>) -> Seq<Move> {
    r.map_values(|e: (Move, Ingredients)| e.0)
}

pub open spec fn chain_moves(nodes: Seq<Node>, n: int) -> Seq<Move> {
    chain(nodes, n).map_values(|i: int| nodes[i].move_)
}

/// The path to node `n`: each move with the stock it leads to.
pub open spec fn path_to(nodes: Seq<Node>, n: int) -> Seq<(Move, Ingredients)> {
    chain(nodes, n).map_values(|i: int| (nodes[i].move_, nodes[i].state.player.stock))
}

proof fn lemma_chain(nodes: Seq<Node>, start: PathModel, cache: Cache, n: int)
    requires
        tree_ok(nodes, start, cache),
        0 <= n < nodes.len(),
    ensures
        follows(start, chain_moves(nodes, n), cache),
        walk(start, chain_moves(nodes, n)) == nodes[n].state@,
        forall|k: int| 0 <= k < chain(nodes, n).len() ==> 0 < #[trigger] chain(nodes, n)[k] <= n,
        forall|k: int| 0 <= k < chain(nodes, n).len() ==> walk(start, #[trigger] chain_moves(nodes, n).take(k + 1))
            == nodes[chain(nodes, n)[k]].state@,
    decreases n,
{
    reveal(tree_ok);    if n > 0 {
        lemma_comes_from_parent(nodes, start, cache, n);
        let p = nodes[n].parent->0 as int;
        lemma_chain(nodes, start, cache, p);
        let cm = chain_moves(nodes, n);
        assert(cm.drop_last() =~= chain_moves(nodes, p));
        assert(cm.last() == nodes[n].move_);
        assert(nodes[p].state.wf(cache));
        assert forall|k: int| 0 <= k < chain(nodes, n).len() implies walk(start, #[trigger] cm.take(k + 1)) == nodes[chain(
            nodes,
            n,
        )[k]].state@ by {
            if k < chain(nodes, p).len() {
                assert(cm.take(k + 1) =~= chain_moves(nodes, p).take(k + 1));
            } else {
                assert(cm.take(k + 1) =~= cm);
            }
        }
    } else {
        assert(chain_moves(nodes, n) =~= Seq::<Move>::empty());
    }
}

/// How many stock ids are not visited yet.
pub open spec fn unvisited(v: Seq<bool>) -> nat
    decreases v.len(),
{
    if v.len() == 0 {
        0
    } else {
        unvisited(v.drop_last()) + if v.last() {
            0nat
        } else {
            1nat
        }
    }
}

proof fn lemma_visit(v: Seq<bool>, i: int)
    requires
        0 <= i < v.len(),
        !v[i],
    ensures
        unvisited(v.update(i, true)) + 1 == unvisited(v),
    decreases v.len(),
{
    if i == v.len() - 1 {
        assert(v.update(i, true).drop_last() =~= v.drop_last());
    } else {
        assert(v.update(i, true).drop_last() =~= v.drop_last().update(i, true));
        lemma_visit(v.drop_last(), i);
    }
}

impl Search {
    pub fn new() -> (s: Search)
        ensures
            s.arr@.len() == 0,
    {
        Search { arr: Vec::new() }
    }

    fn init(&mut self, start_state: State)
        requires
            start_state.player.spells.wf(),
        ensures
            final(self).arr@.len() == 1,
            final(self).arr@[0].state@ == start_state@,
            final(self).arr@[0].state.player.stock_id == start_state.player.stock_id,
            final(self).arr@[0].state.player.spells.wf(),
            final(self).arr@[0].parent is None,
            final(self).arr@[0].move_ == Move::NONE,
            final(self).arr@[0].depth == 0,
    {
        self.arr.clear();
        self.arr.push(
            Node { move_: Move::NONE, state: start_state, parent: None, child_first: None, child_count: 0, depth: 0 },
        );
    }

    fn set_children(&mut self, parent: usize, children: Vec<Node>)
        requires
            parent < old(self).arr@.len(),
            old(self).arr@[parent as int].state.player.spells.wf(),
        ensures
            final(self).arr@.len() == old(self).arr@.len() + children@.len(),
            final(self).arr@[parent as int].child_first == Some(old(self).arr@.len() as usize),
            final(self).arr@[parent as int].child_count == children@.len(),
            final(self).arr@[parent as int].move_ == old(self).arr@[parent as int].move_,
            final(self).arr@[parent as int].state@ == old(self).arr@[parent as int].state@,
            final(self).arr@[parent as int].state.player.stock_id == old(self).arr@[parent as int].state.player.stock_id,
            final(self).arr@[parent as int].state.player.spells.wf(),
            final(self).arr@[parent as int].parent == old(self).arr@[parent as int].parent,
            final(self).arr@[parent as int].depth == old(self).arr@[parent as int].depth,
            forall|i: int| 0 <= i < old(self).arr@.len() && i != parent ==> final(self).arr@[i] == old(self).arr@[i],
            forall|i: int| 0 <= i < children@.len() ==> final(self).arr@[old(self).arr@.len() + i] == children@[i],
    {
        let first = self.arr.len();
        let count = children.len();
        let old_node = &self.arr[parent];
        let updated = Node {
            move_: old_node.move_,
            state: old_node.state.copy(),
            parent: old_node.parent,
            child_first: Some(first),
            child_count: count,
            depth: old_node.depth,
        };
        self.arr.set(parent, updated);
        let ghost before = self.arr@;
        assert(before[parent as int].child_first == Some(first) && before[parent as int].child_count == count);
        assert(forall|i: int| 0 <= i < first && i != parent ==> before[i] == old(self).arr@[i]);
        let ghost kids = children@;
        let mut children = children;
        let mut rest: Vec<Node> = Vec::new();
        // keep the children's order: take them from the back, then push
        while children.len() > 0
            invariant
                self.arr@ == before,
                before.len() == first,
                old(self).arr@.len() == first,
                forall|i: int| 0 <= i < first && i != parent ==> before[i] == old(self).arr@[i],
                children@ == kids.take(children@.len() as int),
                rest@.len() + children@.len() == kids.len(),
                forall|j: int| 0 <= j < rest@.len() ==> rest@[j] == kids[kids.len() - 1 - j],
            decreases children@.len(),
        {
            let c = children.pop().unwrap();
            rest.push(c);
            assert(children@ =~= kids.take(children@.len() as int));
        }
        while rest.len() > 0
            invariant
                self.arr@.len() == first + (kids.len() - rest@.len()),
                forall|i: int| 0 <= i < first ==> self.arr@[i] == before[i],
                forall|j: int| 0 <= j < kids.len() - rest@.len() ==> self.arr@[first + j] == kids[j],
                forall|j: int| 0 <= j < rest@.len() ==> rest@[j] == kids[kids.len() - 1 - j],
                rest@.len() <= kids.len(),
                before.len() == first,
                parent < first,
                count == kids.len(),
                old(self).arr@.len() == first,
                forall|i: int| 0 <= i < first && i != parent ==> before[i] == old(self).arr@[i],
            decreases rest@.len(),
        {
            let c = rest.pop().unwrap();
            self.arr.push(c);
        }
        assert forall|i: int| 0 <= i < first && i != parent implies self.arr@[i] == old(self).arr@[i] by {
            assert(self.arr@[i] == before[i]);
        }
    }

    /// Makes the children of node `node_idx`, one per move the search
    /// considers there, and returns how many.
    fn expand(&mut self, node_idx: usize, cache: &Cache, Ghost(start): Ghost<PathModel>) -> (count: usize)
        requires
            tree_ok(old(self).arr@, start, *cache),
            node_idx < old(self).arr@.len(),
        ensures
            tree_ok(final(self).arr@, start, *cache),
            final(self).arr@.len() == old(self).arr@.len() + count,
            count == path_moves(
                old(self).arr@[node_idx as int].state@,
                *cache,
                old(self).arr@[node_idx as int].state.player.stock_id as int,
            ).len(),
            forall|j: int|
                0 <= j < count ==> {
                    let moves = path_moves(
                        old(self).arr@[node_idx as int].state@,
                        *cache,
                        old(self).arr@[node_idx as int].state.player.stock_id as int,
                    );
                    &&& (#[trigger] final(self).arr@[old(self).arr@.len() + j]).move_ == moves[j]
                    &&& final(self).arr@[old(self).arr@.len() + j].state@ == path_update(
                        old(self).arr@[node_idx as int].state@,
                        moves[j],
                    )
                    &&& final(self).arr@[old(self).arr@.len() + j].parent == Some(node_idx)
                },
            forall|i: int|
                0 <= i < old(self).arr@.len() ==> {
                    &&& (#[trigger] final(self).arr@[i]).move_ == old(self).arr@[i].move_
                    &&& final(self).arr@[i].state@ == old(self).arr@[i].state@
                    &&& final(self).arr@[i].state.player.stock_id == old(self).arr@[i].state.player.stock_id
                    &&& final(self).arr@[i].parent == old(self).arr@[i].parent
                },
    {
        let ghost nodes = self.arr@;
        proof {
            lemma_node_wf(nodes, start, *cache, node_idx as int);
            lemma_depth(nodes, start, *cache, node_idx as int);
        }
        let nexts = next_states(&self.arr[node_idx].state, cache);
        let depth = self.arr[node_idx].depth;
        let total = self.arr.len();
        let ghost moves = path_moves(nodes[node_idx as int].state@, *cache, nodes[node_idx as int].state.player.stock_id as int);
        let mut children: Vec<Node> = Vec::new();
        let mut k: usize = 0;
        while k < nexts.len()
            invariant
                k <= nexts@.len(),
                children@.len() == k,
                depth == nodes[node_idx as int].depth,
                depth <= node_idx,
                node_idx < nodes.len(),
                total == nodes.len(),
                nexts@.len() == moves.len(),
                forall|j: int| 0 <= j < nexts@.len() ==> {
                    &&& (#[trigger] nexts@[j]).1.wf(*cache)
                    &&& nexts@[j].0 == moves[j]
                    &&& nexts@[j].1@ == path_update(nodes[node_idx as int].state@, moves[j])
                },
                forall|j: int| 0 <= j < k ==> {
                    &&& (#[trigger] children@[j]).move_ == moves[j]
                    &&& children@[j].state@ == path_update(nodes[node_idx as int].state@, moves[j])
                    &&& children@[j].state.wf(*cache)
                    &&& children@[j].parent == Some(node_idx)
                    &&& children@[j].depth == depth + 1
                },
            decreases nexts@.len() - k,
        {
            let st = nexts[k].1.copy();
            children.push(
                Node {
                    move_: nexts[k].0,
                    state: st,
                    parent: Some(node_idx),
                    child_first: None,
                    child_count: 0,
                    depth: depth + 1,
                },
            );
            k += 1;
        }
        let ghost kids = children@;
        let count = children.len();
        self.set_children(node_idx, children);
        proof {
            lemma_grown_tree(nodes, self.arr@, kids, node_idx as int, start, *cache);
            assert forall|j: int| 0 <= j < count implies #[trigger] self.arr@[total + j] == kids[j] by {}
        }
        count
    }

    /// The path from the root to node `n0` (see `path_to`).
    fn path_to_node(&self, n0: usize, Ghost(start): Ghost<PathModel>, Ghost(cache): Ghost<Cache>) -> (out: Vec<
        (Move, Ingredients),
    >)
        requires
            tree_ok(self.arr@, start, cache),
            n0 < self.arr@.len(),
        ensures
            out@ == path_to(self.arr@, n0 as int),
    {
        let ghost nodes = self.arr@;
        let mut best_path: Vec<(Move, Ingredients)> = Vec::new();
        let mut n = n0;
        let ghost mut idx: Seq<int> = Seq::empty();
        while self.arr[n].parent.is_some()
            invariant
                self.arr@ == nodes,
                tree_ok(nodes, start, cache),
                0 <= n < nodes.len(),
                n0 < nodes.len(),
                chain(nodes, n0 as int) == chain(nodes, n as int) + idx.reverse(),
                best_path@ == idx.map_values(|i: int| (nodes[i].move_, nodes[i].state.player.stock)),
            decreases n,
        {
            best_path.push((self.arr[n].move_, self.arr[n].state.player.stock));
            let p = self.arr[n].parent.unwrap();
            proof {
                lemma_parent(nodes, start, cache, n as int);
                assert(n > 0);
                assert(chain(nodes, n as int) == chain(nodes, p as int).push(n as int));
                assert(idx.push(n as int).reverse() =~= seq![n as int] + idx.reverse());
                assert(chain(nodes, n0 as int) =~= chain(nodes, p as int) + idx.push(n as int).reverse());
                idx = idx.push(n as int);
                assert(best_path@ =~= idx.map_values(|i: int| (nodes[i].move_, nodes[i].state.player.stock)));
            }
            n = p;
        }
        assert(chain(nodes, n as int) =~= Seq::<int>::empty());
        assert(chain(nodes, n0 as int) =~= idx.reverse());
        let mut out: Vec<(Move, Ingredients)> = Vec::new();
        let mut k = best_path.len();
        while k > 0
            invariant
                k <= best_path@.len(),
                out@.len() == best_path@.len() - k,
                forall|j: int| 0 <= j < out@.len() ==> out@[j] == best_path@[best_path@.len() - 1 - j],
            decreases k,
        {
            k -= 1;
            out.push(best_path[k]);
        }
        assert(out@ =~= path_to(nodes, n0 as int));
        out
    }

    /// Searches, breadth first, for a BREW of `target_order_id` from
    /// `start_state`, expanding each stock id once. Returns each move of
    /// the path found with the stock it leads to, or nothing if the search
    /// ends without one.
    #[verifier::rlimit(40)]
    pub fn best_path_bfs(&mut self, start_state: State, target_order_id: u32, cache: &Cache) -> (r: Vec<
        (Move, Ingredients),
    >)
        requires
            start_state.wf(*cache),
        ensures
            r@.len() > 0 ==> {
                let moves = moves_of(r@);
                &&& moves.last() == Move::BREW(target_order_id)
                &&& follows(start_state@, moves, *cache)
                &&& forall|k: int| 0 <= k < r@.len() ==> (#[trigger] r@[k]).1 == walk(start_state@, moves.take(k + 1)).stock
            },
            target_order_id < EXISTING_ORDER_COUNT && start_state@.counter_order == target_order_id
                && spec_can_fulfill_order(spec_all_orders()[target_order_id as int], start_state.player.stock) ==> r@
                == seq![(Move::BREW(target_order_id), path_update(start_state@, Move::BREW(target_order_id)).stock)],
    {
        let ghost start = start_state@;
        let ghost sid0 = start_state.player.stock_id;
        let ghost stock0 = start_state.player.stock;
        let ghost brew_first = start.counter_order == target_order_id && cache.fulfills_at(sid0 as int, target_order_id as int);
        proof {
            if target_order_id < EXISTING_ORDER_COUNT {
                cache.lemma_tables(start_state.player.stock);
            }
        }
        self.init(start_state);
        proof {
            reveal(tree_ok);
        }
        let mut frontier: Vec<usize> = Vec::new();
        frontier.push(0);
        let mut head: usize = 0;
        let n_ids = cache.stock_count();
        let mut visited: Vec<bool> = Vec::new();
        while visited.len() < n_ids
            invariant
                visited@.len() <= n_ids,
                forall|i: int| 0 <= i < visited@.len() ==> !visited@[i],
            decreases n_ids - visited@.len(),
        {
            visited.push(false);
        }
        while head < frontier.len()
            invariant
                tree_ok(self.arr@, start, *cache),
                start == start_state@,
                cache.wf(),
                head <= frontier@.len(),
                forall|q: int| 0 <= q < frontier@.len() ==> #[trigger] frontier@[q] < self.arr@.len(),
                visited@.len() == n_ids,
                n_ids == cache.row_count(),
                brew_first == (start.counter_order == target_order_id && cache.fulfills_at(sid0 as int, target_order_id as int)),
                target_order_id < EXISTING_ORDER_COUNT ==> (brew_first == (start.counter_order == target_order_id
                    && spec_can_fulfill_order(spec_all_orders()[target_order_id as int], stock0))),
                start.stock == stock0,
                head == 0 ==> {
                    &&& self.arr@.len() == 1
                    &&& frontier@ == seq![0usize]
                    &&& self.arr@[0].state.player.stock_id == sid0
                    &&& forall|i: int| 0 <= i < visited@.len() ==> !visited@[i]
                },
                brew_first && head >= 1 ==> {
                    &&& head == 1
                    &&& frontier@.len() >= 2
                    &&& frontier@[1] == 1
                    &&& self.arr@.len() >= 2
                    &&& self.arr@[1].move_ == Move::BREW(target_order_id)
                    &&& self.arr@[1].parent == Some(0usize)
                    &&& self.arr@[1].state@ == path_update(start, Move::BREW(target_order_id))
                },
            decreases unvisited(visited@), frontier@.len() - head,
        {
            let node_idx = frontier[head];
            head += 1;
            if self.arr[node_idx].move_ == Move::BREW(target_order_id) {
                let out = self.path_to_node(node_idx, Ghost(start), Ghost(*cache));
                proof {
                    lemma_found_path(self.arr@, start, *cache, node_idx as int, target_order_id);
                    reveal(tree_ok);
                    if brew_first {
                        assert(node_idx == 1);
                        assert(chain(self.arr@, 0) =~= Seq::<int>::empty());
                        assert(chain(self.arr@, 1) =~= seq![1int]);
                        assert(path_to(self.arr@, 1) =~= seq![(self.arr@[1].move_, self.arr@[1].state.player.stock)]);
                    }
                }
                return out;
            } else {
                let sid = self.arr[node_idx].state.player.stock_id;
                let ghost flen0 = frontier@.len();
                proof {
                    reveal(tree_ok);
                    lemma_node_wf(self.arr@, start, *cache, node_idx as int);
                    cache.lemma_ids(self.arr@[node_idx as int].state.player.stock);
                }
                if !visited[sid] {
                    proof {
                        lemma_visit(visited@, sid as int);
                    }
                    visited.set(sid, true);
                    let first = self.arr.len();
                    let ghost before = self.arr@;
                    let count = self.expand(node_idx, cache, Ghost(start));
                    proof {
                        if brew_first && head == 1 {
                            let moves = path_moves(start, *cache, sid0 as int);
                            assert(before[0].state@ == start);
                            assert(moves[0] == Move::BREW(target_order_id));
                            assert(self.arr@[before.len() + 0int].move_ == moves[0]);
                            assert(count >= 1);
                        }
                    }
                    let mut c = first;
                    let end = self.arr.len();
                    let ghost f0 = frontier@;
                    while c < end
                        invariant
                            first <= c <= end,
                            frontier@.len() == f0.len() + (c - first),
                            forall|q: int| 0 <= q < f0.len() ==> #[trigger] frontier@[q] == f0[q],
                            forall|j: int| 0 <= j < c - first ==> #[trigger] frontier@[f0.len() + j] == first + j,
                            f0.len() == flen0,
                            end == self.arr@.len(),
                            head <= frontier@.len(),
                            forall|q: int| 0 <= q < frontier@.len() ==> #[trigger] frontier@[q] < self.arr@.len(),
                        decreases end - c,
                    {
                        frontier.push(c);
                        c += 1;
                    }
                }
            }
        }
        Vec::new()
    }
}

/// The path to a node whose move brews the target ends with that brew,
/// follows the moves the search considers, and gives the stock each move
/// leads to.
proof fn lemma_found_path(nodes: Seq<Node>, start: PathModel, cache: Cache, n0: int, target: u32)
    requires
        tree_ok(nodes, start, cache),
        0 <= n0 < nodes.len(),
        nodes[n0].move_ == Move::BREW(target),
    ensures
        path_to(nodes, n0).len() > 0 ==> {
            let r = path_to(nodes, n0);
            let moves = moves_of(r);
            &&& moves.last() == Move::BREW(target)
            &&& follows(start, moves, cache)
            &&& forall|k: int| 0 <= k < r.len() ==> (#[trigger] r[k]).1 == walk(start, moves.take(k + 1)).stock
        },
{
    reveal(tree_ok);    lemma_chain(nodes, start, cache, n0);
    let r = path_to(nodes, n0);
    let moves = moves_of(r);
    assert(moves =~= chain_moves(nodes, n0));
    if r.len() > 0 {
        assert(n0 > 0);
        lemma_comes_from_parent(nodes, start, cache, n0);
        assert(chain(nodes, n0) == chain(nodes, nodes[n0].parent->0 as int).push(n0));
        assert(moves.last() == nodes[n0].move_);
        assert forall|k: int| 0 <= k < r.len() implies (#[trigger] r[k]).1 == walk(start, moves.take(k + 1)).stock by {
            assert(walk(start, chain_moves(nodes, n0).take(k + 1)) == nodes[chain(nodes, n0)[k]].state@);
        }
    }
}

/// The start of a search: the stock, the four basic spells and the given
/// tome spells (all castable), aiming at `target`.
pub open spec fn start_model(stock: Ingredients, tome_spells: Seq<u32>, target: u32) -> PathModel {
    PathModel {
        stock,
        spells: seq![(42u32, true), (43u32, true), (44u32, true), (45u32, true)] + tome_spells.map_values(
            |id: u32| (id, true),
        ),
        counter_order: target,
    }
}

/// Builds the start of a search (see `start_model`).
pub fn start_state(stock: Ingredients, tome_spells: &[u32], target: u32, cache: &Cache) -> (s: State)
    requires
        cache.wf(),
        valid_stock(stock),
        target < EXISTING_ORDER_COUNT,
        tome_spells@.len() <= 42,
        forall|i: int| 0 <= i < tome_spells@.len() ==> #[trigger] tome_spells@[i] < EXISTING_SPELL_COUNT,
    ensures
        s.wf(*cache),
        s@ == start_model(stock, tome_spells@, target),
{
    let mut spells: StackVector<(u32, bool), EXISTING_SPELL_COUNT> = StackVector::new();
    spells.add((42, true));
    spells.add((43, true));
    spells.add((44, true));
    spells.add((45, true));
    let mut i: usize = 0;
    while i < tome_spells.len()
        invariant
            i <= tome_spells@.len(),
            tome_spells@.len() <= 42,
            spells.wf(),
            spells@ == seq![(42u32, true), (43u32, true), (44u32, true), (45u32, true)] + tome_spells@.take(i as int).map_values(
                |id: u32| (id, true),
            ),
        decreases tome_spells@.len() - i,
    {
        spells.add((tome_spells[i], true));
        assert(tome_spells@.take(i + 1).map_values(|id: u32| (id, true)) =~= tome_spells@.take(i as int).map_values(
            |id: u32| (id, true),
        ).push((tome_spells@[i as int], true)));
        i += 1;
    }
    assert(tome_spells@.take(tome_spells@.len() as int) =~= tome_spells@);
    proof {
        cache.lemma_ids(stock);
    }
    let s = State { player: Player { stock, stock_id: cache.getStockId(&stock), spells }, counter_order: target };
    assert(s@ =~= start_model(stock, tome_spells@, target));
    s
}

/// The digit a distance is written with in the table of distances: 1 to
/// 5 as it is, 6 for 6 to 10, 7 for 11 to 15, 8 for 16 to 25, 9 beyond;
/// 0 for none.
pub open spec fn spec_distance_digit(d: i32) -> char {
    if 1 <= d <= 5 {
        (('0' as int) + d) as char
    } else if 6 <= d <= 10 {
        '6'
    } else if 11 <= d <= 15 {
        '7'
    } else if 16 <= d <= 25 {
        '8'
    } else if d >= 26 {
        '9'
    } else {
        '0'
    }
}

pub fn distance_digit(d: i32) -> (c: char)
    ensures
        c == spec_distance_digit(d),
{
    if d == 1 {
        '1'
    } else if d == 2 {
        '2'
    } else if d == 3 {
        '3'
    } else if d == 4 {
        '4'
    } else if d == 5 {
        '5'
    } else if 6 <= d && d <= 10 {
        '6'
    } else if 11 <= d && d <= 15 {
        '7'
    } else if 16 <= d && d <= 25 {
        '8'
    } else if d >= 26 {
        '9'
    } else {
        '0'
    }
}

pub open spec fn distance_sum(ds: Seq<i32>) -> int
    decreases ds.len(),
{
    if ds.len() == 0 {
        0
    } else {
        distance_sum(ds.drop_last()) + ds.last()
    }
}

/// The mean of the distances found, rounded down (Euclidean division by
/// their number); their sum, and their number, must fit an `i32`, as the
/// sum and the division are made in `i32`.
pub fn average_distance(ds: &[i32]) -> (m: i32)
    requires
        0 < ds@.len() <= i32::MAX,
        forall|k: int| 0 <= k <= ds@.len() ==> i32::MIN <= #[trigger] distance_sum(ds@.take(k)) <= i32::MAX,
    ensures
        m == distance_sum(ds@) / (ds@.len() as int),
{
    let mut sum: i32 = 0;
    let mut i: usize = 0;
    while i < ds.len()
        invariant
            i <= ds@.len(),
            forall|k: int| 0 <= k <= ds@.len() ==> i32::MIN <= #[trigger] distance_sum(ds@.take(k)) <= i32::MAX,
            sum == distance_sum(ds@.take(i as int)),
        decreases ds@.len() - i,
    {
        assert(ds@.take(i + 1).drop_last() =~= ds@.take(i as int));
        assert(i32::MIN <= distance_sum(ds@.take(i + 1)) <= i32::MAX);
        sum = sum + ds[i];
        i += 1;
    }
    assert(ds@.take(ds@.len() as int) =~= ds@);
    let n = ds.len() as i64;
    let total = sum as i64;
    let q: i64 = if total >= 0 {
        total / n
    } else {
        -((-total + n - 1) / n)
    };
    proof {
        let t = total as int;
        let d = n as int;
        if t < 0 {
            let a = -t + d - 1;
            let b = a / d;
            assert(d * b <= a < d * b + d) by (nonlinear_arith)
                requires
                    d > 0,
                    b == a / d,
                    a >= 0,
            ;
            assert(t / d == -b) by (nonlinear_arith)
                requires
                    d > 0,
                    d * b <= -t + d - 1 < d * b + d,
            ;
        }
        assert(-2147483648 <= q <= 2147483647) by (nonlinear_arith)
            requires
                q == t / d,
                -2147483648 <= t <= 2147483647,
                d >= 1,
        ;
    }
    q as i32
}

} // verus!
