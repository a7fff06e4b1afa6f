//! The potion game as a beam-searching witch plans its own moves alone:
//! its stock and spells by id, the counter by order id, the tome by spell id
//! and tax, and the tables of the cache.
use vstd::prelude::*;
use crate::stack_vector::StackVector;
use crate::witches_brew::cache::{Cache, in_table, all_spells, EXISTING_SPELL_COUNT, EXISTING_ORDER_COUNT};
use crate::witches_brew::rules::{
    Ingredients, Move, MAX_PLAYER_SPELLS, spec_all_orders, add_recipe, fits_repeated, brew_and_update_stock,
    cast_and_update_stock,
};
use crate::witches_brew::game::{learn_stock, min_i8, set_tier0};
use crate::witches_brew::rules::{Spell, Order};
use crate::witches_brew::player::{known_spells, known_orders};
use crate::witches_brew::turn_input::TurnEntities;

verus! {

/// The planning witch.
#[derive(Clone)]
pub struct Player {
    pub stock: Ingredients,
    pub stock_id: usize,
    /// Its spells: id and whether it can be cast.
    pub spells: StackVector<(u32, bool), MAX_PLAYER_SPELLS>,
    pub rupees: u8,
    pub brewed_potions_count: u8,
}

/// What the planning witch knows.
#[derive(Clone)]
pub struct State {
    pub player: Player,
    /// The ids of the orders on the counter.
    pub counter_orders: StackVector<u32, 5>,
    pub plus_3_bonus_remaining: u8,
    pub plus_1_bonus_remaining: u8,
    /// The tome: spell id and tax.
    pub tome_spells: StackVector<(u32, u8), 6>,
    pub turn: u8,
}

/// The planner's state as the rules see it.
#[verifier::ext_equal]
pub struct PlanModel {
    pub stock: Ingredients,
    pub spells: Seq<(u32, bool)>,
    pub rupees: u8,
    pub brewed: u8,
    pub counter: Seq<u32>,
    pub plus_3: u8,
    pub plus_1: u8,
    pub tome: Seq<(u32, u8)>,
    pub turn: u8,
}

impl View for State {
    type V = PlanModel;

    open spec fn view(&self) -> PlanModel {
        PlanModel {
            stock: self.player.stock,
            spells: self.player.spells@,
            rupees: self.player.rupees,
            brewed: self.player.brewed_potions_count,
            counter: self.counter_orders@,
            plus_3: self.plus_3_bonus_remaining,
            plus_1: self.plus_1_bonus_remaining,
            tome: self.tome_spells@,
            turn: self.turn,
        }
    }
}

/// The ids are ids of the game.
pub open spec fn ids_known(s: PlanModel) -> bool {
    &&& forall|i: int| 0 <= i < s.spells.len() ==> (#[trigger] s.spells[i]).0 < EXISTING_SPELL_COUNT
    &&& forall|i: int| 0 <= i < s.counter.len() ==> #[trigger] s.counter[i] < EXISTING_ORDER_COUNT
    &&& forall|i: int| 0 <= i < s.tome.len() ==> (#[trigger] s.tome[i]).0 < EXISTING_SPELL_COUNT
}

impl State {
    /// The state the planner can go on with, with the stock ids of `cache`.
    pub open spec fn wf(&self, cache: Cache) -> bool {
        &&& cache.wf()
        &&& self.player.spells.wf()
        &&& self.counter_orders.wf()
        &&& self.tome_spells.wf()
        &&& in_table(self.player.stock)
        &&& self.player.stock_id == cache.stock_id(self.player.stock)
        &&& ids_known(self@)
    }
}

impl Default for State {
    /// No stock, spell, order nor tome spell, turn 0.
    fn default() -> (s: Self)
        ensures
            s.player.stock == [0i8, 0i8, 0i8, 0i8],
            s.player.stock_id == 0,
            s@.spells == Seq::<(u32, bool)>::empty(),
            s.player.rupees == 0,
            s.player.brewed_potions_count == 0,
            s@.counter == Seq::<u32>::empty(),
            s.plus_3_bonus_remaining == 0,
            s.plus_1_bonus_remaining == 0,
            s@.tome == Seq::<(u32, u8)>::empty(),
            s.turn == 0,
            s.player.spells.wf(),
            s.counter_orders.wf(),
            s.tome_spells.wf(),
    {
        State {
            player: Player {
                stock: [0, 0, 0, 0],
                stock_id: 0,
                spells: StackVector::new(),
                rupees: 0,
                brewed_potions_count: 0,
            },
            counter_orders: StackVector::new(),
            plus_3_bonus_remaining: 0,
            plus_1_bonus_remaining: 0,
            tome_spells: StackVector::new(),
            turn: 0,
        }
    }
}

/// The first position of `id` among the first parts of `ids`.
pub open spec fn first_position_of<T>(ids: Seq<(u32, T)>, id: u32) -> Option<int>
    decreases ids.len(),
{
    if ids.len() == 0 {
        None
    } else if ids[0].0 == id {
        Some(0)
    } else {
        match first_position_of(ids.drop_first(), id) {
            Some(p) => Some(p + 1),
            None => None,
        }
    }
}

/// The first position of `id` in `ids`.
pub open spec fn first_id_position(ids: Seq<u32>, id: u32) -> Option<int>
    decreases ids.len(),
{
    if ids.len() == 0 {
        None
    } else if ids[0] == id {
        Some(0)
    } else {
        match first_id_position(ids.drop_first(), id) {
            Some(p) => Some(p + 1),
            None => None,
        }
    }
}

proof fn lemma_first_id_position(ids: Seq<u32>, id: u32, k: int)
    requires
        0 <= k <= ids.len(),
        k < ids.len() ==> ids[k] == id,
        forall|j: int| 0 <= j < k ==> ids[j] != id,
    ensures
        first_id_position(ids, id) == if k < ids.len() {
            Some(k)
        } else {
            None::<int>
        },
    decreases ids.len(),
{
    if ids.len() > 0 && k > 0 {
        assert forall|j: int| 0 <= j < k - 1 implies ids.drop_first()[j] != id by {
            assert(ids.drop_first()[j] == ids[j + 1]);
        }
        lemma_first_id_position(ids.drop_first(), id, k - 1);
    }
}

proof fn lemma_first_position_of<T>(ids: Seq<(u32, T)>, id: u32, k: int)
    requires
        0 <= k <= ids.len(),
        k < ids.len() ==> ids[k].0 == id,
        forall|j: int| 0 <= j < k ==> ids[j].0 != id,
    ensures
        first_position_of(ids, id) == if k < ids.len() {
            Some(k)
        } else {
            None::<int>
        },
    decreases ids.len(),
{
    if ids.len() > 0 && k > 0 {
        assert forall|j: int| 0 <= j < k - 1 implies ids.drop_first()[j].0 != id by {
            assert(ids.drop_first()[j] == ids[j + 1]);
        }
        lemma_first_position_of(ids.drop_first(), id, k - 1);
    }
}

pub proof fn lemma_first_position_of_bounds<T>(ids: Seq<(u32, T)>, id: u32)
    ensures
        first_position_of(ids, id) matches Some(p) ==> 0 <= p < ids.len() && ids[p].0 == id,
    decreases ids.len(),
{
    if ids.len() > 0 && ids[0].0 != id {
        lemma_first_position_of_bounds(ids.drop_first(), id);
    }
}

pub proof fn lemma_first_id_position_bounds(ids: Seq<u32>, id: u32)
    ensures
        first_id_position(ids, id) matches Some(p) ==> 0 <= p < ids.len() && ids[p] == id,
    decreases ids.len(),
{
    if ids.len() > 0 && ids[0] != id {
        lemma_first_id_position_bounds(ids.drop_first(), id);
    }
}

/// The position of the first order with that id on the counter.
pub fn get_order_position(ids: &[u32], id: u32) -> (p: Option<usize>)
    ensures
        match p {
            Some(i) => first_id_position(ids@, id) == Some(i as int) && i < ids@.len(),
            None => first_id_position(ids@, id) is None,
        },
{
    let mut i: usize = 0;
    while i < ids.len()
        invariant
            i <= ids@.len(),
            forall|j: int| 0 <= j < i ==> ids@[j] != id,
        decreases ids@.len() - i,
    {
        if ids[i] == id {
            proof {
                lemma_first_id_position(ids@, id, i as int);
            }
            return Some(i);
        }
        i += 1;
    }
    proof {
        lemma_first_id_position(ids@, id, ids@.len() as int);
    }
    None
}

/// The position of the first spell of the witch with that id.
pub fn get_player_spell_position(ids: &[(u32, bool)], id: u32) -> (p: Option<usize>)
    ensures
        match p {
            Some(i) => first_position_of(ids@, id) == Some(i as int) && i < ids@.len(),
            None => first_position_of(ids@, id) is None,
        },
{
    let mut i: usize = 0;
    while i < ids.len()
        invariant
            i <= ids@.len(),
            forall|j: int| 0 <= j < i ==> ids@[j].0 != id,
        decreases ids@.len() - i,
    {
        if ids[i].0 == id {
            proof {
                lemma_first_position_of(ids@, id, i as int);
            }
            return Some(i);
        }
        i += 1;
    }
    proof {
        lemma_first_position_of(ids@, id, ids@.len() as int);
    }
    None
}

/// The position of the first tome spell with that id.
pub fn get_tome_spell_position(ids: &[(u32, u8)], id: u32) -> (p: Option<usize>)
    ensures
        match p {
            Some(i) => first_position_of(ids@, id) == Some(i as int) && i < ids@.len(),
            None => first_position_of(ids@, id) is None,
        },
{
    let mut i: usize = 0;
    while i < ids.len()
        invariant
            i <= ids@.len(),
            forall|j: int| 0 <= j < i ==> ids@[j].0 != id,
        decreases ids@.len() - i,
    {
        if ids[i].0 == id {
            proof {
                lemma_first_position_of(ids@, id, i as int);
            }
            return Some(i);
        }
        i += 1;
    }
    proof {
        lemma_first_position_of(ids@, id, ids@.len() as int);
    }
    None
}

/// The bonus a brewed order earns by its place, and the bonuses left: the
/// first order earns +3 while some are left, else +1; the second earns +1
/// when both kinds are left.
pub open spec fn brew_bonus(pos: int, plus_3: u8, plus_1: u8) -> (int, u8, u8) {
    if pos == 0 {
        if plus_3 > 0 {
            (3, (plus_3 - 1) as u8, plus_1)
        } else if plus_1 > 0 {
            (1, plus_3, (plus_1 - 1) as u8)
        } else {
            (0, plus_3, plus_1)
        }
    } else if pos == 1 && plus_3 > 0 && plus_1 > 0 {
        (1, plus_3, (plus_1 - 1) as u8)
    } else {
        (0, plus_3, plus_1)
    }
}

/// The state after a move of the planning witch, and one more turn.
pub open spec fn spec_update(s: PlanModel, m: Move) -> PlanModel {
    let s1 = match m {
        Move::BREW(id) => {
            let o = spec_all_orders()[id as int];
            let pos = first_id_position(s.counter, id)->0;
            let b = brew_bonus(pos, s.plus_3, s.plus_1);
            PlanModel {
                stock: add_recipe(s.stock, o.recipe, 1),
                plus_3: b.1,
                plus_1: b.2,
                brewed: (s.brewed + 1) as u8,
                rupees: (s.rupees + o.price + b.0) as u8,
                counter: s.counter.remove(pos),
                ..s
            }
        },
        Move::CAST(id, times) => {
            let sp = all_spells()[id as int];
            let pos = first_position_of(s.spells, id)->0;
            PlanModel {
                stock: add_recipe(s.stock, sp.recipe, times as int),
                spells: s.spells.update(pos, (s.spells[pos].0, false)),
                ..s
            }
        },
        Move::LEARN(id) => {
            let pos = first_position_of(s.tome, id)->0;
            PlanModel {
                spells: s.spells.push((id, true)),
                stock: learn_stock(s.stock, pos, s.tome[pos].1),
                tome: s.tome.remove(pos),
                ..s
            }
        },
        Move::REST => PlanModel { spells: s.spells.map_values(|p: (u32, bool)| (p.0, true)), ..s },
        _ => s,
    };
    PlanModel { turn: (s.turn + 1) as u8, ..s1 }
}

/// The move can be played: what it names is there, the new stock has a
/// place in the tables, and no amount or count leaves its range.
pub open spec fn update_fits(s: PlanModel, m: Move) -> bool {
    &&& s.turn < 255
    &&& match m {
        Move::BREW(id) => {
            &&& id < EXISTING_ORDER_COUNT
            &&& first_id_position(s.counter, id) is Some
            &&& ({
                let o = spec_all_orders()[id as int];
                let b = brew_bonus(first_id_position(s.counter, id)->0, s.plus_3, s.plus_1);
                &&& fits_repeated(s.stock, o.recipe, 1)
                &&& in_table(add_recipe(s.stock, o.recipe, 1))
                &&& s.brewed < 255
                &&& s.rupees + o.price + b.0 <= 255
            })
        },
        Move::CAST(id, times) => {
            &&& id < EXISTING_SPELL_COUNT
            &&& first_position_of(s.spells, id) is Some
            &&& fits_repeated(s.stock, all_spells()[id as int].recipe, times as int)
            &&& in_table(add_recipe(s.stock, all_spells()[id as int].recipe, times as int))
        },
        Move::LEARN(id) => {
            &&& id < EXISTING_SPELL_COUNT
            &&& first_position_of(s.tome, id) is Some
            &&& s.spells.len() < MAX_PLAYER_SPELLS
            &&& ({
                let pos = first_position_of(s.tome, id)->0;
                let paid = s.stock[0] - pos;
                let tax = s.tome[pos].1;
                &&& -128 <= paid
                &&& tax > 0 ==> {
                    let empty = 10 - paid - s.stock[1] - s.stock[2] - s.stock[3];
                    &&& -128 <= 10 - paid <= 127
                    &&& -128 <= 10 - paid - s.stock[1] <= 127
                    &&& -128 <= 10 - paid - s.stock[1] - s.stock[2] <= 127
                    &&& -128 <= empty <= 127
                    &&& -128 <= paid + min_i8(tax as i8, empty as i8) <= 127
                }
                &&& in_table(learn_stock(s.stock, pos, tax))
            })
        },
        _ => true,
    }
}

/// Plays a move of the planning witch (see `spec_update`).
pub fn update(state: &State, move_: &Move, cache: &Cache) -> (r: State)
    requires
        state.wf(*cache),
        update_fits(state@, *move_),
    ensures
        r.wf(*cache),
        r@ == spec_update(state@, *move_),
{
    let mut spells = StackVector::from(state.player.spells.slice());
    let mut counter = StackVector::from(state.counter_orders.slice());
    let mut tome = StackVector::from(state.tome_spells.slice());
    let mut stock = state.player.stock;
    let mut stock_id = state.player.stock_id;
    let mut rupees = state.player.rupees;
    let mut brewed = state.player.brewed_potions_count;
    let mut plus_3 = state.plus_3_bonus_remaining;
    let mut plus_1 = state.plus_1_bonus_remaining;
    let ghost s = state@;
    match *move_ {
        Move::BREW(order_id) => {
            let order = cache.getOrder(order_id);
            let pos = get_order_position(counter.slice(), order_id).unwrap();
            brew_and_update_stock(&mut stock, &order);
            stock_id = cache.getStockId(&stock);
            let mut bonus: u8 = 0;
            if pos == 0 {
                if plus_3 > 0 {
                    bonus = 3;
                    plus_3 = plus_3 - 1;
                } else if plus_1 > 0 {
                    bonus = 1;
                    plus_1 = plus_1 - 1;
                }
            } else if pos == 1 {
                if plus_3 > 0 && plus_1 > 0 {
                    bonus = 1;
                    plus_1 = plus_1 - 1;
                }
            }
            brewed = brewed + 1;
            rupees = rupees + (order.price + bonus);
            counter.remove(pos);
        },
        Move::CAST(spell_id, times) => {
            let spell = cache.getSpell(spell_id);
            let pos = get_player_spell_position(spells.slice(), spell_id).unwrap();
            cast_and_update_stock(&mut stock, &spell.recipe, times);
            stock_id = cache.getStockId(&stock);
            let id = spells.get(pos).0;
            let entry = spells.get_mut(pos);
            *entry = (id, false);
        },
        Move::LEARN(spell_id) => {
            let pos = get_tome_spell_position(tome.slice(), spell_id).unwrap();
            proof {
                lemma_first_position_of_bounds(s.tome, spell_id);
            }
            spells.add((spell_id, true));
            stock[0] = stock[0] - pos as i8;
            let tax = tome.get(pos).1;
            if tax > 0 {
                let empty_storage = 10 - stock[0] - stock[1] - stock[2] - stock[3];
                let t = tax as i8;
                let gained = if t <= empty_storage {
                    t
                } else {
                    empty_storage
                };
                stock[0] = stock[0] + gained;
            }
            assert(stock =~= learn_stock(s.stock, pos as int, s.tome[pos as int].1));
            stock_id = cache.getStockId(&stock);
            tome.remove(pos);
        },
        Move::REST => {
            let n = spells.len();
            let mut i: usize = 0;
            while i < n
                invariant
                    i <= n,
                    n == s.spells.len(),
                    spells.wf(),
                    spells@.len() == n,
                    forall|j: int| 0 <= j < i ==> spells@[j] == (s.spells[j].0, true),
                    forall|j: int| i <= j < n ==> spells@[j] == s.spells[j],
                decreases n - i,
            {
                let id = spells.get(i).0;
                let entry = spells.get_mut(i);
                *entry = (id, true);
                i += 1;
            }
            assert(spells@ =~= s.spells.map_values(|p: (u32, bool)| (p.0, true)));
        },
        _ => {},
    }
    let r = State {
        player: Player { stock, stock_id, spells, rupees, brewed_potions_count: brewed },
        counter_orders: counter,
        plus_3_bonus_remaining: plus_3,
        plus_1_bonus_remaining: plus_1,
        tome_spells: tome,
        turn: state.turn + 1,
    };
    proof {
        match *move_ {
            Move::BREW(id) => {
                lemma_first_id_position_bounds(s.counter, id);
            },
            Move::CAST(id, _) => {
                lemma_first_position_of_bounds(s.spells, id);
            },
            Move::LEARN(id) => {
                lemma_first_position_of_bounds(s.tome, id);
            },
            _ => {},
        }
        assert(r@ =~= spec_update(s, *move_));
        assert(ids_known(r@)) by {
            assert forall|i: int| 0 <= i < r@.spells.len() implies (#[trigger] r@.spells[i]).0 < EXISTING_SPELL_COUNT by {
                if i < s.spells.len() {
                    assert(r@.spells[i].0 == s.spells[i].0);
                }
            }
            assert forall|i: int| 0 <= i < r@.counter.len() implies #[trigger] r@.counter[i] < EXISTING_ORDER_COUNT by {
                if let Move::BREW(id) = *move_ {
                    let pos = first_id_position(s.counter, id)->0;
                    assert(r@.counter[i] == s.counter[if i < pos { i } else { i + 1 }]);
                }
            }
            assert forall|i: int| 0 <= i < r@.tome.len() implies (#[trigger] r@.tome[i]).0 < EXISTING_SPELL_COUNT by {
                if let Move::LEARN(id) = *move_ {
                    let pos = first_position_of(s.tome, id)->0;
                    assert(r@.tome[i] == s.tome[if i < pos { i } else { i + 1 }]);
                }
            }
        }
    }
    r
}

/// The BREW moves the tables allow, for the orders of the counter by id.
pub open spec fn id_brew_moves(ids: Seq<u32>, cache: Cache, sid: int) -> Seq<Move>
    decreases ids.len(),
{
    if ids.len() == 0 {
        Seq::empty()
    } else {
        let rest = id_brew_moves(ids.drop_last(), cache, sid);
        if cache.fulfills_at(sid, ids.last() as int) {
            rest.push(Move::BREW(ids.last()))
        } else {
            rest
        }
    }
}

/// The CAST moves the tables allow for the castable spells: once, twice,
/// ... as many times as each can be cast.
pub open spec fn pair_cast_moves(spells: Seq<(u32, bool)>, cache: Cache, sid: int) -> Seq<Move>
    decreases spells.len(),
{
    if spells.len() == 0 {
        Seq::empty()
    } else {
        let rest = pair_cast_moves(spells.drop_last(), cache, sid);
        let (id, active) = spells.last();
        if active {
            rest + Seq::new(cache.times_at(sid, id as int) as nat, |k: int| Move::CAST(id, (k + 1) as u8))
        } else {
            rest
        }
    }
}

/// Some spell cannot be cast.
pub open spec fn some_exhausted(spells: Seq<(u32, bool)>) -> bool {
    exists|i: int| 0 <= i < spells.len() && !(#[trigger] spells[i]).1
}

/// The LEARN moves: the first tome spells, as many as the tier-0
/// ingredients allow.
pub open spec fn plan_learn_moves(tome: Seq<(u32, u8)>, stock0: int) -> Seq<Move> {
    if tome.len() == 0 {
        Seq::empty()
    } else {
        let n = if stock0 < tome.len() - 1 {
            stock0 + 1
        } else {
            tome.len() as int
        };
        Seq::new(n as nat, |t: int| Move::LEARN(tome[t].0))
    }
}

/// The moves the planner considers: none at turn 100 or after six potions;
/// while it knows fewer than ten spells, learning the first tome spell;
/// else BREW, CAST, REST (if a spell is exhausted) and LEARN.
pub open spec fn plan_moves(s: PlanModel, cache: Cache, sid: int) -> Seq<Move> {
    if s.turn == 100 || s.brewed == 6 {
        Seq::empty()
    } else if s.spells.len() < 10 {
        seq![Move::LEARN(s.tome[0].0)]
    } else {
        id_brew_moves(s.counter, cache, sid) + pair_cast_moves(s.spells, cache, sid) + (if some_exhausted(s.spells) {
            seq![Move::REST]
        } else {
            Seq::empty()
        }) + plan_learn_moves(s.tome, s.stock[0] as int)
    }
}

/// Every move the planner considers can be played.
pub open spec fn plan_fits(s: PlanModel, cache: Cache, sid: int) -> bool {
    &&& (s.turn != 100 && s.brewed != 6 && s.spells.len() < 10 ==> s.tome.len() > 0)
    &&& forall|k: int| 0 <= k < plan_moves(s, cache, sid).len() ==> update_fits(s, #[trigger] plan_moves(s, cache, sid)[k])
}

/// The moves the planner considers (see `plan_moves`), each with the state
/// it leads to.
pub fn next_states(state: &State, cache: &Cache) -> (r: Vec<(Move, State)>)
    requires
        state.wf(*cache),
        plan_fits(state@, *cache, state.player.stock_id as int),
    ensures
        r@.len() == plan_moves(state@, *cache, state.player.stock_id as int).len(),
        forall|k: int| 0 <= k < r@.len() ==> {
            &&& (#[trigger] r@[k]).0 == plan_moves(state@, *cache, state.player.stock_id as int)[k]
            &&& r@[k].1.wf(*cache)
            &&& r@[k].1@ == spec_update(state@, plan_moves(state@, *cache, state.player.stock_id as int)[k])
        },
{
    let orders = state.counter_orders.slice();
    let tome_spells = state.tome_spells.slice();
    let player_spells = state.player.spells.slice();
    let player_stock = &state.player.stock;
    let player_stock_id = state.player.stock_id;
    let ghost sid = player_stock_id as int;
    let ghost s = state@;
    proof {
        cache.lemma_ids(*player_stock);
    }
    let mut valid_moves: Vec<Move> = Vec::new();
    if state.turn == 100 || state.player.brewed_potions_count == 6 {
    } else if player_spells.len() < 10 {
        valid_moves.push(Move::LEARN(tome_spells[0].0));
    } else {
        let mut i: usize = 0;
        while i < orders.len()
            invariant
                i <= orders@.len(),
                orders@ == s.counter,
                ids_known(s),
                cache.wf(),
                player_stock_id < cache.row_count(),
                sid == player_stock_id,
                valid_moves@ == id_brew_moves(orders@.take(i as int), *cache, sid),
            decreases orders@.len() - i,
        {
            assert(orders@.take(i + 1).drop_last() =~= orders@.take(i as int));
            assert(orders@[i as int] < EXISTING_ORDER_COUNT);
            if cache.can_fulfill_order(orders[i], player_stock_id) {
                valid_moves.push(Move::BREW(orders[i]));
            }
            i += 1;
        }
        assert(orders@.take(orders@.len() as int) =~= orders@);
        let ghost brews = valid_moves@;
        let mut all_spells_are_active = true;
        let mut k: usize = 0;
        while k < player_spells.len()
            invariant
                k <= player_spells@.len(),
                player_spells@ == s.spells,
                ids_known(s),
                cache.wf(),
                player_stock_id < cache.row_count(),
                sid == player_stock_id,
                valid_moves@ == brews + pair_cast_moves(player_spells@.take(k as int), *cache, sid),
                all_spells_are_active == !some_exhausted(player_spells@.take(k as int)),
            decreases player_spells@.len() - k,
        {
            let (spell_id, active) = player_spells[k];
            proof {
                assert(player_spells@.take(k + 1).drop_last() =~= player_spells@.take(k as int));
                assert(player_spells@.take(k + 1).last() == (spell_id, active));
                if !active {
                    assert(!(player_spells@.take(k + 1)[k as int]).1);
                }
                assert(some_exhausted(player_spells@.take(k + 1)) == (some_exhausted(player_spells@.take(k as int)) || !active)) by {
                    if some_exhausted(player_spells@.take(k as int)) {
                        let j = choose|j: int| 0 <= j < k && !(#[trigger] player_spells@.take(k as int)[j]).1;
                        assert(!(player_spells@.take(k + 1)[j]).1);
                    }
                    if some_exhausted(player_spells@.take(k + 1)) {
                        let j = choose|j: int| 0 <= j < k + 1 && !(#[trigger] player_spells@.take(k + 1)[j]).1;
                        if j < k {
                            assert(!(player_spells@.take(k as int)[j]).1);
                        }
                    }
                }
            }
            if active == false {
                all_spells_are_active = false;
            } else {
                assert(player_spells@[k as int].0 < EXISTING_SPELL_COUNT);
                let times_can_cast_spell = cache.how_many_times_can_cast_spell(spell_id, player_stock_id);
                let ghost before = valid_moves@;
                let ghost run = Seq::new(times_can_cast_spell as nat, |j: int| Move::CAST(spell_id, (j + 1) as u8));
                let mut n: u16 = 1;
                while n <= times_can_cast_spell as u16
                    invariant
                        1 <= n <= times_can_cast_spell as int + 1,
                        run == Seq::new(times_can_cast_spell as nat, |j: int| Move::CAST(spell_id, (j + 1) as u8)),
                        valid_moves@ == before + run.take(n - 1),
                    decreases times_can_cast_spell + 1 - n,
                {
                    assert(run.take(n as int) =~= run.take(n - 1).push(Move::CAST(spell_id, n as u8)));
                    valid_moves.push(Move::CAST(spell_id, n as u8));
                    n += 1;
                }
                assert(run.take(times_can_cast_spell as int) =~= run);
            }
            k += 1;
        }
        assert(player_spells@.take(player_spells@.len() as int) =~= player_spells@);
        if all_spells_are_active == false {
            valid_moves.push(Move::REST);
        }
        let ghost mid = valid_moves@;
        if tome_spells.len() > 0 {
            let last = if (player_stock[0] as usize) < tome_spells.len() - 1 {
                player_stock[0] as usize
            } else {
                tome_spells.len() - 1
            };
            let ghost learns = plan_learn_moves(tome_spells@, player_stock[0] as int);
            let mut t: usize = 0;
            while t <= last
                invariant
                    last < tome_spells@.len(),
                    t <= last + 1,
                    learns.len() == last + 1,
                    learns == plan_learn_moves(tome_spells@, player_stock[0] as int),
                    valid_moves@ == mid + learns.take(t as int),
                decreases last + 1 - t,
            {
                assert(learns.take(t + 1) =~= learns.take(t as int).push(Move::LEARN(tome_spells@[t as int].0)));
                valid_moves.push(Move::LEARN(tome_spells[t].0));
                t += 1;
            }
            assert(learns.take(learns.len() as int) =~= learns);
        }
    }
    assert(valid_moves@ =~= plan_moves(s, *cache, sid));
    let mut result: Vec<(Move, State)> = Vec::new();
    let mut k: usize = 0;
    while k < valid_moves.len()
        invariant
            k <= valid_moves@.len(),
            valid_moves@ == plan_moves(s, *cache, sid),
            state.wf(*cache),
            s == state@,
            sid == state.player.stock_id,
            plan_fits(s, *cache, sid),
            result@.len() == k,
            forall|j: int| 0 <= j < k ==> {
                &&& (#[trigger] result@[j]).0 == plan_moves(s, *cache, sid)[j]
                &&& result@[j].1.wf(*cache)
                &&& result@[j].1@ == spec_update(s, plan_moves(s, *cache, sid)[j])
            },
        decreases valid_moves@.len() - k,
    {
        let m = valid_moves[k];
        assert(update_fits(s, plan_moves(s, *cache, sid)[k as int]));
        let next = update(state, &m, cache);
        result.push((m, next));
        k += 1;
    }
    result
}


/// The planner's state of a turn: its own stock, spells and rupees (as a
/// `u8`, cut to its low byte), the potions brewed so far, the counter and
/// the tome of the entity lines, and the turn.
pub open spec fn planned_state(
    my_spells: Seq<Spell>,
    counter: Seq<Order>,
    tome: Seq<Spell>,
    plus_3: u8,
    plus_1: u8,
    stock: Ingredients,
    rupees: u32,
    brewed: u8,
    turn: u8,
) -> PlanModel {
    PlanModel {
        stock,
        spells: my_spells.map_values(|sp: Spell| (sp.id, sp.active)),
        rupees: rupees as u8,
        brewed,
        counter: counter.map_values(|o: Order| o.id),
        plus_3,
        plus_1,
        tome: tome.map_values(|sp: Spell| (sp.id, sp.tax)),
        turn,
    }
}

/// Builds the planner's state of a turn (see `planned_state`).
pub fn plan_state(e: &TurnEntities, stock: Ingredients, rupees: u32, brewed: u8, turn: u8, cache: &Cache) -> (r: State)
    requires
        e.wf(),
        known_spells(e.my_spells@),
        known_orders(e.counter_orders@),
        known_spells(e.tome_spells@),
        cache.wf(),
        in_table(stock),
    ensures
        r.wf(*cache),
        r@ == planned_state(
            e.my_spells@,
            e.counter_orders@,
            e.tome_spells@,
            e.plus_3_bonus_remaining,
            e.plus_1_bonus_remaining,
            stock,
            rupees,
            brewed,
            turn,
        ),
{
    let mut spells: StackVector<(u32, bool), MAX_PLAYER_SPELLS> = StackVector::new();
    let mut i: usize = 0;
    while i < e.my_spells.len()
        invariant
            i <= e.my_spells@.len(),
            e.wf(),
            spells.wf(),
            spells@ == e.my_spells@.take(i as int).map_values(|sp: Spell| (sp.id, sp.active)),
        decreases e.my_spells@.len() - i,
    {
        let sp = *e.my_spells.get(i);
        spells.add((sp.id, sp.active));
        assert(e.my_spells@.take(i + 1).map_values(|sp: Spell| (sp.id, sp.active)) =~= e.my_spells@.take(i as int).map_values(
            |sp: Spell| (sp.id, sp.active),
        ).push((sp.id, sp.active)));
        i += 1;
    }
    let mut counter: StackVector<u32, 5> = StackVector::new();
    let mut i: usize = 0;
    while i < e.counter_orders.len()
        invariant
            i <= e.counter_orders@.len(),
            e.wf(),
            counter.wf(),
            counter@ == e.counter_orders@.take(i as int).map_values(|o: Order| o.id),
        decreases e.counter_orders@.len() - i,
    {
        let o = *e.counter_orders.get(i);
        counter.add(o.id);
        assert(e.counter_orders@.take(i + 1).map_values(|o: Order| o.id) =~= e.counter_orders@.take(i as int).map_values(
            |o: Order| o.id,
        ).push(o.id));
        i += 1;
    }
    let mut tome: StackVector<(u32, u8), 6> = StackVector::new();
    let mut i: usize = 0;
    while i < e.tome_spells.len()
        invariant
            i <= e.tome_spells@.len(),
            e.wf(),
            tome.wf(),
            tome@ == e.tome_spells@.take(i as int).map_values(|sp: Spell| (sp.id, sp.tax)),
        decreases e.tome_spells@.len() - i,
    {
        let sp = *e.tome_spells.get(i);
        tome.add((sp.id, sp.tax));
        assert(e.tome_spells@.take(i + 1).map_values(|sp: Spell| (sp.id, sp.tax)) =~= e.tome_spells@.take(i as int).map_values(
            |sp: Spell| (sp.id, sp.tax),
        ).push((sp.id, sp.tax)));
        i += 1;
    }
    assert(e.my_spells@.take(e.my_spells@.len() as int) =~= e.my_spells@);
    assert(e.counter_orders@.take(e.counter_orders@.len() as int) =~= e.counter_orders@);
    assert(e.tome_spells@.take(e.tome_spells@.len() as int) =~= e.tome_spells@);
    let stock_id = cache.getStockId(&stock);
    let r = State {
        player: Player { stock, stock_id, spells, rupees: rupees as u8, brewed_potions_count: brewed },
        counter_orders: counter,
        plus_3_bonus_remaining: e.plus_3_bonus_remaining,
        plus_1_bonus_remaining: e.plus_1_bonus_remaining,
        tome_spells: tome,
        turn,
    };
    assert(r@ =~= planned_state(
        e.my_spells@,
        e.counter_orders@,
        e.tome_spells@,
        e.plus_3_bonus_remaining,
        e.plus_1_bonus_remaining,
        stock,
        rupees,
        brewed,
        turn,
    ));
    assert(ids_known(r@)) by {
        assert forall|i: int| 0 <= i < r@.spells.len() implies (#[trigger] r@.spells[i]).0 < EXISTING_SPELL_COUNT by {
            assert(r@.spells[i].0 == e.my_spells@[i].id);
        }
        assert forall|i: int| 0 <= i < r@.counter.len() implies #[trigger] r@.counter[i] < EXISTING_ORDER_COUNT by {
            assert(r@.counter[i] == e.counter_orders@[i].id);
        }
        assert forall|i: int| 0 <= i < r@.tome.len() implies (#[trigger] r@.tome[i]).0 < EXISTING_SPELL_COUNT by {
            assert(r@.tome[i].0 == e.tome_spells@[i].id);
        }
    }
    r
}

} // verus!
