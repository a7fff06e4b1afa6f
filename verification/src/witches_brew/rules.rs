//! The rules of the potion brewing game: ingredients, orders, spells and
//! the moves a witch may make.
use vstd::prelude::*;
use crate::stack_vector::StackVector;

verus! {

/// Amounts of the four ingredient tiers.
pub type Ingredients = [i8; 4];

/// The most moves a witch can have in one turn.
pub const MAX_VALID_MOVES: usize = 47;

/// The most spells a witch can know: the 42 tome spells and 4 basic ones.
pub const MAX_PLAYER_SPELLS: usize = 46;

#[derive(Copy, Clone, PartialEq, Eq, Debug, Structural)]
pub enum Move {
    NONE,
    WAIT,
    REST,
    BREW(u32),
    CAST(u32, u8),
    LEARN(u32),
}

/// A potion order: `recipe` holds minus the ingredients it takes.
#[derive(Copy, Clone, Debug)]
pub struct Order {
    pub id: u32,
    pub recipe: Ingredients,
    pub price: u8,
    pub bonus: u8,
}

/// A spell: casting it adds `recipe` to the stock.
#[derive(Copy, Clone, Debug)]
pub struct Spell {
    pub id: u32,
    pub recipe: Ingredients,
    pub delta_stock: i8,
    pub tax: u8,
    pub repeatable: bool,
    pub active: bool,
}

pub open spec fn stock_total(s: Ingredients) -> int {
    s[0] + s[1] + s[2] + s[3]
}

/// A stock that a witch can hold: no negative amount, at most 10 in all.
pub open spec fn valid_stock(s: Ingredients) -> bool {
    &&& s[0] >= 0
    &&& s[1] >= 0
    &&& s[2] >= 0
    &&& s[3] >= 0
    &&& stock_total(s) <= 10
}

/// Each amount is small (as in every recipe of the game).
pub open spec fn small_recipe(r: Ingredients) -> bool {
    &&& -10 <= r[0] <= 10
    &&& -10 <= r[1] <= 10
    &&& -10 <= r[2] <= 10
    &&& -10 <= r[3] <= 10
}

pub open spec fn spec_can_fulfill_order(order: Order, stock: Ingredients) -> bool {
    &&& stock[0] >= -order.recipe[0]
    &&& stock[1] >= -order.recipe[1]
    &&& stock[2] >= -order.recipe[2]
    &&& stock[3] >= -order.recipe[3]
}

pub open spec fn spec_can_cast_spell(spell: Spell, stock: Ingredients) -> bool {
    &&& spell.active
    &&& spell.delta_stock <= 10 - stock_total(stock)
    &&& forall|i: int| 0 <= i < 4 && spell.recipe[i] < 0 ==> stock[i] >= -spell.recipe[i]
}

/// `stock` after adding `times` times `recipe`.
pub open spec fn add_recipe(stock: Ingredients, recipe: Ingredients, times: int) -> Ingredients {
    [
        (stock[0] + times * recipe[0]) as i8,
        (stock[1] + times * recipe[1]) as i8,
        (stock[2] + times * recipe[2]) as i8,
        (stock[3] + times * recipe[3]) as i8,
    ]
}

/// A spell whose `delta_stock` is the sum of its recipe, and which, if it is
/// repeatable, takes some ingredient or adds some in all (so that it can only
/// be cast a bounded number of times in a row).
pub open spec fn consistent_spell(spell: Spell) -> bool {
    &&& small_recipe(spell.recipe)
    &&& spell.delta_stock == stock_total(spell.recipe)
    &&& spell.repeatable ==> (spell.delta_stock > 0 || exists|i: int|
        0 <= i < 4 && #[trigger] spell.recipe[i] < 0)
}

/// What decreases while a repeatable spell is cast again and again.
pub open spec fn cast_measure(spell: Spell, stock: Ingredients) -> int {
    if spell.recipe[0] < 0 {
        stock[0] as int
    } else if spell.recipe[1] < 0 {
        stock[1] as int
    } else if spell.recipe[2] < 0 {
        stock[2] as int
    } else if spell.recipe[3] < 0 {
        stock[3] as int
    } else {
        10 - stock_total(stock)
    }
}

/// How many times in a row the spell can be cast from `stock`.
pub open spec fn times_castable(spell: Spell, stock: Ingredients) -> nat
    decreases cast_measure(spell, stock),
{
    if consistent_spell(spell) && valid_stock(stock) && spec_can_cast_spell(spell, stock) && cast_measure(
        spell,
        add_recipe(stock, spell.recipe, 1),
    ) < cast_measure(spell, stock) && cast_measure(spell, add_recipe(stock, spell.recipe, 1)) >= 0 {
        1 + times_castable(spell, add_recipe(stock, spell.recipe, 1))
    } else if spec_can_cast_spell(spell, stock) {
        1
    } else {
        0
    }
}

pub open spec fn spec_how_many_times_can_cast_spell(spell: Spell, stock: Ingredients) -> nat {
    if !spell.active {
        0
    } else if !spell.repeatable {
        if spec_can_cast_spell(spell, stock) {
            1
        } else {
            0
        }
    } else {
        times_castable(spell, stock)
    }
}

/// The position of the first order with the given id.
pub open spec fn first_order_position(orders: Seq<Order>, id: u32) -> Option<int>
    decreases orders.len(),
{
    if orders.len() == 0 {
        None
    } else if orders[0].id == id {
        Some(0)
    } else {
        match first_order_position(orders.drop_first(), id) {
            Some(p) => Some(p + 1),
            None => None,
        }
    }
}

/// The position of the first spell with the given id.
pub open spec fn first_spell_position(spells: Seq<Spell>, id: u32) -> Option<int>
    decreases spells.len(),
{
    if spells.len() == 0 {
        None
    } else if spells[0].id == id {
        Some(0)
    } else {
        match first_spell_position(spells.drop_first(), id) {
            Some(p) => Some(p + 1),
            None => None,
        }
    }
}

pub fn can_fulfill_order(order: &Order, stock: &Ingredients) -> (b: bool)
    requires
        small_recipe(order.recipe),
    ensures
        b == spec_can_fulfill_order(*order, *stock),
{
    stock[0] >= -order.recipe[0] && stock[1] >= -order.recipe[1] && stock[2] >= -order.recipe[2]
        && stock[3] >= -order.recipe[3]
}

pub fn can_cast_spell(spell: &Spell, stock: &Ingredients) -> (b: bool)
    requires
        small_recipe(spell.recipe),
        valid_stock(*stock),
    ensures
        b == spec_can_cast_spell(*spell, *stock),
{
    if spell.active == false {
        return false;
    }
    let empty_slots = 10 - stock[0] - stock[1] - stock[2] - stock[3];
    if spell.delta_stock > empty_slots {
        return false;
    }
    let mut i: usize = 0;
    while i < 4
        invariant
            i <= 4,
            small_recipe(spell.recipe),
            forall|j: int| 0 <= j < i && spell.recipe[j] < 0 ==> stock[j] >= -spell.recipe[j],
        decreases 4 - i,
    {
        if spell.recipe[i] < 0 && stock[i] < -spell.recipe[i] {
            return false;
        }
        i += 1;
    }
    true
}

pub(crate) proof fn lemma_cast_keeps_stock_valid(spell: Spell, stock: Ingredients)
    requires
        consistent_spell(spell),
        valid_stock(stock),
        spec_can_cast_spell(spell, stock),
    ensures
        valid_stock(add_recipe(stock, spell.recipe, 1)),
        0 <= cast_measure(spell, add_recipe(stock, spell.recipe, 1)),
        spell.repeatable ==> cast_measure(spell, add_recipe(stock, spell.recipe, 1)) < cast_measure(spell, stock),
{
    let s2 = add_recipe(stock, spell.recipe, 1);
    assert(spell.recipe[0] < 0 ==> stock[0] >= -spell.recipe[0]);
    assert(spell.recipe[1] < 0 ==> stock[1] >= -spell.recipe[1]);
    assert(spell.recipe[2] < 0 ==> stock[2] >= -spell.recipe[2]);
    assert(spell.recipe[3] < 0 ==> stock[3] >= -spell.recipe[3]);
    if spell.repeatable && spell.delta_stock <= 0 {
        let i = choose|i: int| 0 <= i < 4 && #[trigger] spell.recipe[i] < 0;
        assert(spell.recipe[0] < 0 || spell.recipe[1] < 0 || spell.recipe[2] < 0 || spell.recipe[3] < 0) by {
            if i == 0 {} else if i == 1 {} else if i == 2 {} else {}
        }
    }
}

/// Every amount of `stock` plus `k` times `recipe` fits an `i8`, for every
/// `k` up to `times`.
pub open spec fn fits_repeated(stock: Ingredients, recipe: Ingredients, times: int) -> bool {
    forall|k: int, i: int|
        0 <= k <= times && 0 <= i < 4 ==> -128 <= #[trigger] (stock[i] + k * recipe[i]) <= 127
}

pub(crate) proof fn lemma_times_step(a: int, t: int, r: int)
    ensures
        a + (t + 1) * r == (a + t * r) + r,
{
    assert(a + (t + 1) * r == (a + t * r) + r) by (nonlinear_arith);
}

/// Adds `times` times `recipe` to the stock.
pub fn cast_and_update_stock(stock: &mut Ingredients, recipe: &Ingredients, times: u8)
    requires
        fits_repeated(*old(stock), *recipe, times as int),
    ensures
        *final(stock) == add_recipe(*old(stock), *recipe, times as int),
{
    let ghost s0 = *stock;
    let mut t: u8 = 0;
    assert(forall|i: int| 0 <= i < 4 ==> s0[i] + 0 * recipe[i] == s0[i]);
    assert(*stock =~= add_recipe(s0, *recipe, 0));
    while t < times
        invariant
            t <= times,
            fits_repeated(s0, *recipe, times as int),
            *stock == add_recipe(s0, *recipe, t as int),
        decreases times - t,
    {
        proof {
            assert forall|i: int| 0 <= i < 4 implies -128 <= s0[i] + t * recipe[i] <= 127 && -128 <= s0[i] + (t + 1) * recipe[i] <= 127 && s0[i] + (t + 1) * recipe[i] == (s0[i] + t * recipe[i]) + recipe[i] by {
                lemma_times_step(s0[i] as int, t as int, recipe[i] as int);
                assert(-128 <= s0[i] + t * recipe[i] <= 127);
                assert(-128 <= s0[i] + (t + 1) * recipe[i] <= 127);
            }
        }
        let ghost target = add_recipe(s0, *recipe, t + 1);
        let mut i: usize = 0;
        while i < 4
            invariant
                i <= 4,
                target == add_recipe(s0, *recipe, t + 1),
                forall|j: int| 0 <= j < 4 ==> -128 <= s0[j] + t * recipe[j] <= 127 && s0[j] + (t + 1) * recipe[j] == (s0[j] + t * recipe[j]) + recipe[j] && -128 <= s0[j] + (t + 1) * recipe[j] <= 127,
                forall|j: int| 0 <= j < i ==> stock[j] == target[j],
                forall|j: int| i <= j < 4 ==> stock[j] == s0[j] + t * recipe[j],
            decreases 4 - i,
        {
            stock[i] = stock[i] + recipe[i];
            i += 1;
        }
        assert(*stock =~= target);
        t += 1;
    }
}

/// Takes the ingredients of an order from the stock.
pub fn brew_and_update_stock(stock: &mut Ingredients, order: &Order)
    requires
        fits_repeated(*old(stock), order.recipe, 1),
    ensures
        *final(stock) == add_recipe(*old(stock), order.recipe, 1),
{
    let ghost s0 = *stock;
    assert(forall|i: int| 0 <= i < 4 ==> s0[i] + 1 * order.recipe[i] == s0[i] + order.recipe[i]);
    assert forall|i: int| 0 <= i < 4 implies -128 <= #[trigger] s0[i] + order.recipe[i] <= 127 by {
        assert(-128 <= s0[i] + 1 * order.recipe[i] <= 127);
    }
    let mut i: usize = 0;
    while i < 4
        invariant
            i <= 4,
            forall|j: int| 0 <= j < 4 ==> -128 <= #[trigger] s0[j] + order.recipe[j] <= 127,
            forall|j: int| 0 <= j < i ==> stock[j] == s0[j] + order.recipe[j],
            forall|j: int| i <= j < 4 ==> stock[j] == s0[j],
        decreases 4 - i,
    {
        assert(stock[i as int] == s0[i as int]);
        assert(-128 <= s0[i as int] + order.recipe[i as int] <= 127);
        stock[i] = stock[i] + order.recipe[i];
        i += 1;
    }
    assert(*stock =~= add_recipe(s0, order.recipe, 1));
}

pub(crate) proof fn lemma_times_castable_bound(spell: Spell, stock: Ingredients)
    requires
        consistent_spell(spell),
        valid_stock(stock),
    ensures
        times_castable(spell, stock) <= cast_measure(spell, stock) + 1,
        0 <= cast_measure(spell, stock) <= 10,
    decreases cast_measure(spell, stock),
{
    if spec_can_cast_spell(spell, stock) {
        lemma_cast_keeps_stock_valid(spell, stock);
        let next = add_recipe(stock, spell.recipe, 1);
        if cast_measure(spell, next) < cast_measure(spell, stock) {
            lemma_times_castable_bound(spell, next);
        }
    }
}

/// How many times the spell can be cast: 0 if it is exhausted, at most once
/// if it is not repeatable, else as many times in a row as the stock allows.
pub fn how_many_times_can_cast_spell(spell: &Spell, stock: &Ingredients) -> (times: u8)
    requires
        consistent_spell(*spell),
        valid_stock(*stock),
    ensures
        times == spec_how_many_times_can_cast_spell(*spell, *stock),
        times <= 11,
{
    if spell.active == false {
        return 0;
    }
    if spell.repeatable == false {
        if can_cast_spell(spell, stock) {
            1
        } else {
            0
        }
    } else {
        let mut times: u8 = 0;
        let ghost start = *stock;
        let mut stock = *stock;
        proof {
            lemma_times_castable_bound(*spell, stock);
        }
        while can_cast_spell(spell, &stock)
            invariant
                consistent_spell(*spell),
                spell.repeatable,
                valid_stock(stock),
                times + times_castable(*spell, stock) == times_castable(*spell, start),
                times_castable(*spell, start) <= 11,
            decreases cast_measure(*spell, stock),
        {
            proof {
                lemma_cast_keeps_stock_valid(*spell, stock);
                let next = add_recipe(stock, spell.recipe, 1);
                assert(fits_repeated(stock, spell.recipe, 1)) by {
                    assert forall|k: int, i: int| 0 <= k <= 1 && 0 <= i < 4 implies -128 <= #[trigger] (stock[i] + k * spell.recipe[i]) <= 127 by {
                        assert(k == 0 || k == 1);
                    }
                }
            }
            times += 1;
            cast_and_update_stock(&mut stock, &spell.recipe, 1);
        }
        times
    }
}

/// The position of the first order with that id, if any.
pub fn get_order_position(orders: &[Order], order_id: u32) -> (p: Option<usize>)
    ensures
        match p {
            Some(i) => first_order_position(orders@, order_id) == Some(i as int) && i < orders@.len()
                && orders@[i as int].id == order_id,
            None => first_order_position(orders@, order_id) is None,
        },
{
    let mut i: usize = 0;
    while i < orders.len()
        invariant
            i <= orders@.len(),
            forall|j: int| 0 <= j < i ==> orders@[j].id != order_id,
        decreases orders@.len() - i,
    {
        if orders[i].id == order_id {
            proof {
                lemma_first_order_position(orders@, order_id, i as int);
            }
            return Some(i);
        }
        i += 1;
    }
    proof {
        lemma_first_order_position(orders@, order_id, orders@.len() as int);
    }
    None
}

pub proof fn lemma_first_order_position_bounds(orders: Seq<Order>, id: u32)
    ensures
        first_order_position(orders, id) matches Some(p) ==> 0 <= p < orders.len() && orders[p].id == id,
    decreases orders.len(),
{
    if orders.len() > 0 && orders[0].id != id {
        lemma_first_order_position_bounds(orders.drop_first(), id);
    }
}

pub proof fn lemma_first_spell_position_bounds(spells: Seq<Spell>, id: u32)
    ensures
        first_spell_position(spells, id) matches Some(p) ==> 0 <= p < spells.len() && spells[p].id == id,
    decreases spells.len(),
{
    if spells.len() > 0 && spells[0].id != id {
        lemma_first_spell_position_bounds(spells.drop_first(), id);
    }
}

proof fn lemma_first_order_position(orders: Seq<Order>, id: u32, k: int)
    requires
        0 <= k <= orders.len(),
        k < orders.len() ==> orders[k].id == id,
        forall|j: int| 0 <= j < k ==> orders[j].id != id,
    ensures
        first_order_position(orders, id) == if k < orders.len() {
            Some(k)
        } else {
            None::<int>
        },
    decreases orders.len(),
{
    if orders.len() > 0 && k > 0 {
        assert forall|j: int| 0 <= j < k - 1 implies orders.drop_first()[j].id != id by {
            assert(orders.drop_first()[j] == orders[j + 1]);
        }
        lemma_first_order_position(orders.drop_first(), id, k - 1);
    }
}

/// The position of the first spell with that id, if any.
pub fn get_spell_position(spells: &[Spell], spell_id: u32) -> (p: Option<usize>)
    ensures
        match p {
            Some(i) => first_spell_position(spells@, spell_id) == Some(i as int) && i < spells@.len()
                && spells@[i as int].id == spell_id,
            None => first_spell_position(spells@, spell_id) is None,
        },
{
    let mut i: usize = 0;
    while i < spells.len()
        invariant
            i <= spells@.len(),
            forall|j: int| 0 <= j < i ==> spells@[j].id != spell_id,
        decreases spells@.len() - i,
    {
        if spells[i].id == spell_id {
            proof {
                lemma_first_spell_position(spells@, spell_id, i as int);
            }
            return Some(i);
        }
        i += 1;
    }
    proof {
        lemma_first_spell_position(spells@, spell_id, spells@.len() as int);
    }
    None
}

proof fn lemma_first_spell_position(spells: Seq<Spell>, id: u32, k: int)
    requires
        0 <= k <= spells.len(),
        k < spells.len() ==> spells[k].id == id,
        forall|j: int| 0 <= j < k ==> spells[j].id != id,
    ensures
        first_spell_position(spells, id) == if k < spells.len() {
            Some(k)
        } else {
            None::<int>
        },
    decreases spells.len(),
{
    if spells.len() > 0 && k > 0 {
        assert forall|j: int| 0 <= j < k - 1 implies spells.drop_first()[j].id != id by {
            assert(spells.drop_first()[j] == spells[j + 1]);
        }
        lemma_first_spell_position(spells.drop_first(), id, k - 1);
    }
}

/// The BREW moves: one per order the stock can fulfill, in order.
pub open spec fn brew_moves(orders: Seq<Order>, stock: Ingredients) -> Seq<Move>
    decreases orders.len(),
{
    if orders.len() == 0 {
        Seq::empty()
    } else {
        let rest = brew_moves(orders.drop_last(), stock);
        if spec_can_fulfill_order(orders.last(), stock) {
            rest.push(Move::BREW(orders.last().id))
        } else {
            rest
        }
    }
}

/// The CAST moves of one spell: once, twice, ... as many times as it can be
/// cast.
pub open spec fn spell_cast_moves(spell: Spell, stock: Ingredients) -> Seq<Move> {
    Seq::new(
        spec_how_many_times_can_cast_spell(spell, stock),
        |k: int| Move::CAST(spell.id, (k + 1) as u8),
    )
}

/// The CAST moves of the active spells, in order.
pub open spec fn cast_moves(spells: Seq<Spell>, stock: Ingredients) -> Seq<Move>
    decreases spells.len(),
{
    if spells.len() == 0 {
        Seq::empty()
    } else {
        let rest = cast_moves(spells.drop_last(), stock);
        if spells.last().active {
            rest + spell_cast_moves(spells.last(), stock)
        } else {
            rest
        }
    }
}

pub open spec fn has_inactive_spell(spells: Seq<Spell>) -> bool {
    exists|i: int| 0 <= i < spells.len() && !(#[trigger] spells[i]).active
}

/// The LEARN moves: the tome spell at position `t` costs `t` tier-0
/// ingredients (positions and amounts compared as `u8`).
pub open spec fn learn_moves(tome: Seq<Spell>, stock0: int) -> Seq<Move>
    decreases tome.len(),
{
    if tome.len() == 0 {
        Seq::empty()
    } else {
        let rest = learn_moves(tome.drop_last(), stock0);
        if ((tome.len() - 1) as u8) <= (stock0 as u8) {
            rest.push(Move::LEARN(tome.last().id))
        } else {
            rest
        }
    }
}

/// The moves of a witch before the fallback: BREW, CAST, REST (if a spell is
/// exhausted), then LEARN.
pub open spec fn listed_moves(orders: Seq<Order>, tome: Seq<Spell>, spells: Seq<Spell>, stock: Ingredients) -> Seq<Move> {
    brew_moves(orders, stock) + cast_moves(spells, stock) + (if has_inactive_spell(spells) {
        seq![Move::REST]
    } else {
        Seq::empty()
    }) + learn_moves(tome, stock[0] as int)
}

/// The moves of a witch; WAIT when there is no other.
pub open spec fn spec_valid_moves(orders: Seq<Order>, tome: Seq<Spell>, spells: Seq<Spell>, stock: Ingredients) -> Seq<Move> {
    let all = listed_moves(orders, tome, spells, stock);
    if all.len() == 0 {
        seq![Move::WAIT]
    } else {
        all
    }
}

proof fn lemma_brew_moves_len(orders: Seq<Order>, stock: Ingredients)
    ensures
        brew_moves(orders, stock).len() <= orders.len(),
    decreases orders.len(),
{
    if orders.len() > 0 {
        lemma_brew_moves_len(orders.drop_last(), stock);
    }
}

proof fn lemma_learn_moves_len(tome: Seq<Spell>, stock0: int)
    ensures
        learn_moves(tome, stock0).len() <= tome.len(),
    decreases tome.len(),
{
    if tome.len() > 0 {
        lemma_learn_moves_len(tome.drop_last(), stock0);
    }
}

pub fn valid_moves(
    orders: &[Order],
    tome_spells: &[Spell],
    player_spells: &[Spell],
    stock: &Ingredients,
) -> (moves: StackVector<Move, MAX_VALID_MOVES>)
    requires
        forall|i: int| 0 <= i < orders@.len() ==> small_recipe(#[trigger] orders@[i].recipe),
        forall|i: int| 0 <= i < player_spells@.len() ==> consistent_spell(#[trigger] player_spells@[i]),
        valid_stock(*stock),
        listed_moves(orders@, tome_spells@, player_spells@, *stock).len() <= MAX_VALID_MOVES,
    ensures
        moves.wf(),
        moves@ == spec_valid_moves(orders@, tome_spells@, player_spells@, *stock),
{
    let ghost total = listed_moves(orders@, tome_spells@, player_spells@, *stock);
    let mut valid_moves: StackVector<Move, MAX_VALID_MOVES> = StackVector::new();
    let ghost brews = brew_moves(orders@, *stock);
    let ghost casts = cast_moves(player_spells@, *stock);
    let mut i: usize = 0;
    while i < orders.len()
        invariant
            i <= orders@.len(),
            forall|j: int| 0 <= j < orders@.len() ==> small_recipe(#[trigger] orders@[j].recipe),
            valid_moves.wf(),
            valid_moves@ == brew_moves(orders@.take(i as int), *stock),
            brews == brew_moves(orders@, *stock),
            total == listed_moves(orders@, tome_spells@, player_spells@, *stock),
            total.len() <= MAX_VALID_MOVES,
            brews.len() <= total.len(),
            valid_moves@.len() <= brews.len(),
        decreases orders@.len() - i,
    {
        assert(orders@.take(i + 1).drop_last() =~= orders@.take(i as int));
        proof {
            lemma_brew_moves_prefix(orders@, *stock, i + 1);
        }
        if can_fulfill_order(&orders[i], stock) {
            valid_moves.add(Move::BREW(orders[i].id));
        }
        i += 1;
    }
    assert(orders@.take(orders@.len() as int) =~= orders@);
    let mut all_spells_are_active = true;
    let mut k: usize = 0;
    while k < player_spells.len()
        invariant
            k <= player_spells@.len(),
            forall|j: int| 0 <= j < player_spells@.len() ==> consistent_spell(#[trigger] player_spells@[j]),
            valid_stock(*stock),
            valid_moves.wf(),
            valid_moves@ == brews + cast_moves(player_spells@.take(k as int), *stock),
            all_spells_are_active == !has_inactive_spell(player_spells@.take(k as int)),
            casts == cast_moves(player_spells@, *stock),
            total == listed_moves(orders@, tome_spells@, player_spells@, *stock),
            total.len() <= MAX_VALID_MOVES,
            brews.len() + casts.len() <= total.len(),
            valid_moves@.len() <= brews.len() + cast_moves(player_spells@.take(k as int), *stock).len(),
            cast_moves(player_spells@.take(k as int), *stock).len() <= casts.len(),
        decreases player_spells@.len() - k,
    {
        let sp = player_spells[k];
        proof {
            assert(player_spells@.take(k + 1).drop_last() =~= player_spells@.take(k as int));
            assert(player_spells@.take(k + 1).last() == sp);
            lemma_cast_moves_prefix(player_spells@, *stock, k + 1);
            if !sp.active {
                assert(!(player_spells@.take(k + 1)[k as int]).active);
            }
            assert(has_inactive_spell(player_spells@.take(k + 1)) == (has_inactive_spell(player_spells@.take(k as int)) || !sp.active)) by {
                if has_inactive_spell(player_spells@.take(k as int)) {
                    let j = choose|j: int| 0 <= j < k && !(#[trigger] player_spells@.take(k as int)[j]).active;
                    assert(!(player_spells@.take(k + 1)[j]).active);
                }
                if has_inactive_spell(player_spells@.take(k + 1)) {
                    let j = choose|j: int| 0 <= j < k + 1 && !(#[trigger] player_spells@.take(k + 1)[j]).active;
                    if j < k {
                        assert(!(player_spells@.take(k as int)[j]).active);
                    }
                }
            }
        }
        if sp.active == false {
            all_spells_are_active = false;
        } else {
            let times = how_many_times_can_cast_spell(&sp, stock);
            let ghost before = valid_moves@;
            let mut n: u8 = 1;
            while n <= times
                invariant
                    1 <= n <= times + 1,
                    times <= 11,
                    times == spec_how_many_times_can_cast_spell(sp, *stock),
                    valid_moves.wf(),
                    valid_moves@ == before + spell_cast_moves(sp, *stock).take(n - 1),
                    before.len() + spell_cast_moves(sp, *stock).len() <= MAX_VALID_MOVES,
                decreases times + 1 - n,
            {
                assert(spell_cast_moves(sp, *stock).take(n as int) =~= spell_cast_moves(sp, *stock).take(n - 1).push(Move::CAST(sp.id, n)));
                valid_moves.add(Move::CAST(sp.id, n));
                n += 1;
            }
            assert(spell_cast_moves(sp, *stock).take(times as int) =~= spell_cast_moves(sp, *stock));
        }
        k += 1;
    }
    assert(player_spells@.take(player_spells@.len() as int) =~= player_spells@);
    if all_spells_are_active == false {
        valid_moves.add(Move::REST);
    }
    let ghost mid = valid_moves@;
    let mut t: usize = 0;
    while t < tome_spells.len()
        invariant
            t <= tome_spells@.len(),
            valid_stock(*stock),
            valid_moves.wf(),
            valid_moves@ == mid + learn_moves(tome_spells@.take(t as int), stock[0] as int),
            total == mid + learn_moves(tome_spells@, stock[0] as int),
            total.len() <= MAX_VALID_MOVES,
            learn_moves(tome_spells@.take(t as int), stock[0] as int).len() <= learn_moves(tome_spells@, stock[0] as int).len(),
        decreases tome_spells@.len() - t,
    {
        proof {
            assert(tome_spells@.take(t + 1).drop_last() =~= tome_spells@.take(t as int));
            lemma_learn_moves_prefix(tome_spells@, stock[0] as int, t + 1);
        }
        if t as u8 <= stock[0] as u8 {
            valid_moves.add(Move::LEARN(tome_spells[t].id));
        }
        t += 1;
    }
    assert(tome_spells@.take(tome_spells@.len() as int) =~= tome_spells@);
    assert(valid_moves@ =~= total);
    if valid_moves.len() == 0 {
        valid_moves.add(Move::WAIT);
    }
    valid_moves
}

/// Whether the moves of a witch fit in a list of `MAX_VALID_MOVES` (what
/// `valid_moves` needs).
pub fn moves_fit(
    orders: &[Order],
    tome_spells: &[Spell],
    player_spells: &[Spell],
    stock: &Ingredients,
) -> (b: bool)
    requires
        forall|i: int| 0 <= i < orders@.len() ==> small_recipe(#[trigger] orders@[i].recipe),
        forall|i: int| 0 <= i < player_spells@.len() ==> consistent_spell(#[trigger] player_spells@[i]),
        valid_stock(*stock),
    ensures
        b == (listed_moves(orders@, tome_spells@, player_spells@, *stock).len() <= MAX_VALID_MOVES),
{
    let ghost total = listed_moves(orders@, tome_spells@, player_spells@, *stock);
    let ghost brews = brew_moves(orders@, *stock);
    let ghost casts = cast_moves(player_spells@, *stock);
    let ghost learns = learn_moves(tome_spells@, stock[0] as int);
    let ghost rest: Seq<Move> = if has_inactive_spell(player_spells@) { seq![Move::REST] } else { Seq::empty() };
    assert(total == brews + casts + rest + learns);
    let mut count: usize = 0;
    let mut i: usize = 0;
    while i < orders.len()
        invariant
            i <= orders@.len(),
            forall|j: int| 0 <= j < orders@.len() ==> small_recipe(#[trigger] orders@[j].recipe),
            count == brew_moves(orders@.take(i as int), *stock).len(),
            count <= MAX_VALID_MOVES,
            brews == brew_moves(orders@, *stock),
            total == brews + casts + rest + learns,
            total == listed_moves(orders@, tome_spells@, player_spells@, *stock),
            casts == cast_moves(player_spells@, *stock),
            learns == learn_moves(tome_spells@, stock[0] as int),
            rest == (if has_inactive_spell(player_spells@) { seq![Move::REST] } else { Seq::<Move>::empty() }),
        decreases orders@.len() - i,
    {
        assert(orders@.take(i + 1).drop_last() =~= orders@.take(i as int));
        proof {
            lemma_brew_moves_prefix(orders@, *stock, i + 1);
        }
        if can_fulfill_order(&orders[i], stock) {
            count += 1;
            if count > MAX_VALID_MOVES {
                return false;
            }
        }
        i += 1;
    }
    assert(orders@.take(orders@.len() as int) =~= orders@);
    let ghost after_brews = count as int;
    let mut all_spells_are_active = true;
    let mut k: usize = 0;
    while k < player_spells.len()
        invariant
            k <= player_spells@.len(),
            forall|j: int| 0 <= j < player_spells@.len() ==> consistent_spell(#[trigger] player_spells@[j]),
            valid_stock(*stock),
            after_brews == brews.len(),
            count == brews.len() + cast_moves(player_spells@.take(k as int), *stock).len(),
            count <= MAX_VALID_MOVES,
            all_spells_are_active == !has_inactive_spell(player_spells@.take(k as int)),
            casts == cast_moves(player_spells@, *stock),
            total == brews + casts + rest + learns,
            total == listed_moves(orders@, tome_spells@, player_spells@, *stock),
            learns == learn_moves(tome_spells@, stock[0] as int),
            rest == (if has_inactive_spell(player_spells@) { seq![Move::REST] } else { Seq::<Move>::empty() }),
        decreases player_spells@.len() - k,
    {
        let sp = player_spells[k];
        proof {
            assert(player_spells@.take(k + 1).drop_last() =~= player_spells@.take(k as int));
            assert(player_spells@.take(k + 1).last() == sp);
            lemma_cast_moves_prefix(player_spells@, *stock, k + 1);
            if !sp.active {
                assert(!(player_spells@.take(k + 1)[k as int]).active);
            }
            assert(has_inactive_spell(player_spells@.take(k + 1)) == (has_inactive_spell(player_spells@.take(k as int)) || !sp.active)) by {
                if has_inactive_spell(player_spells@.take(k as int)) {
                    let j = choose|j: int| 0 <= j < k && !(#[trigger] player_spells@.take(k as int)[j]).active;
                    assert(!(player_spells@.take(k + 1)[j]).active);
                }
                if has_inactive_spell(player_spells@.take(k + 1)) {
                    let j = choose|j: int| 0 <= j < k + 1 && !(#[trigger] player_spells@.take(k + 1)[j]).active;
                    if j < k {
                        assert(!(player_spells@.take(k as int)[j]).active);
                    }
                }
            }
        }
        if sp.active == false {
            all_spells_are_active = false;
        } else {
            let times = how_many_times_can_cast_spell(&sp, stock);
            count += times as usize;
            assert(cast_moves(player_spells@.take(k + 1), *stock) == cast_moves(player_spells@.take(k as int), *stock)
                + spell_cast_moves(sp, *stock));
            assert(spell_cast_moves(sp, *stock).len() == times);
            if count > MAX_VALID_MOVES {
                return false;
            }
        }
        k += 1;
    }
    assert(player_spells@.take(player_spells@.len() as int) =~= player_spells@);
    if all_spells_are_active == false {
        count += 1;
        if count > MAX_VALID_MOVES {
            return false;
        }
    }
    assert(count == brews.len() + casts.len() + rest.len());
    let mut t: usize = 0;
    while t < tome_spells.len()
        invariant
            t <= tome_spells@.len(),
            valid_stock(*stock),
            count == brews.len() + casts.len() + rest.len() + learn_moves(tome_spells@.take(t as int), stock[0] as int).len(),
            count <= MAX_VALID_MOVES,
            learns == learn_moves(tome_spells@, stock[0] as int),
            total == brews + casts + rest + learns,
            total == listed_moves(orders@, tome_spells@, player_spells@, *stock),
        decreases tome_spells@.len() - t,
    {
        proof {
            assert(tome_spells@.take(t + 1).drop_last() =~= tome_spells@.take(t as int));
            lemma_learn_moves_prefix(tome_spells@, stock[0] as int, t + 1);
        }
        if t as u8 <= stock[0] as u8 {
            count += 1;
            assert(learn_moves(tome_spells@.take(t + 1), stock[0] as int) == learn_moves(tome_spells@.take(t as int), stock[0] as int).push(
                Move::LEARN(tome_spells@[t as int].id),
            ));
            if count > MAX_VALID_MOVES {
                return false;
            }
        } else {
            assert(learn_moves(tome_spells@.take(t + 1), stock[0] as int) == learn_moves(tome_spells@.take(t as int), stock[0] as int));
        }
        t += 1;
    }
    assert(tome_spells@.take(tome_spells@.len() as int) =~= tome_spells@);
    true
}

proof fn lemma_brew_moves_prefix(orders: Seq<Order>, stock: Ingredients, k: int)
    requires
        0 <= k <= orders.len(),
    ensures
        brew_moves(orders.take(k), stock).len() <= brew_moves(orders, stock).len(),
    decreases orders.len(),
{
    if k < orders.len() {
        assert(orders.drop_last().take(k) =~= orders.take(k));
        lemma_brew_moves_prefix(orders.drop_last(), stock, k);
    } else {
        assert(orders.take(k) =~= orders);
    }
}

proof fn lemma_cast_moves_prefix(spells: Seq<Spell>, stock: Ingredients, k: int)
    requires
        0 <= k <= spells.len(),
    ensures
        cast_moves(spells.take(k), stock).len() <= cast_moves(spells, stock).len(),
    decreases spells.len(),
{
    if k < spells.len() {
        assert(spells.drop_last().take(k) =~= spells.take(k));
        lemma_cast_moves_prefix(spells.drop_last(), stock, k);
    } else {
        assert(spells.take(k) =~= spells);
    }
}

proof fn lemma_learn_moves_prefix(tome: Seq<Spell>, stock0: int, k: int)
    requires
        0 <= k <= tome.len(),
    ensures
        learn_moves(tome.take(k), stock0).len() <= learn_moves(tome, stock0).len(),
    decreases tome.len(),
{
    if k < tome.len() {
        assert(tome.drop_last().take(k) =~= tome.take(k));
        lemma_learn_moves_prefix(tome.drop_last(), stock0, k);
    } else {
        assert(tome.take(k) =~= tome);
    }
}


/// The recipes of the 42 tome spells, by id.
pub open spec fn tome_recipes() -> Seq<Ingredients> {
    seq![
        [-3i8, 0i8, 0i8, 1i8],
        [3i8, -1i8, 0i8, 0i8],
        [1i8, 1i8, 0i8, 0i8],
        [0i8, 0i8, 1i8, 0i8],
        [3i8, 0i8, 0i8, 0i8],
        [2i8, 3i8, -2i8, 0i8],
        [2i8, 1i8, -2i8, 1i8],
        [3i8, 0i8, 1i8, -1i8],
        [3i8, -2i8, 1i8, 0i8],
        [2i8, -3i8, 2i8, 0i8],
        [2i8, 2i8, 0i8, -1i8],
        [-4i8, 0i8, 2i8, 0i8],
        [2i8, 1i8, 0i8, 0i8],
        [4i8, 0i8, 0i8, 0i8],
        [0i8, 0i8, 0i8, 1i8],
        [0i8, 2i8, 0i8, 0i8],
        [1i8, 0i8, 1i8, 0i8],
        [-2i8, 0i8, 1i8, 0i8],
        [-1i8, -1i8, 0i8, 1i8],
        [0i8, 2i8, -1i8, 0i8],
        [2i8, -2i8, 0i8, 1i8],
        [-3i8, 1i8, 1i8, 0i8],
        [0i8, 2i8, -2i8, 1i8],
        [1i8, -3i8, 1i8, 1i8],
        [0i8, 3i8, 0i8, -1i8],
        [0i8, -3i8, 0i8, 2i8],
        [1i8, 1i8, 1i8, -1i8],
        [1i8, 2i8, -1i8, 0i8],
        [4i8, 1i8, -1i8, 0i8],
        [-5i8, 0i8, 0i8, 2i8],
        [-4i8, 0i8, 1i8, 1i8],
        [0i8, 3i8, 2i8, -2i8],
        [1i8, 1i8, 3i8, -2i8],
        [-5i8, 0i8, 3i8, 0i8],
        [-2i8, 0i8, -1i8, 2i8],
        [0i8, 0i8, -3i8, 3i8],
        [0i8, -3i8, 3i8, 0i8],
        [-3i8, 3i8, 0i8, 0i8],
        [-2i8, 2i8, 0i8, 0i8],
        [0i8, 0i8, -2i8, 2i8],
        [0i8, -2i8, 2i8, 0i8],
        [0i8, 0i8, 2i8, -1i8]
    ]
}

/// The ingredients taken and the prices of the 36 orders, by id.
pub open spec fn order_amounts() -> Seq<(Ingredients, u8)> {
    seq![
        ([2i8, 2i8, 0i8, 0i8], 6u8),
        ([3i8, 2i8, 0i8, 0i8], 7u8),
        ([0i8, 4i8, 0i8, 0i8], 8u8),
        ([2i8, 0i8, 2i8, 0i8], 8u8),
        ([2i8, 3i8, 0i8, 0i8], 8u8),
        ([3i8, 0i8, 2i8, 0i8], 9u8),
        ([0i8, 2i8, 2i8, 0i8], 10u8),
        ([0i8, 5i8, 0i8, 0i8], 10u8),
        ([2i8, 0i8, 0i8, 2i8], 10u8),
        ([2i8, 0i8, 3i8, 0i8], 11u8),
        ([3i8, 0i8, 0i8, 2i8], 11u8),
        ([0i8, 0i8, 4i8, 0i8], 12u8),
        ([0i8, 2i8, 0i8, 2i8], 12u8),
        ([0i8, 3i8, 2i8, 0i8], 12u8),
        ([0i8, 2i8, 3i8, 0i8], 13u8),
        ([0i8, 0i8, 2i8, 2i8], 14u8),
        ([0i8, 3i8, 0i8, 2i8], 14u8),
        ([2i8, 0i8, 0i8, 3i8], 14u8),
        ([0i8, 0i8, 5i8, 0i8], 15u8),
        ([0i8, 0i8, 0i8, 4i8], 16u8),
        ([0i8, 2i8, 0i8, 3i8], 16u8),
        ([0i8, 0i8, 3i8, 2i8], 17u8),
        ([0i8, 0i8, 2i8, 3i8], 18u8),
        ([0i8, 0i8, 0i8, 5i8], 20u8),
        ([2i8, 1i8, 0i8, 1i8], 9u8),
        ([0i8, 2i8, 1i8, 1i8], 12u8),
        ([1i8, 0i8, 2i8, 1i8], 12u8),
        ([2i8, 2i8, 2i8, 0i8], 13u8),
        ([2i8, 2i8, 0i8, 2i8], 15u8),
        ([2i8, 0i8, 2i8, 2i8], 17u8),
        ([0i8, 2i8, 2i8, 2i8], 19u8),
        ([1i8, 1i8, 1i8, 1i8], 12u8),
        ([3i8, 1i8, 1i8, 1i8], 14u8),
        ([1i8, 3i8, 1i8, 1i8], 16u8),
        ([1i8, 1i8, 3i8, 1i8], 18u8),
        ([1i8, 1i8, 1i8, 3i8], 20u8)
    ]
}

/// A recipe takes some ingredient.
pub open spec fn takes_ingredient(r: Ingredients) -> bool {
    r[0] < 0 || r[1] < 0 || r[2] < 0 || r[3] < 0
}

/// The tome spell of the given id: repeatable when it takes an ingredient.
pub open spec fn tome_spell(i: int) -> Spell {
    let r = tome_recipes()[i];
    Spell {
        id: i as u32,
        recipe: r,
        delta_stock: stock_total(r) as i8,
        tax: 0,
        repeatable: takes_ingredient(r),
        active: true,
    }
}

pub open spec fn spec_tome_spells() -> Seq<Spell> {
    Seq::new(42, |i: int| tome_spell(i))
}

pub open spec fn spec_order(i: int) -> Order {
    let a = order_amounts()[i].0;
    Order {
        id: i as u32,
        recipe: [(-a[0]) as i8, (-a[1]) as i8, (-a[2]) as i8, (-a[3]) as i8],
        price: order_amounts()[i].1,
        bonus: 0,
    }
}

pub open spec fn spec_all_orders() -> Seq<Order> {
    Seq::new(36, |i: int| spec_order(i))
}

/// The four basic spells every witch starts with.
pub open spec fn spec_basic_spells() -> Seq<Spell> {
    seq![
        Spell { id: 42, recipe: [2i8, 0i8, 0i8, 0i8], delta_stock: 2, tax: 0, repeatable: false, active: true },
        Spell { id: 43, recipe: [-1i8, 1i8, 0i8, 0i8], delta_stock: 0, tax: 0, repeatable: false, active: true },
        Spell { id: 44, recipe: [0i8, -1i8, 1i8, 0i8], delta_stock: 0, tax: 0, repeatable: false, active: true },
        Spell { id: 45, recipe: [0i8, 0i8, -1i8, 1i8], delta_stock: 0, tax: 0, repeatable: false, active: true },
    ]
}

/// The 42 tome spells, by id.
pub fn get_tome_spells() -> (spells: Vec<Spell>)
    ensures
        spells@ == spec_tome_spells(),
{
    let recipes: Vec<Ingredients> = vec![
        [-3, 0, 0, 1],
        [3, -1, 0, 0],
        [1, 1, 0, 0],
        [0, 0, 1, 0],
        [3, 0, 0, 0],
        [2, 3, -2, 0],
        [2, 1, -2, 1],
        [3, 0, 1, -1],
        [3, -2, 1, 0],
        [2, -3, 2, 0],
        [2, 2, 0, -1],
        [-4, 0, 2, 0],
        [2, 1, 0, 0],
        [4, 0, 0, 0],
        [0, 0, 0, 1],
        [0, 2, 0, 0],
        [1, 0, 1, 0],
        [-2, 0, 1, 0],
        [-1, -1, 0, 1],
        [0, 2, -1, 0],
        [2, -2, 0, 1],
        [-3, 1, 1, 0],
        [0, 2, -2, 1],
        [1, -3, 1, 1],
        [0, 3, 0, -1],
        [0, -3, 0, 2],
        [1, 1, 1, -1],
        [1, 2, -1, 0],
        [4, 1, -1, 0],
        [-5, 0, 0, 2],
        [-4, 0, 1, 1],
        [0, 3, 2, -2],
        [1, 1, 3, -2],
        [-5, 0, 3, 0],
        [-2, 0, -1, 2],
        [0, 0, -3, 3],
        [0, -3, 3, 0],
        [-3, 3, 0, 0],
        [-2, 2, 0, 0],
        [0, 0, -2, 2],
        [0, -2, 2, 0],
        [0, 0, 2, -1]
    ];
    assert(recipes@ =~= tome_recipes());
    let mut spells: Vec<Spell> = Vec::new();
    let mut i: usize = 0;
    while i < recipes.len()
        invariant
            i <= recipes@.len(),
            recipes@ == tome_recipes(),
            spells@ =~= spec_tome_spells().take(i as int),
        decreases recipes@.len() - i,
    {
        let s = recipes[i];
        assert(small_recipe(s));
        spells.push(Spell {
            id: i as u32,
            recipe: s,
            delta_stock: s[0] + s[1] + s[2] + s[3],
            tax: 0,
            repeatable: s[0] < 0 || s[1] < 0 || s[2] < 0 || s[3] < 0,
            active: true,
        });
        i += 1;
    }
    spells
}

/// The four basic spells.
pub fn get_basic_spells() -> (spells: [Spell; 4])
    ensures
        spells@ == spec_basic_spells(),
{
    let spells = [
        Spell { id: 42, recipe: [2, 0, 0, 0], delta_stock: 2, tax: 0, repeatable: false, active: true },
        Spell { id: 43, recipe: [-1, 1, 0, 0], delta_stock: 0, tax: 0, repeatable: false, active: true },
        Spell { id: 44, recipe: [0, -1, 1, 0], delta_stock: 0, tax: 0, repeatable: false, active: true },
        Spell { id: 45, recipe: [0, 0, -1, 1], delta_stock: 0, tax: 0, repeatable: false, active: true },
    ];
    assert(spells@ =~= spec_basic_spells());
    spells
}

/// The 36 orders, by id, without bonus.
pub fn get_all_orders() -> (orders: Vec<Order>)
    ensures
        orders@ == spec_all_orders(),
{
    let recipes: Vec<(Ingredients, u8)> = vec![
        ([2, 2, 0, 0], 6),
        ([3, 2, 0, 0], 7),
        ([0, 4, 0, 0], 8),
        ([2, 0, 2, 0], 8),
        ([2, 3, 0, 0], 8),
        ([3, 0, 2, 0], 9),
        ([0, 2, 2, 0], 10),
        ([0, 5, 0, 0], 10),
        ([2, 0, 0, 2], 10),
        ([2, 0, 3, 0], 11),
        ([3, 0, 0, 2], 11),
        ([0, 0, 4, 0], 12),
        ([0, 2, 0, 2], 12),
        ([0, 3, 2, 0], 12),
        ([0, 2, 3, 0], 13),
        ([0, 0, 2, 2], 14),
        ([0, 3, 0, 2], 14),
        ([2, 0, 0, 3], 14),
        ([0, 0, 5, 0], 15),
        ([0, 0, 0, 4], 16),
        ([0, 2, 0, 3], 16),
        ([0, 0, 3, 2], 17),
        ([0, 0, 2, 3], 18),
        ([0, 0, 0, 5], 20),
        ([2, 1, 0, 1], 9),
        ([0, 2, 1, 1], 12),
        ([1, 0, 2, 1], 12),
        ([2, 2, 2, 0], 13),
        ([2, 2, 0, 2], 15),
        ([2, 0, 2, 2], 17),
        ([0, 2, 2, 2], 19),
        ([1, 1, 1, 1], 12),
        ([3, 1, 1, 1], 14),
        ([1, 3, 1, 1], 16),
        ([1, 1, 3, 1], 18),
        ([1, 1, 1, 3], 20)
    ];
    assert(recipes@ =~= order_amounts());
    let mut orders: Vec<Order> = Vec::new();
    let mut i: usize = 0;
    while i < recipes.len()
        invariant
            i <= recipes@.len(),
            recipes@ == order_amounts(),
            orders@ =~= spec_all_orders().take(i as int),
        decreases recipes@.len() - i,
    {
        let o = recipes[i];
        assert(0 <= o.0[0] <= 5 && 0 <= o.0[1] <= 5 && 0 <= o.0[2] <= 5 && 0 <= o.0[3] <= 5);
        let order = Order { id: i as u32, recipe: [-o.0[0], -o.0[1], -o.0[2], -o.0[3]], price: o.1, bonus: 0 };
        assert(order.recipe =~= spec_order(i as int).recipe);
        orders.push(order);
        i += 1;
    }
    orders
}

/// The same four amounts.
pub fn same_recipe(a: &Ingredients, b: &Ingredients) -> (same: bool)
    ensures
        same == (*a == *b),
{
    let r = a[0] == b[0] && a[1] == b[1] && a[2] == b[2] && a[3] == b[3];
    if r {
        assert(*a =~= *b);
    }
    r
}

/// The first spell of `spells` with the given recipe.
pub open spec fn first_spell_with_recipe(spells: Seq<Spell>, recipe: Ingredients) -> Option<Spell>
    decreases spells.len(),
{
    if spells.len() == 0 {
        None
    } else if spells[0].recipe == recipe {
        Some(spells[0])
    } else {
        first_spell_with_recipe(spells.drop_first(), recipe)
    }
}

/// The first order of `orders` with the given recipe.
pub open spec fn first_order_with_recipe(orders: Seq<Order>, recipe: Ingredients) -> Option<Order>
    decreases orders.len(),
{
    if orders.len() == 0 {
        None
    } else if orders[0].recipe == recipe {
        Some(orders[0])
    } else {
        first_order_with_recipe(orders.drop_first(), recipe)
    }
}

fn find_spell_in(spells: &[Spell], recipe: &Ingredients) -> (found: Option<Spell>)
    ensures
        found == first_spell_with_recipe(spells@, *recipe),
{
    let mut i: usize = 0;
    assert(spells@.skip(0) =~= spells@);
    while i < spells.len()
        invariant
            i <= spells@.len(),
            first_spell_with_recipe(spells@, *recipe) == first_spell_with_recipe(spells@.skip(i as int), *recipe),
        decreases spells@.len() - i,
    {
        assert(spells@.skip(i as int).drop_first() =~= spells@.skip(i + 1));
        if same_recipe(&spells[i].recipe, recipe) {
            return Some(spells[i]);
        }
        i += 1;
    }
    None
}

/// The tome or basic spell with the given recipe, tome spells first.
pub fn find_spell(recipe: &Ingredients) -> (found: Option<Spell>)
    ensures
        found == first_spell_with_recipe(spec_tome_spells() + spec_basic_spells(), *recipe),
{
    let tome = get_tome_spells();
    let basic = get_basic_spells();
    proof {
        lemma_first_spell_concat(spec_tome_spells(), spec_basic_spells(), *recipe);
    }
    match find_spell_in(tome.as_slice(), recipe) {
        Some(s) => Some(s),
        None => find_spell_in(&basic, recipe),
    }
}

proof fn lemma_first_spell_concat(a: Seq<Spell>, b: Seq<Spell>, recipe: Ingredients)
    ensures
        first_spell_with_recipe(a + b, recipe) == match first_spell_with_recipe(a, recipe) {
            Some(s) => Some(s),
            None => first_spell_with_recipe(b, recipe),
        },
    decreases a.len(),
{
    if a.len() == 0 {
        assert(a + b =~= b);
    } else {
        assert((a + b).drop_first() =~= a.drop_first() + b);
        lemma_first_spell_concat(a.drop_first(), b, recipe);
    }
}

/// The order with the given recipe.
pub fn find_order(recipe: &Ingredients) -> (found: Option<Order>)
    ensures
        found == first_order_with_recipe(spec_all_orders(), *recipe),
{
    let orders = get_all_orders();
    let mut i: usize = 0;
    assert(orders@.skip(0) =~= orders@);
    while i < orders.len()
        invariant
            i <= orders@.len(),
            orders@ == spec_all_orders(),
            first_order_with_recipe(orders@, *recipe) == first_order_with_recipe(orders@.skip(i as int), *recipe),
        decreases orders@.len() - i,
    {
        assert(orders@.skip(i as int).drop_first() =~= orders@.skip(i + 1));
        if same_recipe(&orders[i].recipe, recipe) {
            return Some(orders[i]);
        }
        i += 1;
    }
    None
}

} // verus!
