//! The random bot of the potion game: it reads the entities of a turn and
//! plays one of its moves at random, casting each spell as many times as
//! it can.
use vstd::prelude::*;
use crate::random::random_element;
use crate::stack_vector::StackVector;
use crate::witches_brew::rules::{
    Ingredients, Move, Order, Spell, MAX_VALID_MOVES, brew_moves, learn_moves, has_inactive_spell, small_recipe,
    consistent_spell, valid_stock, spec_how_many_times_can_cast_spell, can_fulfill_order,
    how_many_times_can_cast_spell,
};
use crate::witches_brew::turn_input::{ActionLine, ActionKind};

verus! {

/// The CAST moves of the random bot: for each active spell that can be
/// cast, one move casting it as many times as it can, in order.
pub open spec fn max_cast_moves(spells: Seq<Spell>, stock: Ingredients) -> Seq<Move>
    decreases spells.len(),
{
    if spells.len() == 0 {
        Seq::empty()
    } else {
        let rest = max_cast_moves(spells.drop_last(), stock);
        let sp = spells.last();
        let t = spec_how_many_times_can_cast_spell(sp, stock);
        if sp.active && t > 0 {
            rest.push(Move::CAST(sp.id, t as u8))
        } else {
            rest
        }
    }
}

/// The moves of the random bot before the fallback: BREW, CAST, REST (if a
/// spell is exhausted), then LEARN.
pub open spec fn random_listed(orders: Seq<Order>, tome: Seq<Spell>, spells: Seq<Spell>, stock: Ingredients) -> Seq<Move> {
    brew_moves(orders, stock) + max_cast_moves(spells, stock) + (if has_inactive_spell(spells) {
        seq![Move::REST]
    } else {
        Seq::empty()
    }) + learn_moves(tome, stock[0] as int)
}

/// The moves of the random bot; WAIT when there is no other.
pub open spec fn random_moves(orders: Seq<Order>, tome: Seq<Spell>, spells: Seq<Spell>, stock: Ingredients) -> Seq<Move> {
    let all = random_listed(orders, tome, spells, stock);
    if all.len() == 0 {
        seq![Move::WAIT]
    } else {
        all
    }
}

proof fn lemma_brew_prefix(orders: Seq<Order>, stock: Ingredients, k: int)
    requires
        0 <= k <= orders.len(),
    ensures
        brew_moves(orders.take(k), stock).len() <= brew_moves(orders, stock).len(),
    decreases orders.len(),
{
    if k < orders.len() {
        assert(orders.drop_last().take(k) =~= orders.take(k));
        lemma_brew_prefix(orders.drop_last(), stock, k);
    } else {
        assert(orders.take(k) =~= orders);
    }
}

proof fn lemma_cast_prefix(spells: Seq<Spell>, stock: Ingredients, k: int)
    requires
        0 <= k <= spells.len(),
    ensures
        max_cast_moves(spells.take(k), stock).len() <= max_cast_moves(spells, stock).len(),
    decreases spells.len(),
{
    if k < spells.len() {
        assert(spells.drop_last().take(k) =~= spells.take(k));
        lemma_cast_prefix(spells.drop_last(), stock, k);
    } else {
        assert(spells.take(k) =~= spells);
    }
}

proof fn lemma_learn_prefix(tome: Seq<Spell>, stock0: int, k: int)
    requires
        0 <= k <= tome.len(),
    ensures
        learn_moves(tome.take(k), stock0).len() <= learn_moves(tome, stock0).len(),
    decreases tome.len(),
{
    if k < tome.len() {
        assert(tome.drop_last().take(k) =~= tome.take(k));
        lemma_learn_prefix(tome.drop_last(), stock0, k);
    } else {
        assert(tome.take(k) =~= tome);
    }
}

/// The moves of the random bot (see `random_moves`).
pub fn valid_moves(orders: &[Order], tome_spells: &[Spell], player_spells: &[Spell], stock: &Ingredients) -> (moves:
    StackVector<Move, MAX_VALID_MOVES>)
    requires
        forall|i: int| 0 <= i < orders@.len() ==> small_recipe(#[trigger] orders@[i].recipe),
        forall|i: int| 0 <= i < player_spells@.len() ==> consistent_spell(#[trigger] player_spells@[i]),
        valid_stock(*stock),
        random_listed(orders@, tome_spells@, player_spells@, *stock).len() <= MAX_VALID_MOVES,
    ensures
        moves.wf(),
        moves@ == random_moves(orders@, tome_spells@, player_spells@, *stock),
{
    let ghost total = random_listed(orders@, tome_spells@, player_spells@, *stock);
    let ghost brews = brew_moves(orders@, *stock);
    let ghost casts = max_cast_moves(player_spells@, *stock);
    let mut valid_moves: StackVector<Move, MAX_VALID_MOVES> = StackVector::new();
    let mut i: usize = 0;
    while i < orders.len()
        invariant
            i <= orders@.len(),
            forall|j: int| 0 <= j < orders@.len() ==> small_recipe(#[trigger] orders@[j].recipe),
            valid_moves.wf(),
            valid_moves@ == brew_moves(orders@.take(i as int), *stock),
            brews == brew_moves(orders@, *stock),
            total == random_listed(orders@, tome_spells@, player_spells@, *stock),
            total.len() <= MAX_VALID_MOVES,
            brews.len() <= total.len(),
            valid_moves@.len() <= brews.len(),
        decreases orders@.len() - i,
    {
        assert(orders@.take(i + 1).drop_last() =~= orders@.take(i as int));
        proof {
            lemma_brew_prefix(orders@, *stock, i + 1);
        }
        if can_fulfill_order(&orders[i], stock) {
            valid_moves.add(Move::BREW(orders[i].id));
        }
        i += 1;
    }
    assert(orders@.take(orders@.len() as int) =~= orders@);
    let mut all_spells_are_active = true;
    let mut k: usize = 0;
    while k < player_spells.len()
        invariant
            k <= player_spells@.len(),
            forall|j: int| 0 <= j < player_spells@.len() ==> consistent_spell(#[trigger] player_spells@[j]),
            valid_stock(*stock),
            valid_moves.wf(),
            valid_moves@ == brews + max_cast_moves(player_spells@.take(k as int), *stock),
            all_spells_are_active == !has_inactive_spell(player_spells@.take(k as int)),
            casts == max_cast_moves(player_spells@, *stock),
            total == random_listed(orders@, tome_spells@, player_spells@, *stock),
            total.len() <= MAX_VALID_MOVES,
            brews.len() + casts.len() <= total.len(),
            valid_moves@.len() <= brews.len() + max_cast_moves(player_spells@.take(k as int), *stock).len(),
            max_cast_moves(player_spells@.take(k as int), *stock).len() <= casts.len(),
        decreases player_spells@.len() - k,
    {
        let sp = player_spells[k];
        proof {
            assert(player_spells@.take(k + 1).drop_last() =~= player_spells@.take(k as int));
            assert(player_spells@.take(k + 1).last() == sp);
            lemma_cast_prefix(player_spells@, *stock, k + 1);
            if !sp.active {
                assert(!(player_spells@.take(k + 1)[k as int]).active);
            }
            assert(has_inactive_spell(player_spells@.take(k + 1)) == (has_inactive_spell(player_spells@.take(k as int)) || !sp.active)) by {
                if has_inactive_spell(player_spells@.take(k as int)) {
                    let j = choose|j: int| 0 <= j < k && !(#[trigger] player_spells@.take(k as int)[j]).active;
                    assert(!(player_spells@.take(k + 1)[j]).active);
                }
                if has_inactive_spell(player_spells@.take(k + 1)) {
                    let j = choose|j: int| 0 <= j < k + 1 && !(#[trigger] player_spells@.take(k + 1)[j]).active;
                    if j < k {
                        assert(!(player_spells@.take(k as int)[j]).active);
                    }
                }
            }
        }
        if sp.active == false {
            all_spells_are_active = false;
        } else {
            let times_can_cast_spell = how_many_times_can_cast_spell(&sp, stock);
            if times_can_cast_spell > 0 {
                valid_moves.add(Move::CAST(sp.id, times_can_cast_spell));
            }
        }
        k += 1;
    }
    assert(player_spells@.take(player_spells@.len() as int) =~= player_spells@);
    if all_spells_are_active == false {
        valid_moves.add(Move::REST);
    }
    let ghost mid = valid_moves@;
    let mut t: usize = 0;
    while t < tome_spells.len()
        invariant
            t <= tome_spells@.len(),
            valid_stock(*stock),
            valid_moves.wf(),
            valid_moves@ == mid + learn_moves(tome_spells@.take(t as int), stock[0] as int),
            total == mid + learn_moves(tome_spells@, stock[0] as int),
            total.len() <= MAX_VALID_MOVES,
            learn_moves(tome_spells@.take(t as int), stock[0] as int).len() <= learn_moves(tome_spells@, stock[0] as int).len(),
        decreases tome_spells@.len() - t,
    {
        proof {
            assert(tome_spells@.take(t + 1).drop_last() =~= tome_spells@.take(t as int));
            lemma_learn_prefix(tome_spells@, stock[0] as int, t + 1);
        }
        if t as u8 <= stock[0] as u8 {
            valid_moves.add(Move::LEARN(tome_spells[t].id));
        }
        t += 1;
    }
    assert(tome_spells@.take(tome_spells@.len() as int) =~= tome_spells@);
    assert(valid_moves@ =~= total);
    if valid_moves.len() == 0 {
        valid_moves.add(Move::WAIT);
    }
    valid_moves
}

/// One of the moves of the random bot, picked at random.
pub fn pick_move(orders: &[Order], tome_spells: &[Spell], player_spells: &[Spell], stock: &Ingredients) -> (m: Move)
    requires
        forall|i: int| 0 <= i < orders@.len() ==> small_recipe(#[trigger] orders@[i].recipe),
        forall|i: int| 0 <= i < player_spells@.len() ==> consistent_spell(#[trigger] player_spells@[i]),
        valid_stock(*stock),
        random_listed(orders@, tome_spells@, player_spells@, *stock).len() <= MAX_VALID_MOVES,
    ensures
        random_moves(orders@, tome_spells@, player_spells@, *stock).contains(m),
{
    let moves = valid_moves(orders, tome_spells, player_spells, stock);
    random_element(moves.slice())
}

/// What the entity lines of a turn give the random bot, read so far: the
/// orders, the tome spells by their place, and its own spells.
#[verifier::ext_equal]
pub struct RandomTurnModel {
    pub orders: Seq<Order>,
    pub tome_slots: Seq<Option<Spell>>,
    pub my_spells: Seq<Spell>,
}

/// A flag of the input: 1 true, 0 false.
pub open spec fn flag_of(v: i32) -> Option<bool> {
    if v == 1 {
        Some(true)
    } else if v == 0 {
        Some(false)
    } else {
        None
    }
}

/// The sum of four amounts fits an `i8` at each step of the adding.
pub open spec fn sum_fits(d: Ingredients) -> bool {
    &&& -128 <= d[0] + d[1] <= 127
    &&& -128 <= d[0] + d[1] + d[2] <= 127
    &&& -128 <= d[0] + d[1] + d[2] + d[3] <= 127
}

/// The spell of an entity line, if its flags are 0 or 1 and the sum of its
/// changes fits.
pub open spec fn line_spell(a: ActionLine, tax: u8) -> Option<Spell> {
    if sum_fits(a.deltas) && flag_of(a.repeatable) is Some && flag_of(a.castable) is Some {
        Some(
            Spell {
                id: a.action_id,
                recipe: a.deltas,
                delta_stock: (a.deltas[0] + a.deltas[1] + a.deltas[2] + a.deltas[3]) as i8,
                tax,
                repeatable: flag_of(a.repeatable)->0,
                active: flag_of(a.castable)->0,
            },
        )
    } else {
        None
    }
}

/// One more entity line read: an order (its price without the bonus,
/// which must not exceed it), a spell of the bot, or a tome spell at its
/// place (0 to 5). `None` where the line cannot be taken.
pub open spec fn read_random_action(t: RandomTurnModel, a: ActionLine) -> Option<RandomTurnModel> {
    match a.kind {
        ActionKind::Brew => if (a.tome_index as u8) <= a.price {
            Some(
                RandomTurnModel {
                    orders: t.orders.push(
                        Order {
                            id: a.action_id,
                            recipe: a.deltas,
                            price: (a.price - (a.tome_index as u8)) as u8,
                            bonus: a.tome_index as u8,
                        },
                    ),
                    ..t
                },
            )
        } else {
            None
        },
        ActionKind::Cast => match line_spell(a, 0) {
            Some(sp) => Some(RandomTurnModel { my_spells: t.my_spells.push(sp), ..t }),
            None => None,
        },
        ActionKind::Learn => match line_spell(a, a.tax_count as u8) {
            Some(sp) => if 0 <= a.tome_index < 6 {
                Some(RandomTurnModel { tome_slots: t.tome_slots.update(a.tome_index as int, Some(sp)), ..t })
            } else {
                None
            },
            None => None,
        },
        _ => Some(t),
    }
}

/// All entity lines of a turn read, in order, from no order, six empty
/// tome places and no spell.
pub open spec fn read_random_actions(actions: Seq<ActionLine>) -> Option<RandomTurnModel>
    decreases actions.len(),
{
    if actions.len() == 0 {
        Some(RandomTurnModel { orders: Seq::empty(), tome_slots: Seq::new(6, |i: int| None), my_spells: Seq::empty() })
    } else {
        match read_random_actions(actions.drop_last()) {
            Some(t) => read_random_action(t, actions.last()),
            None => None,
        }
    }
}

/// The tome: the spells of the first places, up to the first empty one.
pub open spec fn tome_of(slots: Seq<Option<Spell>>, n: int) -> Seq<Spell>
    decreases n,
{
    if n <= 0 {
        Seq::empty()
    } else {
        let before = tome_of(slots, n - 1);
        if before.len() == n - 1 && slots[n - 1] is Some {
            before.push(slots[n - 1]->0)
        } else {
            before
        }
    }
}

fn line_spell_exec(a: &ActionLine, tax: u8) -> (r: Option<Spell>)
    ensures
        r == line_spell(*a, tax),
{
    let d = a.deltas;
    let s01 = d[0] as i16 + d[1] as i16;
    let s012 = s01 + d[2] as i16;
    let s = s012 + d[3] as i16;
    if s01 < -128 || s01 > 127 || s012 < -128 || s012 > 127 || s < -128 || s > 127 {
        return None;
    }
    let repeatable = if a.repeatable == 1 {
        true
    } else if a.repeatable == 0 {
        false
    } else {
        return None;
    };
    let active = if a.castable == 1 {
        true
    } else if a.castable == 0 {
        false
    } else {
        return None;
    };
    Some(Spell { id: a.action_id, recipe: d, delta_stock: d[0] + d[1] + d[2] + d[3], tax, repeatable, active })
}

/// Reads the entity lines of a turn for the random bot: the orders, the
/// tome and the bot's spells (see `read_random_actions` and `tome_of`).
pub fn read_random_turn(actions: &[ActionLine]) -> (r: Option<(Vec<Order>, Vec<Spell>, Vec<Spell>)>)
    ensures
        match r {
            Some(x) => read_random_actions(actions@) matches Some(t) && x.0@ == t.orders && x.1@ == tome_of(
                t.tome_slots,
                6,
            ) && x.2@ == t.my_spells,
            None => read_random_actions(actions@) is None,
        },
{
    let mut orders: Vec<Order> = Vec::new();
    let mut tome_spells_t: Vec<Option<Spell>> = Vec::new();
    let mut n: usize = 0;
    while n < 6
        invariant
            n <= 6,
            tome_spells_t@.len() == n,
            forall|j: int| 0 <= j < n ==> #[trigger] tome_spells_t@[j] is None,
        decreases 6 - n,
    {
        tome_spells_t.push(None);
        n += 1;
    }
    let mut my_spells: Vec<Spell> = Vec::new();
    assert(tome_spells_t@ =~= Seq::new(6, |i: int| None::<Spell>));
    let mut i: usize = 0;
    while i < actions.len()
        invariant
            i <= actions@.len(),
            read_random_actions(actions@.take(i as int)) == Some(
                RandomTurnModel { orders: orders@, tome_slots: tome_spells_t@, my_spells: my_spells@ },
            ),
            tome_spells_t@.len() == 6,
        decreases actions@.len() - i,
    {
        let a = actions[i];
        assert(actions@.take(i + 1).drop_last() =~= actions@.take(i as int));
        assert(actions@.take(i + 1).last() == a);
        let ghost before = RandomTurnModel { orders: orders@, tome_slots: tome_spells_t@, my_spells: my_spells@ };
        if a.kind == ActionKind::Brew {
            let bonus = a.tome_index as u8;
            if bonus > a.price {
                proof {
                    lemma_random_stuck(actions@, i as int);
                }
                return None;
            }
            orders.push(Order { id: a.action_id, recipe: a.deltas, price: a.price - bonus, bonus });
        } else if a.kind == ActionKind::Cast {
            match line_spell_exec(&a, 0) {
                Some(sp) => my_spells.push(sp),
                None => {
                    proof {
                        lemma_random_stuck(actions@, i as int);
                    }
                    return None;
                },
            }
        } else if a.kind == ActionKind::Learn {
            match line_spell_exec(&a, a.tax_count as u8) {
                Some(sp) => {
                    if a.tome_index < 0 || a.tome_index >= 6 {
                        proof {
                            lemma_random_stuck(actions@, i as int);
                        }
                        return None;
                    }
                    tome_spells_t.set(a.tome_index as usize, Some(sp));
                },
                None => {
                    proof {
                        lemma_random_stuck(actions@, i as int);
                    }
                    return None;
                },
            }
        }
        assert(RandomTurnModel { orders: orders@, tome_slots: tome_spells_t@, my_spells: my_spells@ }
            =~= read_random_action(before, a)->0);
        i += 1;
    }
    assert(actions@.take(actions@.len() as int) =~= actions@);
    let mut tome_spells: Vec<Spell> = Vec::new();
    let mut k: usize = 0;
    while k < 6
        invariant
            k <= 6,
            tome_spells_t@.len() == 6,
            read_random_actions(actions@) == Some(
                RandomTurnModel { orders: orders@, tome_slots: tome_spells_t@, my_spells: my_spells@ },
            ),
            tome_spells@ == tome_of(tome_spells_t@, k as int),
            tome_spells@.len() == k,
        decreases 6 - k,
    {
        match tome_spells_t[k] {
            Some(sp) => tome_spells.push(sp),
            None => {
                proof {
                    lemma_tome_of_stops(tome_spells_t@, k as int, 6);
                }
                return Some((orders, tome_spells, my_spells));
            },
        }
        k += 1;
    }
    Some((orders, tome_spells, my_spells))
}

proof fn lemma_tome_of_stops(slots: Seq<Option<Spell>>, k: int, n: int)
    requires
        0 <= k < n,
        k < slots.len(),
        slots[k] is None,
        tome_of(slots, k).len() == k,
    ensures
        tome_of(slots, n) == tome_of(slots, k),
    decreases n - k,
{
    if n > k + 1 {
        lemma_tome_of_stops(slots, k, n - 1);
        assert(tome_of(slots, n - 1).len() == k);
    }
}

proof fn lemma_random_stuck(actions: Seq<ActionLine>, i: int)
    requires
        0 <= i < actions.len(),
        read_random_actions(actions.take(i)) matches Some(t) && read_random_action(t, actions[i]) is None,
    ensures
        read_random_actions(actions) is None,
    decreases actions.len(),
{
    if i < actions.len() - 1 {
        assert(actions.drop_last().take(i) =~= actions.take(i));
        lemma_random_stuck(actions.drop_last(), i);
    } else {
        assert(actions.take(i) =~= actions.drop_last());
    }
}

} // verus!
