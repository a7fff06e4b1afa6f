//! The potion game as a searching witch simulates it: the moves of both
//! witches applied without the referee's checks, a game deemed over once
//! the rupees differ by 20, and each stock tracked by its id in the
//! tables of the cache.
use vstd::prelude::*;
use crate::game::WinLossTie;
use crate::random::random_element;
use crate::stack_vector::{StackVector, keep_unlisted, index_set};
use crate::witches_brew::cache::{Cache, in_table, EXISTING_SPELL_COUNT, EXISTING_ORDER_COUNT};
use crate::witches_brew::rules::{
    Ingredients, Move, Order, Spell, MAX_PLAYER_SPELLS, MAX_VALID_MOVES, get_order_position, get_spell_position,
    brew_and_update_stock, cast_and_update_stock, has_inactive_spell,
};
use crate::witches_brew::game::{
    PlayerModel, GameModel, apply_move, brew_position, learn_position, removal_positions, replace_learnt, pay_tax,
    with_move, record_move, score, compare_scores, move_fits, with_bonus, exhausted, refreshed, learn_stock,
    lemma_first_order_position_bounds_for, lemma_learn_position_bounds_for, removal, replace_learnt_spells,
    lemma_keep_unlisted_two, tax_added, replace_brewed, set_bonuses,
};

verus! {

/// What a searching witch keeps of a witch.
#[derive(Clone)]
pub struct Player {
    pub move_: Move,
    pub stock: Ingredients,
    /// The id of the stock in the tables of the cache.
    pub stock_id: usize,
    pub spells: StackVector<Spell, MAX_PLAYER_SPELLS>,
    pub rupees: u32,
    pub brewed_potions_count: u8,
}

impl View for Player {
    type V = PlayerModel;

    open spec fn view(&self) -> PlayerModel {
        PlayerModel {
            move_: self.move_,
            stock: self.stock,
            spells: self.spells@,
            rupees: self.rupees as int,
            brewed: self.brewed_potions_count as int,
        }
    }
}

/// What a searching witch knows of a game.
#[derive(Clone)]
pub struct State {
    pub players: [Player; 2],
    pub queued_orders: Vec<Order>,
    pub counter_orders: StackVector<Order, 5>,
    pub plus_3_bonus_remaining: u8,
    pub plus_1_bonus_remaining: u8,
    pub queued_spells: Vec<Spell>,
    pub tome_spells: StackVector<Spell, 6>,
    pub active: bool,
    pub active_player: u8,
    pub turn: u8,
    pub winners: Option<(WinLossTie, WinLossTie)>,
}

impl View for State {
    type V = GameModel;

    open spec fn view(&self) -> GameModel {
        GameModel {
            players: seq![self.players[0]@, self.players[1]@],
            queued_orders: self.queued_orders@,
            counter_orders: self.counter_orders@,
            plus_3: self.plus_3_bonus_remaining as int,
            plus_1: self.plus_1_bonus_remaining as int,
            queued_spells: self.queued_spells@,
            tome: self.tome_spells@,
            active: self.active,
            active_player: self.active_player as int,
            turn: self.turn as int,
            winners: self.winners,
        }
    }
}

/// Spells of the game (ids below 46).
pub open spec fn known_spells(spells: Seq<Spell>) -> bool {
    forall|i: int| 0 <= i < spells.len() ==> (#[trigger] spells[i]).id < EXISTING_SPELL_COUNT
}

/// Orders of the game (ids below 36).
pub open spec fn known_orders(orders: Seq<Order>) -> bool {
    forall|i: int| 0 <= i < orders.len() ==> (#[trigger] orders[i]).id < EXISTING_ORDER_COUNT
}

/// A witch the search can go on with: its stock has a place in the tables
/// and its spells are spells of the game.
pub open spec fn sim_player_ok(p: PlayerModel) -> bool {
    &&& in_table(p.stock)
    &&& p.spells.len() <= MAX_PLAYER_SPELLS
    &&& known_spells(p.spells)
}

impl Player {
    pub open spec fn wf(&self, cache: Cache) -> bool {
        &&& self.spells.wf()
        &&& sim_player_ok(self@)
        &&& self.stock_id == cache.stock_id(self.stock)
    }
}

impl State {
    /// The state is one the search can go on with, with the stock ids of
    /// `cache`.
    pub open spec fn wf(&self, cache: Cache) -> bool {
        &&& cache.wf()
        &&& self.active_player < 2
        &&& self.players[0].wf(cache)
        &&& self.players[1].wf(cache)
        &&& self.counter_orders.wf()
        &&& self.tome_spells.wf()
        &&& known_orders(self.counter_orders@)
        &&& known_orders(self.queued_orders@)
        &&& known_spells(self.tome_spells@)
        &&& known_spells(self.queued_spells@)
    }
}

/// 1 when the order at `pos` carries the bonus `which`.
pub open spec fn bonus_hit(counter: Seq<Order>, pos: int, which: u8) -> int {
    if counter[pos].bonus == which {
        1
    } else {
        0
    }
}

/// The bonuses `which` left after the orders at the brewed positions are
/// taken: one fewer per brewed order carrying it, two fewer (but not below
/// zero) when both witches brew that same order.
pub open spec fn bonuses_after(plus: int, counter: Seq<Order>, b0: Option<int>, b1: Option<int>, which: u8) -> int {
    match (b0, b1) {
        (Some(o1), Some(o2)) => if o1 == o2 {
            if counter[o1].bonus == which {
                if plus >= 2 {
                    plus - 2
                } else {
                    0
                }
            } else {
                plus
            }
        } else {
            plus - bonus_hit(counter, o1, which) - bonus_hit(counter, o2, which)
        },
        (Some(o), None) => plus - bonus_hit(counter, o, which),
        (None, Some(o)) => plus - bonus_hit(counter, o, which),
        (None, None) => plus,
    }
}

/// The counter without the brewed orders, and how many were taken.
pub open spec fn orders_removed(c: Seq<Order>, b0: Option<int>, b1: Option<int>) -> (Seq<Order>, nat) {
    match (b0, b1) {
        (Some(o1), Some(o2)) => if o1 == o2 {
            (c.remove(o1), 1)
        } else {
            (keep_unlisted(c, index_set(seq![o1 as usize, o2 as usize])), 2)
        },
        (Some(o), None) => (c.remove(o), 1),
        (None, Some(o)) => (c.remove(o), 1),
        (None, None) => (c, 0),
    }
}

/// `n` times: one order from the end of the queue onto the counter, while
/// the queue has some.
pub open spec fn refill_orders(c: Seq<Order>, q: Seq<Order>, n: nat) -> (Seq<Order>, Seq<Order>)
    decreases n,
{
    if n == 0 {
        (c, q)
    } else {
        let r = refill_orders(c, q, (n - 1) as nat);
        if r.1.len() > 0 {
            (r.0.push(r.1.last()), r.1.drop_last())
        } else {
            r
        }
    }
}

/// The counter with the bonus of the order at `pos`, if there is one, set
/// to `b`.
pub open spec fn mark(c: Seq<Order>, pos: int, b: u8) -> Seq<Order> {
    if 0 <= pos < c.len() {
        c.update(pos, with_bonus(c[pos], b))
    } else {
        c
    }
}

/// The bonuses shown on the first two orders of the counter: +3 then +1
/// while both are left, +1 then none when only +1 bonuses are left, none
/// when none is left.
pub open spec fn bonuses_marked(c: Seq<Order>, plus_3: int, plus_1: int) -> Seq<Order> {
    if plus_3 > 0 {
        if plus_1 > 0 {
            mark(mark(c, 0, 3), 1, 1)
        } else {
            mark(c, 0, 3)
        }
    } else if plus_1 > 0 {
        mark(mark(c, 0, 1), 1, 0)
    } else {
        mark(mark(c, 0, 0), 1, 0)
    }
}

/// The counter, the order queue and the bonuses left after the orders at
/// the brewed positions are taken, replaced from the queue and the bonuses
/// shown anew; all unchanged when no order is brewed.
pub open spec fn counter_update(
    c: Seq<Order>,
    q: Seq<Order>,
    plus_3: int,
    plus_1: int,
    b0: Option<int>,
    b1: Option<int>,
) -> (Seq<Order>, Seq<Order>, int, int) {
    if b0 is None && b1 is None {
        (c, q, plus_3, plus_1)
    } else {
        let p3 = bonuses_after(plus_3, c, b0, b1, 3);
        let p1 = bonuses_after(plus_1, c, b0, b1, 1);
        let removed = orders_removed(c, b0, b1);
        let refilled = refill_orders(removed.0, q, removed.1);
        (bonuses_marked(refilled.0, p3, p1), refilled.1, p3, p1)
    }
}

/// The referee and the simulation replace brewed orders alike: the brewed
/// positions leave the counter, one order per brewed position comes from
/// the end of the queue, and the same bonuses are shown on the first two
/// orders.
pub proof fn law_orders_replaced_alike(c: Seq<Order>, q: Seq<Order>, b0: Option<int>, b1: Option<int>, plus_3: int, plus_1: int)
    requires
        c.len() == 5,
        b0 is Some || b1 is Some,
        b0 matches Some(o) ==> 0 <= o < 5,
        b1 matches Some(o) ==> 0 <= o < 5,
        q.len() >= 2,
    ensures
        ({
            let r = replace_brewed(c, q, removal_positions(b0, b1));
            let removed = orders_removed(c, b0, b1);
            let refilled = refill_orders(removed.0, q, removed.1);
            &&& set_bonuses(r.0, plus_3, plus_1) == bonuses_marked(refilled.0, plus_3, plus_1)
            &&& r.1 == refilled.1
        }),
{
    let r = replace_brewed(c, q, removal_positions(b0, b1));
    let removed = orders_removed(c, b0, b1);
    let refilled = refill_orders(removed.0, q, removed.1);
    let ro = removal_positions(b0, b1);
    assert(refill_orders(removed.0, q, 0) == (removed.0, q));
    if ro.1 is Some {
        let o0 = ro.0->0;
        let o1 = ro.1->0;
        lemma_keep_unlisted_two(c, o0, o1);
        assert(removed.0 == keep_unlisted(c, index_set(seq![o0 as usize, o1 as usize])));
        assert(refill_orders(removed.0, q, 1) == (removed.0.push(q.last()), q.drop_last()));
        assert(refilled == (removed.0.push(q.last()).push(q.drop_last().last()), q.drop_last().drop_last()));
    } else {
        assert(refilled == (removed.0.push(q.last()), q.drop_last()));
    }
    assert(r == refilled);
    assert(r.0.len() == 5);
}

/// `counter_update` on a game, for the orders the witches brew.
pub open spec fn counter_after(g: GameModel, b0: Option<int>, b1: Option<int>) -> (Seq<Order>, Seq<Order>, int, int) {
    counter_update(g.counter_orders, g.queued_orders, g.plus_3, g.plus_1, b0, b1)
}

/// The tome and the spell queue after the spells at the learnt positions
/// are replaced from the queue, then one tier-0 ingredient is put on each
/// spell before each position of `taxes`; all unchanged when no spell is
/// learnt.
pub open spec fn tome_update(
    t: Seq<Spell>,
    q: Seq<Spell>,
    l0: Option<int>,
    l1: Option<int>,
    taxes: (Option<int>, Option<int>),
) -> (Seq<Spell>, Seq<Spell>) {
    let rs = removal_positions(l0, l1);
    if rs.0 is Some {
        let r = replace_learnt(t, q, rs);
        (pay_tax(pay_tax(r.0, taxes.0), taxes.1), r.1)
    } else {
        (t, q)
    }
}

/// `tome_update` on a game, for the spells the witches learn.
pub open spec fn tome_after(g: GameModel, l0: Option<int>, l1: Option<int>) -> (Seq<Spell>, Seq<Spell>) {
    tome_update(g.tome, g.queued_spells, l0, l1, (l0, l1))
}

/// The taxes fit: each spell gets at most `u8::MAX` tier-0 ingredients.
pub open spec fn taxes_fit(t: Seq<Spell>, x0: Option<int>, x1: Option<int>) -> bool {
    forall|i: int| 0 <= i < t.len() ==> #[trigger] t[i].tax + (if x0 matches Some(k) && i < k {
        1int
    } else {
        0
    }) + (if x1 matches Some(k) && i < k {
        1int
    } else {
        0
    }) <= u8::MAX
}

/// The search deems the game over: the rupees differ by 20, a witch has
/// brewed six potions, the hundredth turn is played, or both witches wait.
pub open spec fn deemed_over(g: GameModel, n0: PlayerModel, n1: PlayerModel) -> bool {
    ||| n0.rupees - n1.rupees >= 20
    ||| n1.rupees - n0.rupees >= 20
    ||| n0.brewed == 6
    ||| n1.brewed == 6
    ||| g.turn == 100
    ||| g.players[0].move_ == Move::WAIT && g.players[1].move_ == Move::WAIT
}

/// Both recorded moves played: the witches' moves, the counter and the tome
/// updated, the end of the game checked, the moves cleared and the turn
/// counted.
pub open spec fn sim_resolve(g: GameModel) -> GameModel {
    let p0 = g.players[0];
    let p1 = g.players[1];
    let counter = g.counter_orders;
    let tome = g.tome;
    let n0 = apply_move(p0, counter, tome);
    let n1 = apply_move(p1, counter, tome);
    let orders = counter_after(g, brew_position(p0, counter), brew_position(p1, counter));
    let spells = tome_after(g, learn_position(p0, tome), learn_position(p1, tome));
    let over = deemed_over(g, n0, n1);
    GameModel {
        players: seq![with_move(n0, Move::NONE), with_move(n1, Move::NONE)],
        counter_orders: orders.0,
        queued_orders: orders.1,
        plus_3: orders.2,
        plus_1: orders.3,
        tome: spells.0,
        queued_spells: spells.1,
        active: g.active && !over,
        winners: if over {
            Some(compare_scores(n0, n1))
        } else {
            g.winners
        },
        turn: g.turn + 1,
        ..g
    }
}

/// The state after the witch to move plays `m`: the move is recorded, both
/// moves are played once the second witch has moved, and the other witch
/// moves next.
pub open spec fn spec_update_state(g: GameModel, m: Move) -> GameModel {
    let g1 = record_move(g, m);
    let g2 = if g.active_player == 1 {
        sim_resolve(g1)
    } else {
        g1
    };
    GameModel { active_player: (g.active_player + 1) % 2, ..g2 }
}

/// A witch's move changes its stock.
pub open spec fn changes_stock(m: Move) -> bool {
    m is BREW || m is CAST || m is LEARN
}

/// Playing both recorded moves stays in range: the moves name orders and
/// spells that are there and fit their amounts, the new stocks have a place
/// in the tables, the bonuses and taxes do not overflow, the rupees fit an
/// `i32` and the scores a `u32`, and the turn counter does not overflow.
pub open spec fn resolve_fits(g: GameModel) -> bool {
    let p0 = g.players[0];
    let p1 = g.players[1];
    let counter = g.counter_orders;
    let tome = g.tome;
    let n0 = apply_move(p0, counter, tome);
    let n1 = apply_move(p1, counter, tome);
    let b0 = brew_position(p0, counter);
    let b1 = brew_position(p1, counter);
    let l0 = learn_position(p0, tome);
    let l1 = learn_position(p1, tome);
    &&& move_fits(p0, counter, tome)
    &&& move_fits(p1, counter, tome)
    &&& changes_stock(p0.move_) ==> in_table(n0.stock)
    &&& changes_stock(p1.move_) ==> in_table(n1.stock)
    &&& bonuses_after(g.plus_3, counter, b0, b1, 3) >= 0
    &&& bonuses_after(g.plus_1, counter, b0, b1, 1) >= 0
    &&& (removal_positions(l0, l1).0 is Some ==> taxes_fit(replace_learnt(tome, g.queued_spells, removal_positions(l0, l1)).0, l0, l1))
    &&& n0.rupees <= i32::MAX
    &&& n1.rupees <= i32::MAX
    &&& deemed_over(g, n0, n1) ==> score(n0) <= u32::MAX && score(n1) <= u32::MAX
    &&& g.turn + 1 <= u8::MAX
}

/// Playing `m` stays in range (see `resolve_fits`).
pub open spec fn update_fits(g: GameModel, m: Move) -> bool {
    g.active_player == 1 ==> resolve_fits(record_move(g, m))
}


/// Plays the recorded move of one witch (see `apply_move`) and updates the
/// id of its stock; returns the counter position of the brewed order and
/// the tome position of the learnt spell.
fn apply_sim_move(
    player: &mut Player,
    counter: &StackVector<Order, 5>,
    tome: &StackVector<Spell, 6>,
    cache: &Cache,
) -> (r: (Option<usize>, Option<usize>))
    requires
        old(player).wf(*cache),
        cache.wf(),
        tome.wf(),
        known_spells(tome@),
        move_fits(old(player)@, counter@, tome@),
        changes_stock(old(player).move_) ==> in_table(apply_move(old(player)@, counter@, tome@).stock),
    ensures
        final(player).wf(*cache),
        final(player)@ == apply_move(old(player)@, counter@, tome@),
        r.0 matches Some(p) ==> brew_position(old(player)@, counter@) == Some(p as int),
        r.0 is None ==> brew_position(old(player)@, counter@) is None,
        r.1 matches Some(p) ==> learn_position(old(player)@, tome@) == Some(p as int),
        r.1 is None ==> learn_position(old(player)@, tome@) is None,
{
    match player.move_ {
        Move::BREW(order_id) => {
            let pos = get_order_position(counter.slice(), order_id).unwrap();
            let order = *counter.get(pos);
            player.brewed_potions_count = player.brewed_potions_count + 1;
            player.rupees = player.rupees + order.price as u32 + order.bonus as u32;
            brew_and_update_stock(&mut player.stock, &order);
            player.stock_id = cache.getStockId(&player.stock);
            assert(player@ =~= apply_move(old(player)@, counter@, tome@));
            (Some(pos), None)
        },
        Move::CAST(spell_id, times) => {
            let pos = get_spell_position(player.spells.slice(), spell_id).unwrap();
            let recipe = player.spells.get(pos).recipe;
            cast_and_update_stock(&mut player.stock, &recipe, times);
            player.stock_id = cache.getStockId(&player.stock);
            let spell = player.spells.get_mut(pos);
            spell.active = false;
            assert(player@ =~= apply_move(old(player)@, counter@, tome@));
            assert(known_spells(player.spells@)) by {
                assert forall|i: int| 0 <= i < player.spells@.len() implies (#[trigger] player.spells@[i]).id
                    < EXISTING_SPELL_COUNT by {
                    assert(old(player).spells@[i].id < EXISTING_SPELL_COUNT);
                }
            }
            (None, None)
        },
        Move::LEARN(spell_id) => {
            let pos = get_spell_position(tome.slice(), spell_id).unwrap();
            let learnt = *tome.get(pos);
            let mut copy = learnt;
            copy.tax = 0;
            player.spells.add(copy);
            player.stock[0] = player.stock[0] - pos as i8;
            if learnt.tax > 0 {
                let empty_storage = 10 - player.stock[0] - player.stock[1] - player.stock[2] - player.stock[3];
                let tax = learnt.tax as i8;
                let gained = if tax <= empty_storage {
                    tax
                } else {
                    empty_storage
                };
                player.stock[0] = player.stock[0] + gained;
            }
            assert(player.stock =~= learn_stock(old(player).stock, pos as int, learnt.tax));
            player.stock_id = cache.getStockId(&player.stock);
            assert(player@ =~= apply_move(old(player)@, counter@, tome@));
            assert(known_spells(player.spells@)) by {
                assert forall|i: int| 0 <= i < player.spells@.len() implies (#[trigger] player.spells@[i]).id
                    < EXISTING_SPELL_COUNT by {
                    if i < old(player).spells@.len() {
                        assert(old(player).spells@[i].id < EXISTING_SPELL_COUNT);
                    } else {
                        assert(tome@[pos as int].id < EXISTING_SPELL_COUNT);
                    }
                }
            }
            (None, Some(pos))
        },
        Move::REST => {
            let n = player.spells.len();
            let mut i: usize = 0;
            while i < n
                invariant
                    i <= n,
                    n == old(player).spells@.len(),
                    player.spells.wf(),
                    player.stock == old(player).stock,
                    player.stock_id == old(player).stock_id,
                    player.rupees == old(player).rupees,
                    player.brewed_potions_count == old(player).brewed_potions_count,
                    player.move_ == old(player).move_,
                    player.move_ == Move::REST,
                    player.spells@.len() == n,
                    forall|j: int| 0 <= j < i ==> player.spells@[j] == refreshed(old(player).spells@[j]),
                    forall|j: int| i <= j < n ==> player.spells@[j] == old(player).spells@[j],
                decreases n - i,
            {
                let spell = player.spells.get_mut(i);
                spell.active = true;
                i += 1;
            }
            assert(player.spells@ =~= old(player).spells@.map_values(|s: Spell| refreshed(s)));
            assert(player@ =~= apply_move(old(player)@, counter@, tome@));
            assert(known_spells(player.spells@)) by {
                assert forall|i: int| 0 <= i < player.spells@.len() implies (#[trigger] player.spells@[i]).id
                    < EXISTING_SPELL_COUNT by {
                    assert(old(player).spells@[i].id < EXISTING_SPELL_COUNT);
                }
            }
            (None, None)
        },
        _ => (None, None),
    }
}


pub open spec fn opt_int(o: Option<usize>) -> Option<int> {
    match o {
        Some(x) => Some(x as int),
        None => None,
    }
}

/// Takes the orders at the given positions from the counter, replaces them
/// from the end of the queue and shows the bonuses left (see
/// `counter_update`).
pub fn update_counter_orders(
    counter_orders: &mut StackVector<Order, 5>,
    queued_orders: &mut Vec<Order>,
    plus_3_bonus_remaining: &mut u8,
    plus_1_bonus_remaining: &mut u8,
    orders_to_remove_pos: &[Option<usize>; 2],
)
    requires
        old(counter_orders).wf(),
        forall|k: int| 0 <= k < 2 ==> (#[trigger] orders_to_remove_pos[k] matches Some(o) ==> o < old(counter_orders)@.len()),
        bonuses_after(*old(plus_3_bonus_remaining) as int, old(counter_orders)@, opt_int(orders_to_remove_pos[0]), opt_int(orders_to_remove_pos[1]), 3) >= 0,
        bonuses_after(*old(plus_1_bonus_remaining) as int, old(counter_orders)@, opt_int(orders_to_remove_pos[0]), opt_int(orders_to_remove_pos[1]), 1) >= 0,
    ensures
        final(counter_orders).wf(),
        (final(counter_orders)@, final(queued_orders)@, *final(plus_3_bonus_remaining) as int, *final(plus_1_bonus_remaining) as int)
            == counter_update(
            old(counter_orders)@,
            old(queued_orders)@,
            *old(plus_3_bonus_remaining) as int,
            *old(plus_1_bonus_remaining) as int,
            opt_int(orders_to_remove_pos[0]),
            opt_int(orders_to_remove_pos[1]),
        ),
{
    let ghost c0 = counter_orders@;
    let ghost b0 = opt_int(orders_to_remove_pos[0]);
    let ghost b1 = opt_int(orders_to_remove_pos[1]);
    let removed_orders_count: usize;
    match (orders_to_remove_pos[0], orders_to_remove_pos[1]) {
        (None, None) => {
            return;
        },
        (Some(o1), Some(o2)) => {
            if o1 == o2 {
                removed_orders_count = 1;
                let bonus = counter_orders.get(o1).bonus;
                if bonus == 3 {
                    *plus_3_bonus_remaining = plus_3_bonus_remaining.saturating_sub(2);
                } else if bonus == 1 {
                    *plus_1_bonus_remaining = plus_1_bonus_remaining.saturating_sub(2);
                }
                counter_orders.remove(o1);
            } else {
                removed_orders_count = 2;
                let bonus1 = counter_orders.get(o1).bonus;
                if bonus1 == 3 {
                    *plus_3_bonus_remaining = *plus_3_bonus_remaining - 1;
                } else if bonus1 == 1 {
                    *plus_1_bonus_remaining = *plus_1_bonus_remaining - 1;
                }
                let bonus2 = counter_orders.get(o2).bonus;
                if bonus2 == 3 {
                    *plus_3_bonus_remaining = *plus_3_bonus_remaining - 1;
                } else if bonus2 == 1 {
                    *plus_1_bonus_remaining = *plus_1_bonus_remaining - 1;
                }
                counter_orders.remove_multi([o1, o2]);
                proof {
                    assert([o1, o2]@ =~= seq![o1, o2]);
                    lemma_keep_unlisted_two(c0, o1 as int, o2 as int);
                }
            }
        },
        (Some(o), None) => {
            removed_orders_count = 1;
            let bonus = counter_orders.get(o).bonus;
            if bonus == 3 {
                *plus_3_bonus_remaining = *plus_3_bonus_remaining - 1;
            } else if bonus == 1 {
                *plus_1_bonus_remaining = *plus_1_bonus_remaining - 1;
            }
            counter_orders.remove(o);
        },
        (None, Some(o)) => {
            removed_orders_count = 1;
            let bonus = counter_orders.get(o).bonus;
            if bonus == 3 {
                *plus_3_bonus_remaining = *plus_3_bonus_remaining - 1;
            } else if bonus == 1 {
                *plus_1_bonus_remaining = *plus_1_bonus_remaining - 1;
            }
            counter_orders.remove(o);
        },
    }
    let ghost removed = orders_removed(c0, b0, b1);
    assert(counter_orders@ == removed.0);
    assert(removed_orders_count == removed.1);
    assert(*plus_3_bonus_remaining as int == bonuses_after(*old(plus_3_bonus_remaining) as int, c0, b0, b1, 3));
    assert(*plus_1_bonus_remaining as int == bonuses_after(*old(plus_1_bonus_remaining) as int, c0, b0, b1, 1));
    let ghost q0 = queued_orders@;
    let mut k: usize = 0;
    while k < removed_orders_count
        invariant
            k <= removed_orders_count,
            removed_orders_count <= 2,
            counter_orders.wf(),
            counter_orders@.len() + removed_orders_count - k <= 5,
            (counter_orders@, queued_orders@) == refill_orders(removed.0, q0, k as nat),
        decreases removed_orders_count - k,
    {
        if queued_orders.len() > 0 {
            let next = queued_orders.pop().unwrap();
            counter_orders.add(next);
        }
        k += 1;
    }
    let ghost refilled = counter_orders@;
    if *plus_3_bonus_remaining > 0 {
        if counter_orders.len() >= 1 {
            counter_orders.get_mut(0).bonus = 3;
        }
        if *plus_1_bonus_remaining > 0 {
            if counter_orders.len() >= 2 {
                counter_orders.get_mut(1).bonus = 1;
            }
        }
    } else if *plus_1_bonus_remaining > 0 {
        if counter_orders.len() >= 1 {
            counter_orders.get_mut(0).bonus = 1;
        }
        if counter_orders.len() >= 2 {
            counter_orders.get_mut(1).bonus = 0;
        }
    } else {
        if counter_orders.len() >= 1 {
            counter_orders.get_mut(0).bonus = 0;
        }
        if counter_orders.len() >= 2 {
            counter_orders.get_mut(1).bonus = 0;
        }
    }
    assert(counter_orders@ =~= bonuses_marked(refilled, *plus_3_bonus_remaining as int, *plus_1_bonus_remaining as int));
}


/// One more tier-0 ingredient on each of the first `n` tome spells (on all
/// of them if there are fewer).
fn pay_taxes(tome: &mut StackVector<Spell, 6>, n: Option<usize>)
    requires
        old(tome).wf(),
        n matches Some(k) ==> forall|i: int| 0 <= i < k && i < old(tome)@.len() ==> #[trigger] old(tome)@[i].tax < u8::MAX,
    ensures
        final(tome).wf(),
        final(tome)@ == pay_tax(old(tome)@, opt_int(n)),
{
    if let Some(t) = n {
        let len = tome.len();
        let end = if t < len {
            t
        } else {
            len
        };
        let mut i: usize = 0;
        while i < end
            invariant
                i <= end,
                end <= t,
                end <= old(tome)@.len(),
                end == t || end == old(tome)@.len(),
                forall|j: int| 0 <= j < t && j < old(tome)@.len() ==> #[trigger] old(tome)@[j].tax < u8::MAX,
                tome.wf(),
                tome@.len() == old(tome)@.len(),
                forall|j: int| 0 <= j < i ==> tome@[j] == tax_added(old(tome)@[j]),
                forall|j: int| i <= j < tome@.len() ==> tome@[j] == old(tome)@[j],
            decreases end - i,
        {
            let spell = tome.get_mut(i);
            spell.tax = spell.tax + 1;
            i += 1;
        }
        assert(tome@ =~= pay_tax(old(tome)@, Some(t as int)));
    }
}

/// Takes the learnt spells from the tome, replaces them from the end of the
/// queue and puts the taxes on the spells before the learnt ones (see
/// `tome_update`).
pub fn update_tome_spells(
    tome_spells: &mut StackVector<Spell, 6>,
    queued_spells: &mut Vec<Spell>,
    spells_to_remove_pos: &[Option<usize>; 2],
    spell_tax_payed: &[Option<usize>; 2],
)
    requires
        old(tome_spells).wf(),
        forall|k: int| 0 <= k < 2 ==> (#[trigger] spells_to_remove_pos[k] matches Some(o) ==> o < old(tome_spells)@.len()),
        removal_positions(opt_int(spells_to_remove_pos[0]), opt_int(spells_to_remove_pos[1])).0 is Some ==> taxes_fit(
            replace_learnt(
                old(tome_spells)@,
                old(queued_spells)@,
                removal_positions(opt_int(spells_to_remove_pos[0]), opt_int(spells_to_remove_pos[1])),
            ).0,
            opt_int(spell_tax_payed[0]),
            opt_int(spell_tax_payed[1]),
        ),
    ensures
        final(tome_spells).wf(),
        (final(tome_spells)@, final(queued_spells)@) == tome_update(
            old(tome_spells)@,
            old(queued_spells)@,
            opt_int(spells_to_remove_pos[0]),
            opt_int(spells_to_remove_pos[1]),
            (opt_int(spell_tax_payed[0]), opt_int(spell_tax_payed[1])),
        ),
{
    let rs = removal(spells_to_remove_pos[0], spells_to_remove_pos[1]);
    if rs.0.is_none() {
        return;
    }
    proof {
        let a = spells_to_remove_pos[0];
        let b = spells_to_remove_pos[1];
        assert(a matches Some(o) ==> o < old(tome_spells)@.len());
        assert(b matches Some(o) ==> o < old(tome_spells)@.len());
    }
    replace_learnt_spells(tome_spells, queued_spells, rs);
    let ghost t1 = tome_spells@;
    let x0 = spell_tax_payed[0];
    let x1 = spell_tax_payed[1];
    proof {
        assert(opt_int(rs.0) == removal_positions(opt_int(spells_to_remove_pos[0]), opt_int(spells_to_remove_pos[1])).0);
        assert(opt_int(rs.1) == removal_positions(opt_int(spells_to_remove_pos[0]), opt_int(spells_to_remove_pos[1])).1);
        assert forall|i: int| 0 <= i < t1.len() implies #[trigger] t1[i].tax + (if opt_int(x0) matches Some(k) && i < k {
            1int
        } else {
            0
        }) + (if opt_int(x1) matches Some(k) && i < k {
            1int
        } else {
            0
        }) <= u8::MAX by {
        }
    }
    pay_taxes(tome_spells, x0);
    pay_taxes(tome_spells, x1);
}


proof fn lemma_keep_unlisted_all<T>(s: Seq<T>, set: Set<int>, p: spec_fn(T) -> bool)
    requires
        forall|i: int| 0 <= i < s.len() ==> p(#[trigger] s[i]),
    ensures
        forall|i: int| 0 <= i < keep_unlisted(s, set).len() ==> p(#[trigger] keep_unlisted(s, set)[i]),
    decreases s.len(),
{
    if s.len() > 0 {
        lemma_keep_unlisted_all(s.drop_last(), set, p);
        let rest = keep_unlisted(s.drop_last(), set);
        if !set.contains(s.len() - 1) {
            assert forall|i: int| 0 <= i < rest.push(s.last()).len() implies p(#[trigger] rest.push(s.last())[i]) by {
                if i < rest.len() {
                    assert(rest.push(s.last())[i] == rest[i]);
                } else {
                    assert(p(s[s.len() - 1]));
                }
            }
        }
    }
}

proof fn lemma_refill_orders_known(c: Seq<Order>, q: Seq<Order>, n: nat)
    requires
        known_orders(c),
        known_orders(q),
    ensures
        known_orders(refill_orders(c, q, n).0),
        known_orders(refill_orders(c, q, n).1),
    decreases n,
{
    if n > 0 {
        lemma_refill_orders_known(c, q, (n - 1) as nat);
        let r = refill_orders(c, q, (n - 1) as nat);
        if r.1.len() > 0 {
            assert(r.1.last() == r.1[r.1.len() - 1]);
            assert forall|i: int| 0 <= i < r.0.push(r.1.last()).len() implies (#[trigger] r.0.push(r.1.last())[i]).id
                < EXISTING_ORDER_COUNT by {
                if i < r.0.len() {
                    assert(r.0.push(r.1.last())[i] == r.0[i]);
                }
            }
            assert forall|i: int| 0 <= i < r.1.drop_last().len() implies (#[trigger] r.1.drop_last()[i]).id
                < EXISTING_ORDER_COUNT by {
                assert(r.1.drop_last()[i] == r.1[i]);
            }
        }
    }
}

proof fn lemma_counter_update_known(c: Seq<Order>, q: Seq<Order>, p3: int, p1: int, b0: Option<int>, b1: Option<int>)
    requires
        known_orders(c),
        known_orders(q),
        b0 matches Some(k) ==> 0 <= k < c.len(),
        b1 matches Some(k) ==> 0 <= k < c.len(),
    ensures
        known_orders(counter_update(c, q, p3, p1, b0, b1).0),
        known_orders(counter_update(c, q, p3, p1, b0, b1).1),
{
    if !(b0 is None && b1 is None) {
        let removed = orders_removed(c, b0, b1);
        let known = |o: Order| o.id < EXISTING_ORDER_COUNT;
        assert(forall|i: int| 0 <= i < c.len() ==> known(#[trigger] c[i]));
        lemma_keep_unlisted_all(c, index_set(seq![0usize, 0usize]), known);
        match (b0, b1) {
            (Some(o1), Some(o2)) => {
                if o1 != o2 {
                    lemma_keep_unlisted_all(c, index_set(seq![o1 as usize, o2 as usize]), known);
                }
            },
            _ => {},
        }
        assert(known_orders(removed.0)) by {
            assert forall|i: int| 0 <= i < removed.0.len() implies (#[trigger] removed.0[i]).id < EXISTING_ORDER_COUNT by {
                match (b0, b1) {
                    (Some(o1), Some(o2)) => {
                        if o1 == o2 {
                            assert(removed.0[i] == c[if i < o1 { i } else { i + 1 }]);
                        } else {
                            assert(known(removed.0[i]));
                        }
                    },
                    (Some(o), None) => {
                        assert(removed.0[i] == c[if i < o { i } else { i + 1 }]);
                    },
                    (None, Some(o)) => {
                        assert(removed.0[i] == c[if i < o { i } else { i + 1 }]);
                    },
                    _ => {},
                }
            }
        }
        lemma_refill_orders_known(removed.0, q, removed.1);
    }
}

proof fn lemma_tome_update_known(t: Seq<Spell>, q: Seq<Spell>, l0: Option<int>, l1: Option<int>, x: (Option<int>, Option<int>))
    requires
        known_spells(t),
        known_spells(q),
        l0 matches Some(k) ==> 0 <= k < t.len(),
        l1 matches Some(k) ==> 0 <= k < t.len(),
    ensures
        known_spells(tome_update(t, q, l0, l1, x).0),
        known_spells(tome_update(t, q, l0, l1, x).1),
{
    let rs = removal_positions(l0, l1);
    if rs.0 is Some {
        let known = |sp: Spell| sp.id < EXISTING_SPELL_COUNT;
        assert(forall|i: int| 0 <= i < t.len() ==> known(#[trigger] t[i]));
        let s0 = rs.0->0;
        let first = match rs.1 {
            None => t.remove(s0),
            Some(s1) => keep_unlisted(t, index_set(seq![s0 as usize, s1 as usize])),
        };
        if let Some(s1) = rs.1 {
            lemma_keep_unlisted_all(t, index_set(seq![s0 as usize, s1 as usize]), known);
        }
        assert(known_spells(first)) by {
            assert forall|i: int| 0 <= i < first.len() implies (#[trigger] first[i]).id < EXISTING_SPELL_COUNT by {
                if rs.1 is None {
                    assert(first[i] == t[if i < s0 { i } else { i + 1 }]);
                } else {
                    assert(known(first[i]));
                }
            }
        }
        let r = replace_learnt(t, q, rs);
        assert(known_spells(r.0) && known_spells(r.1)) by {
            let a = crate::witches_brew::game::refill_one(first, q);
            assert(known_spells(a.0) && known_spells(a.1)) by {
                if q.len() > 0 {
                    assert forall|i: int| 0 <= i < a.0.len() implies (#[trigger] a.0[i]).id < EXISTING_SPELL_COUNT by {
                        if i < first.len() {
                            assert(a.0[i] == first[i]);
                        } else {
                            assert(a.0[i] == q[q.len() - 1]);
                        }
                    }
                    assert forall|i: int| 0 <= i < a.1.len() implies (#[trigger] a.1[i]).id < EXISTING_SPELL_COUNT by {
                        assert(a.1[i] == q[i]);
                    }
                }
            }
            if rs.1 is Some {
                let b = crate::witches_brew::game::refill_one(a.0, a.1);
                if a.1.len() > 0 {
                    assert forall|i: int| 0 <= i < b.0.len() implies (#[trigger] b.0[i]).id < EXISTING_SPELL_COUNT by {
                        if i < a.0.len() {
                            assert(b.0[i] == a.0[i]);
                        } else {
                            assert(b.0[i] == a.1[a.1.len() - 1]);
                        }
                    }
                    assert forall|i: int| 0 <= i < b.1.len() implies (#[trigger] b.1[i]).id < EXISTING_SPELL_COUNT by {
                        assert(b.1[i] == a.1[i]);
                    }
                }
            }
        }
    }
}

/// Plays both recorded moves and updates the counter and the tome.
#[verifier::rlimit(30)]
fn play_both_moves(state: &mut State, cache: &Cache)
    requires
        old(state).wf(*cache),
        resolve_fits(old(state)@),
    ensures
        final(state).wf(*cache),
        ({
            let g = old(state)@;
            let p0 = g.players[0];
            let p1 = g.players[1];
            let orders = counter_after(g, brew_position(p0, g.counter_orders), brew_position(p1, g.counter_orders));
            let spells = tome_after(g, learn_position(p0, g.tome), learn_position(p1, g.tome));
            &&& final(state)@.players == seq![apply_move(p0, g.counter_orders, g.tome), apply_move(p1, g.counter_orders, g.tome)]
            &&& final(state)@.counter_orders == orders.0
            &&& final(state)@.queued_orders == orders.1
            &&& final(state)@.plus_3 == orders.2
            &&& final(state)@.plus_1 == orders.3
            &&& final(state)@.tome == spells.0
            &&& final(state)@.queued_spells == spells.1
            &&& final(state)@.active == g.active
            &&& final(state)@.active_player == g.active_player
            &&& final(state)@.turn == g.turn
            &&& final(state)@.winners == g.winners
        }),
{
    let ghost g1 = state@;
    proof {
        lemma_first_order_position_bounds_for(g1.players[0], g1.counter_orders);
        lemma_first_order_position_bounds_for(g1.players[1], g1.counter_orders);
        lemma_learn_position_bounds_for(g1.players[0], g1.tome);
        lemma_learn_position_bounds_for(g1.players[1], g1.tome);
    }
    let (b0, l0) = apply_sim_move(&mut state.players[0], &state.counter_orders, &state.tome_spells, cache);
    let (b1, l1) = apply_sim_move(&mut state.players[1], &state.counter_orders, &state.tome_spells, cache);
    if b0.is_some() || b1.is_some() {
        update_counter_orders(
            &mut state.counter_orders,
            &mut state.queued_orders,
            &mut state.plus_3_bonus_remaining,
            &mut state.plus_1_bonus_remaining,
            &[b0, b1],
        );
    }
    proof {
        lemma_counter_update_known(g1.counter_orders, g1.queued_orders, g1.plus_3, g1.plus_1, opt_int(b0), opt_int(b1));
    }
    if l0.is_some() || l1.is_some() {
        update_tome_spells(&mut state.tome_spells, &mut state.queued_spells, &[l0, l1], &[l0, l1]);
    }
    proof {
        lemma_tome_update_known(g1.tome, g1.queued_spells, opt_int(l0), opt_int(l1), (opt_int(l0), opt_int(l1)));
    }
    assert(state@.players =~= seq![
        apply_move(g1.players[0], g1.counter_orders, g1.tome),
        apply_move(g1.players[1], g1.counter_orders, g1.tome),
    ]);
}

/// Plays the move `_move` of the witch to move (see `spec_update_state`);
/// `player` names that witch, the state's own record of who moves is what
/// counts.
#[verifier::spinoff_prover]
#[verifier::rlimit(40)]
pub fn update_state(state: &mut State, player: u8, _move: Move, cache: &Cache)
    requires
        old(state).wf(*cache),
        update_fits(old(state)@, _move),
    ensures
        final(state).wf(*cache),
        final(state)@ == spec_update_state(old(state)@, _move),
{
    let ghost g = state@;
    if state.active_player == 0 {
        state.players[0].move_ = _move;
    } else {
        state.players[1].move_ = _move;
    }
    let ghost g1 = state@;
    assert(g1 =~= record_move(g, _move));
    if state.active_player == 1 {
        play_both_moves(state, cache);
        let rupees0 = state.players[0].rupees as i32;
        let rupees1 = state.players[1].rupees as i32;
        let diff = rupees0 - rupees1;
        if diff >= 20 || diff <= -20 || state.players[0].brewed_potions_count == 6
            || state.players[1].brewed_potions_count == 6 || state.turn == 100 || (state.players[0].move_ == Move::WAIT
            && state.players[1].move_ == Move::WAIT) {
            state.active = false;
            let score0 = state.players[0].rupees + (state.players[0].stock[1] + state.players[0].stock[2]
                + state.players[0].stock[3]) as u32;
            let score1 = state.players[1].rupees + (state.players[1].stock[1] + state.players[1].stock[2]
                + state.players[1].stock[3]) as u32;
            if score0 > score1 {
                state.winners = Some((WinLossTie::Win, WinLossTie::Loss));
            } else if score0 < score1 {
                state.winners = Some((WinLossTie::Loss, WinLossTie::Win));
            } else {
                state.winners = Some((WinLossTie::Tie, WinLossTie::Tie));
            }
        }
        state.players[0].move_ = Move::NONE;
        state.players[1].move_ = Move::NONE;
        state.turn = state.turn + 1;
        assert(state@.players =~= sim_resolve(g1).players);
        assert(state@ =~= GameModel { active_player: g.active_player, ..sim_resolve(g1) });
    }
    state.active_player = (state.active_player + 1) % 2;
    assert(state@ =~= spec_update_state(g, _move));
}


/// The BREW moves the tables allow for the stock of id `sid`, in counter
/// order.
pub open spec fn table_brew_moves(orders: Seq<Order>, cache: Cache, sid: int) -> Seq<Move>
    decreases orders.len(),
{
    if orders.len() == 0 {
        Seq::empty()
    } else {
        let rest = table_brew_moves(orders.drop_last(), cache, sid);
        if cache.fulfills_at(sid, orders.last().id as int) {
            rest.push(Move::BREW(orders.last().id))
        } else {
            rest
        }
    }
}

/// Casting the spell once, twice, ... `n` times.
pub open spec fn cast_run(sp: Spell, n: int) -> Seq<Move> {
    Seq::new(n as nat, |k: int| Move::CAST(sp.id, (k + 1) as u8))
}

/// The CAST moves of the active spells as the tables allow them for the
/// stock of id `sid`, in order.
pub open spec fn table_cast_moves(spells: Seq<Spell>, cache: Cache, sid: int) -> Seq<Move>
    decreases spells.len(),
{
    if spells.len() == 0 {
        Seq::empty()
    } else {
        let rest = table_cast_moves(spells.drop_last(), cache, sid);
        if spells.last().active {
            rest + cast_run(spells.last(), cache.times_at(sid, spells.last().id as int))
        } else {
            rest
        }
    }
}

/// The LEARN moves: the first tome spells, as many as the tier-0
/// ingredients allow (the spell at position `t` costs `t`).
pub open spec fn sim_learn_moves(tome: Seq<Spell>, stock0: int) -> Seq<Move> {
    if tome.len() == 0 {
        Seq::empty()
    } else {
        let n = if stock0 < tome.len() - 1 {
            stock0 + 1
        } else {
            tome.len() as int
        };
        Seq::new(n as nat, |t: int| Move::LEARN(tome[t].id))
    }
}

/// The moves of the witch to move before the fallback: BREW, CAST, REST (if
/// a spell is exhausted), then LEARN.
pub open spec fn sim_listed(g: GameModel, cache: Cache, sid: int) -> Seq<Move> {
    let p = g.players[g.active_player];
    table_brew_moves(g.counter_orders, cache, sid) + table_cast_moves(p.spells, cache, sid) + (if has_inactive_spell(
        p.spells,
    ) {
        seq![Move::REST]
    } else {
        Seq::empty()
    }) + sim_learn_moves(g.tome, p.stock[0] as int)
}

/// The moves of the witch to move whose stock has id `sid`; WAIT when
/// there is no other.
pub open spec fn sim_moves(g: GameModel, cache: Cache, sid: int) -> Seq<Move> {
    let all = sim_listed(g, cache, sid);
    if all.len() == 0 {
        seq![Move::WAIT]
    } else {
        all
    }
}

proof fn lemma_table_brew_prefix(orders: Seq<Order>, cache: Cache, sid: int, k: int)
    requires
        0 <= k <= orders.len(),
    ensures
        table_brew_moves(orders.take(k), cache, sid).len() <= table_brew_moves(orders, cache, sid).len(),
    decreases orders.len(),
{
    if k < orders.len() {
        assert(orders.drop_last().take(k) =~= orders.take(k));
        lemma_table_brew_prefix(orders.drop_last(), cache, sid, k);
    } else {
        assert(orders.take(k) =~= orders);
    }
}

proof fn lemma_table_cast_prefix(spells: Seq<Spell>, cache: Cache, sid: int, k: int)
    requires
        0 <= k <= spells.len(),
    ensures
        table_cast_moves(spells.take(k), cache, sid).len() <= table_cast_moves(spells, cache, sid).len(),
    decreases spells.len(),
{
    if k < spells.len() {
        assert(spells.drop_last().take(k) =~= spells.take(k));
        lemma_table_cast_prefix(spells.drop_last(), cache, sid, k);
    } else {
        assert(spells.take(k) =~= spells);
    }
}

/// The witch to move and its moves (see `sim_moves`).
pub fn valid_moves(state: &State, cache: &Cache) -> (r: (u8, StackVector<Move, MAX_VALID_MOVES>))
    requires
        state.wf(*cache),
        sim_listed(state@, *cache, state.players[state.active_player as int].stock_id as int).len() <= MAX_VALID_MOVES,
    ensures
        r.0 == state.active_player,
        r.1.wf(),
        r.1@ == sim_moves(state@, *cache, state.players[state.active_player as int].stock_id as int),
{
    let orders = state.counter_orders.slice();
    let tome_spells = state.tome_spells.slice();
    let player = &state.players[state.active_player as usize];
    let player_spells = player.spells.slice();
    let player_stock = &player.stock;
    let player_stock_id = player.stock_id;
    let ghost sid = player_stock_id as int;
    let ghost g = state@;
    let ghost total = sim_listed(g, *cache, sid);
    let ghost brews = table_brew_moves(orders@, *cache, sid);
    let ghost casts = table_cast_moves(player_spells@, *cache, sid);
    proof {
        cache.lemma_ids(*player_stock);
    }
    let mut valid_moves: StackVector<Move, MAX_VALID_MOVES> = StackVector::new();
    let mut i: usize = 0;
    while i < orders.len()
        invariant
            i <= orders@.len(),
            known_orders(orders@),
            cache.wf(),
            player_stock_id < cache.row_count(),
            sid == player_stock_id,
            valid_moves.wf(),
            valid_moves@ == table_brew_moves(orders@.take(i as int), *cache, sid),
            brews == table_brew_moves(orders@, *cache, sid),
            total.len() <= MAX_VALID_MOVES,
            brews.len() <= total.len(),
            valid_moves@.len() <= brews.len(),
            total == brews + casts + (if has_inactive_spell(player_spells@) {
                seq![Move::REST]
            } else {
                Seq::empty()
            }) + sim_learn_moves(tome_spells@, player_stock[0] as int),
        decreases orders@.len() - i,
    {
        assert(orders@.take(i + 1).drop_last() =~= orders@.take(i as int));
        proof {
            lemma_table_brew_prefix(orders@, *cache, sid, i + 1);
        }
        assert(orders@[i as int].id < EXISTING_ORDER_COUNT);
        if cache.can_fulfill_order(orders[i].id, player_stock_id) {
            valid_moves.add(Move::BREW(orders[i].id));
        }
        i += 1;
    }
    assert(orders@.take(orders@.len() as int) =~= orders@);
    let mut all_spells_are_active = true;
    let mut k: usize = 0;
    while k < player_spells.len()
        invariant
            k <= player_spells@.len(),
            known_spells(player_spells@),
            cache.wf(),
            player_stock_id < cache.row_count(),
            sid == player_stock_id,
            valid_moves.wf(),
            valid_moves@ == brews + table_cast_moves(player_spells@.take(k as int), *cache, sid),
            all_spells_are_active == !has_inactive_spell(player_spells@.take(k as int)),
            casts == table_cast_moves(player_spells@, *cache, sid),
            total.len() <= MAX_VALID_MOVES,
            brews.len() + casts.len() <= total.len(),
            table_cast_moves(player_spells@.take(k as int), *cache, sid).len() <= casts.len(),
        decreases player_spells@.len() - k,
    {
        let sp = player_spells[k];
        proof {
            assert(player_spells@.take(k + 1).drop_last() =~= player_spells@.take(k as int));
            assert(player_spells@.take(k + 1).last() == sp);
            lemma_table_cast_prefix(player_spells@, *cache, sid, k + 1);
            if !sp.active {
                assert(!(player_spells@.take(k + 1)[k as int]).active);
            }
            assert(has_inactive_spell(player_spells@.take(k + 1)) == (has_inactive_spell(player_spells@.take(k as int)) || !sp.active)) by {
                if has_inactive_spell(player_spells@.take(k as int)) {
                    let j = choose|j: int| 0 <= j < k && !(#[trigger] player_spells@.take(k as int)[j]).active;
                    assert(!(player_spells@.take(k + 1)[j]).active);
                }
                if has_inactive_spell(player_spells@.take(k + 1)) {
                    let j = choose|j: int| 0 <= j < k + 1 && !(#[trigger] player_spells@.take(k + 1)[j]).active;
                    if j < k {
                        assert(!(player_spells@.take(k as int)[j]).active);
                    }
                }
            }
        }
        if sp.active == false {
            all_spells_are_active = false;
        } else {
            assert(player_spells@[k as int].id < EXISTING_SPELL_COUNT);
            let times_can_cast_spell = cache.how_many_times_can_cast_spell(sp.id, player_stock_id);
            let ghost before = valid_moves@;
            let ghost run = cast_run(sp, times_can_cast_spell as int);
            let mut n: u16 = 1;
            while n <= times_can_cast_spell as u16
                invariant
                    1 <= n <= times_can_cast_spell as int + 1,
                    run == cast_run(sp, times_can_cast_spell as int),
                    valid_moves.wf(),
                    valid_moves@ == before + run.take(n - 1),
                    before.len() + run.len() <= MAX_VALID_MOVES,
                decreases times_can_cast_spell + 1 - n,
            {
                assert(run.take(n as int) =~= run.take(n - 1).push(Move::CAST(sp.id, n as u8)));
                valid_moves.add(Move::CAST(sp.id, n as u8));
                n += 1;
            }
            assert(run.take(times_can_cast_spell as int) =~= run);
        }
        k += 1;
    }
    assert(player_spells@.take(player_spells@.len() as int) =~= player_spells@);
    if all_spells_are_active == false {
        valid_moves.add(Move::REST);
    }
    let ghost mid = valid_moves@;
    if tome_spells.len() > 0 {
        let last = if (player_stock[0] as usize) < tome_spells.len() - 1 {
            player_stock[0] as usize
        } else {
            tome_spells.len() - 1
        };
        let ghost learns = sim_learn_moves(tome_spells@, player_stock[0] as int);
        let mut t: usize = 0;
        while t <= last
            invariant
                last < tome_spells@.len(),
                t <= last + 1,
                learns.len() == last + 1,
                learns == sim_learn_moves(tome_spells@, player_stock[0] as int),
                valid_moves.wf(),
                valid_moves@ == mid + learns.take(t as int),
                mid.len() + learns.len() <= MAX_VALID_MOVES,
            decreases last + 1 - t,
        {
            assert(learns.take(t + 1) =~= learns.take(t as int).push(Move::LEARN(tome_spells@[t as int].id)));
            valid_moves.add(Move::LEARN(tome_spells[t].id));
            t += 1;
        }
        assert(learns.take(learns.len() as int) =~= learns);
    }
    assert(valid_moves@ =~= total);
    if valid_moves.len() == 0 {
        valid_moves.add(Move::WAIT);
    }
    (state.active_player, valid_moves)
}

/// The witch to move and one of its moves, picked at random.
pub fn random_valid_move(state: &State, cache: &Cache) -> (r: (u8, Move))
    requires
        state.wf(*cache),
        sim_listed(state@, *cache, state.players[state.active_player as int].stock_id as int).len() <= MAX_VALID_MOVES,
    ensures
        r.0 == state.active_player,
        sim_moves(state@, *cache, state.players[state.active_player as int].stock_id as int).contains(r.1),
{
    let (p_id, moves) = valid_moves(state, cache);
    let chosen = random_element(moves.slice());
    (p_id, chosen)
}

pub fn is_terminal(state: &State) -> (b: bool)
    ensures
        b == !state.active,
{
    !state.active
}

/// The state of a turn: the given witches, tome and counter, no queued
/// order or spell, witch 0 to move.
pub fn new(
    players: [Player; 2],
    tome_spells: StackVector<Spell, 6>,
    counter_orders: StackVector<Order, 5>,
    plus_3_bonus_remaining: u8,
    plus_1_bonus_remaining: u8,
    turn: u8,
) -> (s: State)
    ensures
        s@ == (GameModel {
            players: seq![players[0]@, players[1]@],
            queued_orders: Seq::empty(),
            counter_orders: counter_orders@,
            plus_3: plus_3_bonus_remaining as int,
            plus_1: plus_1_bonus_remaining as int,
            queued_spells: Seq::empty(),
            tome: tome_spells@,
            active: true,
            active_player: 0,
            turn: turn as int,
            winners: None,
        }),
        s.players == players,
{
    let s = State {
        players,
        queued_orders: Vec::new(),
        counter_orders,
        plus_3_bonus_remaining,
        plus_1_bonus_remaining,
        queued_spells: Vec::new(),
        tome_spells,
        active: true,
        active_player: 0,
        turn,
        winners: None,
    };
    assert(s@ =~= GameModel {
        players: seq![players[0]@, players[1]@],
        queued_orders: Seq::empty(),
        counter_orders: counter_orders@,
        plus_3: plus_3_bonus_remaining as int,
        plus_1: plus_1_bonus_remaining as int,
        queued_spells: Seq::empty(),
        tome: tome_spells@,
        active: true,
        active_player: 0,
        turn: turn as int,
        winners: None,
    });
    s
}

} // verus!
