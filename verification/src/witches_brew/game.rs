//! The referee of the potion brewing game.
use vstd::prelude::*;
use crate::game::{Game, Message, WinLossTie, lines_of};
use crate::random::shuffle;
use crate::stack_vector::{StackVector, keep_unlisted, index_set};
use crate::witches_brew::protocol::spec_parse_move;
use crate::witches_brew::protocol::parse_move;
use crate::witches_brew::messages::{turn_lines, action_count, push_order_lines, push_learn_lines, push_cast_lines, stock_line_text, stock_line};
use crate::text::u64_to_string;
use crate::witches_brew::rules::{
    Ingredients, Move, Order, Spell, MAX_PLAYER_SPELLS, MAX_VALID_MOVES, add_recipe,
    consistent_spell, small_recipe, valid_stock, stock_total, spec_all_orders, spec_tome_spells,
    spec_basic_spells, get_all_orders, get_tome_spells, get_basic_spells, first_order_position,
    first_spell_position, listed_moves, spec_valid_moves, valid_moves, get_order_position,
    get_spell_position, brew_and_update_stock, cast_and_update_stock, fits_repeated,
    spec_how_many_times_can_cast_spell, spec_can_cast_spell, times_castable, cast_measure,
};

verus! {

#[derive(Clone)]
pub struct Player {
    pub move_: Move,
    pub stock: Ingredients,
    pub spells: StackVector<Spell, MAX_PLAYER_SPELLS>,
    pub rupees: u32,
    pub brewed_potions_count: u8,
}

/// A player as the rules see it.
#[verifier::ext_equal]
pub struct PlayerModel {
    pub move_: Move,
    pub stock: Ingredients,
    pub spells: Seq<Spell>,
    pub rupees: int,
    pub brewed: int,
}

impl View for Player {
    type V = PlayerModel;

    open spec fn view(&self) -> PlayerModel {
        PlayerModel {
            move_: self.move_,
            stock: self.stock,
            spells: self.spells@,
            rupees: self.rupees as int,
            brewed: self.brewed_potions_count as int,
        }
    }
}

pub struct WitchesBrewGame {
    pub players: [Player; 2],
    pub queued_orders: Vec<Order>,
    pub counter_orders: StackVector<Order, 5>,
    pub plus_3_bonus_remaining: u8,
    pub plus_1_bonus_remaining: u8,
    pub queued_spells: Vec<Spell>,
    pub tome_spells: StackVector<Spell, 6>,
    pub active: bool,
    pub active_player: u8,
    pub turn: u8,
    pub winners: Option<(WinLossTie, WinLossTie)>,
}

/// The whole game as the rules see it.
#[verifier::ext_equal]
pub struct GameModel {
    pub players: Seq<PlayerModel>,
    pub queued_orders: Seq<Order>,
    pub counter_orders: Seq<Order>,
    pub plus_3: int,
    pub plus_1: int,
    pub queued_spells: Seq<Spell>,
    pub tome: Seq<Spell>,
    pub active: bool,
    pub active_player: int,
    pub turn: int,
    pub winners: Option<(WinLossTie, WinLossTie)>,
}

impl View for WitchesBrewGame {
    type V = GameModel;

    open spec fn view(&self) -> GameModel {
        GameModel {
            players: seq![self.players[0]@, self.players[1]@],
            queued_orders: self.queued_orders@,
            counter_orders: self.counter_orders@,
            plus_3: self.plus_3_bonus_remaining as int,
            plus_1: self.plus_1_bonus_remaining as int,
            queued_spells: self.queued_spells@,
            tome: self.tome_spells@,
            active: self.active,
            active_player: self.active_player as int,
            turn: self.turn as int,
            winners: self.winners,
        }
    }
}

/// A player state the rules can continue from.
pub open spec fn player_wf(p: PlayerModel) -> bool {
    &&& valid_stock(p.stock)
    &&& p.spells.len() <= MAX_PLAYER_SPELLS
    &&& forall|i: int| 0 <= i < p.spells.len() ==> consistent_spell(#[trigger] p.spells[i])
}

impl WitchesBrewGame {
    /// The state is one the referee can continue from.
    pub open spec fn wf(&self) -> bool {
        &&& self.active_player < 2
        &&& self.players[0].spells.wf()
        &&& self.players[1].spells.wf()
        &&& player_wf(self.players[0]@)
        &&& player_wf(self.players[1]@)
        &&& self.counter_orders.wf()
        &&& self.counter_orders@.len() == 5
        &&& forall|i: int| 0 <= i < 5 ==> small_recipe(#[trigger] self.counter_orders@[i].recipe)
        &&& forall|i: int| 0 <= i < self.queued_orders@.len() ==> small_recipe(#[trigger] self.queued_orders@[i].recipe)
        &&& self.tome_spells.wf()
        &&& forall|i: int| 0 <= i < self.tome_spells@.len() ==> consistent_spell(#[trigger] self.tome_spells@[i])
        &&& forall|i: int| 0 <= i < self.queued_spells@.len() ==> consistent_spell(#[trigger] self.queued_spells@[i])
    }
}

/// The witch every player starts as: three tier-0 ingredients and the basic
/// spells.
pub open spec fn initial_player(p: PlayerModel) -> bool {
    &&& p.move_ == Move::NONE
    &&& p.stock == [3i8, 0i8, 0i8, 0i8]
    &&& p.spells == spec_basic_spells()
    &&& p.rupees == 0
    &&& p.brewed == 0
}

pub(crate) proof fn lemma_tome_spells_consistent()
    ensures
        forall|i: int| 0 <= i < 42 ==> consistent_spell(#[trigger] spec_tome_spells()[i]),
{
    assert forall|i: int| 0 <= i < 42 implies consistent_spell(#[trigger] spec_tome_spells()[i]) by {
        let r = crate::witches_brew::rules::tome_recipes()[i];
        assert(small_recipe(r));
        if crate::witches_brew::rules::takes_ingredient(r) {
            if r[0] < 0 {
                assert(spec_tome_spells()[i].recipe[0] < 0);
            } else if r[1] < 0 {
                assert(spec_tome_spells()[i].recipe[1] < 0);
            } else if r[2] < 0 {
                assert(spec_tome_spells()[i].recipe[2] < 0);
            } else {
                assert(spec_tome_spells()[i].recipe[3] < 0);
            }
        }
    }
}

pub(crate) proof fn lemma_orders_small()
    ensures
        forall|i: int| 0 <= i < 36 ==> small_recipe(#[trigger] spec_all_orders()[i].recipe),
{
    assert forall|i: int| 0 <= i < 36 implies small_recipe(#[trigger] spec_all_orders()[i].recipe) by {
        let a = crate::witches_brew::rules::order_amounts()[i].0;
        assert(0 <= a[0] <= 5 && 0 <= a[1] <= 5 && 0 <= a[2] <= 5 && 0 <= a[3] <= 5);
    }
}

proof fn lemma_multiset_perm_contains<T>(a: Seq<T>, b: Seq<T>, x: T)
    requires
        a.to_multiset() == b.to_multiset(),
        a.contains(x),
    ensures
        b.contains(x),
{
    broadcast use vstd::seq_lib::group_to_multiset_ensures;
    assert(a.to_multiset().count(x) > 0);
}

impl WitchesBrewGame {
    /// A new game: both players start with the basic spells and three tier-0
    /// ingredients; the orders and tome spells are shuffled, five orders are
    /// put on the counter and six spells in the tome, taken from the end of
    /// the shuffled lists.
    pub fn new_game() -> (g: Self)
        ensures
            g.wf(),
            initial_player(g.players[0]@),
            initial_player(g.players[1]@),
            g.counter_orders@.len() == 5,
            (g.queued_orders@ + g.counter_orders@.reverse()).to_multiset() == spec_all_orders().to_multiset(),
            g.tome_spells@.len() == 6,
            (g.queued_spells@ + g.tome_spells@.reverse()).to_multiset() == spec_tome_spells().to_multiset(),
            g.plus_3_bonus_remaining == 4,
            g.plus_1_bonus_remaining == 4,
            g.active,
            g.active_player == 0,
            g.turn == 0,
            g.winners is None,
    {
        let mut player_spells: StackVector<Spell, MAX_PLAYER_SPELLS> = StackVector::new();
        let basic_spells = get_basic_spells();
        let mut i: usize = 0;
        while i < 4
            invariant
                i <= 4,
                basic_spells@ == spec_basic_spells(),
                player_spells.wf(),
                player_spells@ == spec_basic_spells().take(i as int),
            decreases 4 - i,
        {
            player_spells.add(basic_spells[i]);
            assert(spec_basic_spells().take(i + 1) =~= spec_basic_spells().take(i as int).push(basic_spells@[i as int]));
            i += 1;
        }
        assert(spec_basic_spells().take(4) =~= spec_basic_spells());
        let player0 = Player { move_: Move::NONE, stock: [3, 0, 0, 0], rupees: 0, brewed_potions_count: 0, spells: player_spells };
        let player1 = Player { move_: Move::NONE, stock: [3, 0, 0, 0], rupees: 0, brewed_potions_count: 0, spells: StackVector::from(player0.spells.slice()) };
        proof {
            assert(player0.stock =~= [3i8, 0i8, 0i8, 0i8]);
            assert(player1.stock =~= [3i8, 0i8, 0i8, 0i8]);
        }

        let mut all_orders = get_all_orders();
        let ghost orders0 = all_orders@;
        shuffle(&mut all_orders);
        let ghost shuffled_orders = all_orders@;
        proof {
            lemma_orders_small();
            assert forall|i: int| 0 <= i < shuffled_orders.len() implies small_recipe(#[trigger] shuffled_orders[i].recipe) by {
                assert(shuffled_orders.contains(shuffled_orders[i]));
                lemma_multiset_perm_contains(shuffled_orders, orders0, shuffled_orders[i]);
            }
        }
        let mut counter_orders: StackVector<Order, 5> = StackVector::new();
        let mut k: usize = 0;
        while k < 5
            invariant
                k <= 5,
                shuffled_orders.len() == 36,
                counter_orders.wf(),
                all_orders@ == shuffled_orders.take(36 - k),
                counter_orders@ == shuffled_orders.skip(36 - k).reverse(),
            decreases 5 - k,
        {
            let o = all_orders.pop().unwrap();
            counter_orders.add(o);
            assert(shuffled_orders.skip(36 - (k + 1)).reverse() =~= shuffled_orders.skip(36 - k).reverse().push(o));
            assert(all_orders@ =~= shuffled_orders.take(36 - (k + 1)));
            k += 1;
        }
        assert(all_orders@ + counter_orders@.reverse() =~= shuffled_orders);

        let mut queued_spells = get_tome_spells();
        let ghost spells0 = queued_spells@;
        shuffle(&mut queued_spells);
        let ghost shuffled_spells = queued_spells@;
        proof {
            lemma_tome_spells_consistent();
            assert forall|i: int| 0 <= i < shuffled_spells.len() implies consistent_spell(#[trigger] shuffled_spells[i]) by {
                assert(shuffled_spells.contains(shuffled_spells[i]));
                lemma_multiset_perm_contains(shuffled_spells, spells0, shuffled_spells[i]);
            }
        }
        let mut tome_spells: StackVector<Spell, 6> = StackVector::new();
        let mut k: usize = 0;
        while k < 6
            invariant
                k <= 6,
                shuffled_spells.len() == 42,
                tome_spells.wf(),
                queued_spells@ == shuffled_spells.take(42 - k),
                tome_spells@ == shuffled_spells.skip(42 - k).reverse(),
            decreases 6 - k,
        {
            let s = queued_spells.pop().unwrap();
            tome_spells.add(s);
            assert(shuffled_spells.skip(42 - (k + 1)).reverse() =~= shuffled_spells.skip(42 - k).reverse().push(s));
            assert(queued_spells@ =~= shuffled_spells.take(42 - (k + 1)));
            k += 1;
        }
        assert(queued_spells@ + tome_spells@.reverse() =~= shuffled_spells);
        WitchesBrewGame {
            players: [player0, player1],
            queued_orders: all_orders,
            counter_orders,
            plus_3_bonus_remaining: 4,
            plus_1_bonus_remaining: 4,
            queued_spells,
            tome_spells,
            active: true,
            active_player: 0,
            turn: 0,
            winners: None,
        }
    }
}


/// `s` with its tier-0 amount replaced.
pub open spec fn set_tier0(s: Ingredients, v: i8) -> Ingredients {
    [v, s[1], s[2], s[3]]
}

pub open spec fn min_i8(a: i8, b: i8) -> i8 {
    if a <= b {
        a
    } else {
        b
    }
}

/// The stock after learning the tome spell at position `pos` with `tax`
/// tier-0 ingredients on it: `pos` tier-0 ingredients are paid, then those of
/// the tax are taken, as far as the storage allows.
pub open spec fn learn_stock(s: Ingredients, pos: int, tax: u8) -> Ingredients {
    let paid = set_tier0(s, (s[0] - pos) as i8);
    if tax > 0 {
        let empty = (10 - stock_total(paid)) as i8;
        set_tier0(paid, (paid[0] + min_i8(tax as i8, empty)) as i8)
    } else {
        paid
    }
}

pub open spec fn exhausted(s: Spell) -> Spell {
    Spell { active: false, ..s }
}

pub open spec fn refreshed(s: Spell) -> Spell {
    Spell { active: true, ..s }
}

pub open spec fn untaxed(s: Spell) -> Spell {
    Spell { tax: 0, ..s }
}

/// The player after its recorded move: BREW fulfills the first counter order
/// with that id, CAST casts the first own spell with that id (which becomes
/// exhausted), LEARN copies the first tome spell with that id, REST
/// refreshes all spells.
pub open spec fn apply_move(p: PlayerModel, counter: Seq<Order>, tome: Seq<Spell>) -> PlayerModel {
    match p.move_ {
        Move::BREW(id) => {
            let o = counter[first_order_position(counter, id)->0];
            PlayerModel {
                brewed: p.brewed + 1,
                rupees: p.rupees + o.price + o.bonus,
                stock: add_recipe(p.stock, o.recipe, 1),
                ..p
            }
        },
        Move::CAST(id, t) => {
            let pos = first_spell_position(p.spells, id)->0;
            let sp = p.spells[pos];
            PlayerModel {
                stock: add_recipe(p.stock, sp.recipe, t as int),
                spells: p.spells.update(pos, exhausted(sp)),
                ..p
            }
        },
        Move::LEARN(id) => {
            let pos = first_spell_position(tome, id)->0;
            let sp = tome[pos];
            PlayerModel {
                spells: p.spells.push(untaxed(sp)),
                stock: learn_stock(p.stock, pos, sp.tax),
                ..p
            }
        },
        Move::REST => PlayerModel { spells: p.spells.map_values(|s: Spell| refreshed(s)), ..p },
        _ => p,
    }
}

/// The counter position of the order a player brews.
pub open spec fn brew_position(p: PlayerModel, counter: Seq<Order>) -> Option<int> {
    match p.move_ {
        Move::BREW(id) => first_order_position(counter, id),
        _ => None,
    }
}

/// The tome position of the spell a player learns.
pub open spec fn learn_position(p: PlayerModel, tome: Seq<Spell>) -> Option<int> {
    match p.move_ {
        Move::LEARN(id) => first_spell_position(tome, id),
        _ => None,
    }
}

/// The positions to remove, in the order the players' moves give them; the
/// same position is removed once.
pub open spec fn removal_positions(a: Option<int>, b: Option<int>) -> (Option<int>, Option<int>) {
    match (a, b) {
        (Some(x), Some(y)) => if x == y {
            (Some(x), None)
        } else {
            (Some(x), Some(y))
        },
        (Some(x), None) => (Some(x), None),
        (None, Some(y)) => (Some(y), None),
        (None, None) => (None, None),
    }
}

/// 1 when the player brews an order carrying that bonus.
pub open spec fn uses_bonus(p: PlayerModel, counter: Seq<Order>, bonus: u8) -> int {
    match brew_position(p, counter) {
        Some(pos) => if counter[pos].bonus == bonus {
            1
        } else {
            0
        },
        None => 0,
    }
}

/// The counter and the order queue after the brewed orders are replaced:
/// the brewed positions are removed, the other orders keeping their order,
/// and one order per brewed position is taken from the end of the queue.
pub open spec fn replace_brewed(c: Seq<Order>, q: Seq<Order>, r: (Option<int>, Option<int>)) -> (Seq<Order>, Seq<Order>) {
    let o0 = r.0->0;
    match r.1 {
        None => (c.remove(o0).push(q.last()), q.drop_last()),
        Some(o1) => {
            let c2 = keep_unlisted(c, index_set(seq![o0 as usize, o1 as usize]));
            (c2.push(q.last()).push(q.drop_last().last()), q.drop_last().drop_last())
        },
    }
}

pub open spec fn with_bonus(o: Order, b: u8) -> Order {
    Order { bonus: b, ..o }
}

/// The bonuses of the first two orders, from the bonuses left.
pub open spec fn set_bonuses(c: Seq<Order>, plus_3: int, plus_1: int) -> Seq<Order> {
    if plus_3 > 0 {
        let c1 = c.update(0, with_bonus(c[0], 3));
        if plus_1 > 0 {
            c1.update(1, with_bonus(c1[1], 1))
        } else {
            c1
        }
    } else if plus_1 > 0 {
        c.update(0, with_bonus(c[0], 1)).update(1, with_bonus(c[1], 0))
    } else {
        c.update(0, with_bonus(c[0], 0)).update(1, with_bonus(c[1], 0))
    }
}

/// Takes one element from the end of the queue into the tome, if any is left.
pub open spec fn refill_one(t: Seq<Spell>, q: Seq<Spell>) -> (Seq<Spell>, Seq<Spell>) {
    if q.len() > 0 {
        (t.push(q.last()), q.drop_last())
    } else {
        (t, q)
    }
}

/// The tome and the spell queue after the learnt spells are replaced.
pub open spec fn replace_learnt(t: Seq<Spell>, q: Seq<Spell>, r: (Option<int>, Option<int>)) -> (Seq<Spell>, Seq<Spell>) {
    let s0 = r.0->0;
    match r.1 {
        None => refill_one(t.remove(s0), q),
        Some(s1) => {
            let first = refill_one(keep_unlisted(t, index_set(seq![s0 as usize, s1 as usize])), q);
            refill_one(first.0, first.1)
        },
    }
}

pub open spec fn tax_added(s: Spell) -> Spell {
    Spell { tax: (s.tax + 1) as u8, ..s }
}

/// One more tier-0 ingredient on each of the first `n` tome spells.
pub open spec fn pay_tax(t: Seq<Spell>, n: Option<int>) -> Seq<Spell> {
    match n {
        Some(k) => Seq::new(t.len(), |i: int| if i < k {
            tax_added(t[i])
        } else {
            t[i]
        }),
        None => t,
    }
}

/// The final score: rupees and one point per ingredient above tier 0.
pub open spec fn score(p: PlayerModel) -> int {
    p.rupees + p.stock[1] + p.stock[2] + p.stock[3]
}

pub open spec fn compare_scores(p0: PlayerModel, p1: PlayerModel) -> (WinLossTie, WinLossTie) {
    if score(p0) > score(p1) {
        (WinLossTie::Win, WinLossTie::Loss)
    } else if score(p0) < score(p1) {
        (WinLossTie::Loss, WinLossTie::Win)
    } else {
        (WinLossTie::Tie, WinLossTie::Tie)
    }
}

pub open spec fn with_move(p: PlayerModel, m: Move) -> PlayerModel {
    PlayerModel { move_: m, ..p }
}

/// The recorded move of the player is one of its valid moves.
pub open spec fn move_is_valid(g: GameModel, pid: int) -> bool {
    spec_valid_moves(g.counter_orders, g.tome, g.players[pid].spells, g.players[pid].stock).contains(
        g.players[pid].move_,
    )
}

/// A game that a turn ends is won by the witch with the higher final score,
/// her rupees plus her tier-1, tier-2 and tier-3 ingredients, the other
/// losing; equal scores tie. (When both moves are valid, and the game had no
/// result yet.)
pub proof fn law_higher_score_wins(g: GameModel)
    requires
        g.players.len() == 2,
        move_is_valid(g, 0),
        move_is_valid(g, 1),
        g.winners is None,
        spec_resolve(g).winners is Some,
    ensures
        ({
            let r = spec_resolve(g);
            let s0 = r.players[0].rupees + r.players[0].stock[1] + r.players[0].stock[2] + r.players[0].stock[3];
            let s1 = r.players[1].rupees + r.players[1].stock[1] + r.players[1].stock[2] + r.players[1].stock[3];
            &&& s0 > s1 ==> r.winners == Some((WinLossTie::Win, WinLossTie::Loss))
            &&& s0 < s1 ==> r.winners == Some((WinLossTie::Loss, WinLossTie::Win))
            &&& s0 == s1 ==> r.winners == Some((WinLossTie::Tie, WinLossTie::Tie))
        }),
{
}

/// The game after both recorded moves are resolved: an invalid move ends the
/// game for its player; else both moves apply, the counter and the tome are
/// refilled, bonuses and taxes are updated, and the game ends when a player
/// has brewed three potions or at turn 100.
pub open spec fn spec_resolve(g: GameModel) -> GameModel {
    let p0 = g.players[0];
    let p1 = g.players[1];
    let v0 = move_is_valid(g, 0);
    let v1 = move_is_valid(g, 1);
    if !v0 || !v1 {
        GameModel {
            active: false,
            winners: Some(
                if !v0 && !v1 {
                    (WinLossTie::Loss, WinLossTie::Loss)
                } else if v0 {
                    (WinLossTie::Win, WinLossTie::Loss)
                } else {
                    (WinLossTie::Loss, WinLossTie::Win)
                },
            ),
            ..g
        }
    } else {
        let counter = g.counter_orders;
        let tome = g.tome;
        let n0 = apply_move(p0, counter, tome);
        let n1 = apply_move(p1, counter, tome);
        let plus_3 = g.plus_3 - uses_bonus(p0, counter, 3) - uses_bonus(p1, counter, 3);
        let plus_1 = g.plus_1 - uses_bonus(p0, counter, 1) - uses_bonus(p1, counter, 1);
        let ro = removal_positions(brew_position(p0, counter), brew_position(p1, counter));
        let orders = if ro.0 is Some {
            let r = replace_brewed(counter, g.queued_orders, ro);
            (set_bonuses(r.0, plus_3, plus_1), r.1)
        } else {
            (counter, g.queued_orders)
        };
        let rs = removal_positions(learn_position(p0, tome), learn_position(p1, tome));
        let spells = if rs.0 is Some {
            let r = replace_learnt(tome, g.queued_spells, rs);
            (pay_tax(pay_tax(r.0, learn_position(p0, tome)), learn_position(p1, tome)), r.1)
        } else {
            (tome, g.queued_spells)
        };
        let ended = n0.brewed == 3 || n1.brewed == 3 || g.turn == 100;
        GameModel {
            players: seq![with_move(n0, Move::NONE), with_move(n1, Move::NONE)],
            queued_orders: orders.1,
            counter_orders: orders.0,
            plus_3,
            plus_1,
            queued_spells: spells.1,
            tome: spells.0,
            active: g.active && !ended,
            winners: if ended {
                Some(compare_scores(n0, n1))
            } else {
                g.winners
            },
            turn: g.turn + 1,
            ..g
        }
    }
}

/// The game with `m` recorded as the move of the active player.
pub open spec fn record_move(g: GameModel, m: Move) -> GameModel {
    GameModel { players: g.players.update(g.active_player, with_move(g.players[g.active_player], m)), ..g }
}

/// The game after the active player's move `m`; the moves are resolved once
/// the second player has played.
pub open spec fn spec_play(g: GameModel, m: Move) -> GameModel {
    let ap = g.active_player;
    let g1 = record_move(g, m);
    if ap == 1 {
        let r = spec_resolve(g1);
        if move_is_valid(g1, 0) && move_is_valid(g1, 1) {
            GameModel { active_player: 0, ..r }
        } else {
            r
        }
    } else {
        GameModel { active_player: (ap + 1) % 2, ..g1 }
    }
}


/// The arithmetic of a player's move stays in range.
pub open spec fn move_fits(p: PlayerModel, counter: Seq<Order>, tome: Seq<Spell>) -> bool {
    match p.move_ {
        Move::BREW(id) => {
            &&& first_order_position(counter, id) is Some
            &&& ({
                let o = counter[first_order_position(counter, id)->0];
                &&& p.brewed + 1 <= u8::MAX
                &&& p.rupees + o.price + o.bonus <= u32::MAX
                &&& fits_repeated(p.stock, o.recipe, 1)
            })
        },
        Move::CAST(id, t) => {
            &&& first_spell_position(p.spells, id) is Some
            &&& fits_repeated(p.stock, p.spells[first_spell_position(p.spells, id)->0].recipe, t as int)
        },
        Move::LEARN(id) => {
            &&& first_spell_position(tome, id) is Some
            &&& p.spells.len() < MAX_PLAYER_SPELLS
            &&& ({
                let pos = first_spell_position(tome, id)->0;
                let paid = p.stock[0] - pos;
                let tax = tome[pos].tax;
                &&& -128 <= paid
                &&& tax > 0 ==> {
                    let empty = 10 - paid - p.stock[1] - p.stock[2] - p.stock[3];
                    &&& -128 <= 10 - paid <= 127
                    &&& -128 <= 10 - paid - p.stock[1] <= 127
                    &&& -128 <= 10 - paid - p.stock[1] - p.stock[2] <= 127
                    &&& -128 <= empty <= 127
                    &&& -128 <= paid + min_i8(tax as i8, empty as i8) <= 127
                }
            })
        },
        _ => true,
    }
}

/// The resolution of the recorded moves stays in range: bonuses, queues,
/// taxes, scores and the turn counter.
pub open spec fn resolution_fits(g: GameModel) -> bool {
    let p0 = g.players[0];
    let p1 = g.players[1];
    let counter = g.counter_orders;
    let tome = g.tome;
    &&& move_fits(p0, counter, tome)
    &&& move_fits(p1, counter, tome)
    &&& g.plus_3 - uses_bonus(p0, counter, 3) - uses_bonus(p1, counter, 3) >= 0
    &&& g.plus_1 - uses_bonus(p0, counter, 1) - uses_bonus(p1, counter, 1) >= 0
    &&& ({
        let ro = removal_positions(brew_position(p0, counter), brew_position(p1, counter));
        ro.0 is Some ==> g.queued_orders.len() >= if ro.1 is Some {
            2int
        } else {
            1
        }
    })
    &&& ({
        let rs = removal_positions(learn_position(p0, tome), learn_position(p1, tome));
        rs.0 is Some ==> ({
            let t = replace_learnt(tome, g.queued_spells, rs).0;
            &&& (learn_position(p0, tome) matches Some(k) ==> k <= t.len())
            &&& (learn_position(p1, tome) matches Some(k) ==> k <= t.len())
            &&& forall|i: int| 0 <= i < t.len() ==> #[trigger] t[i].tax + 2 <= u8::MAX
        })
    })
    &&& score(apply_move(p0, counter, tome)) <= u32::MAX
    &&& score(apply_move(p1, counter, tome)) <= u32::MAX
    &&& 0 <= score(apply_move(p0, counter, tome)) - apply_move(p0, counter, tome).rupees <= 127
    &&& 0 <= score(apply_move(p1, counter, tome)) - apply_move(p1, counter, tome).rupees <= 127
    &&& g.turn + 1 <= u8::MAX
}

/// What the second player's move needs: both move lists fit, and if both
/// moves are valid, their resolution fits.
pub open spec fn can_resolve(g: GameModel) -> bool {
    &&& listed_moves(g.counter_orders, g.tome, g.players[0].spells, g.players[0].stock).len() <= MAX_VALID_MOVES
    &&& listed_moves(g.counter_orders, g.tome, g.players[1].spells, g.players[1].stock).len() <= MAX_VALID_MOVES
    &&& (move_is_valid(g, 0) && move_is_valid(g, 1) ==> resolution_fits(g))
}

fn move_in(moves: &[Move], m: Move) -> (b: bool)
    ensures
        b == moves@.contains(m),
{
    let mut i: usize = 0;
    while i < moves.len()
        invariant
            i <= moves@.len(),
            forall|j: int| 0 <= j < i ==> moves@[j] != m,
        decreases moves@.len() - i,
    {
        if moves[i] == m {
            return true;
        }
        i += 1;
    }
    false
}

/// Applies the recorded move of one player (see `apply_move`), using up the
/// bonus of a brewed order; returns the counter position of the brewed order
/// and the tome position of the learnt spell.
fn apply_player_move(
    player: &mut Player,
    counter: &StackVector<Order, 5>,
    tome: &StackVector<Spell, 6>,
    plus_3: &mut u8,
    plus_1: &mut u8,
) -> (r: (Option<usize>, Option<usize>))
    requires
        old(player).spells.wf(),
        tome.wf(),
        move_fits(old(player)@, counter@, tome@),
        *old(plus_3) >= uses_bonus(old(player)@, counter@, 3),
        *old(plus_1) >= uses_bonus(old(player)@, counter@, 1),
    ensures
        final(player).spells.wf(),
        final(player)@ == apply_move(old(player)@, counter@, tome@),
        *final(plus_3) == *old(plus_3) - uses_bonus(old(player)@, counter@, 3),
        *final(plus_1) == *old(plus_1) - uses_bonus(old(player)@, counter@, 1),
        r.0 matches Some(p) ==> brew_position(old(player)@, counter@) == Some(p as int),
        r.0 is None ==> brew_position(old(player)@, counter@) is None,
        r.1 matches Some(p) ==> learn_position(old(player)@, tome@) == Some(p as int),
        r.1 is None ==> learn_position(old(player)@, tome@) is None,
{
    match player.move_ {
        Move::BREW(order_id) => {
            let pos = get_order_position(counter.slice(), order_id).unwrap();
            let order = *counter.get(pos);
            player.brewed_potions_count = player.brewed_potions_count + 1;
            if order.bonus == 3 {
                *plus_3 = *plus_3 - 1;
            } else if order.bonus == 1 {
                *plus_1 = *plus_1 - 1;
            }
            player.rupees = player.rupees + order.price as u32 + order.bonus as u32;
            brew_and_update_stock(&mut player.stock, &order);
            assert(player@ =~= apply_move(old(player)@, counter@, tome@));
            (Some(pos), None)
        },
        Move::CAST(spell_id, times) => {
            let pos = get_spell_position(player.spells.slice(), spell_id).unwrap();
            let recipe = player.spells.get(pos).recipe;
            cast_and_update_stock(&mut player.stock, &recipe, times);
            let spell = player.spells.get_mut(pos);
            spell.active = false;
            assert(player@ =~= apply_move(old(player)@, counter@, tome@));
            (None, None)
        },
        Move::LEARN(spell_id) => {
            let pos = get_spell_position(tome.slice(), spell_id).unwrap();
            let learnt = *tome.get(pos);
            let mut copy = learnt;
            copy.tax = 0;
            player.spells.add(copy);
            player.stock[0] = player.stock[0] - pos as i8;
            if learnt.tax > 0 {
                let empty_storage = 10 - player.stock[0] - player.stock[1] - player.stock[2] - player.stock[3];
                let tax = learnt.tax as i8;
                let gained = if tax <= empty_storage { tax } else { empty_storage };
                player.stock[0] = player.stock[0] + gained;
            }
            assert(player.stock =~= learn_stock(old(player).stock, pos as int, learnt.tax));
            assert(player@ =~= apply_move(old(player)@, counter@, tome@));
            (None, Some(pos))
        },
        Move::REST => {
            let n = player.spells.len();
            let mut i: usize = 0;
            while i < n
                invariant
                    i <= n,
                    n == old(player).spells@.len(),
                    player.spells.wf(),
                    player.stock == old(player).stock,
                    player.rupees == old(player).rupees,
                    player.brewed_potions_count == old(player).brewed_potions_count,
                    player.move_ == old(player).move_,
                    player.move_ == Move::REST,
                    player.spells@.len() == n,
                    forall|j: int| 0 <= j < i ==> player.spells@[j] == refreshed(old(player).spells@[j]),
                    forall|j: int| i <= j < n ==> player.spells@[j] == old(player).spells@[j],
                decreases n - i,
            {
                let spell = player.spells.get_mut(i);
                spell.active = true;
                i += 1;
            }
            assert(player.spells@ =~= old(player).spells@.map_values(|s: Spell| refreshed(s)));
            assert(player@ =~= apply_move(old(player)@, counter@, tome@));
            (None, None)
        },
        _ => (None, None),
    }
}


/// Replaces the brewed orders (see `replace_brewed`).
fn replace_brewed_orders(counter: &mut StackVector<Order, 5>, queue: &mut Vec<Order>, r: (Option<usize>, Option<usize>))
    requires
        old(counter).wf(),
        old(counter)@.len() == 5,
        r.0 is Some,
        r.0->0 < 5,
        r.1 matches Some(o1) ==> o1 < 5 && o1 != r.0->0,
        old(queue)@.len() >= if r.1 is Some { 2int } else { 1 },
    ensures
        final(counter).wf(),
        final(counter)@.len() == 5,
        (final(counter)@, final(queue)@) == replace_brewed(
            old(counter)@,
            old(queue)@,
            (Some(r.0->0 as int), match r.1 {
                Some(o1) => Some(o1 as int),
                None => None,
            }),
        ),
{
    let o0 = r.0.unwrap();
    match r.1 {
        Some(o1) => {
            let ghost before = counter@;
            counter.remove_multi([o0, o1]);
            proof {
                assert([o0, o1]@ =~= seq![o0, o1]);
                lemma_keep_unlisted_two(before, o0 as int, o1 as int);
            }
            let next = queue.pop().unwrap();
            counter.add(next);
            let next = queue.pop().unwrap();
            counter.add(next);
        },
        None => {
            counter.remove(o0);
            let next = queue.pop().unwrap();
            counter.add(next);
        },
    }
}

/// Removing two distinct valid positions leaves two fewer elements.
pub(crate) proof fn lemma_keep_unlisted_two<T>(s: Seq<T>, a: int, b: int)
    requires
        0 <= a < s.len(),
        0 <= b < s.len(),
        a != b,
        a <= usize::MAX,
        b <= usize::MAX,
    ensures
        keep_unlisted(s, index_set(seq![a as usize, b as usize])).len() == s.len() - 2,
{
    let set = index_set(seq![a as usize, b as usize]);
    assert(forall|i: int| set.contains(i) <==> (i == a || i == b)) by {
        assert forall|i: int| set.contains(i) <==> (i == a || i == b) by {
            if i == a {
                assert(seq![a as usize, b as usize][0] == a);
            }
            if i == b {
                assert(seq![a as usize, b as usize][1] == b);
            }
        }
    }
    lemma_keep_unlisted_len(s, set, a, b);
}

proof fn lemma_keep_unlisted_len<T>(s: Seq<T>, set: Set<int>, a: int, b: int)
    requires
        forall|i: int| set.contains(i) <==> (i == a || i == b),
        0 <= a,
        0 <= b,
        a != b,
    ensures
        keep_unlisted(s, set).len() == s.len() - (if a < s.len() { 1int } else { 0 }) - (if b < s.len() { 1int } else { 0 }),
    decreases s.len(),
{
    if s.len() > 0 {
        lemma_keep_unlisted_len(s.drop_last(), set, a, b);
    }
}

/// Sets the bonuses of the first two orders (see `set_bonuses`).
fn set_counter_bonuses(counter: &mut StackVector<Order, 5>, plus_3: u8, plus_1: u8)
    requires
        old(counter).wf(),
        old(counter)@.len() == 5,
    ensures
        final(counter).wf(),
        final(counter)@ == set_bonuses(old(counter)@, plus_3 as int, plus_1 as int),
{
    if plus_3 > 0 {
        counter.get_mut(0).bonus = 3;
        if plus_1 > 0 {
            counter.get_mut(1).bonus = 1;
        }
    } else if plus_1 > 0 {
        counter.get_mut(0).bonus = 1;
        counter.get_mut(1).bonus = 0;
    } else {
        counter.get_mut(0).bonus = 0;
        counter.get_mut(1).bonus = 0;
    }
    assert(counter@ =~= set_bonuses(old(counter)@, plus_3 as int, plus_1 as int));
}

fn refill_tome(tome: &mut StackVector<Spell, 6>, queue: &mut Vec<Spell>)
    requires
        old(tome).wf(),
        old(queue)@.len() > 0 ==> old(tome)@.len() < 6,
    ensures
        final(tome).wf(),
        (final(tome)@, final(queue)@) == refill_one(old(tome)@, old(queue)@),
{
    if queue.len() > 0 {
        let next = queue.pop().unwrap();
        tome.add(next);
    }
}

/// Replaces the learnt spells (see `replace_learnt`).
pub(crate) fn replace_learnt_spells(tome: &mut StackVector<Spell, 6>, queue: &mut Vec<Spell>, r: (Option<usize>, Option<usize>))
    requires
        old(tome).wf(),
        r.0 is Some,
        r.0->0 < old(tome)@.len(),
        r.1 matches Some(s1) ==> s1 < old(tome)@.len() && s1 != r.0->0,
    ensures
        final(tome).wf(),
        (final(tome)@, final(queue)@) == replace_learnt(
            old(tome)@,
            old(queue)@,
            (Some(r.0->0 as int), match r.1 {
                Some(s1) => Some(s1 as int),
                None => None,
            }),
        ),
{
    let s0 = r.0.unwrap();
    match r.1 {
        None => {
            tome.remove(s0);
            refill_tome(tome, queue);
        },
        Some(s1) => {
            let ghost before = tome@;
            tome.remove_multi([s0, s1]);
            proof {
                assert([s0, s1]@ =~= seq![s0, s1]);
                lemma_keep_unlisted_two(before, s0 as int, s1 as int);
            }
            refill_tome(tome, queue);
            refill_tome(tome, queue);
        },
    }
}

/// Puts one more tier-0 ingredient on each of the first `n` tome spells.
fn pay_tome_tax(tome: &mut StackVector<Spell, 6>, n: Option<usize>)
    requires
        old(tome).wf(),
        n matches Some(k) ==> k <= old(tome)@.len(),
        n matches Some(k) ==> forall|i: int| 0 <= i < k ==> #[trigger] old(tome)@[i].tax < u8::MAX,
    ensures
        final(tome).wf(),
        final(tome)@ == pay_tax(old(tome)@, match n {
            Some(k) => Some(k as int),
            None => None,
        }),
{
    if let Some(t) = n {
        let mut i: usize = 0;
        while i < t
            invariant
                i <= t,
                t <= old(tome)@.len(),
                forall|j: int| 0 <= j < t ==> #[trigger] old(tome)@[j].tax < u8::MAX,
                tome.wf(),
                tome@.len() == old(tome)@.len(),
                forall|j: int| 0 <= j < i ==> tome@[j] == tax_added(old(tome)@[j]),
                forall|j: int| i <= j < tome@.len() ==> tome@[j] == old(tome)@[j],
            decreases t - i,
        {
            let spell = tome.get_mut(i);
            spell.tax = spell.tax + 1;
            i += 1;
        }
        assert(tome@ =~= pay_tax(old(tome)@, Some(t as int)));
    }
}


pub(crate) fn removal(a: Option<usize>, b: Option<usize>) -> (r: (Option<usize>, Option<usize>))
    ensures
        ({
            let sr = removal_positions(
                match a { Some(x) => Some(x as int), None => None },
                match b { Some(x) => Some(x as int), None => None },
            );
            &&& (r.0 matches Some(x) ==> sr.0 == Some(x as int))
            &&& (r.0 is None ==> sr.0 is None)
            &&& (r.1 matches Some(x) ==> sr.1 == Some(x as int))
            &&& (r.1 is None ==> sr.1 is None)
        }),
        r.0 matches Some(x) ==> (a == Some(x) || b == Some(x)),
        r.1 matches Some(x) ==> b == Some(x) && r.0 == a && a != b,
{
    match (a, b) {
        (Some(x), Some(y)) => if x == y {
            (Some(x), None)
        } else {
            (Some(x), Some(y))
        },
        (Some(x), None) => (Some(x), None),
        (None, Some(y)) => (Some(y), None),
        (None, None) => (None, None),
    }
}

fn final_score(p: &Player) -> (r: u32)
    requires
        score(p@) <= u32::MAX,
        0 <= score(p@) - p@.rupees <= 127,
    ensures
        r == score(p@),
{
    p.rupees + (p.stock[1] as i32 + p.stock[2] as i32 + p.stock[3] as i32) as u32
}

impl WitchesBrewGame {
    /// The valid moves of player `pid` contain its recorded move.
    fn recorded_move_is_valid(&self, pid: usize) -> (v: bool)
        requires
            pid < 2,
            self.wf(),
            listed_moves(self@.counter_orders, self@.tome, self@.players[pid as int].spells, self@.players[pid as int].stock).len() <= MAX_VALID_MOVES,
        ensures
            v == move_is_valid(self@, pid as int),
    {
        let player = &self.players[pid];
        let vm = valid_moves(self.counter_orders.slice(), self.tome_spells.slice(), player.spells.slice(), &player.stock);
        move_in(vm.slice(), player.move_)
    }

    /// Applies both valid recorded moves and refills the counter and tome.
    #[verifier::rlimit(40)]
    fn apply_valid_moves(&mut self)
        requires
            old(self).wf(),
            resolution_fits(old(self)@),
        ensures
            ({
                let g = old(self)@;
                let p0 = g.players[0];
                let p1 = g.players[1];
                let counter = g.counter_orders;
                let tome = g.tome;
                let plus_3 = g.plus_3 - uses_bonus(p0, counter, 3) - uses_bonus(p1, counter, 3);
                let plus_1 = g.plus_1 - uses_bonus(p0, counter, 1) - uses_bonus(p1, counter, 1);
                let ro = removal_positions(brew_position(p0, counter), brew_position(p1, counter));
                let orders = if ro.0 is Some {
                    let r = replace_brewed(counter, g.queued_orders, ro);
                    (set_bonuses(r.0, plus_3, plus_1), r.1)
                } else {
                    (counter, g.queued_orders)
                };
                let rs = removal_positions(learn_position(p0, tome), learn_position(p1, tome));
                let spells = if rs.0 is Some {
                    let r = replace_learnt(tome, g.queued_spells, rs);
                    (pay_tax(pay_tax(r.0, learn_position(p0, tome)), learn_position(p1, tome)), r.1)
                } else {
                    (tome, g.queued_spells)
                };
                &&& final(self)@.players == seq![apply_move(p0, counter, tome), apply_move(p1, counter, tome)]
                &&& final(self)@.plus_3 == plus_3
                &&& final(self)@.plus_1 == plus_1
                &&& final(self)@.counter_orders == orders.0
                &&& final(self)@.queued_orders == orders.1
                &&& final(self)@.tome == spells.0
                &&& final(self)@.queued_spells == spells.1
                &&& final(self)@.active == g.active
                &&& final(self)@.winners == g.winners
                &&& final(self)@.turn == g.turn
                &&& final(self)@.active_player == g.active_player
            }),
            final(self).players[0].spells.wf(),
            final(self).players[1].spells.wf(),
            final(self).counter_orders.wf(),
            final(self).tome_spells.wf(),
    {
        let ghost g = old(self)@;
        proof {
            lemma_first_order_position_bounds_for(g.players[0], g.counter_orders);
            lemma_first_order_position_bounds_for(g.players[1], g.counter_orders);
            lemma_learn_position_bounds_for(g.players[0], g.tome);
            lemma_learn_position_bounds_for(g.players[1], g.tome);
        }
        let (b0, l0) = apply_player_move(
            &mut self.players[0],
            &self.counter_orders,
            &self.tome_spells,
            &mut self.plus_3_bonus_remaining,
            &mut self.plus_1_bonus_remaining,
        );
        let (b1, l1) = apply_player_move(
            &mut self.players[1],
            &self.counter_orders,
            &self.tome_spells,
            &mut self.plus_3_bonus_remaining,
            &mut self.plus_1_bonus_remaining,
        );
        let ro = removal(b0, b1);
        if ro.0.is_some() {
            replace_brewed_orders(&mut self.counter_orders, &mut self.queued_orders, ro);
            set_counter_bonuses(&mut self.counter_orders, self.plus_3_bonus_remaining, self.plus_1_bonus_remaining);
        }
        let rs = removal(l0, l1);
        if rs.0.is_some() {
            replace_learnt_spells(&mut self.tome_spells, &mut self.queued_spells, rs);
            pay_tome_tax(&mut self.tome_spells, l0);
            pay_tome_tax(&mut self.tome_spells, l1);
        }
        assert(self@.players =~= seq![apply_move(g.players[0], g.counter_orders, g.tome), apply_move(g.players[1], g.counter_orders, g.tome)]);
    }

    /// Resolves the two recorded moves (see `spec_resolve`); tells whether
    /// both were valid.
    fn resolve_turn(&mut self) -> (valid: bool)
        requires
            old(self).wf(),
            can_resolve(old(self)@),
        ensures
            valid == (move_is_valid(old(self)@, 0) && move_is_valid(old(self)@, 1)),
            final(self)@ == spec_resolve(old(self)@),
            final(self).active_player == old(self).active_player,
            final(self).players[0].spells.wf(),
            final(self).players[1].spells.wf(),
            final(self).counter_orders.wf(),
            final(self).tome_spells.wf(),
    {
        let v0 = self.recorded_move_is_valid(0);
        let v1 = self.recorded_move_is_valid(1);
        if !v0 || !v1 {
            self.active = false;
            self.winners = if !v0 && !v1 {
                Some((WinLossTie::Loss, WinLossTie::Loss))
            } else if v0 {
                Some((WinLossTie::Win, WinLossTie::Loss))
            } else {
                Some((WinLossTie::Loss, WinLossTie::Win))
            };
            assert(self@ =~= spec_resolve(old(self)@));
            return false;
        }
        let ghost g = old(self)@;
        self.apply_valid_moves();
        if self.players[0].brewed_potions_count == 3 || self.players[1].brewed_potions_count == 3 || self.turn == 100 {
            self.active = false;
            let score0 = final_score(&self.players[0]);
            let score1 = final_score(&self.players[1]);
            if score0 > score1 {
                self.winners = Some((WinLossTie::Win, WinLossTie::Loss));
            } else if score0 < score1 {
                self.winners = Some((WinLossTie::Loss, WinLossTie::Win));
            } else {
                self.winners = Some((WinLossTie::Tie, WinLossTie::Tie));
            }
        }
        self.players[0].move_ = Move::NONE;
        self.players[1].move_ = Move::NONE;
        self.turn = self.turn + 1;
        assert(self@.players =~= spec_resolve(g).players);
        assert(self@ =~= spec_resolve(g));
        true
    }
}

pub(crate) proof fn lemma_first_order_position_bounds_for(p: PlayerModel, counter: Seq<Order>)
    ensures
        brew_position(p, counter) matches Some(x) ==> 0 <= x < counter.len(),
{
    if let Move::BREW(id) = p.move_ {
        crate::witches_brew::rules::lemma_first_order_position_bounds(counter, id);
    }
}

pub(crate) proof fn lemma_learn_position_bounds_for(p: PlayerModel, tome: Seq<Spell>)
    ensures
        learn_position(p, tome) matches Some(x) ==> 0 <= x < tome.len(),
{
    if let Move::LEARN(id) = p.move_ {
        crate::witches_brew::rules::lemma_first_spell_position_bounds(tome, id);
    }
}

impl Game for WitchesBrewGame {
    open spec fn accepts(&self, msg: Seq<char>) -> bool {
        &&& self.wf()
        &&& spec_parse_move(msg) is Some
        &&& self.active_player == 1 ==> can_resolve(record_move(self@, spec_parse_move(msg)->0))
    }

    open spec fn is_active(&self) -> bool {
        self.active
    }

    open spec fn outcome(&self) -> Option<(WinLossTie, WinLossTie)> {
        self.winners
    }

    fn new() -> (g: Self)
        ensures
            g.wf(),
            initial_player(g.players[0]@),
            initial_player(g.players[1]@),
            g.counter_orders@.len() == 5,
            (g.queued_orders@ + g.counter_orders@.reverse()).to_multiset() == spec_all_orders().to_multiset(),
            g.tome_spells@.len() == 6,
            (g.queued_spells@ + g.tome_spells@.reverse()).to_multiset() == spec_tome_spells().to_multiset(),
            g.plus_3_bonus_remaining == 4,
            g.plus_1_bonus_remaining == 4,
            g.active,
            g.active_player == 0,
            g.turn == 0,
            g.winners is None,
    {
        WitchesBrewGame::new_game()
    }

    /// The input of the active witch (see `turn_lines`).
    #[verifier::rlimit(40)]
    #[verifier::spinoff_prover]
    fn turn(&self) -> (m: Option<Message>)
        ensures
            m is None <==> !self.active,
            m matches Some(msg) ==> self.wf() ==> {
                &&& msg.player_id == self.active_player
                &&& lines_of(msg.messages@) == turn_lines(self@)
            },
    {
        if !self.active {
            return None;
        }
        if !(self.active_player < 2 && self.counter_orders.len() <= 5 && self.tome_spells.len() <= 6
            && self.players[0].spells.len() <= MAX_PLAYER_SPELLS && self.players[1].spells.len()
            <= MAX_PLAYER_SPELLS) {
            // the state cannot be continued from: nothing is promised of the message
            return Some(Message { player_id: self.active_player as usize, messages: Vec::new() });
        }
        let mut out: Vec<String> = Vec::new();
        let nb_actions = self.counter_orders.len() + self.players[0].spells.len()
            + self.players[1].spells.len() + self.tome_spells.len();
        out.push(u64_to_string(nb_actions as u64));
        push_order_lines(&mut out, self.counter_orders.slice(), self.plus_3_bonus_remaining, self.plus_1_bonus_remaining);
        push_learn_lines(&mut out, self.tome_spells.slice());
        let ap = self.active_player as usize;
        let other = ((self.active_player + 1) % 2) as usize;
        let active_player = &self.players[ap];
        let other_player = &self.players[other];
        push_cast_lines(&mut out, active_player.spells.slice(), false);
        push_cast_lines(&mut out, other_player.spells.slice(), true);
        let ghost before = out@;
        out.push(stock_line_text(&active_player.stock, active_player.rupees));
        out.push(stock_line_text(&other_player.stock, other_player.rupees));
        proof {
            assert(self@.players[self@.active_player] == active_player@);
            assert(self@.players[(self@.active_player + 1) % 2] == other_player@);
            assert(lines_of(out@) =~= lines_of(before).push(stock_line(active_player@)).push(stock_line(other_player@)));
            assert(lines_of(out@) =~= turn_lines(self@));
        }
        Some(Message { player_id: self.active_player as usize, messages: out })
    }

    /// Records the move of the active witch; once both have played, resolves
    /// the turn (see `spec_play`).
    fn play(&mut self, msg: String)
        ensures
            final(self)@ == spec_play(old(self)@, spec_parse_move(msg@)->0),
    {
        let parsed = parse_move(msg.as_str());
        let m = parsed.unwrap();
        let ghost g = old(self)@;
        if self.active_player == 0 {
            self.players[0].move_ = m;
        } else {
            self.players[1].move_ = m;
        }
        assert(self@ =~= record_move(g, m));
        if self.active_player == 1 {
            let valid = self.resolve_turn();
            if !valid {
                return;
            }
        }
        self.active_player = (self.active_player + 1) % 2;
        assert(self@ =~= spec_play(g, m));
    }

    fn winners(&self) -> (w: Option<Vec<WinLossTie>>) {
        match self.winners {
            Some(w) => Some(vec![w.0, w.1]),
            None => None,
        }
    }

    fn end_game(&mut self, players_status: Vec<WinLossTie>)
        ensures
            final(self)@ == (GameModel {
                active: false,
                winners: Some((players_status@[0], players_status@[1])),
                ..old(self)@
            }),
    {
        self.active = false;
        self.winners = Some((players_status[0], players_status[1]));
    }
}

} // verus!
