//! What a searching witch reads at each turn: the spells and orders in
//! play and the two stocks, turned into the state its search starts from;
//! and the move it picks, turned back into the ids of the game.
use vstd::prelude::*;
use crate::stack_vector::StackVector;
use crate::text::{line_field, nth_piece, trim, read_field, trimmed_piece_bounds, str_chars};
use crate::witches_brew::cache::{Cache, in_table};
use crate::witches_brew::rules::{
    Ingredients, Move, Order, Spell, MAX_PLAYER_SPELLS, spec_all_orders, spec_tome_spells, spec_basic_spells,
    first_order_with_recipe, first_spell_with_recipe, find_order, find_spell,
};
use crate::witches_brew::game::{PlayerModel, with_bonus};
use crate::witches_brew::player::{Player, known_spells, known_orders};
use crate::witches_brew::cache::{EXISTING_SPELL_COUNT, EXISTING_ORDER_COUNT, all_spells, lemma_all_spells_consistent};

verus! {

/// The kind of an entity line.
#[derive(Clone, Copy, PartialEq, Eq, Debug, Structural)]
pub enum ActionKind {
    Brew,
    Cast,
    OpponentCast,
    Learn,
    Other,
}

/// An entity line: `id type d0 d1 d2 d3 price tome_index tax_count
/// castable repeatable`.
#[derive(Clone, Copy, Debug)]
pub struct ActionLine {
    pub action_id: u32,
    pub kind: ActionKind,
    pub deltas: Ingredients,
    pub price: u8,
    /// For a tome spell its place (the tax to learn it); for an order the
    /// bonus it carries.
    pub tome_index: i32,
    /// For a tome spell the ingredients put on it; for an order how many
    /// bonuses of that kind are left.
    pub tax_count: i32,
    pub castable: i32,
    pub repeatable: i32,
}

pub open spec fn opponent_cast_word() -> Seq<char> {
    seq!['O', 'P', 'P', 'O', 'N', 'E', 'N', 'T', '_', 'C', 'A', 'S', 'T']
}

/// The kind a type word names.
pub open spec fn kind_of(word: Seq<char>) -> ActionKind {
    if word == seq!['B', 'R', 'E', 'W'] {
        ActionKind::Brew
    } else if word == seq!['C', 'A', 'S', 'T'] {
        ActionKind::Cast
    } else if word == opponent_cast_word() {
        ActionKind::OpponentCast
    } else if word == seq!['L', 'E', 'A', 'R', 'N'] {
        ActionKind::Learn
    } else {
        ActionKind::Other
    }
}

pub open spec fn i32_field(line: Seq<char>, k: nat) -> Option<int> {
    line_field(line, k, i32::MIN as int, i32::MAX as int)
}

pub open spec fn i8_field(line: Seq<char>, k: nat) -> Option<int> {
    line_field(line, k, i8::MIN as int, i8::MAX as int)
}

/// Reads an entity line: every number must read as its type and the type
/// word must be there.
pub open spec fn spec_action_line(line: Seq<char>) -> Option<ActionLine> {
    let id = line_field(line, 0, 0, u32::MAX as int);
    let word = nth_piece(line, ' ', 1);
    let d0 = i8_field(line, 2);
    let d1 = i8_field(line, 3);
    let d2 = i8_field(line, 4);
    let d3 = i8_field(line, 5);
    let price = line_field(line, 6, 0, u8::MAX as int);
    let ti = i32_field(line, 7);
    let tc = i32_field(line, 8);
    let ca = i32_field(line, 9);
    let re = i32_field(line, 10);
    if id is Some && word is Some && d0 is Some && d1 is Some && d2 is Some && d3 is Some && price is Some
        && ti is Some && tc is Some && ca is Some && re is Some {
        Some(
            ActionLine {
                action_id: id->0 as u32,
                kind: kind_of(trim(word->0)),
                deltas: [d0->0 as i8, d1->0 as i8, d2->0 as i8, d3->0 as i8],
                price: price->0 as u8,
                tome_index: ti->0 as i32,
                tax_count: tc->0 as i32,
                castable: ca->0 as i32,
                repeatable: re->0 as i32,
            },
        )
    } else {
        None
    }
}

fn word_is(cs: &[char], b: (usize, usize), expected: &[char]) -> (r: bool)
    requires
        b.0 <= b.1 <= cs@.len(),
    ensures
        r == (cs@.subrange(b.0 as int, b.1 as int) == expected@),
{
    if b.1 - b.0 != expected.len() {
        return false;
    }
    let r = crate::text::chars_equal(cs, b.0, expected);
    r
}

/// Reads an entity line (see `spec_action_line`).
pub fn action_line(line: &str) -> (r: Option<ActionLine>)
    ensures
        r == spec_action_line(line@),
{
    let cs = str_chars(line);
    let id = read_field(cs.as_slice(), 0, 0, u32::MAX as i64);
    let word = trimmed_piece_bounds(cs.as_slice(), 1);
    let d0 = read_field(cs.as_slice(), 2, i8::MIN as i64, i8::MAX as i64);
    let d1 = read_field(cs.as_slice(), 3, i8::MIN as i64, i8::MAX as i64);
    let d2 = read_field(cs.as_slice(), 4, i8::MIN as i64, i8::MAX as i64);
    let d3 = read_field(cs.as_slice(), 5, i8::MIN as i64, i8::MAX as i64);
    let price = read_field(cs.as_slice(), 6, 0, u8::MAX as i64);
    let ti = read_field(cs.as_slice(), 7, i32::MIN as i64, i32::MAX as i64);
    let tc = read_field(cs.as_slice(), 8, i32::MIN as i64, i32::MAX as i64);
    let ca = read_field(cs.as_slice(), 9, i32::MIN as i64, i32::MAX as i64);
    let re = read_field(cs.as_slice(), 10, i32::MIN as i64, i32::MAX as i64);
    match (id, word, d0, d1, d2, d3, price, ti, tc, ca, re) {
        (Some(id), Some(b), Some(d0), Some(d1), Some(d2), Some(d3), Some(price), Some(ti), Some(tc), Some(ca), Some(re)) => {
            let brew: [char; 4] = ['B', 'R', 'E', 'W'];
            let cast: [char; 4] = ['C', 'A', 'S', 'T'];
            let opponent_cast: [char; 13] = ['O', 'P', 'P', 'O', 'N', 'E', 'N', 'T', '_', 'C', 'A', 'S', 'T'];
            let learn: [char; 5] = ['L', 'E', 'A', 'R', 'N'];
            assert(brew@ =~= seq!['B', 'R', 'E', 'W']);
            assert(cast@ =~= seq!['C', 'A', 'S', 'T']);
            assert(opponent_cast@ =~= opponent_cast_word());
            assert(learn@ =~= seq!['L', 'E', 'A', 'R', 'N']);
            let kind = if word_is(cs.as_slice(), b, &brew) {
                ActionKind::Brew
            } else if word_is(cs.as_slice(), b, &cast) {
                ActionKind::Cast
            } else if word_is(cs.as_slice(), b, &opponent_cast) {
                ActionKind::OpponentCast
            } else if word_is(cs.as_slice(), b, &learn) {
                ActionKind::Learn
            } else {
                ActionKind::Other
            };
            let a = ActionLine {
                action_id: id as u32,
                kind,
                deltas: [d0 as i8, d1 as i8, d2 as i8, d3 as i8],
                price: price as u8,
                tome_index: ti as i32,
                tax_count: tc as i32,
                castable: ca as i32,
                repeatable: re as i32,
            };
            proof {
                let s = spec_action_line(line@)->0;
                assert(a.deltas =~= s.deltas);
            }
            Some(a)
        },
        _ => None,
    }
}

/// What the entity lines of a turn give, read so far.
#[verifier::ext_equal]
pub struct EntitiesModel {
    pub my_spells: Seq<Spell>,
    pub opponent_spells: Seq<Spell>,
    pub counter: Seq<Order>,
    pub tome: Seq<Spell>,
    pub plus_3: u8,
    pub plus_1: u8,
    /// The game's id of each order, by its own id, in the order read.
    pub order_ids: Seq<(u32, u32)>,
    /// The game's id of each spell of the reading witch or of the tome.
    pub spell_ids: Seq<(u32, u32)>,
    /// The game's id of each spell of the reading witch.
    pub cast_ids: Seq<(u32, u32)>,
    /// The game's id of each spell of the tome.
    pub learn_ids: Seq<(u32, u32)>,
}

pub open spec fn no_entities() -> EntitiesModel {
    EntitiesModel {
        my_spells: Seq::empty(),
        opponent_spells: Seq::empty(),
        counter: Seq::empty(),
        tome: Seq::empty(),
        plus_3: 0,
        plus_1: 0,
        order_ids: Seq::empty(),
        spell_ids: Seq::empty(),
        cast_ids: Seq::empty(),
        learn_ids: Seq::empty(),
    }
}

/// The spell of the game with the given recipe, tome spells first.
pub open spec fn spell_of(recipe: Ingredients) -> Option<Spell> {
    first_spell_with_recipe(spec_tome_spells() + spec_basic_spells(), recipe)
}

/// One more entity line read: an order goes on the counter (with the bonus
/// it carries, which also sets how many such bonuses are left), a spell to
/// its witch (exhausted when it cannot be cast) or to the tome (with its
/// tax). `None` when the recipe is not one of the game or there is no room
/// left.
pub open spec fn read_action(e: EntitiesModel, a: ActionLine) -> Option<EntitiesModel> {
    match a.kind {
        ActionKind::Brew => match first_order_with_recipe(spec_all_orders(), a.deltas) {
            Some(o) => if e.counter.len() >= 5 {
                None
            } else {
                let entered = EntitiesModel { order_ids: e.order_ids.push((o.id, a.action_id)), ..e };
                if a.tome_index == 3 {
                    Some(EntitiesModel { counter: e.counter.push(with_bonus(o, 3)), plus_3: a.tax_count as u8, ..entered })
                } else if a.tome_index == 1 {
                    Some(EntitiesModel { counter: e.counter.push(with_bonus(o, 1)), plus_1: a.tax_count as u8, ..entered })
                } else {
                    Some(EntitiesModel { counter: e.counter.push(o), ..entered })
                }
            },
            None => None,
        },
        ActionKind::Cast => match spell_of(a.deltas) {
            Some(sp) => if e.my_spells.len() >= MAX_PLAYER_SPELLS {
                None
            } else {
                Some(
                    EntitiesModel {
                        my_spells: e.my_spells.push(if a.castable == 0 { Spell { active: false, ..sp } } else { sp }),
                        spell_ids: e.spell_ids.push((sp.id, a.action_id)),
                        cast_ids: e.cast_ids.push((sp.id, a.action_id)),
                        ..e
                    },
                )
            },
            None => None,
        },
        ActionKind::OpponentCast => match spell_of(a.deltas) {
            Some(sp) => if e.opponent_spells.len() >= MAX_PLAYER_SPELLS {
                None
            } else {
                Some(
                    EntitiesModel {
                        opponent_spells: e.opponent_spells.push(
                            if a.castable == 0 {
                                Spell { active: false, ..sp }
                            } else {
                                sp
                            },
                        ),
                        ..e
                    },
                )
            },
            None => None,
        },
        ActionKind::Learn => match spell_of(a.deltas) {
            Some(sp) => if e.tome.len() >= 6 {
                None
            } else {
                Some(
                    EntitiesModel {
                        tome: e.tome.push(Spell { tax: a.tax_count as u8, ..sp }),
                        spell_ids: e.spell_ids.push((sp.id, a.action_id)),
                        learn_ids: e.learn_ids.push((sp.id, a.action_id)),
                        ..e
                    },
                )
            },
            None => None,
        },
        ActionKind::Other => Some(e),
    }
}

/// All entity lines of a turn read, in order.
pub open spec fn read_actions(actions: Seq<ActionLine>) -> Option<EntitiesModel>
    decreases actions.len(),
{
    if actions.len() == 0 {
        Some(no_entities())
    } else {
        match read_actions(actions.drop_last()) {
            Some(e) => read_action(e, actions.last()),
            None => None,
        }
    }
}

/// The entities of a turn.
pub struct TurnEntities {
    pub my_spells: StackVector<Spell, MAX_PLAYER_SPELLS>,
    pub opponent_spells: StackVector<Spell, MAX_PLAYER_SPELLS>,
    pub counter_orders: StackVector<Order, 5>,
    pub tome_spells: StackVector<Spell, 6>,
    pub plus_3_bonus_remaining: u8,
    pub plus_1_bonus_remaining: u8,
    pub order_ids: Vec<(u32, u32)>,
    pub spell_ids: Vec<(u32, u32)>,
    pub cast_ids: Vec<(u32, u32)>,
    pub learn_ids: Vec<(u32, u32)>,
}

impl View for TurnEntities {
    type V = EntitiesModel;

    open spec fn view(&self) -> EntitiesModel {
        EntitiesModel {
            my_spells: self.my_spells@,
            opponent_spells: self.opponent_spells@,
            counter: self.counter_orders@,
            tome: self.tome_spells@,
            plus_3: self.plus_3_bonus_remaining,
            plus_1: self.plus_1_bonus_remaining,
            order_ids: self.order_ids@,
            spell_ids: self.spell_ids@,
            cast_ids: self.cast_ids@,
            learn_ids: self.learn_ids@,
        }
    }
}

impl TurnEntities {
    pub open spec fn wf(&self) -> bool {
        &&& self.my_spells.wf()
        &&& self.opponent_spells.wf()
        &&& self.counter_orders.wf()
        &&& self.tome_spells.wf()
    }
}

/// Reads the entity lines of a turn (see `read_actions`).
pub fn read_entities(actions: &[ActionLine]) -> (r: Option<TurnEntities>)
    ensures
        match r {
            Some(e) => e.wf() && read_actions(actions@) == Some(e@),
            None => read_actions(actions@) is None,
        },
{
    let mut e = TurnEntities {
        my_spells: StackVector::new(),
        opponent_spells: StackVector::new(),
        counter_orders: StackVector::new(),
        tome_spells: StackVector::new(),
        plus_3_bonus_remaining: 0,
        plus_1_bonus_remaining: 0,
        order_ids: Vec::new(),
        spell_ids: Vec::new(),
        cast_ids: Vec::new(),
        learn_ids: Vec::new(),
    };
    assert(e@ =~= no_entities());
    let mut i: usize = 0;
    while i < actions.len()
        invariant
            i <= actions@.len(),
            e.wf(),
            read_actions(actions@.take(i as int)) == Some(e@),
        decreases actions@.len() - i,
    {
        let a = actions[i];
        assert(actions@.take(i + 1).drop_last() =~= actions@.take(i as int));
        assert(actions@.take(i + 1).last() == a);
        let ghost before = e@;
        match a.kind {
            ActionKind::Brew => {
                match find_order(&a.deltas) {
                    Some(o) => {
                        if e.counter_orders.len() >= 5 {
                            proof {
                                lemma_read_actions_stuck(actions@, i as int);
                            }
                            return None;
                        }
                        e.order_ids.push((o.id, a.action_id));
                        if a.tome_index == 3 {
                            e.plus_3_bonus_remaining = a.tax_count as u8;
                            e.counter_orders.add(Order { bonus: 3, ..o });
                        } else if a.tome_index == 1 {
                            e.plus_1_bonus_remaining = a.tax_count as u8;
                            e.counter_orders.add(Order { bonus: 1, ..o });
                        } else {
                            e.counter_orders.add(o);
                        }
                    },
                    None => {
                        proof {
                            lemma_read_actions_stuck(actions@, i as int);
                        }
                        return None;
                    },
                }
            },
            ActionKind::Cast | ActionKind::OpponentCast => {
                match find_spell(&a.deltas) {
                    Some(sp) => {
                        let spell = if a.castable == 0 {
                            Spell { active: false, ..sp }
                        } else {
                            sp
                        };
                        if a.kind == ActionKind::Cast {
                            if e.my_spells.len() >= MAX_PLAYER_SPELLS {
                                proof {
                                    lemma_read_actions_stuck(actions@, i as int);
                                }
                                return None;
                            }
                            e.spell_ids.push((sp.id, a.action_id));
                            e.cast_ids.push((sp.id, a.action_id));
                            e.my_spells.add(spell);
                        } else {
                            if e.opponent_spells.len() >= MAX_PLAYER_SPELLS {
                                proof {
                                    lemma_read_actions_stuck(actions@, i as int);
                                }
                                return None;
                            }
                            e.opponent_spells.add(spell);
                        }
                    },
                    None => {
                        proof {
                            lemma_read_actions_stuck(actions@, i as int);
                        }
                        return None;
                    },
                }
            },
            ActionKind::Learn => {
                match find_spell(&a.deltas) {
                    Some(sp) => {
                        if e.tome_spells.len() >= 6 {
                            proof {
                                lemma_read_actions_stuck(actions@, i as int);
                            }
                            return None;
                        }
                        e.spell_ids.push((sp.id, a.action_id));
                        e.learn_ids.push((sp.id, a.action_id));
                        e.tome_spells.add(Spell { tax: a.tax_count as u8, ..sp });
                    },
                    None => {
                        proof {
                            lemma_read_actions_stuck(actions@, i as int);
                        }
                        return None;
                    },
                }
            },
            ActionKind::Other => {},
        }
        assert(e@ =~= read_action(before, a)->0);
        i += 1;
    }
    assert(actions@.take(actions@.len() as int) =~= actions@);
    Some(e)
}

/// Once a line cannot be read, the turn cannot be read.
proof fn lemma_read_actions_stuck(actions: Seq<ActionLine>, i: int)
    requires
        0 <= i < actions.len(),
        read_actions(actions.take(i)) matches Some(e) && read_action(e, actions[i]) is None,
    ensures
        read_actions(actions) is None,
    decreases actions.len(),
{
    if i < actions.len() - 1 {
        assert(actions.drop_last().take(i) =~= actions.take(i));
        lemma_read_actions_stuck(actions.drop_last(), i);
    } else {
        assert(actions.take(i) =~= actions.drop_last());
    }
}

/// A stock line: `inv0 inv1 inv2 inv3 score`.
pub open spec fn spec_inventory_line(line: Seq<char>) -> Option<(Ingredients, u32)> {
    let a = i8_field(line, 0);
    let b = i8_field(line, 1);
    let c = i8_field(line, 2);
    let d = i8_field(line, 3);
    let s = line_field(line, 4, 0, u32::MAX as int);
    if a is Some && b is Some && c is Some && d is Some && s is Some {
        Some(([a->0 as i8, b->0 as i8, c->0 as i8, d->0 as i8], s->0 as u32))
    } else {
        None
    }
}

pub fn inventory_line(line: &str) -> (r: Option<(Ingredients, u32)>)
    ensures
        r == spec_inventory_line(line@),
{
    let cs = str_chars(line);
    let a = read_field(cs.as_slice(), 0, i8::MIN as i64, i8::MAX as i64);
    let b = read_field(cs.as_slice(), 1, i8::MIN as i64, i8::MAX as i64);
    let c = read_field(cs.as_slice(), 2, i8::MIN as i64, i8::MAX as i64);
    let d = read_field(cs.as_slice(), 3, i8::MIN as i64, i8::MAX as i64);
    let s = read_field(cs.as_slice(), 4, 0, u32::MAX as i64);
    match (a, b, c, d, s) {
        (Some(a), Some(b), Some(c), Some(d), Some(s)) => {
            let r: (Ingredients, u32) = ([a as i8, b as i8, c as i8, d as i8], s as u32);
            assert(r == spec_inventory_line(line@)->0);
            Some(r)
        },
        _ => None,
    }
}

/// A witch of the turn: its spells, stock and rupees, and the potions it
/// has brewed, counted as one more each turn its rupees went up.
pub fn witch_of_turn(
    spells: StackVector<Spell, MAX_PLAYER_SPELLS>,
    stock: Ingredients,
    rupees: u32,
    previous_rupees: u32,
    brewed_so_far: u8,
    cache: &Cache,
) -> (r: (Player, u8))
    requires
        cache.wf(),
        in_table(stock),
        rupees > previous_rupees ==> brewed_so_far < u8::MAX,
    ensures
        r.1 == if rupees > previous_rupees {
            brewed_so_far + 1
        } else {
            brewed_so_far as int
        },
        r.0@ == (PlayerModel {
            move_: Move::NONE,
            stock,
            spells: spells@,
            rupees: rupees as int,
            brewed: r.1 as int,
        }),
        r.0.stock_id == cache.stock_id(stock),
        r.0.spells.wf() == spells.wf(),
{
    let brewed = if rupees > previous_rupees {
        brewed_so_far + 1
    } else {
        brewed_so_far
    };
    let stock_id = cache.getStockId(&stock);
    (Player { move_: Move::NONE, stock, stock_id, spells, rupees, brewed_potions_count: brewed }, brewed)
}

/// The game's id for `k`: the last one entered for it.
pub open spec fn id_lookup(pairs: Seq<(u32, u32)>, k: u32) -> Option<u32>
    decreases pairs.len(),
{
    if pairs.len() == 0 {
        None
    } else if pairs.last().0 == k {
        Some(pairs.last().1)
    } else {
        id_lookup(pairs.drop_last(), k)
    }
}

fn find_id(pairs: &[(u32, u32)], k: u32) -> (r: Option<u32>)
    ensures
        r == id_lookup(pairs@, k),
{
    let mut i = pairs.len();
    assert(pairs@.take(pairs@.len() as int) =~= pairs@);
    while i > 0
        invariant
            i <= pairs@.len(),
            id_lookup(pairs@, k) == id_lookup(pairs@.take(i as int), k),
        decreases i,
    {
        assert(pairs@.take(i as int).drop_last() =~= pairs@.take(i - 1));
        if pairs[i - 1].0 == k {
            return Some(pairs[i - 1].1);
        }
        i -= 1;
    }
    None
}

/// The move with the game's ids in place of the orders' and spells' own,
/// a cast looked up among the witch's spells and a learning among the tome
/// spells.
pub open spec fn spec_codingame_move_apart(
    m: Move,
    order_ids: Seq<(u32, u32)>,
    cast_ids: Seq<(u32, u32)>,
    learn_ids: Seq<(u32, u32)>,
) -> Option<Move> {
    match m {
        Move::BREW(_) => spec_codingame_move(m, order_ids, Seq::empty()),
        Move::CAST(_, _) => spec_codingame_move(m, order_ids, cast_ids),
        Move::LEARN(_) => spec_codingame_move(m, order_ids, learn_ids),
        _ => Some(m),
    }
}

/// The move with the game's ids in place of the orders' and spells' own.
pub open spec fn spec_codingame_move(m: Move, order_ids: Seq<(u32, u32)>, spell_ids: Seq<(u32, u32)>) -> Option<Move> {
    match m {
        Move::BREW(o) => match id_lookup(order_ids, o) {
            Some(x) => Some(Move::BREW(x)),
            None => None,
        },
        Move::CAST(s, t) => match id_lookup(spell_ids, s) {
            Some(x) => Some(Move::CAST(x, t)),
            None => None,
        },
        Move::LEARN(s) => match id_lookup(spell_ids, s) {
            Some(x) => Some(Move::LEARN(x)),
            None => None,
        },
        _ => Some(m),
    }
}

/// The move with the game's ids, casts and learnings looked up apart (see
/// `spec_codingame_move_apart`).
pub fn to_codingame_move_apart(m: Move, order_ids: &[(u32, u32)], cast_ids: &[(u32, u32)], learn_ids: &[(u32, u32)]) -> (r:
    Option<Move>)
    ensures
        r == spec_codingame_move_apart(m, order_ids@, cast_ids@, learn_ids@),
{
    match m {
        Move::BREW(_) => {
            let r = to_codingame_move(m, order_ids, &[]);
            proof {
                let e: [(u32, u32); 0] = [];
                assert(e@ =~= Seq::<(u32, u32)>::empty());
            }
            r
        },
        Move::CAST(_, _) => to_codingame_move(m, order_ids, cast_ids),
        Move::LEARN(_) => to_codingame_move(m, order_ids, learn_ids),
        _ => Some(m),
    }
}

/// The move with the game's ids (see `spec_codingame_move`).
pub fn to_codingame_move(m: Move, order_ids: &[(u32, u32)], spell_ids: &[(u32, u32)]) -> (r: Option<Move>)
    ensures
        r == spec_codingame_move(m, order_ids@, spell_ids@),
{
    match m {
        Move::BREW(o) => match find_id(order_ids, o) {
            Some(x) => Some(Move::BREW(x)),
            None => None,
        },
        Move::CAST(s, t) => match find_id(spell_ids, s) {
            Some(x) => Some(Move::CAST(x, t)),
            None => None,
        },
        Move::LEARN(s) => match find_id(spell_ids, s) {
            Some(x) => Some(Move::LEARN(x)),
            None => None,
        },
        _ => Some(m),
    }
}


proof fn lemma_first_order_in(orders: Seq<Order>, recipe: Ingredients)
    ensures
        first_order_with_recipe(orders, recipe) matches Some(o) ==> orders.contains(o),
    decreases orders.len(),
{
    if orders.len() > 0 && orders[0].recipe != recipe {
        lemma_first_order_in(orders.drop_first(), recipe);
        if let Some(o) = first_order_with_recipe(orders.drop_first(), recipe) {
            let j = choose|j: int| 0 <= j < orders.drop_first().len() && orders.drop_first()[j] == o;
            assert(orders[j + 1] == o);
        }
    }
}

proof fn lemma_first_spell_in(spells: Seq<Spell>, recipe: Ingredients)
    ensures
        first_spell_with_recipe(spells, recipe) matches Some(sp) ==> spells.contains(sp),
    decreases spells.len(),
{
    if spells.len() > 0 && spells[0].recipe != recipe {
        lemma_first_spell_in(spells.drop_first(), recipe);
        if let Some(sp) = first_spell_with_recipe(spells.drop_first(), recipe) {
            let j = choose|j: int| 0 <= j < spells.drop_first().len() && spells.drop_first()[j] == sp;
            assert(spells[j + 1] == sp);
        }
    }
}

/// The orders and spells read from the entity lines are orders and spells
/// of the game.
pub proof fn lemma_entities_known(actions: Seq<ActionLine>)
    ensures
        read_actions(actions) matches Some(e) ==> {
            &&& known_spells(e.my_spells)
            &&& known_spells(e.opponent_spells)
            &&& known_orders(e.counter)
            &&& known_spells(e.tome)
        },
    decreases actions.len(),
{
    if actions.len() > 0 {
        lemma_entities_known(actions.drop_last());
        if let Some(e) = read_actions(actions.drop_last()) {
            let a = actions.last();
            lemma_first_order_in(spec_all_orders(), a.deltas);
            lemma_first_spell_in(spec_tome_spells() + spec_basic_spells(), a.deltas);
            lemma_all_spells_consistent();
            if let Some(o) = first_order_with_recipe(spec_all_orders(), a.deltas) {
                let j = choose|j: int| 0 <= j < spec_all_orders().len() && spec_all_orders()[j] == o;
                assert(o.id < EXISTING_ORDER_COUNT);
            }
            if let Some(sp) = spell_of(a.deltas) {
                let j = choose|j: int| 0 <= j < all_spells().len() && all_spells()[j] == sp;
                assert(sp.id < EXISTING_SPELL_COUNT);
            }
            if let Some(e2) = read_action(e, a) {
                assert(known_spells(e2.my_spells)) by {
                    assert forall|i: int| 0 <= i < e2.my_spells.len() implies (#[trigger] e2.my_spells[i]).id < EXISTING_SPELL_COUNT by {
                        if i < e.my_spells.len() {
                            assert(e2.my_spells[i] == e.my_spells[i]);
                        }
                    }
                }
                assert(known_spells(e2.opponent_spells)) by {
                    assert forall|i: int| 0 <= i < e2.opponent_spells.len() implies (#[trigger] e2.opponent_spells[i]).id < EXISTING_SPELL_COUNT by {
                        if i < e.opponent_spells.len() {
                            assert(e2.opponent_spells[i] == e.opponent_spells[i]);
                        }
                    }
                }
                assert(known_orders(e2.counter)) by {
                    assert forall|i: int| 0 <= i < e2.counter.len() implies (#[trigger] e2.counter[i]).id < EXISTING_ORDER_COUNT by {
                        if i < e.counter.len() {
                            assert(e2.counter[i] == e.counter[i]);
                        }
                    }
                }
                assert(known_spells(e2.tome)) by {
                    assert forall|i: int| 0 <= i < e2.tome.len() implies (#[trigger] e2.tome[i]).id < EXISTING_SPELL_COUNT by {
                        if i < e.tome.len() {
                            assert(e2.tome[i] == e.tome[i]);
                        }
                    }
                }
            }
        }
    }
}

} // verus!
