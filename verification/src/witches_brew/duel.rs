//! A lighter model of the potion game for a tree search: two witches with
//! four spells each, five order places and no tome. Both moves of a turn
//! are recorded, then played together; three potions (or turn 100) end
//! the game.
use vstd::prelude::*;
use crate::game::WinLossTie;
use crate::random::random_element;
use crate::stack_vector::StackVector;
use crate::text::{decimal, push_u64};
use crate::witches_brew::protocol::push_chars;
use crate::witches_brew::turn_input::{ActionKind, ActionLine};

verus! {

pub type Ingredients = [i8; 4];

#[derive(Copy, Clone, PartialEq, Eq, Debug, Structural)]
pub enum Move {
    NONE,
    WAIT,
    REST,
    BREW(u32),
    CAST(u32),
}

/// An order: `ingredients` holds minus what it takes, `delta_stock` their
/// sum.
#[derive(Copy, Clone, Debug)]
pub struct Order {
    pub id: u32,
    pub ingredients: Ingredients,
    pub delta_stock: i8,
    pub price: u8,
}

/// A spell: casting it adds `ingredients` (of sum `delta_stock`).
#[derive(Copy, Clone, Debug)]
pub struct Spell {
    pub id: u32,
    pub ingredients: Ingredients,
    pub delta_stock: i8,
    pub active: bool,
}

pub open spec fn default_spell() -> Spell {
    Spell { id: 0, ingredients: [0i8, 0i8, 0i8, 0i8], delta_stock: 0, active: false }
}

impl Default for Spell {
    fn default() -> (sp: Self)
        ensures
            sp == default_spell(),
    {
        Spell { id: 0, ingredients: [0, 0, 0, 0], delta_stock: 0, active: false }
    }
}

#[derive(Copy, Clone)]
pub struct Player {
    /// The move recorded for the turn.
    pub move_: Move,
    pub stock: Ingredients,
    pub empty_slots: i8,
    pub spells: [Spell; 4],
    pub rupees: u32,
    pub brewed_potions_count: u8,
}

#[derive(Copy, Clone)]
pub struct State {
    pub players: [Player; 2],
    pub orders: [Option<Order>; 5],
    pub active: bool,
    pub active_player: u8,
    pub turn: u8,
    pub winners: Option<(WinLossTie, WinLossTie)>,
}

/// A witch as the rules see it.
pub struct WitchModel {
    pub move_: Move,
    pub stock: Ingredients,
    pub empty_slots: i8,
    pub spells: Seq<Spell>,
    pub rupees: u32,
    pub brewed: u8,
}

impl View for Player {
    type V = WitchModel;

    open spec fn view(&self) -> WitchModel {
        WitchModel {
            move_: self.move_,
            stock: self.stock,
            empty_slots: self.empty_slots,
            spells: self.spells@,
            rupees: self.rupees,
            brewed: self.brewed_potions_count,
        }
    }
}

/// The game as the rules see it.
#[verifier::ext_equal]
pub struct DuelModel {
    pub players: Seq<WitchModel>,
    pub orders: Seq<Option<Order>>,
    pub active: bool,
    pub active_player: u8,
    pub turn: u8,
    pub winners: Option<(WinLossTie, WinLossTie)>,
}

impl View for State {
    type V = DuelModel;

    open spec fn view(&self) -> DuelModel {
        DuelModel {
            players: self.players@.map_values(|p: Player| p@),
            orders: self.orders@,
            active: self.active,
            active_player: self.active_player,
            turn: self.turn,
            winners: self.winners,
        }
    }
}

/// The text of a move.
pub open spec fn duel_move_text(m: Move) -> Seq<char> {
    match m {
        Move::NONE => seq!['N', 'o', 'n', 'e'],
        Move::WAIT => seq!['W', 'A', 'I', 'T'],
        Move::REST => seq!['R', 'E', 'S', 'T'],
        Move::BREW(i) => seq!['B', 'R', 'E', 'W', ' '] + decimal(i as nat),
        Move::CAST(i) => seq!['C', 'A', 'S', 'T', ' '] + decimal(i as nat),
    }
}

impl Move {
    pub fn to_string(&self) -> (s: String)
        ensures
            s@ == duel_move_text(*self),
    {
        let mut s = String::new();
        match *self {
            Move::NONE => push_chars(&mut s, &['N', 'o', 'n', 'e']),
            Move::WAIT => push_chars(&mut s, &['W', 'A', 'I', 'T']),
            Move::REST => push_chars(&mut s, &['R', 'E', 'S', 'T']),
            Move::BREW(i) => {
                push_chars(&mut s, &['B', 'R', 'E', 'W', ' ']);
                push_u64(&mut s, i as u64);
            },
            Move::CAST(i) => {
                push_chars(&mut s, &['C', 'A', 'S', 'T', ' ']);
                push_u64(&mut s, i as u64);
            },
        }
        s
    }
}

/// The game before any input: no order, two witches with ten empty
/// slots and four blank spells, player 0 to move.
pub open spec fn new_witch() -> WitchModel {
    WitchModel {
        move_: Move::NONE,
        stock: [0i8, 0i8, 0i8, 0i8],
        empty_slots: 10,
        spells: seq![default_spell(), default_spell(), default_spell(), default_spell()],
        rupees: 0,
        brewed: 0,
    }
}

pub open spec fn new_duel() -> DuelModel {
    DuelModel {
        players: seq![new_witch(), new_witch()],
        orders: seq![None, None, None, None, None],
        active: true,
        active_player: 0,
        turn: 0,
        winners: None,
    }
}

pub fn new() -> (s: State)
    ensures
        s@ == new_duel(),
{
    let player = Player {
        move_: Move::NONE,
        stock: [0, 0, 0, 0],
        empty_slots: 10,
        spells: [Spell::default(), Spell::default(), Spell::default(), Spell::default()],
        rupees: 0,
        brewed_potions_count: 0,
    };
    let s = State {
        players: [player, player],
        orders: [None, None, None, None, None],
        active: true,
        active_player: 0,
        turn: 0,
        winners: None,
    };
    assert(s.players[0].spells@ =~= new_witch().spells);
    assert(s@.players =~= new_duel().players);
    assert(s@.orders =~= new_duel().orders);
    s
}

/// The place of the first order with the given id, from place `i` on.
pub open spec fn order_index_from(orders: Seq<Option<Order>>, id: u32, i: int) -> Option<int>
    decreases orders.len() - i,
{
    if i < 0 || i >= orders.len() {
        None
    } else if orders[i] matches Some(o) && o.id == id {
        Some(i)
    } else {
        order_index_from(orders, id, i + 1)
    }
}

pub open spec fn order_index(orders: Seq<Option<Order>>, id: u32) -> Option<int> {
    order_index_from(orders, id, 0)
}

/// The place of the first spell with the given id, from place `i` on.
pub open spec fn spell_index_from(spells: Seq<Spell>, id: u32, i: int) -> Option<int>
    decreases spells.len() - i,
{
    if i < 0 || i >= spells.len() {
        None
    } else if spells[i].id == id {
        Some(i)
    } else {
        spell_index_from(spells, id, i + 1)
    }
}

pub open spec fn spell_index(spells: Seq<Spell>, id: u32) -> Option<int> {
    spell_index_from(spells, id, 0)
}

proof fn lemma_order_index_from_bounds(orders: Seq<Option<Order>>, id: u32, i: int)
    ensures
        order_index_from(orders, id, i) matches Some(k) ==> (i <= k < orders.len() && (orders[k] matches Some(o)
            && o.id == id)),
    decreases orders.len() - i,
{
    if 0 <= i < orders.len() {
        lemma_order_index_from_bounds(orders, id, i + 1);
    }
}

proof fn lemma_spell_index_from_bounds(spells: Seq<Spell>, id: u32, i: int)
    ensures
        spell_index_from(spells, id, i) matches Some(k) ==> i <= k < spells.len() && spells[k].id == id,
    decreases spells.len() - i,
{
    if 0 <= i < spells.len() {
        lemma_spell_index_from_bounds(spells, id, i + 1);
    }
}

/// The place of the first order with the given id (see `order_index`).
pub fn get_order_idx(orders: &[Option<Order>; 5], order_id: u32) -> (r: Option<usize>)
    ensures
        match r {
            Some(i) => order_index(orders@, order_id) == Some(i as int),
            None => order_index(orders@, order_id) is None,
        },
{
    let mut i: usize = 0;
    while i < 5
        invariant
            i <= 5,
            orders@.len() == 5,
            order_index(orders@, order_id) == order_index_from(orders@, order_id, i as int),
        decreases 5 - i,
    {
        if let Some(o) = orders[i] {
            if o.id == order_id {
                return Some(i);
            }
        }
        i += 1;
    }
    None
}

/// The place of the first spell with the given id (see `spell_index`).
pub fn get_spell_idx(spells: &[Spell; 4], spell_id: u32) -> (r: Option<usize>)
    ensures
        match r {
            Some(i) => spell_index(spells@, spell_id) == Some(i as int),
            None => spell_index(spells@, spell_id) is None,
        },
{
    let mut i: usize = 0;
    while i < 4
        invariant
            i <= 4,
            spells@.len() == 4,
            spell_index(spells@, spell_id) == spell_index_from(spells@, spell_id, i as int),
        decreases 4 - i,
    {
        if spells[i].id == spell_id {
            return Some(i);
        }
        i += 1;
    }
    None
}

pub open spec fn add_ingredients(s: Ingredients, d: Ingredients) -> Ingredients {
    [(s[0] + d[0]) as i8, (s[1] + d[1]) as i8, (s[2] + d[2]) as i8, (s[3] + d[3]) as i8]
}

/// Each amount of the sum fits an `i8`.
pub open spec fn adds_fit(s: Ingredients, d: Ingredients) -> bool {
    &&& -128 <= s[0] + d[0] <= 127
    &&& -128 <= s[1] + d[1] <= 127
    &&& -128 <= s[2] + d[2] <= 127
    &&& -128 <= s[3] + d[3] <= 127
}

pub fn update_ingredient_stock(ingredient_stock: &mut Ingredients, order_reqs: &Ingredients)
    requires
        adds_fit(*old(ingredient_stock), *order_reqs),
    ensures
        *final(ingredient_stock) == add_ingredients(*old(ingredient_stock), *order_reqs),
{
    let mut i: usize = 0;
    while i < 4
        invariant
            i <= 4,
            adds_fit(*old(ingredient_stock), *order_reqs),
            forall|j: int| 0 <= j < i ==> ingredient_stock[j] == old(ingredient_stock)[j] + order_reqs[j],
            forall|j: int| i <= j < 4 ==> ingredient_stock[j] == old(ingredient_stock)[j],
        decreases 4 - i,
    {
        ingredient_stock[i] = ingredient_stock[i] + order_reqs[i];
        i += 1;
    }
    assert(*ingredient_stock =~= add_ingredients(*old(ingredient_stock), *order_reqs));
}

/// No amount is `i8::MIN`, whose opposite does not fit.
pub open spec fn negatable(d: Ingredients) -> bool {
    d[0] > -128 && d[1] > -128 && d[2] > -128 && d[3] > -128
}

pub open spec fn spec_can_fulfill_order(order: Order, stock: Ingredients) -> bool {
    &&& stock[0] >= -order.ingredients[0]
    &&& stock[1] >= -order.ingredients[1]
    &&& stock[2] >= -order.ingredients[2]
    &&& stock[3] >= -order.ingredients[3]
}

pub fn can_fulfill_order(order: &Order, stock: &Ingredients) -> (b: bool)
    requires
        negatable(order.ingredients),
    ensures
        b == spec_can_fulfill_order(*order, *stock),
{
    stock[0] >= -order.ingredients[0] && stock[1] >= -order.ingredients[1] && stock[2] >= -order.ingredients[2]
        && stock[3] >= -order.ingredients[3]
}

/// A spell can be cast when it is active, the slots can hold what it adds,
/// and the stock holds what it takes.
pub open spec fn spec_can_cast_spell(spell: Spell, stock: Ingredients, empty_slots: i8) -> bool {
    &&& spell.delta_stock <= empty_slots
    &&& spell.active
    &&& forall|i: int| 0 <= i < 4 && spell.ingredients[i] < 0 ==> stock[i] >= -spell.ingredients[i]
}

pub fn can_cast_spell(spell: &Spell, stock: &Ingredients, empty_slots: i8) -> (b: bool)
    requires
        negatable(spell.ingredients),
    ensures
        b == spec_can_cast_spell(*spell, *stock, empty_slots),
{
    if spell.delta_stock > empty_slots {
        return false;
    }
    if spell.active == false {
        return false;
    }
    let mut i: usize = 0;
    while i < 4
        invariant
            i <= 4,
            negatable(spell.ingredients),
            forall|j: int| 0 <= j < i && spell.ingredients[j] < 0 ==> stock[j] >= -spell.ingredients[j],
        decreases 4 - i,
    {
        if spell.ingredients[i] < 0 && stock[i] < -spell.ingredients[i] {
            return false;
        }
        i += 1;
    }
    true
}

/// What its recorded move does to a witch when the turn is played: a
/// brew takes the order's ingredients and pays its price, a cast applies
/// the spell and exhausts it, a rest refreshes every spell.
pub open spec fn resolve(p: WitchModel, orders: Seq<Option<Order>>) -> WitchModel {
    match p.move_ {
        Move::BREW(id) => {
            let o = orders[order_index(orders, id)->0]->0;
            WitchModel {
                stock: add_ingredients(p.stock, o.ingredients),
                empty_slots: (p.empty_slots - o.delta_stock) as i8,
                rupees: (p.rupees + o.price) as u32,
                brewed: (p.brewed + 1) as u8,
                ..p
            }
        },
        Move::CAST(id) => {
            let k = spell_index(p.spells, id)->0;
            let sp = p.spells[k];
            WitchModel {
                stock: add_ingredients(p.stock, sp.ingredients),
                empty_slots: (p.empty_slots - sp.delta_stock) as i8,
                spells: p.spells.update(k, Spell { active: false, ..sp }),
                ..p
            }
        },
        Move::REST => WitchModel { spells: p.spells.map_values(|sp: Spell| Spell { active: true, ..sp }), ..p },
        _ => p,
    }
}

/// The recorded move names an order or a spell that is there, and no
/// amount or count leaves its range.
pub open spec fn resolve_fits(p: WitchModel, orders: Seq<Option<Order>>) -> bool {
    match p.move_ {
        Move::BREW(id) => {
            &&& order_index(orders, id) is Some
            &&& ({
                let o = orders[order_index(orders, id)->0]->0;
                &&& p.brewed < 255
                &&& p.rupees + o.price <= u32::MAX
                &&& adds_fit(p.stock, o.ingredients)
                &&& -128 <= p.empty_slots - o.delta_stock <= 127
            })
        },
        Move::CAST(id) => {
            &&& spell_index(p.spells, id) is Some
            &&& ({
                let sp = p.spells[spell_index(p.spells, id)->0];
                &&& adds_fit(p.stock, sp.ingredients)
                &&& -128 <= p.empty_slots - sp.delta_stock <= 127
            })
        },
        _ => true,
    }
}

/// The place of the order a witch brews, if it brews.
pub open spec fn brewed_index(p: WitchModel, orders: Seq<Option<Order>>) -> Option<int> {
    match p.move_ {
        Move::BREW(id) => order_index(orders, id),
        _ => None,
    }
}

pub open spec fn clear(orders: Seq<Option<Order>>, k: Option<int>) -> Seq<Option<Order>> {
    match k {
        Some(i) => orders.update(i, None),
        None => orders,
    }
}

/// The final score of a witch: her rupees and her ingredients above tier 0,
/// their sum taken as an `i8` and then as a `u32`.
pub open spec fn witch_score(p: WitchModel) -> int {
    p.rupees + ((p.stock[1] + p.stock[2] + p.stock[3]) as i8) as u32
}

pub open spec fn score_fits(p: WitchModel) -> bool {
    &&& -128 <= p.stock[1] + p.stock[2] <= 127
    &&& -128 <= p.stock[1] + p.stock[2] + p.stock[3] <= 127
    &&& witch_score(p) <= u32::MAX
}

pub open spec fn duel_result(score0: int, score1: int) -> (WinLossTie, WinLossTie) {
    if score0 > score1 {
        (WinLossTie::Win, WinLossTie::Loss)
    } else if score0 < score1 {
        (WinLossTie::Loss, WinLossTie::Win)
    } else {
        (WinLossTie::Tie, WinLossTie::Tie)
    }
}

/// Records the move of `player`; once player 1 has moved, both moves are
/// played (player 0's first, on the same orders), the brewed orders leave,
/// and the game ends when a witch has brewed three potions or at turn
/// 100. The turn goes to the other player either way.
pub open spec fn spec_update_state(s: DuelModel, player: u8, m: Move) -> DuelModel {
    let recorded = s.players.update(player as int, WitchModel { move_: m, ..s.players[player as int] });
    let next_player = ((s.active_player + 1) % 2) as u8;
    if player == 1 {
        let q0 = resolve(recorded[0], s.orders);
        let q1 = resolve(recorded[1], s.orders);
        let ends = q0.brewed == 3 || q1.brewed == 3 || s.turn == 100;
        DuelModel {
            players: seq![WitchModel { move_: Move::NONE, ..q0 }, WitchModel { move_: Move::NONE, ..q1 }],
            orders: clear(clear(s.orders, brewed_index(recorded[0], s.orders)), brewed_index(recorded[1], s.orders)),
            active: if ends {
                false
            } else {
                s.active
            },
            winners: if ends {
                Some(duel_result(witch_score(q0), witch_score(q1)))
            } else {
                s.winners
            },
            turn: (s.turn + 1) as u8,
            active_player: next_player,
        }
    } else {
        DuelModel { players: recorded, active_player: next_player, ..s }
    }
}

/// The move can be played: when the turn is played, both recorded moves
/// fit, the turn counter has room, and the scores fit if the game ends.
pub open spec fn update_fits(s: DuelModel, player: u8, m: Move) -> bool {
    &&& s.active_player < 255
    &&& player == 1 ==> {
        let recorded = s.players.update(1, WitchModel { move_: m, ..s.players[1] });
        let q0 = resolve(recorded[0], s.orders);
        let q1 = resolve(recorded[1], s.orders);
        &&& resolve_fits(recorded[0], s.orders)
        &&& resolve_fits(recorded[1], s.orders)
        &&& s.turn < 255
        &&& (q0.brewed == 3 || q1.brewed == 3 || s.turn == 100) ==> score_fits(q0) && score_fits(q1)
    }
}

fn resolve_player(p: &mut Player, orders: &[Option<Order>; 5]) -> (r: Option<usize>)
    requires
        resolve_fits(old(p)@, orders@),
    ensures
        final(p)@ == resolve(old(p)@, orders@),
        match r {
            Some(i) => brewed_index(old(p)@, orders@) == Some(i as int),
            None => brewed_index(old(p)@, orders@) is None,
        },
{
    match p.move_ {
        Move::BREW(order_id) => {
            proof {
                lemma_order_index_from_bounds(orders@, order_id, 0);
            }
            let idx = get_order_idx(orders, order_id).unwrap();
            let o = orders[idx].unwrap();
            p.brewed_potions_count = p.brewed_potions_count + 1;
            p.rupees = p.rupees + o.price as u32;
            let mut stock = p.stock;
            update_ingredient_stock(&mut stock, &o.ingredients);
            p.stock = stock;
            p.empty_slots = p.empty_slots - o.delta_stock;
            Some(idx)
        },
        Move::CAST(spell_id) => {
            proof {
                lemma_spell_index_from_bounds(p.spells@, spell_id, 0);
            }
            let k = get_spell_idx(&p.spells, spell_id).unwrap();
            let sp = p.spells[k];
            let mut stock = p.stock;
            update_ingredient_stock(&mut stock, &sp.ingredients);
            p.stock = stock;
            p.empty_slots = p.empty_slots - sp.delta_stock;
            let mut spells = p.spells;
            spells[k] = Spell { active: false, ..sp };
            p.spells = spells;
            assert(p@.spells =~= resolve(old(p)@, orders@).spells);
            None
        },
        Move::REST => {
            let mut spells = p.spells;
            let mut i: usize = 0;
            while i < 4
                invariant
                    i <= 4,
                    forall|j: int| 0 <= j < i ==> spells[j] == (Spell { active: true, ..old(p).spells[j] }),
                    forall|j: int| i <= j < 4 ==> spells[j] == old(p).spells[j],
                decreases 4 - i,
            {
                let sp = spells[i];
                spells[i] = Spell { active: true, ..sp };
                i += 1;
            }
            p.spells = spells;
            assert(p@.spells =~= resolve(old(p)@, orders@).spells);
            None
        },
        _ => None,
    }
}

fn score_of(p: &Player) -> (s: u32)
    requires
        score_fits(p@),
    ensures
        s == witch_score(p@),
{
    let sum: i8 = p.stock[1] + p.stock[2] + p.stock[3];
    p.rupees + sum as u32
}

/// Records and plays a move (see `spec_update_state`).
pub fn update_state(state: &mut State, player: u8, move_: Move)
    requires
        player < 2,
        update_fits(old(state)@, player, move_),
    ensures
        final(state)@ == spec_update_state(old(state)@, player, move_),
{
    let ghost s = state@;
    let mut rec = state.players[player as usize];
    rec.move_ = move_;
    state.players[player as usize] = rec;
    let ghost recorded = s.players.update(player as int, WitchModel { move_: move_, ..s.players[player as int] });
    assert(state@.players =~= recorded);
    if player == 1 {
        let orders = state.orders;
        let mut p0 = state.players[0];
        let r0 = resolve_player(&mut p0, &orders);
        let mut p1 = state.players[1];
        let r1 = resolve_player(&mut p1, &orders);
        proof {
            if let Move::BREW(id) = recorded[0].move_ {
                lemma_order_index_from_bounds(s.orders, id, 0);
            }
            if let Move::BREW(id) = recorded[1].move_ {
                lemma_order_index_from_bounds(s.orders, id, 0);
            }
        }
        let mut to_remove: [Option<usize>; 2] = [None, None];
        if let Some(i0) = r0 {
            to_remove[0] = Some(i0);
        }
        if let Some(i1) = r1 {
            if to_remove[0].is_none() {
                to_remove[0] = Some(i1);
            } else if i1 != to_remove[0].unwrap() {
                to_remove[1] = Some(i1);
            }
        }
        if let Some(oix) = to_remove[0] {
            state.orders[oix] = None;
        }
        if let Some(oix) = to_remove[1] {
            state.orders[oix] = None;
        }
        assert(state.orders@ =~= clear(clear(s.orders, brewed_index(recorded[0], s.orders)), brewed_index(recorded[1], s.orders)));
        if p0.brewed_potions_count == 3 || p1.brewed_potions_count == 3 || state.turn == 100 {
            state.active = false;
            let score0 = score_of(&p0);
            let score1 = score_of(&p1);
            if score0 > score1 {
                state.winners = Some((WinLossTie::Win, WinLossTie::Loss));
            } else if score0 < score1 {
                state.winners = Some((WinLossTie::Loss, WinLossTie::Win));
            } else {
                state.winners = Some((WinLossTie::Tie, WinLossTie::Tie));
            }
        }
        p0.move_ = Move::NONE;
        p1.move_ = Move::NONE;
        state.players = [p0, p1];
        state.turn = state.turn + 1;
    }
    state.active_player = (state.active_player + 1) % 2;
    assert(state@ =~= spec_update_state(s, player, move_));
}

pub fn is_terminal(state: &State) -> (b: bool)
    ensures
        b == !state.active,
{
    !state.active
}

/// The BREW moves of the orders in the first `n` places that the stock can
/// fulfill, in place order.
pub open spec fn order_moves(orders: Seq<Option<Order>>, stock: Ingredients, n: int) -> Seq<Move>
    decreases n,
{
    if n <= 0 {
        Seq::empty()
    } else {
        order_moves(orders, stock, n - 1) + match orders[n - 1] {
            Some(o) => if spec_can_fulfill_order(o, stock) {
                seq![Move::BREW(o.id)]
            } else {
                Seq::<Move>::empty()
            },
            None => Seq::<Move>::empty(),
        }
    }
}

/// The CAST moves of the first `n` spells that can be cast, in order.
pub open spec fn spell_moves(spells: Seq<Spell>, stock: Ingredients, empty_slots: i8, n: int) -> Seq<Move>
    decreases n,
{
    if n <= 0 {
        Seq::empty()
    } else {
        spell_moves(spells, stock, empty_slots, n - 1) + if spec_can_cast_spell(spells[n - 1], stock, empty_slots) {
            seq![Move::CAST(spells[n - 1].id)]
        } else {
            Seq::<Move>::empty()
        }
    }
}

pub open spec fn all_active(spells: Seq<Spell>) -> bool {
    forall|i: int| 0 <= i < spells.len() ==> (#[trigger] spells[i]).active
}

/// The moves of the witch to play: BREW, CAST, REST when a spell is
/// exhausted, and WAIT when there is no other.
pub open spec fn duel_moves(s: DuelModel) -> Seq<Move> {
    let p = s.players[s.active_player as int];
    let listed = order_moves(s.orders, p.stock, 5) + spell_moves(p.spells, p.stock, p.empty_slots, 4) + if all_active(
        p.spells,
    ) {
        Seq::<Move>::empty()
    } else {
        seq![Move::REST]
    };
    if listed.len() == 0 {
        seq![Move::WAIT]
    } else {
        listed
    }
}

/// The amounts the moves of the witch to play are checked against can be
/// negated.
pub open spec fn moves_negatable(s: DuelModel) -> bool {
    &&& forall|i: int| 0 <= i < s.orders.len() && (#[trigger] s.orders[i]) is Some ==> negatable(s.orders[i]->0.ingredients)
    &&& forall|i: int| 0 <= i < 4 ==> negatable(#[trigger] s.players[s.active_player as int].spells[i].ingredients)
}

/// The witch to play and her moves (see `duel_moves`).
pub fn valid_moves(state: &State) -> (r: (u8, StackVector<Move, 10>))
    requires
        state.active_player < 2,
        moves_negatable(state@),
    ensures
        r.0 == state.active_player,
        r.1.wf(),
        r.1@ == duel_moves(state@),
{
    let orders = &state.orders;
    let player = &state.players[state.active_player as usize];
    let ghost s = state@;
    assert(s.players[state.active_player as int] == player@);
    let mut valid: StackVector<Move, 10> = StackVector::new();
    let mut i: usize = 0;
    while i < 5
        invariant
            i <= 5,
            s == state@,
            orders@ == s.orders,
            state.active_player < 2,
            s == state@,
            moves_negatable(s),
            s.players[state.active_player as int] == player@,
            valid.wf(),
            valid@.len() <= i,
            valid@ == order_moves(orders@, player.stock, i as int),
        decreases 5 - i,
    {
        if let Some(o) = orders[i] {
            if can_fulfill_order(&o, &player.stock) {
                valid.add(Move::BREW(o.id));
            }
        }
        assert(valid@ =~= order_moves(orders@, player.stock, i + 1));
        i += 1;
    }
    let ghost brews = valid@;
    let mut all_spells_are_active = true;
    let mut j: usize = 0;
    while j < 4
        invariant
            j <= 4,
            state.active_player < 2,
            s == state@,
            moves_negatable(s),
            s.players[state.active_player as int] == player@,
            brews == order_moves(s.orders, player.stock, 5),
            valid.wf(),
            valid@.len() <= 5 + j,
            valid@ == brews + spell_moves(player.spells@, player.stock, player.empty_slots, j as int),
            all_spells_are_active == forall|k: int| 0 <= k < j ==> (#[trigger] player.spells@[k]).active,
        decreases 4 - j,
    {
        let sp = player.spells[j];
        assert(negatable(s.players[state.active_player as int].spells[j as int].ingredients));
        if sp.active == false {
            all_spells_are_active = false;
        } else {
            if can_cast_spell(&sp, &player.stock, player.empty_slots) {
                valid.add(Move::CAST(sp.id));
            }
        }
        assert(valid@ =~= brews + spell_moves(player.spells@, player.stock, player.empty_slots, j + 1));
        j += 1;
    }
    if all_spells_are_active == false {
        valid.add(Move::REST);
    }
    if valid.len() == 0 {
        valid.add(Move::WAIT);
    }
    assert(valid@ =~= duel_moves(s));
    (state.active_player, valid)
}

/// The witch to play and one of her moves, picked at random.
pub fn random_valid_move(state: &State) -> (r: (u8, Move))
    requires
        state.active_player < 2,
        moves_negatable(state@),
    ensures
        r.0 == state.active_player,
        duel_moves(state@).contains(r.1),
{
    let (player, moves) = valid_moves(state);
    (player, random_element(moves.slice()))
}

/// Four amounts added in order stay an `i8`.
pub open spec fn sum_fits(d: Ingredients) -> bool {
    &&& -128 <= d[0] + d[1] <= 127
    &&& -128 <= d[0] + d[1] + d[2] <= 127
    &&& -128 <= d[0] + d[1] + d[2] + d[3] <= 127
}

pub open spec fn sum_of(d: Ingredients) -> i8 {
    (d[0] + d[1] + d[2] + d[3]) as i8
}

fn ingredients_sum(d: &Ingredients) -> (r: Option<i8>)
    ensures
        match r {
            Some(x) => sum_fits(*d) && x == sum_of(*d),
            None => !sum_fits(*d),
        },
{
    let s01 = d[0] as i16 + d[1] as i16;
    let s012 = s01 + d[2] as i16;
    let s = s012 + d[3] as i16;
    if s01 < -128 || s01 > 127 || s012 < -128 || s012 > 127 || s < -128 || s > 127 {
        None
    } else {
        Some(d[0] + d[1] + d[2] + d[3])
    }
}

/// What the entity lines of a turn give so far: the orders, the spells of
/// the reading witch and those of her opponent, in the order read.
pub struct DuelTurnModel {
    pub orders: Seq<Order>,
    pub my_spells: Seq<Spell>,
    pub opponent_spells: Seq<Spell>,
}

pub open spec fn line_order(a: ActionLine) -> Order {
    Order { id: a.action_id, ingredients: a.deltas, delta_stock: sum_of(a.deltas), price: a.price }
}

/// The spell of a line; it is active when castable is 1.
pub open spec fn line_spell(a: ActionLine) -> Spell {
    Spell { id: a.action_id, ingredients: a.deltas, delta_stock: sum_of(a.deltas), active: a.castable == 1 }
}

/// One more entity line: an order takes the next of five places, a spell
/// the next of four places of its witch; tome lines are left out. `None`
/// when the places are full or the sum of the changes leaves an `i8`.
pub open spec fn read_duel_action(t: DuelTurnModel, a: ActionLine) -> Option<DuelTurnModel> {
    match a.kind {
        ActionKind::Brew => if sum_fits(a.deltas) && t.orders.len() < 5 {
            Some(DuelTurnModel { orders: t.orders.push(line_order(a)), ..t })
        } else {
            None
        },
        ActionKind::Cast => if sum_fits(a.deltas) && t.my_spells.len() < 4 {
            Some(DuelTurnModel { my_spells: t.my_spells.push(line_spell(a)), ..t })
        } else {
            None
        },
        ActionKind::OpponentCast => if sum_fits(a.deltas) && t.opponent_spells.len() < 4 {
            Some(DuelTurnModel { opponent_spells: t.opponent_spells.push(line_spell(a)), ..t })
        } else {
            None
        },
        _ => Some(t),
    }
}

pub open spec fn read_duel_actions(actions: Seq<ActionLine>) -> Option<DuelTurnModel>
    decreases actions.len(),
{
    if actions.len() == 0 {
        Some(DuelTurnModel { orders: Seq::empty(), my_spells: Seq::empty(), opponent_spells: Seq::empty() })
    } else {
        match read_duel_actions(actions.drop_last()) {
            Some(t) => read_duel_action(t, actions.last()),
            None => None,
        }
    }
}

proof fn lemma_read_stays_none(actions: Seq<ActionLine>, k: int)
    requires
        0 <= k <= actions.len(),
        read_duel_actions(actions.take(k)) is None,
    ensures
        read_duel_actions(actions) is None,
    decreases actions.len() - k,
{
    if k < actions.len() {
        assert(actions.take(k + 1).drop_last() =~= actions.take(k));
        lemma_read_stays_none(actions, k + 1);
    } else {
        assert(actions.take(k) =~= actions);
    }
}

pub open spec fn placed_orders(orders: Seq<Order>) -> Seq<Option<Order>> {
    Seq::new(5, |i: int| if i < orders.len() { Some(orders[i]) } else { None })
}

pub open spec fn placed_spells(spells: Seq<Spell>) -> Seq<Spell> {
    Seq::new(4, |i: int| if i < spells.len() { spells[i] } else { default_spell() })
}

/// The stock reads with its empty slots (ten less what it holds).
pub open spec fn inventory_fits(stock: Ingredients) -> bool {
    sum_fits(stock) && -128 <= 10 - sum_of(stock) <= 127
}

pub open spec fn witch_of(spells: Seq<Spell>, inventory: (Ingredients, u32)) -> WitchModel {
    WitchModel {
        move_: Move::NONE,
        stock: inventory.0,
        empty_slots: (10 - sum_of(inventory.0)) as i8,
        spells: placed_spells(spells),
        rupees: inventory.1,
        brewed: 0,
    }
}

/// The game of a turn: the orders and spells of the entity lines, the
/// stocks and rupees of the two inventory lines, player 0 to move.
pub open spec fn duel_of_turn(actions: Seq<ActionLine>, mine: (Ingredients, u32), theirs: (Ingredients, u32)) -> Option<
    DuelModel,
> {
    match read_duel_actions(actions) {
        Some(t) => if inventory_fits(mine.0) && inventory_fits(theirs.0) {
            Some(
                DuelModel {
                    players: seq![witch_of(t.my_spells, mine), witch_of(t.opponent_spells, theirs)],
                    orders: placed_orders(t.orders),
                    active: true,
                    active_player: 0,
                    turn: 0,
                    winners: None,
                },
            )
        } else {
            None
        },
        None => None,
    }
}

fn witch_of_inventory(spells: [Spell; 4], inventory: (Ingredients, u32)) -> (r: Option<Player>)
    ensures
        match r {
            Some(p) => inventory_fits(inventory.0) && p@ == (WitchModel { spells: spells@, ..witch_of(Seq::empty(), inventory) }),
            None => !inventory_fits(inventory.0),
        },
{
    match ingredients_sum(&inventory.0) {
        Some(total) => {
            if total < -117 {
                return None;
            }
            Some(
                Player {
                    move_: Move::NONE,
                    stock: inventory.0,
                    empty_slots: 10 - total,
                    spells,
                    rupees: inventory.1,
                    brewed_potions_count: 0,
                },
            )
        },
        None => None,
    }
}

/// Reads the game of a turn (see `duel_of_turn`).
pub fn read_duel_turn(actions: &[ActionLine], mine: (Ingredients, u32), theirs: (Ingredients, u32)) -> (r: Option<State>)
    ensures
        match r {
            Some(s) => duel_of_turn(actions@, mine, theirs) == Some(s@),
            None => duel_of_turn(actions@, mine, theirs) is None,
        },
{
    let mut orders: [Option<Order>; 5] = [None, None, None, None, None];
    let mut my_spells: [Spell; 4] = [Spell::default(), Spell::default(), Spell::default(), Spell::default()];
    let mut their_spells: [Spell; 4] = [Spell::default(), Spell::default(), Spell::default(), Spell::default()];
    let mut order_count: usize = 0;
    let mut my_count: usize = 0;
    let mut their_count: usize = 0;
    let ghost empty = DuelTurnModel { orders: Seq::empty(), my_spells: Seq::empty(), opponent_spells: Seq::empty() };
    assert(orders@ =~= placed_orders(empty.orders));
    assert(my_spells@ =~= placed_spells(empty.my_spells));
    assert(their_spells@ =~= placed_spells(empty.opponent_spells));
    let mut i: usize = 0;
    while i < actions.len()
        invariant
            i <= actions@.len(),
            read_duel_actions(actions@.take(i as int)) matches Some(t) && order_count == t.orders.len()
                && my_count == t.my_spells.len() && their_count == t.opponent_spells.len() && orders@ == placed_orders(
                t.orders,
            ) && my_spells@ == placed_spells(t.my_spells) && their_spells@ == placed_spells(t.opponent_spells),
        decreases actions@.len() - i,
    {
        let a = actions[i];
        assert(actions@.take(i + 1).drop_last() =~= actions@.take(i as int));
        assert(actions@.take(i + 1).last() == a);
        let ghost t = read_duel_actions(actions@.take(i as int))->0;
        match a.kind {
            ActionKind::Brew => {
                let sum = ingredients_sum(&a.deltas);
                if sum.is_none() || order_count >= 5 {
                    proof {
                        lemma_read_stays_none(actions@, i + 1);
                    }
                    return None;
                }
                let o = Order { id: a.action_id, ingredients: a.deltas, delta_stock: sum.unwrap(), price: a.price };
                orders[order_count] = Some(o);
                order_count += 1;
                assert(orders@ =~= placed_orders(t.orders.push(line_order(a))));
            },
            ActionKind::Cast => {
                let sum = ingredients_sum(&a.deltas);
                if sum.is_none() || my_count >= 4 {
                    proof {
                        lemma_read_stays_none(actions@, i + 1);
                    }
                    return None;
                }
                my_spells[my_count] = Spell {
                    id: a.action_id,
                    ingredients: a.deltas,
                    delta_stock: sum.unwrap(),
                    active: a.castable == 1,
                };
                my_count += 1;
                assert(my_spells@ =~= placed_spells(t.my_spells.push(line_spell(a))));
            },
            ActionKind::OpponentCast => {
                let sum = ingredients_sum(&a.deltas);
                if sum.is_none() || their_count >= 4 {
                    proof {
                        lemma_read_stays_none(actions@, i + 1);
                    }
                    return None;
                }
                their_spells[their_count] = Spell {
                    id: a.action_id,
                    ingredients: a.deltas,
                    delta_stock: sum.unwrap(),
                    active: a.castable == 1,
                };
                their_count += 1;
                assert(their_spells@ =~= placed_spells(t.opponent_spells.push(line_spell(a))));
            },
            _ => {},
        }
        i += 1;
    }
    assert(actions@.take(actions@.len() as int) =~= actions@);
    let p0 = match witch_of_inventory(my_spells, mine) {
        Some(p) => p,
        None => {
            return None;
        },
    };
    let p1 = match witch_of_inventory(their_spells, theirs) {
        Some(p) => p,
        None => {
            return None;
        },
    };
    let s = State { players: [p0, p1], orders, active: true, active_player: 0, turn: 0, winners: None };
    assert(s@.players =~= duel_of_turn(actions@, mine, theirs)->0.players);
    assert(s@ =~= duel_of_turn(actions@, mine, theirs)->0);
    Some(s)
}

pub open spec fn stock_sum(d: Ingredients) -> int {
    d[0] + d[1] + d[2] + d[3]
}

/// A witch's empty slots are ten less than what her stock holds, and each
/// of her spells adds what its `delta_stock` says.
pub open spec fn slots_track_stock(p: WitchModel) -> bool {
    &&& p.empty_slots == 10 - stock_sum(p.stock)
    &&& forall|i: int| 0 <= i < p.spells.len() ==> (#[trigger] p.spells[i]).delta_stock == stock_sum(p.spells[i].ingredients)
}

/// Both witches track their slots, and each order's `delta_stock` is the
/// sum of its changes.
pub open spec fn duel_consistent(s: DuelModel) -> bool {
    &&& s.players.len() == 2
    &&& slots_track_stock(s.players[0])
    &&& slots_track_stock(s.players[1])
    &&& forall|i: int| 0 <= i < s.orders.len() && (#[trigger] s.orders[i]) is Some ==> s.orders[i]->0.delta_stock
        == stock_sum(s.orders[i]->0.ingredients)
}

proof fn lemma_resolve_tracks(p: WitchModel, orders: Seq<Option<Order>>)
    requires
        resolve_fits(p, orders),
        slots_track_stock(p),
        forall|i: int| 0 <= i < orders.len() && (#[trigger] orders[i]) is Some ==> orders[i]->0.delta_stock == stock_sum(
            orders[i]->0.ingredients,
        ),
    ensures
        slots_track_stock(resolve(p, orders)),
{
    match p.move_ {
        Move::BREW(id) => {
            lemma_order_index_from_bounds(orders, id, 0);
        },
        Move::CAST(id) => {
            lemma_spell_index_from_bounds(p.spells, id, 0);
            let q = resolve(p, orders);
            assert forall|i: int| 0 <= i < q.spells.len() implies (#[trigger] q.spells[i]).delta_stock == stock_sum(
                q.spells[i].ingredients,
            ) by {
                assert(p.spells[i].delta_stock == stock_sum(p.spells[i].ingredients));
            }
        },
        Move::REST => {
            let q = resolve(p, orders);
            assert forall|i: int| 0 <= i < q.spells.len() implies (#[trigger] q.spells[i]).delta_stock == stock_sum(
                q.spells[i].ingredients,
            ) by {
                assert(p.spells[i].delta_stock == stock_sum(p.spells[i].ingredients));
            }
        },
        _ => {},
    }
}

/// Playing a move keeps each witch's empty slots at ten less than what her
/// stock holds: every brew and cast changes both by the same amount.
pub proof fn law_slots_track_stock(s: DuelModel, player: u8, m: Move)
    requires
        player < 2,
        update_fits(s, player, m),
        duel_consistent(s),
    ensures
        duel_consistent(spec_update_state(s, player, m)),
{
    let recorded = s.players.update(player as int, WitchModel { move_: m, ..s.players[player as int] });
    assert(slots_track_stock(recorded[0]));
    assert(slots_track_stock(recorded[1]));
    if player == 1 {
        lemma_resolve_tracks(recorded[0], s.orders);
        lemma_resolve_tracks(recorded[1], s.orders);
        if let Move::BREW(id) = recorded[0].move_ {
            lemma_order_index_from_bounds(s.orders, id, 0);
        }
        if let Move::BREW(id) = recorded[1].move_ {
            lemma_order_index_from_bounds(s.orders, id, 0);
        }
        let t = spec_update_state(s, player, m);
        assert(slots_track_stock(t.players[0]));
        assert(slots_track_stock(t.players[1]));
        assert forall|i: int| 0 <= i < t.orders.len() && (#[trigger] t.orders[i]) is Some implies t.orders[i]->0.delta_stock
            == stock_sum(t.orders[i]->0.ingredients) by {
            assert(t.orders[i] == s.orders[i]);
        }
    }
}

/// A game read from the input is consistent: orders and spells carry the
/// sum of their changes, and each witch's empty slots are ten less than
/// her stock.
pub proof fn law_read_turn_is_consistent(actions: Seq<ActionLine>, mine: (Ingredients, u32), theirs: (Ingredients, u32))
    requires
        duel_of_turn(actions, mine, theirs) is Some,
    ensures
        duel_consistent(duel_of_turn(actions, mine, theirs)->0),
{
    lemma_read_actions_consistent(actions);
    let t = read_duel_actions(actions)->0;
    let s = duel_of_turn(actions, mine, theirs)->0;
    assert forall|i: int| 0 <= i < s.players[0].spells.len() implies (#[trigger] s.players[0].spells[i]).delta_stock
        == stock_sum(s.players[0].spells[i].ingredients) by {
        if i < t.my_spells.len() {
            assert(t.my_spells[i].delta_stock == stock_sum(t.my_spells[i].ingredients));
        }
    }
    assert forall|i: int| 0 <= i < s.players[1].spells.len() implies (#[trigger] s.players[1].spells[i]).delta_stock
        == stock_sum(s.players[1].spells[i].ingredients) by {
        if i < t.opponent_spells.len() {
            assert(t.opponent_spells[i].delta_stock == stock_sum(t.opponent_spells[i].ingredients));
        }
    }
    assert forall|i: int| 0 <= i < s.orders.len() && (#[trigger] s.orders[i]) is Some implies s.orders[i]->0.delta_stock
        == stock_sum(s.orders[i]->0.ingredients) by {
        assert(t.orders[i].delta_stock == stock_sum(t.orders[i].ingredients));
    }
}

proof fn lemma_read_actions_consistent(actions: Seq<ActionLine>)
    ensures
        read_duel_actions(actions) matches Some(t) ==> {
            &&& forall|i: int| 0 <= i < t.orders.len() ==> (#[trigger] t.orders[i]).delta_stock == stock_sum(t.orders[i].ingredients)
            &&& forall|i: int| 0 <= i < t.my_spells.len() ==> (#[trigger] t.my_spells[i]).delta_stock == stock_sum(t.my_spells[i].ingredients)
            &&& forall|i: int| 0 <= i < t.opponent_spells.len() ==> (#[trigger] t.opponent_spells[i]).delta_stock == stock_sum(
                t.opponent_spells[i].ingredients,
            )
        },
    decreases actions.len(),
{
    if actions.len() > 0 {
        lemma_read_actions_consistent(actions.drop_last());
    }
}

} // verus!
