//! What a replay shows of a potion brewing game: no board, and the
//! referee's values as text, orders and spells drawn with the pictures of
//! the four ingredient tiers.
use vstd::prelude::*;
use crate::record::{BoardRepresentation, GameState, bool_string, bool_text, entry, join_strings, joined, player_key, player_key_string, text_pairs};
use crate::text::{decimal, push_char, push_i64, push_str, push_u64, signed_decimal, string_from, u64_to_string};
use crate::witches_brew::game::{Player, WitchesBrewGame};
use crate::witches_brew::protocol::move_text;
use crate::witches_brew::rules::{Ingredients, MAX_VALID_MOVES, Move, moves_fit, Order, Spell, consistent_spell, listed_moves, small_recipe, spec_valid_moves, valid_moves, valid_stock};

verus! {

/// The picture of ingredient tier `i`.
pub open spec fn tier(i: int) -> Seq<char> {
    if i == 0 {
        "🐋"@
    } else if i == 1 {
        "🍏"@
    } else if i == 2 {
        "🦧"@
    } else {
        "💛"@
    }
}

/// What a recipe takes of tier `i`, if anything: the amount (negative)
/// and the tier's picture.
pub open spec fn cost_part(v: i8, i: int) -> Seq<char> {
    if v < 0 {
        signed_decimal(v as int) + tier(i) + " "@
    } else {
        Seq::empty()
    }
}

/// What a spell takes or gives of tier `i`: a negative amount, or a
/// positive one after `+`, then the tier's picture.
pub open spec fn spell_part(v: i8, i: int) -> Seq<char> {
    cost_part(v, i) + if v > 0 {
        "+"@ + decimal(v as nat) + tier(i) + " "@
    } else {
        Seq::empty()
    }
}

/// An order: `[id | cost | 🔸price bonus]`.
pub open spec fn order_text(o: Order) -> Seq<char> {
    "["@ + decimal(o.id as nat) + " | "@ + cost_part(o.recipe[0], 0) + cost_part(o.recipe[1], 1) + cost_part(
        o.recipe[2],
        2,
    ) + cost_part(o.recipe[3], 3) + " | 🔸"@ + decimal(o.price as nat) + if o.bonus == 3 {
        "+3"@
    } else if o.bonus == 1 {
        "+1"@
    } else {
        Seq::empty()
    } + "]"@
}

/// The tax on a tome spell: nothing, one tier-0 picture, or the picture
/// and `x` and the amount.
pub open spec fn tax_text(tax: u8) -> Seq<char> {
    if tax == 0 {
        Seq::empty()
    } else if tax == 1 {
        "🐋"@
    } else {
        "🐋x"@ + decimal(tax as nat)
    }
}

/// A spell: `[state repeat id | recipe | tax]`, its state green when it can
/// be cast and white when exhausted.
pub open spec fn spell_text(s: Spell) -> Seq<char> {
    "["@ + (if s.active {
        "🟢"@
    } else {
        "⚪"@
    }) + (if s.repeatable {
        "🔁"@
    } else {
        Seq::empty()
    }) + " "@ + decimal(s.id as nat) + " | "@ + spell_part(s.recipe[0], 0) + spell_part(s.recipe[1], 1)
        + spell_part(s.recipe[2], 2) + spell_part(s.recipe[3], 3) + " | "@ + tax_text(s.tax) + "]"@
}

/// A stock, each amount after its tier's picture.
pub open spec fn stock_text(st: Ingredients) -> Seq<char> {
    "[🐋: "@ + signed_decimal(st[0] as int) + ", 🍏: "@ + signed_decimal(st[1] as int) + ", 🦧: "@ + signed_decimal(
        st[2] as int,
    ) + ", 💛: "@ + signed_decimal(st[3] as int) + "]"@
}

/// The texts of orders.
pub open spec fn order_texts(v: Seq<Order>) -> Seq<Seq<char>> {
    v.map_values(|o: Order| order_text(o))
}

/// The texts of spells.
pub open spec fn spell_texts(v: Seq<Spell>) -> Seq<Seq<char>> {
    v.map_values(|s: Spell| spell_text(s))
}

/// The texts of moves.
pub open spec fn move_texts(v: Seq<Move>) -> Seq<Seq<char>> {
    v.map_values(|m: Move| move_text(m))
}

/// The values of witch `p`, by name; its valid moves are those of
/// `spec_valid_moves`.
pub open spec fn player_entries(g: WitchesBrewGame, p: int) -> Seq<(Seq<char>, Seq<char>)> {
    let pl = g.players[p];
    seq![
        (player_key(p as nat, "Stock"@), stock_text(pl.stock)),
        (player_key(p as nat, "Rupees"@), decimal(pl.rupees as nat)),
        (player_key(p as nat, "Brewed potion count"@), decimal(pl.brewed_potions_count as nat)),
        (player_key(p as nat, "Spells"@), joined(spell_texts(pl.spells@), ","@)),
        (player_key(p as nat, "Valid moves"@), joined(
            move_texts(spec_valid_moves(g.counter_orders@, g.tome_spells@, pl.spells@, pl.stock)),
            ", "@,
        )),
    ]
}

/// The referee's values, by name.
pub open spec fn state_entries(g: WitchesBrewGame) -> Seq<(Seq<char>, Seq<char>)> {
    seq![
        ("Turn"@, decimal(g.turn as nat)),
        ("Active"@, bool_text(g.active)),
        ("Bonus left"@, "["@ + decimal(g.plus_3_bonus_remaining as nat) + ", "@ + decimal(
            g.plus_1_bonus_remaining as nat,
        ) + "]"@),
        ("Active_player"@, decimal(g.active_player as nat)),
        ("Moves"@, "["@ + move_text(g.players[0].move_) + ", "@ + move_text(g.players[1].move_) + "]"@),
        ("Orders"@, joined(order_texts(g.counter_orders@), ", "@)),
        ("Tome"@, joined(spell_texts(g.tome_spells@), ", "@)),
    ] + player_entries(g, 0) + player_entries(g, 1)
}

/// The moves of witch `p` fit in a list of `MAX_VALID_MOVES`.
pub open spec fn moves_listable(g: WitchesBrewGame, p: int) -> bool {
    listed_moves(g.counter_orders@, g.tome_spells@, g.players[p].spells@, g.players[p].stock).len() <= MAX_VALID_MOVES
}

fn push_tier(s: &mut String, i: usize)
    requires
        i < 4,
    ensures
        final(s)@ == old(s)@ + tier(i as int),
{
    if i == 0 {
        push_str(s, "🐋");
    } else if i == 1 {
        push_str(s, "🍏");
    } else if i == 2 {
        push_str(s, "🦧");
    } else {
        push_str(s, "💛");
    }
}

fn push_cost_part(s: &mut String, v: i8, i: usize)
    requires
        i < 4,
    ensures
        final(s)@ == old(s)@ + cost_part(v, i as int),
{
    if v < 0 {
        push_i64(s, v as i64);
        push_tier(s, i);
        push_str(s, " ");
    }
    assert(final(s)@ =~= old(s)@ + cost_part(v, i as int));
}

fn push_spell_part(s: &mut String, v: i8, i: usize)
    requires
        i < 4,
    ensures
        final(s)@ == old(s)@ + spell_part(v, i as int),
{
    push_cost_part(s, v, i);
    if v > 0 {
        push_str(s, "+");
        push_u64(s, v as u64);
        push_tier(s, i);
        push_str(s, " ");
    }
    assert(final(s)@ =~= old(s)@ + spell_part(v, i as int));
}

/// The text of an order (see `order_text`).
#[verifier::spinoff_prover]
pub fn fmt_order(o: &Order) -> (s: String)
    ensures
        s@ == order_text(*o),
{
    let mut s = string_from("[");
    push_u64(&mut s, o.id as u64);
    push_str(&mut s, " | ");
    push_cost_part(&mut s, o.recipe[0], 0);
    push_cost_part(&mut s, o.recipe[1], 1);
    push_cost_part(&mut s, o.recipe[2], 2);
    push_cost_part(&mut s, o.recipe[3], 3);
    push_str(&mut s, " | 🔸");
    push_u64(&mut s, o.price as u64);
    if o.bonus == 3 {
        push_str(&mut s, "+3");
    } else if o.bonus == 1 {
        push_str(&mut s, "+1");
    }
    push_str(&mut s, "]");
    assert(s@ =~= order_text(*o));
    s
}

/// The text of a spell (see `spell_text`).
#[verifier::spinoff_prover]
pub fn fmt_spell(sp: &Spell) -> (s: String)
    ensures
        s@ == spell_text(*sp),
{
    let mut s = string_from("[");
    if sp.active {
        push_str(&mut s, "🟢");
    } else {
        push_str(&mut s, "⚪");
    }
    if sp.repeatable {
        push_str(&mut s, "🔁");
    }
    push_str(&mut s, " ");
    push_u64(&mut s, sp.id as u64);
    push_str(&mut s, " | ");
    push_spell_part(&mut s, sp.recipe[0], 0);
    push_spell_part(&mut s, sp.recipe[1], 1);
    push_spell_part(&mut s, sp.recipe[2], 2);
    push_spell_part(&mut s, sp.recipe[3], 3);
    push_str(&mut s, " | ");
    if sp.tax == 1 {
        push_str(&mut s, "🐋");
    } else if sp.tax >= 2 {
        push_str(&mut s, "🐋x");
        push_u64(&mut s, sp.tax as u64);
    }
    push_str(&mut s, "]");
    assert(s@ =~= spell_text(*sp));
    s
}

/// The text of a stock (see `stock_text`).
#[verifier::spinoff_prover]
pub fn fmt_stock(st: &Ingredients) -> (s: String)
    ensures
        s@ == stock_text(*st),
{
    let mut s = string_from("[🐋: ");
    push_i64(&mut s, st[0] as i64);
    push_str(&mut s, ", 🍏: ");
    push_i64(&mut s, st[1] as i64);
    push_str(&mut s, ", 🦧: ");
    push_i64(&mut s, st[2] as i64);
    push_str(&mut s, ", 💛: ");
    push_i64(&mut s, st[3] as i64);
    push_str(&mut s, "]");
    assert(s@ =~= stock_text(*st));
    s
}

fn order_strings(v: &[Order]) -> (r: Vec<String>)
    ensures
        r@.map_values(|p: String| p@) == order_texts(v@),
{
    let mut r: Vec<String> = Vec::new();
    let mut i: usize = 0;
    while i < v.len()
        invariant
            i <= v@.len(),
            r@.map_values(|p: String| p@) == order_texts(v@.take(i as int)),
        decreases v@.len() - i,
    {
        r.push(fmt_order(&v[i]));
        assert(order_texts(v@.take(i + 1)) =~= order_texts(v@.take(i as int)).push(order_text(v@[i as int])));
        assert(r@.map_values(|p: String| p@) =~= order_texts(v@.take(i + 1)));
        i += 1;
    }
    assert(v@.take(v@.len() as int) =~= v@);
    r
}

fn spell_strings(v: &[Spell]) -> (r: Vec<String>)
    ensures
        r@.map_values(|p: String| p@) == spell_texts(v@),
{
    let mut r: Vec<String> = Vec::new();
    let mut i: usize = 0;
    while i < v.len()
        invariant
            i <= v@.len(),
            r@.map_values(|p: String| p@) == spell_texts(v@.take(i as int)),
        decreases v@.len() - i,
    {
        r.push(fmt_spell(&v[i]));
        assert(spell_texts(v@.take(i + 1)) =~= spell_texts(v@.take(i as int)).push(spell_text(v@[i as int])));
        assert(r@.map_values(|p: String| p@) =~= spell_texts(v@.take(i + 1)));
        i += 1;
    }
    assert(v@.take(v@.len() as int) =~= v@);
    r
}

fn move_strings(v: &[Move]) -> (r: Vec<String>)
    ensures
        r@.map_values(|p: String| p@) == move_texts(v@),
{
    let mut r: Vec<String> = Vec::new();
    let mut i: usize = 0;
    while i < v.len()
        invariant
            i <= v@.len(),
            r@.map_values(|p: String| p@) == move_texts(v@.take(i as int)),
        decreases v@.len() - i,
    {
        r.push(v[i].to_string());
        assert(move_texts(v@.take(i + 1)) =~= move_texts(v@.take(i as int)).push(move_text(v@[i as int])));
        assert(r@.map_values(|p: String| p@) =~= move_texts(v@.take(i + 1)));
        i += 1;
    }
    assert(v@.take(v@.len() as int) =~= v@);
    r
}

#[verifier::spinoff_prover]
fn push_player_entries(state: &mut Vec<(String, String)>, g: &WitchesBrewGame, p: usize)
    requires
        p < 2,
        g.wf(),
        moves_listable(*g, p as int),
    ensures
        text_pairs(final(state)@) == text_pairs(old(state)@) + player_entries(*g, p as int),
{
    let ghost before = state@;
    let pl: &Player = &g.players[p];
    let spells = spell_strings(pl.spells.slice());
    let moves = valid_moves(g.counter_orders.slice(), g.tome_spells.slice(), pl.spells.slice(), &pl.stock);
    let move_list = move_strings(moves.slice());
    state.push((player_key_string(p as u64, "Stock"), fmt_stock(&pl.stock)));
    state.push((player_key_string(p as u64, "Rupees"), u64_to_string(pl.rupees as u64)));
    state.push((player_key_string(p as u64, "Brewed potion count"), u64_to_string(pl.brewed_potions_count as u64)));
    state.push((player_key_string(p as u64, "Spells"), join_strings(&spells, ",")));
    state.push((player_key_string(p as u64, "Valid moves"), join_strings(&move_list, ", ")));
    assert(text_pairs(state@) =~= text_pairs(before) + player_entries(*g, p as int));
}

impl WitchesBrewGame {
    /// The state a replay shows: no board, and the referee's values (see
    /// `state_entries`).
    #[verifier::spinoff_prover]
    pub fn get_state(&self) -> (s: GameState)
        requires
            self.wf(),
            moves_listable(*self, 0),
            moves_listable(*self, 1),
        ensures
            s.board is None,
            text_pairs(s.state@) == state_entries(*self),
    {
        let mut bonus = string_from("[");
        push_u64(&mut bonus, self.plus_3_bonus_remaining as u64);
        push_str(&mut bonus, ", ");
        push_u64(&mut bonus, self.plus_1_bonus_remaining as u64);
        push_str(&mut bonus, "]");
        let mut moves = string_from("[");
        let m0 = self.players[0].move_.to_string();
        let m1 = self.players[1].move_.to_string();
        push_str(&mut moves, m0.as_str());
        push_str(&mut moves, ", ");
        push_str(&mut moves, m1.as_str());
        push_str(&mut moves, "]");
        let orders = order_strings(self.counter_orders.slice());
        let tome = spell_strings(self.tome_spells.slice());
        let mut state = vec![
            entry("Turn", u64_to_string(self.turn as u64)),
            entry("Active", bool_string(self.active)),
            entry("Bonus left", bonus),
            entry("Active_player", u64_to_string(self.active_player as u64)),
            entry("Moves", moves),
            entry("Orders", join_strings(&orders, ", ")),
            entry("Tome", join_strings(&tome, ", ")),
        ];
        push_player_entries(&mut state, self, 0);
        push_player_entries(&mut state, self, 1);
        assert(text_pairs(state@) =~= state_entries(*self));
        GameState { board: None, state }
    }

    /// Whether the moves of both witches fit in a list (what `get_state`
    /// needs besides a state the referee can continue from).
    pub fn moves_listable(&self) -> (b: bool)
        requires
            self.wf(),
        ensures
            b == (moves_listable(*self, 0) && moves_listable(*self, 1)),
    {
        let p0 = &self.players[0];
        let p1 = &self.players[1];
        moves_fit(self.counter_orders.slice(), self.tome_spells.slice(), p0.spells.slice(), &p0.stock)
            && moves_fit(self.counter_orders.slice(), self.tome_spells.slice(), p1.spells.slice(), &p1.stock)
    }

    /// A replay draws no board for this game.
    pub fn get_board_representation() -> (r: Option<BoardRepresentation>)
        ensures
            r is None,
    {
        None
    }
}

} // verus!
