//! The graph of the stocks a witch can hold: from each stock, an edge per
//! order it can brew and per spell it can cast, to the stock that follows.
use vstd::prelude::*;
use crate::witches_brew::rules::{
    Ingredients, Order, Spell, add_recipe, can_fulfill_order, small_recipe, spec_can_fulfill_order, stock_total,
    valid_stock,
};

verus! {

/// The label of an edge: the spell cast or the order brewed.
#[derive(Clone, Copy, PartialEq, Eq, Debug, Structural)]
pub enum StockEdge {
    CAST(u32),
    BREW(u32),
}

/// A spell can be cast from a stock when the slots hold what it adds and
/// the stock holds what it takes (whether it is exhausted is not looked
/// at).
pub open spec fn stock_can_cast(spell: Spell, stock: Ingredients) -> bool {
    &&& spell.delta_stock <= 10 - stock_total(stock)
    &&& forall|i: int| 0 <= i < 4 && spell.recipe[i] < 0 ==> stock[i] >= -spell.recipe[i]
}

/// The BREW edges of the first `n` orders.
pub open spec fn brew_edges(stock: Ingredients, orders: Seq<Order>, n: int) -> Seq<(StockEdge, Ingredients)>
    decreases n,
{
    if n <= 0 {
        Seq::empty()
    } else {
        brew_edges(stock, orders, n - 1) + if spec_can_fulfill_order(orders[n - 1], stock) {
            seq![(StockEdge::BREW(orders[n - 1].id), add_recipe(stock, orders[n - 1].recipe, 1))]
        } else {
            Seq::empty()
        }
    }
}

/// The CAST edges of the first `n` spells.
pub open spec fn cast_edges(stock: Ingredients, spells: Seq<Spell>, n: int) -> Seq<(StockEdge, Ingredients)>
    decreases n,
{
    if n <= 0 {
        Seq::empty()
    } else {
        cast_edges(stock, spells, n - 1) + if stock_can_cast(spells[n - 1], stock) {
            seq![(StockEdge::CAST(spells[n - 1].id), add_recipe(stock, spells[n - 1].recipe, 1))]
        } else {
            Seq::empty()
        }
    }
}

/// The edges out of a stock: the orders' first, then the spells'.
pub open spec fn edges_of(stock: Ingredients, orders: Seq<Order>, spells: Seq<Spell>) -> Seq<(StockEdge, Ingredients)> {
    brew_edges(stock, orders, orders.len() as int) + cast_edges(stock, spells, spells.len() as int)
}

fn can_cast_from(spell: &Spell, stock: &Ingredients) -> (b: bool)
    requires
        small_recipe(spell.recipe),
        valid_stock(*stock),
    ensures
        b == stock_can_cast(*spell, *stock),
{
    let empty_slots = 10 - stock[0] - stock[1] - stock[2] - stock[3];
    if spell.delta_stock > empty_slots {
        return false;
    }
    let mut i: usize = 0;
    while i < 4
        invariant
            i <= 4,
            small_recipe(spell.recipe),
            forall|j: int| 0 <= j < i && spell.recipe[j] < 0 ==> stock[j] >= -spell.recipe[j],
        decreases 4 - i,
    {
        if spell.recipe[i] < 0 && stock[i] < -spell.recipe[i] {
            return false;
        }
        i += 1;
    }
    true
}

fn stock_plus(stock: &Ingredients, recipe: &Ingredients) -> (r: Ingredients)
    requires
        valid_stock(*stock),
        small_recipe(*recipe),
    ensures
        r == add_recipe(*stock, *recipe, 1),
{
    let r = [stock[0] + recipe[0], stock[1] + recipe[1], stock[2] + recipe[2], stock[3] + recipe[3]];
    assert(r =~= add_recipe(*stock, *recipe, 1));
    r
}

/// The edges out of a stock a witch can hold (see `edges_of`).
pub fn stock_edges(stock: &Ingredients, orders: &[Order], spells: &[Spell]) -> (r: Vec<(StockEdge, Ingredients)>)
    requires
        valid_stock(*stock),
        forall|i: int| 0 <= i < orders@.len() ==> small_recipe(#[trigger] orders@[i].recipe),
        forall|i: int| 0 <= i < spells@.len() ==> small_recipe(#[trigger] spells@[i].recipe),
    ensures
        r@ == edges_of(*stock, orders@, spells@),
{
    let mut edges: Vec<(StockEdge, Ingredients)> = Vec::new();
    let mut i: usize = 0;
    while i < orders.len()
        invariant
            i <= orders@.len(),
            valid_stock(*stock),
            forall|j: int| 0 <= j < orders@.len() ==> small_recipe(#[trigger] orders@[j].recipe),
            edges@ == brew_edges(*stock, orders@, i as int),
        decreases orders@.len() - i,
    {
        let order = &orders[i];
        if can_fulfill_order(order, stock) {
            edges.push((StockEdge::BREW(order.id), stock_plus(stock, &order.recipe)));
        }
        i += 1;
    }
    let ghost brews = edges@;
    let mut k: usize = 0;
    while k < spells.len()
        invariant
            k <= spells@.len(),
            valid_stock(*stock),
            forall|j: int| 0 <= j < spells@.len() ==> small_recipe(#[trigger] spells@[j].recipe),
            brews == brew_edges(*stock, orders@, orders@.len() as int),
            edges@ == brews + cast_edges(*stock, spells@, k as int),
        decreases spells@.len() - k,
    {
        let spell = &spells[k];
        if can_cast_from(spell, stock) {
            edges.push((StockEdge::CAST(spell.id), stock_plus(stock, &spell.recipe)));
        }
        assert(edges@ =~= brews + cast_edges(*stock, spells@, k + 1));
        k += 1;
    }
    edges
}

} // verus!
