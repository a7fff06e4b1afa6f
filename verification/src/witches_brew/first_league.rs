//! The bot of the first league of the potion game: it brews the best paid
//! order its stock can fulfill, or waits.
use vstd::prelude::*;
use crate::text::{line_field, nth_piece, read_field, trimmed_piece_bounds, str_chars, push_i64, signed_decimal};
use crate::witches_brew::protocol::push_chars;

verus! {

/// Amounts of the four ingredient tiers, as the first league reads them.
pub type Ingredients = [i32; 4];

/// An order of the first league: `ingredients` holds minus what it takes.
#[derive(Copy, Clone, Debug)]
pub struct Order {
    pub id: i32,
    pub ingredients: Ingredients,
    pub price: i32,
}

pub open spec fn spec_can_fulfill_order(order: Order, stock: Ingredients) -> bool {
    &&& stock[0] >= -order.ingredients[0]
    &&& stock[1] >= -order.ingredients[1]
    &&& stock[2] >= -order.ingredients[2]
    &&& stock[3] >= -order.ingredients[3]
}

/// No amount is `i32::MIN` (whose opposite does not fit).
pub open spec fn negatable(r: Ingredients) -> bool {
    r[0] > i32::MIN && r[1] > i32::MIN && r[2] > i32::MIN && r[3] > i32::MIN
}

pub fn can_fulfill_order(order: &Order, ingredient_stock: &Ingredients) -> (b: bool)
    requires
        negatable(order.ingredients),
    ensures
        b == spec_can_fulfill_order(*order, *ingredient_stock),
{
    ingredient_stock[0] >= -order.ingredients[0] && ingredient_stock[1] >= -order.ingredients[1]
        && ingredient_stock[2] >= -order.ingredients[2] && ingredient_stock[3] >= -order.ingredients[3]
}

/// The first order among the first `n` with the highest price of those the
/// stock can fulfill.
pub open spec fn best_order(orders: Seq<Order>, stock: Ingredients, n: int) -> Option<Order>
    decreases n,
{
    if n <= 0 {
        None
    } else {
        let best = best_order(orders, stock, n - 1);
        let o = orders[n - 1];
        if spec_can_fulfill_order(o, stock) && (best is None || o.price > best->0.price) {
            Some(o)
        } else {
            best
        }
    }
}

/// The first best paid order the stock can fulfill (see `best_order`).
pub fn largest_order(orders: &[Order], my_stock: &Ingredients) -> (r: Option<Order>)
    requires
        forall|i: int| 0 <= i < orders@.len() ==> negatable(#[trigger] orders@[i].ingredients),
    ensures
        r == best_order(orders@, *my_stock, orders@.len() as int),
{
    let mut largest: Option<Order> = None;
    let mut i: usize = 0;
    while i < orders.len()
        invariant
            i <= orders@.len(),
            forall|j: int| 0 <= j < orders@.len() ==> negatable(#[trigger] orders@[j].ingredients),
            largest == best_order(orders@, *my_stock, i as int),
        decreases orders@.len() - i,
    {
        let order = orders[i];
        if can_fulfill_order(&order, my_stock) {
            let better = match largest {
                None => true,
                Some(l) => order.price > l.price,
            };
            if better {
                largest = Some(order);
            }
        }
        i += 1;
    }
    largest
}

/// The answer of the bot: `BREW id` of the best order, else `WAIT`.
pub open spec fn answer_text(best: Option<Order>) -> Seq<char> {
    match best {
        Some(o) => seq!['B', 'R', 'E', 'W', ' '] + signed_decimal(o.id as int),
        None => seq!['W', 'A', 'I', 'T'],
    }
}

/// The answer for the orders in play and the bot's stock.
pub fn answer(orders: &[Order], my_stock: &Ingredients) -> (s: String)
    requires
        forall|i: int| 0 <= i < orders@.len() ==> negatable(#[trigger] orders@[i].ingredients),
    ensures
        s@ == answer_text(best_order(orders@, *my_stock, orders@.len() as int)),
{
    let mut s = String::new();
    match largest_order(orders, my_stock) {
        None => push_chars(&mut s, &['W', 'A', 'I', 'T']),
        Some(o) => {
            push_chars(&mut s, &['B', 'R', 'E', 'W', ' ']);
            push_i64(&mut s, o.id as i64);
        },
    }
    assert(s@ =~= answer_text(best_order(orders@, *my_stock, orders@.len() as int)));
    s
}

pub open spec fn i32_field(line: Seq<char>, k: nat) -> Option<int> {
    line_field(line, k, i32::MIN as int, i32::MAX as int)
}

/// An entity line read as an order: its id, the four changes and the price
/// (the other numbers must read as `i32` too, and the type word be there).
pub open spec fn spec_order_line(line: Seq<char>) -> Option<Order> {
    if nth_piece(line, ' ', 1) is Some && i32_field(line, 0) is Some && i32_field(line, 2) is Some && i32_field(line, 3)
        is Some && i32_field(line, 4) is Some && i32_field(line, 5) is Some && i32_field(line, 6) is Some
        && i32_field(line, 7) is Some && i32_field(line, 8) is Some && i32_field(line, 9) is Some && i32_field(
        line,
        10,
    ) is Some {
        Some(
            Order {
                id: i32_field(line, 0)->0 as i32,
                ingredients: [
                    i32_field(line, 2)->0 as i32,
                    i32_field(line, 3)->0 as i32,
                    i32_field(line, 4)->0 as i32,
                    i32_field(line, 5)->0 as i32,
                ],
                price: i32_field(line, 6)->0 as i32,
            },
        )
    } else {
        None
    }
}

/// Reads an entity line as an order (see `spec_order_line`).
pub fn order_line(line: &str) -> (r: Option<Order>)
    ensures
        r == spec_order_line(line@),
{
    let cs = str_chars(line);
    if trimmed_piece_bounds(cs.as_slice(), 1).is_none() {
        return None;
    }
    let mut v: Vec<i32> = Vec::new();
    let mut k: usize = 0;
    while k < 11
        invariant
            k <= 11,
            cs@ == line@,
            nth_piece(line@, ' ', 1) is Some,
            v@.len() == k,
            forall|j: int| 0 <= j < k && j != 1 ==> i32_field(line@, j as nat) == Some(#[trigger] v@[j] as int),
        decreases 11 - k,
    {
        if k == 1 {
            v.push(0);
        } else {
            match read_field(cs.as_slice(), k, i32::MIN as i64, i32::MAX as i64) {
                Some(x) => v.push(x as i32),
                None => {
                    return None;
                },
            }
        }
        k += 1;
    }
    assert(i32_field(line@, 0) == Some(v@[0] as int));
    assert(i32_field(line@, 2) == Some(v@[2] as int));
    assert(i32_field(line@, 3) == Some(v@[3] as int));
    assert(i32_field(line@, 4) == Some(v@[4] as int));
    assert(i32_field(line@, 5) == Some(v@[5] as int));
    assert(i32_field(line@, 6) == Some(v@[6] as int));
    assert(i32_field(line@, 7) == Some(v@[7] as int));
    assert(i32_field(line@, 8) == Some(v@[8] as int));
    assert(i32_field(line@, 9) == Some(v@[9] as int));
    assert(i32_field(line@, 10) == Some(v@[10] as int));
    let o = Order { id: v[0], ingredients: [v[2], v[3], v[4], v[5]], price: v[6] };
    assert(o.ingredients =~= spec_order_line(line@)->0.ingredients);
    Some(o)
}

/// A stock line: the four amounts (and the score) as `i32`.
pub open spec fn spec_stock_line(line: Seq<char>) -> Option<Ingredients> {
    if i32_field(line, 0) is Some && i32_field(line, 1) is Some && i32_field(line, 2) is Some && i32_field(line, 3)
        is Some && i32_field(line, 4) is Some {
        Some(
            [
                i32_field(line, 0)->0 as i32,
                i32_field(line, 1)->0 as i32,
                i32_field(line, 2)->0 as i32,
                i32_field(line, 3)->0 as i32,
            ],
        )
    } else {
        None
    }
}

pub fn stock_line(line: &str) -> (r: Option<Ingredients>)
    ensures
        r == spec_stock_line(line@),
{
    let cs = str_chars(line);
    let a = read_field(cs.as_slice(), 0, i32::MIN as i64, i32::MAX as i64);
    let b = read_field(cs.as_slice(), 1, i32::MIN as i64, i32::MAX as i64);
    let c = read_field(cs.as_slice(), 2, i32::MIN as i64, i32::MAX as i64);
    let d = read_field(cs.as_slice(), 3, i32::MIN as i64, i32::MAX as i64);
    let e = read_field(cs.as_slice(), 4, i32::MIN as i64, i32::MAX as i64);
    match (a, b, c, d, e) {
        (Some(a), Some(b), Some(c), Some(d), Some(_)) => {
            let r: Ingredients = [a as i32, b as i32, c as i32, d as i32];
            assert(r =~= spec_stock_line(line@)->0);
            Some(r)
        },
        _ => None,
    }
}

} // verus!
