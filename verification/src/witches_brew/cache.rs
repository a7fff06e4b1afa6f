//! Tables a searching witch computes once: for every stock a witch can
//! hold, how many times each spell can be cast and which orders can be
//! fulfilled.
use vstd::prelude::*;
use crate::witches_brew::rules::{
    Ingredients, Spell, Order, valid_stock, consistent_spell, small_recipe, spec_tome_spells, spec_basic_spells,
    spec_all_orders, spec_how_many_times_can_cast_spell, spec_can_fulfill_order, get_tome_spells, get_basic_spells,
    get_all_orders, how_many_times_can_cast_spell, can_fulfill_order,
};
use crate::witches_brew::game::{lemma_tome_spells_consistent, lemma_orders_small};

verus! {

/// The number of spells of the game: 42 tome spells and 4 basic ones.
pub const EXISTING_SPELL_COUNT: usize = 46;

/// The number of orders of the game.
pub const EXISTING_ORDER_COUNT: usize = 36;

/// The 46 spells of the game, each at the position of its id.
pub open spec fn all_spells() -> Seq<Spell> {
    spec_tome_spells() + spec_basic_spells()
}

/// The place of a stock in the table of all amounts 0 to 10 of each tier.
pub open spec fn stock_index(s: Ingredients) -> int {
    s[0] * 1331 + s[1] * 121 + s[2] * 11 + s[3]
}

/// The stock at a place of the table of all amounts 0 to 10 of each tier.
pub open spec fn stock_at(j: int) -> Ingredients {
    [(j / 1331) as i8, ((j / 121) % 11) as i8, ((j / 11) % 11) as i8, (j % 11) as i8]
}

/// How many stocks a witch can hold come before place `j` of the table:
/// the ids are given in the table's order, one per such stock.
#[verifier::opaque]
pub open spec fn valid_before(j: int) -> nat
    decreases j,
{
    if j <= 0 {
        0
    } else {
        valid_before(j - 1) + if valid_stock(stock_at(j - 1)) {
            1nat
        } else {
            0nat
        }
    }
}

proof fn lemma_valid_before_grows(a: int, b: int)
    requires
        0 <= a < b,
        valid_stock(stock_at(a)),
    ensures
        valid_before(a) < valid_before(b),
    decreases b - a,
{
    reveal(valid_before);
    if b > a + 1 {
        lemma_valid_before_grows(a, b - 1);
    }
}

proof fn lemma_rows_pushed(tc: Seq<Vec<u8>>, cf: Seq<Vec<bool>>, t: Vec<u8>, f: Vec<bool>)
    requires
        tc.len() == cf.len(),
        forall|r: int| 0 <= r < tc.len() ==> {
            &&& (#[trigger] tc[r])@.len() == EXISTING_SPELL_COUNT
            &&& cf[r]@.len() == EXISTING_ORDER_COUNT
        },
        t@.len() == EXISTING_SPELL_COUNT,
        f@.len() == EXISTING_ORDER_COUNT,
    ensures
        forall|r: int| 0 <= r < tc.len() + 1 ==> {
            &&& (#[trigger] tc.push(t)[r])@.len() == EXISTING_SPELL_COUNT
            &&& cf.push(f)[r]@.len() == EXISTING_ORDER_COUNT
        },
{
    assert forall|r: int| 0 <= r < tc.len() + 1 implies {
        &&& (#[trigger] tc.push(t)[r])@.len() == EXISTING_SPELL_COUNT
        &&& cf.push(f)[r]@.len() == EXISTING_ORDER_COUNT
    } by {
        if r < tc.len() {
            assert(tc.push(t)[r] == tc[r] && cf.push(f)[r] == cf[r]);
        }
    }
}

/// Each amount of the stock is 0 to 10: the stock has a place in the table.
pub open spec fn in_table(s: Ingredients) -> bool {
    &&& 0 <= s[0] <= 10
    &&& 0 <= s[1] <= 10
    &&& 0 <= s[2] <= 10
    &&& 0 <= s[3] <= 10
}

/// The tables of a searching witch.
pub struct Cache {
    /// The id of each stock, by its place in the table of all amounts.
    stock_ids: Vec<usize>,
    /// By stock id and spell id: how many times the spell can be cast.
    times_can_cast: Vec<Vec<u8>>,
    /// By stock id and order id: whether the order can be fulfilled.
    can_fulfill: Vec<Vec<bool>>,
    /// The orders of the game, by id.
    orders: Vec<Order>,
    /// The spells of the game, by id.
    spells: Vec<Spell>,
}

/// The table row of a stock: how many times each spell can be cast.
pub open spec fn times_row_ok(row: Seq<u8>, s: Ingredients) -> bool {
    &&& row.len() == EXISTING_SPELL_COUNT
    &&& forall|k: int| 0 <= k < EXISTING_SPELL_COUNT ==> #[trigger] row[k] == spec_how_many_times_can_cast_spell(all_spells()[k], s)
}

/// The table row of a stock: which orders can be fulfilled.
pub open spec fn fulfill_row_ok(row: Seq<bool>, s: Ingredients) -> bool {
    &&& row.len() == EXISTING_ORDER_COUNT
    &&& forall|k: int| 0 <= k < EXISTING_ORDER_COUNT ==> #[trigger] row[k] == spec_can_fulfill_order(spec_all_orders()[k], s)
}

impl Cache {
    /// Every stock a witch can hold has an id with the right rows.
    pub closed spec fn wf(&self) -> bool {
        &&& self.stock_ids@.len() == 14641
        &&& self.orders@ == spec_all_orders()
        &&& self.spells@ == all_spells()
        &&& self.times_can_cast@.len() == self.can_fulfill@.len()
        &&& forall|j: int| 0 <= j < 14641 ==> #[trigger] self.stock_ids@[j] < self.times_can_cast@.len()
        &&& forall|r: int| 0 <= r < self.times_can_cast@.len() ==> {
            &&& (#[trigger] self.times_can_cast@[r])@.len() == EXISTING_SPELL_COUNT
            &&& self.can_fulfill@[r]@.len() == EXISTING_ORDER_COUNT
        }
        &&& forall|j: int| 0 <= j < 14641 && valid_stock(#[trigger] stock_at(j)) ==> {
            &&& self.stock_ids@[j] == valid_before(j)
            &&& self.stock_ids@[j] < self.times_can_cast@.len()
            &&& times_row_ok(self.times_can_cast@[self.stock_ids@[j] as int]@, stock_at(j))
            &&& fulfill_row_ok(self.can_fulfill@[self.stock_ids@[j] as int]@, stock_at(j))
        }
    }

    /// The number of stock ids.
    pub closed spec fn row_count(&self) -> int {
        self.times_can_cast@.len() as int
    }

    /// Every stock of the table has an id.
    pub proof fn lemma_ids(&self, s: Ingredients)
        requires
            self.wf(),
            in_table(s),
        ensures
            0 <= self.stock_id(s) < self.row_count(),
    {
        assert(0 <= stock_index(s) < 14641);
    }

    /// The id of a stock.
    pub closed spec fn stock_id(&self, s: Ingredients) -> int {
        self.stock_ids@[stock_index(s)] as int
    }

    /// How many times the spell `spell_id` can be cast from the stock of
    /// id `stock_id`, as the table says.
    pub closed spec fn times_at(&self, stock_id: int, spell_id: int) -> int {
        self.times_can_cast@[stock_id]@[spell_id] as int
    }

    /// A count of the table is a byte.
    pub proof fn lemma_times_at_byte(&self, stock_id: int, spell_id: int)
        ensures
            0 <= self.times_at(stock_id, spell_id) <= 255,
    {
    }

    /// Whether the order `order_id` can be fulfilled from the stock of id
    /// `stock_id`, as the table says.
    pub closed spec fn fulfills_at(&self, stock_id: int, order_id: int) -> bool {
        self.can_fulfill@[stock_id]@[order_id]
    }

    /// What the tables say of a stock a witch can hold.
    pub proof fn lemma_tables(&self, s: Ingredients)
        requires
            self.wf(),
            valid_stock(s),
        ensures
            forall|k: int| 0 <= k < EXISTING_SPELL_COUNT ==> #[trigger] self.times_at(self.stock_id(s), k)
                == spec_how_many_times_can_cast_spell(all_spells()[k], s),
            forall|k: int| 0 <= k < EXISTING_ORDER_COUNT ==> #[trigger] self.fulfills_at(self.stock_id(s), k)
                == spec_can_fulfill_order(spec_all_orders()[k], s),
    {
        lemma_stock_index(s);
        let j = stock_index(s);
        assert(valid_stock(stock_at(j)));
    }

    /// Builds the tables; stocks get ids in increasing order of their
    /// amounts of tier 0, then 1, 2 and 3.
    #[verifier::spinoff_prover]
    #[verifier::rlimit(40)]
    pub fn new() -> (c: Self)
        ensures
            c.wf(),
    {
        let spells = all_spell_list();
        let orders = get_all_orders();
        proof {
            lemma_all_spells_consistent();
            lemma_orders_small();
        }
        let mut stock_ids: Vec<usize> = Vec::new();
        let mut times_can_cast: Vec<Vec<u8>> = Vec::new();
        let mut can_fulfill: Vec<Vec<bool>> = Vec::new();
        let mut id: usize = 0;
        let mut j: usize = 0;
        assert(valid_before(0) == 0) by {
            reveal(valid_before);
        }
        while j < 14641
            invariant
                j <= 14641,
                spells@ == all_spells(),
                orders@ == spec_all_orders(),
                forall|k: int| 0 <= k < EXISTING_SPELL_COUNT ==> consistent_spell(#[trigger] all_spells()[k]),
                forall|k: int| 0 <= k < EXISTING_ORDER_COUNT ==> small_recipe(#[trigger] spec_all_orders()[k].recipe),
                stock_ids@.len() == j,
                times_can_cast@.len() == id,
                can_fulfill@.len() == id,
                id <= j,
                id == valid_before(j as int),
                j > 0 ==> id > 0,
                forall|i: int| 0 <= i < j ==> #[trigger] stock_ids@[i] < id,
                forall|r: int| 0 <= r < id ==> {
                    &&& (#[trigger] times_can_cast@[r])@.len() == EXISTING_SPELL_COUNT
                    &&& can_fulfill@[r]@.len() == EXISTING_ORDER_COUNT
                },
                forall|i: int| 0 <= i < j && valid_stock(#[trigger] stock_at(i)) ==> {
                    &&& stock_ids@[i] == valid_before(i)
                    &&& stock_ids@[i] < id
                    &&& times_row_ok(times_can_cast@[stock_ids@[i] as int]@, stock_at(i))
                    &&& fulfill_row_ok(can_fulfill@[stock_ids@[i] as int]@, stock_at(i))
                },
            decreases 14641 - j,
        {
            let t0 = j / 1331;
            let t1 = (j / 121) % 11;
            let t2 = (j / 11) % 11;
            let t3 = j % 11;
            if t0 + t1 + t2 + t3 <= 10 {
                let s: Ingredients = [t0 as i8, t1 as i8, t2 as i8, t3 as i8];
                assert(s =~= stock_at(j as int));
                let mut times_row: Vec<u8> = Vec::new();
                let mut k: usize = 0;
                while k < EXISTING_SPELL_COUNT
                    invariant
                        k <= EXISTING_SPELL_COUNT,
                        spells@ == all_spells(),
                        valid_stock(s),
                        forall|i: int| 0 <= i < EXISTING_SPELL_COUNT ==> consistent_spell(#[trigger] all_spells()[i]),
                        times_row@.len() == k,
                        forall|i: int| 0 <= i < k ==> #[trigger] times_row@[i] == spec_how_many_times_can_cast_spell(all_spells()[i], s),
                    decreases EXISTING_SPELL_COUNT - k,
                {
                    times_row.push(how_many_times_can_cast_spell(&spells[k], &s));
                    k += 1;
                }
                let mut fulfill_row: Vec<bool> = Vec::new();
                let mut k: usize = 0;
                while k < EXISTING_ORDER_COUNT
                    invariant
                        k <= EXISTING_ORDER_COUNT,
                        orders@ == spec_all_orders(),
                        forall|i: int| 0 <= i < EXISTING_ORDER_COUNT ==> small_recipe(#[trigger] spec_all_orders()[i].recipe),
                        fulfill_row@.len() == k,
                        forall|i: int| 0 <= i < k ==> #[trigger] fulfill_row@[i] == spec_can_fulfill_order(spec_all_orders()[i], s),
                    decreases EXISTING_ORDER_COUNT - k,
                {
                    fulfill_row.push(can_fulfill_order(&orders[k], &s));
                    k += 1;
                }
                let ghost tc0 = times_can_cast@;
                let ghost cf0 = can_fulfill@;
                stock_ids.push(id);
                times_can_cast.push(times_row);
                can_fulfill.push(fulfill_row);
                assert(valid_before(j + 1) == valid_before(j as int) + 1) by {
                    reveal(valid_before);
                }
                proof {
                    lemma_rows_pushed(tc0, cf0, times_row, fulfill_row);
                }
                assert(times_can_cast@ == tc0.push(times_row) && can_fulfill@ == cf0.push(fulfill_row));
                assert(forall|r: int| 0 <= r < id + 1 ==> {
                    &&& (#[trigger] times_can_cast@[r])@.len() == EXISTING_SPELL_COUNT
                    &&& can_fulfill@[r]@.len() == EXISTING_ORDER_COUNT
                });
                id += 1;
            } else {
                assert(!valid_stock(stock_at(j as int)));
                assert(j > 0);
                assert(valid_before(j + 1) == valid_before(j as int)) by {
                    reveal(valid_before);
                }
                let ghost tc0 = times_can_cast@;
                stock_ids.push(0);
                assert(times_can_cast@ == tc0);
                assert(forall|r: int| 0 <= r < id ==> {
                    &&& (#[trigger] times_can_cast@[r])@.len() == EXISTING_SPELL_COUNT
                    &&& can_fulfill@[r]@.len() == EXISTING_ORDER_COUNT
                });
            }
            j += 1;
        }
        proof {
            lemma_all_spells_consistent();
        }
        Cache { stock_ids, times_can_cast, can_fulfill, orders, spells }
    }

    /// The order of the game with id `order_id`.
    #[allow(non_snake_case)]
    pub fn getOrder(&self, order_id: u32) -> (o: Order)
        requires
            self.wf(),
            order_id < EXISTING_ORDER_COUNT,
        ensures
            o == spec_all_orders()[order_id as int],
    {
        self.orders[order_id as usize]
    }

    /// The spell of the game with id `spell_id`.
    #[allow(non_snake_case)]
    pub fn getSpell(&self, spell_id: u32) -> (sp: Spell)
        requires
            self.wf(),
            spell_id < EXISTING_SPELL_COUNT,
        ensures
            sp == all_spells()[spell_id as int],
    {
        proof {
            lemma_all_spells_consistent();
        }
        self.spells[spell_id as usize]
    }

    /// The number of stock ids.
    pub fn stock_count(&self) -> (n: usize)
        ensures
            n == self.row_count(),
    {
        self.times_can_cast.len()
    }

    /// The id of a stock (see `stock_id`).
    #[allow(non_snake_case)]
    pub fn getStockId(&self, stockArr: &Ingredients) -> (id: usize)
        requires
            self.wf(),
            in_table(*stockArr),
        ensures
            id == self.stock_id(*stockArr),
            id < self.row_count(),
            valid_stock(*stockArr) ==> id == valid_before(stock_index(*stockArr)),
    {
        let j = (stockArr[0] as usize) * 1331 + (stockArr[1] as usize) * 121 + (stockArr[2] as usize) * 11
            + (stockArr[3] as usize);
        proof {
            if valid_stock(*stockArr) {
                lemma_stock_index(*stockArr);
            }
        }
        self.stock_ids[j]
    }

    /// How many times the spell `spell_id` can be cast from the stock of id
    /// `stock_id` (see `lemma_tables`).
    pub fn how_many_times_can_cast_spell(&self, spell_id: u32, stock_id: usize) -> (t: u8)
        requires
            self.wf(),
            stock_id < self.row_count(),
            spell_id < EXISTING_SPELL_COUNT,
        ensures
            t == self.times_at(stock_id as int, spell_id as int),
    {
        self.times_can_cast[stock_id][spell_id as usize]
    }

    /// Whether the order `order_id` can be fulfilled from the stock of id
    /// `stock_id` (see `lemma_tables`).
    pub fn can_fulfill_order(&self, order_id: u32, stock_id: usize) -> (b: bool)
        requires
            self.wf(),
            stock_id < self.row_count(),
            order_id < EXISTING_ORDER_COUNT,
        ensures
            b == self.fulfills_at(stock_id as int, order_id as int),
    {
        assert(self.times_can_cast@[stock_id as int]@.len() == EXISTING_SPELL_COUNT);
        self.can_fulfill[stock_id][order_id as usize]
    }
}

/// A stock a witch can hold sits in the table at its place.
/// Two different stocks a witch can hold have different ids.
pub proof fn law_stock_ids_distinct(c: Cache, s: Ingredients, t: Ingredients)
    requires
        c.wf(),
        valid_stock(s),
        valid_stock(t),
        s != t,
    ensures
        c.stock_id(s) != c.stock_id(t),
{
    lemma_stock_index(s);
    lemma_stock_index(t);
    let a = stock_index(s);
    let b = stock_index(t);
    assert(a != b);
    if a < b {
        lemma_valid_before_grows(a, b);
    } else {
        lemma_valid_before_grows(b, a);
    }
}

pub proof fn lemma_stock_index(s: Ingredients)
    requires
        valid_stock(s),
    ensures
        0 <= stock_index(s) < 14641,
        stock_at(stock_index(s)) == s,
{
    let a = s[0] as int;
    let b = s[1] as int;
    let c = s[2] as int;
    let d = s[3] as int;
    let j = stock_index(s);
    assert(j == ((a * 11 + b) * 11 + c) * 11 + d);
    vstd::arithmetic::div_mod::lemma_fundamental_div_mod_converse(j, 11, (a * 11 + b) * 11 + c, d);
    vstd::arithmetic::div_mod::lemma_fundamental_div_mod_converse((a * 11 + b) * 11 + c, 11, a * 11 + b, c);
    vstd::arithmetic::div_mod::lemma_fundamental_div_mod_converse(a * 11 + b, 11, a, b);
    vstd::arithmetic::div_mod::lemma_div_denominator(j, 11, 11);
    vstd::arithmetic::div_mod::lemma_div_denominator(j, 121, 11);
    assert(j / 121 == a * 11 + b);
    assert(j / 1331 == a);
    assert(stock_at(j) =~= s);
}

pub proof fn lemma_all_spells_consistent()
    ensures
        all_spells().len() == EXISTING_SPELL_COUNT,
        forall|k: int| 0 <= k < EXISTING_SPELL_COUNT ==> consistent_spell(#[trigger] all_spells()[k]),
        forall|k: int| 0 <= k < EXISTING_SPELL_COUNT ==> (#[trigger] all_spells()[k]).id == k,
{
    lemma_tome_spells_consistent();
    assert forall|k: int| 0 <= k < EXISTING_SPELL_COUNT implies consistent_spell(#[trigger] all_spells()[k]) by {
        if k >= 42 {
            assert(all_spells()[k] == spec_basic_spells()[k - 42]);
        } else {
            assert(all_spells()[k] == spec_tome_spells()[k]);
        }
    }
    assert forall|k: int| 0 <= k < EXISTING_SPELL_COUNT implies (#[trigger] all_spells()[k]).id == k by {
        if k >= 42 {
            assert(all_spells()[k] == spec_basic_spells()[k - 42]);
        } else {
            assert(all_spells()[k] == spec_tome_spells()[k]);
        }
    }
}

/// The 46 spells of the game, by id.
fn all_spell_list() -> (spells: Vec<Spell>)
    ensures
        spells@ == all_spells(),
{
    let mut spells = get_tome_spells();
    let basic = get_basic_spells();
    let mut i: usize = 0;
    let ghost tome = spells@;
    while i < 4
        invariant
            i <= 4,
            basic@ == spec_basic_spells(),
            tome == spec_tome_spells(),
            spells@ == tome + basic@.take(i as int),
        decreases 4 - i,
    {
        spells.push(basic[i]);
        assert(basic@.take(i + 1) == basic@.take(i as int).push(basic@[i as int]));
        i += 1;
    }
    assert(basic@.take(4) == basic@);
    spells
}

} // verus!
