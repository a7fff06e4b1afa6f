//! The input lines the referee of the potion brewing game sends.
use vstd::prelude::*;
use crate::text::{decimal, signed_decimal, push_char, push_u64, push_i64, nth_piece, line_field, find_char, lemma_find_char_is, lemma_decimal_digits, lemma_trim_decimal, law_parse_decimal, trim};
use crate::witches_brew::protocol::push_chars;
use crate::witches_brew::rules::{Ingredients, Order, Spell};
use crate::witches_brew::game::{GameModel, PlayerModel};
use crate::game::lines_of;

verus! {

pub open spec fn space() -> Seq<char> {
    seq![' ']
}

pub open spec fn flag(b: bool) -> Seq<char> {
    if b {
        seq!['1']
    } else {
        seq!['0']
    }
}

/// The four amounts, separated by spaces.
pub open spec fn recipe_text(r: Ingredients) -> Seq<char> {
    signed_decimal(r[0] as int) + space() + signed_decimal(r[1] as int) + space() + signed_decimal(
        r[2] as int,
    ) + space() + signed_decimal(r[3] as int)
}

/// How many bonuses of an order's kind are left.
pub open spec fn bonus_left(bonus: u8, plus_3: int, plus_1: int) -> int {
    if bonus == 3 {
        plus_3
    } else if bonus == 1 {
        plus_1
    } else {
        0
    }
}

/// `id BREW r0 r1 r2 r3 price+bonus bonus bonus_left 0 0`
pub open spec fn order_line(o: Order, plus_3: int, plus_1: int) -> Seq<char> {
    decimal(o.id as nat) + seq![' ', 'B', 'R', 'E', 'W', ' '] + recipe_text(o.recipe) + space()
        + decimal((o.price + o.bonus) as nat) + space() + decimal(o.bonus as nat) + space() + decimal(
        bonus_left(o.bonus, plus_3, plus_1) as nat,
    ) + seq![' ', '0', ' ', '0']
}

/// `id LEARN r0 r1 r2 r3 0 position tax 0 repeatable`
pub open spec fn learn_line(sp: Spell, idx: int) -> Seq<char> {
    decimal(sp.id as nat) + seq![' ', 'L', 'E', 'A', 'R', 'N', ' '] + recipe_text(sp.recipe) + seq![
        ' ',
        '0',
        ' ',
    ] + decimal(idx as nat) + space() + decimal(sp.tax as nat) + seq![' ', '0', ' '] + flag(
        sp.repeatable,
    )
}

pub open spec fn cast_word(opponent: bool) -> Seq<char> {
    if opponent {
        seq![' ', 'O', 'P', 'P', 'O', 'N', 'E', 'N', 'T', '_', 'C', 'A', 'S', 'T', ' ']
    } else {
        seq![' ', 'C', 'A', 'S', 'T', ' ']
    }
}

/// `id CAST r0 r1 r2 r3 0 -1 -1 active repeatable` (`OPPONENT_CAST` for
/// the other player's spells)
pub open spec fn cast_line(sp: Spell, opponent: bool) -> Seq<char> {
    decimal(sp.id as nat) + cast_word(opponent) + recipe_text(sp.recipe) + seq![
        ' ',
        '0',
        ' ',
        '-',
        '1',
        ' ',
        '-',
        '1',
        ' ',
    ] + flag(sp.active) + space() + flag(sp.repeatable)
}

/// `s0 s1 s2 s3 rupees`
pub open spec fn stock_line(p: PlayerModel) -> Seq<char> {
    recipe_text(p.stock) + space() + decimal(p.rupees as nat)
}

/// The text has no space.
pub open spec fn no_space(a: Seq<char>) -> bool {
    forall|i: int| 0 <= i < a.len() ==> #[trigger] a[i] != ' '
}

proof fn lemma_decimal_no_space(n: nat)
    ensures
        no_space(decimal(n)),
{
    lemma_decimal_digits(n);
}

proof fn lemma_signed_no_space(n: int)
    ensures
        no_space(signed_decimal(n)),
{
    if n < 0 {
        lemma_decimal_no_space((-n) as nat);
        let d = decimal((-n) as nat);
        assert forall|i: int| 0 <= i < (seq!['-'] + d).len() implies #[trigger] (seq!['-'] + d)[i] != ' ' by {
            if i > 0 {
                assert((seq!['-'] + d)[i] == d[i - 1]);
            }
        }
    } else {
        lemma_decimal_no_space(n as nat);
    }
}

/// Splitting at spaces: the first piece of `a b` is `a`, and the pieces
/// after it are those of `b`.
proof fn lemma_pieces_after(a: Seq<char>, b: Seq<char>, k: nat)
    requires
        no_space(a),
    ensures
        nth_piece(a + seq![' '] + b, ' ', 0) == Some(a),
        nth_piece(a + seq![' '] + b, ' ', k + 1) == nth_piece(b, ' ', k),
{
    let s = a + seq![' '] + b;
    assert(s[a.len() as int] == ' ');
    assert forall|j: int| 0 <= j < a.len() implies s[j] != ' ' by {
        assert(s[j] == a[j]);
    }
    lemma_find_char_is(s, ' ', a.len() as int);
    assert(s.take(a.len() as int) =~= a);
    assert(s.skip(a.len() as int + 1) =~= b);
}

/// The price a BREW line of the turn input shows, read back as a number
/// the way the players read it, is the order's price plus its bonus: the
/// rupees brewing it gives.
#[verifier::rlimit(60)]
#[verifier::spinoff_prover]
pub proof fn law_order_line_shows_price_with_bonus(o: Order, plus_3: int, plus_1: int)
    ensures
        line_field(order_line(o, plus_3, plus_1), 6, 0, u32::MAX as int) == Some(o.price + o.bonus),
{
    let price = (o.price + o.bonus) as nat;
    let tail = decimal(o.bonus as nat) + space() + decimal(bonus_left(o.bonus, plus_3, plus_1) as nat) + seq![' ', '0', ' ', '0'];
    let d0 = signed_decimal(o.recipe[0] as int);
    let d1 = signed_decimal(o.recipe[1] as int);
    let d2 = signed_decimal(o.recipe[2] as int);
    let d3 = signed_decimal(o.recipe[3] as int);
    let brew = seq!['B', 'R', 'E', 'W'];
    let p6 = decimal(price) + seq![' '] + tail;
    let p5 = d3 + seq![' '] + p6;
    let p4 = d2 + seq![' '] + p5;
    let p3 = d1 + seq![' '] + p4;
    let p2 = d0 + seq![' '] + p3;
    let p1 = brew + seq![' '] + p2;
    let line = decimal(o.id as nat) + seq![' '] + p1;
    assert(order_line(o, plus_3, plus_1) == line) by {
        assert(order_line(o, plus_3, plus_1) =~= line);
    }
    assert(nth_piece(line, ' ', 6) == Some(decimal(price))) by {
        lemma_decimal_no_space(o.id as nat);
        lemma_decimal_no_space(price);
        lemma_signed_no_space(o.recipe[0] as int);
        lemma_signed_no_space(o.recipe[1] as int);
        lemma_signed_no_space(o.recipe[2] as int);
        lemma_signed_no_space(o.recipe[3] as int);
        assert(no_space(brew));
        lemma_pieces_after(decimal(o.id as nat), p1, 5);
        lemma_pieces_after(brew, p2, 4);
        lemma_pieces_after(d0, p3, 3);
        lemma_pieces_after(d1, p4, 2);
        lemma_pieces_after(d2, p5, 1);
        lemma_pieces_after(d3, p6, 0);
        lemma_pieces_after(decimal(price), tail, 0);
    }
    lemma_trim_decimal(price);
    law_parse_decimal(price, u32::MAX as int);
}

fn push_flag(s: &mut String, b: bool)
    ensures
        final(s)@ == old(s)@ + flag(b),
{
    push_char(s, if b { '1' } else { '0' });
    assert(final(s)@ =~= old(s)@ + flag(b));
}

pub fn push_recipe(s: &mut String, r: &Ingredients)
    ensures
        final(s)@ == old(s)@ + recipe_text(*r),
{
    push_i64(s, r[0] as i64);
    push_char(s, ' ');
    push_i64(s, r[1] as i64);
    push_char(s, ' ');
    push_i64(s, r[2] as i64);
    push_char(s, ' ');
    push_i64(s, r[3] as i64);
    assert(final(s)@ =~= old(s)@ + recipe_text(*r));
}

pub fn order_line_text(o: &Order, plus_3: u8, plus_1: u8) -> (s: String)
    ensures
        s@ == order_line(*o, plus_3 as int, plus_1 as int),
{
    let mut s = String::new();
    push_u64(&mut s, o.id as u64);
    push_chars(&mut s, &[' ', 'B', 'R', 'E', 'W', ' ']);
    push_recipe(&mut s, &o.recipe);
    push_char(&mut s, ' ');
    push_u64(&mut s, o.price as u64 + o.bonus as u64);
    push_char(&mut s, ' ');
    push_u64(&mut s, o.bonus as u64);
    push_char(&mut s, ' ');
    let left: u8 = if o.bonus == 3 { plus_3 } else if o.bonus == 1 { plus_1 } else { 0 };
    push_u64(&mut s, left as u64);
    push_chars(&mut s, &[' ', '0', ' ', '0']);
    assert(s@ =~= order_line(*o, plus_3 as int, plus_1 as int));
    s
}

pub fn learn_line_text(sp: &Spell, idx: usize) -> (s: String)
    ensures
        s@ == learn_line(*sp, idx as int),
{
    let mut s = String::new();
    push_u64(&mut s, sp.id as u64);
    push_chars(&mut s, &[' ', 'L', 'E', 'A', 'R', 'N', ' ']);
    push_recipe(&mut s, &sp.recipe);
    push_chars(&mut s, &[' ', '0', ' ']);
    push_u64(&mut s, idx as u64);
    push_char(&mut s, ' ');
    push_u64(&mut s, sp.tax as u64);
    push_chars(&mut s, &[' ', '0', ' ']);
    push_flag(&mut s, sp.repeatable);
    assert(s@ =~= learn_line(*sp, idx as int));
    s
}

pub fn cast_line_text(sp: &Spell, opponent: bool) -> (s: String)
    ensures
        s@ == cast_line(*sp, opponent),
{
    let mut s = String::new();
    push_u64(&mut s, sp.id as u64);
    if opponent {
        push_chars(&mut s, &[' ', 'O', 'P', 'P', 'O', 'N', 'E', 'N', 'T', '_', 'C', 'A', 'S', 'T', ' ']);
    } else {
        push_chars(&mut s, &[' ', 'C', 'A', 'S', 'T', ' ']);
    }
    push_recipe(&mut s, &sp.recipe);
    push_chars(&mut s, &[' ', '0', ' ', '-', '1', ' ', '-', '1', ' ']);
    push_flag(&mut s, sp.active);
    push_char(&mut s, ' ');
    push_flag(&mut s, sp.repeatable);
    assert(s@ =~= cast_line(*sp, opponent));
    s
}

pub fn stock_line_text(stock: &Ingredients, rupees: u32) -> (s: String)
    ensures
        s@ == recipe_text(*stock) + space() + decimal(rupees as nat),
{
    let mut s = String::new();
    push_recipe(&mut s, stock);
    push_char(&mut s, ' ');
    push_u64(&mut s, rupees as u64);
    assert(s@ =~= recipe_text(*stock) + space() + decimal(rupees as nat));
    s
}

/// The order lines of the counter.
pub open spec fn order_lines(c: Seq<Order>, plus_3: int, plus_1: int) -> Seq<Seq<char>> {
    c.map_values(|o: Order| order_line(o, plus_3, plus_1))
}

/// The learn lines of the tome, each with its position.
pub open spec fn learn_lines(t: Seq<Spell>) -> Seq<Seq<char>> {
    t.map(|i: int, sp: Spell| learn_line(sp, i))
}

/// The cast lines of a witch's spells.
pub open spec fn cast_lines(s: Seq<Spell>, opponent: bool) -> Seq<Seq<char>> {
    s.map_values(|sp: Spell| cast_line(sp, opponent))
}

/// The number of actions a turn lists: orders, both witches' spells and the
/// tome.
pub open spec fn action_count(g: GameModel) -> nat {
    g.counter_orders.len() + g.players[0].spells.len() + g.players[1].spells.len() + g.tome.len()
}

/// The input of the active witch: the number of actions, the orders, the
/// tome, its spells, the other witch's spells, then both stocks, its own
/// first.
pub open spec fn turn_lines(g: GameModel) -> Seq<Seq<char>> {
    let me = g.players[g.active_player];
    let other = g.players[(g.active_player + 1) % 2];
    seq![decimal(action_count(g))] + order_lines(g.counter_orders, g.plus_3, g.plus_1)
        + learn_lines(g.tome) + cast_lines(me.spells, false) + cast_lines(other.spells, true)
        + seq![stock_line(me), stock_line(other)]
}

pub fn push_order_lines(out: &mut Vec<String>, orders: &[Order], plus_3: u8, plus_1: u8)
    ensures
        lines_of(final(out)@) == lines_of(old(out)@) + order_lines(orders@, plus_3 as int, plus_1 as int),
{
    let ghost start = out@;
    let mut i: usize = 0;
    while i < orders.len()
        invariant
            i <= orders@.len(),
            lines_of(out@) == lines_of(start) + order_lines(orders@.take(i as int), plus_3 as int, plus_1 as int),
        decreases orders@.len() - i,
    {
        let line = order_line_text(&orders[i], plus_3, plus_1);
        let ghost before = out@;
        out.push(line);
        assert(lines_of(out@) =~= lines_of(before).push(line@));
        assert(orders@.take(i + 1) =~= orders@.take(i as int).push(orders@[i as int]));
        assert(order_lines(orders@.take(i + 1), plus_3 as int, plus_1 as int) =~= order_lines(
            orders@.take(i as int),
            plus_3 as int,
            plus_1 as int,
        ).push(order_line(orders@[i as int], plus_3 as int, plus_1 as int)));
        i += 1;
    }
    assert(orders@.take(orders@.len() as int) =~= orders@);
}

pub fn push_learn_lines(out: &mut Vec<String>, tome: &[Spell])
    ensures
        lines_of(final(out)@) == lines_of(old(out)@) + learn_lines(tome@),
{
    let ghost start = out@;
    let mut i: usize = 0;
    while i < tome.len()
        invariant
            i <= tome@.len(),
            lines_of(out@) == lines_of(start) + learn_lines(tome@.take(i as int)),
        decreases tome@.len() - i,
    {
        let line = learn_line_text(&tome[i], i);
        let ghost before = out@;
        out.push(line);
        assert(lines_of(out@) =~= lines_of(before).push(line@));
        assert(learn_lines(tome@.take(i + 1)) =~= learn_lines(tome@.take(i as int)).push(
            learn_line(tome@[i as int], i as int),
        ));
        i += 1;
    }
    assert(tome@.take(tome@.len() as int) =~= tome@);
}

pub fn push_cast_lines(out: &mut Vec<String>, spells: &[Spell], opponent: bool)
    ensures
        lines_of(final(out)@) == lines_of(old(out)@) + cast_lines(spells@, opponent),
{
    let ghost start = out@;
    let mut i: usize = 0;
    while i < spells.len()
        invariant
            i <= spells@.len(),
            lines_of(out@) == lines_of(start) + cast_lines(spells@.take(i as int), opponent),
        decreases spells@.len() - i,
    {
        let line = cast_line_text(&spells[i], opponent);
        let ghost before = out@;
        out.push(line);
        assert(lines_of(out@) =~= lines_of(before).push(line@));
        assert(cast_lines(spells@.take(i + 1), opponent) =~= cast_lines(spells@.take(i as int), opponent).push(
            cast_line(spells@[i as int], opponent),
        ));
        i += 1;
    }
    assert(spells@.take(spells@.len() as int) =~= spells@);
}

} // verus!
