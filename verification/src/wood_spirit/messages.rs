//! The input lines the referee of the forest game sends.
use vstd::prelude::*;
use crate::game::lines_of;
use crate::text::{decimal, push_char, push_u64};
use crate::witches_brew::protocol::push_chars;
use crate::wood_spirit::cache::{Cache, SoilRichness, size, step, walk, tree_size};
use crate::wood_spirit::protocol::move_text;
use crate::wood_spirit::rules::{Cell, Move};

verus! {

pub open spec fn bit(b: bool) -> Seq<char> {
    if b {
        seq!['1']
    } else {
        seq!['0']
    }
}

pub open spec fn soil_code(s: SoilRichness) -> nat {
    match s {
        SoilRichness::UNUSABLE => 0,
        SoilRichness::LOW_QUALITY => 1,
        SoilRichness::MEDIUM_QUALITY => 2,
        SoilRichness::HIGH_QUALITY => 3,
    }
}

/// A neighbour as the protocol writes it: its index, or -1.
pub open spec fn neighbor_text(o: Option<int>) -> Seq<char> {
    match o {
        Some(n) => decimal(n as nat),
        None => seq!['-', '1'],
    }
}

/// The neighbours of cell `c` in the directions `0..k`, each after a space.
pub open spec fn neighbor_columns(c: int, k: int) -> Seq<char>
    decreases k,
{
    if k <= 0 {
        Seq::empty()
    } else {
        neighbor_columns(c, k - 1) + seq![' '] + neighbor_text(step(c, k - 1))
    }
}

/// `index richness n0 n1 n2 n3 n4 n5`
pub open spec fn cell_line(c: int, soil: SoilRichness) -> Seq<char> {
    decimal(c as nat) + seq![' '] + decimal(soil_code(soil)) + neighbor_columns(c, 6)
}

/// `index size mine dormant` for each tree on the first `n` cells.
pub open spec fn tree_lines(board: Seq<Option<Cell>>, me: u8, n: int) -> Seq<Seq<char>>
    decreases n,
{
    if n <= 0 {
        Seq::empty()
    } else {
        let rest = tree_lines(board, me, n - 1);
        match board[n - 1] {
            Some(c) => rest.push(
                decimal((n - 1) as nat) + seq![' '] + decimal(size(c.tree) as nat) + seq![' '] + bit(c.player == me)
                    + seq![' '] + bit(c.is_dormant),
            ),
            None => rest,
        }
    }
}

fn push_bit(s: &mut String, b: bool)
    ensures
        final(s)@ == old(s)@ + bit(b),
{
    push_char(s, if b { '1' } else { '0' });
    assert(final(s)@ =~= old(s)@ + bit(b));
}

/// The 37 lines that describe the board at the first turn.
pub fn push_cell_lines(out: &mut Vec<String>, cache: &Cache)
    ensures
        lines_of(final(out)@) == lines_of(old(out)@) + Seq::new(37, |c: int| cell_line(c, cache.soil()[c])),
{
    let ghost start = out@;
    let mut c: usize = 0;
    while c < 37
        invariant
            c <= 37,
            lines_of(out@) == lines_of(start) + Seq::new(c as nat, |x: int| cell_line(x, cache.soil()[x])),
        decreases 37 - c,
    {
        let mut line = String::new();
        push_u64(&mut line, c as u64);
        push_char(&mut line, ' ');
        let code: u64 = match cache.get_soil_richness(c) {
            SoilRichness::UNUSABLE => 0,
            SoilRichness::LOW_QUALITY => 1,
            SoilRichness::MEDIUM_QUALITY => 2,
            SoilRichness::HIGH_QUALITY => 3,
        };
        push_u64(&mut line, code);
        let mut d: usize = 0;
        while d < 6
            invariant
                c < 37,
                d <= 6,
                    line@ == decimal(c as nat) + seq![' '] + decimal(soil_code(cache.soil()[c as int])) + neighbor_columns(c as int, d as int),
            decreases 6 - d,
        {
            let n = cache.get_neighbor(c, d, 1);
            assert(walk(c as int, d as int, 1) == step(c as int, d as int)) by {
                reveal_with_fuel(walk, 2);
            }
            push_char(&mut line, ' ');
            match n {
                Some(x) => push_u64(&mut line, x as u64),
                None => push_chars(&mut line, &['-', '1']),
            }
            assert(line@ =~= decimal(c as nat) + seq![' '] + decimal(soil_code(cache.soil()[c as int])) + neighbor_columns(c as int, d + 1));
            d += 1;
        }
        let ghost before = out@;
        out.push(line);
        assert(lines_of(out@) =~= lines_of(before).push(line@));
        assert(Seq::new((c + 1) as nat, |x: int| cell_line(x, cache.soil()[x])) =~= Seq::new(c as nat, |x: int| cell_line(x, cache.soil()[x])).push(cell_line(c as int, cache.soil()[c as int])));
        c += 1;
    }
}

/// The lines of the trees on the board, the player `me`'s marked as its own.
pub fn push_tree_lines(out: &mut Vec<String>, board: &[Option<Cell>; 37], me: u8)
    ensures
        lines_of(final(out)@) == lines_of(old(out)@) + tree_lines(board@, me, 37),
{
    let ghost start = out@;
    let mut i: usize = 0;
    while i < 37
        invariant
            i <= 37,
            lines_of(out@) == lines_of(start) + tree_lines(board@, me, i as int),
        decreases 37 - i,
    {
        if let Some(c) = board[i] {
            let mut line = String::new();
            push_u64(&mut line, i as u64);
            push_char(&mut line, ' ');
            push_u64(&mut line, tree_size(c.tree) as u64);
            push_char(&mut line, ' ');
            push_bit(&mut line, c.player == me);
            push_char(&mut line, ' ');
            push_bit(&mut line, c.is_dormant);
            let ghost before = out@;
            out.push(line);
            assert(lines_of(out@) =~= lines_of(before).push(line@));
            assert(line@ =~= decimal(i as nat) + seq![' '] + decimal(size(c.tree) as nat) + seq![' '] + bit(c.player == me) + seq![' '] + bit(c.is_dormant));
        }
        i += 1;
    }
}

/// One line per move, as the protocol writes it.
pub fn push_move_lines(out: &mut Vec<String>, moves: &[Move])
    ensures
        lines_of(final(out)@) == lines_of(old(out)@) + moves@.map_values(|m: Move| move_text(m)),
{
    let ghost start = out@;
    let mut i: usize = 0;
    while i < moves.len()
        invariant
            i <= moves@.len(),
            lines_of(out@) == lines_of(start) + moves@.take(i as int).map_values(|m: Move| move_text(m)),
        decreases moves@.len() - i,
    {
        let line = moves[i].to_string();
        let ghost before = out@;
        out.push(line);
        assert(lines_of(out@) =~= lines_of(before).push(line@));
        assert(moves@.take(i + 1).map_values(|m: Move| move_text(m)) =~= moves@.take(i as int).map_values(|m: Move| move_text(m)).push(move_text(moves@[i as int])));
        i += 1;
    }
    assert(moves@.take(moves@.len() as int) =~= moves@);
}

} // verus!
