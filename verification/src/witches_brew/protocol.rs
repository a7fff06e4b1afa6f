//! The move messages of the potion brewing game.
use vstd::prelude::*;
use crate::text::{chars_equal, decimal, is_whitespace, lemma_decimal_digits, law_parse_decimal, lemma_trim_decimal, lemma_find_char_is, find_char, before_char, after_char, piece_count, parse_trimmed_unsigned, str_chars, find_char_from, lemma_find_char_bounds, parse_trimmed_unsigned_in, push_char, push_u64};
use crate::witches_brew::rules::Move;

verus! {

pub open spec fn wait_text() -> Seq<char> {
    seq!['W', 'A', 'I', 'T']
}

pub open spec fn rest_text() -> Seq<char> {
    seq!['R', 'E', 'S', 'T']
}

pub open spec fn brew_head() -> Seq<char> {
    seq!['B', 'R', 'E', 'W', ' ']
}

pub open spec fn learn_head() -> Seq<char> {
    seq!['L', 'E', 'A', 'R', 'N']
}

pub open spec fn cast_head() -> Seq<char> {
    seq!['C', 'A', 'S', 'T', ' ']
}

/// Reads a move message: `WAIT`, `REST`, `BREW id`, `LEARN id`,
/// `CAST id` or `CAST id times`. The number after `LEARN` is read from the
/// seventh character on.
pub open spec fn spec_parse_move(msg: Seq<char>) -> Option<Move> {
    if msg == wait_text() {
        Some(Move::WAIT)
    } else if msg == rest_text() {
        Some(Move::REST)
    } else if msg.len() < 5 {
        None
    } else if msg.take(5) == brew_head() {
        match parse_trimmed_unsigned(msg.skip(5), u32::MAX as int) {
            Some(v) => Some(Move::BREW(v as u32)),
            None => None,
        }
    } else if msg.take(5) == learn_head() {
        if msg.len() < 6 {
            None
        } else {
            match parse_trimmed_unsigned(msg.skip(6), u32::MAX as int) {
                Some(v) => Some(Move::LEARN(v as u32)),
                None => None,
            }
        }
    } else if msg.take(5) == cast_head() {
        let rest = after_char(msg, ' ');
        let id = parse_trimmed_unsigned(before_char(rest, ' '), u32::MAX as int);
        if piece_count(msg, ' ') == 2 {
            match id {
                Some(v) => Some(Move::CAST(v as u32, 1)),
                None => None,
            }
        } else if piece_count(msg, ' ') == 3 {
            match (id, parse_trimmed_unsigned(after_char(rest, ' '), u8::MAX as int)) {
                (Some(v), Some(t)) => Some(Move::CAST(v as u32, t as u8)),
                _ => None,
            }
        } else {
            None
        }
    } else {
        None
    }
}

/// Reads a move message (see `spec_parse_move`).
pub fn parse_move(msg: &str) -> (m: Option<Move>)
    ensures
        m == spec_parse_move(msg@),
{
    let cs = str_chars(msg);
    let n = cs.len();
    let wait = ['W', 'A', 'I', 'T'];
    let rest = ['R', 'E', 'S', 'T'];
    let brew = ['B', 'R', 'E', 'W', ' '];
    let learn = ['L', 'E', 'A', 'R', 'N'];
    let cast = ['C', 'A', 'S', 'T', ' '];
    assert(wait@ =~= wait_text());
    assert(rest@ =~= rest_text());
    assert(brew@ =~= brew_head());
    assert(learn@ =~= learn_head());
    assert(cast@ =~= cast_head());
    assert(cs@.subrange(0, n as int) =~= cs@);
    if n == 4 && chars_equal(cs.as_slice(), 0, &wait) {
        return Some(Move::WAIT);
    }
    if n == 4 && chars_equal(cs.as_slice(), 0, &rest) {
        return Some(Move::REST);
    }
    assert(cs@ != wait_text() && cs@ != rest_text());
    if n < 5 {
        return None;
    }
    assert(cs@.subrange(0, 5) =~= cs@.take(5));
    assert(cs@.subrange(5, n as int) =~= cs@.skip(5));
    if chars_equal(cs.as_slice(), 0, &brew) {
        return match parse_trimmed_unsigned_in(cs.as_slice(), 5, n, 4294967295) {
            Some(v) => Some(Move::BREW(v as u32)),
            None => None,
        };
    }
    if chars_equal(cs.as_slice(), 0, &learn) {
        if n < 6 {
            return None;
        }
        assert(cs@.subrange(6, n as int) =~= cs@.skip(6));
        return match parse_trimmed_unsigned_in(cs.as_slice(), 6, n, 4294967295) {
            Some(v) => Some(Move::LEARN(v as u32)),
            None => None,
        };
    }
    if chars_equal(cs.as_slice(), 0, &cast) {
        let s = cs.as_slice();
        let sp1 = find_char_from(s, 0, ' ');
        assert(cs@.skip(0) =~= cs@);
        assert(sp1 == 4) by {
            assert(cs@[4] == ' ');
            lemma_find_char_bounds(cs@, ' ');
            assert(forall|j: int| 0 <= j < 4 ==> cs@[j] == cast_head()[j]);
        }
        let ghost r1 = after_char(cs@, ' ');
        assert(r1 =~= cs@.skip(5));
        let sp2 = find_char_from(s, 5, ' ');
        proof {
            lemma_find_char_bounds(r1, ' ');
            assert(cs@.subrange(5, sp2 as int) =~= before_char(r1, ' '));
        }
        let id = parse_trimmed_unsigned_in(s, 5, sp2, 4294967295);
        if sp2 >= n {
            assert(piece_count(r1, ' ') == 1);
            assert(piece_count(cs@, ' ') == 2);
            return match id {
                Some(v) => Some(Move::CAST(v as u32, 1)),
                None => None,
            };
        }
        let ghost r2 = after_char(r1, ' ');
        assert(r2 =~= cs@.skip(sp2 + 1));
        let sp3 = find_char_from(s, sp2 + 1, ' ');
        proof {
            lemma_find_char_bounds(r2, ' ');
            assert(cs@.subrange(sp2 + 1, n as int) =~= r2);
        }
        if sp3 >= n {
            assert(piece_count(r2, ' ') == 1);
            assert(piece_count(r1, ' ') == 2);
            assert(piece_count(cs@, ' ') == 3);
            let times = parse_trimmed_unsigned_in(s, sp2 + 1, n, 255);
            return match (id, times) {
                (Some(v), Some(t)) => Some(Move::CAST(v as u32, t as u8)),
                _ => None,
            };
        }
        proof {
            let r3 = after_char(r2, ' ');
            assert(piece_count(r3, ' ') >= 1);
            assert(piece_count(r2, ' ') >= 2);
            assert(piece_count(r1, ' ') >= 3);
            assert(piece_count(cs@, ' ') >= 4);
        }
        return None;
    }
    None
}

/// The text of a move; a multiple cast is written `CAST id`x`times`.
pub open spec fn move_text(m: Move) -> Seq<char> {
    match m {
        Move::NONE => seq!['N', 'o', 'n', 'e'],
        Move::WAIT => wait_text(),
        Move::REST => rest_text(),
        Move::BREW(i) => brew_head() + decimal(i as nat),
        Move::CAST(i, t) => if t == 1 {
            cast_head() + decimal(i as nat)
        } else {
            cast_head() + decimal(i as nat) + seq!['x'] + decimal(t as nat)
        },
        Move::LEARN(i) => learn_head() + seq![' '] + decimal(i as nat),
    }
}

pub fn push_chars(s: &mut String, cs: &[char])
    ensures
        final(s)@ == old(s)@ + cs@,
{
    let mut i: usize = 0;
    while i < cs.len()
        invariant
            i <= cs@.len(),
            s@ == old(s)@ + cs@.take(i as int),
        decreases cs@.len() - i,
    {
        push_char(s, cs[i]);
        assert(cs@.take(i + 1) =~= cs@.take(i as int).push(cs@[i as int]));
        i += 1;
    }
    assert(cs@.take(cs@.len() as int) =~= cs@);
}

impl Move {
    pub fn to_string(&self) -> (s: String)
        ensures
            s@ == move_text(*self),
    {
        let mut s = String::new();
        match *self {
            Move::NONE => push_chars(&mut s, &['N', 'o', 'n', 'e']),
            Move::WAIT => push_chars(&mut s, &['W', 'A', 'I', 'T']),
            Move::REST => push_chars(&mut s, &['R', 'E', 'S', 'T']),
            Move::BREW(i) => {
                push_chars(&mut s, &['B', 'R', 'E', 'W', ' ']);
                push_u64(&mut s, i as u64);
            },
            Move::CAST(i, t) => {
                push_chars(&mut s, &['C', 'A', 'S', 'T', ' ']);
                push_u64(&mut s, i as u64);
                if t != 1 {
                    push_char(&mut s, 'x');
                    push_u64(&mut s, t as u64);
                }
            },
            Move::LEARN(i) => {
                push_chars(&mut s, &['L', 'E', 'A', 'R', 'N', ' ']);
                push_u64(&mut s, i as u64);
            },
        }
        assert(s@ =~= move_text(*self));
        s
    }
}

/// A move the referee writes reads back as the same move. Not for `NONE`
/// (written `None`) nor for a cast repeated more than once (written
/// `CAST idxtimes`, which the referee does not read).
pub proof fn law_move_text_roundtrip(m: Move)
    requires
        m != Move::NONE,
        m matches Move::CAST(_, t) ==> t == 1,
    ensures
        spec_parse_move(move_text(m)) == Some(m),
{
    let msg = move_text(m);
    match m {
        Move::BREW(i) => {
            let d = decimal(i as nat);
            lemma_decimal_digits(i as nat);
            law_parse_decimal(i as nat, u32::MAX as int);
            lemma_trim_decimal(i as nat);
            assert(msg.take(5) =~= brew_head());
            assert(msg.skip(5) =~= d);
            assert(msg.len() != wait_text().len());
        },
        Move::LEARN(i) => {
            let d = decimal(i as nat);
            lemma_decimal_digits(i as nat);
            law_parse_decimal(i as nat, u32::MAX as int);
            lemma_trim_decimal(i as nat);
            assert(msg.take(5) =~= learn_head());
            assert(msg.take(5)[0] != brew_head()[0]);
            assert(msg.skip(6) =~= d);
            assert(msg.len() != wait_text().len());
        },
        Move::CAST(i, t) => {
            let d = decimal(i as nat);
            lemma_decimal_digits(i as nat);
            law_parse_decimal(i as nat, u32::MAX as int);
            lemma_trim_decimal(i as nat);
            assert(msg.take(5) =~= cast_head());
            assert(msg.take(5)[0] != brew_head()[0]);
            assert(msg.take(5)[0] != learn_head()[0]);
            assert(msg.len() != wait_text().len());
            assert forall|j: int| 0 <= j < 4 implies msg[j] != ' ' by {
                assert(msg[j] == cast_head()[j]);
            }
            lemma_find_char_is(msg, ' ', 4);
            assert(after_char(msg, ' ') =~= d);
            assert forall|j: int| 0 <= j < d.len() implies d[j] != ' ' by {
                assert(!is_whitespace(d[j]));
            }
            lemma_find_char_is(d, ' ', d.len() as int);
            assert(before_char(d, ' ') =~= d);
            assert(piece_count(d, ' ') == 1);
            assert(piece_count(msg, ' ') == 2);
        },
        _ => {},
    }
}

/// The message a player sends for a move: as the referee writes it, but a
/// repeated cast is `CAST id times`.
pub open spec fn message_text(m: Move) -> Seq<char> {
    match m {
        Move::CAST(i, t) => if t == 1 {
            cast_head() + decimal(i as nat)
        } else {
            cast_head() + decimal(i as nat) + seq![' '] + decimal(t as nat)
        },
        _ => move_text(m),
    }
}

/// The message a player sends for `m` (see `message_text`).
pub fn move_message(m: Move) -> (s: String)
    ensures
        s@ == message_text(m),
{
    match m {
        Move::CAST(i, t) => {
            let mut s = String::new();
            push_chars(&mut s, &['C', 'A', 'S', 'T', ' ']);
            push_u64(&mut s, i as u64);
            if t != 1 {
                push_char(&mut s, ' ');
                push_u64(&mut s, t as u64);
            }
            assert(s@ =~= message_text(m));
            s
        },
        _ => m.to_string(),
    }
}

/// Every move a player sends (`NONE` aside) reads back as the same move.
pub proof fn law_message_roundtrip(m: Move)
    requires
        m != Move::NONE,
    ensures
        spec_parse_move(message_text(m)) == Some(m),
{
    match m {
        Move::CAST(i, t) => {
            if t == 1 {
                law_move_text_roundtrip(m);
            } else {
                let msg = message_text(m);
                let di = decimal(i as nat);
                let dt = decimal(t as nat);
                lemma_decimal_digits(i as nat);
                lemma_decimal_digits(t as nat);
                law_parse_decimal(i as nat, u32::MAX as int);
                law_parse_decimal(t as nat, u8::MAX as int);
                lemma_trim_decimal(i as nat);
                lemma_trim_decimal(t as nat);
                assert(msg.take(5) =~= cast_head());
                assert(msg.take(5)[0] != brew_head()[0]);
                assert(msg.take(5)[0] != learn_head()[0]);
                assert(msg.len() != wait_text().len());
                assert forall|j: int| 0 <= j < 4 implies msg[j] != ' ' by {
                    assert(msg[j] == cast_head()[j]);
                }
                lemma_find_char_is(msg, ' ', 4);
                let r1 = after_char(msg, ' ');
                assert(r1 =~= di + seq![' '] + dt);
                assert forall|j: int| 0 <= j < di.len() implies r1[j] != ' ' by {
                    assert(r1[j] == di[j]);
                    assert(!is_whitespace(di[j]));
                }
                lemma_find_char_is(r1, ' ', di.len() as int);
                assert(before_char(r1, ' ') =~= di);
                let r2 = after_char(r1, ' ');
                assert(r2 =~= dt);
                assert forall|j: int| 0 <= j < dt.len() implies dt[j] != ' ' by {
                    assert(!is_whitespace(dt[j]));
                }
                lemma_find_char_is(dt, ' ', dt.len() as int);
                assert(piece_count(dt, ' ') == 1);
                assert(piece_count(r1, ' ') == 2);
                assert(piece_count(msg, ' ') == 3);
            }
        },
        _ => {
            law_move_text_roundtrip(m);
        },
    }
}

} // verus!
