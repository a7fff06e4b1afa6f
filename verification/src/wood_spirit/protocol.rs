//! The move messages of the forest game.
use vstd::prelude::*;
use crate::text::{chars_equal, decimal, lemma_decimal_digits, law_parse_decimal, is_whitespace, is_whitespace_char, parse_unsigned, parse_unsigned_in, push_char, push_u64, str_chars};
use crate::witches_brew::protocol::push_chars;
use crate::wood_spirit::rules::Move;

verus! {

pub open spec fn wait_word() -> Seq<char> {
    seq!['W', 'A', 'I', 'T']
}

pub open spec fn grow_word() -> Seq<char> {
    seq!['G', 'R', 'O', 'W']
}

pub open spec fn complete_word() -> Seq<char> {
    seq!['C', 'O', 'M', 'P', 'L', 'E', 'T', 'E']
}

pub open spec fn seed_word() -> Seq<char> {
    seq!['S', 'E', 'E', 'D']
}

/// The number after a keyword of `k` characters and one separator:
/// `msg[k + 1..]` read as a `u8`. The slice needs the separator to be a
/// one-byte character.
pub open spec fn number_after(msg: Seq<char>, k: int) -> Option<u8> {
    if msg.len() > k && (msg[k] as u32) < 128 {
        match parse_unsigned(msg.skip(k + 1), 255) {
            Some(v) => Some(v as u8),
            None => None,
        }
    } else {
        None
    }
}

/// The first index from `i` on that is not whitespace (or the end).
pub open spec fn skip_ws(s: Seq<char>, i: int) -> int
    decreases s.len() - i,
{
    if i >= s.len() || i < 0 || !is_whitespace(s[i]) {
        i
    } else {
        skip_ws(s, i + 1)
    }
}

/// The first index from `i` on that is whitespace (or the end).
pub open spec fn skip_word(s: Seq<char>, i: int) -> int
    decreases s.len() - i,
{
    if i >= s.len() || i < 0 || is_whitespace(s[i]) {
        i
    } else {
        skip_word(s, i + 1)
    }
}

/// The second and third whitespace-separated words of `SEED tree cell`,
/// read as `u8`.
pub open spec fn seed_numbers(msg: Seq<char>) -> Option<(u8, u8)> {
    let e0 = skip_word(msg, skip_ws(msg, 0));
    let s1 = skip_ws(msg, e0);
    let e1 = skip_word(msg, s1);
    let s2 = skip_ws(msg, e1);
    let e2 = skip_word(msg, s2);
    if s1 < msg.len() && s2 < msg.len() {
        match (parse_unsigned(msg.subrange(s1, e1), 255), parse_unsigned(msg.subrange(s2, e2), 255)) {
            (Some(a), Some(b)) => Some((a as u8, b as u8)),
            _ => None,
        }
    } else {
        None
    }
}

/// Reads a move message: `WAIT`, `GROW cell`, `COMPLETE cell` or
/// `SEED tree cell` (the keyword may run on: only its first letters are
/// checked). `None` for a message the referee cannot read.
pub open spec fn spec_parse_move(msg: Seq<char>) -> Option<Move> {
    if msg == wait_word() {
        Some(Move::WAIT)
    } else if msg.len() >= 4 && msg.take(4) == grow_word() {
        match number_after(msg, 4) {
            Some(v) => Some(Move::GROW(v)),
            None => None,
        }
    } else if msg.len() >= 8 && msg.take(8) == complete_word() {
        match number_after(msg, 8) {
            Some(v) => Some(Move::COMPLETE(v)),
            None => None,
        }
    } else if msg.len() >= 4 && msg.take(4) == seed_word() {
        match seed_numbers(msg) {
            Some((a, b)) => Some(Move::SEED(a, b)),
            None => None,
        }
    } else {
        None
    }
}

fn skip_ws_from(cs: &[char], i: usize) -> (j: usize)
    requires
        i <= cs@.len(),
    ensures
        j == skip_ws(cs@, i as int),
        i <= j <= cs@.len(),
{
    let mut j = i;
    while j < cs.len() && is_whitespace_char(cs[j])
        invariant
            i <= j <= cs@.len(),
            skip_ws(cs@, i as int) == skip_ws(cs@, j as int),
        decreases cs@.len() - j,
    {
        j += 1;
    }
    j
}

fn skip_word_from(cs: &[char], i: usize) -> (j: usize)
    requires
        i <= cs@.len(),
    ensures
        j == skip_word(cs@, i as int),
        i <= j <= cs@.len(),
{
    let mut j = i;
    while j < cs.len() && !is_whitespace_char(cs[j])
        invariant
            i <= j <= cs@.len(),
            skip_word(cs@, i as int) == skip_word(cs@, j as int),
        decreases cs@.len() - j,
    {
        j += 1;
    }
    j
}

fn read_number_after(cs: &[char], k: usize) -> (r: Option<u8>)
    requires
        k <= cs@.len(),
    ensures
        r == number_after(cs@, k as int),
{
    if cs.len() > k && (cs[k] as u32) < 128 {
        assert(cs@.subrange(k + 1, cs@.len() as int) =~= cs@.skip(k + 1));
        match parse_unsigned_in(cs, k + 1, cs.len(), 255) {
            Some(v) => Some(v as u8),
            None => None,
        }
    } else {
        None
    }
}

/// Reads a move message (see `spec_parse_move`).
pub fn parse_move(msg: &str) -> (m: Option<Move>)
    ensures
        m == spec_parse_move(msg@),
{
    let cs = str_chars(msg);
    let s = cs.as_slice();
    let n = cs.len();
    let wait = ['W', 'A', 'I', 'T'];
    let grow = ['G', 'R', 'O', 'W'];
    let complete = ['C', 'O', 'M', 'P', 'L', 'E', 'T', 'E'];
    let seed = ['S', 'E', 'E', 'D'];
    assert(wait@ =~= wait_word());
    assert(grow@ =~= grow_word());
    assert(complete@ =~= complete_word());
    assert(seed@ =~= seed_word());
    assert(cs@.subrange(0, n as int) =~= cs@);
    if n == 4 && chars_equal(s, 0, &wait) {
        return Some(Move::WAIT);
    }
    assert(cs@ != wait_word());
    if n >= 4 {
        assert(cs@.subrange(0, 4) =~= cs@.take(4));
    }
    if n >= 8 {
        assert(cs@.subrange(0, 8) =~= cs@.take(8));
    }
    if n >= 4 && chars_equal(s, 0, &grow) {
        return match read_number_after(s, 4) {
            Some(v) => Some(Move::GROW(v)),
            None => None,
        };
    }
    if n >= 8 && chars_equal(s, 0, &complete) {
        return match read_number_after(s, 8) {
            Some(v) => Some(Move::COMPLETE(v)),
            None => None,
        };
    }
    if n >= 4 && chars_equal(s, 0, &seed) {
        let e0 = skip_word_from(s, skip_ws_from(s, 0));
        let s1 = skip_ws_from(s, e0);
        let e1 = skip_word_from(s, s1);
        let s2 = skip_ws_from(s, e1);
        let e2 = skip_word_from(s, s2);
        if s1 < n && s2 < n {
            let a = parse_unsigned_in(s, s1, e1, 255);
            let b = parse_unsigned_in(s, s2, e2, 255);
            return match (a, b) {
                (Some(x), Some(y)) => Some(Move::SEED(x as u8, y as u8)),
                _ => None,
            };
        }
        return None;
    }
    None
}

/// The text of a move: `GROW cell`, `COMPLETE cell`, `SEED tree cell` or
/// `WAIT`.
pub open spec fn move_text(m: Move) -> Seq<char> {
    match m {
        Move::GROW(t) => grow_word() + seq![' '] + decimal(t as nat),
        Move::COMPLETE(t) => complete_word() + seq![' '] + decimal(t as nat),
        Move::SEED(t, c) => seed_word() + seq![' '] + decimal(t as nat) + seq![' '] + decimal(c as nat),
        Move::WAIT => wait_word(),
    }
}

impl Move {
    pub fn to_string(&self) -> (s: String)
        ensures
            s@ == move_text(*self),
    {
        let mut s = String::new();
        match *self {
            Move::GROW(t) => {
                push_chars(&mut s, &['G', 'R', 'O', 'W', ' ']);
                push_u64(&mut s, t as u64);
            },
            Move::COMPLETE(t) => {
                push_chars(&mut s, &['C', 'O', 'M', 'P', 'L', 'E', 'T', 'E', ' ']);
                push_u64(&mut s, t as u64);
            },
            Move::SEED(t, c) => {
                push_chars(&mut s, &['S', 'E', 'E', 'D', ' ']);
                push_u64(&mut s, t as u64);
                push_char(&mut s, ' ');
                push_u64(&mut s, c as u64);
            },
            Move::WAIT => push_chars(&mut s, &['W', 'A', 'I', 'T']),
        }
        assert(s@ =~= move_text(*self));
        s
    }
}

proof fn lemma_skip_word_to(s: Seq<char>, i: int, j: int)
    requires
        0 <= i <= j <= s.len(),
        forall|k: int| i <= k < j ==> !is_whitespace(#[trigger] s[k]),
        j == s.len() || is_whitespace(s[j]),
    ensures
        skip_word(s, i) == j,
    decreases j - i,
{
    if i < j {
        lemma_skip_word_to(s, i + 1, j);
    }
}

proof fn lemma_skip_ws_to(s: Seq<char>, i: int, j: int)
    requires
        0 <= i <= j <= s.len(),
        forall|k: int| i <= k < j ==> is_whitespace(#[trigger] s[k]),
        j == s.len() || !is_whitespace(s[j]),
    ensures
        skip_ws(s, i) == j,
    decreases j - i,
{
    if i < j {
        lemma_skip_ws_to(s, i + 1, j);
    }
}

/// A move the referee writes reads back as the same move.
#[verifier::rlimit(40)]
#[verifier::spinoff_prover]
pub proof fn law_move_text_roundtrip(m: Move)
    ensures
        spec_parse_move(move_text(m)) == Some(m),
{
    let msg = move_text(m);
    match m {
        Move::GROW(t) => {
            let d = decimal(t as nat);
            lemma_decimal_digits(t as nat);
            law_parse_decimal(t as nat, 255);
            assert(msg.take(4) =~= grow_word());
            assert(msg.skip(5) =~= d);
            assert(msg.len() != wait_word().len());
            assert(msg[4] == ' ');
        },
        Move::COMPLETE(t) => {
            let d = decimal(t as nat);
            lemma_decimal_digits(t as nat);
            law_parse_decimal(t as nat, 255);
            assert(msg.take(4)[0] != grow_word()[0]);
            assert(msg.take(8) =~= complete_word());
            assert(msg.skip(9) =~= d);
            assert(msg.len() != wait_word().len());
            assert(msg[8] == ' ');
        },
        Move::SEED(t, c) => {
            let dt = decimal(t as nat);
            let dc = decimal(c as nat);
            lemma_decimal_digits(t as nat);
            lemma_decimal_digits(c as nat);
            law_parse_decimal(t as nat, 255);
            law_parse_decimal(c as nat, 255);
            let a: int = 5 + dt.len() as int;
            assert(msg.len() == a + 1 + dc.len());
            assert(msg.len() != wait_word().len());
            assert(msg.take(4)[0] != grow_word()[0]);
            assert(msg.take(8)[0] != complete_word()[0]);
            assert(msg.take(4) =~= seed_word());
            assert forall|k: int| 0 <= k < 4 implies !is_whitespace(#[trigger] msg[k]) by {
                assert(msg[k] == seed_word()[k]);
            }
            assert forall|k: int| 5 <= k < a implies !is_whitespace(#[trigger] msg[k]) by {
                assert(msg[k] == dt[k - 5]);
            }
            assert forall|k: int| a + 1 <= k < msg.len() implies !is_whitespace(#[trigger] msg[k]) by {
                assert(msg[k] == dc[k - a - 1]);
            }
            assert(msg[4] == ' ');
            assert(msg[a] == ' ');
            lemma_skip_ws_to(msg, 0, 0);
            lemma_skip_word_to(msg, 0, 4);
            lemma_skip_ws_to(msg, 4, 5);
            lemma_skip_word_to(msg, 5, a);
            lemma_skip_ws_to(msg, a, a + 1);
            lemma_skip_word_to(msg, a + 1, msg.len() as int);
            assert(msg.subrange(5, a) =~= dt);
            assert(msg.subrange(a + 1, msg.len() as int) =~= dc);
        },
        Move::WAIT => {},
    }
}

} // verus!
