//! Decimal numbers and whitespace-separated words, as the game protocols
//! exchange them.
use vstd::prelude::*;

verus! {

/// `c` is a whitespace character in the sense of `char::is_whitespace`
/// (the Unicode `White_Space` property).
pub open spec fn is_whitespace(c: char) -> bool {
    ||| '\u{9}' <= c <= '\u{d}'
    ||| c == ' '
    ||| c == '\u{85}'
    ||| c == '\u{a0}'
    ||| c == '\u{1680}'
    ||| '\u{2000}' <= c <= '\u{200a}'
    ||| c == '\u{2028}'
    ||| c == '\u{2029}'
    ||| c == '\u{202f}'
    ||| c == '\u{205f}'
    ||| c == '\u{3000}'
}

pub open spec fn trim_start(s: Seq<char>) -> Seq<char>
    decreases s.len(),
{
    if s.len() > 0 && is_whitespace(s[0]) {
        trim_start(s.drop_first())
    } else {
        s
    }
}

pub open spec fn trim_end(s: Seq<char>) -> Seq<char>
    decreases s.len(),
{
    if s.len() > 0 && is_whitespace(s.last()) {
        trim_end(s.drop_last())
    } else {
        s
    }
}

/// `s` without its leading and trailing whitespace, as `str::trim` gives it.
pub open spec fn trim(s: Seq<char>) -> Seq<char> {
    trim_end(trim_start(s))
}

pub open spec fn is_digit(c: char) -> bool {
    '0' <= c <= '9'
}

pub open spec fn all_digits(s: Seq<char>) -> bool {
    forall|i: int| 0 <= i < s.len() ==> is_digit(#[trigger] s[i])
}

/// The number that the decimal digits `s` write.
pub open spec fn digits_value(s: Seq<char>) -> int
    decreases s.len(),
{
    if s.len() == 0 {
        0
    } else {
        digits_value(s.drop_last()) * 10 + (s.last() as int - '0' as int)
    }
}

/// What `str::parse` gives for an unsigned integer type whose largest value
/// is `max`: an optional `+` followed by at least one decimal digit, with a
/// value that fits.
pub open spec fn parse_unsigned(s: Seq<char>, max: int) -> Option<int> {
    let d = if s.len() > 0 && s[0] == '+' { s.drop_first() } else { s };
    if d.len() > 0 && all_digits(d) && digits_value(d) <= max {
        Some(digits_value(d))
    } else {
        None
    }
}

/// `str::trim` followed by `str::parse` into an unsigned integer type.
pub open spec fn parse_trimmed_unsigned(s: Seq<char>, max: int) -> Option<int> {
    parse_unsigned(trim(s), max)
}

pub open spec fn digit_char(d: nat) -> char {
    ('0' as nat + d) as char
}

/// The decimal writing of `n`, without leading zeros.
pub open spec fn decimal(n: nat) -> Seq<char>
    decreases n,
{
    if n < 10 {
        seq![digit_char(n)]
    } else {
        decimal(n / 10).push(digit_char(n % 10))
    }
}

/// The decimal writing of the integer `n`, with a leading `-` when negative.
pub open spec fn signed_decimal(n: int) -> Seq<char> {
    if n < 0 {
        seq!['-'] + decimal((-n) as nat)
    } else {
        decimal(n as nat)
    }
}

/// Index of the first `sep` in `s`, or `s.len()` when there is none.
pub open spec fn find_char(s: Seq<char>, sep: char) -> int
    decreases s.len(),
{
    if s.len() == 0 {
        0
    } else if s[0] == sep {
        0
    } else {
        1 + find_char(s.drop_first(), sep)
    }
}

/// The text before the first `sep` (all of `s` if there is none).
pub open spec fn before_char(s: Seq<char>, sep: char) -> Seq<char> {
    s.take(find_char(s, sep))
}

/// The text after the first `sep` (empty if there is none).
pub open spec fn after_char(s: Seq<char>, sep: char) -> Seq<char> {
    s.skip(find_char(s, sep) + 1)
}

/// The number of pieces that `str::split(sep)` cuts `s` into.
pub open spec fn piece_count(s: Seq<char>, sep: char) -> nat
    decreases s.len(),
{
    if find_char(s, sep) >= s.len() {
        1
    } else {
        proof {
            lemma_find_char_bounds(s, sep);
        }
        1 + piece_count(after_char(s, sep), sep)
    }
}

pub proof fn lemma_find_char_bounds(s: Seq<char>, sep: char)
    ensures
        0 <= find_char(s, sep) <= s.len(),
        find_char(s, sep) < s.len() ==> s[find_char(s, sep)] == sep,
        forall|j: int| 0 <= j < find_char(s, sep) ==> s[j] != sep,
    decreases s.len(),
{
    if s.len() > 0 && s[0] != sep {
        lemma_find_char_bounds(s.drop_first(), sep);
        assert forall|j: int| 0 <= j < find_char(s, sep) implies s[j] != sep by {
            if j > 0 {
                assert(s[j] == s.drop_first()[j - 1]);
            }
        }
    }
}

pub proof fn lemma_find_char_is(s: Seq<char>, sep: char, k: int)
    requires
        0 <= k <= s.len(),
        k < s.len() ==> s[k] == sep,
        forall|j: int| 0 <= j < k ==> s[j] != sep,
    ensures
        find_char(s, sep) == k,
    decreases s.len(),
{
    if s.len() > 0 && s[0] != sep {
        assert forall|j: int| 0 <= j < k - 1 implies s.drop_first()[j] != sep by {
            assert(s.drop_first()[j] == s[j + 1]);
        }
        lemma_find_char_is(s.drop_first(), sep, k - 1);
    }
}

/// Appends `c` to `s` (`String::push`).
#[verifier::external_body]
pub(crate) fn push_char(s: &mut String, c: char)
    ensures
        final(s)@ == old(s)@.push(c),
{
    s.push(c);
}

/// Appends `t` to `s` (`String::push_str`).
#[verifier::external_body]
pub(crate) fn push_str(s: &mut String, t: &str)
    ensures
        final(s)@ == old(s)@ + t@,
{
    s.push_str(t);
}

/// The characters of `s` (`str::chars`, collected).
#[verifier::external_body]
pub(crate) fn str_chars(s: &str) -> (cs: Vec<char>)
    ensures
        cs@ == s@,
{
    s.chars().collect()
}

pub fn string_from(t: &str) -> (s: String)
    ensures
        s@ == t@,
{
    let mut s = String::new();
    push_str(&mut s, t);
    assert(s@ =~= t@);
    s
}

proof fn lemma_decimal_nonempty(n: nat)
    ensures
        decimal(n).len() >= 1,
    decreases n,
{
    if n >= 10 {
        lemma_decimal_nonempty(n / 10);
    }
}

fn digit_to_char(d: u64) -> (c: char)
    requires
        d < 10,
    ensures
        c == digit_char(d as nat),
{
    if d == 0 {
        '0'
    } else if d == 1 {
        '1'
    } else if d == 2 {
        '2'
    } else if d == 3 {
        '3'
    } else if d == 4 {
        '4'
    } else if d == 5 {
        '5'
    } else if d == 6 {
        '6'
    } else if d == 7 {
        '7'
    } else if d == 8 {
        '8'
    } else {
        '9'
    }
}

/// Appends the decimal writing of `n` to `s`.
pub fn push_u64(s: &mut String, n: u64)
    ensures
        final(s)@ == old(s)@ + decimal(n as nat),
{
    // digits, least significant first
    let mut digits: Vec<char> = Vec::new();
    let mut m: u64 = n;
    while m >= 10
        invariant
            m <= n,
            decimal(n as nat) == decimal(m as nat) + digits@.reverse(),
        decreases m,
    {
        let c = digit_to_char(m % 10);
        let ghost old_digits = digits@;
        digits.push(c);
        assert(digits@.reverse() =~= seq![c] + old_digits.reverse());
        assert(decimal(m as nat) =~= decimal((m / 10) as nat).push(c));
        assert(decimal(m as nat) + old_digits.reverse() =~= decimal((m / 10) as nat) + (seq![c]
            + old_digits.reverse()));
        m = m / 10;
    }
    let c = digit_to_char(m);
    let ghost old_digits = digits@;
    digits.push(c);
    assert(digits@.reverse() =~= seq![c] + old_digits.reverse());
    assert(decimal(m as nat) =~= seq![c]);
    assert(decimal(n as nat) =~= digits@.reverse());
    let mut k: usize = digits.len();
    let ghost start = s@;
    while k > 0
        invariant
            k <= digits@.len(),
            s@ == start + digits@.reverse().take(digits@.len() - k),
        decreases k,
    {
        k -= 1;
        push_char(s, digits[k]);
        assert(digits@.reverse().take(digits@.len() - k) =~= digits@.reverse().take(
            digits@.len() - k - 1,
        ).push(digits@[k as int]));
    }
    assert(digits@.reverse().take(digits@.len() as int) =~= digits@.reverse());
}

/// Appends the decimal writing of `n` (with a `-` if negative) to `s`.
pub fn push_i64(s: &mut String, n: i64)
    ensures
        final(s)@ == old(s)@ + signed_decimal(n as int),
{
    if n < 0 {
        push_char(s, '-');
        let m: u64 = if n == i64::MIN { 9223372036854775808u64 } else { (-n) as u64 };
        let ghost mid = s@;
        push_u64(s, m);
        assert(s@ =~= old(s)@ + (seq!['-'] + decimal((-n) as nat)));
    } else {
        push_u64(s, n as u64);
    }
}

/// The decimal writing of `n` as a new string.
pub fn u64_to_string(n: u64) -> (s: String)
    ensures
        s@ == decimal(n as nat),
{
    let mut s = String::new();
    push_u64(&mut s, n);
    assert(s@ =~= decimal(n as nat));
    s
}

/// The index of the first `sep` in `s[from..]`, or `s.len()`.
pub fn find_char_from(s: &[char], from: usize, sep: char) -> (k: usize)
    requires
        from <= s@.len(),
    ensures
        from <= k <= s@.len(),
        k == from + find_char(s@.skip(from as int), sep),
{
    let mut k: usize = from;
    while k < s.len() && s[k] != sep
        invariant
            from <= k <= s@.len(),
            forall|j: int| from <= j < k ==> s@[j] != sep,
        decreases s@.len() - k,
    {
        k += 1;
    }
    proof {
        let t = s@.skip(from as int);
        assert forall|j: int| 0 <= j < k - from implies t[j] != sep by {
            assert(t[j] == s@[from + j]);
        }
        lemma_find_char_is(t, sep, k - from);
    }
    k
}

proof fn lemma_trim_start_step(s: Seq<char>, lo: int, hi: int)
    requires
        0 <= lo < hi <= s.len(),
        is_whitespace(s[lo]),
    ensures
        trim_start(s.subrange(lo, hi)) == trim_start(s.subrange(lo + 1, hi)),
{
    assert(s.subrange(lo, hi).drop_first() =~= s.subrange(lo + 1, hi));
}

proof fn lemma_trim_end_step(s: Seq<char>, lo: int, hi: int)
    requires
        0 <= lo < hi <= s.len(),
        is_whitespace(s[hi - 1]),
    ensures
        trim_end(s.subrange(lo, hi)) == trim_end(s.subrange(lo, hi - 1)),
{
    assert(s.subrange(lo, hi).drop_last() =~= s.subrange(lo, hi - 1));
}

pub fn is_whitespace_char(c: char) -> (b: bool)
    ensures
        b == is_whitespace(c),
{
    ('\u{9}' <= c && c <= '\u{d}') || c == ' ' || c == '\u{85}' || c == '\u{a0}' || c == '\u{1680}'
        || ('\u{2000}' <= c && c <= '\u{200a}') || c == '\u{2028}' || c == '\u{2029}' || c
        == '\u{202f}' || c == '\u{205f}' || c == '\u{3000}'
}

/// The bounds of `trim(s[lo..hi])` inside `s`.
pub fn trim_bounds(s: &[char], lo: usize, hi: usize) -> (r: (usize, usize))
    requires
        lo <= hi <= s@.len(),
    ensures
        lo <= r.0 <= r.1 <= hi,
        s@.subrange(r.0 as int, r.1 as int) == trim(s@.subrange(lo as int, hi as int)),
{
    let mut a = lo;
    while a < hi && is_whitespace_char(s[a])
        invariant
            lo <= a <= hi <= s@.len(),
            trim_start(s@.subrange(lo as int, hi as int)) == trim_start(s@.subrange(a as int, hi as int)),
        decreases hi - a,
    {
        proof {
            lemma_trim_start_step(s@, a as int, hi as int);
        }
        a += 1;
    }
    assert(trim_start(s@.subrange(a as int, hi as int)) == s@.subrange(a as int, hi as int));
    let mut b = hi;
    while b > a && is_whitespace_char(s[b - 1])
        invariant
            lo <= a <= b <= hi <= s@.len(),
            trim(s@.subrange(lo as int, hi as int)) == trim_end(s@.subrange(a as int, b as int)),
        decreases b - a,
    {
        proof {
            lemma_trim_end_step(s@, a as int, b as int);
        }
        b -= 1;
    }
    (a, b)
}

proof fn lemma_digits_value_nonneg(s: Seq<char>)
    requires
        all_digits(s),
    ensures
        digits_value(s) >= 0,
    decreases s.len(),
{
    if s.len() > 0 {
        assert(is_digit(s[s.len() - 1]));
        lemma_digits_value_nonneg(s.drop_last());
    }
}

proof fn lemma_digits_value_prefix(s: Seq<char>, k: int)
    requires
        all_digits(s),
        0 <= k <= s.len(),
    ensures
        digits_value(s.take(k)) <= digits_value(s),
    decreases s.len(),
{
    if k < s.len() {
        assert(s.drop_last().take(k) =~= s.take(k));
        assert(is_digit(s[s.len() - 1]));
        lemma_digits_value_prefix(s.drop_last(), k);
        lemma_digits_value_nonneg(s.drop_last());
    } else {
        assert(s.take(k) =~= s);
    }
}

proof fn lemma_digits_step(d: Seq<char>, k: int)
    requires
        0 <= k < d.len(),
        all_digits(d.take(k)),
        is_digit(d[k]),
    ensures
        all_digits(d.take(k + 1)),
        digits_value(d.take(k + 1)) == digits_value(d.take(k)) * 10 + (d[k] as int - '0' as int),
{
    assert(d.take(k + 1).drop_last() =~= d.take(k));
}

proof fn lemma_prefix_exceeds(d: Seq<char>, k: int, max: int)
    requires
        0 <= k <= d.len(),
        digits_value(d.take(k)) > max,
    ensures
        !(all_digits(d) && digits_value(d) <= max),
{
    if all_digits(d) {
        lemma_digits_value_prefix(d, k);
    }
}

/// `str::parse` of `s[lo..hi]` into an unsigned integer type whose largest
/// value is `max`.
pub fn parse_unsigned_in(s: &[char], lo: usize, hi: usize, max: u64) -> (r: Option<u64>)
    requires
        lo <= hi <= s@.len(),
    ensures
        r matches Some(v) ==> parse_unsigned(s@.subrange(lo as int, hi as int), max as int) == Some(
            v as int,
        ),
        r is None ==> parse_unsigned(s@.subrange(lo as int, hi as int), max as int) is None,
{
    let ghost t = s@.subrange(lo as int, hi as int);
    let mut i = lo;
    if i < hi && s[i] == '+' {
        i += 1;
    }
    let ghost d = s@.subrange(i as int, hi as int);
    assert(d =~= (if t.len() > 0 && t[0] == '+' { t.drop_first() } else { t }));
    if i == hi {
        assert(d.len() == 0);
        return None;
    }
    let mut v: u64 = 0;
    let start = i;
    assert(d.take(0) =~= Seq::<char>::empty());
    while i < hi
        invariant
            lo <= start <= i <= hi <= s@.len(),
            d == s@.subrange(start as int, hi as int),
            t == s@.subrange(lo as int, hi as int),
            d.len() > 0,
            parse_unsigned(t, max as int) == (if all_digits(d) && digits_value(d) <= max {
                Some(digits_value(d))
            } else {
                None::<int>
            }),
            all_digits(d.take(i - start)),
            v as int == digits_value(d.take(i - start)),
            v <= max,
        decreases hi - i,
    {
        let c = s[i];
        assert(d[i - start] == c);
        if !('0' <= c && c <= '9') {
            assert(!all_digits(d));
            return None;
        }
        let dv: u64 = (c as u64) - ('0' as u64);
        proof {
            lemma_digits_step(d, i - start);
        }
        if dv > max || v > (max - dv) / 10 {
            proof {
                if dv <= max {
                    assert(v * 10 + dv > max) by (nonlinear_arith)
                        requires
                            v > (max - dv) / 10,
                            dv <= max,
                    ;
                }
                lemma_prefix_exceeds(d, i + 1 - start, max as int);
            }
            return None;
        }
        v = v * 10 + dv;
        i += 1;
    }
    assert(d.take(d.len() as int) =~= d);
    Some(v)
}

/// `str::trim` then `str::parse` of `s[lo..hi]` into an unsigned integer
/// type whose largest value is `max`.
pub fn parse_trimmed_unsigned_in(s: &[char], lo: usize, hi: usize, max: u64) -> (r: Option<u64>)
    requires
        lo <= hi <= s@.len(),
    ensures
        r matches Some(v) ==> parse_trimmed_unsigned(s@.subrange(lo as int, hi as int), max as int)
            == Some(v as int),
        r is None ==> parse_trimmed_unsigned(s@.subrange(lo as int, hi as int), max as int) is None,
{
    let (a, b) = trim_bounds(s, lo, hi);
    parse_unsigned_in(s, a, b, max)
}

/// `expected` stands in `cs` from index `lo` on.
pub fn chars_equal(cs: &[char], lo: usize, expected: &[char]) -> (b: bool)
    requires
        lo <= cs@.len(),
    ensures
        b == (lo + expected@.len() <= cs@.len() && cs@.subrange(lo as int, lo + expected@.len()) == expected@),
{
    if expected.len() > cs.len() - lo {
        return false;
    }
    let total: usize = cs.len();
    let mut i: usize = 0;
    while i < expected.len()
        invariant
            i <= expected@.len(),
            total == cs@.len(),
            lo <= cs@.len(),
            lo + expected@.len() <= cs@.len(),
            forall|j: int| 0 <= j < i ==> cs@[lo + j] == expected@[j],
        decreases expected@.len() - i,
    {
        if cs[lo + i] != expected[i] {
            assert(cs@.subrange(lo as int, lo + expected@.len())[i as int] != expected@[i as int]);
            return false;
        }
        i += 1;
    }
    assert(cs@.subrange(lo as int, lo + expected@.len()) =~= expected@);
    true
}

proof fn lemma_digit_char(k: nat)
    requires
        k < 10,
    ensures
        digit_char(k) as int == '0' as int + k,
        is_digit(digit_char(k)),
        !is_whitespace(digit_char(k)),
{
}

/// The decimal writing of `n` is made of digits and reads back as `n`.
pub proof fn lemma_decimal_digits(n: nat)
    ensures
        decimal(n).len() >= 1,
        all_digits(decimal(n)),
        digits_value(decimal(n)) == n,
        forall|i: int| 0 <= i < decimal(n).len() ==> !is_whitespace(#[trigger] decimal(n)[i]),
    decreases n,
{
    lemma_digit_char(n % 10);
    if n < 10 {
        let d = decimal(n);
        assert(d.drop_last() =~= Seq::<char>::empty());
        assert(n % 10 == n);
        assert(digits_value(d.drop_last()) == 0);
        assert(digits_value(d) == digits_value(d.drop_last()) * 10 + (d.last() as int - '0' as int));
    } else {
        lemma_decimal_digits(n / 10);
        let d = decimal(n);
        assert(d.drop_last() =~= decimal(n / 10));
        assert(d.last() == digit_char(n % 10));
        assert((n / 10) * 10 + n % 10 == n) by (nonlinear_arith);
        assert(digits_value(d) == digits_value(d.drop_last()) * 10 + (d.last() as int - '0' as int));
        assert forall|i: int| 0 <= i < d.len() implies is_digit(#[trigger] d[i]) by {
            if i < d.len() - 1 {
                assert(d[i] == decimal(n / 10)[i]);
            }
        }
    }
}

/// A number the referees write reads back as itself: `str::parse` of the
/// decimal writing of `n` gives `n` for any integer type that holds `n`.
pub proof fn law_parse_decimal(n: nat, max: int)
    requires
        n <= max,
    ensures
        parse_unsigned(decimal(n), max) == Some(n as int),
{
    lemma_decimal_digits(n);
}

/// `trim` leaves a decimal writing unchanged.
pub proof fn lemma_trim_decimal(n: nat)
    ensures
        trim(decimal(n)) == decimal(n),
{
    lemma_decimal_digits(n);
    let d = decimal(n);
    assert(!is_whitespace(d[0]));
    assert(trim_start(d) == d);
    assert(!is_whitespace(d.last()));
    assert(trim_end(d) == d);
}


/// What `str::parse` gives for an integer type whose values are
/// `min..=max`: for a signed type (`min < 0`) an optional `-` before at
/// least one decimal digit, else what `parse_unsigned` accepts; the value
/// must be in range.
pub open spec fn parse_integer(s: Seq<char>, min: int, max: int) -> Option<int> {
    if min < 0 && s.len() > 0 && s[0] == '-' {
        let d = s.drop_first();
        if d.len() > 0 && all_digits(d) && -digits_value(d) >= min {
            Some(-digits_value(d))
        } else {
            None
        }
    } else {
        parse_unsigned(s, max)
    }
}

/// The piece number `k` of `str::split(sep)` on `s`, if there are so many.
pub open spec fn nth_piece(s: Seq<char>, sep: char, k: nat) -> Option<Seq<char>>
    decreases k,
{
    if k == 0 {
        Some(before_char(s, sep))
    } else if find_char(s, sep) >= s.len() {
        None
    } else {
        nth_piece(after_char(s, sep), sep, (k - 1) as nat)
    }
}

/// Field number `k` of a line of numbers separated by single spaces,
/// trimmed and parsed into an integer type with values `min..=max`.
pub open spec fn line_field(line: Seq<char>, k: nat, min: int, max: int) -> Option<int> {
    match nth_piece(line, ' ', k) {
        Some(p) => parse_integer(trim(p), min, max),
        None => None,
    }
}

/// `str::trim` then `str::parse` of `s[lo..hi]` into an integer type with
/// values `min..=max`.
pub fn parse_trimmed_integer_in(s: &[char], lo: usize, hi: usize, min: i64, max: i64) -> (r: Option<i64>)
    requires
        lo <= hi <= s@.len(),
        min <= 0 <= max,
    ensures
        r matches Some(v) ==> min <= v <= max,
        r matches Some(v) ==> parse_integer(trim(s@.subrange(lo as int, hi as int)), min as int, max as int)
            == Some(v as int),
        r is None ==> parse_integer(trim(s@.subrange(lo as int, hi as int)), min as int, max as int) is None,
{
    let (a, b) = trim_bounds(s, lo, hi);
    let ghost t = s@.subrange(a as int, b as int);
    if min < 0 && a < b && s[a] == '-' {
        assert(t[0] == '-');
        let ghost d = t.drop_first();
        assert(d =~= s@.subrange(a + 1, b as int));
        if a + 1 < b && s[a + 1] == '+' {
            assert(!is_digit(d[0]));
            return None;
        }
        let m: u64 = if min == i64::MIN {
            9223372036854775808u64
        } else {
            (-min) as u64
        };
        match parse_unsigned_in(s, a + 1, b, m) {
            Some(v) => {
                assert(d.len() == 0 || d[0] != '+');
                assert(parse_unsigned(d, m as int) == Some(v as int));
                let r: i64 = if v == 9223372036854775808u64 {
                    i64::MIN
                } else {
                    -(v as i64)
                };
                Some(r)
            },
            None => {
                assert(d.len() == 0 || d[0] != '+');
                None
            },
        }
    } else {
        match parse_unsigned_in(s, a, b, max as u64) {
            Some(v) => Some(v as i64),
            None => None,
        }
    }
}

/// Field number `k` of a line of numbers (see `line_field`).
pub fn read_field(line: &[char], k: usize, min: i64, max: i64) -> (r: Option<i64>)
    requires
        min <= 0 <= max,
    ensures
        r matches Some(v) ==> line_field(line@, k as nat, min as int, max as int) == Some(v as int),
        r matches Some(v) ==> min <= v <= max,
        r is None ==> line_field(line@, k as nat, min as int, max as int) is None,
{
    let mut start: usize = 0;
    let mut j: usize = 0;
    assert(line@.skip(0) =~= line@);
    while j < k
        invariant
            j <= k,
            start <= line@.len(),
            nth_piece(line@, ' ', k as nat) == nth_piece(line@.skip(start as int), ' ', (k - j) as nat),
        decreases k - j,
    {
        let sp = find_char_from(line, start, ' ');
        if sp >= line.len() {
            return None;
        }
        proof {
            let t = line@.skip(start as int);
            lemma_find_char_bounds(t, ' ');
            assert(after_char(t, ' ') =~= line@.skip(sp + 1));
        }
        start = sp + 1;
        j += 1;
    }
    let end = find_char_from(line, start, ' ');
    proof {
        let t = line@.skip(start as int);
        lemma_find_char_bounds(t, ' ');
        assert(before_char(t, ' ') =~= line@.subrange(start as int, end as int));
    }
    parse_trimmed_integer_in(line, start, end, min, max)
}


/// A whole line, trimmed and parsed into an integer type with values
/// `min..=max` (`str::trim` then `str::parse`).
pub fn read_number(line: &[char], min: i64, max: i64) -> (r: Option<i64>)
    requires
        min <= 0 <= max,
    ensures
        r matches Some(v) ==> parse_integer(trim(line@), min as int, max as int) == Some(v as int),
        r is None ==> parse_integer(trim(line@), min as int, max as int) is None,
{
    assert(line@.subrange(0, line@.len() as int) =~= line@);
    parse_trimmed_integer_in(line, 0, line.len(), min, max)
}


/// The bounds in `line` of piece number `k` of `str::split(' ')`, trimmed.
pub fn trimmed_piece_bounds(line: &[char], k: usize) -> (r: Option<(usize, usize)>)
    ensures
        r matches Some(b) ==> b.0 <= b.1 <= line@.len() && nth_piece(line@, ' ', k as nat) is Some && line@.subrange(
            b.0 as int,
            b.1 as int,
        ) == trim(nth_piece(line@, ' ', k as nat)->0),
        r is None ==> nth_piece(line@, ' ', k as nat) is None,
{
    let mut start: usize = 0;
    let mut j: usize = 0;
    assert(line@.skip(0) =~= line@);
    while j < k
        invariant
            j <= k,
            start <= line@.len(),
            nth_piece(line@, ' ', k as nat) == nth_piece(line@.skip(start as int), ' ', (k - j) as nat),
        decreases k - j,
    {
        let sp = find_char_from(line, start, ' ');
        if sp >= line.len() {
            return None;
        }
        proof {
            let t = line@.skip(start as int);
            lemma_find_char_bounds(t, ' ');
            assert(after_char(t, ' ') =~= line@.skip(sp + 1));
        }
        start = sp + 1;
        j += 1;
    }
    let end = find_char_from(line, start, ' ');
    proof {
        let t = line@.skip(start as int);
        lemma_find_char_bounds(t, ' ');
        assert(before_char(t, ' ') =~= line@.subrange(start as int, end as int));
    }
    Some(trim_bounds(line, start, end))
}

} // verus!
