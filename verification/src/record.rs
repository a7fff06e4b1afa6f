//! The records of game runs that a replay viewer reads: the state of a
//! game at each turn as text, and how to draw its board.
use vstd::prelude::*;
use crate::game::WinLossTie;
use crate::text::{decimal, push_char, push_str, push_u64, string_from};

verus! {

/// The shape of a board: a grid of rows and columns, or hexagons.
#[allow(non_camel_case_types)]
pub enum BoardType {
    SQUARE(u32, u32),
    REGULAR_HEXAGONE_4_SIDES_FLAT_TOP,
}

/// How a character of a cell's code is drawn: a text, and styles (CSS
/// properties and values) for the text and the cell.
pub struct CellClass {
    pub text: Option<String>,
    pub text_style: Option<Vec<(String, String)>>,
    pub cell_style: Option<Vec<(String, String)>>,
}

/// How to draw a board: for each position of the cells' codes, the class
/// of each character.
pub struct BoardRepresentation {
    pub board_type: BoardType,
    pub classes: Vec<Vec<(char, CellClass)>>,
}

/// A game's state as text: the code of each cell of the board, if it has
/// one, and named values.
pub struct GameState {
    pub board: Option<Vec<Vec<String>>>,
    pub state: Vec<(String, String)>,
}

impl Default for GameState {
    /// No board and no value.
    fn default() -> (s: Self)
        ensures
            s.board is None,
            s.state@.len() == 0,
    {
        GameState { board: None, state: Vec::new() }
    }
}

/// One turn of a run: the state, who played, what it read, what it said
/// of its search, and its move.
pub struct GameTurn {
    pub turn: u32,
    pub game_state: GameState,
    pub player: u32,
    pub player_input: Vec<String>,
    pub player_state: Vec<(String, String)>,
    pub player_move: String,
}

/// One game: its turns, its final state and each player's result.
pub struct GameRun {
    pub run_id: u32,
    pub total_turns: u32,
    pub turns: Vec<GameTurn>,
    pub final_state: GameState,
    pub winners: Vec<WinLossTie>,
}

/// The runs of a series, with how to draw the board.
pub struct Record {
    pub board_representation: Option<BoardRepresentation>,
    pub game_runs: Vec<GameRun>,
}

/// The named values as texts.
pub open spec fn text_pairs(v: Seq<(String, String)>) -> Seq<(Seq<char>, Seq<char>)> {
    v.map_values(|e: (String, String)| (e.0@, e.1@))
}

/// The rows of cell codes as texts.
pub open spec fn text_rows(v: Seq<Vec<String>>) -> Seq<Seq<Seq<char>>> {
    v.map_values(|row: Vec<String>| row@.map_values(|s: String| s@))
}

/// The text of a flag, as `bool` writes it.
pub open spec fn bool_text(b: bool) -> Seq<char> {
    if b {
        seq!['t', 'r', 'u', 'e']
    } else {
        seq!['f', 'a', 'l', 's', 'e']
    }
}

/// The writing of `n` in base 2, without leading zeros.
pub open spec fn binary(n: nat) -> Seq<char>
    decreases n,
{
    if n < 2 {
        seq![if n == 0 { '0' } else { '1' }]
    } else {
        binary(n / 2).push(if n % 2 == 0 { '0' } else { '1' })
    }
}

/// `s` with `'0'`s before it up to `width` characters.
pub open spec fn zero_padded(s: Seq<char>, width: nat) -> Seq<char> {
    if s.len() >= width {
        s
    } else {
        Seq::new((width - s.len()) as nat, |i: int| '0') + s
    }
}

/// The text of a flag (see `bool_text`).
pub fn bool_string(b: bool) -> (s: String)
    ensures
        s@ == bool_text(b),
{
    let mut s = String::new();
    if b {
        push_char(&mut s, 't');
        push_char(&mut s, 'r');
        push_char(&mut s, 'u');
        push_char(&mut s, 'e');
    } else {
        push_char(&mut s, 'f');
        push_char(&mut s, 'a');
        push_char(&mut s, 'l');
        push_char(&mut s, 's');
        push_char(&mut s, 'e');
    }
    assert(s@ =~= bool_text(b));
    s
}

/// The writing of `n` in base 2 with `'0'`s before it up to `width`
/// characters (see `binary` and `zero_padded`).
pub fn binary_string(n: u128, width: usize) -> (s: String)
    ensures
        s@ == zero_padded(binary(n as nat), width as nat),
{
    // digits, least significant first
    let mut digits: Vec<char> = Vec::new();
    let mut m: u128 = n;
    while m >= 2
        invariant
            m <= n,
            binary(n as nat) == binary(m as nat) + digits@.reverse(),
        decreases m,
    {
        let c = if m % 2 == 0 {
            '0'
        } else {
            '1'
        };
        let ghost old_digits = digits@;
        digits.push(c);
        assert(digits@.reverse() =~= seq![c] + old_digits.reverse());
        assert(binary(m as nat) =~= binary((m / 2) as nat).push(c));
        assert(binary(m as nat) + old_digits.reverse() =~= binary((m / 2) as nat) + (seq![c] + old_digits.reverse()));
        m = m / 2;
    }
    let c = if m == 0 {
        '0'
    } else {
        '1'
    };
    let ghost old_digits = digits@;
    digits.push(c);
    assert(digits@.reverse() =~= seq![c] + old_digits.reverse());
    assert(binary(m as nat) =~= seq![c]);
    assert(binary(n as nat) =~= digits@.reverse());
    let mut s = String::new();
    let len = digits.len();
    let mut z: usize = len;
    while z < width
        invariant
            len <= z <= if width > len { width } else { len },
            s@ == Seq::new((z - len) as nat, |i: int| '0'),
        decreases width - z,
    {
        push_char(&mut s, '0');
        assert(s@ =~= Seq::new((z + 1 - len) as nat, |i: int| '0'));
        z += 1;
    }
    let ghost pad = s@;
    let mut k: usize = digits.len();
    while k > 0
        invariant
            k <= digits@.len(),
            s@ == pad + digits@.reverse().take(digits@.len() - k),
        decreases k,
    {
        k -= 1;
        push_char(&mut s, digits[k]);
        assert(digits@.reverse().take(digits@.len() - k) =~= digits@.reverse().take(digits@.len() - k - 1).push(
            digits@[k as int],
        ));
    }
    assert(digits@.reverse().take(digits@.len() as int) =~= digits@.reverse());
    assert(s@ =~= zero_padded(binary(n as nat), width as nat));
    s
}

/// A named value.
pub fn entry(name: &str, value: String) -> (e: (String, String))
    ensures
        e.0@ == name@,
        e.1@ == value@,
{
    (string_from(name), value)
}

/// A text, if there is one.
pub open spec fn opt_text(o: Option<String>) -> Option<Seq<char>> {
    match o {
        Some(t) => Some(t@),
        None => None,
    }
}

/// Styles as texts, if there are any.
pub open spec fn opt_styles(o: Option<Vec<(String, String)>>) -> Option<Seq<(Seq<char>, Seq<char>)>> {
    match o {
        Some(v) => Some(text_pairs(v@)),
        None => None,
    }
}

/// What a class says, as texts: its text, its text's styles and its
/// cell's styles.
pub type ClassText = (Option<Seq<char>>, Option<Seq<(Seq<char>, Seq<char>)>>, Option<Seq<(Seq<char>, Seq<char>)>>);

/// A class as texts.
pub open spec fn class_text(c: CellClass) -> ClassText {
    (opt_text(c.text), opt_styles(c.text_style), opt_styles(c.cell_style))
}

/// The classes of one position of the cells' codes as texts.
pub open spec fn position_text(v: Seq<(char, CellClass)>) -> Seq<(char, ClassText)> {
    v.map_values(|e: (char, CellClass)| (e.0, class_text(e.1)))
}

/// The classes of every position as texts.
pub open spec fn classes_text(v: Seq<Vec<(char, CellClass)>>) -> Seq<Seq<(char, ClassText)>> {
    v.map_values(|p: Vec<(char, CellClass)>| position_text(p@))
}

/// A class that changes nothing.
pub open spec fn plain() -> ClassText {
    (None, None, None)
}

/// A style: a property and its value.
pub fn style(property: &str, value: &str) -> (e: (String, String))
    ensures
        e.0@ == property@,
        e.1@ == value@,
{
    (string_from(property), string_from(value))
}

/// A class with a single style on its cell.
pub fn cell_class(property: &str, value: &str) -> (c: CellClass)
    ensures
        class_text(c) == (None::<Seq<char>>, None::<Seq<(Seq<char>, Seq<char>)>>, Some(seq![(property@, value@)])),
{
    let styles = vec![style(property, value)];
    let c = CellClass { text: None, text_style: None, cell_style: Some(styles) };
    assert(text_pairs(styles@) =~= seq![(property@, value@)]);
    c
}

/// A class that changes nothing.
pub fn plain_class() -> (c: CellClass)
    ensures
        class_text(c) == plain(),
{
    CellClass { text: None, text_style: None, cell_style: None }
}

/// A class that shows a text, with the given styles on it.
pub fn text_class(text: &str, text_style: Option<Vec<(String, String)>>) -> (c: CellClass)
    ensures
        class_text(c) == (Some(text@), opt_styles(text_style), None::<Seq<(Seq<char>, Seq<char>)>>),
{
    CellClass { text: Some(string_from(text)), text_style, cell_style: None }
}

/// Styles from the given pairs.
pub fn styles(v: Vec<(String, String)>) -> (o: Option<Vec<(String, String)>>)
    ensures
        opt_styles(o) == Some(text_pairs(v@)),
{
    Some(v)
}

/// The name of a value of player `p`: `player[p]: ` and what it is.
pub open spec fn player_key(p: nat, what: Seq<char>) -> Seq<char> {
    "player["@ + decimal(p) + "]: "@ + what
}

/// The name of a value of player `p` (see `player_key`).
pub fn player_key_string(p: u64, what: &str) -> (s: String)
    ensures
        s@ == player_key(p as nat, what@),
{
    let mut s = string_from("player[");
    push_u64(&mut s, p);
    push_str(&mut s, "]: ");
    push_str(&mut s, what);
    assert(s@ =~= player_key(p as nat, what@));
    s
}

/// The texts one after the other, with `sep` between two of them.
pub open spec fn joined(parts: Seq<Seq<char>>, sep: Seq<char>) -> Seq<char>
    decreases parts.len(),
{
    if parts.len() == 0 {
        Seq::empty()
    } else if parts.len() == 1 {
        parts[0]
    } else {
        joined(parts.drop_last(), sep) + sep + parts.last()
    }
}

/// The texts one after the other, with `sep` between two of them (see
/// `joined`).
pub fn join_strings(parts: &Vec<String>, sep: &str) -> (s: String)
    ensures
        s@ == joined(parts@.map_values(|p: String| p@), sep@),
{
    let ghost texts = parts@.map_values(|p: String| p@);
    let mut s = String::new();
    let mut i: usize = 0;
    while i < parts.len()
        invariant
            i <= parts@.len(),
            texts == parts@.map_values(|p: String| p@),
            s@ == joined(texts.take(i as int), sep@),
        decreases parts@.len() - i,
    {
        if i > 0 {
            push_str(&mut s, sep);
        }
        push_str(&mut s, parts[i].as_str());
        assert(texts.take(i + 1).drop_last() =~= texts.take(i as int));
        proof {
            if i == 0 {
                assert(texts.take(1) =~= seq![texts[0]]);
            }
        }
        i += 1;
    }
    assert(texts.take(parts@.len() as int) =~= texts);
    s
}

} // verus!
