//! What a replay shows of a forest game: a code of five characters per
//! cell of a 7x7 grid that holds the hexagonal board, and the referee's
//! values as text.
use vstd::prelude::*;
use crate::record::{BoardRepresentation, BoardType, CellClass, ClassText, GameState, bool_string, bool_text, classes_text, cell_class, entry, plain, plain_class, text_class, player_key, player_key_string, position_text, style, styles, text_pairs, text_rows};
use crate::text::{decimal, push_char, push_str, push_u64, string_from, u64_to_string};
use crate::wood_spirit::cache::{SoilRichness, Tree};
use crate::wood_spirit::game::WoodSpiritGame;
use crate::wood_spirit::protocol::move_text;
use crate::wood_spirit::rules::{Player, get_shadowed_cells, get_spookied_cells, is_shadowed, is_spookied, owners_ok};

verus! {

/// The cell shown at row `r` and column `c` of the grid, if any.
pub open spec fn board_cell(r: int, c: int) -> Option<int> {
    if r == 3 && c == 3 {
        Some(0)
    } else if r == 3 && c == 4 {
        Some(1)
    } else if r == 2 && c == 3 {
        Some(2)
    } else if r == 2 && c == 2 {
        Some(3)
    } else if r == 3 && c == 2 {
        Some(4)
    } else if r == 4 && c == 2 {
        Some(5)
    } else if r == 4 && c == 3 {
        Some(6)
    } else if r == 3 && c == 5 {
        Some(7)
    } else if r == 2 && c == 4 {
        Some(8)
    } else if r == 1 && c == 3 {
        Some(9)
    } else if r == 1 && c == 2 {
        Some(10)
    } else if r == 1 && c == 1 {
        Some(11)
    } else if r == 2 && c == 1 {
        Some(12)
    } else if r == 3 && c == 1 {
        Some(13)
    } else if r == 4 && c == 1 {
        Some(14)
    } else if r == 5 && c == 1 {
        Some(15)
    } else if r == 5 && c == 2 {
        Some(16)
    } else if r == 5 && c == 3 {
        Some(17)
    } else if r == 4 && c == 4 {
        Some(18)
    } else if r == 3 && c == 6 {
        Some(19)
    } else if r == 2 && c == 5 {
        Some(20)
    } else if r == 1 && c == 4 {
        Some(21)
    } else if r == 0 && c == 3 {
        Some(22)
    } else if r == 0 && c == 2 {
        Some(23)
    } else if r == 0 && c == 1 {
        Some(24)
    } else if r == 0 && c == 0 {
        Some(25)
    } else if r == 1 && c == 0 {
        Some(26)
    } else if r == 2 && c == 0 {
        Some(27)
    } else if r == 3 && c == 0 {
        Some(28)
    } else if r == 4 && c == 0 {
        Some(29)
    } else if r == 5 && c == 0 {
        Some(30)
    } else if r == 6 && c == 0 {
        Some(31)
    } else if r == 6 && c == 1 {
        Some(32)
    } else if r == 6 && c == 2 {
        Some(33)
    } else if r == 6 && c == 3 {
        Some(34)
    } else if r == 5 && c == 4 {
        Some(35)
    } else if r == 4 && c == 5 {
        Some(36)
    } else {
        None
    }
}

/// The digit of a soil's richness.
pub open spec fn richness_char(s: SoilRichness) -> char {
    match s {
        SoilRichness::UNUSABLE => '0',
        SoilRichness::LOW_QUALITY => '1',
        SoilRichness::MEDIUM_QUALITY => '2',
        SoilRichness::HIGH_QUALITY => '3',
    }
}

/// The picture of a tree's size.
pub open spec fn tree_char(t: Tree) -> char {
    match t {
        Tree::SEED => '🌰',
        Tree::SMALL_TREE => '🌱',
        Tree::MEDIUM_TREE => '🪴',
        Tree::LARGE_TREE => '🌳',
    }
}

/// The code of cell `p`: its richness, its owner, its tree, whether the
/// tree sleeps, and whether the cell is in a spooky shadow (`2`), another
/// shadow (`1`) or none (`0`).
pub open spec fn cell_code(g: WoodSpiritGame, p: int) -> Seq<char> {
    let cell = g.board[p];
    seq![
        richness_char(g.cache.soil()[p]),
        match cell {
            Some(t) => if t.player == 0 { '0' } else { '1' },
            None => '.',
        },
        match cell {
            Some(t) => tree_char(t.tree),
            None => '.',
        },
        match cell {
            Some(t) => if t.is_dormant { '😴' } else { '🏃' },
            None => '.',
        },
        if is_spookied(g.board@, g.day as int, p) {
            '2'
        } else if is_shadowed(g.board@, g.day as int, p) {
            '1'
        } else {
            '0'
        },
    ]
}

/// The codes of the 7 rows of 7 places; a place that holds no cell shows
/// `....`.
pub open spec fn board_codes(g: WoodSpiritGame) -> Seq<Seq<Seq<char>>> {
    Seq::new(
        7,
        |r: int|
            Seq::new(
                7,
                |c: int|
                    match board_cell(r, c) {
                        Some(p) => cell_code(g, p),
                        None => "...."@,
                    },
            ),
    )
}

/// A player's trees by size, with their pictures.
pub open spec fn tree_counts_text(pl: Player) -> Seq<char> {
    "["@ + decimal(pl.seed_count as nat) + "🌰, "@ + decimal(pl.small_tree_count as nat) + "🌱, "@
        + decimal(pl.medium_tree_count as nat) + "🪴, "@ + decimal(pl.large_tree_count as nat) + "🌳]"@
}

/// The values of player `p`, by name.
pub open spec fn player_entries(pl: Player, p: nat) -> Seq<(Seq<char>, Seq<char>)> {
    seq![
        (player_key(p, "Score"@), decimal(pl.score as nat)),
        (player_key(p, "Sun"@), decimal(pl.sun as nat)),
        (player_key(p, "Asleep"@), bool_text(pl.is_asleep)),
        (player_key(p, "Move"@), match pl.move_ {
            Some(m) => move_text(m),
            None => "None"@,
        }),
        (player_key(p, "Tree counts"@), tree_counts_text(pl)),
    ]
}

/// The referee's values, by name.
pub open spec fn state_entries(g: WoodSpiritGame) -> Seq<(Seq<char>, Seq<char>)> {
    seq![
        ("Nutrient"@, decimal(g.nutrient as nat)),
        ("Day"@, decimal(g.day as nat)),
        ("Turn during day"@, decimal(g.turn_during_day as nat)),
        ("Turn"@, decimal(g.turn as nat)),
        ("Active"@, bool_text(g.active)),
        ("Active player"@, decimal(g.active_player as nat)),
    ] + player_entries(g.players[0], 0) + player_entries(g.players[1], 1)
}

/// The outline that keeps a tree's picture readable.
pub open spec fn tree_outline() -> Seq<(Seq<char>, Seq<char>)> {
    seq![("text-shadow"@, "-1px 0 white, 0 1px white, 1px 0 white, 0 -1px white"@)]
}

/// The dots that draw a shadow of the given size.
pub open spec fn shadow_dots(size: Seq<char>) -> Seq<(Seq<char>, Seq<char>)> {
    seq![
        ("background-image"@, "radial-gradient(black 1px, transparent 0)"@),
        ("background-size"@, size),
        ("background-repeat"@, "repeat"@),
    ]
}

/// How the five characters of a cell's code are drawn.
pub open spec fn board_classes() -> Seq<Seq<(char, ClassText)>> {
    seq![
        seq![
            ('0', (None, None, Some(seq![("backgroundColor"@, "#999999"@)]))),
            ('1', (None, None, Some(seq![("backgroundColor"@, "#CEB926"@)]))),
            ('2', (None, None, Some(seq![("backgroundColor"@, "#D5EC05"@)]))),
            ('3', (None, None, Some(seq![("backgroundColor"@, "#36DE01"@)]))),
            ('.', plain()),
        ],
        seq![
            ('0', (None, None, Some(seq![("border"@, "3px solid #FF552B"@)]))),
            ('1', (None, None, Some(seq![("border"@, "3px solid #2B9AFF"@)]))),
            ('.', plain()),
        ],
        seq![
            ('🌰', (Some("🌰"@), Some(tree_outline()), None)),
            ('🌱', (Some("🌱"@), Some(tree_outline()), None)),
            ('🪴', (Some("🪴"@), Some(tree_outline()), None)),
            ('🌳', (Some("🌳"@), Some(tree_outline()), None)),
            ('.', (Some(" "@), None, None)),
        ],
        seq![
            ('😴', (None, Some(seq![("text-decoration"@, "underline"@)]), None)),
            ('🏃', plain()),
            ('.', plain()),
        ],
        seq![
            ('0', plain()),
            ('1', (None, None, Some(shadow_dots("20% 20%"@)))),
            ('2', (None, None, Some(shadow_dots("7% 7%"@)))),
        ],
    ]
}

/// The cell shown at row `r` and column `c` of the grid (see `board_cell`).
pub fn board_pos_to_cell_id(r: usize, c: usize) -> (p: Option<usize>)
    ensures
        match p {
            Some(i) => board_cell(r as int, c as int) == Some(i as int) && i < 37,
            None => board_cell(r as int, c as int) is None,
        },
{
    if r == 3 && c == 3 {
        Some(0)
    } else if r == 3 && c == 4 {
        Some(1)
    } else if r == 2 && c == 3 {
        Some(2)
    } else if r == 2 && c == 2 {
        Some(3)
    } else if r == 3 && c == 2 {
        Some(4)
    } else if r == 4 && c == 2 {
        Some(5)
    } else if r == 4 && c == 3 {
        Some(6)
    } else if r == 3 && c == 5 {
        Some(7)
    } else if r == 2 && c == 4 {
        Some(8)
    } else if r == 1 && c == 3 {
        Some(9)
    } else if r == 1 && c == 2 {
        Some(10)
    } else if r == 1 && c == 1 {
        Some(11)
    } else if r == 2 && c == 1 {
        Some(12)
    } else if r == 3 && c == 1 {
        Some(13)
    } else if r == 4 && c == 1 {
        Some(14)
    } else if r == 5 && c == 1 {
        Some(15)
    } else if r == 5 && c == 2 {
        Some(16)
    } else if r == 5 && c == 3 {
        Some(17)
    } else if r == 4 && c == 4 {
        Some(18)
    } else if r == 3 && c == 6 {
        Some(19)
    } else if r == 2 && c == 5 {
        Some(20)
    } else if r == 1 && c == 4 {
        Some(21)
    } else if r == 0 && c == 3 {
        Some(22)
    } else if r == 0 && c == 2 {
        Some(23)
    } else if r == 0 && c == 1 {
        Some(24)
    } else if r == 0 && c == 0 {
        Some(25)
    } else if r == 1 && c == 0 {
        Some(26)
    } else if r == 2 && c == 0 {
        Some(27)
    } else if r == 3 && c == 0 {
        Some(28)
    } else if r == 4 && c == 0 {
        Some(29)
    } else if r == 5 && c == 0 {
        Some(30)
    } else if r == 6 && c == 0 {
        Some(31)
    } else if r == 6 && c == 1 {
        Some(32)
    } else if r == 6 && c == 2 {
        Some(33)
    } else if r == 6 && c == 3 {
        Some(34)
    } else if r == 5 && c == 4 {
        Some(35)
    } else if r == 4 && c == 5 {
        Some(36)
    } else {
        None
    }
}

fn richness_digit(s: SoilRichness) -> (c: char)
    ensures
        c == richness_char(s),
{
    match s {
        SoilRichness::UNUSABLE => '0',
        SoilRichness::LOW_QUALITY => '1',
        SoilRichness::MEDIUM_QUALITY => '2',
        SoilRichness::HIGH_QUALITY => '3',
    }
}

fn tree_picture(t: Tree) -> (c: char)
    ensures
        c == tree_char(t),
{
    match t {
        Tree::SEED => '🌰',
        Tree::SMALL_TREE => '🌱',
        Tree::MEDIUM_TREE => '🪴',
        Tree::LARGE_TREE => '🌳',
    }
}

fn code_of_cell(g: &WoodSpiritGame, p: usize, shadowed: &[bool; 37], spookied: &[bool; 37]) -> (s: String)
    requires
        p < 37,
        owners_ok(g.board@),
        forall|q: int| 0 <= q < 37 ==> #[trigger] shadowed[q] == is_shadowed(g.board@, g.day as int, q),
        forall|q: int| 0 <= q < 37 ==> #[trigger] spookied[q] == is_spookied(g.board@, g.day as int, q),
    ensures
        s@ == cell_code(*g, p as int),
{
    let mut s = String::new();
    push_char(&mut s, richness_digit(g.cache.get_soil_richness(p)));
    match g.board[p] {
        Some(cell) => {
            assert(g.board@[p as int] matches Some(t) ==> t.player < 2);
            push_char(&mut s, if cell.player == 0 { '0' } else { '1' });
            push_char(&mut s, tree_picture(cell.tree));
            push_char(&mut s, if cell.is_dormant { '😴' } else { '🏃' });
        },
        None => {
            push_char(&mut s, '.');
            push_char(&mut s, '.');
            push_char(&mut s, '.');
        },
    }
    let shadow = if spookied[p] {
        '2'
    } else if shadowed[p] {
        '1'
    } else {
        '0'
    };
    push_char(&mut s, shadow);
    assert(s@ =~= cell_code(*g, p as int));
    s
}

fn board_rows(g: &WoodSpiritGame) -> (board: Vec<Vec<String>>)
    requires
        owners_ok(g.board@),
    ensures
        text_rows(board@) == board_codes(*g),
{
    let shadowed = get_shadowed_cells(&g.board, g.day, &g.cache);
    let spookied = get_spookied_cells(&g.board, g.day, &g.cache);
    let mut board: Vec<Vec<String>> = Vec::new();
    let mut r: usize = 0;
    while r < 7
        invariant
            r <= 7,
            board@.len() == r,
            owners_ok(g.board@),
            forall|q: int| 0 <= q < 37 ==> #[trigger] shadowed[q] == is_shadowed(g.board@, g.day as int, q),
            forall|q: int| 0 <= q < 37 ==> #[trigger] spookied[q] == is_spookied(g.board@, g.day as int, q),
            forall|i: int| 0 <= i < r ==> (#[trigger] board@[i])@.map_values(|s: String| s@) == board_codes(*g)[i],
        decreases 7 - r,
    {
        let mut row: Vec<String> = Vec::new();
        let mut c: usize = 0;
        while c < 7
            invariant
                r < 7,
                c <= 7,
                row@.len() == c,
                owners_ok(g.board@),
                forall|q: int| 0 <= q < 37 ==> #[trigger] shadowed[q] == is_shadowed(g.board@, g.day as int, q),
                forall|q: int| 0 <= q < 37 ==> #[trigger] spookied[q] == is_spookied(g.board@, g.day as int, q),
                forall|j: int| 0 <= j < c ==> (#[trigger] row@[j])@ == board_codes(*g)[r as int][j],
            decreases 7 - c,
        {
            let code = match board_pos_to_cell_id(r, c) {
                Some(p) => code_of_cell(g, p, &shadowed, &spookied),
                None => string_from("...."),
            };
            row.push(code);
            c += 1;
        }
        assert(row@.map_values(|s: String| s@) =~= board_codes(*g)[r as int]);
        board.push(row);
        r += 1;
    }
    assert(text_rows(board@) =~= board_codes(*g));
    board
}

fn tree_counts_string(pl: &Player) -> (s: String)
    ensures
        s@ == tree_counts_text(*pl),
{
    let mut s = string_from("[");
    push_u64(&mut s, pl.seed_count as u64);
    push_str(&mut s, "🌰, ");
    push_u64(&mut s, pl.small_tree_count as u64);
    push_str(&mut s, "🌱, ");
    push_u64(&mut s, pl.medium_tree_count as u64);
    push_str(&mut s, "🪴, ");
    push_u64(&mut s, pl.large_tree_count as u64);
    push_str(&mut s, "🌳]");
    assert(s@ =~= tree_counts_text(*pl));
    s
}

fn push_player_entries(state: &mut Vec<(String, String)>, pl: &Player, p: u64)
    ensures
        text_pairs(final(state)@) == text_pairs(old(state)@) + player_entries(*pl, p as nat),
{
    let ghost before = state@;
    let the_move = match pl.move_ {
        Some(m) => m.to_string(),
        None => string_from("None"),
    };
    state.push((player_key_string(p, "Score"), u64_to_string(pl.score as u64)));
    state.push((player_key_string(p, "Sun"), u64_to_string(pl.sun as u64)));
    state.push((player_key_string(p, "Asleep"), bool_string(pl.is_asleep)));
    state.push((player_key_string(p, "Move"), the_move));
    state.push((player_key_string(p, "Tree counts"), tree_counts_string(pl)));
    assert(text_pairs(state@) =~= text_pairs(before) + player_entries(*pl, p as nat));
}

impl WoodSpiritGame {
    /// The state a replay shows: the code of each place of the grid (see
    /// `board_codes`) and the referee's values (see `state_entries`).
    pub fn get_state(&self) -> (s: GameState)
        requires
            owners_ok(self.board@),
        ensures
            s.board is Some,
            text_rows(s.board->0@) == board_codes(*self),
            text_pairs(s.state@) == state_entries(*self),
    {
        let board = board_rows(self);
        let mut state = vec![
            entry("Nutrient", u64_to_string(self.nutrient as u64)),
            entry("Day", u64_to_string(self.day as u64)),
            entry("Turn during day", u64_to_string(self.turn_during_day as u64)),
            entry("Turn", u64_to_string(self.turn as u64)),
            entry("Active", bool_string(self.active)),
            entry("Active player", u64_to_string(self.active_player as u64)),
        ];
        push_player_entries(&mut state, &self.players[0], 0);
        push_player_entries(&mut state, &self.players[1], 1);
        assert(text_pairs(state@) =~= state_entries(*self));
        GameState { board: Some(board), state }
    }

    /// How a replay draws the board: hexagons, with the classes of
    /// `board_classes` for the five characters of a cell's code.
    pub fn get_board_representation() -> (r: Option<BoardRepresentation>)
        ensures
            r is Some,
            r->0.board_type == BoardType::REGULAR_HEXAGONE_4_SIDES_FLAT_TOP,
            classes_text(r->0.classes@) == board_classes(),
    {
        let richness = vec![
            ('0', cell_class("backgroundColor", "#999999")),
            ('1', cell_class("backgroundColor", "#CEB926")),
            ('2', cell_class("backgroundColor", "#D5EC05")),
            ('3', cell_class("backgroundColor", "#36DE01")),
            ('.', plain_class()),
        ];
        assert(position_text(richness@) =~= board_classes()[0]);
        let owner = vec![
            ('0', cell_class("border", "3px solid #FF552B")),
            ('1', cell_class("border", "3px solid #2B9AFF")),
            ('.', plain_class()),
        ];
        assert(position_text(owner@) =~= board_classes()[1]);
        let trees = vec![
            ('🌰', text_class("🌰", styles(outline()))),
            ('🌱', text_class("🌱", styles(outline()))),
            ('🪴', text_class("🪴", styles(outline()))),
            ('🌳', text_class("🌳", styles(outline()))),
            ('.', text_class(" ", None)),
        ];
        assert(position_text(trees@) =~= board_classes()[2]);
        let underline = vec![style("text-decoration", "underline")];
        assert(text_pairs(underline@) =~= seq![("text-decoration"@, "underline"@)]);
        let sleep = vec![
            ('😴', CellClass { text: None, text_style: styles(underline), cell_style: None }),
            ('🏃', plain_class()),
            ('.', plain_class()),
        ];
        assert(position_text(sleep@) =~= board_classes()[3]);
        let shadow = vec![
            ('0', plain_class()),
            ('1', CellClass { text: None, text_style: None, cell_style: styles(dots("20% 20%")) }),
            ('2', CellClass { text: None, text_style: None, cell_style: styles(dots("7% 7%")) }),
        ];
        assert(position_text(shadow@) =~= board_classes()[4]);
        let classes = vec![richness, owner, trees, sleep, shadow];
        assert(classes_text(classes@) =~= board_classes());
        Some(BoardRepresentation { board_type: BoardType::REGULAR_HEXAGONE_4_SIDES_FLAT_TOP, classes })
    }
}

fn outline() -> (v: Vec<(String, String)>)
    ensures
        text_pairs(v@) == tree_outline(),
{
    let v = vec![style("text-shadow", "-1px 0 white, 0 1px white, 1px 0 white, 0 -1px white")];
    assert(text_pairs(v@) =~= tree_outline());
    v
}

fn dots(size: &str) -> (v: Vec<(String, String)>)
    ensures
        text_pairs(v@) == shadow_dots(size@),
{
    let v = vec![
        style("background-image", "radial-gradient(black 1px, transparent 0)"),
        style("background-size", size),
        style("background-repeat", "repeat"),
    ];
    assert(text_pairs(v@) =~= shadow_dots(size@));
    v
}

} // verus!
