use codingame_bots::game::{Game, WinLossTie};
use codingame_bots::stack_vector::StackVector;
use codingame_bots::text::read_field;
use codingame_bots::tic_tac_toe::board::{move81_to_movetuple, movetuple_to_move81};
use codingame_bots::tic_tac_toe::game::TicTacToeGame;
use codingame_bots::tic_tac_toe::player as ttt;
use codingame_bots::witches_brew::cache::Cache as WitchesCache;
use codingame_bots::witches_brew::player as witch;
use codingame_bots::witches_brew::rules::{find_order, find_spell, Move as WitchesMove, Order, Spell};
use codingame_bots::witches_brew::turn_input::{
    action_line, inventory_line, read_entities, to_codingame_move, witch_of_turn, ActionKind,
};
use codingame_bots::wood_spirit::cache::{SoilRichness, Tree};
use codingame_bots::wood_spirit::game::init_with_params;
use codingame_bots::wood_spirit::player as wood;
use codingame_bots::wood_spirit::rules::{Cell, Move as WoodMove};

fn chars(s: &str) -> Vec<char> {
    s.chars().collect()
}

#[test]
fn fields_read_as_their_type() {
    let line = chars("12 -3  +4 x 255");
    assert_eq!(read_field(&line, 0, 0, 255), Some(12));
    assert_eq!(read_field(&line, 1, -128, 127), Some(-3));
    assert_eq!(read_field(&line, 1, 0, 255), None);
    assert_eq!(read_field(&line, 2, 0, 255), None);
    assert_eq!(read_field(&line, 3, 0, 255), Some(4));
    assert_eq!(read_field(&line, 4, 0, 255), None);
    assert_eq!(read_field(&line, 5, 0, 255), Some(255));
    assert_eq!(read_field(&line, 5, -128, 127), None);
    assert_eq!(read_field(&line, 6, 0, 255), None);
    assert_eq!(read_field(&chars("-0 -"), 0, 0, 255), None);
    assert_eq!(read_field(&chars("-0 -"), 0, -1, 1), Some(0));
    assert_eq!(read_field(&chars("-0 -"), 1, -1, 1), None);
}

#[test]
fn wood_player_reads_the_board_description() {
    assert_eq!(wood::cell_soil("0 3 1 2 3 4 5 6"), Some((0, SoilRichness::HIGH_QUALITY)));
    assert_eq!(wood::cell_soil("19 0 -1 -1 20 7 36 -1"), Some((19, SoilRichness::UNUSABLE)));
    assert_eq!(wood::cell_soil("19 4 -1 -1 20 7 36 -1"), None);
    assert_eq!(wood::cell_soil("37 1 -1 -1 20 7 36 -1"), None);
    assert_eq!(wood::cell_soil("19 1 -1 -1 20 7 36"), None);
    let soil = wood::soil_from_cells(&[(0, SoilRichness::HIGH_QUALITY), (5, SoilRichness::LOW_QUALITY), (0, SoilRichness::MEDIUM_QUALITY)]);
    assert!(soil[0] == SoilRichness::MEDIUM_QUALITY);
    assert!(soil[5] == SoilRichness::LOW_QUALITY);
    assert!(soil[1] == SoilRichness::UNUSABLE);
}

#[test]
fn wood_player_reads_a_turn() {
    assert_eq!(wood::number_line("23\n", 0, 255), Some(23));
    assert_eq!(wood::sun_and_score("7 12"), Some((7, 12)));
    assert_eq!(wood::opponent_line("3 4 1"), Some((3, 4, true)));
    assert_eq!(wood::opponent_line("3 4 2"), None);
    let t1 = wood::tree_line("20 1 1 0").unwrap();
    let t2 = wood::tree_line("21 3 0 1").unwrap();
    let t3 = wood::tree_line("22 0 1 0").unwrap();
    assert_eq!(wood::tree_line("22 4 1 0"), None);
    assert_eq!(wood::tree_line("22 1 2 0"), None);
    assert_eq!(t2.1, Cell { player: 1, tree: Tree::LARGE_TREE, is_dormant: true });
    let state = wood::state_from_input(3, 18, (7, 12), (3, 4, true), &[t1, t2, t3], 2);
    assert_eq!(state.players[0].small_tree_count, 1);
    assert_eq!(state.players[0].seed_count, 1);
    assert_eq!(state.players[1].large_tree_count, 1);
    assert!(state.players[1].is_asleep);
    assert_eq!(state.day, 3);
    assert_eq!(state.active_player, 0);
    assert_eq!(wood::next_turn_during_day(2, 3, 5), 0);
    assert_eq!(wood::next_turn_during_day(3, 3, 5), 6);
}

fn wood_state_of(g: &codingame_bots::wood_spirit::game::WoodSpiritGame) -> wood::State {
    wood::State {
        board: g.board,
        players: g.players,
        nutrient: g.nutrient,
        day: g.day,
        turn_during_day: g.turn_during_day,
        active: g.active,
        active_player: g.active_player,
        winners: g.winners,
    }
}

#[test]
fn wood_simulation_follows_the_referee() {
    let mut game = init_with_params(&[[29, 30], [27, 26]], &[]);
    let mut state = wood_state_of(&game);
    for _ in 0..60 {
        if wood::is_terminal(&state) {
            break;
        }
        let (pid, valid) = wood::valid_moves(&state, &game.cache);
        let m = valid.slice()[0];
        wood::update_state(&mut state, pid, m, &game.cache);
        game.play(m.to_string());
        let expected = wood_state_of(&game);
        assert_eq!(state.board, expected.board);
        assert_eq!(state.players, expected.players);
        assert_eq!(state.day, expected.day);
        assert_eq!(state.turn_during_day, expected.turn_during_day);
        assert_eq!(state.active_player, expected.active_player);
        assert_eq!(state.nutrient, expected.nutrient);
        assert_eq!(state.active, expected.active);
    }
    assert!(state.day > 0);
}

#[test]
fn wood_seeds_on_the_same_cell_are_lost() {
    let game = init_with_params(&[[29, 30], [27, 26]], &[]);
    let mine = Cell { player: 0, tree: Tree::SMALL_TREE, is_dormant: false };
    let theirs = Cell { player: 1, tree: Tree::SMALL_TREE, is_dormant: false };
    let mut state = wood::state_from_input(1, 20, (10, 0), (10, 0, false), &[(0, mine), (7, theirs)], 0);
    let (_, valid) = wood::valid_moves(&state, &game.cache);
    assert!(valid.slice().contains(&WoodMove::SEED(0, 1)));
    wood::update_state(&mut state, 0, WoodMove::SEED(0, 1), &game.cache);
    assert_eq!(state.active_player, 1);
    wood::update_state(&mut state, 1, WoodMove::SEED(7, 1), &game.cache);
    assert!(state.board[1].is_none());
    assert!(state.board[0].unwrap().is_dormant);
    assert!(state.board[7].unwrap().is_dormant);
    assert_eq!(state.players[0].sun, 10);
    assert_eq!(state.players[0].seed_count, 0);
    assert_eq!(state.turn_during_day, 1);
    assert_eq!(state.active_player, 0);
}

#[test]
fn wood_random_move_is_valid() {
    let game = init_with_params(&[[29, 30], [27, 26]], &[]);
    let state = wood_state_of(&game);
    let (pid, valid) = wood::valid_moves(&state, &game.cache);
    assert_eq!(*valid.slice().last().unwrap(), WoodMove::WAIT);
    for _ in 0..20 {
        let (p, m) = wood::random_valid_move(&state, &game.cache);
        assert_eq!(p, pid);
        assert!(valid.slice().contains(&m));
    }
    assert!(!wood::is_terminal(&state));
}

#[test]
fn tic_tac_toe_player_starts_with_every_cell() {
    let state = ttt::new();
    let (pid, moves) = ttt::valid_moves(&state);
    assert_eq!(pid, 0);
    assert_eq!(moves.len(), 81);
    assert_eq!(*moves.get(0), 1u128);
    assert_eq!(*moves.get(80), 1u128 << 80);
}

#[test]
fn tic_tac_toe_simulation_follows_the_referee() {
    let mut game = TicTacToeGame::new();
    let mut state = ttt::new();
    let cells = [(4, 4), (4, 3), (3, 1), (0, 4), (1, 4), (4, 5), (5, 7), (6, 3), (1, 1), (3, 3)];
    for (r, c) in cells {
        let player = state.active_player;
        ttt::update_state(&mut state, player, movetuple_to_move81((r, c)));
        game.play(format!("{} {}", r, c));
        assert_eq!(state.p_boards, game.p_boards);
        assert_eq!(state.p_squares, game.p_squares);
        assert_eq!(state.locked_squares, game.locked_squares);
        assert_eq!(state.active_player, game.active_player);
        assert_eq!(state.last_move, game.last_move);
    }
    let (_, moves) = ttt::valid_moves(&state);
    // the last move (3, 3) sends the next one to the top-left square
    for k in 0..moves.len() {
        let (r, c) = move81_to_movetuple(*moves.get(k));
        assert!(r < 3 && c < 3);
    }
}

#[test]
fn tic_tac_toe_player_takes_the_opponent_move() {
    let mut state = ttt::new();
    assert_eq!(ttt::move_line("-1 -1"), Some((-1, -1)));
    assert_eq!(ttt::action_line("2 7"), Some((2, 7)));
    assert_eq!(ttt::action_line("2 -7"), None);
    let pids = ttt::take_opponent_move(&mut state, (1, 0), (-1, -1));
    assert_eq!(pids, (0, 1));
    assert_eq!(state.turn, 0);
    let pids = ttt::take_opponent_move(&mut state, (1, 0), (4, 4));
    assert_eq!(pids, (1, 0));
    assert_eq!(state.p_boards[0], movetuple_to_move81((4, 4)));
    assert_eq!(state.active_player, 1);
}

#[test]
fn tic_tac_toe_random_move_follows_the_cell_orders() {
    let mut cache = ttt::Cache::new();
    let mut state = ttt::new();
    ttt::update_state(&mut state, 0, movetuple_to_move81((4, 4)));
    for _ in 0..30 {
        let (pid, m) = ttt::random_valid_move(&state, &mut cache);
        assert_eq!(pid, 1);
        let (r, c) = move81_to_movetuple(m);
        assert!((3..6).contains(&r) && (3..6).contains(&c) && (r, c) != (4, 4));
    }
}

#[test]
fn witches_cache_tables_match_the_rules() {
    let cache = WitchesCache::new();
    assert_eq!(cache.getStockId(&[0, 0, 0, 0]), 0);
    assert_eq!(cache.getStockId(&[0, 0, 0, 1]), 1);
    assert_eq!(cache.getStockId(&[0, 0, 1, 0]), 11);
    assert_eq!(cache.getStockId(&[10, 0, 0, 0]), 1000);
    let id = cache.getStockId(&[3, 0, 0, 0]);
    // spell 42 adds two tier-0 ingredients, spell 0 takes three of them
    assert_eq!(cache.how_many_times_can_cast_spell(42, id), 1);
    assert_eq!(cache.how_many_times_can_cast_spell(0, id), 1);
    assert_eq!(cache.how_many_times_can_cast_spell(43, id), 1);
    let full = cache.getStockId(&[9, 0, 0, 0]);
    assert_eq!(cache.how_many_times_can_cast_spell(42, full), 0);
    // order 0 takes 2 of tier 0 and 2 of tier 1
    assert!(cache.can_fulfill_order(0, cache.getStockId(&[2, 2, 0, 0])));
    assert!(!cache.can_fulfill_order(0, cache.getStockId(&[2, 1, 0, 0])));
}

fn basic_spells() -> StackVector<Spell, 46> {
    let mut spells = StackVector::new();
    for recipe in [[2, 0, 0, 0], [-1, 1, 0, 0], [0, -1, 1, 0], [0, 0, -1, 1]] {
        spells.add(find_spell(&recipe).unwrap());
    }
    spells
}

fn witches_state(cache: &WitchesCache) -> witch::State {
    let mut counter = StackVector::new();
    for recipe in [[-2, -2, 0, 0], [-3, -2, 0, 0], [0, -4, 0, 0], [-2, 0, -2, 0], [-2, -3, 0, 0]] {
        counter.add(find_order(&recipe).unwrap());
    }
    counter.get_mut(0).bonus = 3;
    counter.get_mut(1).bonus = 1;
    let mut tome = StackVector::new();
    for recipe in [[-3, 0, 0, 1], [3, -1, 0, 0], [1, 1, 0, 0]] {
        tome.add(find_spell(&recipe).unwrap());
    }
    let (p0, _) = witch_of_turn(basic_spells(), [2, 2, 0, 0], 0, 0, 0, cache);
    let (p1, _) = witch_of_turn(basic_spells(), [3, 0, 0, 0], 0, 0, 0, cache);
    witch::new([p0, p1], tome, counter, 4, 4, 0)
}

#[test]
fn witches_simulation_brews_and_refills_bonuses() {
    let cache = WitchesCache::new();
    let mut state = witches_state(&cache);
    let (pid, moves) = witch::valid_moves(&state, &cache);
    assert_eq!(pid, 0);
    assert_eq!(moves.slice()[0], WitchesMove::BREW(0));
    assert!(moves.slice().contains(&WitchesMove::LEARN(0)));
    assert!(moves.slice().contains(&WitchesMove::LEARN(2)));
    assert!(!moves.slice().contains(&WitchesMove::REST));
    witch::update_state(&mut state, 0, WitchesMove::BREW(0), &cache);
    assert_eq!(state.active_player, 1);
    witch::update_state(&mut state, 1, WitchesMove::CAST(42, 1), &cache);
    assert_eq!(state.active_player, 0);
    assert_eq!(state.players[0].rupees, 6 + 3);
    assert_eq!(state.players[0].brewed_potions_count, 1);
    assert_eq!(state.players[0].stock, [0, 0, 0, 0]);
    assert_eq!(state.players[0].stock_id, cache.getStockId(&[0, 0, 0, 0]));
    assert_eq!(state.players[1].stock, [5, 0, 0, 0]);
    assert_eq!(state.plus_3_bonus_remaining, 3);
    assert_eq!(state.counter_orders.len(), 4);
    assert_eq!(state.counter_orders.get(0).bonus, 3);
    assert_eq!(state.counter_orders.get(1).bonus, 1);
    assert_eq!(state.turn, 1);
    let (_, moves) = witch::valid_moves(&state, &cache);
    assert!(moves.slice().contains(&WitchesMove::REST) == false);
    let (_, moves1) = {
        let mut s = witches_state(&cache);
        s.active_player = 1;
        witch::valid_moves(&s, &cache)
    };
    assert!(moves1.slice().contains(&WitchesMove::CAST(42, 1)));
}

#[test]
fn witches_simulation_ends_when_both_wait() {
    let cache = WitchesCache::new();
    let mut state = witches_state(&cache);
    witch::update_state(&mut state, 0, WitchesMove::WAIT, &cache);
    witch::update_state(&mut state, 1, WitchesMove::WAIT, &cache);
    assert!(witch::is_terminal(&state));
    // player 0 holds 2 tier-1 ingredients, player 1 none
    assert_eq!(state.winners, Some((WinLossTie::Win, WinLossTie::Loss)));
}

#[test]
fn witches_learning_pays_the_tax() {
    let cache = WitchesCache::new();
    let mut state = witches_state(&cache);
    witch::update_state(&mut state, 0, WitchesMove::LEARN(2), &cache);
    witch::update_state(&mut state, 1, WitchesMove::LEARN(2), &cache);
    // both learn the third tome spell: two tier-0 ingredients each, put on the
    // spells before it
    assert_eq!(state.players[0].stock, [0, 2, 0, 0]);
    assert_eq!(state.players[1].stock, [1, 0, 0, 0]);
    assert_eq!(state.tome_spells.len(), 2);
    assert_eq!(state.tome_spells.get(0).tax, 2);
    assert_eq!(state.tome_spells.get(1).tax, 2);
    assert_eq!(state.players[0].spells.len(), 5);
}

#[test]
fn witches_turn_input_is_read() {
    let a = action_line("44 BREW -2 -2 0 0 6 3 4 0 0").unwrap();
    assert_eq!(a.kind, ActionKind::Brew);
    assert_eq!(a.deltas, [-2, -2, 0, 0]);
    assert_eq!(a.tome_index, 3);
    let b = action_line("78 CAST 2 0 0 0 0 -1 -1 1 0").unwrap();
    assert_eq!(b.kind, ActionKind::Cast);
    let c = action_line("82 OPPONENT_CAST -1 1 0 0 0 -1 -1 0 0").unwrap();
    assert_eq!(c.kind, ActionKind::OpponentCast);
    let d = action_line("8 LEARN 3 -2 1 0 0 1 2 0 1").unwrap();
    assert_eq!(d.kind, ActionKind::Learn);
    let e = action_line("9 FOO 3 -2 1 0 0 1 2 0 1").unwrap();
    assert_eq!(e.kind, ActionKind::Other);
    assert!(action_line("9 LEARN 3 -2 1 0 0 1 2 0").is_none());
    let entities = read_entities(&[a, b, c, d, e]).unwrap();
    assert_eq!(entities.counter_orders.len(), 1);
    assert_eq!(entities.counter_orders.get(0).bonus, 3);
    assert_eq!(entities.plus_3_bonus_remaining, 4);
    assert_eq!(entities.my_spells.len(), 1);
    assert!(!entities.opponent_spells.get(0).active);
    assert_eq!(entities.tome_spells.get(0).tax, 2);
    assert_eq!(entities.spell_ids, vec![(42, 78), (8, 8)]);
    assert_eq!(entities.order_ids, vec![(0, 44)]);
    assert_eq!(
        to_codingame_move(WitchesMove::CAST(42, 1), &entities.order_ids, &entities.spell_ids),
        Some(WitchesMove::CAST(78, 1))
    );
    assert_eq!(to_codingame_move(WitchesMove::BREW(0), &entities.order_ids, &entities.spell_ids), Some(WitchesMove::BREW(44)));
    assert_eq!(to_codingame_move(WitchesMove::BREW(5), &entities.order_ids, &entities.spell_ids), None);
    assert_eq!(to_codingame_move(WitchesMove::REST, &[], &[]), Some(WitchesMove::REST));
    // an unknown recipe cannot be read
    let odd = action_line("1 BREW -9 0 0 0 6 0 0 0 0").unwrap();
    assert!(read_entities(&[odd]).is_none());
    assert_eq!(inventory_line("3 0 1 0 12"), Some(([3, 0, 1, 0], 12)));
    assert_eq!(inventory_line("3 0 1 0"), None);
}

#[test]
fn witches_potions_are_counted_from_the_rupees() {
    let cache = WitchesCache::new();
    let (p, brewed) = witch_of_turn(basic_spells(), [1, 0, 0, 0], 12, 3, 1, &cache);
    assert_eq!(brewed, 2);
    assert_eq!(p.brewed_potions_count, 2);
    assert_eq!(p.stock_id, cache.getStockId(&[1, 0, 0, 0]));
    let (_, brewed) = witch_of_turn(basic_spells(), [1, 0, 0, 0], 12, 12, 2, &cache);
    assert_eq!(brewed, 2);
    let _ = Order { id: 0, recipe: [0, 0, 0, 0], price: 0, bonus: 0 };
}
