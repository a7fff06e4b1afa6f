use codingame_bots::witches_brew::cache::Cache as WitchesCache;
use codingame_bots::witches_brew::first_league::{
    answer, can_fulfill_order as first_can_fulfill, largest_order, order_line, stock_line, Order as FirstOrder,
};
use codingame_bots::witches_brew::planner::{next_states as plan_next_states, plan_state, update as plan_update};
use codingame_bots::witches_brew::random_player::{pick_move, read_random_turn, valid_moves as random_valid_moves};
use codingame_bots::witches_brew::rules::{find_order, find_spell, Move as WitchesMove, Spell};
use codingame_bots::witches_brew::turn_input::{action_line, read_entities, ActionLine};
use codingame_bots::wood_spirit::solo::{
    gained_sun_points, get_cell_richness_points, next_states as solo_next_states, own_tree_line,
    state_from_own_trees, update as solo_update, Cell as SoloCell, Move as SoloMove, Tree as SoloTree,
};

fn first_order(id: i32, ingredients: [i32; 4], price: i32) -> FirstOrder {
    FirstOrder { id, ingredients, price }
}

#[test]
fn first_league_reads_orders_and_stock() {
    let o = order_line("44 BREW -2 -2 0 0 6 3 4 0 0").unwrap();
    assert_eq!(o.id, 44);
    assert_eq!(o.ingredients, [-2, -2, 0, 0]);
    assert_eq!(o.price, 6);
    assert!(order_line("44 BREW -2 -2 0 0 6 3 4 0").is_none());
    assert!(order_line("44").is_none());
    assert!(order_line("44 BREW -2 -2 0 0 6 3 4 0 x").is_none());
    assert_eq!(stock_line("3 0 1 0 12"), Some([3, 0, 1, 0]));
    assert_eq!(stock_line("3 0 1 0"), None);
}

#[test]
fn first_league_brews_the_best_paid_order_it_can() {
    let o = first_order(1, [-2, -2, 0, 0], 6);
    assert!(first_can_fulfill(&o, &[2, 2, 0, 0]));
    assert!(!first_can_fulfill(&o, &[1, 2, 0, 0]));
    let orders = [
        first_order(10, [-1, 0, 0, 0], 10),
        first_order(11, [-5, 0, 0, 0], 15),
        first_order(12, [0, -1, 0, 0], 12),
        first_order(13, [-1, 0, 0, 0], 12),
    ];
    let best = largest_order(&orders, &[2, 1, 0, 0]).unwrap();
    // the first of the two orders paid 12; the one paid 15 needs too much
    assert_eq!(best.id, 12);
    assert_eq!(answer(&orders, &[2, 1, 0, 0]), "BREW 12");
    assert_eq!(answer(&orders, &[0, 0, 0, 0]), "WAIT");
    assert_eq!(answer(&[], &[9, 9, 9, 9]), "WAIT");
    assert_eq!(answer(&[first_order(-3, [0, 0, 0, 0], 1)], &[0, 0, 0, 0]), "BREW -3");
    assert!(largest_order(&orders, &[0, 0, 0, 0]).is_none());
}

fn spell(recipe: [i8; 4]) -> Spell {
    find_spell(&recipe).unwrap()
}

#[test]
fn random_bot_lists_its_moves() {
    let orders = [find_order(&[-2, -2, 0, 0]).unwrap(), find_order(&[0, -4, 0, 0]).unwrap()];
    let tome = [spell([-3, 0, 0, 1]), spell([3, -1, 0, 0]), spell([1, 1, 0, 0])];
    let mut exhausted = spell([-1, 1, 0, 0]);
    exhausted.active = false;
    let mine = [spell([2, 0, 0, 0]), exhausted, spell([0, -1, 1, 0]), spell([0, 0, -1, 1])];
    let stock = [2, 2, 0, 0];
    let moves = random_valid_moves(&orders, &tome, &mine, &stock);
    let expected = vec![
        WitchesMove::BREW(orders[0].id),
        WitchesMove::CAST(mine[0].id, 1),
        WitchesMove::CAST(mine[2].id, 1),
        WitchesMove::REST,
        WitchesMove::LEARN(tome[0].id),
        WitchesMove::LEARN(tome[1].id),
        WitchesMove::LEARN(tome[2].id),
    ];
    assert_eq!(moves.slice().to_vec(), expected);
    let picked = pick_move(&orders, &tome, &mine, &stock);
    assert!(expected.contains(&picked));
    // nothing to do: WAIT
    let none = random_valid_moves(&[], &[], &[], &[0, 0, 0, 0]);
    assert_eq!(none.slice().to_vec(), vec![WitchesMove::WAIT]);
    assert_eq!(pick_move(&[], &[], &[], &[0, 0, 0, 0]), WitchesMove::WAIT);
}

fn lines(texts: &[&str]) -> Vec<ActionLine> {
    texts.iter().map(|t| action_line(t).unwrap()).collect()
}

#[test]
fn random_bot_reads_its_turn() {
    let actions = lines(&[
        "44 BREW -2 -2 0 0 9 3 4 0 0",
        "78 CAST 2 0 0 0 0 -1 -1 1 0",
        "8 LEARN 3 -2 1 0 0 1 2 0 1",
        "9 LEARN -3 0 0 1 0 0 0 0 0",
        "82 OPPONENT_CAST -1 1 0 0 0 -1 -1 0 0",
    ]);
    let (orders, tome, mine) = read_random_turn(&actions).unwrap();
    assert_eq!(orders.len(), 1);
    assert_eq!(orders[0].id, 44);
    assert_eq!(orders[0].price, 6);
    assert_eq!(orders[0].bonus, 3);
    assert_eq!(mine.len(), 1);
    assert_eq!(mine[0].id, 78);
    assert_eq!(mine[0].delta_stock, 2);
    assert!(mine[0].active && !mine[0].repeatable);
    // the tome is read by place: place 0 then place 1
    assert_eq!(tome.len(), 2);
    assert_eq!(tome[0].id, 9);
    assert_eq!(tome[1].id, 8);
    assert_eq!(tome[1].tax, 2);
    assert!(tome[1].repeatable);
    // a tome with no spell at place 0 is empty
    let (_, tome, _) = read_random_turn(&lines(&["8 LEARN 3 -2 1 0 0 1 2 0 1"])).unwrap();
    assert!(tome.is_empty());
    // a bonus above the price, or a flag other than 0 and 1, is refused
    assert!(read_random_turn(&lines(&["5 BREW -2 -2 0 0 2 3 4 0 0"])).is_none());
    assert!(read_random_turn(&lines(&["78 CAST 2 0 0 0 0 -1 -1 2 0"])).is_none());
    assert!(read_random_turn(&lines(&["8 LEARN 3 -2 1 0 0 6 2 0 1"])).is_none());
}

fn planner_lines() -> Vec<ActionLine> {
    lines(&[
        "44 BREW -2 -2 0 0 9 3 4 0 0",
        "45 BREW 0 -4 0 0 9 1 4 0 0",
        "78 CAST 2 0 0 0 0 -1 -1 1 0",
        "79 CAST -1 1 0 0 0 -1 -1 1 0",
        "80 CAST 0 -1 1 0 0 -1 -1 1 0",
        "81 CAST 0 0 -1 1 0 -1 -1 1 0",
        "7 LEARN -3 0 0 1 0 0 0 0 1",
    ])
}

#[test]
fn planner_learns_while_it_knows_few_spells() {
    let cache = WitchesCache::new();
    let e = read_entities(&planner_lines()).unwrap();
    let state = plan_state(&e, [2, 2, 0, 0], 300, 1, 5, &cache);
    let o0 = find_order(&[-2, -2, 0, 0]).unwrap().id;
    let o2 = find_order(&[0, -4, 0, 0]).unwrap().id;
    let t0 = spell([-3, 0, 0, 1]).id;
    assert_eq!(state.counter_orders.slice().to_vec(), vec![o0, o2]);
    assert_eq!(state.player.spells.len(), 4);
    assert_eq!(state.player.spells.slice()[0], (spell([2, 0, 0, 0]).id, true));
    assert_eq!(state.tome_spells.slice().to_vec(), vec![(t0, 0)]);
    // 300 rupees kept as their low byte
    assert_eq!(state.player.rupees, 44);
    assert_eq!(state.player.brewed_potions_count, 1);
    assert_eq!(state.player.stock_id, cache.getStockId(&[2, 2, 0, 0]));
    let next = plan_next_states(&state, &cache);
    assert_eq!(next.len(), 1);
    assert_eq!(next[0].0, WitchesMove::LEARN(t0));
    let learnt = &next[0].1;
    assert_eq!(learnt.player.spells.len(), 5);
    assert_eq!(learnt.player.spells.slice()[4], (t0, true));
    assert_eq!(learnt.tome_spells.len(), 0);
    assert_eq!(learnt.turn, 6);
    assert_eq!(learnt.player.stock, [2, 2, 0, 0]);
}

#[test]
fn planner_brews_with_the_bonus_of_the_place() {
    let cache = WitchesCache::new();
    let e = read_entities(&planner_lines()).unwrap();
    let o0 = find_order(&[-2, -2, 0, 0]).unwrap().id;
    let o2 = find_order(&[0, -4, 0, 0]).unwrap().id;
    // first place: +3 while such bonuses are left
    let state = plan_state(&e, [2, 2, 0, 0], 0, 0, 0, &cache);
    let brewed = plan_update(&state, &WitchesMove::BREW(o0), &cache);
    assert_eq!(brewed.player.rupees, 6 + 3);
    assert_eq!(brewed.plus_3_bonus_remaining, 3);
    assert_eq!(brewed.plus_1_bonus_remaining, 4);
    assert_eq!(brewed.player.stock, [0, 0, 0, 0]);
    assert_eq!(brewed.player.stock_id, cache.getStockId(&[0, 0, 0, 0]));
    assert_eq!(brewed.counter_orders.slice().to_vec(), vec![o2]);
    assert_eq!(brewed.player.brewed_potions_count, 1);
    assert_eq!(brewed.turn, 1);
    // second place: +1 while both kinds are left
    let state = plan_state(&e, [0, 4, 0, 0], 0, 0, 0, &cache);
    let brewed = plan_update(&state, &WitchesMove::BREW(o2), &cache);
    assert_eq!(brewed.player.rupees, 8 + 1);
    assert_eq!(brewed.plus_3_bonus_remaining, 4);
    assert_eq!(brewed.plus_1_bonus_remaining, 3);
    assert_eq!(brewed.counter_orders.slice().to_vec(), vec![o0]);
    // a cast exhausts the spell, REST brings it back
    let cast_id = spell([2, 0, 0, 0]).id;
    let cast = plan_update(&state, &WitchesMove::CAST(cast_id, 1), &cache);
    assert_eq!(cast.player.stock, [2, 4, 0, 0]);
    assert_eq!(cast.player.spells.slice()[0], (cast_id, false));
    let rested = plan_update(&cast, &WitchesMove::REST, &cache);
    assert_eq!(rested.player.spells.slice()[0], (cast_id, true));
    assert_eq!(rested.turn, 2);
}

fn tree(tree: SoloTree, is_dormant: bool) -> SoloCell {
    SoloCell { player: 0, tree, is_dormant }
}

#[test]
fn solo_planner_soil_and_sun() {
    assert_eq!(get_cell_richness_points(0), 4);
    assert_eq!(get_cell_richness_points(6), 4);
    assert_eq!(get_cell_richness_points(7), 2);
    assert_eq!(get_cell_richness_points(18), 2);
    assert_eq!(get_cell_richness_points(19), 0);
    assert_eq!(get_cell_richness_points(36), 0);
    assert_eq!(gained_sun_points(2, 1, 1), 7);
    assert_eq!(gained_sun_points(0, 0, 0), 0);
}

#[test]
fn solo_planner_reads_its_trees() {
    assert_eq!(own_tree_line("12 2 1 0"), Some(Some((12, tree(SoloTree::MEDIUM_TREE, false)))));
    assert_eq!(own_tree_line("3 3 1 1"), Some(Some((3, tree(SoloTree::LARGE_TREE, true)))));
    assert_eq!(own_tree_line("12 2 0 0"), Some(None));
    assert_eq!(own_tree_line("12 0 1 0"), None);
    assert_eq!(own_tree_line("40 1 1 0"), None);
    assert_eq!(own_tree_line("12 1 1 2"), None);
    assert_eq!(own_tree_line("x"), None);
}

#[test]
fn solo_planner_moves_and_their_states() {
    let trees = [
        (0, tree(SoloTree::SMALL_TREE, false)),
        (7, tree(SoloTree::MEDIUM_TREE, false)),
        (20, tree(SoloTree::LARGE_TREE, false)),
    ];
    let state = state_from_own_trees(&trees, 10, 0, 20, 0, 0).unwrap();
    assert_eq!(state.player.small_tree_count, 1);
    assert_eq!(state.player.medium_tree_count, 1);
    assert_eq!(state.player.large_tree_count, 1);
    assert_eq!(state.board[7], Some(tree(SoloTree::MEDIUM_TREE, false)));
    let next = solo_next_states(&state);
    let moves: Vec<SoloMove> = next.iter().map(|(m, _)| *m).collect();
    assert_eq!(moves, vec![SoloMove::GROW(0), SoloMove::GROW(7), SoloMove::COMPLETE(20), SoloMove::WAIT]);
    // a small tree costs 3 plus the medium trees
    let grown = &next[0].1;
    assert_eq!(grown.player.sun, 6);
    assert_eq!(grown.player.medium_tree_count, 2);
    assert_eq!(grown.board[0], Some(tree(SoloTree::MEDIUM_TREE, true)));
    assert_eq!(grown.turn_during_day, 1);
    // a medium tree costs 7 plus the large trees
    assert_eq!(next[1].1.player.sun, 2);
    assert_eq!(next[1].1.player.large_tree_count, 2);
    // completing scores the nutrient and the soil
    let completed = &next[2].1;
    assert_eq!(completed.player.score, 20);
    assert_eq!(completed.nutrient, 18);
    assert_eq!(completed.board[20], None);
    assert_eq!(completed.player.sun, 6);
    let centre = solo_update(&state_from_own_trees(&[(3, tree(SoloTree::LARGE_TREE, false))], 4, 0, 20, 0, 0).unwrap(), &SoloMove::COMPLETE(3));
    assert_eq!(centre.player.score, 24);
    // a new day: trees wake and collect their sun
    let waited = &next[3].1;
    assert_eq!(waited.day, 1);
    assert_eq!(waited.player.sun, 16);
    assert_eq!(waited.turn_during_day, 0);
    let dormant = solo_update(grown, &SoloMove::WAIT);
    assert_eq!(dormant.board[0], Some(tree(SoloTree::MEDIUM_TREE, false)));
    // from day 6 on, nothing is considered
    let last = state_from_own_trees(&trees, 10, 0, 20, 6, 0).unwrap();
    assert!(solo_next_states(&last).is_empty());
    // the sixth WAIT collects no sun
    let fifth = state_from_own_trees(&trees, 10, 0, 20, 5, 0).unwrap();
    assert_eq!(solo_update(&fifth, &SoloMove::WAIT).player.sun, 10);
}

#[test]
fn solo_planner_move_text() {
    assert_eq!(SoloMove::GROW(12).to_string(), "GROW 12");
    assert_eq!(SoloMove::COMPLETE(0).to_string(), "COMPLETE 0");
    assert_eq!(SoloMove::WAIT.to_string(), "WAIT");
}
