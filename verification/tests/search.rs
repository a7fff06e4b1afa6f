use codingame_bots::witches_brew::cache::Cache;
use codingame_bots::witches_brew::rules::{get_all_orders, get_basic_spells, get_tome_spells, Move};
use codingame_bots::witches_brew::shortest_path::{
    average_distance, distance_digit, next_states, start_state, update, Search, State,
};
use codingame_bots::witches_brew::state_graph::{stock_edges, StockEdge};

fn moves_of(state: &State, cache: &Cache) -> Vec<Move> {
    next_states(state, cache).iter().map(|(m, _)| *m).collect()
}

#[test]
fn search_moves_from_a_stock() {
    let cache = Cache::new();
    let start = start_state([0, 0, 0, 0], &[], 0, &cache);
    assert_eq!(start.player.spells.slice().to_vec(), vec![(42, true), (43, true), (44, true), (45, true)]);
    assert_eq!(moves_of(&start, &cache), vec![Move::CAST(42, 1)]);
    let next = next_states(&start, &cache);
    let after = &next[0].1;
    assert_eq!(after.player.stock, [2, 0, 0, 0]);
    assert_eq!(after.player.stock_id, cache.getStockId(&[2, 0, 0, 0]));
    assert_eq!(after.player.spells.slice()[0], (42, false));
    // an exhausted spell brings a REST
    assert_eq!(moves_of(after, &cache), vec![Move::CAST(43, 1), Move::REST]);
    let rested = update(after, &Move::REST, &cache);
    assert!(rested.player.spells.slice().iter().all(|(_, castable)| *castable));
    // a repeatable tome spell is offered once per number of casts
    let with_tome = start_state([6, 0, 0, 0], &[0], 0, &cache);
    assert_eq!(
        moves_of(&with_tome, &cache),
        vec![Move::CAST(42, 1), Move::CAST(43, 1), Move::CAST(0, 1), Move::CAST(0, 2)]
    );
    // the order comes first when it can be brewed
    let ready = start_state([2, 2, 0, 0], &[], 0, &cache);
    assert_eq!(moves_of(&ready, &cache)[0], Move::BREW(0));
    assert_eq!(update(&ready, &Move::BREW(0), &cache).player.stock, [0, 0, 0, 0]);
}

#[test]
fn search_finds_a_path_that_brews_the_order() {
    let cache = Cache::new();
    let mut search = Search::new();
    let ready = start_state([2, 2, 0, 0], &[], 0, &cache);
    assert_eq!(search.best_path_bfs(ready, 0, &cache), vec![(Move::BREW(0), [0, 0, 0, 0])]);
    let start = start_state([2, 1, 0, 0], &[], 0, &cache);
    let path = search.best_path_bfs(start_state([2, 1, 0, 0], &[], 0, &cache), 0, &cache);
    assert_eq!(
        path,
        vec![(Move::CAST(42, 1), [4, 1, 0, 0]), (Move::CAST(43, 1), [3, 2, 0, 0]), (Move::BREW(0), [1, 0, 0, 0])]
    );
    // replaying the path: each move is one the search considers, and leads
    // to the stock given with it
    let mut state = start;
    for (m, stock) in path.iter() {
        assert!(moves_of(&state, &cache).contains(m));
        state = update(&state, m, &cache);
        assert_eq!(state.player.stock, *stock);
    }
    // the first brew of the order is the last move
    assert_eq!(path.iter().filter(|(m, _)| *m == Move::BREW(0)).count(), 1);
    // each stock is expanded once: a REST keeps the stock, so with the basic
    // spells alone the tier-0 ingredients cannot be made again and the
    // search from an empty stock finds nothing
    assert!(search.best_path_bfs(start_state([0, 0, 0, 0], &[], 0, &cache), 0, &cache).is_empty());
}

#[test]
fn search_distance_table() {
    assert_eq!(distance_digit(3), '3');
    assert_eq!(distance_digit(5), '5');
    assert_eq!(distance_digit(7), '6');
    assert_eq!(distance_digit(12), '7');
    assert_eq!(distance_digit(20), '8');
    assert_eq!(distance_digit(50), '9');
    assert_eq!(distance_digit(0), '0');
    assert_eq!(distance_digit(-1), '0');
    assert_eq!(average_distance(&[50, 3, 4]), 19);
    assert_eq!(average_distance(&[-7, 0]), -4);
    assert_eq!(average_distance(&[5]), 5);
}

#[test]
fn state_graph_edges_of_a_stock() {
    let orders = get_all_orders();
    let mut spells = get_tome_spells();
    spells.extend_from_slice(&get_basic_spells());
    let edges = stock_edges(&[2, 2, 0, 0], &orders, &spells);
    assert_eq!(edges[0], (StockEdge::BREW(0), [0, 0, 0, 0]));
    assert!(edges.contains(&(StockEdge::CAST(42), [4, 2, 0, 0])));
    assert!(edges.contains(&(StockEdge::CAST(43), [1, 3, 0, 0])));
    // a full stock casts nothing that adds ingredients
    let full = stock_edges(&[10, 0, 0, 0], &orders, &spells);
    assert!(!full.iter().any(|(e, _)| *e == StockEdge::CAST(42)));
    assert!(full.iter().all(|(_, s)| s.iter().map(|x| *x as i32).sum::<i32>() <= 10));
}

#[test]
fn search_skips_stocks_it_has_seen() {
    // the moves the search considers do lead from an empty stock to the
    // order, through stocks the search has already expanded with other
    // spells exhausted; expanding each stock once, it does not find them
    let cache = Cache::new();
    let mut state = start_state([0, 0, 0, 0], &[], 0, &cache);
    let moves = [
        Move::CAST(42, 1),
        Move::REST,
        Move::CAST(42, 1),
        Move::REST,
        Move::CAST(43, 1),
        Move::REST,
        Move::CAST(43, 1),
        Move::BREW(0),
    ];
    for m in moves.iter() {
        assert!(moves_of(&state, &cache).contains(m));
        state = update(&state, m, &cache);
    }
    assert_eq!(state.player.stock, [0, 0, 0, 0]);
    let mut search = Search::new();
    assert!(search.best_path_bfs(start_state([0, 0, 0, 0], &[], 0, &cache), 0, &cache).is_empty());
}

#[test]
fn stock_ids_follow_the_table_order() {
    let cache = Cache::new();
    assert_eq!(cache.getStockId(&[0, 0, 0, 0]), 0);
    assert_eq!(cache.getStockId(&[0, 0, 0, 1]), 1);
    assert_eq!(cache.getStockId(&[10, 0, 0, 0]), 1000);
    let mut seen = vec![false; 1001];
    for a in 0..=10i8 {
        for b in 0..=(10 - a) {
            for c in 0..=(10 - a - b) {
                for d in 0..=(10 - a - b - c) {
                    let id = cache.getStockId(&[a, b, c, d]);
                    assert!(!seen[id]);
                    seen[id] = true;
                }
            }
        }
    }
    assert!(seen.iter().all(|s| *s));
}
