use codingame_bots::game::{Game, WinLossTie};
use codingame_bots::graph::Graph;
use codingame_bots::simulator::{seatings, RunStatistics};
use codingame_bots::tic_tac_toe::game::TicTacToeGame;
use codingame_bots::witches_brew::game::WitchesBrewGame;
use codingame_bots::witches_brew::protocol as witches_protocol;
use codingame_bots::witches_brew::rules::Move as WitchesMove;
use codingame_bots::wood_spirit::game::{init_with_params, WoodSpiritGame};
use codingame_bots::wood_spirit::protocol as wood_protocol;
use codingame_bots::wood_spirit::rules::Move as WoodMove;

#[test]
fn wood_parse_move_reads_each_kind() {
    assert_eq!(wood_protocol::parse_move("WAIT"), Some(WoodMove::WAIT));
    assert_eq!(wood_protocol::parse_move("GROW 12"), Some(WoodMove::GROW(12)));
    assert_eq!(wood_protocol::parse_move("COMPLETE 3"), Some(WoodMove::COMPLETE(3)));
    assert_eq!(wood_protocol::parse_move("SEED 21 9"), Some(WoodMove::SEED(21, 9)));
    assert_eq!(wood_protocol::parse_move("SEED  21   9  extra"), Some(WoodMove::SEED(21, 9)));
    assert_eq!(wood_protocol::parse_move("GROW +7"), Some(WoodMove::GROW(7)));
}

#[test]
fn wood_parse_move_refuses_what_the_referee_cannot_read() {
    assert_eq!(wood_protocol::parse_move("GROW"), None);
    assert_eq!(wood_protocol::parse_move("GROW 300"), None);
    assert_eq!(wood_protocol::parse_move("GROW 12 "), None);
    assert_eq!(wood_protocol::parse_move("SEED 21"), None);
    assert_eq!(wood_protocol::parse_move("WAIT "), None);
    assert_eq!(wood_protocol::parse_move("JUMP 3"), None);
}

#[test]
fn wood_move_text_reads_back() {
    for m in [WoodMove::WAIT, WoodMove::GROW(0), WoodMove::COMPLETE(36), WoodMove::SEED(14, 255)] {
        let text = m.to_string();
        assert_eq!(wood_protocol::parse_move(&text), Some(m));
    }
    assert_eq!(WoodMove::SEED(14, 3).to_string(), "SEED 14 3");
}

#[test]
fn witches_move_text_reads_back() {
    for m in [
        WitchesMove::WAIT,
        WitchesMove::REST,
        WitchesMove::BREW(42),
        WitchesMove::LEARN(7),
        WitchesMove::CAST(3, 1),
    ] {
        assert_eq!(witches_protocol::parse_move(&m.to_string()), Some(m));
    }
    assert_eq!(WitchesMove::CAST(3, 2).to_string(), "CAST 3x2");
    assert_eq!(witches_protocol::parse_move("CAST 3x2"), None);
}

#[test]
fn witches_player_message_reads_back() {
    assert_eq!(witches_protocol::move_message(WitchesMove::CAST(30, 12)), "CAST 30 12");
    for m in [WitchesMove::CAST(30, 12), WitchesMove::CAST(5, 1), WitchesMove::BREW(1), WitchesMove::WAIT] {
        assert_eq!(witches_protocol::parse_move(&witches_protocol::move_message(m)), Some(m));
    }
}

#[test]
fn tic_tac_toe_cell_text_reads_back() {
    assert_eq!(TicTacToeGame::parse_cell("5 7"), Some((5, 7)));
    assert_eq!(TicTacToeGame::parse_cell("0 8 \n"), Some((0, 8)));
    assert_eq!(TicTacToeGame::parse_cell("0  8"), None);
    assert_eq!(TicTacToeGame::parse_cell(" 0 8"), None);
    assert_eq!(TicTacToeGame::parse_cell("57"), None);
}

#[test]
fn tic_tac_toe_first_turn_lists_every_cell() {
    let game = TicTacToeGame::new();
    let msg = game.turn().unwrap();
    assert_eq!(msg.player_id, 0);
    assert_eq!(msg.messages[0], "-1 -1");
    assert_eq!(msg.messages[1], "81");
    assert_eq!(msg.messages.len(), 83);
    assert_eq!(msg.messages[2], "0 0");
}

#[test]
fn tic_tac_toe_invalid_move_loses() {
    let mut game = TicTacToeGame::new();
    game.play(String::from("4 4"));
    // The next move must be in the centre square.
    game.play(String::from("0 0"));
    assert!(game.turn().is_none());
    assert_eq!(game.winners(), Some(vec![WinLossTie::Win, WinLossTie::Loss]));
}

#[test]
fn end_game_sets_the_statuses() {
    let mut game = TicTacToeGame::new();
    game.end_game(vec![WinLossTie::Tie, WinLossTie::Tie]);
    assert!(game.turn().is_none());
    assert_eq!(game.winners(), Some(vec![WinLossTie::Tie, WinLossTie::Tie]));
}

#[test]
fn witches_new_game_and_first_turn() {
    let game = WitchesBrewGame::new();
    assert_eq!(game.counter_orders.len(), 5);
    assert_eq!(game.tome_spells.len(), 6);
    assert_eq!(game.queued_orders.len(), 31);
    assert_eq!(game.queued_spells.len(), 36);
    let msg = game.turn().unwrap();
    assert_eq!(msg.player_id, 0);
    // 5 orders, 6 tome spells, 4 spells for each player
    assert_eq!(msg.messages[0], "19");
    assert_eq!(msg.messages.len(), 1 + 19 + 2);
    assert_eq!(msg.messages[20], "3 0 0 0 0");
    assert!(msg.messages[12].ends_with(" CAST 2 0 0 0 0 -1 -1 1 0"));
}

#[test]
fn witches_both_resting_is_invalid_for_both() {
    let mut game = WitchesBrewGame::new();
    // Nobody has an exhausted spell: REST is not a valid move.
    game.play(String::from("REST"));
    game.play(String::from("REST"));
    assert_eq!(game.winners(), Some(vec![WinLossTie::Loss, WinLossTie::Loss]));
}

#[test]
fn witches_cast_then_turn_advances() {
    let mut game = WitchesBrewGame::new();
    let basic = game.players[0].spells.slice()[0];
    game.play(format!("CAST {}", basic.id));
    game.play(format!("CAST {}", basic.id));
    assert_eq!(game.turn, 1);
    assert_eq!(game.players[0].stock, [5, 0, 0, 0]);
    assert_eq!(game.players[1].stock, [5, 0, 0, 0]);
    assert!(!game.players[0].spells.slice()[0].active);
    assert_eq!(game.active_player, 0);
}

#[test]
fn wood_new_game_gives_two_trees_each() {
    let game = WoodSpiritGame::new();
    let mut trees = [0, 0];
    for cell in game.board.iter().flatten() {
        trees[cell.player as usize] += 1;
    }
    assert_eq!(trees, [2, 2]);
    assert_eq!(game.nutrient, 20);
    assert_eq!(game.players[0].small_tree_count, 2);
}

#[test]
fn wood_first_turn_describes_the_board() {
    let game = init_with_params(&[[21, 32], [20, 35]], &[12, 8, 14, 16]);
    let msg = game.turn().unwrap();
    assert_eq!(msg.messages[0], "37");
    assert_eq!(msg.messages[1], "0 3 1 2 3 4 5 6");
    assert_eq!(msg.messages[20], "19 1 -1 -1 20 7 36 -1");
    assert_eq!(msg.messages[13], "12 0 3 11 26 27 13 4");
    // day, nutrient
    assert_eq!(msg.messages[38], "0");
    assert_eq!(msg.messages[39], "20");
    // trees: 4 small trees
    // each player is counted four small trees
    assert_eq!(msg.messages[42], "8");
    assert_eq!(msg.messages[43], "20 1 0 0");
    assert_eq!(msg.messages.last().unwrap(), "WAIT");
}

#[test]
fn wood_both_waiting_starts_a_new_day() {
    let mut game = init_with_params(&[[29, 30], [27, 26]], &[]);
    let sun_before = game.players[0].sun;
    game.play(String::from("WAIT"));
    game.play(String::from("WAIT"));
    assert_eq!(game.day, 1);
    assert_eq!(game.turn_during_day, 0);
    assert!(!game.players[0].is_asleep);
    assert!(game.players[0].sun > sun_before);
}

#[test]
fn wood_invalid_move_loses() {
    let mut game = init_with_params(&[[29, 30], [27, 26]], &[]);
    game.play(String::from("COMPLETE 29"));
    game.play(String::from("WAIT"));
    assert_eq!(game.winners(), Some(vec![WinLossTie::Loss, WinLossTie::Win]));
}

#[test]
fn graph_counts_and_finds_paths() {
    let mut g: Graph<u32, u32> = Graph::new();
    for n in 0..5 {
        g.add_node(n * 10);
    }
    g.add_edge(0, 10, 1);
    g.add_edge(10, 20, 2);
    g.add_edge(20, 30, 3);
    g.add_edge(0, 40, 4);
    g.add_edge(40, 30, 5);
    assert_eq!(g.node_count(), 5);
    assert_eq!(g.edge_count(), 5);
    assert_eq!(g.bfs_node_to_edge(&0, &3).unwrap(), Some(vec![(1, 10), (2, 20)]));
    assert_eq!(g.bfs_node_to_edge(&0, &5).unwrap(), Some(vec![(4, 40)]));
    assert_eq!(g.bfs_node_to_edge(&0, &1).unwrap(), Some(vec![]));
    assert_eq!(g.bfs_node_to_edge(&30, &1).unwrap(), None);
    assert_eq!(g.bfs_node_to_edge(&7, &1), Err(String::from("Couldn't find starting node 7")));
}

#[test]
fn statistics_count_each_result() {
    let mut stats = RunStatistics::new(2);
    stats.record_winners(&[WinLossTie::Win, WinLossTie::Loss]);
    stats.record_winners(&[WinLossTie::Tie, WinLossTie::Tie]);
    assert_eq!(stats.players_win_loss, vec![(1, 0, 1), (0, 1, 1)]);

    let mut total = RunStatistics::new(2);
    total.add_permuted(&[1, 0], &stats);
    assert_eq!(total.players_win_loss, vec![(0, 1, 1), (1, 0, 1)]);
}

#[test]
fn permutations_are_seatings() {
    let perms = seatings(3);
    assert_eq!(perms.len(), 6);
    for p in perms.iter() {
        let mut sorted = p.clone();
        sorted.sort();
        assert_eq!(sorted, vec![0, 1, 2]);
    }
}

#[test]
fn seatings_list_every_ordering_once() {
    let perms = seatings(3);
    for a in 0..perms.len() {
        for b in (a + 1)..perms.len() {
            assert_ne!(perms[a], perms[b]);
        }
    }
    assert!(perms.contains(&vec![2, 0, 1]));
    assert_eq!(seatings(0), vec![Vec::<usize>::new()]);
    assert_eq!(seatings(1), vec![vec![0]]);
}

#[test]
fn graph_search_returns_a_shortest_path() {
    let mut g: Graph<u32, char> = Graph::new();
    g.add_node(1);
    g.add_node(2);
    g.add_node(3);
    g.add_edge(1, 2, 'a');
    g.add_edge(2, 3, 'b');
    g.add_edge(3, 1, 'c');
    assert_eq!(g.bfs_node_to_edge(&1, &'c'), Ok(Some(vec![('a', 2), ('b', 3)])));
    assert_eq!(g.bfs_node_to_edge(&2, &'a'), Ok(Some(vec![('b', 3), ('c', 1)])));
    assert_eq!(g.bfs_node_to_edge(&1, &'a'), Ok(Some(vec![])));
    assert_eq!(g.bfs_node_to_edge(&1, &'z'), Ok(None));
    assert!(g.bfs_node_to_edge(&9, &'a').is_err());
    // a shortcut is preferred to a longer way round
    g.add_edge(1, 3, 'd');
    assert_eq!(g.bfs_node_to_edge(&1, &'c'), Ok(Some(vec![('d', 3)])));
}

#[test]
fn graph_search_from_a_new_node_finds_nothing() {
    let mut g: Graph<u32, char> = Graph::new();
    g.add_node(1);
    g.add_node(2);
    g.add_edge(1, 2, 'a');
    g.add_node(3);
    assert_eq!(g.bfs_node_to_edge(&3, &'a'), Ok(None));
    assert_eq!(g.bfs_node_to_edge(&3, &'b'), Ok(None));
}
