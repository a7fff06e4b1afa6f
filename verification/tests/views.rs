use codingame_bots::game::Game;
use codingame_bots::wood_spirit::cache::SoilRichness;
use codingame_bots::record::BoardType;
use codingame_bots::tic_tac_toe::game::TicTacToeGame;
use codingame_bots::witches_brew::game::WitchesBrewGame;
use codingame_bots::witches_brew::rules::{Order, Spell};
use codingame_bots::witches_brew::view::{fmt_order, fmt_spell, fmt_stock};
use codingame_bots::wood_spirit::game::init_with_params;
use codingame_bots::wood_spirit::game::WoodSpiritGame;
use codingame_bots::wood_spirit::view::board_pos_to_cell_id;

fn value(state: &[(String, String)], name: &str) -> String {
    state.iter().find(|(k, _)| k == name).map(|(_, v)| v.clone()).unwrap()
}

#[test]
fn tic_tac_toe_state_of_a_new_game() {
    let game = TicTacToeGame::new();
    let s = game.get_state();
    let board = s.board.unwrap();
    assert_eq!(board.len(), 9);
    assert!(board.iter().all(|row| row.len() == 9 && row.iter().all(|c| c == "..")));
    assert_eq!(value(&s.state, "turn"), "0");
    assert_eq!(value(&s.state, "active"), "true");
    assert_eq!(value(&s.state, "active_player"), "0");
    assert_eq!(value(&s.state, "last_move"), "None");
    assert_eq!(value(&s.state, "last_move_result"), "None");
    assert_eq!(value(&s.state, "p_board[0]"), "0".repeat(81));
    assert_eq!(s.state.len(), 10);
}

#[test]
fn tic_tac_toe_state_after_a_move() {
    let mut game = TicTacToeGame::new();
    game.play("4 5".to_string());
    let s = game.get_state();
    let board = s.board.unwrap();
    assert_eq!(board[4][5], "❌.");
    assert_eq!(board[0][0], "..");
    assert_eq!(value(&s.state, "last_move"), "(4,5)");
    assert_eq!(value(&s.state, "last_move_result"), "NormalMove");
    assert_eq!(value(&s.state, "active_player"), "1");
    assert_eq!(value(&s.state, "p_board[0]"), format!("{:0>81b}", game.p_boards[0]));
}

#[test]
fn tic_tac_toe_board_representation() {
    let r = TicTacToeGame::get_board_representation().unwrap();
    assert!(matches!(r.board_type, BoardType::SQUARE(9, 9)));
    assert_eq!(r.classes.len(), 2);
    assert_eq!(r.classes[0].len(), 3);
    assert_eq!(r.classes[1].len(), 4);
    let (c, class) = &r.classes[0][0];
    assert_eq!(*c, '❌');
    assert_eq!(class.text.as_deref(), Some("❌"));
    let styles = class.text_style.as_ref().unwrap();
    assert_eq!(styles[1], ("textShadow".to_string(), "0 0 0 #F2B213".to_string()));
    let (c, class) = &r.classes[1][2];
    assert_eq!(*c, '🔒');
    assert_eq!(class.cell_style.as_ref().unwrap()[0].1, "#adadad");
}

#[test]
fn wood_board_places() {
    assert_eq!(board_pos_to_cell_id(3, 3), Some(0));
    assert_eq!(board_pos_to_cell_id(4, 5), Some(36));
    assert_eq!(board_pos_to_cell_id(0, 4), None);
    assert_eq!(board_pos_to_cell_id(6, 6), None);
    let mut seen = vec![false; 37];
    for r in 0..7 {
        for c in 0..7 {
            if let Some(p) = board_pos_to_cell_id(r, c) {
                assert!(!seen[p]);
                seen[p] = true;
            }
        }
    }
    assert!(seen.iter().all(|s| *s));
}

#[test]
fn wood_state_of_a_game() {
    let game = init_with_params(&[[21, 32], [20, 35]], &[12, 8, 14, 16]);
    let s = game.get_state();
    let board = s.board.unwrap();
    assert_eq!(board.len(), 7);
    assert_eq!(board[0][4], "....");
    // cell 0 is in the middle: rich soil, no tree
    assert!(board[3][3].starts_with("3..."));
    assert_eq!(board[3][3].chars().count(), 5);
    // cell 21 holds a small tree of the first player
    assert!(board[1][4].starts_with("10🌱🏃"));
    assert_eq!(value(&s.state, "Day"), "0");
    assert_eq!(value(&s.state, "Nutrient"), "20");
    assert_eq!(value(&s.state, "player[0]: Move"), "None");
    // a game started this way counts four small trees for each player
    assert_eq!(value(&s.state, "player[1]: Tree counts"), "[0🌰, 4🌱, 0🪴, 0🌳]");
    assert_eq!(s.state.len(), 16);
}

#[test]
fn wood_board_representation() {
    let r = WoodSpiritGame::get_board_representation().unwrap();
    assert!(matches!(r.board_type, BoardType::REGULAR_HEXAGONE_4_SIDES_FLAT_TOP));
    assert_eq!(r.classes.len(), 5);
    assert_eq!(r.classes[2][4].1.text.as_deref(), Some(" "));
    assert_eq!(r.classes[4][2].1.cell_style.as_ref().unwrap()[1].1, "7% 7%");
}

#[test]
fn witches_order_and_spell_texts() {
    let order = Order { id: 50, recipe: [-2, -2, 0, 0], price: 10, bonus: 3 };
    assert_eq!(fmt_order(&order), "[50 | -2🐋 -2🍏  | 🔸10+3]");
    let spell = Spell { id: 78, recipe: [2, 0, 0, 0], delta_stock: 2, tax: 0, repeatable: false, active: true };
    assert_eq!(fmt_spell(&spell), "[🟢 78 | +2🐋  | ]");
    let spell = Spell { id: 3, recipe: [-3, 0, 0, 1], delta_stock: -2, tax: 2, repeatable: true, active: false };
    assert_eq!(fmt_spell(&spell), "[⚪🔁 3 | -3🐋 +1💛  | 🐋x2]");
    assert_eq!(fmt_stock(&[3, 0, 1, -1]), "[🐋: 3, 🍏: 0, 🦧: 1, 💛: -1]");
}

#[test]
fn witches_state_of_a_new_game() {
    let game = WitchesBrewGame::new_game();
    assert!(game.moves_listable());
    let s = game.get_state();
    assert!(s.board.is_none());
    assert_eq!(value(&s.state, "Turn"), "0");
    assert_eq!(value(&s.state, "Bonus left"), "[4, 4]");
    assert_eq!(value(&s.state, "Moves"), "[None, None]");
    assert_eq!(value(&s.state, "player[0]: Stock"), "[🐋: 3, 🍏: 0, 🦧: 0, 💛: 0]");
    assert_eq!(value(&s.state, "player[1]: Rupees"), "0");
    assert_eq!(
        value(&s.state, "player[0]: Spells"),
        "[🟢 42 | +2🐋  | ],[🟢 43 | -1🐋 +1🍏  | ],[🟢 44 | -1🍏 +1🦧  | ],[🟢 45 | -1🦧 +1💛  | ]"
    );
    assert_eq!(value(&s.state, "Orders").matches(" | 🔸").count(), 5);
    assert!(value(&s.state, "player[0]: Valid moves").contains("CAST 42"));
    assert!(WitchesBrewGame::get_board_representation().is_none());
}

fn brewable_stock(order: &Order) -> [i8; 4] {
    [-order.recipe[0], -order.recipe[1], -order.recipe[2], -order.recipe[3]]
}

#[test]
fn witches_brewed_order_is_replaced_once() {
    let mut game = WitchesBrewGame::new_game();
    let before: Vec<Order> = game.counter_orders.slice().to_vec();
    let queue_len = game.queued_orders.len();
    let next = *game.queued_orders.last().unwrap();
    let target = before[2];
    game.players[0].stock = brewable_stock(&target);
    game.play(format!("BREW {}", target.id));
    game.play("CAST 42".to_string());
    let after: Vec<Order> = game.counter_orders.slice().to_vec();
    assert_eq!(game.queued_orders.len(), queue_len - 1);
    assert_eq!(after.len(), 5);
    let ids: Vec<u32> = after.iter().map(|o| o.id).collect();
    assert_eq!(ids, vec![before[0].id, before[1].id, before[3].id, before[4].id, next.id]);
    assert_eq!(game.players[0].brewed_potions_count, 1);
}

#[test]
fn witches_two_brews_replace_two_orders() {
    let mut game = WitchesBrewGame::new_game();
    let before: Vec<Order> = game.counter_orders.slice().to_vec();
    let queue_len = game.queued_orders.len();
    let last = game.queued_orders[queue_len - 1];
    let second_last = game.queued_orders[queue_len - 2];
    game.players[0].stock = brewable_stock(&before[1]);
    game.players[1].stock = brewable_stock(&before[3]);
    game.play(format!("BREW {}", before[1].id));
    game.play(format!("BREW {}", before[3].id));
    let ids: Vec<u32> = game.counter_orders.slice().iter().map(|o| o.id).collect();
    assert_eq!(ids, vec![before[0].id, before[2].id, before[4].id, last.id, second_last.id]);
    assert_eq!(game.queued_orders.len(), queue_len - 2);
}

#[test]
fn wood_new_game_places_two_trees_each_on_usable_soil() {
    for _ in 0..20 {
        let game = WoodSpiritGame::new_game();
        let mut counts = [0, 0];
        let mut unusable = 0;
        for i in 0..37 {
            let soil = game.cache.get_soil_richness(i);
            if soil == SoilRichness::UNUSABLE {
                unusable += 1;
                assert!(game.board[i].is_none());
            }
            if let Some(cell) = game.board[i] {
                counts[cell.player as usize] += 1;
            }
        }
        assert_eq!(counts, [2, 2]);
        assert_eq!(unusable % 2, 0);
        assert!(unusable <= 10);
    }
}
