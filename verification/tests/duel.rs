use codingame_bots::game::WinLossTie;
use codingame_bots::witches_brew::duel::{
    is_terminal, new, random_valid_move, read_duel_turn, update_state, valid_moves, Move, State,
};
use codingame_bots::witches_brew::turn_input::{action_line, ActionLine};

fn lines(texts: &[&str]) -> Vec<ActionLine> {
    texts.iter().map(|t| action_line(t).unwrap()).collect()
}

fn turn() -> State {
    let actions = lines(&[
        "44 BREW -2 -2 0 0 6 3 4 0 0",
        "78 CAST 2 0 0 0 0 -1 -1 1 0",
        "79 CAST -1 1 0 0 0 -1 -1 0 0",
        "82 OPPONENT_CAST 2 0 0 0 0 -1 -1 1 0",
        "8 LEARN 3 -2 1 0 0 1 2 0 1",
    ]);
    read_duel_turn(&actions, ([2, 2, 0, 0], 5), ([3, 0, 0, 0], 0)).unwrap()
}

#[test]
fn duel_starts_empty() {
    let s = new();
    assert!(s.active);
    assert!(!is_terminal(&s));
    assert_eq!(s.active_player, 0);
    assert_eq!(s.players[1].empty_slots, 10);
    assert!(s.orders.iter().all(|o| o.is_none()));
    assert!(s.players[0].spells.iter().all(|sp| !sp.active && sp.id == 0));
}

#[test]
fn duel_reads_a_turn() {
    let s = turn();
    let o = s.orders[0].unwrap();
    assert_eq!((o.id, o.ingredients, o.delta_stock, o.price), (44, [-2, -2, 0, 0], -4, 6));
    assert!(s.orders[1].is_none());
    assert_eq!(s.players[0].spells[0].id, 78);
    assert!(s.players[0].spells[0].active);
    assert_eq!(s.players[0].spells[0].delta_stock, 2);
    assert!(!s.players[0].spells[1].active);
    assert_eq!(s.players[1].spells[0].id, 82);
    assert_eq!(s.players[0].empty_slots, 6);
    assert_eq!(s.players[1].empty_slots, 7);
    assert_eq!(s.players[0].rupees, 5);
    // a sixth order, a fifth spell or a sum beyond an i8 cannot be read
    let six: Vec<&str> = vec!["1 BREW -1 0 0 0 1 0 0 0 0"; 6];
    assert!(read_duel_turn(&lines(&six), ([0, 0, 0, 0], 0), ([0, 0, 0, 0], 0)).is_none());
    let five: Vec<&str> = vec!["1 CAST 1 0 0 0 0 0 0 1 0"; 5];
    assert!(read_duel_turn(&lines(&five), ([0, 0, 0, 0], 0), ([0, 0, 0, 0], 0)).is_none());
    assert!(read_duel_turn(&lines(&["1 BREW -100 -100 0 0 1 0 0 0 0"]), ([0, 0, 0, 0], 0), ([0, 0, 0, 0], 0)).is_none());
    assert!(read_duel_turn(&[], ([127, 1, 0, 0], 0), ([0, 0, 0, 0], 0)).is_none());
    assert!(read_duel_turn(&[], ([0, 0, 0, 0], 0), ([-120, 0, 0, 0], 0)).is_none());
}

#[test]
fn duel_moves_of_the_witch_to_play() {
    let s = turn();
    let (player, moves) = valid_moves(&s);
    assert_eq!(player, 0);
    assert_eq!(moves.slice().to_vec(), vec![Move::BREW(44), Move::CAST(78), Move::REST]);
    let (_, m) = random_valid_move(&s);
    assert!(moves.slice().contains(&m));
    // nothing to do but wait once every spell is active
    let mut idle = new();
    for sp in idle.players[0].spells.iter_mut() {
        sp.active = true;
        sp.ingredients = [0, 0, 0, -1];
        sp.delta_stock = -1;
    }
    assert_eq!(valid_moves(&idle).1.slice().to_vec(), vec![Move::WAIT]);
    assert_eq!(Move::BREW(44).to_string(), "BREW 44");
    assert_eq!(Move::CAST(3).to_string(), "CAST 3");
    assert_eq!(Move::NONE.to_string(), "None");
    assert_eq!(Move::REST.to_string(), "REST");
}

#[test]
fn duel_plays_both_moves_together() {
    let mut s = turn();
    update_state(&mut s, 0, Move::BREW(44));
    // only recorded so far
    assert_eq!(s.players[0].stock, [2, 2, 0, 0]);
    assert_eq!(s.active_player, 1);
    update_state(&mut s, 1, Move::CAST(82));
    assert_eq!(s.players[0].stock, [0, 0, 0, 0]);
    assert_eq!(s.players[0].rupees, 11);
    assert_eq!(s.players[0].empty_slots, 10);
    assert_eq!(s.players[0].brewed_potions_count, 1);
    assert_eq!(s.players[1].stock, [5, 0, 0, 0]);
    assert_eq!(s.players[1].empty_slots, 5);
    assert!(!s.players[1].spells[0].active);
    assert!(s.orders[0].is_none());
    assert_eq!(s.turn, 1);
    assert_eq!(s.active_player, 0);
    assert_eq!(s.players[0].move_, Move::NONE);
    assert!(!is_terminal(&s));
    // a rest refreshes every spell
    update_state(&mut s, 0, Move::WAIT);
    update_state(&mut s, 1, Move::REST);
    assert!(s.players[1].spells.iter().all(|sp| sp.active));
}

#[test]
fn duel_both_witches_may_brew_the_same_order() {
    let mut s = turn();
    s.players[1].stock = [2, 2, 0, 0];
    s.players[1].empty_slots = 6;
    update_state(&mut s, 0, Move::BREW(44));
    update_state(&mut s, 1, Move::BREW(44));
    assert_eq!(s.players[0].rupees, 11);
    assert_eq!(s.players[1].rupees, 6);
    assert!(s.orders[0].is_none());
}

#[test]
fn duel_ends_at_the_third_potion() {
    let mut s = turn();
    s.players[0].brewed_potions_count = 2;
    update_state(&mut s, 0, Move::BREW(44));
    update_state(&mut s, 1, Move::WAIT);
    assert!(is_terminal(&s));
    // 11 rupees against 0 rupees and no ingredient above tier 0
    assert_eq!(s.winners, Some((WinLossTie::Win, WinLossTie::Loss)));
    let mut t = turn();
    t.turn = 100;
    update_state(&mut t, 0, Move::WAIT);
    update_state(&mut t, 1, Move::WAIT);
    // 5 + 2 against 0
    assert_eq!(t.winners, Some((WinLossTie::Win, WinLossTie::Loss)));
    assert_eq!(t.turn, 101);
    let mut u = turn();
    u.turn = 100;
    u.players[1].rupees = 7;
    update_state(&mut u, 0, Move::WAIT);
    update_state(&mut u, 1, Move::WAIT);
    assert_eq!(u.winners, Some((WinLossTie::Tie, WinLossTie::Tie)));
}
