use codingame_bots::game::WinLossTie;
use codingame_bots::tic_tac_toe::squares::{
    cell33_to_cell99, cell99_to_cell33, count_ones, get_bit, is_terminal, is_won, new, set_bit, square_of_cell,
    update_state, valid_moves, valid_moves_in_square,
};

#[test]
fn squares_bits_of_cells() {
    assert_eq!(set_bit(0, 0, 0), 0b100_000_000);
    assert_eq!(set_bit(0, 2, 2), 0b000_000_001);
    assert_eq!(set_bit(0b1, 1, 1), 0b000_010_001);
    assert_eq!(get_bit(0b000_010_001, 1, 1), 1);
    assert_eq!(get_bit(0b000_010_001, 1, 0), 0);
    assert!(is_won(0b111_000_000));
    assert!(is_won(0b001_010_100));
    assert!(is_won(0b101_101_101));
    assert!(!is_won(0b110_001_010));
    assert_eq!(count_ones(0b101_101_101), 6);
    assert_eq!(square_of_cell((4, 7)), (1, 2));
    assert_eq!(cell99_to_cell33((4, 7)), (1, 1));
    assert_eq!(cell33_to_cell99((1, 1), (1, 2)), (4, 7));
    // empty cells, bit 0 (the cell 2, 2) first
    assert_eq!(valid_moves_in_square(0b111_111_010).slice().to_vec(), vec![(2, 2), (2, 0)]);
    assert_eq!(valid_moves_in_square(0b111_111_111).len(), 0);
}

#[test]
fn squares_first_moves() {
    let mut s = new();
    let (p, moves) = valid_moves(&s);
    assert_eq!(p, 0);
    assert_eq!(moves.len(), 81);
    assert_eq!(moves.slice()[0], (2, 2));
    assert_eq!(moves.slice()[8], (0, 0));
    assert_eq!(moves.slice()[9], (2, 5));
    update_state(&mut s, 0, (4, 4));
    assert_eq!(s.p_boards[0][4], 0b000_010_000);
    assert_eq!(s.active_player, 1);
    assert_eq!(s.turn, 1);
    assert_eq!(s.last_move, Some((4, 4)));
    let (p, moves) = valid_moves(&s);
    assert_eq!(p, 1);
    assert_eq!(
        moves.slice().to_vec(),
        vec![(5, 5), (5, 4), (5, 3), (4, 5), (4, 3), (3, 5), (3, 4), (3, 3)]
    );
}

#[test]
fn squares_won_and_locked() {
    let mut s = new();
    update_state(&mut s, 0, (0, 0));
    update_state(&mut s, 1, (0, 3));
    update_state(&mut s, 0, (0, 1));
    update_state(&mut s, 1, (0, 4));
    update_state(&mut s, 0, (0, 2));
    assert_eq!(s.p_squares[0], 0b100_000_000);
    assert_eq!(s.locked_squares, 0b100_000_000);
    // taken cells stay taken
    assert_eq!(get_bit(s.p_boards[1][1], 0, 0), 1);
    assert_eq!(get_bit(s.p_boards[1][1], 0, 1), 1);
    assert!(!is_terminal(&s));
    // the last move points to square (0, 2); a move pointing to the locked
    // square (0, 0) frees every square but it
    update_state(&mut s, 1, (0, 6));
    let (_, moves) = valid_moves(&s);
    assert!(moves.slice().iter().all(|m| m.0 >= 3 || m.1 >= 3));
    assert_eq!(moves.len(), 81 - 9 - 3);
}

#[test]
fn squares_game_won_by_a_line_of_squares() {
    let mut s = new();
    s.p_squares[0] = 0b110_000_000;
    s.locked_squares = 0b110_000_000;
    s.p_boards[0][2] = 0b110_000_000;
    update_state(&mut s, 0, (0, 8));
    assert_eq!(s.p_squares[0], 0b111_000_000);
    assert!(is_terminal(&s));
    assert_eq!(s.winners, Some((WinLossTie::Win, WinLossTie::Loss)));
    assert_eq!(s.active_player, 0);
}

#[test]
fn squares_full_board_counts_squares() {
    let mut s = new();
    s.locked_squares = 0b111_111_110;
    s.p_squares = [0b100_000_000, 0b000_000_010];
    s.p_boards[0][8] = 0b101_100_010;
    s.p_boards[1][8] = 0b010_011_100;
    update_state(&mut s, 0, (8, 8));
    assert_eq!(s.locked_squares, 0b111_111_111);
    assert_eq!(s.winners, Some((WinLossTie::Tie, WinLossTie::Tie)));
    let mut t = new();
    t.locked_squares = 0b111_111_110;
    t.p_squares = [0b100_000_000, 0b000_000_110];
    t.p_boards[0][8] = 0b101_100_010;
    t.p_boards[1][8] = 0b010_011_100;
    update_state(&mut t, 0, (8, 8));
    assert_eq!(t.winners, Some((WinLossTie::Loss, WinLossTie::Win)));
    assert!(is_terminal(&t));
}

#[test]
fn squares_moves_take_free_cells() {
    let mut s = new();
    for m in [(4, 4), (3, 3), (0, 0), (1, 1), (3, 4), (0, 3)] {
        let p = s.active_player;
        update_state(&mut s, p, m);
        let (_, moves) = valid_moves(&s);
        assert!(!moves.slice().is_empty());
        for mv in moves.slice() {
            let sq = square_of_cell(*mv);
            let c = cell99_to_cell33(*mv);
            let k = (sq.0 * 3 + sq.1) as usize;
            assert_eq!(get_bit(s.p_boards[0][k] | s.p_boards[1][k], c.0, c.1), 0);
        }
    }
}

#[test]
fn squares_game_is_over_exactly_when_decided() {
    let mut s = new();
    assert!(!is_terminal(&s) && s.winners.is_none());
    let mut turns = 0;
    while !is_terminal(&s) {
        let (player, moves) = valid_moves(&s);
        let m = moves.slice()[moves.len() / 2];
        update_state(&mut s, player, m);
        assert_eq!(is_terminal(&s), s.winners.is_some());
        turns += 1;
        assert!(turns <= 81);
    }
    assert!(s.winners.is_some());
}
