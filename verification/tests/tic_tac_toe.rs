use codingame_bots::game::Game;
use codingame_bots::tic_tac_toe::board;
use codingame_bots::tic_tac_toe::board::{
    move81_to_movetuple, moves81_to_movetuples, movetuple_to_move81, square_of_move81, square_pointed_by_move81,
};
use codingame_bots::tic_tac_toe::game::TicTacToeGame;

fn assert_same_elements<T: PartialEq + std::fmt::Debug>(left: &[T], right: &[T]) {
    assert_eq!(left.len(), right.len(), "LEFT: {:?}, RIGHT: {:?}", left, right);
    assert!(left.iter().all(|m| right.contains(m)), "LEFT: {:?}, RIGHT: {:?}", left, right);
    assert!(right.iter().all(|m| left.contains(m)), "LEFT: {:?}, RIGHT: {:?}", left, right);
}

#[test]
fn test_movetuple_to_move81() {
    assert_eq!(movetuple_to_move81((0, 0)),0b100000000_000000000_000000000_000000000_000000000_000000000_000000000_000000000_000000000);
    assert_eq!(movetuple_to_move81((0, 4)),0b000000000_010000000_000000000_000000000_000000000_000000000_000000000_000000000_000000000);
    assert_eq!(movetuple_to_move81((0, 8)),0b000000000_000000000_001000000_000000000_000000000_000000000_000000000_000000000_000000000);
    assert_eq!(movetuple_to_move81((2, 6)),0b000000000_000000000_000000100_000000000_000000000_000000000_000000000_000000000_000000000);
    assert_eq!(movetuple_to_move81((4, 1)),0b000000000_000000000_000000000_000010000_000000000_000000000_000000000_000000000_000000000);
    assert_eq!(movetuple_to_move81((5, 3)),0b000000000_000000000_000000000_000000000_000000100_000000000_000000000_000000000_000000000);
    assert_eq!(movetuple_to_move81((6, 8)),0b000000000_000000000_000000000_000000000_000000000_000000000_000000000_000000000_001000000);
    assert_eq!(movetuple_to_move81((7, 0)),0b000000000_000000000_000000000_000000000_000000000_000000000_000100000_000000000_000000000);
    assert_eq!(movetuple_to_move81((7, 6)),0b000000000_000000000_000000000_000000000_000000000_000000000_000000000_000000000_000100000);
    assert_eq!(movetuple_to_move81((8, 0)),0b000000000_000000000_000000000_000000000_000000000_000000000_000000100_000000000_000000000);
    assert_eq!(movetuple_to_move81((8, 3)),0b000000000_000000000_000000000_000000000_000000000_000000000_000000000_000000100_000000000);
    assert_eq!(movetuple_to_move81((8, 8)),0b000000000_000000000_000000000_000000000_000000000_000000000_000000000_000000000_000000001);
}

#[test]
fn test_move81_to_movetuple() {
    assert_eq!(move81_to_movetuple(0b000000000_000000000_000000000_000000000_000000000_000000000_000000000_000001000_000000000),(7,5));
    assert_eq!(move81_to_movetuple(0b000000000_001000000_000000000_000000000_000000000_000000000_000000000_000000000_000000000),(0,5));
    assert_eq!(move81_to_movetuple(0b000000000_000000000_000000000_000000000_000000000_000000000_010000000_000000000_000000000),(6,1));
    assert_eq!(move81_to_movetuple(0b000000000_000000000_000000000_000000000_000000000_000000000_000000000_010000000_000000000),(6,4));
    assert_eq!(move81_to_movetuple(0b100000000_000000000_000000000_000000000_000000000_000000000_000000000_000000000_000000000),(0,0));
    assert_eq!(move81_to_movetuple(0b000000000_000000000_000000000_100000000_000000000_000000000_000000000_000000000_000000000),(3,0));
}

#[test]
fn test_moves81_to_movetuples() {
    let moves:u128 = 0b100000000_000000000_000000000_000000000_000000000_000000000_000000000_000000000_000000000;
    let move_tuples = moves81_to_movetuples(moves);
    let expected_move_tuples = vec![(0,0)];
    assert_same_elements(&move_tuples, &expected_move_tuples);

    let moves:u128 = 0b100011010_010101010_100010010_001101111_011001100_100111101_101000000_001111110_001010001;
    let move_tuples = moves81_to_movetuples(moves);
    let expected_move_tuples = vec![(0,0),(1,1),(1,2),(2,1),(0,4),(1,3),(1,5),(2,4),(0,6),(1,7),(2,7),(3,2),(4,0),(4,2),(5,0),(5,1),(5,2),(3,4),(3,5),(4,5),(5,3),(3,6),(4,6),(4,7),(4,8),(5,6),(5,8),(6,0),(6,2),(6,5),(7,3),(7,4),(7,5),(8,3),(8,4),(6,8),(7,7),(8,8)];
    assert_same_elements(&move_tuples, &expected_move_tuples);

}


#[test]
fn test_square_of_move81() {
    //(0,0)
    assert_eq!(square_of_move81(2_u128.pow(80)),0b111111111_000000000_000000000_000000000_000000000_000000000_000000000_000000000_000000000);
    //(0, 4)
    assert_eq!(square_of_move81(2_u128.pow(70)),0b000000000_111111111_000000000_000000000_000000000_000000000_000000000_000000000_000000000);
    //(0, 8)
    assert_eq!(square_of_move81(2_u128.pow(60)),0b000000000_000000000_111111111_000000000_000000000_000000000_000000000_000000000_000000000);
    //(2, 6)
    assert_eq!(square_of_move81(2_u128.pow(56)),0b000000000_000000000_111111111_000000000_000000000_000000000_000000000_000000000_000000000);
    //(4, 1)
    assert_eq!(square_of_move81(2_u128.pow(49)),0b000000000_000000000_000000000_111111111_000000000_000000000_000000000_000000000_000000000);
    //(5, 3)
    assert_eq!(square_of_move81(2_u128.pow(38)),0b000000000_000000000_000000000_000000000_111111111_000000000_000000000_000000000_000000000);
    //(6, 8)
    assert_eq!(square_of_move81(2_u128.pow(6)),0b000000000_000000000_000000000_000000000_000000000_000000000_000000000_000000000_111111111);
    //(7, 0)
    assert_eq!(square_of_move81(2_u128.pow(23)),0b000000000_000000000_000000000_000000000_000000000_000000000_111111111_000000000_000000000);
    //(7, 6)
    assert_eq!(square_of_move81(2_u128.pow(5)),0b000000000_000000000_000000000_000000000_000000000_000000000_000000000_000000000_111111111);
    //(8, 0)
    assert_eq!(square_of_move81(2_u128.pow(20)),0b000000000_000000000_000000000_000000000_000000000_000000000_111111111_000000000_000000000);
    //(8, 3)
    assert_eq!(square_of_move81(2_u128.pow(11)),0b000000000_000000000_000000000_000000000_000000000_000000000_000000000_111111111_000000000);
    //(8, 8)
    assert_eq!(square_of_move81(2_u128.pow(0)),0b000000000_000000000_000000000_000000000_000000000_000000000_000000000_000000000_111111111);

    for i in 72..=80 {
        assert_eq!(square_of_move81(2_u128.pow(i)), 0b111111111_000000000_000000000_000000000_000000000_000000000_000000000_000000000_000000000);
    }
    for i in 63..=71 {
        assert_eq!(square_of_move81(2_u128.pow(i)), 0b000000000_111111111_000000000_000000000_000000000_000000000_000000000_000000000_000000000);
    }
    for i in 54..=62 {
        assert_eq!(square_of_move81(2_u128.pow(i)), 0b000000000_000000000_111111111_000000000_000000000_000000000_000000000_000000000_000000000);
    }
    for i in 45..=53 {
        assert_eq!(square_of_move81(2_u128.pow(i)), 0b000000000_000000000_000000000_111111111_000000000_000000000_000000000_000000000_000000000);
    }
    for i in 36..=44 {
        assert_eq!(square_of_move81(2_u128.pow(i)), 0b000000000_000000000_000000000_000000000_111111111_000000000_000000000_000000000_000000000);
    }
    for i in 27..=35 {
        assert_eq!(square_of_move81(2_u128.pow(i)), 0b000000000_000000000_000000000_000000000_000000000_111111111_000000000_000000000_000000000);
    }
    for i in 18..=26 {
        assert_eq!(square_of_move81(2_u128.pow(i)), 0b000000000_000000000_000000000_000000000_000000000_000000000_111111111_000000000_000000000);
    }
    for i in 9..=17 {
        assert_eq!(square_of_move81(2_u128.pow(i)), 0b000000000_000000000_000000000_000000000_000000000_000000000_000000000_111111111_000000000);
    }
    for i in 0..=8 {
        assert_eq!(square_of_move81(2_u128.pow(i)), 0b000000000_000000000_000000000_000000000_000000000_000000000_000000000_000000000_111111111);
    }
}


#[test]
fn test_square_pointed_by_move81() {
    for i in (8..=80).step_by(9) {
        assert_eq!(square_pointed_by_move81(2_u128.pow(i)), 0b111111111_000000000_000000000_000000000_000000000_000000000_000000000_000000000_000000000);
    }
    for i in (7..=79).step_by(9) {
        assert_eq!(square_pointed_by_move81(2_u128.pow(i)), 0b000000000_111111111_000000000_000000000_000000000_000000000_000000000_000000000_000000000);
    }
    for i in (6..=78).step_by(9) {
        assert_eq!(square_pointed_by_move81(2_u128.pow(i)), 0b000000000_000000000_111111111_000000000_000000000_000000000_000000000_000000000_000000000);
    }
    for i in (5..=77).step_by(9) {
        assert_eq!(square_pointed_by_move81(2_u128.pow(i)), 0b000000000_000000000_000000000_111111111_000000000_000000000_000000000_000000000_000000000);
    }
    for i in (4..=76).step_by(9) {
        assert_eq!(square_pointed_by_move81(2_u128.pow(i)), 0b000000000_000000000_000000000_000000000_111111111_000000000_000000000_000000000_000000000);
    }
    for i in (3..=75).step_by(9) {
        assert_eq!(square_pointed_by_move81(2_u128.pow(i)), 0b000000000_000000000_000000000_000000000_000000000_111111111_000000000_000000000_000000000);
    }
    for i in (2..=74).step_by(9) {
        assert_eq!(square_pointed_by_move81(2_u128.pow(i)), 0b000000000_000000000_000000000_000000000_000000000_000000000_111111111_000000000_000000000);
    }
    for i in (1..=73).step_by(9) {
        assert_eq!(square_pointed_by_move81(2_u128.pow(i)), 0b000000000_000000000_000000000_000000000_000000000_000000000_000000000_111111111_000000000);
    }
    for i in (0..=72).step_by(9) {
        assert_eq!(square_pointed_by_move81(2_u128.pow(i)), 0b000000000_000000000_000000000_000000000_000000000_000000000_000000000_000000000_111111111);
    }
}

#[test]
fn game_tic_tac_toe_test_valid_moves() {
    let mut game = TicTacToeGame::new();

    let expected_moves:u128= 0b111111111_111111111_111111111_111111111_111111111_111111111_111111111_111111111_111111111;
    let valid_moves = board::valid_moves(&game.p_boards, game.locked_squares, game.last_move);
    assert_eq!(expected_moves,valid_moves);

    game.play(String::from("5 7"));
    game.play(String::from("6 4"));

    let expected_moves:u128= 0b000000000_111111111_000000000_000000000_000000000_000000000_000000000_000000000_000000000;
    let valid_moves = board::valid_moves(&game.p_boards, game.locked_squares, game.last_move);
    assert_eq!(expected_moves,valid_moves);

    game.play(String::from("2 5"));
    game.play(String::from("8 7"));

    let expected_moves:u128= 0b000000000_000000000_000000000_000000000_000000000_000000000_000000000_101111111_000000000;
    let valid_moves = board::valid_moves(&game.p_boards, game.locked_squares, game.last_move);
    assert_eq!(expected_moves,valid_moves);

    game.play(String::from("8 4"));
    game.play(String::from("7 4"));

    let expected_moves:u128= 0b000000000_000000000_000000000_000000000_111111111_000000000_000000000_000000000_000000000;
    let valid_moves = board::valid_moves(&game.p_boards, game.locked_squares, game.last_move);
    assert_eq!(expected_moves,valid_moves);

    game.play(String::from("4 5"));
    game.play(String::from("3 8"));

    let expected_moves:u128= 0b000000000_000000000_111111111_000000000_000000000_000000000_000000000_000000000_000000000;
    let valid_moves = board::valid_moves(&game.p_boards, game.locked_squares, game.last_move);
    assert_eq!(expected_moves,valid_moves);

    game.play(String::from("1 8"));
    game.play(String::from("3 7"));

    let expected_moves:u128= 0b000000000_111111110_000000000_000000000_000000000_000000000_000000000_000000000_000000000;
    let valid_moves = board::valid_moves(&game.p_boards, game.locked_squares, game.last_move);
    assert_eq!(expected_moves,valid_moves);

    game.play(String::from("0 3"));
    game.play(String::from("2 1"));

    let expected_moves:u128= 0b000000000_000000000_000000000_000000000_000000000_000000000_000000000_101101101_000000000;
    let valid_moves = board::valid_moves(&game.p_boards, game.locked_squares, game.last_move);
    assert_eq!(expected_moves,valid_moves);

    game.play(String::from("7 3"));
    game.play(String::from("3 1"));

    let expected_moves:u128= 0b000000000_011111110_000000000_000000000_000000000_000000000_000000000_000000000_000000000;
    let valid_moves = board::valid_moves(&game.p_boards, game.locked_squares, game.last_move);
    assert_eq!(expected_moves,valid_moves);

    game.play(String::from("0 4"));
    game.play(String::from("0 5"));

    let expected_moves:u128= 0b000000000_000000000_111110111_000000000_000000000_000000000_000000000_000000000_000000000;
    let valid_moves = board::valid_moves(&game.p_boards, game.locked_squares, game.last_move);
    assert_eq!(expected_moves,valid_moves);

    game.play(String::from("2 6"));
    game.play(String::from("7 1"));

    let expected_moves:u128= 0b000000000_000000000_000000000_000000000_111110111_000000000_000000000_000000000_000000000;
    let valid_moves = board::valid_moves(&game.p_boards, game.locked_squares, game.last_move);
    assert_eq!(expected_moves,valid_moves);

    game.play(String::from("4 4"));
    game.play(String::from("3 4"));

    let expected_moves:u128= 0b000000000_000111110_000000000_000000000_000000000_000000000_000000000_000000000_000000000;
    let valid_moves = board::valid_moves(&game.p_boards, game.locked_squares, game.last_move);
    assert_eq!(expected_moves,valid_moves);

    game.play(String::from("2 4"));
    game.play(String::from("6 3"));

    let expected_moves:u128= 0b111111101_000000000_000000000_000000000_000000000_000000000_000000000_000000000_000000000;
    let valid_moves = board::valid_moves(&game.p_boards, game.locked_squares, game.last_move);
    assert_eq!(expected_moves,valid_moves);

    game.play(String::from("1 1"));
    game.play(String::from("3 5"));

    let expected_moves:u128= 0b000000000_000000000_111110011_000000000_000000000_000000000_000000000_000000000_000000000;
    let valid_moves = board::valid_moves(&game.p_boards, game.locked_squares, game.last_move);
    assert_eq!(expected_moves,valid_moves);

    game.play(String::from("0 8"));
    game.play(String::from("1 6"));

    let expected_moves:u128= 0b000000000_000000000_000000000_101111111_000000000_000000000_000000000_000000000_000000000;
    let valid_moves = board::valid_moves(&game.p_boards, game.locked_squares, game.last_move);
    assert_eq!(expected_moves,valid_moves);

    game.play(String::from("5 0"));
    game.play(String::from("6 1"));

    let expected_moves:u128= 0b000000000_000111100_000000000_000000000_000000000_000000000_000000000_000000000_000000000;
    let valid_moves = board::valid_moves(&game.p_boards, game.locked_squares, game.last_move);
    assert_eq!(expected_moves,valid_moves);

    game.play(String::from("1 4"));
    game.play(String::from("3 3"));

    let expected_moves:u128= 0b111101101_000000000_000000000_000000000_000000000_000000000_000000000_000000000_000000000;
    let valid_moves = board::valid_moves(&game.p_boards, game.locked_squares, game.last_move);
    assert_eq!(expected_moves,valid_moves);

    game.play(String::from("0 1"));
    game.play(String::from("8 1"));

    let expected_moves:u128= 0b000000000_000000000_000000000_000000000_000000000_000000000_000000000_001001101_000000000;
    let valid_moves = board::valid_moves(&game.p_boards, game.locked_squares, game.last_move);
    assert_eq!(expected_moves,valid_moves);

    game.play(String::from("6 5"));
    game.play(String::from("1 7"));

    let expected_moves:u128= 0b101101101_000000000_110000011_101111011_000000000_100111101_000000000_000001101_111111101;
    let valid_moves = board::valid_moves(&game.p_boards, game.locked_squares, game.last_move);
    assert_eq!(expected_moves,valid_moves);

    game.play(String::from("8 5"));
    game.play(String::from("6 7"));

    let expected_moves:u128= 0b101101101_000000000_110000011_101111011_000000000_100111101_000000000_000001100_101111101;
    let valid_moves = board::valid_moves(&game.p_boards, game.locked_squares, game.last_move);
    assert_eq!(expected_moves,valid_moves);

    game.play(String::from("5 8"));
    game.play(String::from("7 7"));

    let expected_moves:u128= 0b101101101_000000000_110000011_101111011_000000000_100111100_000000000_000001100_000000000;
    let valid_moves = board::valid_moves(&game.p_boards, game.locked_squares, game.last_move);
    assert_eq!(expected_moves,valid_moves);

    game.play(String::from("4 1"));
    game.play(String::from("3 6"));

    let expected_moves:u128= 0b101101101_000000000_000000000_000000000_000000000_000000000_000000000_000000000_000000000;
    let valid_moves = board::valid_moves(&game.p_boards, game.locked_squares, game.last_move);
    assert_eq!(expected_moves,valid_moves);

    game.play(String::from("1 0"));
    game.play(String::from("3 2"));

    let expected_moves:u128= 0b000000000_000000000_110000011_000000000_000000000_000000000_000000000_000000000_000000000;
    let valid_moves = board::valid_moves(&game.p_boards, game.locked_squares, game.last_move);
    assert_eq!(expected_moves,valid_moves);

}
