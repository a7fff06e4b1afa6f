use codingame_bots::witches_brew::protocol::parse_move;
use codingame_bots::witches_brew::rules::{
    brew_and_update_stock, can_cast_spell, can_fulfill_order, cast_and_update_stock, find_order, find_spell,
    get_all_orders, get_basic_spells, get_order_position, get_spell_position, get_tome_spells,
    how_many_times_can_cast_spell, Move,
};
use codingame_bots::witches_brew::rules;

fn assert_same_elements<T: PartialEq + std::fmt::Debug>(left: &[T], right: &[T]) {
    assert_eq!(left.len(), right.len(), "LEFT: {:?}, RIGHT: {:?}", left, right);
    assert!(left.iter().all(|m| right.contains(m)), "LEFT: {:?}, RIGHT: {:?}", left, right);
    assert!(right.iter().all(|m| left.contains(m)), "LEFT: {:?}, RIGHT: {:?}", left, right);
}

#[test]
fn test_parse_move() {
    assert_eq!(parse_move("WAIT").unwrap(), Move::WAIT);
    assert_eq!(parse_move("REST").unwrap(), Move::REST);
    assert_eq!(parse_move("BREW 1").unwrap(), Move::BREW(1));
    assert_eq!(parse_move("BREW 10").unwrap(), Move::BREW(10));
    assert_eq!(parse_move("LEARN 2").unwrap(), Move::LEARN(2));
    assert_eq!(parse_move("LEARN 20").unwrap(), Move::LEARN(20));
    assert_eq!(parse_move("CAST 3").unwrap(), Move::CAST(3, 1));
    assert_eq!(parse_move("CAST 30").unwrap(), Move::CAST(30, 1));
    assert_eq!(parse_move("CAST 3 2").unwrap(), Move::CAST(3, 2));
    assert_eq!(parse_move("CAST 3 12").unwrap(), Move::CAST(3, 12));
    assert_eq!(parse_move("CAST 30 2").unwrap(), Move::CAST(30, 2));
    assert_eq!(parse_move("CAST 30 12").unwrap(), Move::CAST(30, 12));
}

#[test]
fn test_get_tome_spell() {
    let tome_spells = get_tome_spells();
    assert_eq!(tome_spells.len(), 42);

    assert_eq!(tome_spells[2].repeatable, false);
    assert_eq!(tome_spells[3].repeatable, false);
    assert_eq!(tome_spells[4].repeatable, false);
    assert_eq!(tome_spells[5].repeatable, true);

    assert_eq!(tome_spells[0].delta_stock, -2);
    assert_eq!(tome_spells[2].delta_stock, 2);
    assert_eq!(tome_spells[3].delta_stock, 1);
    assert_eq!(tome_spells[4].delta_stock, 3);
    assert_eq!(tome_spells[5].delta_stock, 3);
}

#[test]
fn test_get_spell() {
    let spell = find_spell(&[-5, 0, 0, 2]).unwrap();
    assert_eq!(spell.id, 29);

    let spell = find_spell(&[2, 1, 0, 0]).unwrap();
    assert_eq!(spell.id, 12);
    assert_eq!(spell.repeatable, false);

    let spell = find_spell(&[-1, 1, 0, 0]).unwrap();
    assert_eq!(spell.id, 43);
    assert_eq!(spell.repeatable, false);

    let spell = find_spell(&[-5, 0, 0, 0]);
    assert!(spell.is_none());
}

#[test]
fn test_get_order() {
    let order = find_order(&[-2, 0, 0, -2]).unwrap();
    assert_eq!(order.id, 8);
    assert_eq!(order.price, 10);

    let order = find_order(&[-3, -2, -1, 0]);
    assert!(order.is_none());
}

#[test]
fn test_can_fulfill_order() {
    let orders = get_all_orders();

    let stock = [3, 2, 1, 0];

    // order[0] = [2, 2, 0, 0]
    assert_eq!(can_fulfill_order(&orders[0], &stock), true);
    // order[2] = [0, 4, 0, 0]
    assert_eq!(
        can_fulfill_order(&orders[2], &stock),
        false
    );

    let stock = [2, 2, 2, 0];
    //order[27] = [2, 2, 2, 0]
    assert_eq!(
        can_fulfill_order(&orders[27], &stock),
        true
    );
    //order[26] = [1, 0, 2, 1]
    assert_eq!(
        can_fulfill_order(&orders[26], &stock),
        false
    );

    let stock = [0, 10, 0, 0];
    //order[7] = [0, 5, 0, 0]
    assert_eq!(can_fulfill_order(&orders[7], &stock), true);
    //order[4] = [2, 3, 0, 0]
    assert_eq!(
        can_fulfill_order(&orders[4], &stock),
        false
    );
}

#[test]
fn test_can_cast_spell() {
    let tome_spells = get_tome_spells();

    // Test remove one ingredient
    let spell = &tome_spells[7]; //[3, 0, 1, -1]
    assert_eq!(can_cast_spell(spell, &[0, 0, 0, 1]), true);
    assert_eq!(can_cast_spell(spell, &[1, 1, 1, 1]), true);
    assert_eq!(can_cast_spell(spell, &[0, 0, 0, 3]), true);
    assert_eq!(can_cast_spell(spell, &[0, 0, 0, 0]), false);
    assert_eq!(can_cast_spell(spell, &[1, 1, 1, 0]), false);

    // Test remove 2 ingredients
    let spell = &tome_spells[18]; //[-1, -1, 0, 1]
    assert_eq!(can_cast_spell(spell, &[1, 1, 0, 0]), true);
    assert_eq!(can_cast_spell(spell, &[3, 1, 1, 1]), true);
    assert_eq!(can_cast_spell(spell, &[0, 3, 1, 1]), false);
    assert_eq!(can_cast_spell(spell, &[2, 0, 1, 1]), false);
    assert_eq!(can_cast_spell(spell, &[0, 0, 5, 5]), false);

    // Test inactive spell
    let mut spell = tome_spells[7].clone(); //[3, 0, 1, -1]
    spell.active = false;
    assert_eq!(
        can_cast_spell(&spell, &[0, 0, 0, 1]),
        false
    );

    // Test no more space
    let spell = &tome_spells[7]; //[3, 0, 1, -1]
    assert_eq!(can_cast_spell(spell, &[6, 0, 0, 1]), true);
    assert_eq!(can_cast_spell(spell, &[7, 0, 0, 1]), false);
    assert_eq!(can_cast_spell(spell, &[2, 2, 2, 1]), true);
    assert_eq!(can_cast_spell(spell, &[2, 2, 2, 2]), false);
}

#[test]
fn test_how_many_times_can_cast_spell() {
    let tome_spells = get_tome_spells();
    let basic_spells = get_basic_spells();

    /* Spell that just adds a single ingredient without removing another */
    let spell = &tome_spells[14]; //[0, 0, 0, 1]
                                  // Spell is not repeatable
    assert_eq!(
        how_many_times_can_cast_spell(spell, &[0, 0, 0, 0]),
        1
    );

    // let's cheat and make it repeatable
    let mut spell = tome_spells[14].clone(); //[0, 0, 0, 1]
    spell.repeatable = true;
    assert_eq!(
        how_many_times_can_cast_spell(&spell, &[0, 0, 0, 0]),
        10
    );
    assert_eq!(
        how_many_times_can_cast_spell(&spell, &[0, 0, 0, 5]),
        5
    );
    assert_eq!(
        how_many_times_can_cast_spell(&spell, &[3, 3, 3, 0]),
        1
    );
    assert_eq!(
        how_many_times_can_cast_spell(&spell, &[3, 3, 3, 1]),
        0
    );
    assert_eq!(
        how_many_times_can_cast_spell(&spell, &[0, 0, 0, 10]),
        0
    );

    /* Spell that  adds 2 ingredients without removing another */
    let spell = &tome_spells[2]; //[1, 1, 0, 0]
                                 // Spell is not repeatable
    assert_eq!(
        how_many_times_can_cast_spell(spell, &[0, 0, 0, 0]),
        1
    );

    // let's cheat and make it repeatable
    let mut spell = tome_spells[2].clone(); //[1, 1, 0, 0]
    spell.repeatable = true;
    assert_eq!(
        how_many_times_can_cast_spell(&spell, &[0, 0, 0, 0]),
        5
    );
    assert_eq!(
        how_many_times_can_cast_spell(&spell, &[2, 2, 0, 0]),
        3
    );
    assert_eq!(
        how_many_times_can_cast_spell(&spell, &[0, 0, 4, 4]),
        1
    );
    assert_eq!(
        how_many_times_can_cast_spell(&spell, &[3, 3, 3, 1]),
        0
    );

    /* Spell that adds 1 ingredient and remove 1 ingredient */
    let spell = &basic_spells[1]; //[-1, 1, 0, 0]
                                  // Spell is not repeatable because it's a basic spell
    assert_eq!(
        how_many_times_can_cast_spell(spell, &[5, 0, 0, 0]),
        1
    );

    // let's cheat and make it repeatable
    let mut spell = basic_spells[1].clone(); //[-1, 1, 0, 0]
    spell.repeatable = true;
    assert_eq!(
        how_many_times_can_cast_spell(&spell, &[5, 0, 0, 0]),
        5
    );
    assert_eq!(
        how_many_times_can_cast_spell(&spell, &[1, 0, 0, 0]),
        1
    );
    assert_eq!(
        how_many_times_can_cast_spell(&spell, &[10, 0, 0, 0]),
        10
    );
    assert_eq!(
        how_many_times_can_cast_spell(&spell, &[5, 5, 0, 0]),
        5
    );
    assert_eq!(
        how_many_times_can_cast_spell(&spell, &[0, 5, 0, 0]),
        0
    );
    assert_eq!(
        how_many_times_can_cast_spell(&spell, &[0, 0, 0, 0]),
        0
    );

    /* Spell that removes 1 ingredients and add 2 others */
    let spell = &tome_spells[9]; //[2, -3, 2, 0]
    assert_eq!(
        how_many_times_can_cast_spell(spell, &[0, 3, 0, 0]),
        1
    );
    assert_eq!(
        how_many_times_can_cast_spell(spell, &[0, 5, 0, 0]),
        1
    );
    assert_eq!(
        how_many_times_can_cast_spell(spell, &[0, 6, 0, 0]),
        2
    );
    assert_eq!(
        how_many_times_can_cast_spell(spell, &[0, 8, 0, 0]),
        2
    );
    assert_eq!(
        how_many_times_can_cast_spell(spell, &[0, 9, 0, 0]),
        1
    );
    assert_eq!(
        how_many_times_can_cast_spell(spell, &[1, 6, 2, 1]),
        0
    );
    assert_eq!(
        how_many_times_can_cast_spell(spell, &[1, 6, 1, 1]),
        1
    );
    assert_eq!(
        how_many_times_can_cast_spell(spell, &[2, 3, 2, 2]),
        1
    );
    assert_eq!(
        how_many_times_can_cast_spell(spell, &[2, 3, 2, 3]),
        0
    );
    assert_eq!(
        how_many_times_can_cast_spell(spell, &[1, 4, 1, 0]),
        1
    );

    /* Another test */
    let spell = &tome_spells[11]; //[-4, 0, 2, 0]
    assert_eq!(
        how_many_times_can_cast_spell(spell, &[4, 0, 0, 0]),
        1
    );
    assert_eq!(
        how_many_times_can_cast_spell(spell, &[7, 0, 0, 0]),
        1
    );
    assert_eq!(
        how_many_times_can_cast_spell(spell, &[10, 0, 0, 0]),
        2
    );
    assert_eq!(
        how_many_times_can_cast_spell(spell, &[8, 1, 1, 0]),
        2
    );
    assert_eq!(
        how_many_times_can_cast_spell(spell, &[3, 0, 0, 0]),
        0
    );

    /* Test inactive spell */
    let mut spell = tome_spells[18].clone(); //[-1, -1, 0, 1]
    assert_eq!(
        how_many_times_can_cast_spell(&spell, &[2, 2, 0, 0]),
        2
    );
    spell.active = false;
    assert_eq!(
        how_many_times_can_cast_spell(&spell, &[2, 2, 0, 0]),
        0
    );
}

#[test]
fn test_get_order_position() {
    let mut orders = get_all_orders();

    assert_eq!(
        get_order_position(&orders[0..5], 2),
        Some(2)
    );
    assert_eq!(
        get_order_position(&orders[0..5], 4),
        Some(4)
    );

    orders[0].id = 200;
    orders[1].id = 201;
    assert_eq!(
        get_order_position(&orders[0..5], 200),
        Some(0)
    );
    assert_eq!(
        get_order_position(&orders[0..5], 201),
        Some(1)
    );
    assert_eq!(
        get_order_position(&orders[0..5], 202),
        None
    );
}

#[test]
fn test_get_spell_position() {
    let mut spells = get_tome_spells();
    assert_eq!(
        get_spell_position(&spells[0..6], 2),
        Some(2)
    );
    assert_eq!(
        get_spell_position(&spells[0..6], 5),
        Some(5)
    );

    spells[0].id = 200;
    spells[2].id = 201;
    assert_eq!(
        get_spell_position(&spells[0..6], 200),
        Some(0)
    );
    assert_eq!(
        get_spell_position(&spells[0..6], 201),
        Some(2)
    );
    assert_eq!(
        get_spell_position(&spells[0..6], 202),
        None
    );
}

#[test]
fn test_cast_and_update_stock() {
    let tome_spells = get_tome_spells();
    let basic_spells = get_basic_spells();

    let spell = &tome_spells[14]; //[0, 0, 0, 1]
    let mut stock = [0, 0, 0, 0];
    cast_and_update_stock(&mut stock, &spell.recipe, 1);
    assert_eq!(stock, [0, 0, 0, 1]);

    let spell = &tome_spells[2]; //[1, 1, 0, 0]
    let mut stock = [0, 0, 0, 0];
    cast_and_update_stock(&mut stock, &spell.recipe, 1);
    assert_eq!(stock, [1, 1, 0, 0]);

    let spell = &basic_spells[1]; //[-1, 1, 0, 0]
    let mut stock = [5, 0, 0, 0];
    cast_and_update_stock(&mut stock, &spell.recipe, 1);
    assert_eq!(stock, [4, 1, 0, 0]);
    let mut stock = [5, 0, 0, 0];
    cast_and_update_stock(&mut stock, &spell.recipe, 5);
    assert_eq!(stock, [0, 5, 0, 0]);

    let spell = &tome_spells[9]; //[2, -3, 2, 0]
    let mut stock = [0, 3, 0, 0];
    cast_and_update_stock(&mut stock, &spell.recipe, 1);
    assert_eq!(stock, [2, 0, 2, 0]);
    let mut stock = [0, 6, 0, 0];
    cast_and_update_stock(&mut stock, &spell.recipe, 2);
    assert_eq!(stock, [4, 0, 4, 0]);

    let spell = &tome_spells[11]; //[-4, 0, 2, 0]
    let mut stock = [7, 0, 0, 0];
    cast_and_update_stock(&mut stock, &spell.recipe, 1);
    assert_eq!(stock, [3, 0, 2, 0]);
    let mut stock = [8, 1, 1, 0];
    cast_and_update_stock(&mut stock, &spell.recipe, 2);
    assert_eq!(stock, [0, 1, 5, 0]);
}

#[test]
fn test_brew_and_update_stock() {
    let orders = get_all_orders();

    let order = orders[0]; //[2, 2, 0, 0]
    let mut stock = [3, 2, 1, 0];
    brew_and_update_stock(&mut stock, &order);
    assert_eq!(stock, [1, 0, 1, 0]);

    let order = orders[27]; //[2, 2, 2, 0]
    let mut stock = [2, 2, 2, 0];
    brew_and_update_stock(&mut stock, &order);
    assert_eq!(stock, [0, 0, 0, 0]);

    let order = orders[7]; //[0, 5, 0, 0]
    let mut stock = [0, 10, 0, 0];
    brew_and_update_stock(&mut stock, &order);
    assert_eq!(stock, [0, 5, 0, 0]);
}

#[test]
fn game_witches_brew_test_valid_moves() {
    /* Round 1 */
    let player_stock = [3, 0, 0, 0];
    let player_spells = [
        find_spell(&[2, 0, 0, 0]).unwrap(),
        find_spell(&[-1, 1, 0, 0]).unwrap(),
        find_spell(&[0, -1, 1, 0]).unwrap(),
        find_spell(&[0, 0, -1, 1]).unwrap(),
    ];
    let tome = [
        find_spell(&[-5, 0, 0, 2]).unwrap(),
        find_spell(&[-3, 1, 1, 0]).unwrap(),
        find_spell(&[0, -3, 0, 2]).unwrap(),
        find_spell(&[2, 1, 0, 0]).unwrap(),
        find_spell(&[-1, -1, 0, 1]).unwrap(),
        find_spell(&[1, 1, 0, 0]).unwrap(),
    ];
    let orders = [
        find_order(&[-2, 0, 0, -2]).unwrap(),
        find_order(&[0, 0, -2, -2]).unwrap(),
        find_order(&[-1, -1, -1, -3]).unwrap(),
        find_order(&[-2, 0, 0, -3]).unwrap(),
        find_order(&[-3, -1, -1, -1]).unwrap(),
    ];

    let valid_moves = rules::valid_moves(&orders, &tome, &player_spells, &player_stock);
    let expected_moves = [
        Move::CAST(player_spells[0].id, 1),
        Move::CAST(player_spells[1].id, 1),
        Move::LEARN(tome[0].id),
        Move::LEARN(tome[1].id),
        Move::LEARN(tome[2].id),
        Move::LEARN(tome[3].id),
    ];

    assert_same_elements(valid_moves.slice(), &expected_moves);

    /* Round 5 */
    let player_stock = [0, 1, 0, 1];
    let mut player_spells = [
        find_spell(&[2, 0, 0, 0]).unwrap(),
        find_spell(&[-1, 1, 0, 0]).unwrap(),
        find_spell(&[0, -1, 1, 0]).unwrap(),
        find_spell(&[0, 0, -1, 1]).unwrap(),
        find_spell(&[0, -3, 0, 2]).unwrap(),
        find_spell(&[-3, 1, 1, 0]).unwrap(),
    ];
    player_spells[0].active = false;
    player_spells[3].active = false;
    player_spells[5].active = false;

    let tome = [
        find_spell(&[-5, 0, 0, 2]).unwrap(),
        find_spell(&[2, 1, 0, 0]).unwrap(),
        find_spell(&[-1, -1, 0, 1]).unwrap(),
        find_spell(&[1, 1, 0, 0]).unwrap(),
        find_spell(&[2, -2, 0, 1]).unwrap(),
        find_spell(&[-4, 0, 2, 0]).unwrap(),
    ];
    let orders = [
        find_order(&[-2, 0, 0, -2]).unwrap(),
        find_order(&[0, 0, -2, -2]).unwrap(),
        find_order(&[-1, -1, -1, -3]).unwrap(),
        find_order(&[-2, 0, 0, -3]).unwrap(),
        find_order(&[-3, -1, -1, -1]).unwrap(),
    ];

    let valid_moves = rules::valid_moves(&orders, &tome, &player_spells, &player_stock);
    let expected_moves = [
        Move::CAST(player_spells[2].id, 1),
        Move::LEARN(tome[0].id),
        Move::REST,
    ];
    assert_same_elements(valid_moves.slice(), &expected_moves);

    /* Round 13 */
    let player_stock = [2, 1, 1, 2];
    let mut player_spells = [
        find_spell(&[2, 0, 0, 0]).unwrap(),
        find_spell(&[-1, 1, 0, 0]).unwrap(),
        find_spell(&[0, -1, 1, 0]).unwrap(),
        find_spell(&[0, 0, -1, 1]).unwrap(),
        find_spell(&[0, -3, 0, 2]).unwrap(),
        find_spell(&[-3, 1, 1, 0]).unwrap(),
        find_spell(&[-5, 0, 0, 2]).unwrap(),
    ];
    player_spells[0].active = false;
    player_spells[1].active = false;
    player_spells[2].active = false;
    player_spells[3].active = false;

    let tome = [
        find_spell(&[2, 1, 0, 0]).unwrap(),
        find_spell(&[-1, -1, 0, 1]).unwrap(),
        find_spell(&[1, 1, 0, 0]).unwrap(),
        find_spell(&[2, -2, 0, 1]).unwrap(),
        find_spell(&[-4, 0, 2, 0]).unwrap(),
        find_spell(&[3, -1, 0, 0]).unwrap(),
    ];
    let orders = [
        find_order(&[-2, 0, 0, -2]).unwrap(),
        find_order(&[0, 0, -2, -2]).unwrap(),
        find_order(&[-1, -1, -1, -3]).unwrap(),
        find_order(&[-2, 0, 0, -3]).unwrap(),
        find_order(&[-3, -1, -1, -1]).unwrap(),
    ];

    let valid_moves = rules::valid_moves(&orders, &tome, &player_spells, &player_stock);
    let expected_moves = [
        Move::LEARN(tome[0].id),
        Move::LEARN(tome[1].id),
        Move::LEARN(tome[2].id),
        Move::BREW(orders[0].id),
        Move::REST,
    ];
    assert_same_elements(valid_moves.slice(), &expected_moves);

    /* Round 17 */
    let player_stock = [0, 3, 1, 0];
    let mut player_spells = [
        find_spell(&[2, 0, 0, 0]).unwrap(),
        find_spell(&[-1, 1, 0, 0]).unwrap(),
        find_spell(&[0, -1, 1, 0]).unwrap(),
        find_spell(&[0, 0, -1, 1]).unwrap(),
        find_spell(&[0, 3, 0, -1]).unwrap(),
        find_spell(&[0, 0, 1, 0]).unwrap(),
        find_spell(&[-2, 0, -1, 2]).unwrap(),
    ];
    let mut tome = [
        find_spell(&[0, -3, 3, 0]).unwrap(),
        find_spell(&[-2, 0, 1, 0]).unwrap(),
        find_spell(&[1, 0, 1, 0]).unwrap(),
        find_spell(&[1, 1, 1, -1]).unwrap(),
        find_spell(&[0, -2, 2, 0]).unwrap(),
        find_spell(&[0, 0, 0, 1]).unwrap(),
    ];
    tome[0].tax = 3;
    tome[1].tax = 1;
    tome[2].tax = 1;

    let orders = [
        find_order(&[0, -2, -2, -2]).unwrap(),
        find_order(&[0, -2, 0, -2]).unwrap(),
        find_order(&[0, 0, -2, -3]).unwrap(),
        find_order(&[-1, -1, -1, -1]).unwrap(),
        find_order(&[0, 0, 0, -4]).unwrap(),
    ];

    let valid_moves = rules::valid_moves(&orders, &tome, &player_spells, &player_stock);
    let expected_moves = [
        Move::CAST(player_spells[0].id, 1),
        Move::CAST(player_spells[2].id, 1),
        Move::CAST(player_spells[3].id, 1),
        Move::CAST(player_spells[5].id, 1),
        Move::LEARN(tome[0].id),
    ];
    assert_same_elements(valid_moves.slice(), &expected_moves);
}

#[test]
fn test_valid_moves_multicast() {
    /* Round 1 */
    let player_stock = [0, 0, 1, 2];
    let mut player_spells = [
        find_spell(&[2, 0, 0, 0]).unwrap(),
        find_spell(&[-1, 1, 0, 0]).unwrap(),
        find_spell(&[0, -1, 1, 0]).unwrap(),
        find_spell(&[0, 0, -1, 1]).unwrap(),
        find_spell(&[1, 0, 1, 0]).unwrap(),
        find_spell(&[-3, 0, 0, 1]).unwrap(),
        find_spell(&[2, 2, 0, -1]).unwrap(),
    ];
    player_spells[0].active = false;
    player_spells[1].active = false;
    player_spells[2].active = false;
    player_spells[3].active = false;
    player_spells[4].active = false;
    player_spells[5].active = false;
    let tome = [
        find_spell(&[0, 2, 0, 0]).unwrap(),
        find_spell(&[3, -2, 1, 0]).unwrap(),
        find_spell(&[0, 3, 2, -2]).unwrap(),
        find_spell(&[2, -2, 0, 1]).unwrap(),
        find_spell(&[-4, 0, 1, 1]).unwrap(),
        find_spell(&[-2, 0, -1, 2]).unwrap(),
    ];
    let orders = [
        find_order(&[0, -5, 0, 0]).unwrap(),
        find_order(&[0, -2, -2, -2]).unwrap(),
        find_order(&[0, -2, -3, 0]).unwrap(),
        find_order(&[-1, -1, -1, -1]).unwrap(),
        find_order(&[-3, 0, -2, 0]).unwrap(),
    ];

    let valid_moves = rules::valid_moves(&orders, &tome, &player_spells, &player_stock);

    let expected_moves = [
        Move::CAST(player_spells[6].id, 1),
        Move::CAST(player_spells[6].id, 2),
        Move::LEARN(tome[0].id),
        Move::REST,
    ];
    assert_same_elements(valid_moves.slice(), &expected_moves);
}
