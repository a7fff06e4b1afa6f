use std::collections::HashMap;

use codingame_bots::game::Game;
use codingame_bots::wood_spirit::cache::{Cache, SoilRichness, Tree};
use codingame_bots::wood_spirit::game::init_with_params;
use codingame_bots::wood_spirit::rules;
use codingame_bots::wood_spirit::rules::{
    gained_sun_points, get_initial_soil_richness, get_shadowed_cells, get_spookied_cells, Cell, Move,
};

fn assert_same_elements<T: PartialEq + std::fmt::Debug>(left: &[T], right: &[T]) {
    assert_eq!(left.len(), right.len(), "LEFT: {:?}, RIGHT: {:?}", left, right);
    assert!(left.iter().all(|m| right.contains(m)), "LEFT: {:?}, RIGHT: {:?}", left, right);
    assert!(right.iter().all(|m| left.contains(m)), "LEFT: {:?}, RIGHT: {:?}", left, right);
}

#[test]
fn test_cache_get_neighbor() {
    let cache = Cache::new([SoilRichness::UNUSABLE; 37]);

    assert_eq!(cache.get_neighbor(14, 1, 1), Some(4));
    assert_eq!(cache.get_neighbor(9, 2, 1), Some(23));
    assert_eq!(cache.get_neighbor(28, 3, 3), None);
    assert_eq!(cache.get_neighbor(26, 5, 1), Some(12));
    assert_eq!(cache.get_neighbor(17, 2, 3), Some(3));
    assert_eq!(cache.get_neighbor(26, 1, 2), None);
    assert_eq!(cache.get_neighbor(11, 5, 2), Some(0));
    assert_eq!(cache.get_neighbor(35, 0, 2), None);
    assert_eq!(cache.get_neighbor(5, 2, 1), Some(4));
    assert_eq!(cache.get_neighbor(2, 4, 1), Some(0));
    assert_eq!(cache.get_neighbor(34, 5, 1), None);
    assert_eq!(cache.get_neighbor(36, 0, 1), None);
    assert_eq!(cache.get_neighbor(14, 1, 3), Some(10));
    assert_eq!(cache.get_neighbor(3, 1, 1), Some(10));
    assert_eq!(cache.get_neighbor(15, 4, 3), None);
    assert_eq!(cache.get_neighbor(36, 4, 3), None);
    assert_eq!(cache.get_neighbor(3, 4, 2), Some(14));
    assert_eq!(cache.get_neighbor(7, 2, 3), Some(23));
    assert_eq!(cache.get_neighbor(27, 2, 1), None);
    assert_eq!(cache.get_neighbor(9, 1, 2), None);
}

#[test]
fn test_cache_get_seedable_neighbors_1() {
    let mut soil_richness = [SoilRichness::LOW_QUALITY; 37];
    soil_richness[10] = SoilRichness::UNUSABLE;
    soil_richness[16] = SoilRichness::UNUSABLE;
    soil_richness[20] = SoilRichness::UNUSABLE;
    soil_richness[21] = SoilRichness::UNUSABLE;
    soil_richness[25] = SoilRichness::UNUSABLE;
    soil_richness[26] = SoilRichness::UNUSABLE;
    soil_richness[29] = SoilRichness::UNUSABLE;
    soil_richness[30] = SoilRichness::UNUSABLE;
    soil_richness[34] = SoilRichness::UNUSABLE;
    soil_richness[35] = SoilRichness::UNUSABLE;

    let cache = Cache::new(soil_richness);

    assert_same_elements(&cache.get_seedable_neighbors(0, Tree::SMALL_TREE), &[1, 2, 3, 4, 5, 6]);
    assert_same_elements(&cache.get_seedable_neighbors(0, Tree::MEDIUM_TREE), &[1, 2, 3, 4, 5, 6, 7, 8, 9, 11, 12, 13, 14, 15, 17, 18]);
    assert_same_elements(&cache.get_seedable_neighbors(0, Tree::LARGE_TREE), &[
            1, 2, 3, 4, 5, 6, 7, 8, 9, 11, 12, 13, 14, 15, 17, 18, 19, 22, 23, 24, 27, 28, 31,
            32, 33, 36
        ]);

    assert_same_elements(&cache.get_seedable_neighbors(1, Tree::SMALL_TREE), &[7, 8, 2, 0, 6, 18]);
    assert_same_elements(&cache.get_seedable_neighbors(14, Tree::SMALL_TREE), &[5, 4, 13, 15]);
    assert_same_elements(&cache.get_seedable_neighbors(15, Tree::MEDIUM_TREE), &[5, 14, 31, 32, 17, 6, 0, 4, 13, 33]);
    assert_same_elements(&cache.get_seedable_neighbors(9, Tree::MEDIUM_TREE), &[22, 23, 2, 8, 24, 11, 3, 0, 1, 7]);
    assert_same_elements(&cache.get_seedable_neighbors(4, Tree::MEDIUM_TREE), &[0, 3, 12, 13, 14, 5, 1, 2, 11, 27, 28, 15, 6]);
    assert_same_elements(&cache.get_seedable_neighbors(24, Tree::LARGE_TREE), &[11, 23, 22, 9, 2, 3, 12, 8, 1, 0, 4, 13, 27]);
    assert_same_elements(&cache.get_seedable_neighbors(14, Tree::SMALL_TREE), &[15, 5, 4, 13]);
    assert_same_elements(&cache.get_seedable_neighbors(17, Tree::LARGE_TREE), &[18, 6, 33, 36, 7, 1, 0, 5, 15, 32, 19, 8, 2, 3, 4, 14, 31]);
}

#[test]
fn test_cache_get_seedable_neighbors_2() {
    let mut soil_richness = [SoilRichness::LOW_QUALITY; 37];
    soil_richness[3] = SoilRichness::UNUSABLE;
    soil_richness[6] = SoilRichness::UNUSABLE;
    soil_richness[7] = SoilRichness::UNUSABLE;
    soil_richness[13] = SoilRichness::UNUSABLE;
    soil_richness[20] = SoilRichness::UNUSABLE;
    soil_richness[24] = SoilRichness::UNUSABLE;
    soil_richness[27] = SoilRichness::UNUSABLE;
    soil_richness[29] = SoilRichness::UNUSABLE;
    soil_richness[33] = SoilRichness::UNUSABLE;
    soil_richness[36] = SoilRichness::UNUSABLE;

    let cache = Cache::new(soil_richness);

    assert_same_elements(&cache.get_seedable_neighbors(28, Tree::SMALL_TREE), &Vec::<usize>::new());
    assert_same_elements(&cache.get_seedable_neighbors(8, Tree::SMALL_TREE), &[21, 9, 2, 1]);
    assert_same_elements(&cache.get_seedable_neighbors(21, Tree::LARGE_TREE), &[22, 9, 8, 23, 10, 2, 1, 19, 11, 0, 18]);
    assert_same_elements(&cache.get_seedable_neighbors(4, Tree::MEDIUM_TREE), &[0, 12, 14, 5, 1, 2, 10, 11, 26, 28, 30, 15, 16]);
    assert_same_elements(&cache.get_seedable_neighbors(19, Tree::LARGE_TREE), &[21, 8, 1, 18, 35, 22, 9, 2, 0, 17, 34]);
    assert_same_elements(&cache.get_seedable_neighbors(32, Tree::LARGE_TREE), &[16, 15, 31, 34, 17, 5, 14, 30, 35, 18, 1, 0, 4]);
    assert_same_elements(&cache.get_seedable_neighbors(10, Tree::MEDIUM_TREE), &[9, 23, 11, 2, 21, 22, 25, 26, 12, 4, 0, 1, 8]);
    assert_same_elements(&cache.get_seedable_neighbors(16, Tree::LARGE_TREE), &[5, 15, 32, 17, 35, 18, 1, 0, 4, 14, 30, 31, 34, 8, 2, 12]);
}

#[test]
fn test_cache_get_shadowed_cells() {
    let cache = Cache::new([SoilRichness::UNUSABLE; 37]);

    assert_same_elements(&cache.get_shadowed_cells(23, Tree::MEDIUM_TREE, 16), &[10, 3]);
    assert_same_elements(&cache.get_shadowed_cells(3, Tree::SMALL_TREE, 13), &[10]);
    assert_same_elements(&cache.get_shadowed_cells(10, Tree::SMALL_TREE, 3), &[11]);
    assert_same_elements(&cache.get_shadowed_cells(5, Tree::SMALL_TREE, 6), &[6]);
    assert_same_elements(&cache.get_shadowed_cells(17, Tree::LARGE_TREE, 9), &[16, 15, 30]);
    assert_same_elements(&cache.get_shadowed_cells(27, Tree::SMALL_TREE, 2), &Vec::<usize>::new());
    assert_same_elements(&cache.get_shadowed_cells(17, Tree::LARGE_TREE, 8), &[6, 0, 3]);
    assert_same_elements(&cache.get_shadowed_cells(21, Tree::MEDIUM_TREE, 23), &[20, 19]);
    assert_same_elements(&cache.get_shadowed_cells(24, Tree::LARGE_TREE, 7), &Vec::<usize>::new());
    assert_same_elements(&cache.get_shadowed_cells(13, Tree::SMALL_TREE, 11), &[14]);
}

#[test]
fn test_get_shadowed_spookied_cells_1() {
    let cache = Cache::new(get_initial_soil_richness());
    let mut board: [Option<Cell>; 37] = [None; 37];
    let mut trees: HashMap<Tree, Vec<Vec<usize>>> = HashMap::new();
    trees.insert(Tree::SEED, vec![vec![19, 22, 10], vec![12, 28]]);
    trees.insert(Tree::SMALL_TREE, vec![vec![0, 1], vec![4, 27, 31, 34]]);
    trees.insert(Tree::MEDIUM_TREE, vec![vec![23], vec![32]]);
    trees.insert(Tree::LARGE_TREE, vec![vec![2, 36], vec![5]]);

    for tree_size in [
        Tree::SEED,
        Tree::SMALL_TREE,
        Tree::MEDIUM_TREE,
        Tree::LARGE_TREE,
    ] {
        for p_id in 0..2 {
            for tree_pos in trees.get(&tree_size).unwrap()[p_id].iter() {
                board[*tree_pos] = Some(Cell {
                    player: p_id as u8,
                    tree: tree_size,
                    is_dormant: false,
                });
            }
        }
    }

    let expected_shadowed_cells = [10, 3, 28, 0, 14, 5, 6, 15, 35, 31, 34];
    let mut expected_are_shadowed_cells = [false; 37];
    for sc in expected_shadowed_cells {
        expected_are_shadowed_cells[sc] = true;
    }

    let expected_spookied_cells = [28, 10, 0, 5, 31, 34];
    let mut expected_are_spookied_cells = [false; 37];
    for sc in expected_spookied_cells {
        expected_are_spookied_cells[sc] = true;
    }

    let day = 10;

    assert_eq!(
        get_shadowed_cells(&board, day, &cache),
        expected_are_shadowed_cells
    );

    assert_eq!(
        get_spookied_cells(&board, day, &cache),
        expected_are_spookied_cells
    );
}

#[test]
fn test_get_shadowed_spookied_cells_2() {
    let cache = Cache::new(get_initial_soil_richness());
    let mut board: [Option<Cell>; 37] = [None; 37];
    let mut trees: HashMap<Tree, Vec<Vec<usize>>> = HashMap::new();
    trees.insert(Tree::SEED, vec![vec![14, 15], vec![25, 20, 19, 21]]);
    trees.insert(
        Tree::SMALL_TREE,
        vec![vec![27, 28, 0, 30], vec![22, 23, 24, 29]],
    );
    trees.insert(Tree::MEDIUM_TREE, vec![vec![31, 32], vec![36]]);
    trees.insert(Tree::LARGE_TREE, vec![vec![2, 5, 33], vec![6, 34]]);

    for tree_size in [
        Tree::SEED,
        Tree::SMALL_TREE,
        Tree::MEDIUM_TREE,
        Tree::LARGE_TREE,
    ] {
        for p_id in 0..2 {
            for tree_pos in trees.get(&tree_size).unwrap()[p_id].iter() {
                board[*tree_pos] = Some(Cell {
                    player: p_id as u8,
                    tree: tree_size,
                    is_dormant: false,
                });
            }
        }
    }

    let expected_shadowed_cells = [10, 9, 21, 13, 1, 29, 6, 18, 30, 16, 17, 35, 31, 33, 34];
    let mut expected_are_shadowed_cells = [false; 37];
    for sc in expected_shadowed_cells {
        expected_are_shadowed_cells[sc] = true;
    }

    let expected_spookied_cells = [21, 29, 30, 33, 34];
    let mut expected_are_spookied_cells = [false; 37];
    for sc in expected_spookied_cells {
        expected_are_spookied_cells[sc] = true;
    }

    let day = 17;

    assert_eq!(
        get_shadowed_cells(&board, day, &cache),
        expected_are_shadowed_cells
    );

    assert_eq!(
        get_spookied_cells(&board, day, &cache),
        expected_are_spookied_cells
    );
}

#[test]
fn test_get_shadowed_spookied_cells_3() {
    let cache = Cache::new(get_initial_soil_richness());
    let mut board: [Option<Cell>; 37] = [None; 37];
    let mut trees: HashMap<Tree, Vec<Vec<usize>>> = HashMap::new();
    trees.insert(Tree::SEED, vec![vec![3, 4, 28, 29], vec![1, 6, 20, 35]]);
    trees.insert(Tree::SMALL_TREE, vec![vec![30], vec![21]]);
    trees.insert(Tree::MEDIUM_TREE, vec![vec![27], vec![36]]);
    trees.insert(Tree::LARGE_TREE, vec![vec![], vec![]]);

    for tree_size in [
        Tree::SEED,
        Tree::SMALL_TREE,
        Tree::MEDIUM_TREE,
        Tree::LARGE_TREE,
    ] {
        for p_id in 0..2 {
            for tree_pos in trees.get(&tree_size).unwrap()[p_id].iter() {
                board[*tree_pos] = Some(Cell {
                    player: p_id as u8,
                    tree: tree_size,
                    is_dormant: false,
                });
            }
        }
    }

    let expected_shadowed_cells = [8, 28, 35, 34];
    let mut expected_are_shadowed_cells = [false; 37];
    for sc in expected_shadowed_cells {
        expected_are_shadowed_cells[sc] = true;
    }

    let expected_spookied_cells = [28, 35];
    let mut expected_are_spookied_cells = [false; 37];
    for sc in expected_spookied_cells {
        expected_are_spookied_cells[sc] = true;
    }

    let day = 4;

    assert_eq!(
        get_shadowed_cells(&board, day, &cache),
        expected_are_shadowed_cells
    );

    assert_eq!(
        get_spookied_cells(&board, day, &cache),
        expected_are_spookied_cells
    );
}

#[test]
fn test_get_shadowed_spookied_cells_4() {
    let cache = Cache::new(get_initial_soil_richness());
    let mut board: [Option<Cell>; 37] = [None; 37];
    let mut trees: HashMap<Tree, Vec<Vec<usize>>> = HashMap::new();
    trees.insert(Tree::SEED, vec![vec![18, 16], vec![0, 28]]);
    trees.insert(Tree::SMALL_TREE, vec![vec![19], vec![26, 32]]);
    trees.insert(Tree::MEDIUM_TREE, vec![vec![23], vec![30]]);
    trees.insert(Tree::LARGE_TREE, vec![vec![21, 35, 36], vec![27, 31]]);

    for tree_size in [
        Tree::SEED,
        Tree::SMALL_TREE,
        Tree::MEDIUM_TREE,
        Tree::LARGE_TREE,
    ] {
        for p_id in 0..2 {
            for tree_pos in trees.get(&tree_size).unwrap()[p_id].iter() {
                board[*tree_pos] = Some(Cell {
                    player: p_id as u8,
                    tree: tree_size,
                    is_dormant: false,
                });
            }
        }
    }

    let expected_shadowed_cells = [24, 25, 9, 10, 11, 7, 18, 6, 5, 17, 16, 15, 31];
    let mut expected_are_shadowed_cells = [false; 37];
    for sc in expected_shadowed_cells {
        expected_are_shadowed_cells[sc] = true;
    }

    let expected_spookied_cells = [18, 16];
    let mut expected_are_spookied_cells = [false; 37];
    for sc in expected_spookied_cells {
        expected_are_spookied_cells[sc] = true;
    }

    let day = 21;

    assert_eq!(
        get_shadowed_cells(&board, day, &cache),
        expected_are_shadowed_cells
    );

    assert_eq!(
        get_spookied_cells(&board, day, &cache),
        expected_are_spookied_cells
    );
}

#[test]
fn test_get_shadowed_spookied_cells_5() {
    let cache = Cache::new(get_initial_soil_richness());
    let mut board: [Option<Cell>; 37] = [None; 37];
    let mut trees: HashMap<Tree, Vec<Vec<usize>>> = HashMap::new();
    trees.insert(Tree::SEED, vec![vec![14, 18, 36, 15], vec![24, 23, 27]]);
    trees.insert(Tree::SMALL_TREE, vec![vec![30, 32, 33], vec![22]]);
    trees.insert(Tree::MEDIUM_TREE, vec![vec![31, 34], vec![25, 4, 1]]);
    trees.insert(Tree::LARGE_TREE, vec![vec![6], vec![3, 0]]);

    for tree_size in [
        Tree::SEED,
        Tree::SMALL_TREE,
        Tree::MEDIUM_TREE,
        Tree::LARGE_TREE,
    ] {
        for p_id in 0..2 {
            for tree_pos in trees.get(&tree_size).unwrap()[p_id].iter() {
                board[*tree_pos] = Some(Cell {
                    player: p_id as u8,
                    tree: tree_size,
                    is_dormant: false,
                });
            }
        }
    }

    let expected_shadowed_cells = [23, 22, 10, 9, 21, 3, 2, 8, 1, 14, 5, 36, 15, 16, 17, 35];
    let mut expected_are_shadowed_cells = [false; 37];
    for sc in expected_shadowed_cells {
        expected_are_shadowed_cells[sc] = true;
    }

    let expected_spookied_cells = [23, 22, 1, 14, 36, 15];
    let mut expected_are_spookied_cells = [false; 37];
    for sc in expected_spookied_cells {
        expected_are_spookied_cells[sc] = true;
    }

    let day = 13;

    assert_eq!(
        get_shadowed_cells(&board, day, &cache),
        expected_are_shadowed_cells
    );

    assert_eq!(
        get_spookied_cells(&board, day, &cache),
        expected_are_spookied_cells
    );
}

#[test]
fn test_gained_sun_points_1() {
    let cache = Cache::new(get_initial_soil_richness());
    let mut board: [Option<Cell>; 37] = [None; 37];
    let mut trees: HashMap<Tree, Vec<Vec<usize>>> = HashMap::new();
    trees.insert(Tree::SEED, vec![vec![24, 26, 0, 5, 29], vec![20, 33, 35]]);
    trees.insert(Tree::SMALL_TREE, vec![vec![3, 4, 28], vec![34, 6, 2]]);
    trees.insert(Tree::MEDIUM_TREE, vec![vec![25], vec![1, 19]]);
    trees.insert(Tree::LARGE_TREE, vec![vec![], vec![]]);

    for tree_size in [
        Tree::SEED,
        Tree::SMALL_TREE,
        Tree::MEDIUM_TREE,
        Tree::LARGE_TREE,
    ] {
        for p_id in 0..2 {
            for tree_pos in trees.get(&tree_size).unwrap()[p_id].iter() {
                board[*tree_pos] = Some(Cell {
                    player: p_id as u8,
                    tree: tree_size,
                    is_dormant: false,
                });
            }
        }
    }

    let day = 8;
    let spookied_cells = get_spookied_cells(&board, day, &cache);

    assert_eq!(gained_sun_points(&board, &spookied_cells), [5, 6]);
}

#[test]
fn test_gained_sun_points_2() {
    let cache = Cache::new(get_initial_soil_richness());
    let mut board: [Option<Cell>; 37] = [None; 37];
    let mut trees: HashMap<Tree, Vec<Vec<usize>>> = HashMap::new();
    trees.insert(Tree::SEED, vec![vec![25, 23, 27], vec![18, 19]]);
    trees.insert(Tree::SMALL_TREE, vec![vec![0], vec![5, 6, 20]]);
    trees.insert(
        Tree::MEDIUM_TREE,
        vec![vec![24, 3, 2, 28, 29], vec![32, 33, 34]],
    );
    trees.insert(Tree::LARGE_TREE, vec![vec![31], vec![36]]);

    for tree_size in [
        Tree::SEED,
        Tree::SMALL_TREE,
        Tree::MEDIUM_TREE,
        Tree::LARGE_TREE,
    ] {
        for p_id in 0..2 {
            for tree_pos in trees.get(&tree_size).unwrap()[p_id].iter() {
                board[*tree_pos] = Some(Cell {
                    player: p_id as u8,
                    tree: tree_size,
                    is_dormant: false,
                });
            }
        }
    }

    let day = 13;
    let spookied_cells = get_spookied_cells(&board, day, &cache);

    assert_eq!(gained_sun_points(&board, &spookied_cells), [13, 10]);
}

#[test]
fn test_gained_sun_points_3() {
    let cache = Cache::new(get_initial_soil_richness());
    let mut board: [Option<Cell>; 37] = [None; 37];
    let mut trees: HashMap<Tree, Vec<Vec<usize>>> = HashMap::new();
    trees.insert(Tree::SEED, vec![vec![23, 24], vec![26, 28, 32]]);
    trees.insert(Tree::SMALL_TREE, vec![vec![35], vec![27, 33]]);
    trees.insert(Tree::MEDIUM_TREE, vec![vec![22, 36], vec![31]]);
    trees.insert(Tree::LARGE_TREE, vec![vec![], vec![]]);

    for tree_size in [
        Tree::SEED,
        Tree::SMALL_TREE,
        Tree::MEDIUM_TREE,
        Tree::LARGE_TREE,
    ] {
        for p_id in 0..2 {
            for tree_pos in trees.get(&tree_size).unwrap()[p_id].iter() {
                board[*tree_pos] = Some(Cell {
                    player: p_id as u8,
                    tree: tree_size,
                    is_dormant: false,
                });
            }
        }
    }

    let day = 4;
    let spookied_cells = get_spookied_cells(&board, day, &cache);

    assert_eq!(gained_sun_points(&board, &spookied_cells), [4, 4]);
}

#[test]
fn test_valid_moves_1() {
    let mut soil_sichness = get_initial_soil_richness();
    soil_sichness[10] = SoilRichness::UNUSABLE;
    soil_sichness[16] = SoilRichness::UNUSABLE;
    let cache = Cache::new(soil_sichness);

    let mut board: [Option<Cell>; 37] = [None; 37];
    let mut trees: HashMap<Tree, Vec<Vec<usize>>> = HashMap::new();
    trees.insert(Tree::SEED, vec![vec![], vec![]]);
    trees.insert(Tree::SMALL_TREE, vec![vec![27, 32], vec![23, 36]]);
    trees.insert(Tree::MEDIUM_TREE, vec![vec![], vec![]]);
    trees.insert(Tree::LARGE_TREE, vec![vec![], vec![]]);

    for tree_size in [
        Tree::SEED,
        Tree::SMALL_TREE,
        Tree::MEDIUM_TREE,
        Tree::LARGE_TREE,
    ] {
        for p_id in 0..2 {
            for tree_pos in trees.get(&tree_size).unwrap()[p_id].iter() {
                board[*tree_pos] = Some(Cell {
                    player: p_id as u8,
                    tree: tree_size,
                    is_dormant: false,
                });
            }
        }
    }

    let p_id = 0;
    let p_sun = 2;
    let p_seed_count = 0;
    let p_small_tree_count = 2;
    let p_medium_tree_count = 0;
    let p_large_tree_count = 0;
    let p_is_asleep = false;

    let expected_moves = [
        Move::WAIT,
        Move::SEED(27, 26),
        Move::SEED(27, 13),
        Move::SEED(32, 15),
        Move::SEED(27, 12),
        Move::SEED(32, 31),
        Move::SEED(27, 28),
        Move::SEED(32, 33),
    ];

    assert_same_elements(&rules::valid_moves(
            &board,
            p_id,
            p_sun,
            p_seed_count,
            p_small_tree_count,
            p_medium_tree_count,
            p_large_tree_count,
            p_is_asleep,
            &cache
        ), &expected_moves);
}

#[test]
fn test_valid_moves_2() {
    let mut soil_sichness = get_initial_soil_richness();
    soil_sichness[10] = SoilRichness::UNUSABLE;
    soil_sichness[16] = SoilRichness::UNUSABLE;
    let cache = Cache::new(soil_sichness);

    let mut board: [Option<Cell>; 37] = [None; 37];
    let mut trees: HashMap<Tree, Vec<Vec<usize>>> = HashMap::new();
    trees.insert(
        Tree::SEED,
        vec![vec![24, 12, 29, 7], vec![3, 4, 35, 36, 32]],
    );
    trees.insert(Tree::SMALL_TREE, vec![vec![27, 28, 13, 23], vec![31]]);
    trees.insert(Tree::MEDIUM_TREE, vec![vec![2, 20], vec![0, 6, 19]]);
    trees.insert(Tree::LARGE_TREE, vec![vec![], vec![1, 5]]);

    for tree_size in [
        Tree::SEED,
        Tree::SMALL_TREE,
        Tree::MEDIUM_TREE,
        Tree::LARGE_TREE,
    ] {
        for p_id in 0..2 {
            for tree_pos in trees.get(&tree_size).unwrap()[p_id].iter() {
                board[*tree_pos] = Some(Cell {
                    player: p_id as u8,
                    tree: tree_size,
                    is_dormant: false,
                });
            }
        }
    }

    let p_id = 0;
    let p_sun = 0;
    let p_seed_count = 5;
    let p_small_tree_count = 4;
    let p_medium_tree_count = 2;
    let p_large_tree_count = 0;
    let p_is_asleep = false;

    let expected_moves = [Move::WAIT];

    assert_same_elements(&rules::valid_moves(
            &board,
            p_id,
            p_sun,
            p_seed_count,
            p_small_tree_count,
            p_medium_tree_count,
            p_large_tree_count,
            p_is_asleep,
            &cache
        ), &expected_moves);
}

#[test]
fn test_valid_moves_3() {
    let mut soil_sichness = get_initial_soil_richness();
    soil_sichness[24] = SoilRichness::UNUSABLE;
    soil_sichness[33] = SoilRichness::UNUSABLE;
    let cache = Cache::new(soil_sichness);

    let mut board: [Option<Cell>; 37] = [None; 37];
    let mut trees: HashMap<Tree, Vec<Vec<usize>>> = HashMap::new();
    trees.insert(
        Tree::SEED,
        vec![vec![10, 14, 5, 15, 31, 35], vec![0, 2, 6, 7, 8, 36]],
    );
    trees.insert(Tree::SMALL_TREE, vec![vec![27, 11, 3], vec![26, 25, 1, 18]]);
    trees.insert(Tree::MEDIUM_TREE, vec![vec![28, 13, 12, 29, 34], vec![19]]);
    trees.insert(Tree::LARGE_TREE, vec![vec![], vec![17]]);

    for tree_size in [
        Tree::SEED,
        Tree::SMALL_TREE,
        Tree::MEDIUM_TREE,
        Tree::LARGE_TREE,
    ] {
        for p_id in 0..2 {
            for tree_pos in trees.get(&tree_size).unwrap()[p_id].iter() {
                board[*tree_pos] = Some(Cell {
                    player: p_id as u8,
                    tree: tree_size,
                    is_dormant: false,
                });
            }
        }
    }

    let p_id = 1;
    let p_sun = 11;
    let p_seed_count = 6;
    let p_small_tree_count = 4;
    let p_medium_tree_count = 1;
    let p_large_tree_count = 1;
    let p_is_asleep = false;

    let expected_moves = [
        Move::WAIT,
        Move::COMPLETE(17),
        Move::GROW(26),
        Move::GROW(18),
        Move::GROW(7),
        Move::GROW(36),
        Move::GROW(25),
        Move::GROW(2),
        Move::GROW(8),
        Move::GROW(1),
        Move::GROW(19),
        Move::GROW(0),
        Move::GROW(6),
        Move::SEED(17, 4),
        Move::SEED(17, 20),
        Move::SEED(19, 20),
        Move::SEED(19, 21),
        Move::SEED(17, 32),
        Move::SEED(17, 30),
        Move::SEED(17, 16),
    ];

    assert_same_elements(&rules::valid_moves(
            &board,
            p_id,
            p_sun,
            p_seed_count,
            p_small_tree_count,
            p_medium_tree_count,
            p_large_tree_count,
            p_is_asleep,
            &cache
        ), &expected_moves);
}

#[test]
fn test_valid_moves_4() {
    let mut soil_sichness = get_initial_soil_richness();
    let cache = Cache::new(soil_sichness);

    let mut board: [Option<Cell>; 37] = [None; 37];
    let mut trees: HashMap<Tree, Vec<Vec<usize>>> = HashMap::new();
    trees.insert(
        Tree::SEED,
        vec![vec![1, 13, 19, 36, 17, 33, 34], vec![24, 10, 8, 28, 5, 31]],
    );
    trees.insert(Tree::SMALL_TREE, vec![vec![14, 7], vec![23, 22, 30]]);
    trees.insert(Tree::MEDIUM_TREE, vec![vec![15, 32, 20], vec![29, 9, 21]]);
    trees.insert(Tree::LARGE_TREE, vec![vec![], vec![]]);

    let mut dormant: [bool; 37] = [false; 37];
    dormant[9] = true;
    dormant[13] = true;
    dormant[14] = true;
    dormant[30] = true;
    dormant[15] = true;

    for tree_size in [
        Tree::SEED,
        Tree::SMALL_TREE,
        Tree::MEDIUM_TREE,
        Tree::LARGE_TREE,
    ] {
        for p_id in 0..2 {
            for tree_pos in trees.get(&tree_size).unwrap()[p_id].iter() {
                board[*tree_pos] = Some(Cell {
                    player: p_id as u8,
                    tree: tree_size,
                    is_dormant: dormant[*tree_pos],
                });
            }
        }
    }

    let p_id = 0;
    let p_sun = 4;
    let p_seed_count = 7;
    let p_small_tree_count = 2;
    let p_medium_tree_count = 3;
    let p_large_tree_count = 0;
    let p_is_asleep = false;

    let expected_moves = [
        Move::WAIT,
        Move::GROW(17),
        Move::GROW(19),
        Move::GROW(34),
        Move::GROW(33),
        Move::GROW(36),
        Move::GROW(1),
    ];

    assert_same_elements(&rules::valid_moves(
            &board,
            p_id,
            p_sun,
            p_seed_count,
            p_small_tree_count,
            p_medium_tree_count,
            p_large_tree_count,
            p_is_asleep,
            &cache
        ), &expected_moves);
}

#[test]
fn test_cells_are_dormant_after_both_players_seed() {
    let players_initial_small_trees = [[21, 32], [20, 35]];
    let invalid_cells = [12, 8, 14, 16];

    let mut game = init_with_params(&players_initial_small_trees, &invalid_cells);
    game.play("SEED 21 9".to_string());
    game.play("SEED 20 7".to_string());

    assert_eq!(game.board[9].unwrap().tree, Tree::SEED);
    assert_eq!(game.board[7].unwrap().tree, Tree::SEED);
    assert_eq!(game.board[21].unwrap().is_dormant, true);
    assert_eq!(game.board[9].unwrap().is_dormant, true);
    assert_eq!(game.board[20].unwrap().is_dormant, true);
    assert_eq!(game.board[7].unwrap().is_dormant, true);
    assert_eq!(game.players[0].seed_count, 1);
    assert_eq!(game.players[1].seed_count, 1);
}

#[test]
fn test_players_seed_the_same_cell() {
    let players_initial_small_trees = [[29, 30], [27, 26]];
    let invalid_cells = [];

    let mut game = init_with_params(&players_initial_small_trees, &invalid_cells);
    game.play("SEED 29 13".to_string());
    game.play("SEED 27 13".to_string());

    assert!(game.board[13].is_none());
    assert_eq!(game.board[29].unwrap().is_dormant, true);
    assert_eq!(game.board[27].unwrap().is_dormant, true);
    assert_eq!(game.players[0].seed_count, 0);
    assert_eq!(game.players[1].seed_count, 0);
    assert_eq!(game.players[0].sun, 2);
    assert_eq!(game.players[1].sun, 2);
}
