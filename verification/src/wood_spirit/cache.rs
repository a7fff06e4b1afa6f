//! The hexagonal board of the forest game: the cells, their neighbours in
//! the six directions, where a tree can drop a seed and which cells its
//! shadow covers.
use vstd::prelude::*;
use std::collections::HashSet;

verus! {

/// The growth stage of a tree.
#[allow(non_camel_case_types)]
#[derive(Clone, Copy, PartialEq, Eq, Hash, Debug, Structural)]
pub enum Tree {
    SEED,
    SMALL_TREE,
    MEDIUM_TREE,
    LARGE_TREE,
}

/// How rich the soil of a cell is; nothing grows on unusable cells.
#[allow(non_camel_case_types)]
#[derive(Clone, Copy, PartialEq, Eq, Debug, Structural)]
pub enum SoilRichness {
    UNUSABLE,
    LOW_QUALITY,
    MEDIUM_QUALITY,
    HIGH_QUALITY,
}

/// The size of a tree: 0 for a seed up to 3 for a large tree.
pub open spec fn size(t: Tree) -> int {
    match t {
        Tree::SEED => 0,
        Tree::SMALL_TREE => 1,
        Tree::MEDIUM_TREE => 2,
        Tree::LARGE_TREE => 3,
    }
}

pub fn tree_size(t: Tree) -> (s: usize)
    ensures
        s == size(t),
{
    match t {
        Tree::SEED => 0,
        Tree::SMALL_TREE => 1,
        Tree::MEDIUM_TREE => 2,
        Tree::LARGE_TREE => 3,
    }
}

/// The adjacent cell of each of the 37 cells in each of the six directions,
/// six entries per cell, -1 where the board ends (every other entry is a
/// cell).
pub open spec fn neighbor_table() -> Seq<i8> {
    seq![
        1i8, 2i8, 3i8, 4i8, 5i8, 6i8, 7i8, 8i8, 2i8, 0i8, 6i8, 18i8,
        8i8, 9i8, 10i8, 3i8, 0i8, 1i8, 2i8, 10i8, 11i8, 12i8, 4i8, 0i8,
        0i8, 3i8, 12i8, 13i8, 14i8, 5i8, 6i8, 0i8, 4i8, 14i8, 15i8, 16i8,
        18i8, 1i8, 0i8, 5i8, 16i8, 17i8, 19i8, 20i8, 8i8, 1i8, 18i8, 36i8,
        20i8, 21i8, 9i8, 2i8, 1i8, 7i8, 21i8, 22i8, 23i8, 10i8, 2i8, 8i8,
        9i8, 23i8, 24i8, 11i8, 3i8, 2i8, 10i8, 24i8, 25i8, 26i8, 12i8, 3i8,
        3i8, 11i8, 26i8, 27i8, 13i8, 4i8, 4i8, 12i8, 27i8, 28i8, 29i8, 14i8,
        5i8, 4i8, 13i8, 29i8, 30i8, 15i8, 16i8, 5i8, 14i8, 30i8, 31i8, 32i8,
        17i8, 6i8, 5i8, 15i8, 32i8, 33i8, 35i8, 18i8, 6i8, 16i8, 33i8, 34i8,
        36i8, 7i8, 1i8, 6i8, 17i8, 35i8, -1i8, -1i8, 20i8, 7i8, 36i8, -1i8,
        -1i8, -1i8, 21i8, 8i8, 7i8, 19i8, -1i8, -1i8, 22i8, 9i8, 8i8, 20i8,
        -1i8, -1i8, -1i8, 23i8, 9i8, 21i8, 22i8, -1i8, -1i8, 24i8, 10i8, 9i8,
        23i8, -1i8, -1i8, 25i8, 11i8, 10i8, 24i8, -1i8, -1i8, -1i8, 26i8, 11i8,
        11i8, 25i8, -1i8, -1i8, 27i8, 12i8, 12i8, 26i8, -1i8, -1i8, 28i8, 13i8,
        13i8, 27i8, -1i8, -1i8, -1i8, 29i8, 14i8, 13i8, 28i8, -1i8, -1i8, 30i8,
        15i8, 14i8, 29i8, -1i8, -1i8, 31i8, 32i8, 15i8, 30i8, -1i8, -1i8, -1i8,
        33i8, 16i8, 15i8, 31i8, -1i8, -1i8, 34i8, 17i8, 16i8, 32i8, -1i8, -1i8,
        -1i8, 35i8, 17i8, 33i8, -1i8, -1i8, -1i8, 36i8, 18i8, 17i8, 34i8, -1i8,
        -1i8, 19i8, 7i8, 18i8, 35i8, -1i8,
    ]
}

/// The adjacent cell of `c` in direction `d`.
pub open spec fn step(c: int, d: int) -> Option<int> {
    let n = neighbor_table()[6 * c + d];
    if 0 <= n < 37 {
        Some(n as int)
    } else {
        None
    }
}

/// The cell `k` steps away from `c` in direction `d`, if still on the board.
pub open spec fn walk(c: int, d: int, k: nat) -> Option<int>
    decreases k,
{
    if k == 0 {
        Some(c)
    } else {
        match walk(c, d, (k - 1) as nat) {
            Some(x) => step(x, d),
            None => None,
        }
    }
}

pub open spec fn opt_usize(o: Option<int>) -> Option<usize> {
    match o {
        Some(x) => Some(x as usize),
        None => None,
    }
}

pub open spec fn is_cell(c: int) -> bool {
    0 <= c < 37
}

/// Steps and walks from a cell stay on the board.
pub proof fn lemma_step_on_board(c: int, d: int)
    requires
        is_cell(c),
        0 <= d < 6,
    ensures
        step(c, d) matches Some(n) ==> is_cell(n),
{
}

pub proof fn lemma_walk_on_board(c: int, d: int, k: nat)
    requires
        is_cell(c),
        0 <= d < 6,
    ensures
        walk(c, d, k) matches Some(n) ==> is_cell(n),
    decreases k,
{
    if k > 0 {
        lemma_walk_on_board(c, d, (k - 1) as nat);
        if let Some(x) = walk(c, d, (k - 1) as nat) {
            lemma_step_on_board(x, d);
        }
    }
}

fn neighbor_vec() -> (t: Vec<i8>)
    ensures
        t@ == neighbor_table(),
{
    let t: Vec<i8> = vec![
        1, 2, 3, 4, 5, 6, 7, 8, 2, 0, 6, 18,
        8, 9, 10, 3, 0, 1, 2, 10, 11, 12, 4, 0,
        0, 3, 12, 13, 14, 5, 6, 0, 4, 14, 15, 16,
        18, 1, 0, 5, 16, 17, 19, 20, 8, 1, 18, 36,
        20, 21, 9, 2, 1, 7, 21, 22, 23, 10, 2, 8,
        9, 23, 24, 11, 3, 2, 10, 24, 25, 26, 12, 3,
        3, 11, 26, 27, 13, 4, 4, 12, 27, 28, 29, 14,
        5, 4, 13, 29, 30, 15, 16, 5, 14, 30, 31, 32,
        17, 6, 5, 15, 32, 33, 35, 18, 6, 16, 33, 34,
        36, 7, 1, 6, 17, 35, -1, -1, 20, 7, 36, -1,
        -1, -1, 21, 8, 7, 19, -1, -1, 22, 9, 8, 20,
        -1, -1, -1, 23, 9, 21, 22, -1, -1, 24, 10, 9,
        23, -1, -1, 25, 11, 10, 24, -1, -1, -1, 26, 11,
        11, 25, -1, -1, 27, 12, 12, 26, -1, -1, 28, 13,
        13, 27, -1, -1, -1, 29, 14, 13, 28, -1, -1, 30,
        15, 14, 29, -1, -1, 31, 32, 15, 30, -1, -1, -1,
        33, 16, 15, 31, -1, -1, 34, 17, 16, 32, -1, -1,
        -1, 35, 17, 33, -1, -1, -1, 36, 18, 17, 34, -1,
        -1, 19, 7, 18, 35, -1,
    ];
    assert(t@ =~= neighbor_table());
    t
}

/// The entries for one cell and direction: the cells 1, 2 and 3 steps away.
pub open spec fn distances_ok(r: Seq<Option<usize>>, c: int, d: int) -> bool {
    &&& r.len() == 3
    &&& forall|k: int| 0 <= k < 3 ==> #[trigger] r[k] == opt_usize(walk(c, d, (k + 1) as nat))
}

pub open spec fn directions_ok(r: Seq<Vec<Option<usize>>>, c: int) -> bool {
    &&& r.len() == 6
    &&& forall|d: int| 0 <= d < 6 ==> distances_ok(#[trigger] r[d]@, c, d)
}

/// For each cell, each direction and each distance from 1 to 3, the cell
/// that far away in that direction.
pub open spec fn neighbors_ok(r: Seq<Vec<Vec<Option<usize>>>>) -> bool {
    &&& r.len() == 37
    &&& forall|c: int| 0 <= c < 37 ==> directions_ok(#[trigger] r[c]@, c)
}

/// The cell `k` steps away from `c` in direction `d`.
fn walk_from(table: &Vec<i8>, c: usize, d: usize, k: usize) -> (r: Option<usize>)
    requires
        table@ == neighbor_table(),
        c < 37,
        d < 6,
    ensures
        r == opt_usize(walk(c as int, d as int, k as nat)),
        r matches Some(x) ==> x < 37,
{
    let mut cur: Option<usize> = Some(c);
    let mut i: usize = 0;
    while i < k
        invariant
            i <= k,
            d < 6,
            table@ == neighbor_table(),
            cur == opt_usize(walk(c as int, d as int, i as nat)),
            walk(c as int, d as int, i as nat) matches Some(x) ==> is_cell(x),
        decreases k - i,
    {
        if let Some(x) = cur {
            let t = table[6 * x + d];
            cur = if 0 <= t && t < 37 {
                Some(t as usize)
            } else {
                None
            };
        }
        i += 1;
    }
    cur
}

fn init_cell_neighbors() -> (r: Vec<Vec<Vec<Option<usize>>>>)
    ensures
        neighbors_ok(r@),
{
    let table = neighbor_vec();
    let mut cell_neighbors: Vec<Vec<Vec<Option<usize>>>> = Vec::new();
    let mut c: usize = 0;
    while c < 37
        invariant
            c <= 37,
            table@ == neighbor_table(),
            cell_neighbors@.len() == c,
            forall|x: int| 0 <= x < c ==> directions_ok(#[trigger] cell_neighbors@[x]@, x),
        decreases 37 - c,
    {
        let mut dirs: Vec<Vec<Option<usize>>> = Vec::new();
        let mut d: usize = 0;
        while d < 6
            invariant
                c < 37,
                d <= 6,
                table@ == neighbor_table(),
                dirs@.len() == d,
                forall|y: int| 0 <= y < d ==> distances_ok(#[trigger] dirs@[y]@, c as int, y),
            decreases 6 - d,
        {
            let mut dists: Vec<Option<usize>> = Vec::new();
            let mut k: usize = 0;
            while k < 3
                invariant
                    c < 37,
                    d < 6,
                    k <= 3,
                    table@ == neighbor_table(),
                    dists@.len() == k,
                    forall|z: int| 0 <= z < k ==> #[trigger] dists@[z] == opt_usize(walk(c as int, d as int, (z + 1) as nat)),
                decreases 3 - k,
            {
                dists.push(walk_from(&table, c, d, k + 1));
                k += 1;
            }
            dirs.push(dists);
            d += 1;
        }
        cell_neighbors.push(dirs);
        c += 1;
    }
    cell_neighbors
}

/// The cells reached from `c` in exactly `k` steps, each step in any of the
/// six directions.
pub open spec fn reach(c: int, k: nat) -> Set<int>
    decreases k,
{
    if k == 0 {
        set![c]
    } else {
        Set::new(
            |n: int|
                exists|m: int, d: int|
                    #![trigger reach(c, (k - 1) as nat).contains(m), step(m, d)]
                    reach(c, (k - 1) as nat).contains(m) && 0 <= d < 6 && step(m, d) == Some(n),
        )
    }
}

pub open spec fn usable(soil: Seq<SoilRichness>, n: int) -> bool {
    soil[n] != SoilRichness::UNUSABLE
}

/// Where a tree of size `s` on cell `c` can drop a seed: the usable cells,
/// other than `c`, that are reached from `c` in 1 to `s` steps.
pub open spec fn seedable(c: int, s: int, soil: Seq<SoilRichness>) -> Set<int> {
    Set::new(
        |n: int|
            n != c && usable(soil, n) && exists|k: nat| 1 <= k <= s && #[trigger] reach(c, k).contains(n),
    )
}

pub proof fn lemma_reach_cells(c: int, k: nat)
    requires
        is_cell(c),
    ensures
        forall|n: int| #[trigger] reach(c, k).contains(n) ==> is_cell(n),
    decreases k,
{
    if k > 0 {
        lemma_reach_cells(c, (k - 1) as nat);
    }
}

/// Some entry before `(i, dir)` of the visited cells steps onto `n`.
spec fn stepped_onto(vis: Seq<usize>, i: int, dir: int, n: int) -> bool {
    exists|j: int, d: int|
        #![trigger vis[j], step(vis[j] as int, d)]
        0 <= j < vis.len() && 0 <= d < 6 && (j < i || (j == i && d < dir)) && step(vis[j] as int, d) == Some(n)
}

spec fn seeded_within(c: int, lv: int, soil: Seq<SoilRichness>, n: int) -> bool {
    usable(soil, n) && exists|k: nat| 1 <= k <= lv && #[trigger] reach(c, k).contains(n)
}

proof fn lemma_stepped_next(vis: Seq<usize>, i: int, dir: int, m: int)
    requires
        0 <= i < vis.len(),
        0 <= dir < 6,
    ensures
        stepped_onto(vis, i, dir + 1, m) <==> (stepped_onto(vis, i, dir, m) || step(vis[i] as int, dir) == Some(m)),
{
    if stepped_onto(vis, i, dir + 1, m) && step(vis[i] as int, dir) != Some(m) {
        let (j, d) = choose|j: int, d: int|
            #![trigger vis[j], step(vis[j] as int, d)]
            0 <= j < vis.len() && 0 <= d < 6 && (j < i || (j == i && d < dir + 1)) && step(vis[j] as int, d) == Some(m);
        assert(stepped_onto(vis, i, dir, m));
    }
    if step(vis[i] as int, dir) == Some(m) {
        assert(stepped_onto(vis, i, dir + 1, m));
    }
    if stepped_onto(vis, i, dir, m) {
        let (j, d) = choose|j: int, d: int|
            #![trigger vis[j], step(vis[j] as int, d)]
            0 <= j < vis.len() && 0 <= d < 6 && (j < i || (j == i && d < dir)) && step(vis[j] as int, d) == Some(m);
        assert(stepped_onto(vis, i, dir + 1, m));
    }
}

proof fn lemma_stepped_row(vis: Seq<usize>, i: int, m: int)
    ensures
        stepped_onto(vis, i + 1, 0, m) <==> stepped_onto(vis, i, 6, m),
{
    if stepped_onto(vis, i + 1, 0, m) {
        let (j, d) = choose|j: int, d: int|
            #![trigger vis[j], step(vis[j] as int, d)]
            0 <= j < vis.len() && 0 <= d < 6 && (j < i + 1 || (j == i + 1 && d < 0)) && step(vis[j] as int, d) == Some(m);
        assert(stepped_onto(vis, i, 6, m));
    }
    if stepped_onto(vis, i, 6, m) {
        let (j, d) = choose|j: int, d: int|
            #![trigger vis[j], step(vis[j] as int, d)]
            0 <= j < vis.len() && 0 <= d < 6 && (j < i || (j == i && d < 6)) && step(vis[j] as int, d) == Some(m);
        assert(stepped_onto(vis, i + 1, 0, m));
    }
}

/// The cells of `s`, each once.
fn members(s: &HashSet<usize>) -> (v: Vec<usize>)
    requires
        forall|x: usize| #[trigger] s@.contains(x) ==> x < 37,
    ensures
        forall|x: usize| #[trigger] v@.contains(x) <==> s@.contains(x),
        v@.no_duplicates(),
{
    let mut v: Vec<usize> = Vec::new();
    let mut n: usize = 0;
    while n < 37
        invariant
            n <= 37,
            forall|x: usize| #[trigger] s@.contains(x) ==> x < 37,
            forall|x: usize| #[trigger] v@.contains(x) <==> (x < n && s@.contains(x)),
            forall|j: int| 0 <= j < v@.len() ==> #[trigger] v@[j] < n,
            v@.no_duplicates(),
        decreases 37 - n,
    {
        if s.contains(&n) {
            let ghost before = v@;
            v.push(n);
            assert forall|x: usize| #[trigger] v@.contains(x) <==> (x < n + 1 && s@.contains(x)) by {
                vstd::seq_lib::lemma_seq_contains_after_push(before, n, x);
            }
        } else {
            assert forall|x: usize| #[trigger] v@.contains(x) <==> (x < n + 1 && s@.contains(x)) by {
                if v@.contains(x) {
                    let j = choose|j: int| 0 <= j < v@.len() && v@[j] == x;
                    assert(v@[j] < n);
                }
            }
        }
        n += 1;
    }
    v
}

/// The cells where a tree of size `tree_size` on cell `c` can drop a seed.
fn seedable_list(cell_neighbors: &Vec<Vec<Vec<Option<usize>>>>, soil: &[SoilRichness; 37], c: usize, tree_size: usize) -> (v: Vec<usize>)
    requires
        neighbors_ok(cell_neighbors@),
        c < 37,
        1 <= tree_size <= 3,
    ensures
        forall|n: usize| #[trigger] v@.contains(n) <==> seedable(c as int, tree_size as int, soil@).contains(n as int),
        v@.no_duplicates(),
{
    let mut result: HashSet<usize> = HashSet::new();
    let mut visited: Vec<usize> = Vec::new();
    visited.push(c);
    proof {
        assert forall|n: usize| #[trigger] visited@.contains(n) <==> reach(c as int, 0).contains(n as int) by {
            if n == c {
                assert(visited@[0] == c);
            }
        }
    }
    let mut level: usize = 1;
    while level <= tree_size
        invariant
            neighbors_ok(cell_neighbors@),
            c < 37,
            1 <= level <= tree_size + 1,
            tree_size <= 3,
            forall|j: int| 0 <= j < visited@.len() ==> #[trigger] visited@[j] < 37,
            forall|n: usize| #[trigger] visited@.contains(n) <==> reach(c as int, (level - 1) as nat).contains(n as int),
            forall|n: usize| #[trigger] result@.contains(n) <==> seeded_within(c as int, level - 1, soil@, n as int),
            forall|n: usize| #[trigger] result@.contains(n) ==> n < 37,
        decreases tree_size + 1 - level,
    {
        let mut visited_new: Vec<usize> = Vec::new();
        let mut i: usize = 0;
        while i < visited.len()
            invariant
                neighbors_ok(cell_neighbors@),
                c < 37,
                1 <= level <= tree_size <= 3,
                i <= visited@.len(),
                forall|j: int| 0 <= j < visited@.len() ==> #[trigger] visited@[j] < 37,
                forall|j: int| 0 <= j < visited_new@.len() ==> #[trigger] visited_new@[j] < 37,
                forall|n: usize| #[trigger] visited_new@.contains(n) <==> stepped_onto(visited@, i as int, 0, n as int),
                forall|n: usize| #[trigger] result@.contains(n) <==> (seeded_within(c as int, level - 1, soil@, n as int)
                    || (usable(soil@, n as int) && stepped_onto(visited@, i as int, 0, n as int))),
                forall|n: usize| #[trigger] result@.contains(n) ==> n < 37,
            decreases visited@.len() - i,
        {
            let x = visited[i];
            let mut dir: usize = 0;
            while dir < 6
                invariant
                    neighbors_ok(cell_neighbors@),
                    c < 37,
                    1 <= level <= tree_size <= 3,
                    i < visited@.len(),
                    x == visited@[i as int],
                    x < 37,
                    dir <= 6,
                    forall|j: int| 0 <= j < visited@.len() ==> #[trigger] visited@[j] < 37,
                    forall|j: int| 0 <= j < visited_new@.len() ==> #[trigger] visited_new@[j] < 37,
                    forall|n: usize| #[trigger] visited_new@.contains(n) <==> stepped_onto(visited@, i as int, dir as int, n as int),
                    forall|n: usize| #[trigger] result@.contains(n) <==> (seeded_within(c as int, level - 1, soil@, n as int)
                        || (usable(soil@, n as int) && stepped_onto(visited@, i as int, dir as int, n as int))),
                    forall|n: usize| #[trigger] result@.contains(n) ==> n < 37,
                decreases 6 - dir,
            {
                assert(distances_ok(cell_neighbors@[x as int]@[dir as int]@, x as int, dir as int));
                assert(walk(x as int, dir as int, 1) == step(x as int, dir as int)) by {
                    reveal_with_fuel(walk, 2);
                }
                let neighbor = cell_neighbors[x][dir][0];
                let ghost vn = visited_new@;
                if let Some(n) = neighbor {
                    if soil[n] != SoilRichness::UNUSABLE {
                        result.insert(n);
                    }
                    visited_new.push(n);
                    assert forall|m: usize| #[trigger] visited_new@.contains(m) <==> stepped_onto(visited@, i as int, dir + 1, m as int) by {
                        vstd::seq_lib::lemma_seq_contains_after_push(vn, n, m);
                        lemma_stepped_next(visited@, i as int, dir as int, m as int);
                    }
                    assert forall|m: usize| #[trigger] result@.contains(m) <==> (seeded_within(c as int, level - 1, soil@, m as int)
                        || (usable(soil@, m as int) && stepped_onto(visited@, i as int, dir + 1, m as int))) by {
                        lemma_stepped_next(visited@, i as int, dir as int, m as int);
                    }
                } else {
                    assert forall|m: int| #[trigger] stepped_onto(visited@, i as int, dir + 1, m) == stepped_onto(visited@, i as int, dir as int, m) by {
                        lemma_stepped_next(visited@, i as int, dir as int, m);
                    }
                }
                dir += 1;
            }
            assert forall|m: int| #[trigger] stepped_onto(visited@, i + 1, 0, m) == stepped_onto(visited@, i as int, 6, m) by {
                lemma_stepped_row(visited@, i as int, m);
            }
            i += 1;
        }
        proof {
            let lv = (level - 1) as nat;
            lemma_reach_cells(c as int, lv);
            assert forall|n: usize| #[trigger] visited_new@.contains(n) <==> reach(c as int, level as nat).contains(n as int) by {
                if visited_new@.contains(n) {
                    let (j, d) = choose|j: int, d: int|
                        #![trigger visited@[j], step(visited@[j] as int, d)]
                        0 <= j < visited@.len() && 0 <= d < 6 && (j < visited@.len() || (j == visited@.len() && d < 0)) && step(visited@[j] as int, d) == Some(n as int);
                    assert(visited@.contains(visited@[j]));
                    assert(reach(c as int, lv).contains(visited@[j] as int));
                }
                if reach(c as int, level as nat).contains(n as int) {
                    let (m, d) = choose|m: int, d: int|
                        #![trigger reach(c as int, lv).contains(m), step(m, d)]
                        reach(c as int, lv).contains(m) && 0 <= d < 6 && step(m, d) == Some(n as int);
                    assert(is_cell(m));
                    assert(visited@.contains(m as usize));
                    let j = choose|j: int| 0 <= j < visited@.len() && visited@[j] == m as usize;
                    assert(step(visited@[j] as int, d) == Some(n as int));
                }
            }
            assert forall|n: usize| #[trigger] result@.contains(n) <==> seeded_within(c as int, level as int, soil@, n as int) by {
                if seeded_within(c as int, level as int, soil@, n as int) {
                    let k = choose|k: nat| 1 <= k <= level && #[trigger] reach(c as int, k).contains(n as int);
                    if k < level {
                        assert(seeded_within(c as int, level - 1, soil@, n as int));
                    } else {
                        assert(visited_new@.contains(n));
                    }
                }
                if seeded_within(c as int, level - 1, soil@, n as int) {
                    let k = choose|k: nat| 1 <= k <= level - 1 && #[trigger] reach(c as int, k).contains(n as int);
                    assert(reach(c as int, k).contains(n as int));
                }
                if usable(soil@, n as int) && stepped_onto(visited@, visited@.len() as int, 0, n as int) {
                    assert(visited_new@.contains(n));
                    assert(reach(c as int, level as nat).contains(n as int));
                }
            }
        }
        visited = visited_new;
        level += 1;
    }
    result.remove(&c);
    proof {
        assert forall|n: usize| #[trigger] result@.contains(n) <==> seedable(c as int, tree_size as int, soil@).contains(n as int) by {
        }
    }
    members(&result)
}

/// The cells a tree of size `s` on `c` shades when the sun comes from
/// direction `d`: those 1 to `s` steps away in direction `d`, nearest first.
pub open spec fn shadow_list(c: int, d: int, s: nat) -> Seq<usize>
    decreases s,
{
    if s == 0 {
        Seq::empty()
    } else {
        let rest = shadow_list(c, d, (s - 1) as nat);
        match walk(c, d, s) {
            Some(n) => rest.push(n as usize),
            None => rest,
        }
    }
}

/// `v` holds the cells where a tree of size `s` on `c` can drop a seed,
/// each once.
pub open spec fn seed_list_ok(v: Seq<usize>, c: int, s: int, soil: Seq<SoilRichness>) -> bool {
    &&& forall|n: usize| #[trigger] v.contains(n) <==> seedable(c, s, soil).contains(n as int)
    &&& v.no_duplicates()
}

pub open spec fn seed_sizes_ok(r: Seq<Vec<usize>>, c: int, soil: Seq<SoilRichness>) -> bool {
    &&& r.len() == 3
    &&& forall|s: int| 1 <= s <= 3 ==> seed_list_ok(#[trigger] r[s - 1]@, c, s, soil)
}

pub open spec fn seedable_ok(r: Seq<Vec<Vec<usize>>>, soil: Seq<SoilRichness>) -> bool {
    &&& r.len() == 37
    &&& forall|c: int| 0 <= c < 37 ==> seed_sizes_ok(#[trigger] r[c]@, c, soil)
}

pub open spec fn shadow_sizes_ok(r: Seq<Vec<usize>>, c: int, d: int) -> bool {
    &&& r.len() == 3
    &&& forall|s: int| 1 <= s <= 3 ==> #[trigger] r[s - 1]@ == shadow_list(c, d, s as nat)
}

pub open spec fn shadow_days_ok(r: Seq<Vec<Vec<usize>>>, c: int) -> bool {
    &&& r.len() == 6
    &&& forall|d: int| 0 <= d < 6 ==> shadow_sizes_ok(#[trigger] r[d]@, c, d)
}

/// For each cell, sun direction and tree size, the cells that tree shades.
pub open spec fn shadows_ok(r: Seq<Vec<Vec<Vec<usize>>>>) -> bool {
    &&& r.len() == 37
    &&& forall|c: int| 0 <= c < 37 ==> shadow_days_ok(#[trigger] r[c]@, c)
}

fn init_seedable_neighbors(cell_neighbors: &Vec<Vec<Vec<Option<usize>>>>, soil_richness: &[SoilRichness; 37]) -> (r: Vec<Vec<Vec<usize>>>)
    requires
        neighbors_ok(cell_neighbors@),
    ensures
        seedable_ok(r@, soil_richness@),
{
    let mut seedable_neighbors: Vec<Vec<Vec<usize>>> = Vec::new();
    let mut c: usize = 0;
    while c < 37
        invariant
            c <= 37,
            neighbors_ok(cell_neighbors@),
            seedable_neighbors@.len() == c,
            forall|x: int| 0 <= x < c ==> seed_sizes_ok(#[trigger] seedable_neighbors@[x]@, x, soil_richness@),
        decreases 37 - c,
    {
        let mut sizes: Vec<Vec<usize>> = Vec::new();
        let mut tree_size: usize = 1;
        while tree_size <= 3
            invariant
                c < 37,
                1 <= tree_size <= 4,
                neighbors_ok(cell_neighbors@),
                sizes@.len() == tree_size - 1,
                forall|s: int| 1 <= s < tree_size ==> seed_list_ok(#[trigger] sizes@[s - 1]@, c as int, s, soil_richness@),
            decreases 4 - tree_size,
        {
            sizes.push(seedable_list(cell_neighbors, soil_richness, c, tree_size));
            tree_size += 1;
        }
        seedable_neighbors.push(sizes);
        c += 1;
    }
    seedable_neighbors
}

fn init_shadowed_cells(cell_neighbors: &Vec<Vec<Vec<Option<usize>>>>) -> (r: Vec<Vec<Vec<Vec<usize>>>>)
    requires
        neighbors_ok(cell_neighbors@),
    ensures
        shadows_ok(r@),
{
    let mut shadowed_cells: Vec<Vec<Vec<Vec<usize>>>> = Vec::new();
    let mut c: usize = 0;
    while c < 37
        invariant
            c <= 37,
            neighbors_ok(cell_neighbors@),
            shadowed_cells@.len() == c,
            forall|x: int| 0 <= x < c ==> shadow_days_ok(#[trigger] shadowed_cells@[x]@, x),
        decreases 37 - c,
    {
        let mut days: Vec<Vec<Vec<usize>>> = Vec::new();
        let mut day: usize = 0;
        while day < 6
            invariant
                c < 37,
                day <= 6,
                neighbors_ok(cell_neighbors@),
                days@.len() == day,
                forall|y: int| 0 <= y < day ==> shadow_sizes_ok(#[trigger] days@[y]@, c as int, y),
            decreases 6 - day,
        {
            assert(directions_ok(cell_neighbors@[c as int]@, c as int));
            assert(distances_ok(cell_neighbors@[c as int]@[day as int]@, c as int, day as int));
            let mut sizes: Vec<Vec<usize>> = Vec::new();
            let mut tree_size: usize = 1;
            while tree_size <= 3
                invariant
                    c < 37,
                    day < 6,
                    1 <= tree_size <= 4,
                    distances_ok(cell_neighbors@[c as int]@[day as int]@, c as int, day as int),
                    neighbors_ok(cell_neighbors@),
                    sizes@.len() == tree_size - 1,
                    forall|s: int| 1 <= s < tree_size ==> #[trigger] sizes@[s - 1]@ == shadow_list(c as int, day as int, s as nat),
                decreases 4 - tree_size,
            {
                let mut cells: Vec<usize> = Vec::new();
                let mut distance: usize = 1;
                while distance <= tree_size
                    invariant
                        c < 37,
                        day < 6,
                        1 <= tree_size <= 3,
                        1 <= distance <= tree_size + 1,
                        distances_ok(cell_neighbors@[c as int]@[day as int]@, c as int, day as int),
                        neighbors_ok(cell_neighbors@),
                        cells@ == shadow_list(c as int, day as int, (distance - 1) as nat),
                    decreases tree_size + 1 - distance,
                {
                    assert(cell_neighbors@[c as int]@[day as int]@[distance - 1] == opt_usize(walk(c as int, day as int, distance as nat)));
                    if let Some(shadowed_cell_pos) = cell_neighbors[c][day][distance - 1] {
                        cells.push(shadowed_cell_pos);
                    }
                    distance += 1;
                }
                sizes.push(cells);
                tree_size += 1;
            }
            days.push(sizes);
            day += 1;
        }
        shadowed_cells.push(days);
        c += 1;
    }
    shadowed_cells
}

/// The board geometry, computed once for a game: the soil of each cell,
/// the neighbours of each cell, where each tree can seed and what each
/// tree shades.
pub struct Cache {
    soil_richness: [SoilRichness; 37],
    /// `[cell][direction][distance - 1]`: the cell that far in that direction.
    cell_neighbors: Vec<Vec<Vec<Option<usize>>>>,
    /// `[cell][tree size - 1]`: where such a tree on that cell can seed.
    seedable_neighbors: Vec<Vec<Vec<usize>>>,
    /// `[cell][sun direction][tree size - 1]`: the cells such a tree shades.
    shadowed_cells: Vec<Vec<Vec<Vec<usize>>>>,
}

impl Cache {
    /// The tables hold what the board geometry and the soil give.
    #[verifier::type_invariant]
    spec fn wf(&self) -> bool {
        &&& neighbors_ok(self.cell_neighbors@)
        &&& seedable_ok(self.seedable_neighbors@, self.soil_richness@)
        &&& shadows_ok(self.shadowed_cells@)
    }

    /// The list of cells where a tree of size `s` on `c` can seed.
    pub closed spec fn seedable_at(&self, c: int, s: int) -> Seq<usize> {
        self.seedable_neighbors@[c]@[s - 1]@
    }

    /// The soil of each cell.
    pub closed spec fn soil(&self) -> Seq<SoilRichness> {
        self.soil_richness@
    }

    pub fn new(soil_richness: [SoilRichness; 37]) -> (c: Self)
        ensures
            c.soil() == soil_richness@,
    {
        let cell_neighbors = init_cell_neighbors();
        let seedable_neighbors = init_seedable_neighbors(&cell_neighbors, &soil_richness);
        let shadowed_cells = init_shadowed_cells(&cell_neighbors);
        Cache { soil_richness, cell_neighbors, seedable_neighbors, shadowed_cells }
    }

    pub fn get_soil_richness(&self, cell_pos: usize) -> (r: SoilRichness)
        requires
            cell_pos < 37,
        ensures
            r == self.soil()[cell_pos as int],
    {
        self.soil_richness[cell_pos]
    }

    /// The cell `distance` steps (1 to 3) away from `cell_pos` in `direction`.
    pub fn get_neighbor(&self, cell_pos: usize, direction: usize, distance: usize) -> (r: Option<usize>)
        requires
            cell_pos < 37,
            direction < 6,
            1 <= distance <= 3,
        ensures
            r == opt_usize(walk(cell_pos as int, direction as int, distance as nat)),
    {
        proof {
            use_type_invariant(self);
        }
        assert(directions_ok(self.cell_neighbors@[cell_pos as int]@, cell_pos as int));
        assert(distances_ok(self.cell_neighbors@[cell_pos as int]@[direction as int]@, cell_pos as int, direction as int));
        self.cell_neighbors[cell_pos][direction][distance - 1]
    }

    /// Where the tree `tree` (not a seed) on `tree_pos` can drop a seed.
    pub fn get_seedable_neighbors(&self, tree_pos: usize, tree: Tree) -> (r: &[usize])
        requires
            tree_pos < 37,
            tree != Tree::SEED,
        ensures
            r@ == self.seedable_at(tree_pos as int, size(tree)),
            seed_list_ok(r@, tree_pos as int, size(tree), self.soil()),
    {
        let s = tree_size(tree);
        proof {
            use_type_invariant(self);
        }
        assert(seed_sizes_ok(self.seedable_neighbors@[tree_pos as int]@, tree_pos as int, self.soil_richness@));
        self.seedable_neighbors[tree_pos][s - 1].as_slice()
    }

    /// The cells the tree `tree` (not a seed) on `tree_pos` shades on day
    /// `day`: the sun turns by one direction each day.
    pub fn get_shadowed_cells(&self, tree_pos: usize, tree: Tree, day: usize) -> (r: &[usize])
        requires
            tree_pos < 37,
            tree != Tree::SEED,
        ensures
            r@ == shadow_list(tree_pos as int, (day % 6) as int, size(tree) as nat),
    {
        let s = tree_size(tree);
        proof {
            use_type_invariant(self);
        }
        assert(shadow_days_ok(self.shadowed_cells@[tree_pos as int]@, tree_pos as int));
        assert(shadow_sizes_ok(self.shadowed_cells@[tree_pos as int]@[(day % 6) as int]@, tree_pos as int, (day % 6) as int));
        self.shadowed_cells[tree_pos][day % 6][s - 1].as_slice()
    }
}

} // verus!
