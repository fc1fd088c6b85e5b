//! The support graph: same-player adjacency within heal range, and the
//! anchored supply sets found by flood fill from each spawn anchor.
//!
//! Supply is pure reachability: a unit is supplied exactly when some chain of
//! adjacency edges connects it to a unit of its player within heal range of
//! that player's anchor. The executable flood fill is proved sound and
//! complete against that reachability, so iteration order cannot influence
//! membership.

use vstd::prelude::*;

use crate::board::SpawnEntry;
use crate::fx::{dist_sq, dist_sq_spec, in_box, COORD_LIMIT};
use crate::units::{units_wf, Unit};

verus! {

/// Units of one player closer than this support each other (fixed-point).
pub const LASER_HEAL_RANGE: i64 = 150_000;

/// `LASER_HEAL_RANGE` squared.
pub const HEAL_RANGE_SQ: i64 = 22_500_000_000;

/// Units `i` and `j` are support-adjacent: distinct, same player, within heal
/// range.
pub open spec fn adjacent_spec(us: Seq<Unit>, i: int, j: int) -> bool {
    &&& 0 <= i < us.len()
    &&& 0 <= j < us.len()
    &&& i != j
    &&& us[i].player == us[j].player
    &&& dist_sq_spec(us[i].pos, us[j].pos) <= HEAL_RANGE_SQ
}

/// The adjacency as an edge set.
pub open spec fn edge_set_spec(us: Seq<Unit>) -> Set<(int, int)> {
    Set::new(|p: (int, int)| adjacent_spec(us, p.0, p.1))
}

/// Unit `i` matches entry `e`: same player and within heal range of the
/// anchor.
pub open spec fn seed_match(us: Seq<Unit>, entries: Seq<SpawnEntry>, i: int, e: int) -> bool {
    &&& us[i].player == entries[e].player
    &&& dist_sq_spec(us[i].pos, entries[e].position) <= HEAL_RANGE_SQ
}

/// Unit `i` is a supply seed: within heal range of some anchor of its player.
pub open spec fn seed_spec(us: Seq<Unit>, entries: Seq<SpawnEntry>, i: int) -> bool {
    exists|e: int| 0 <= e < entries.len() && #[trigger] seed_match(us, entries, i, e)
}

/// The seeds as a set of indices.
pub open spec fn seed_set_spec(us: Seq<Unit>, entries: Seq<SpawnEntry>) -> Set<int> {
    Set::new(|i: int| 0 <= i < us.len() && seed_spec(us, entries, i))
}

/// Reachability from the seeds in at most `n` edge steps.
pub open spec fn reach_n(edges: Set<(int, int)>, seeds: Set<int>, i: int, n: nat) -> bool
    decreases n,
{
    ||| seeds.contains(i)
    ||| (n > 0 && exists|j: int|
        #[trigger] edges.contains((j, i)) && reach_n(edges, seeds, j, (n - 1) as nat))
}

/// Reachability from the seeds through the edges.
pub open spec fn reachable(edges: Set<(int, int)>, seeds: Set<int>, i: int) -> bool {
    exists|n: nat| reach_n(edges, seeds, i, n)
}

/// Unit `i` is supplied: reachable from its player's anchor seeds.
pub open spec fn supplied_spec(us: Seq<Unit>, entries: Seq<SpawnEntry>, i: int) -> bool {
    reachable(edge_set_spec(us), seed_set_spec(us, entries), i)
}

pub proof fn lemma_reach_n_monotone(
    e1: Set<(int, int)>,
    e2: Set<(int, int)>,
    seeds: Set<int>,
    i: int,
    n: nat,
)
    requires
        e1.subset_of(e2),
        reach_n(e1, seeds, i, n),
    ensures
        reach_n(e2, seeds, i, n),
    decreases n,
{
    if !seeds.contains(i) {
        let j = choose|j: int|
            #[trigger] e1.contains((j, i)) && reach_n(e1, seeds, j, (n - 1) as nat);
        lemma_reach_n_monotone(e1, e2, seeds, j, (n - 1) as nat);
        assert(e2.contains((j, i)));
    }
}

/// Growing the adjacency can only grow each supplied set: whatever was
/// reachable before an edge is added is still reachable afterwards.
pub proof fn lemma_supplied_monotone(
    e1: Set<(int, int)>,
    e2: Set<(int, int)>,
    seeds: Set<int>,
    i: int,
)
    requires
        e1.subset_of(e2),
        reachable(e1, seeds, i),
    ensures
        reachable(e2, seeds, i),
{
    let n = choose|n: nat| reach_n(e1, seeds, i, n);
    lemma_reach_n_monotone(e1, e2, seeds, i, n);
    assert(reach_n(e2, seeds, i, n));
}

/// The same monotonicity at the level of unit stores: whenever one layout's
/// adjacency contains another's and the seeds coincide, every unit supplied
/// under the smaller adjacency is supplied under the larger.
pub proof fn lemma_supplied_set_monotone(
    us1: Seq<Unit>,
    us2: Seq<Unit>,
    entries: Seq<SpawnEntry>,
    i: int,
)
    requires
        edge_set_spec(us1).subset_of(edge_set_spec(us2)),
        seed_set_spec(us1, entries) == seed_set_spec(us2, entries),
        supplied_spec(us1, entries, i),
    ensures
        supplied_spec(us2, entries, i),
{
    lemma_supplied_monotone(
        edge_set_spec(us1),
        edge_set_spec(us2),
        seed_set_spec(us1, entries),
        i,
    );
}

/// A seed is reachable in zero steps.
pub proof fn lemma_seed_reachable(edges: Set<(int, int)>, seeds: Set<int>, i: int)
    requires
        seeds.contains(i),
    ensures
        reachable(edges, seeds, i),
{
    assert(reach_n(edges, seeds, i, 0));
}

/// One more edge step keeps reachability.
pub proof fn lemma_reach_step(edges: Set<(int, int)>, seeds: Set<int>, j: int, i: int)
    requires
        reachable(edges, seeds, j),
        edges.contains((j, i)),
    ensures
        reachable(edges, seeds, i),
{
    let n = choose|n: nat| reach_n(edges, seeds, j, n);
    assert(reach_n(edges, seeds, i, n + 1));
}

/// Everything reachable lies in any edge-closed superset of the seeds.
pub proof fn lemma_reach_in_closed(
    edges: Set<(int, int)>,
    seeds: Set<int>,
    sup: Seq<bool>,
    i: int,
    n: nat,
)
    requires
        forall|k: int| seeds.contains(k) ==> 0 <= k < sup.len() && sup[k],
        forall|a: int, b: int|
            #[trigger] edges.contains((a, b)) ==> 0 <= a < sup.len() && 0 <= b < sup.len(),
        forall|a: int, b: int|
            0 <= a < sup.len() && sup[a] && #[trigger] edges.contains((a, b)) ==> sup[b],
        reach_n(edges, seeds, i, n),
        0 <= i < sup.len(),
    ensures
        sup[i],
    decreases n,
{
    if !seeds.contains(i) {
        let j = choose|j: int|
            #[trigger] edges.contains((j, i)) && reach_n(edges, seeds, j, (n - 1) as nat);
        lemma_reach_in_closed(edges, seeds, sup, j, (n - 1) as nat);
    }
}

/// How many entries of a flag sequence are set.
pub open spec fn count_true(s: Seq<bool>) -> int
    decreases s.len(),
{
    if s.len() == 0 {
        0
    } else {
        count_true(s.drop_last()) + if s.last() {
            1int
        } else {
            0int
        }
    }
}

pub proof fn lemma_count_true_le(s: Seq<bool>)
    ensures
        0 <= count_true(s) <= s.len(),
    decreases s.len(),
{
    if s.len() > 0 {
        lemma_count_true_le(s.drop_last());
    }
}

pub proof fn lemma_count_true_update(s: Seq<bool>, k: int)
    requires
        0 <= k < s.len(),
        !s[k],
    ensures
        count_true(s.update(k, true)) == count_true(s) + 1,
    decreases s.len(),
{
    let t = s.update(k, true);
    if k == s.len() - 1 {
        assert(t.drop_last() =~= s.drop_last());
    } else {
        assert(t.drop_last() =~= s.drop_last().update(k, true));
        lemma_count_true_update(s.drop_last(), k);
    }
}

/// Executable adjacency test.
pub fn is_adjacent(units: &Vec<Unit>, a: usize, b: usize) -> (r: bool)
    requires
        units_wf(units@),
        a < units@.len(),
        b < units@.len(),
    ensures
        r == adjacent_spec(units@, a as int, b as int),
{
    if a == b {
        return false;
    }
    if units[a].player.0 != units[b].player.0 {
        return false;
    }
    assert(unit_wf_at(units@, a as int) && unit_wf_at(units@, b as int));
    let d = dist_sq(units[a].pos, units[b].pos);
    d <= HEAL_RANGE_SQ
}

/// Helper naming the store's per-unit well-formedness for triggering.
pub open spec fn unit_wf_at(us: Seq<Unit>, i: int) -> bool {
    crate::units::unit_wf(us[i])
}

/// Degree of unit `i`: how many units at index `j` onward are adjacent to it.
pub open spec fn degree_from(us: Seq<Unit>, i: int, j: int) -> int
    decreases us.len() - j,
{
    if j < 0 || j >= us.len() {
        0
    } else {
        degree_from(us, i, j + 1) + if adjacent_spec(us, i, j) {
            1int
        } else {
            0int
        }
    }
}

/// Degree of unit `i` in the support graph.
pub open spec fn degree_spec(us: Seq<Unit>, i: int) -> int {
    degree_from(us, i, 0)
}

pub proof fn lemma_degree_from_bounds(us: Seq<Unit>, i: int, j: int)
    requires
        0 <= j <= us.len(),
    ensures
        0 <= degree_from(us, i, j) <= us.len() - j,
    decreases us.len() - j,
{
    if j < us.len() {
        lemma_degree_from_bounds(us, i, j + 1);
    }
}

/// Per-unit connection counts of the support graph.
pub fn compute_connections(units: &Vec<Unit>) -> (r: Vec<usize>)
    requires
        units_wf(units@),
    ensures
        r@.len() == units@.len(),
        forall|i: int| 0 <= i < units@.len() ==> r@[i] == degree_spec(units@, i),
{
    let n = units.len();
    let mut out: Vec<usize> = Vec::new();
    let mut i: usize = 0;
    while i < n
        invariant
            0 <= i <= n,
            n == units@.len(),
            units_wf(units@),
            out@.len() == i,
            forall|k: int| 0 <= k < i ==> out@[k] == degree_spec(units@, k),
        decreases n - i,
    {
        let mut c: usize = 0;
        let mut j: usize = n;
        while j > 0
            invariant
                0 <= j <= n,
                n == units@.len(),
                units_wf(units@),
                i < n,
                c == degree_from(units@, i as int, j as int),
                0 <= c <= n - j,
            decreases j,
        {
            j = j - 1;
            proof {
                lemma_degree_from_bounds(units@, i as int, j as int + 1);
            }
            if is_adjacent(units, i, j) {
                c = c + 1;
            }
        }
        out.push(c);
        i = i + 1;
    }
    out
}

/// Executable seed test: is unit `i` within heal range of an anchor of its
/// player?
fn is_seed(units: &Vec<Unit>, entries: &Vec<SpawnEntry>, i: usize) -> (r: bool)
    requires
        units_wf(units@),
        i < units@.len(),
        forall|e: int| 0 <= e < entries@.len() ==> in_box(#[trigger] entries@[e].position, COORD_LIMIT as int),
    ensures
        r == seed_spec(units@, entries@, i as int),
{
    let m = entries.len();
    let mut e: usize = 0;
    while e < m
        invariant
            0 <= e <= m,
            m == entries@.len(),
            units_wf(units@),
            i < units@.len(),
            forall|k: int| 0 <= k < entries@.len() ==> in_box(#[trigger] entries@[k].position, COORD_LIMIT as int),
            forall|k: int| 0 <= k < e ==> !#[trigger] seed_match(units@, entries@, i as int, k),
        decreases m - e,
    {
        assert(unit_wf_at(units@, i as int));
        if units[i].player.0 == entries[e].player.0 {
            let d = dist_sq(units[i].pos, entries[e].position);
            if d <= HEAL_RANGE_SQ {
                assert(seed_match(units@, entries@, i as int, e as int));
                return true;
            }
        }
        proof {
            assert(!seed_match(units@, entries@, i as int, e as int));
        }
        e = e + 1;
    }
    false
}

/// Flood-fill the supply sets: sound and complete for `supplied_spec`.
pub fn compute_supplied(units: &Vec<Unit>, entries: &Vec<SpawnEntry>) -> (sup: Vec<bool>)
    requires
        units_wf(units@),
        forall|e: int| 0 <= e < entries@.len() ==> in_box(#[trigger] entries@[e].position, COORD_LIMIT as int),
    ensures
        sup@.len() == units@.len(),
        forall|i: int| 0 <= i < units@.len() ==> (sup@[i] <==> supplied_spec(units@, entries@, i)),
{
    let n = units.len();
    let ghost edges = edge_set_spec(units@);
    let ghost seeds = seed_set_spec(units@, entries@);
    let mut sup: Vec<bool> = Vec::new();
    let mut z: usize = 0;
    while z < n
        invariant
            sup@.len() == z <= n,
            forall|k: int| 0 <= k < z ==> !(#[trigger] sup@[k]),
            count_true(sup@) == 0,
        decreases n - z,
    {
        let ghost pre = sup@;
        sup.push(false);
        proof {
            assert(sup@.drop_last() =~= pre);
        }
        z = z + 1;
    }
    let mut stack: Vec<usize> = Vec::new();
    let mut visited: usize = 0;

    // Seeding pass: mark and queue every unit in heal range of its anchor.
    let mut i: usize = 0;
    while i < n
        invariant
            0 <= i <= n,
            n == units@.len(),
            units_wf(units@),
            forall|e: int| 0 <= e < entries@.len() ==> in_box(#[trigger] entries@[e].position, COORD_LIMIT as int),
            edges == edge_set_spec(units@),
            seeds == seed_set_spec(units@, entries@),
            sup@.len() == n,
            visited == count_true(sup@),
            visited <= n,
            stack@.len() <= visited,
            forall|k: int| 0 <= k < n && #[trigger] sup@[k] ==> reachable(edges, seeds, k),
            forall|s: int| 0 <= s < stack@.len() ==> (#[trigger] stack@[s]) < n && sup@[stack@[s] as int],
            forall|k: int| 0 <= k < n && #[trigger] sup@[k] ==> stack@.contains(k as usize),
            forall|k: int| 0 <= k < i && seeds.contains(k) ==> #[trigger] sup@[k],
        decreases n - i,
    {
        if is_seed(units, entries, i) {
            assert(seeds.contains(i as int));
            if !sup[i] {
                proof {
                    lemma_count_true_update(sup@, i as int);
                    lemma_seed_reachable(edges, seeds, i as int);
                }
                let ghost pre_sup = sup@;
                let ghost pre_stack = stack@;
                sup.set(i, true);
                stack.push(i);
                visited = visited + 1;
                proof {
                    lemma_count_true_le(sup@);
                    assert(stack@ == pre_stack.push(i));
                    assert forall|k: int| 0 <= k < n && #[trigger] sup@[k] implies stack@.contains(
                        k as usize,
                    ) by {
                        if k != i as int {
                            assert(pre_sup[k]);
                            assert(pre_stack.contains(k as usize));
                            let w = choose|w: int|
                                0 <= w < pre_stack.len() && pre_stack[w] == k as usize;
                            assert(stack@[w] == k as usize);
                        } else {
                            assert(stack@[pre_stack.len() as int] == i);
                        }
                    }
                }
            }
        }
        i = i + 1;
    }

    // Flood fill: pop a supplied unit, mark and queue its unmarked
    // neighbours; membership is reachability, so order cannot matter.
    while stack.len() > 0
        invariant
            n == units@.len(),
            units_wf(units@),
            edges == edge_set_spec(units@),
            seeds == seed_set_spec(units@, entries@),
            sup@.len() == n,
            visited == count_true(sup@),
            visited <= n,
            stack@.len() <= visited,
            forall|k: int| 0 <= k < n && #[trigger] sup@[k] ==> reachable(edges, seeds, k),
            forall|s: int| 0 <= s < stack@.len() ==> (#[trigger] stack@[s]) < n && sup@[stack@[s] as int],
            forall|k: int| seeds.contains(k) ==> 0 <= k < n && #[trigger] sup@[k],
            forall|a: int, b: int|
                0 <= a < n && sup@[a] && !stack@.contains(a as usize) && #[trigger] edges.contains(
                    (a, b),
                ) ==> sup@[b],
        decreases (n - visited) * (n + 1) + stack@.len(),
    {
        let ghost old_measure = (n - visited) * (n + 1) + stack@.len();
        let ghost old_visited = visited;
        let ghost old_stack = stack@;
        let ghost pre_stack = stack@;
        let cur = match stack.pop() {
            Some(c) => c,
            None => {
                proof {
                    assert(false);
                }
                0
            },
        };
        assert(sup@[cur as int] && cur < n);
        proof {
            assert(stack@ =~= pre_stack.drop_last());
            assert(pre_stack.last() == cur);
            assert forall|a: int, b: int|
                0 <= a < n && sup@[a] && !stack@.contains(a as usize) && a != cur as int
                    && #[trigger] edges.contains((a, b)) implies sup@[b] by {
                if pre_stack.contains(a as usize) {
                    let w = choose|w: int| 0 <= w < pre_stack.len() && pre_stack[w] == a as usize;
                    if w < pre_stack.len() - 1 {
                        assert(stack@[w] == a as usize);
                        assert(false);
                    } else {
                        assert(a == cur as int);
                        assert(false);
                    }
                }
            }
        }
        let mut j: usize = 0;
        while j < n
            invariant
                0 <= j <= n,
                n == units@.len(),
                units_wf(units@),
                edges == edge_set_spec(units@),
                seeds == seed_set_spec(units@, entries@),
                cur < n,
                sup@.len() == n,
                visited == count_true(sup@),
                visited <= n,
                old_visited <= visited,
                stack@.len() <= old_stack.len() - 1 + (visited - old_visited),
                sup@[cur as int],
                forall|k: int| 0 <= k < n && #[trigger] sup@[k] ==> reachable(edges, seeds, k),
                forall|s: int| 0 <= s < stack@.len() ==> (#[trigger] stack@[s]) < n && sup@[stack@[s] as int],
                forall|k: int| seeds.contains(k) ==> 0 <= k < n && #[trigger] sup@[k],
                forall|a: int, b: int|
                    0 <= a < n && sup@[a] && !stack@.contains(a as usize) && a != cur as int
                        && #[trigger] edges.contains((a, b)) ==> sup@[b],
                forall|b: int| #[trigger] edges.contains((cur as int, b)) && b < j ==> sup@[b],
            decreases n - j,
        {
            if is_adjacent(units, cur, j) {
                assert(edges.contains((cur as int, j as int)));
                if !sup[j] {
                    proof {
                        lemma_count_true_update(sup@, j as int);
                        lemma_reach_step(edges, seeds, cur as int, j as int);
                    }
                    let ghost in_sup = sup@;
                    let ghost in_stack = stack@;
                    sup.set(j, true);
                    stack.push(j);
                    visited = visited + 1;
                    proof {
                        lemma_count_true_le(sup@);
                        assert(stack@ == in_stack.push(j));
                        assert forall|a: int, b: int|
                            0 <= a < n && sup@[a] && !stack@.contains(a as usize) && a
                                != cur as int && #[trigger] edges.contains((a, b)) implies sup@[b] by {
                            if a == j as int {
                                assert(stack@[in_stack.len() as int] == j);
                                assert(false);
                            } else {
                                assert(in_sup[a]);
                                if in_stack.contains(a as usize) {
                                    let w = choose|w: int|
                                        0 <= w < in_stack.len() && in_stack[w] == a as usize;
                                    assert(stack@[w] == a as usize);
                                    assert(false);
                                }
                            }
                        }
                    }
                }
            } else {
                proof {
                    assert(!edges.contains((cur as int, j as int)));
                }
            }
            j = j + 1;
        }
        proof {
            // The measure drops: one pop costs one, and each push paid for
            // itself by newly marking a unit.
            let k = visited - old_visited;
            assert((n - visited) * (n + 1) + k * (n + 1) == (n - old_visited) * (n + 1))
                by (nonlinear_arith)
                requires
                    visited == old_visited + k,
            ;
            assert(k * (n + 1) >= k) by (nonlinear_arith)
                requires
                    k >= 0,
                    n >= 0,
            ;
        }
    }

    // Soundness is the loop invariant; completeness follows because the
    // final marking is seed-containing and edge-closed.
    proof {
        assert forall|i2: int|
            0 <= i2 < units@.len() && supplied_spec(units@, entries@, i2) implies sup@[i2] by {
            let m = choose|m: nat| reach_n(edges, seeds, i2, m);
            assert forall|a: int, b: int|
                #[trigger] edges.contains((a, b)) implies 0 <= a < sup@.len() && 0 <= b
                < sup@.len() by {
                assert(adjacent_spec(units@, a, b));
            }
            assert forall|a: int, b: int|
                0 <= a < sup@.len() && sup@[a] && #[trigger] edges.contains((a, b)) implies sup@[b] by {
                assert(!stack@.contains(a as usize));
            }
            lemma_reach_in_closed(edges, seeds, sup@, i2, m);
        }
    }
    sup
}

/// The support links of one row: pairs `(i, j)` with `j > i`, in `j` order.
pub open spec fn links_row(us: Seq<Unit>, i: int, j: int) -> Seq<(usize, usize)>
    decreases us.len() - j,
{
    if j < 0 || j >= us.len() {
        Seq::empty()
    } else if adjacent_spec(us, i, j) {
        seq![(i as usize, j as usize)] + links_row(us, i, j + 1)
    } else {
        links_row(us, i, j + 1)
    }
}

/// All support links from row `i` onward, rows in `i` order.
pub open spec fn links_from(us: Seq<Unit>, i: int) -> Seq<(usize, usize)>
    decreases us.len() - i,
{
    if i < 0 || i >= us.len() {
        Seq::empty()
    } else {
        links_row(us, i, i + 1) + links_from(us, i + 1)
    }
}

/// Every unordered support edge, listed once in lexicographic order.
pub open spec fn links_spec(us: Seq<Unit>) -> Seq<(usize, usize)> {
    links_from(us, 0)
}

/// Every listed link joins two in-range, support-adjacent units.
pub proof fn lemma_links_row_adjacent(us: Seq<Unit>, i: int, j: int, k: int)
    requires
        us.len() <= usize::MAX,
        0 <= k < links_row(us, i, j).len(),
    ensures
        adjacent_spec(us, links_row(us, i, j)[k].0 as int, links_row(us, i, j)[k].1 as int),
        links_row(us, i, j)[k].0 == i,
    decreases us.len() - j,
{
    if !(j < 0 || j >= us.len()) {
        if adjacent_spec(us, i, j) {
            if k > 0 {
                lemma_links_row_adjacent(us, i, j + 1, k - 1);
            }
        } else {
            lemma_links_row_adjacent(us, i, j + 1, k);
        }
    }
}

pub proof fn lemma_links_from_adjacent(us: Seq<Unit>, i: int, k: int)
    requires
        us.len() <= usize::MAX,
        0 <= k < links_from(us, i).len(),
    ensures
        adjacent_spec(us, links_from(us, i)[k].0 as int, links_from(us, i)[k].1 as int),
    decreases us.len() - i,
{
    if !(i < 0 || i >= us.len()) {
        let row = links_row(us, i, i + 1);
        if k < row.len() {
            lemma_links_row_adjacent(us, i, i + 1, k);
        } else {
            lemma_links_from_adjacent(us, i + 1, k - row.len());
        }
    }
}

/// List every support edge, first index ascending, second ascending within.
pub fn compute_support_links(units: &Vec<Unit>) -> (r: Vec<(usize, usize)>)
    requires
        units_wf(units@),
    ensures
        r@ == links_spec(units@),
{
    let n = units.len();
    let mut out: Vec<(usize, usize)> = Vec::new();
    let mut i: usize = 0;
    while i < n
        invariant
            0 <= i <= n,
            n == units@.len(),
            units_wf(units@),
            out@ + links_from(units@, i as int) =~= links_spec(units@),
        decreases n - i,
    {
        let mut j: usize = i + 1;
        while j < n
            invariant
                i < j <= n,
                n == units@.len(),
                units_wf(units@),
                i < n,
                out@ + links_row(units@, i as int, j as int) + links_from(units@, i as int + 1)
                    =~= links_spec(units@),
            decreases n - j,
        {
            if is_adjacent(units, i, j) {
                out.push((i, j));
                proof {
                    assert(out@ + links_row(units@, i as int, j as int + 1) + links_from(
                        units@,
                        i as int + 1,
                    ) =~= links_spec(units@));
                }
            }
            j = j + 1;
        }
        i = i + 1;
    }
    proof {
        assert(out@ =~= links_spec(units@));
    }
    out
}

} // verus!
