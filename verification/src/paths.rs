use vstd::prelude::*;

use crate::constants::{BOARD_TILES, MAP_SIZE};
use crate::direction::Direction;
use crate::walk_order::{
    is_least_walk, is_shortest_walk, lemma_before_asym, lemma_before_of_push, lemma_before_push, lemma_before_trans,
    lemma_not_before_then, lemma_push_before, lemma_side_between, lemma_side_rank_at, lemma_step_side,
    lemma_walk_drop_last, lemma_walk_ranks_last, ranks_before, side_between, side_rank, walk_ranks,
};
use crate::tile::{
    lemma_closed_set_holds_walk, lemma_distinct_below, lemma_neighbor_on_board, lemma_reachable_refl,
    lemma_reachable_step, neighbor, reachable, is_walk, step, step_to, Tile,
};

verus! {

/// The side tried in the `k`-th place when looking around a room.
pub open spec fn side_at(k: int) -> Direction {
    if k == 0 {
        Direction::Up
    } else if k == 1 {
        Direction::Down
    } else if k == 2 {
        Direction::Left
    } else {
        Direction::Right
    }
}

pub(crate) proof fn lemma_every_side_listed(d: Direction)
    ensures
        exists|k: int| 0 <= k < 4 && side_at(k) == d,
{
    match d {
        Direction::Up => assert(side_at(0) == d),
        Direction::Down => assert(side_at(1) == d),
        Direction::Left => assert(side_at(2) == d),
        Direction::Right => assert(side_at(3) == d),
    }
}

pub(crate) fn side_at_exec(k: usize) -> (d: Direction)
    ensures
        d == side_at(k as int),
{
    if k == 0 {
        Direction::Up
    } else if k == 1 {
        Direction::Down
    } else if k == 2 {
        Direction::Left
    } else {
        Direction::Right
    }
}

/// The board index next to `c` on side `d`, if it lies on the board.
pub fn neighbor_index(c: usize, d: Direction) -> (r: Option<usize>)
    ensures
        match r {
            Some(b) => neighbor(c as int, d) == Some(b as int),
            None => neighbor(c as int, d) is None,
        },
{
    let x = c % MAP_SIZE;
    let y = c / MAP_SIZE;
    match d {
        Direction::Up => if y >= 1 && y - 1 < 5 {
            Some((y - 1) * 5 + x)
        } else {
            None
        },
        Direction::Down => if y + 1 < 5 {
            Some((y + 1) * 5 + x)
        } else {
            None
        },
        Direction::Left => if x >= 1 && y < 5 {
            Some(y * 5 + x - 1)
        } else {
            None
        },
        Direction::Right => if x + 1 < 5 && y < 5 {
            Some(y * 5 + x + 1)
        } else {
            None
        },
    }
}

/// The room reached from room `a` through side `d`, if the walk is open.
pub fn step_from(tiles: &[Tile], a: usize, d: Direction) -> (r: Option<usize>)
    requires
        a < tiles@.len(),
    ensures
        match r {
            Some(b) => step_to(tiles@, a as int, d) == Some(b as int),
            None => step_to(tiles@, a as int, d) is None,
        },
{
    match neighbor_index(a, d) {
        Some(b) => {
            proof {
                lemma_neighbor_on_board(a as int, d);
            }
            if b < tiles.len() && tiles[a].is_connected_in_direction(d, &tiles[b]) {
                Some(b)
            } else {
                None
            }
        },
        None => None,
    }
}

/// Looks at the room through side `d` of room `current`; when it can be
/// walked to and is not marked yet, marks it and returns its index.
fn discover(tiles: &[Tile], current: usize, d: Direction, visited: &mut Vec<bool>) -> (r: Option<
    usize,
>)
    requires
        current < tiles@.len(),
        old(visited)@.len() == tiles@.len(),
    ensures
        match step_to(tiles@, current as int, d) {
            Some(b) => if !old(visited)@[b] {
                r == Some(b as usize) && final(visited)@ == old(visited)@.update(b, true)
            } else {
                r is None && final(visited)@ == old(visited)@
            },
            None => r is None && final(visited)@ == old(visited)@,
        },
{
    match step_from(tiles, current, d) {
        Some(b) => {
            if !visited[b] {
                visited.set(b, true);
                Some(b)
            } else {
                None
            }
        },
        None => None,
    }
}

fn all_false(n: usize) -> (v: Vec<bool>)
    ensures
        v@.len() == n,
        forall|i: int| 0 <= i < n ==> !v@[i],
{
    let mut v: Vec<bool> = Vec::new();
    let mut i: usize = 0;
    while i < n
        invariant
            i <= n,
            v@.len() == i,
            forall|j: int| 0 <= j < i ==> !v@[j],
        decreases n - i,
    {
        v.push(false);
        i += 1;
    }
    v
}

/// Every room marked in `visited` is reachable from `start`.
pub open spec fn all_marked_reachable(tiles: Seq<Tile>, visited: Seq<bool>, start: int) -> bool {
    forall|i: int| 0 <= i < visited.len() && #[trigger] visited[i] ==> reachable(tiles, start, i)
}

/// Every room one step away from room `a` is marked.
pub open spec fn closed_at(tiles: Seq<Tile>, visited: Seq<bool>, a: int) -> bool {
    forall|d: Direction| #[trigger]
        step_to(tiles, a, d) matches Some(b) ==> 0 <= b < visited.len() && visited[b]
}

impl Tile {
    /// All rooms one can walk to from `start_index` through facing
    /// entrances, each listed once, `start_index` first.
    pub fn find_reachable_tiles(&self, start_index: usize, tiles: &[Tile]) -> (r: Vec<usize>)
        requires
            start_index < tiles@.len(),
            tiles@.len() >= BOARD_TILES,
        ensures
            r@.len() >= 1,
            r@[0] == start_index,
            r@.no_duplicates(),
            forall|i: usize| r@.contains(i) <==> reachable(tiles@, start_index as int, i as int),
    {
        let n = tiles.len();
        let mut visited = all_false(n);
        let mut reach: Vec<usize> = Vec::new();
        let mut to_visit: Vec<usize> = Vec::new();
        to_visit.push(start_index);
        visited.set(start_index, true);
        proof {
            lemma_reachable_refl(tiles@, start_index);
            assert forall|i: int|
                0 <= i < n implies (#[trigger] visited@[i] <==> (reach@.contains(i as usize)
                || to_visit@.contains(i as usize))) by {
                if to_visit@.contains(i as usize) {
                    assert(to_visit@[0] == start_index);
                }
                if i == start_index {
                    assert(to_visit@[0] == start_index);
                }
            }
        }
        while to_visit.len() > 0
            invariant
                n == tiles@.len(),
                start_index < n,
                visited@.len() == n,
                visited@[start_index as int],
                forall|i: int|
                    0 <= i < n ==> (#[trigger] visited@[i] <==> (reach@.contains(i as usize)
                        || to_visit@.contains(i as usize))),
                forall|k: int| 0 <= k < reach@.len() ==> (#[trigger] reach@[k] as int) < n,
                forall|k: int| 0 <= k < to_visit@.len() ==> (#[trigger] to_visit@[k] as int) < n,
                reach@.no_duplicates(),
                to_visit@.no_duplicates(),
                forall|k: int| 0 <= k < to_visit@.len() ==> !reach@.contains(#[trigger] to_visit@[k]),
                reach@.len() == 0 ==> to_visit@ == seq![start_index],
                reach@.len() > 0 ==> reach@[0] == start_index,
                all_marked_reachable(tiles@, visited@, start_index as int),
                forall|k: int|
                    0 <= k < reach@.len() ==> closed_at(tiles@, visited@, #[trigger] reach@[k] as int),
            decreases n - reach@.len(),
        {
            let ghost prev_stack = to_visit@;
            let ghost prev_reach = reach@;
            let current_index = to_visit.pop().unwrap();
            assert(prev_stack == to_visit@.push(current_index));
            assert(prev_stack[prev_stack.len() - 1] == current_index);
            assert(!reach@.contains(current_index));
            reach.push(current_index);
            proof {
                assert forall|i: int|
                    0 <= i < n implies (#[trigger] visited@[i] <==> (reach@.contains(i as usize)
                    || to_visit@.contains(i as usize))) by {
                    if prev_stack.contains(i as usize) {
                        let q = choose|q: int| 0 <= q < prev_stack.len() && prev_stack[q] == i as usize;
                        if q < to_visit@.len() {
                            assert(to_visit@[q] == i as usize);
                        } else {
                            assert(reach@.last() == i as usize);
                        }
                    }
                    if prev_reach.contains(i as usize) {
                        let q = choose|q: int| 0 <= q < prev_reach.len() && prev_reach[q] == i as usize;
                        assert(reach@[q] == i as usize);
                    }
                    if reach@.contains(i as usize) {
                        let q = choose|q: int| 0 <= q < reach@.len() && reach@[q] == i as usize;
                        if q < prev_reach.len() {
                            assert(prev_reach[q] == i as usize);
                        } else {
                            assert(prev_stack.contains(i as usize));
                        }
                    }
                    if to_visit@.contains(i as usize) {
                        let q = choose|q: int| 0 <= q < to_visit@.len() && to_visit@[q] == i as usize;
                        assert(prev_stack[q] == i as usize);
                    }
                }
            }
            proof {
                lemma_distinct_below(reach@, n as int);
            }
            let mut k: usize = 0;
            while k < 4
                invariant
                    0 <= k <= 4,
                    n == tiles@.len(),
                    (current_index as int) < n,
                    visited@.len() == n,
                    visited@[start_index as int],
                    visited@[current_index as int],
                    reach@.last() == current_index,
                    forall|i: int|
                        0 <= i < n ==> (#[trigger] visited@[i] <==> (reach@.contains(i as usize)
                            || to_visit@.contains(i as usize))),
                    forall|k: int| 0 <= k < reach@.len() ==> (#[trigger] reach@[k] as int) < n,
                    forall|k: int|
                        0 <= k < to_visit@.len() ==> (#[trigger] to_visit@[k] as int) < n,
                    reach@.no_duplicates(),
                    to_visit@.no_duplicates(),
                    forall|k: int|
                        0 <= k < to_visit@.len() ==> !reach@.contains(#[trigger] to_visit@[k]),
                    reach@.len() > 0,
                    reach@[0] == start_index,
                    all_marked_reachable(tiles@, visited@, start_index as int),
                    forall|k: int|
                        0 <= k < reach@.len() - 1 ==> closed_at(
                            tiles@,
                            visited@,
                            #[trigger] reach@[k] as int,
                        ),
                    forall|j: int|
                        0 <= j < k ==> (step_to(tiles@, current_index as int, #[trigger] side_at(j))
                            matches Some(b) ==> visited@[b]),
                decreases 4 - k,
            {
                let d = side_at_exec(k);
                let ghost v0 = visited@;
                let ghost s0 = to_visit@;
                match discover(tiles, current_index, d, &mut visited) {
                    Some(b) => {
                        proof {
                            lemma_reachable_step(
                                tiles@,
                                start_index as int,
                                current_index as int,
                                d,
                                b,
                            );
                            assert(!s0.contains(b));
                            assert(!reach@.contains(b));
                        }
                        to_visit.push(b);
                        proof {
                            assert forall|i: int| 0 <= i < n implies (#[trigger] visited@[i] <==> (
                            reach@.contains(i as usize) || to_visit@.contains(i as usize))) by {
                                if i != b {
                                    assert(v0[i] == visited@[i]);
                                    if to_visit@.contains(i as usize) {
                                        let q = choose|q: int|
                                            0 <= q < to_visit@.len() && to_visit@[q] == i as usize;
                                        if q < s0.len() {
                                            assert(s0[q] == i as usize);
                                        }
                                    }
                                    if s0.contains(i as usize) {
                                        let q = choose|q: int| 0 <= q < s0.len() && s0[q] == i as usize;
                                        assert(to_visit@[q] == i as usize);
                                    }
                                } else {
                                    assert(to_visit@[to_visit@.len() - 1] == b);
                                }
                            }
                            assert forall|k2: int|
                                0 <= k2 < reach@.len() - 1 implies closed_at(
                                tiles@,
                                visited@,
                                #[trigger] reach@[k2] as int,
                            ) by {
                                assert(closed_at(tiles@, v0, reach@[k2] as int));
                            }
                        }
                    },
                    None => {},
                }
                k += 1;
            }
            proof {
                assert forall|d: Direction| #[trigger]
                    step_to(tiles@, current_index as int, d) is Some implies {
                    let b = step_to(tiles@, current_index as int, d)->0;
                    0 <= b < visited@.len() && visited@[b]
                } by {
                    lemma_every_side_listed(d);
                    let j = choose|j: int| 0 <= j < 4 && side_at(j) == d;
                    lemma_neighbor_on_board(current_index as int, d);
                }
                assert(closed_at(tiles@, visited@, current_index as int));
            }
        }
        proof {
            assert forall|i: usize| reach@.contains(i) <==> reachable(
                tiles@,
                start_index as int,
                i as int,
            ) by {
                if reach@.contains(i) {
                    let k = choose|k: int| 0 <= k < reach@.len() && reach@[k] == i;
                    assert(visited@[i as int]);
                }
                if reachable(tiles@, start_index as int, i as int) {
                    let p = choose|p: Seq<usize>| #[trigger]
                        is_walk(tiles@, p) && p[0] == start_index as int && p.last() == i as int;
                    assert forall|a: int, d: Direction|
                        0 <= a < visited@.len() && visited@[a] && (#[trigger] step_to(
                            tiles@,
                            a,
                            d,
                        ) is Some) implies {
                        let b = step_to(tiles@, a, d)->0;
                        0 <= b < visited@.len() && visited@[b]
                    } by {
                        let k = choose|k: int| 0 <= k < reach@.len() && reach@[k] == a as usize;
                        assert(closed_at(tiles@, visited@, reach@[k] as int));
                    }
                    lemma_closed_set_holds_walk(tiles@, visited@, p);
                }
            }
        }
        reach
    }
}

} // verus!

verus! {

/// Marks and queue agree: a room is marked exactly when it is in `order`,
/// which holds distinct rooms of the board, `start` first.
#[verifier::opaque]
spec fn queue_consistent(visited: Seq<bool>, order: Seq<usize>, n: int, start: int) -> bool {
    &&& visited.len() == n
    &&& order.len() >= 1
    &&& order[0] == start
    &&& order.no_duplicates()
    &&& forall|k: int| 0 <= k < order.len() ==> (#[trigger] order[k] as int) < n
    &&& forall|i: int| 0 <= i < n ==> (#[trigger] visited[i] <==> order.contains(i as usize))
}

/// Each queued room other than the start remembers the room it was reached
/// from, one step closer to the start.
#[verifier::opaque]
spec fn parents_consistent(
    tiles: Seq<Tile>,
    visited: Seq<bool>,
    order: Seq<usize>,
    parent: Seq<usize>,
    dist: Seq<int>,
    start: int,
) -> bool {
    &&& parent.len() == visited.len()
    &&& dist.len() == visited.len()
    &&& dist[start] == 0
    &&& forall|k: int|
        1 <= k < order.len() ==> {
            let v = #[trigger] order[k] as int;
            &&& (parent[v] as int) < visited.len()
            &&& visited[parent[v] as int]
            &&& dist[v] == dist[parent[v] as int] + 1
            &&& dist[v] >= 1
            &&& step(tiles, parent[v] as int, v)
        }
}

/// Rooms are queued in order of distance, and none is more than one step
/// further than the room being expanded.
#[verifier::opaque]
spec fn queue_layered(order: Seq<usize>, dist: Seq<int>, level: int) -> bool {
    &&& forall|k1: int, k2: int|
        0 <= k1 <= k2 < order.len() ==> dist[#[trigger] order[k1] as int] <= dist[#[trigger] order[k2] as int]
    &&& forall|k: int| 0 <= k < order.len() ==> dist[#[trigger] order[k] as int] <= level + 1
}

/// The rooms of `order[..upto]` have every neighbor marked, at most one step
/// further.
#[verifier::opaque]
spec fn expanded(tiles: Seq<Tile>, visited: Seq<bool>, order: Seq<usize>, dist: Seq<int>, upto: int) -> bool {
    forall|k: int, d: Direction|
        0 <= k < upto && (#[trigger] step_to(tiles, order[k] as int, d) is Some) ==> {
            let b = step_to(tiles, order[k] as int, d)->0;
            &&& 0 <= b < visited.len()
            &&& visited[b]
            &&& dist[b] <= dist[order[k] as int] + 1
        }
}

proof fn lemma_distinct_order_len(visited: Seq<bool>, order: Seq<usize>, n: int, start: int)
    requires
        n >= 0,
        queue_consistent(visited, order, n, start),
    ensures
        order.len() <= n,
{
    reveal(queue_consistent);
    lemma_distinct_below(order, n);
}

/// Once the room at queue position `head - 1` is taken out, no walk from the
/// start reaches a room in fewer steps than the distance recorded for it.
proof fn lemma_no_shorter_walk(
    tiles: Seq<Tile>,
    visited: Seq<bool>,
    order: Seq<usize>,
    dist: Seq<int>,
    head: int,
    start: int,
    q: Seq<usize>,
    i: int,
)
    requires
        queue_consistent(visited, order, tiles.len() as int, start),
        queue_layered(order, dist, dist[order[head - 1] as int]),
        1 <= head <= order.len(),
        dist[start] == 0,
        expanded(tiles, visited, order, dist, head - 1),
        is_walk(tiles, q),
        q[0] == start,
        0 <= i < q.len(),
        i <= dist[order[head - 1] as int],
    ensures
        (q[i] as int) < visited.len(),
        visited[q[i] as int],
        dist[q[i] as int] <= i,
    decreases i,
{
    reveal(queue_consistent);
    reveal(queue_layered);
    reveal(expanded);
    let level = dist[order[head - 1] as int];
    if i == 0 {
        assert(order.contains(start as usize)) by {
            assert(order[0] == start);
        }
    } else {
        lemma_no_shorter_walk(tiles, visited, order, dist, head, start, q, i - 1);
        let u = q[i - 1] as int;
        assert(order.contains(u as usize));
        let p = choose|p: int| 0 <= p < order.len() && order[p] == u as usize;
        if p >= head - 1 {
            assert(dist[order[head - 1] as int] <= dist[order[p] as int]);
        }
        let j = i - 1;
        assert(step(tiles, q[j] as int, q[j + 1] as int));
        let d = choose|d: Direction| #[trigger] step_to(tiles, u, d) == Some(q[i] as int);
        assert(step_to(tiles, order[p] as int, d) is Some);
    }
}

/// Queueing a newly marked neighbor keeps the queue invariants.
proof fn lemma_enqueue(
    tiles: Seq<Tile>,
    v0: Seq<bool>,
    o0: Seq<usize>,
    p0: Seq<usize>,
    dist0: Seq<int>,
    visited: Seq<bool>,
    order: Seq<usize>,
    parent: Seq<usize>,
    dist: Seq<int>,
    current_index: usize,
    d: Direction,
    b: usize,
    level: int,
    head: int,
    start: int,
)
    requires
        tiles.len() >= BOARD_TILES,
        tiles.len() <= usize::MAX,
        1 <= head <= o0.len(),
        o0.len() <= tiles.len(),
        current_index == o0[head - 1],
        level == dist0[current_index as int],
        queue_consistent(v0, o0, tiles.len() as int, start),
        parents_consistent(tiles, v0, o0, p0, dist0, start),
        queue_layered(o0, dist0, level),
        expanded(tiles, v0, o0, dist0, head - 1),
        step_to(tiles, current_index as int, d) == Some(b as int),
        !v0[b as int],
        visited == v0.update(b as int, true),
        order == o0.push(b),
        parent == p0.update(b as int, current_index),
        dist == dist0.update(b as int, level + 1),
    ensures
        order.len() <= tiles.len(),
        queue_consistent(visited, order, tiles.len() as int, start),
        parents_consistent(tiles, visited, order, parent, dist, start),
        queue_layered(order, dist, level),
        expanded(tiles, visited, order, dist, head - 1),
        dist[current_index as int] == level,
{
    reveal(queue_consistent);
    reveal(parents_consistent);
    reveal(queue_layered);
    reveal(expanded);
    let n = tiles.len();
    lemma_neighbor_on_board(current_index as int, d);
    assert(!o0.contains(b));
    assert(o0.contains(current_index));
    lemma_distinct_below(order, n as int);
    assert(step(tiles, current_index as int, b as int));
    assert forall|i: int|
        0 <= i < n implies (#[trigger] visited[i] <==> order.contains(
        i as usize,
    )) by {
        assert(v0.len() == n);
        assert(visited.len() == n);
        if i != b as int {
            assert(v0[i] == visited[i]);
            assert(v0[i] <==> o0.contains(i as usize));
            if order.contains(i as usize) {
                let q = choose|q: int|
                    0 <= q < order.len() && order[q] == i as usize;
                if q < o0.len() {
                    assert(o0[q] == i as usize);
                } else {
                    assert(order[q] == b);
                }
                assert(o0.contains(i as usize));
            }
            if o0.contains(i as usize) {
                let q = choose|q: int| 0 <= q < o0.len() && o0[q] == i as usize;
                assert(order[q] == i as usize);
                assert(order.contains(i as usize));
            }
        } else {
            assert(order[order.len() - 1] == b);
            assert(visited[i]);
            assert(order.contains(i as usize));
        }
    }
    assert forall|k1: int|
        1 <= k1 < order.len() implies {
        let v = #[trigger] order[k1] as int;
        &&& (parent[v] as int) < visited.len()
        &&& visited[parent[v] as int]
        &&& dist[v] == dist[parent[v] as int] + 1
        &&& dist[v] >= 1
        &&& step(tiles, parent[v] as int, v)
    } by {
        if k1 < o0.len() {
            assert(o0[k1] == order[k1]);
            assert(o0[k1] != b);
            assert(visited[parent[o0[k1] as int] as int]);
        } else {
            assert(order[k1] == b);
            assert(o0.contains(current_index));
        }
    }
    assert(dist[start] == 0) by {
        assert(o0[0] == start);
    }
    assert forall|k1: int, k2: int|
        0 <= k1 <= k2 < order.len() implies dist[#[trigger] order[k1] as int]
        <= dist[#[trigger] order[k2] as int] by {
        if k2 < o0.len() {
            assert(dist0[o0[k1] as int] <= dist0[o0[k2] as int]);
        } else if k1 < o0.len() {
            assert(dist0[o0[k1] as int] <= level + 1);
        }
    }
    assert forall|k1: int|
        0 <= k1 < order.len() implies dist[#[trigger] order[k1] as int]
        <= level + 1 by {
        if k1 < o0.len() {
            assert(dist0[o0[k1] as int] <= level + 1);
        }
    }
    assert forall|k1: int, d1: Direction|
        0 <= k1 < head - 1 && (#[trigger] step_to(
            tiles,
            order[k1] as int,
            d1,
        ) is Some) implies {
        let b1 = step_to(tiles, order[k1] as int, d1)->0;
        &&& 0 <= b1 < visited.len()
        &&& visited[b1]
        &&& dist[b1] <= dist[order[k1] as int] + 1
    } by {
        assert(o0[k1] == order[k1]);
        let b1 = step_to(tiles, order[k1] as int, d1)->0;
        assert(v0[b1]);
        assert(b1 != b);
        assert(o0[k1] != b);
    }
}

/// Each queued room's key lists the sides of its remembered walk from the
/// start: the key of the room it was reached from, then the side of that
/// step.
#[verifier::opaque]
spec fn keys_follow(order: Seq<usize>, parent: Seq<usize>, dist: Seq<int>, key: Seq<Seq<int>>, start: int) -> bool {
    &&& key.len() == dist.len()
    &&& key[start].len() == 0
    &&& forall|k: int| 0 <= k < order.len() ==> key[#[trigger] order[k] as int].len() == dist[order[k] as int]
    &&& forall|k: int|
        1 <= k < order.len() ==> key[#[trigger] order[k] as int] == key[parent[order[k] as int] as int].push(
            side_rank(side_between(parent[order[k] as int] as int, order[k] as int)),
        )
}

/// Rooms at one distance are queued in dictionary order of their keys.
#[verifier::opaque]
spec fn keys_sorted(order: Seq<usize>, dist: Seq<int>, key: Seq<Seq<int>>) -> bool {
    forall|k1: int, k2: int|
        0 <= k1 < k2 < order.len() && dist[#[trigger] order[k1] as int] == dist[#[trigger] order[k2] as int]
            ==> ranks_before(key[order[k1] as int], key[order[k2] as int])
}

/// No walk from the start as short as a queued room's remembered one takes
/// sides that come before its key.
#[verifier::opaque]
spec fn keys_least(tiles: Seq<Tile>, order: Seq<usize>, dist: Seq<int>, key: Seq<Seq<int>>, start: int) -> bool {
    forall|k: int, q: Seq<usize>|
        #![trigger order[k], is_walk(tiles, q)]
        0 <= k < order.len() && is_walk(tiles, q) && q[0] == start && q.last() == order[k] && q.len()
            == dist[order[k] as int] + 1 ==> !ranks_before(walk_ranks(q), key[order[k] as int])
}

/// Every queued room but the start was reached from one of the first `head`
/// queued rooms.
#[verifier::opaque]
spec fn parents_expanded(order: Seq<usize>, parent: Seq<usize>, head: int) -> bool {
    forall|k: int| 1 <= k < order.len() ==> #[trigger] parent_among(order, parent, head, order[k] as int)
}

/// Room `v` was reached from one of the first `head` queued rooms.
spec fn parent_among(order: Seq<usize>, parent: Seq<usize>, head: int, v: int) -> bool {
    exists|j: int| 0 <= j < head && order[j] == parent[v]
}

/// The queued rooms one step further than room `u` all come before any room
/// `u` still reaches through a side of rank `k` or later.
spec fn keys_below(order: Seq<usize>, dist: Seq<int>, key: Seq<Seq<int>>, u: int, k: int) -> bool {
    forall|k2: int|
        0 <= k2 < order.len() && dist[#[trigger] order[k2] as int] == dist[u] + 1 ==> ranks_before(
            key[order[k2] as int],
            key[u].push(k),
        )
}

/// Moving on to the next side keeps `keys_below`.
proof fn lemma_keys_below_next(order: Seq<usize>, dist: Seq<int>, key: Seq<Seq<int>>, u: int, k: int)
    requires
        keys_below(order, dist, key, u, k),
    ensures
        keys_below(order, dist, key, u, k + 1),
{
    lemma_push_before(key[u], k, k + 1);
    assert forall|k2: int|
        0 <= k2 < order.len() && dist[#[trigger] order[k2] as int] == dist[u] + 1 implies ranks_before(
        key[order[k2] as int],
        key[u].push(k + 1),
    ) by {
        lemma_before_trans(key[order[k2] as int], key[u].push(k), key[u].push(k + 1));
    }
}

/// Before room `u`, at queue position `head - 1`, is expanded, every room
/// queued one step further than it comes before what `u` will reach.
proof fn lemma_keys_below_start(
    order: Seq<usize>,
    parent: Seq<usize>,
    dist: Seq<int>,
    key: Seq<Seq<int>>,
    visited: Seq<bool>,
    tiles: Seq<Tile>,
    head: int,
    start: int,
)
    requires
        1 <= head <= order.len(),
        queue_consistent(visited, order, tiles.len() as int, start),
        parents_consistent(tiles, visited, order, parent, dist, start),
        keys_follow(order, parent, dist, key, start),
        keys_sorted(order, dist, key),
        parents_expanded(order, parent, head - 1),
    ensures
        keys_below(order, dist, key, order[head - 1] as int, 0),
{
    reveal(queue_consistent);
    reveal(parents_consistent);
    reveal(keys_follow);
    reveal(keys_sorted);
    reveal(parents_expanded);
    let u = order[head - 1] as int;
    assert forall|k2: int|
        0 <= k2 < order.len() && dist[#[trigger] order[k2] as int] == dist[u] + 1 implies ranks_before(
        key[order[k2] as int],
        key[u].push(0),
    ) by {
        let w = order[k2] as int;
        if k2 == 0 {
            assert(dist[w] == 0);
        }
        assert(parent_among(order, parent, head - 1, w));
        let j = choose|j: int| 0 <= j < head - 1 && order[j] == parent[w];
        assert(dist[order[j] as int] == dist[u]);
        assert(ranks_before(key[order[j] as int], key[order[head - 1] as int]));
        lemma_before_push(key[order[j] as int], key[u], side_rank(side_between(parent[w] as int, w)), 0);
    }
}

/// Queueing room `b`, reached from room `current_index` through side `d`,
/// keeps the remembered walks and their order.
proof fn lemma_enqueue_keys(
    tiles: Seq<Tile>,
    v0: Seq<bool>,
    o0: Seq<usize>,
    p0: Seq<usize>,
    dist0: Seq<int>,
    key0: Seq<Seq<int>>,
    order: Seq<usize>,
    parent: Seq<usize>,
    dist: Seq<int>,
    key: Seq<Seq<int>>,
    current_index: usize,
    d: Direction,
    b: usize,
    level: int,
    head: int,
    start: int,
)
    requires
        tiles.len() >= BOARD_TILES,
        1 <= head <= o0.len(),
        current_index == o0[head - 1],
        level == dist0[current_index as int],
        queue_consistent(v0, o0, tiles.len() as int, start),
        parents_consistent(tiles, v0, o0, p0, dist0, start),
        queue_layered(o0, dist0, level),
        expanded(tiles, v0, o0, dist0, head - 1),
        keys_follow(o0, p0, dist0, key0, start),
        keys_sorted(o0, dist0, key0),
        keys_least(tiles, o0, dist0, key0, start),
        parents_expanded(o0, p0, head),
        keys_below(o0, dist0, key0, current_index as int, side_rank(d)),
        step_to(tiles, current_index as int, d) == Some(b as int),
        !v0[b as int],
        order == o0.push(b),
        parent == p0.update(b as int, current_index),
        dist == dist0.update(b as int, level + 1),
        key == key0.update(b as int, key0[current_index as int].push(side_rank(d))),
    ensures
        keys_follow(order, parent, dist, key, start),
        keys_sorted(order, dist, key),
        key[current_index as int] == key0[current_index as int],
{
    reveal(queue_consistent);
    let u = current_index as int;
    lemma_neighbor_on_board(u, d);
    lemma_side_between(u, d, b as int);
    assert(!o0.contains(b));
    assert(o0.contains(current_index));
    assert(b as int != u);
    assert(b as int != start) by {
        assert(o0[0] == start);
    }
    reveal(parents_consistent);
    reveal(keys_follow);
    reveal(keys_sorted);
    reveal(parents_expanded);
    let kb = key0[u].push(side_rank(d));
    // the remembered walks
    assert forall|k: int|
        1 <= k < order.len() implies key[#[trigger] order[k] as int] == key[parent[order[k] as int] as int].push(
        side_rank(side_between(parent[order[k] as int] as int, order[k] as int)),
    ) by {
        if k < o0.len() {
            assert(o0[k] == order[k]);
            assert(o0[k] != b);
            let pw = p0[o0[k] as int];
            assert(v0[pw as int]);
            assert(pw != b);
        }
    }
    assert forall|k: int| 0 <= k < order.len() implies key[#[trigger] order[k] as int].len() == dist[order[k] as int] by {
        if k < o0.len() {
            assert(o0[k] == order[k]);
            assert(o0[k] != b);
        }
    }
    // sortedness
    assert forall|k1: int, k2: int|
        0 <= k1 < k2 < order.len() && dist[#[trigger] order[k1] as int] == dist[#[trigger] order[k2] as int]
            implies ranks_before(key[order[k1] as int], key[order[k2] as int]) by {
        assert(order[k1] == o0[k1]);
        assert(o0[k1] != b);
        if k2 < o0.len() {
            assert(order[k2] == o0[k2]);
            assert(o0[k2] != b);
        } else {
            assert(order[k2] == b);
            assert(dist0[o0[k1] as int] == level + 1);
        }
    }

}

/// Queueing room `b`, reached from the room at queue position `head - 1`,
/// keeps every parent among the first `head` queued rooms.
proof fn lemma_enqueue_parent(
    v0: Seq<bool>,
    o0: Seq<usize>,
    p0: Seq<usize>,
    order: Seq<usize>,
    parent: Seq<usize>,
    current_index: usize,
    b: usize,
    head: int,
)
    requires
        1 <= head <= o0.len(),
        current_index == o0[head - 1],
        p0.len() == v0.len(),
        (b as int) < v0.len(),
        forall|i: int| 0 <= i < v0.len() ==> (#[trigger] v0[i] <==> o0.contains(i as usize)),
        forall|k: int| 0 <= k < o0.len() ==> (#[trigger] o0[k] as int) < v0.len(),
        !v0[b as int],
        parents_expanded(o0, p0, head),
        order == o0.push(b),
        parent == p0.update(b as int, current_index),
    ensures
        parents_expanded(order, parent, head),
{
    reveal(parents_expanded);
    assert(!o0.contains(b));
    assert forall|k: int| 1 <= k < order.len() implies #[trigger] parent_among(order, parent, head, order[k] as int) by {
        if k < o0.len() {
            assert(o0[k] == order[k]);
            assert(o0[k] != b);
            assert(parent_among(o0, p0, head, o0[k] as int));
            let j = choose|j: int| 0 <= j < head && o0[j] == p0[o0[k] as int];
            assert(order[j] == o0[j]);
            assert(parent[order[k] as int] == p0[o0[k] as int]);
            assert(0 <= j < head && order[j] == parent[order[k] as int]);
        } else {
            assert(order[k] == b);
            assert(parent[b as int] == current_index);
            assert(order[head - 1] == o0[head - 1]);
            assert(0 <= head - 1 < head && order[head - 1] == parent[order[k] as int]);
        }
    }
}

/// Queueing room `b` keeps every room still below what the expanded room
/// reaches through its next side.
proof fn lemma_enqueue_below(
    tiles: Seq<Tile>,
    v0: Seq<bool>,
    o0: Seq<usize>,
    p0: Seq<usize>,
    dist0: Seq<int>,
    key0: Seq<Seq<int>>,
    order: Seq<usize>,
    parent: Seq<usize>,
    dist: Seq<int>,
    key: Seq<Seq<int>>,
    current_index: usize,
    d: Direction,
    b: usize,
    level: int,
    head: int,
    start: int,
)
    requires
        tiles.len() >= BOARD_TILES,
        1 <= head <= o0.len(),
        current_index == o0[head - 1],
        level == dist0[current_index as int],
        queue_consistent(v0, o0, tiles.len() as int, start),
        parents_consistent(tiles, v0, o0, p0, dist0, start),
        queue_layered(o0, dist0, level),
        expanded(tiles, v0, o0, dist0, head - 1),
        keys_follow(o0, p0, dist0, key0, start),
        keys_sorted(o0, dist0, key0),
        keys_least(tiles, o0, dist0, key0, start),
        parents_expanded(o0, p0, head),
        keys_below(o0, dist0, key0, current_index as int, side_rank(d)),
        step_to(tiles, current_index as int, d) == Some(b as int),
        !v0[b as int],
        order == o0.push(b),
        parent == p0.update(b as int, current_index),
        dist == dist0.update(b as int, level + 1),
        key == key0.update(b as int, key0[current_index as int].push(side_rank(d))),
    ensures
        keys_below(order, dist, key, current_index as int, side_rank(d) + 1),
{
    reveal(queue_consistent);
    reveal(parents_consistent);
    let u = current_index as int;
    lemma_neighbor_on_board(u, d);
    lemma_side_between(u, d, b as int);
    assert(!o0.contains(b));
    assert(o0.contains(current_index));
    assert(b as int != u);
    assert(b as int != start) by {
        assert(o0[0] == start);
    }
    reveal(keys_follow);
    let kb = key0[u].push(side_rank(d));
    // still below the next side
    lemma_push_before(key0[u], side_rank(d), side_rank(d) + 1);
    assert forall|k2: int|
        0 <= k2 < order.len() && dist[#[trigger] order[k2] as int] == dist[u] + 1 implies ranks_before(
        key[order[k2] as int],
        key[u].push(side_rank(d) + 1),
    ) by {
        if k2 < o0.len() {
            assert(order[k2] == o0[k2]);
            assert(o0[k2] != b);
            lemma_before_trans(key0[o0[k2] as int], kb, key0[u].push(side_rank(d) + 1));
        } else {
            assert(order[k2] == b);
        }
    }
}

/// Queueing room `b` keeps every remembered walk the least one.
proof fn lemma_enqueue_least(
    tiles: Seq<Tile>,
    v0: Seq<bool>,
    o0: Seq<usize>,
    p0: Seq<usize>,
    dist0: Seq<int>,
    key0: Seq<Seq<int>>,
    order: Seq<usize>,
    parent: Seq<usize>,
    dist: Seq<int>,
    key: Seq<Seq<int>>,
    current_index: usize,
    d: Direction,
    b: usize,
    level: int,
    head: int,
    start: int,
)
    requires
        tiles.len() >= BOARD_TILES,
        1 <= head <= o0.len(),
        current_index == o0[head - 1],
        level == dist0[current_index as int],
        queue_consistent(v0, o0, tiles.len() as int, start),
        parents_consistent(tiles, v0, o0, p0, dist0, start),
        queue_layered(o0, dist0, level),
        expanded(tiles, v0, o0, dist0, head - 1),
        keys_follow(o0, p0, dist0, key0, start),
        keys_sorted(o0, dist0, key0),
        keys_least(tiles, o0, dist0, key0, start),
        parents_expanded(o0, p0, head),
        keys_below(o0, dist0, key0, current_index as int, side_rank(d)),
        step_to(tiles, current_index as int, d) == Some(b as int),
        !v0[b as int],
        order == o0.push(b),
        parent == p0.update(b as int, current_index),
        dist == dist0.update(b as int, level + 1),
        key == key0.update(b as int, key0[current_index as int].push(side_rank(d))),
    ensures
        keys_least(tiles, order, dist, key, start),
{
    reveal(queue_consistent);
    reveal(parents_consistent);
    let u = current_index as int;
    lemma_neighbor_on_board(u, d);
    lemma_side_between(u, d, b as int);
    assert(!o0.contains(b));
    assert(o0.contains(current_index));
    assert(b as int != u);
    assert(b as int != start) by {
        assert(o0[0] == start);
    }
    reveal(queue_layered);
    reveal(expanded);
    reveal(keys_follow);
    reveal(keys_sorted);
    reveal(keys_least);
    // least keys
    assert forall|k: int, q: Seq<usize>|
        #![trigger order[k], is_walk(tiles, q)]
        0 <= k < order.len() && is_walk(tiles, q) && q[0] == start && q.last() == order[k] && q.len()
            == dist[order[k] as int] + 1 implies !ranks_before(walk_ranks(q), key[order[k] as int]) by {
        if k < o0.len() {
            assert(order[k] == o0[k]);
            assert(o0[k] != b);
        } else {
            assert(order[k] == b);
            lemma_new_key_least(tiles, v0, o0, p0, dist0, key0, current_index, d, b, level, head, start, q);
        }
    }
}

/// The walk remembered for a newly queued room is the least one.
proof fn lemma_new_key_least(
    tiles: Seq<Tile>,
    v0: Seq<bool>,
    o0: Seq<usize>,
    p0: Seq<usize>,
    dist0: Seq<int>,
    key0: Seq<Seq<int>>,
    current_index: usize,
    d: Direction,
    b: usize,
    level: int,
    head: int,
    start: int,
    q: Seq<usize>,
)
    requires
        tiles.len() >= BOARD_TILES,
        1 <= head <= o0.len(),
        current_index == o0[head - 1],
        level == dist0[current_index as int],
        queue_consistent(v0, o0, tiles.len() as int, start),
        parents_consistent(tiles, v0, o0, p0, dist0, start),
        queue_layered(o0, dist0, level),
        expanded(tiles, v0, o0, dist0, head - 1),
        keys_follow(o0, p0, dist0, key0, start),
        keys_sorted(o0, dist0, key0),
        keys_least(tiles, o0, dist0, key0, start),
        step_to(tiles, current_index as int, d) == Some(b as int),
        !v0[b as int],
        is_walk(tiles, q),
        q[0] == start,
        q.last() == b,
        q.len() == level + 2,
    ensures
        !ranks_before(walk_ranks(q), key0[current_index as int].push(side_rank(d))),
{
    reveal(queue_consistent);
    reveal(parents_consistent);
    reveal(queue_layered);
    reveal(expanded);
    reveal(keys_follow);
    reveal(keys_sorted);
    reveal(keys_least);
    let u = current_index as int;
    lemma_side_between(u, d, b as int);
    let lv = level;
    
    lemma_no_shorter_walk(tiles, v0, o0, dist0, head, start, q, lv);
    let up = q[lv];
    assert(o0.contains(up));
    let pp = choose|pp: int| 0 <= pp < o0.len() && o0[pp] == up;
    let prefix = q.drop_last();
    lemma_walk_drop_last(tiles, q);
    lemma_walk_ranks_last(q);
    assert(q[q.len() - 2] == up);
    lemma_step_side(tiles, up as int, b as int);
    let r2 = side_rank(side_between(up as int, b as int));
    if pp < head - 1 {
        assert(step_to(tiles, o0[pp] as int, side_between(up as int, b as int)) is Some);
        assert(false);
    }
    assert(dist0[o0[head - 1] as int] <= dist0[o0[pp] as int]);
    assert(dist0[up as int] == lv);
    assert(prefix.len() == dist0[o0[pp] as int] + 1);
    assert(prefix[0] == start);
    assert(prefix.last() == o0[pp]);
    assert(!ranks_before(walk_ranks(prefix), key0[o0[pp] as int]));
    assert(walk_ranks(prefix).len() == lv);
    if pp == head - 1 {
        assert(up == current_index);
        if ranks_before(walk_ranks(q), key0[u].push(side_rank(d))) {
            lemma_before_of_push(walk_ranks(prefix), key0[u], r2, side_rank(d));
        }
    } else {
        assert(ranks_before(key0[o0[head - 1] as int], key0[o0[pp] as int]));
        lemma_not_before_then(walk_ranks(prefix), key0[up as int], key0[u]);
        lemma_before_push(key0[u], walk_ranks(prefix), side_rank(d), r2);
        lemma_before_asym(key0[u].push(side_rank(d)), walk_ranks(q));
    }
}

/// A bound on the parents' queue positions holds for any larger bound.
proof fn lemma_parents_expanded_grow(order: Seq<usize>, parent: Seq<usize>, head: int)
    requires
        parents_expanded(order, parent, head),
    ensures
        parents_expanded(order, parent, head + 1),
{
    reveal(parents_expanded);
    assert forall|k: int| 1 <= k < order.len() implies #[trigger] parent_among(order, parent, head + 1, order[k] as int) by {
        assert(parent_among(order, parent, head, order[k] as int));
        let j = choose|j: int| 0 <= j < head && order[j] == parent[order[k] as int];
        assert(0 <= j < head + 1 && order[j] == parent[order[k] as int]);
    }
}

/// Along a walk that follows remembered parents from the start, each room's
/// key lists the sides the walk takes to reach it.
proof fn lemma_keys_along(
    order: Seq<usize>,
    parent: Seq<usize>,
    dist: Seq<int>,
    key: Seq<Seq<int>>,
    visited: Seq<bool>,
    n: int,
    start: int,
    p: Seq<usize>,
    i: int,
)
    requires
        queue_consistent(visited, order, n, start),
        keys_follow(order, parent, dist, key, start),
        p.len() >= 1,
        p[0] == start,
        0 <= i < p.len(),
        forall|j: int|
            0 <= j < p.len() - 1 ==> parent[#[trigger] p[j + 1] as int] == p[j] && p[j + 1] != start && (p[j
                + 1] as int) < n && visited[p[j + 1] as int],
    ensures
        walk_ranks(p.take(i + 1)) == key[p[i] as int],
    decreases i,
{
    reveal(queue_consistent);
    reveal(keys_follow);
    if i == 0 {
        assert(walk_ranks(p.take(1)) =~= key[p[0] as int]);
    } else {
        lemma_keys_along(order, parent, dist, key, visited, n, start, p, i - 1);
        let j = i - 1;
        assert(parent[p[j + 1] as int] == p[j]);
        assert(order.contains(p[i]));
        let k = choose|k: int| 0 <= k < order.len() && order[k] == p[i];
        if k == 0 {
            assert(p[i] == start);
        }
        assert(key[order[k] as int] == key[parent[order[k] as int] as int].push(
            side_rank(side_between(parent[order[k] as int] as int, order[k] as int)),
        ));
        let t = p.take(i + 1);
        lemma_walk_ranks_last(t);
        assert(t.drop_last() =~= p.take(i));
    }
}

fn reversed(v: &Vec<usize>) -> (r: Vec<usize>)
    ensures
        r@.len() == v@.len(),
        forall|i: int| 0 <= i < v@.len() ==> r@[i] == v@[v@.len() - 1 - i],
{
    let mut r: Vec<usize> = Vec::new();
    let mut i: usize = v.len();
    while i > 0
        invariant
            i <= v@.len(),
            r@.len() == v@.len() - i,
            forall|j: int| 0 <= j < r@.len() ==> r@[j] == v@[v@.len() - 1 - j],
        decreases i,
    {
        i -= 1;
        r.push(v[i]);
    }
    r
}

impl Tile {
    /// The shortest walk from `start_index` to `target_index` through facing
    /// entrances that a breadth-first search trying the sides up, down,
    /// left, right finds (see `is_least_walk`), or `None` when there is none.
    pub fn find_walkable_path(start_index: usize, target_index: usize, tiles: &[Tile]) -> (r:
        Option<Vec<usize>>)
        requires
            start_index == target_index || start_index < tiles@.len(),
            tiles@.len() >= BOARD_TILES,
        ensures
            r is Some <==> reachable(tiles@, start_index as int, target_index as int),
            r matches Some(p) ==> is_least_walk(tiles@, p@, start_index as int, target_index as int),
    {
        if start_index == target_index {
            let mut p: Vec<usize> = Vec::new();
            p.push(start_index);
            proof {
                lemma_reachable_refl(tiles@, start_index);
                assert(is_walk(tiles@, p@));
                assert forall|q: Seq<usize>| #[trigger]
                    is_shortest_walk(tiles@, q, start_index as int, target_index as int) implies !ranks_before(
                    walk_ranks(q),
                    walk_ranks(p@),
                ) by {
                    assert(q.len() <= p@.len());
                    assert(walk_ranks(q).len() == 0);
                }
            }
            return Some(p);
        }
        let n = tiles.len();
        let mut visited = all_false(n);
        let mut parent: Vec<usize> = Vec::new();
        let mut i: usize = 0;
        while i < n
            invariant
                i <= n,
                parent@.len() == i,
            decreases n - i,
        {
            parent.push(0);
            i += 1;
        }
        let ghost mut dist: Seq<int> = Seq::new(n as nat, |j: int| 0int);
        let ghost mut key: Seq<Seq<int>> = Seq::new(n as nat, |j: int| Seq::<int>::empty());
        let mut order: Vec<usize> = Vec::new();
        order.push(start_index);
        visited.set(start_index, true);
        let mut head: usize = 0;
        proof {
            reveal(queue_consistent);
            reveal(parents_consistent);
            reveal(queue_layered);
            reveal(expanded);
            reveal(keys_follow);
            reveal(keys_sorted);
            reveal(keys_least);
            reveal(parents_expanded);
            assert forall|k: int, q: Seq<usize>|
                #![trigger order@[k], is_walk(tiles@, q)]
                0 <= k < order@.len() && is_walk(tiles@, q) && q[0] == start_index && q.last() == order@[k]
                    && q.len() == dist[order@[k] as int] + 1 implies !ranks_before(walk_ranks(q), key[order@[k] as int]) by {
                assert(walk_ranks(q).len() == 0);
            }
            assert forall|i: int|
                0 <= i < n implies (#[trigger] visited@[i] <==> order@.contains(i as usize)) by {
                if order@.contains(i as usize) {
                    assert(order@[0] == start_index);
                }
                if i == start_index {
                    assert(order@[0] == start_index);
                }
            }
        }
        while head < order.len()
            invariant
                n == tiles@.len(),
                n >= BOARD_TILES,
                start_index < n,
                start_index != target_index,
                head <= order@.len(),
                order@.len() <= n,
                queue_consistent(visited@, order@, n as int, start_index as int),
                parents_consistent(tiles@, visited@, order@, parent@, dist, start_index as int),
                head < order@.len() ==> queue_layered(order@, dist, dist[order@[head as int] as int]),
                head == order@.len() ==> queue_layered(order@, dist, dist[order@[head - 1] as int]),
                expanded(tiles@, visited@, order@, dist, head as int),
                keys_follow(order@, parent@, dist, key, start_index as int),
                keys_sorted(order@, dist, key),
                keys_least(tiles@, order@, dist, key, start_index as int),
                parents_expanded(order@, parent@, head as int),
                forall|k: int| 0 <= k < head ==> order@[k] != target_index,
            decreases n - head,
        {
            let current_index = order[head];
            head += 1;
            if current_index == target_index {
                return Some(
                    Self::trace_back(
                        tiles,
                        start_index,
                        target_index,
                        &parent,
                        Ghost(visited@),
                        Ghost(order@),
                        Ghost(dist),
                        Ghost(key),
                        Ghost(head as int),
                    ),
                );
            }
            let ghost o_before = order@;
            let Ghost(new_state) = Self::expand_room(
                tiles,
                current_index,
                Ghost(head as int),
                Ghost(start_index as int),
                &mut visited,
                &mut parent,
                &mut order,
                Ghost(dist),
                Ghost(key),
            );
            proof {
                dist = new_state.0;
                key = new_state.1;
                reveal(queue_layered);
                lemma_distinct_order_len(visited@, order@, n as int, start_index as int);
                assert forall|k: int| 0 <= k < head implies order@[k] != target_index by {
                    assert(o_before[k] == order@[k]);
                }
                if head < order@.len() {
                    assert forall|k1: int|
                        0 <= k1 < order@.len() implies dist[#[trigger] order@[k1] as int] <= dist[order@[
                        head as int] as int] + 1 by {
                        assert(dist[order@[head - 1] as int] <= dist[order@[head as int] as int]);
                    }
                }
            }
        }
        proof {
            reveal(queue_consistent);
            reveal(expanded);
            if reachable(tiles@, start_index as int, target_index as int) {
                let p = choose|p: Seq<usize>| #[trigger]
                    is_walk(tiles@, p) && p[0] == start_index as int && p.last() == target_index as int;
                assert forall|a: int, d: Direction|
                    0 <= a < visited@.len() && visited@[a] && (#[trigger] step_to(tiles@, a, d) is Some) implies {
                    let b = step_to(tiles@, a, d)->0;
                    0 <= b < visited@.len() && visited@[b]
                } by {
                    assert(order@.contains(a as usize));
                    let k = choose|k: int| 0 <= k < order@.len() && order@[k] == a as usize;
                    assert(step_to(tiles@, order@[k] as int, d) is Some);
                }
                assert(visited@[start_index as int]) by {
                    assert(order@[0] == start_index);
                }
                lemma_closed_set_holds_walk(tiles@, visited@, p);
                assert(order@.contains(target_index));
            }
        }
        None
    }

    /// Marks and queues every unmarked room one step away from
    /// `current_index`, one step further from the start than it.
    fn expand_room(
        tiles: &[Tile],
        current_index: usize,
        Ghost(head): Ghost<int>,
        Ghost(start): Ghost<int>,
        visited: &mut Vec<bool>,
        parent: &mut Vec<usize>,
        order: &mut Vec<usize>,
        Ghost(dist_in): Ghost<Seq<int>>,
        Ghost(key_in): Ghost<Seq<Seq<int>>>,
    ) -> (new_state: Ghost<(Seq<int>, Seq<Seq<int>>)>)
        requires
            tiles@.len() >= BOARD_TILES,
            1 <= head <= old(order)@.len(),
            old(order)@.len() <= tiles@.len(),
            current_index == old(order)@[head - 1],
            queue_consistent(old(visited)@, old(order)@, tiles@.len() as int, start),
            parents_consistent(tiles@, old(visited)@, old(order)@, old(parent)@, dist_in, start),
            queue_layered(old(order)@, dist_in, dist_in[current_index as int]),
            expanded(tiles@, old(visited)@, old(order)@, dist_in, head - 1),
            keys_follow(old(order)@, old(parent)@, dist_in, key_in, start),
            keys_sorted(old(order)@, dist_in, key_in),
            keys_least(tiles@, old(order)@, dist_in, key_in, start),
            parents_expanded(old(order)@, old(parent)@, head - 1),
        ensures
            final(order)@.len() <= tiles@.len(),
            old(order)@.len() <= final(order)@.len(),
            forall|k: int| 0 <= k < old(order)@.len() ==> final(order)@[k] == old(order)@[k],
            new_state@.0[current_index as int] == dist_in[current_index as int],
            queue_consistent(final(visited)@, final(order)@, tiles@.len() as int, start),
            parents_consistent(tiles@, final(visited)@, final(order)@, final(parent)@, new_state@.0, start),
            queue_layered(final(order)@, new_state@.0, dist_in[current_index as int]),
            expanded(tiles@, final(visited)@, final(order)@, new_state@.0, head),
            keys_follow(final(order)@, final(parent)@, new_state@.0, new_state@.1, start),
            keys_sorted(final(order)@, new_state@.0, new_state@.1),
            keys_least(tiles@, final(order)@, new_state@.0, new_state@.1, start),
            parents_expanded(final(order)@, final(parent)@, head),
    {
        let n = tiles.len();
        let ghost mut dist = dist_in;
        let ghost mut key = key_in;
        let ghost level = dist[current_index as int];
        let ghost order_in = order@;
        proof {
            reveal(queue_consistent);
            reveal(parents_consistent);
            assert(order_in.contains(current_index));
            lemma_keys_below_start(order@, parent@, dist, key, visited@, tiles@, head, start);
            lemma_parents_expanded_grow(order@, parent@, head - 1);
        }
        let mut k: usize = 0;
        while k < 4
            invariant
                0 <= k <= 4,
                n == tiles@.len(),
                n >= BOARD_TILES,
                1 <= head <= order@.len(),
                order@.len() <= n,
                order_in.len() <= order@.len(),
                forall|k2: int| 0 <= k2 < order_in.len() ==> order@[k2] == order_in[k2],
                current_index == order@[head - 1],
                (current_index as int) < n,
                visited@.len() == n,
                parent@.len() == n,
                dist.len() == n,
                level == dist[current_index as int],
                level == dist_in[current_index as int],
                queue_consistent(visited@, order@, n as int, start),
                parents_consistent(tiles@, visited@, order@, parent@, dist, start),
                queue_layered(order@, dist, level),
                expanded(tiles@, visited@, order@, dist, head - 1),
                forall|j: int|
                    0 <= j < k ==> (step_to(tiles@, current_index as int, #[trigger] side_at(j))
                        matches Some(b) ==> visited@[b] && dist[b] <= level + 1),
                keys_follow(order@, parent@, dist, key, start),
                keys_sorted(order@, dist, key),
                keys_least(tiles@, order@, dist, key, start),
                parents_expanded(order@, parent@, head),
                keys_below(order@, dist, key, current_index as int, k as int),
            decreases 4 - k,
        {
            let d = side_at_exec(k);
            let ghost v0 = visited@;
            let ghost o0 = order@;
            let ghost dist0 = dist;
            let ghost key0 = key;
            proof {
                lemma_side_rank_at(k as int);
            }
            match discover(tiles, current_index, d, visited) {
                Some(b) => {
                    proof {
                        reveal(queue_consistent);
                        lemma_neighbor_on_board(current_index as int, d);
                        assert(!o0.contains(b));
                    }
                    let ghost p0 = parent@;
                    parent.set(b, current_index);
                    order.push(b);
                    proof {
                        dist = dist.update(b as int, level + 1);
                        key = key.update(b as int, key0[current_index as int].push(side_rank(d)));
                        assert(0 <= b < n) by {
                            lemma_neighbor_on_board(current_index as int, d);
                        }
                        lemma_enqueue(
                            tiles@, v0, o0, p0, dist0, visited@, order@, parent@, dist,
                            current_index, d, b, level, head, start,
                        );
                        lemma_enqueue_keys(
                            tiles@, v0, o0, p0, dist0, key0, order@, parent@, dist, key,
                            current_index, d, b, level, head, start,
                        );
                        lemma_enqueue_below(
                            tiles@, v0, o0, p0, dist0, key0, order@, parent@, dist, key,
                            current_index, d, b, level, head, start,
                        );
                        lemma_enqueue_least(
                            tiles@, v0, o0, p0, dist0, key0, order@, parent@, dist, key,
                            current_index, d, b, level, head, start,
                        );
                        reveal(queue_consistent);
                        reveal(parents_consistent);
                        lemma_enqueue_parent(v0, o0, p0, order@, parent@, current_index, b, head);
                    }
                },
                None => {
                    proof {
                        lemma_keys_below_next(order@, dist, key, current_index as int, k as int);
                        reveal(queue_consistent);
                        reveal(queue_layered);
                        if step_to(tiles@, current_index as int, d) is Some {
                            let b = step_to(tiles@, current_index as int, d)->0;
                            assert(visited@[b]);
                            assert(order@.contains(b as usize));
                            let q = choose|q: int| 0 <= q < order@.len() && order@[q] == b as usize;
                            assert(dist[order@[q] as int] <= level + 1);
                        }
                    }
                },
            }
            k += 1;
        }
        proof {
            reveal(expanded);
            assert forall|k1: int, d1: Direction|
                0 <= k1 < head && (#[trigger] step_to(tiles@, order@[k1] as int, d1) is Some) implies {
                let b1 = step_to(tiles@, order@[k1] as int, d1)->0;
                &&& 0 <= b1 < visited@.len()
                &&& visited@[b1]
                &&& dist[b1] <= dist[order@[k1] as int] + 1
            } by {
                if k1 == head - 1 {
                    lemma_every_side_listed(d1);
                    let j = choose|j: int| 0 <= j < 4 && side_at(j) == d1;
                    lemma_neighbor_on_board(current_index as int, d1);
                }
            }
        }
        Ghost((dist, key))
    }

    /// Follows the remembered parents back from the target to the start.
    fn trace_back(
        tiles: &[Tile],
        start_index: usize,
        target_index: usize,
        parent: &Vec<usize>,
        Ghost(visited): Ghost<Seq<bool>>,
        Ghost(order): Ghost<Seq<usize>>,
        Ghost(dist): Ghost<Seq<int>>,
        Ghost(key): Ghost<Seq<Seq<int>>>,
        Ghost(head): Ghost<int>,
    ) -> (p: Vec<usize>)
        requires
            tiles@.len() >= BOARD_TILES,
            start_index < tiles@.len(),
            1 <= head <= order.len(),
            order[head - 1] == target_index,
            queue_consistent(visited, order, tiles@.len() as int, start_index as int),
            parents_consistent(tiles@, visited, order, parent@, dist, start_index as int),
            queue_layered(order, dist, dist[order[head - 1] as int]),
            expanded(tiles@, visited, order, dist, head - 1),
            keys_follow(order, parent@, dist, key, start_index as int),
            keys_least(tiles@, order, dist, key, start_index as int),
        ensures
            is_least_walk(tiles@, p@, start_index as int, target_index as int),
            reachable(tiles@, start_index as int, target_index as int),
    {
        let n = tiles.len();
        let ghost level = dist[target_index as int];
        let mut back: Vec<usize> = Vec::new();
        let mut cur = target_index;
        proof {
            reveal(queue_consistent);
            reveal(parents_consistent);
            assert(order.contains(target_index));
            assert(visited[target_index as int]);
        }
        while cur != start_index
            invariant
                n == tiles@.len(),
                (cur as int) < n,
                visited[cur as int],
                queue_consistent(visited, order, n as int, start_index as int),
                parents_consistent(tiles@, visited, order, parent@, dist, start_index as int),
                dist[cur as int] >= 0,
                back@.len() + dist[cur as int] == level,
                back@.len() > 0 ==> back@[0] == target_index,
                back@.len() == 0 ==> cur == target_index,
                back@.len() > 0 ==> step(tiles@, cur as int, back@.last() as int),
                forall|j: int| 0 <= j < back@.len() - 1 ==> #[trigger] step(tiles@, back@[j + 1] as int, back@[j] as int),
                back@.len() > 0 ==> parent@[back@.last() as int] == cur,
                forall|j: int| 0 <= j < back@.len() - 1 ==> parent@[#[trigger] back@[j] as int] == back@[j + 1],
                forall|j: int|
                    0 <= j < back@.len() ==> #[trigger] back@[j] != start_index && (back@[j] as int) < n
                        && visited[back@[j] as int],
            decreases dist[cur as int],
        {
            let ghost b0 = back@;
            proof {
                reveal(queue_consistent);
                reveal(parents_consistent);
                assert(order.contains(cur));
                let k = choose|k: int| 0 <= k < order.len() && order[k] == cur;
                if k == 0 {
                    assert(cur == start_index);
                }
                assert(k >= 1);
            }
            back.push(cur);
            cur = parent[cur];
            proof {
                reveal(queue_consistent);
                reveal(parents_consistent);
                assert forall|j: int| 0 <= j < back@.len() - 1 implies #[trigger] step(tiles@, back@[j + 1] as int, back@[j] as int) by {
                    if j < b0.len() - 1 {
                        assert(step(tiles@, b0[j + 1] as int, b0[j] as int));
                    }
                }
                assert forall|j: int| 0 <= j < back@.len() - 1 implies parent@[#[trigger] back@[j] as int] == back@[j + 1] by {
                    if j < b0.len() - 1 {
                        assert(parent@[b0[j] as int] == b0[j + 1]);
                    }
                }
            }
        }
        proof {
            reveal(parents_consistent);
            assert(dist[start_index as int] == 0);
        }
        let ghost b1 = back@;
        back.push(start_index);
        let p = reversed(&back);
        proof {
            let m = back@.len();
            assert forall|i: int| 0 <= i < p@.len() - 1 implies #[trigger] step(tiles@, p@[i] as int, p@[i + 1] as int) by {
                let j = m - 2 - i;
                assert(p@[i] == back@[m - 1 - i]);
                assert(p@[i + 1] == back@[m - 2 - i]);
                if j == m - 2 {
                } else {
                    assert(step(tiles@, back@[j + 1] as int, back@[j] as int));
                }
            }
            assert(is_walk(tiles@, p@));
            assert(p@[0] == back@[m - 1]);
            assert(p@.last() == back@[0]);
            assert forall|q: Seq<usize>|
                #[trigger] is_walk(tiles@, q) && q[0] == start_index && q.last() == target_index
                    implies p@.len() <= q.len() by {
                if q.len() < p@.len() {
                    lemma_no_shorter_walk(tiles@, visited, order, dist, head, start_index as int, q, q.len() - 1);
                }
            }
            assert forall|j: int|
                0 <= j < p@.len() - 1 implies parent@[#[trigger] p@[j + 1] as int] == p@[j] && p@[j + 1] != start_index
                && (p@[j + 1] as int) < n && visited[p@[j + 1] as int] by {
                let jj = m - 2 - j;
                assert(p@[j + 1] == back@[jj]);
                assert(p@[j] == back@[jj + 1]);
                assert(back@[jj] == b1[jj]);
            }
            reveal(keys_follow);
            lemma_keys_along(order, parent@, dist, key, visited, n as int, start_index as int, p@, p@.len() - 1);
            assert(p@.take(p@.len() as int) =~= p@);
            assert(walk_ranks(p@) == key[target_index as int]);
            assert(p@.len() == dist[target_index as int] + 1);
            reveal(keys_least);
            assert forall|q: Seq<usize>| #[trigger]
                is_shortest_walk(tiles@, q, start_index as int, target_index as int) implies !ranks_before(
                walk_ranks(q),
                walk_ranks(p@),
            ) by {
                assert(q.len() <= p@.len());
                assert(p@.len() <= q.len());
                assert(order[head - 1] == target_index);
                assert(is_walk(tiles@, q) && q[0] == start_index && q.last() == order[head - 1] && q.len()
                    == dist[order[head - 1] as int] + 1);
            }
        }
        p
    }
}

} // verus!
