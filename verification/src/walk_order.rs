use vstd::prelude::*;

use crate::direction::Direction;
use crate::tile::{grid_x, grid_y, is_walk, neighbor, step, step_to, Tile};

verus! {

/// The place of a side in the order in which a room's sides are tried: up,
/// down, left, right.
pub open spec fn side_rank(d: Direction) -> int {
    match d {
        Direction::Up => 0,
        Direction::Down => 1,
        Direction::Left => 2,
        Direction::Right => 3,
    }
}

/// The side through which a step leads from room `a` to the neighboring
/// room `b`.
pub open spec fn side_between(a: int, b: int) -> Direction {
    if b == a - 5 {
        Direction::Up
    } else if b == a + 5 {
        Direction::Down
    } else if b == a - 1 {
        Direction::Left
    } else {
        Direction::Right
    }
}

/// The places, in the side order, of the sides through which walk `q`
/// leaves each of its rooms.
pub open spec fn walk_ranks(q: Seq<usize>) -> Seq<int> {
    if q.len() == 0 {
        Seq::empty()
    } else {
        Seq::new((q.len() - 1) as nat, |i: int| side_rank(side_between(q[i] as int, q[i + 1] as int)))
    }
}

/// `a` comes before `b` in dictionary order: where they first differ, `a`
/// holds the lower value.
pub open spec fn ranks_before(a: Seq<int>, b: Seq<int>) -> bool {
    exists|i: int|
        #![trigger a[i], b[i]]
        0 <= i < a.len() && i < b.len() && a[i] < b[i] && forall|j: int| 0 <= j < i ==> a[j] == b[j]
}

/// `q` is a walk from `a` to `b` no longer than any other.
pub open spec fn is_shortest_walk(tiles: Seq<Tile>, q: Seq<usize>, a: int, b: int) -> bool {
    &&& is_walk(tiles, q)
    &&& q[0] == a
    &&& q.last() == b
    &&& forall|q2: Seq<usize>| #[trigger]
        is_walk(tiles, q2) && q2[0] == a && q2.last() == b ==> q.len() <= q2.len()
}

/// `p` is the shortest walk from `a` to `b` that a breadth-first search
/// trying the sides up, down, left, right finds: among the shortest walks,
/// the first in dictionary order of the sides taken.
pub open spec fn is_least_walk(tiles: Seq<Tile>, p: Seq<usize>, a: int, b: int) -> bool {
    &&& is_shortest_walk(tiles, p, a, b)
    &&& forall|q: Seq<usize>| #[trigger]
        is_shortest_walk(tiles, q, a, b) ==> !ranks_before(walk_ranks(q), walk_ranks(p))
}

pub proof fn lemma_side_rank_at(k: int)
    requires
        0 <= k < 4,
    ensures
        side_rank(crate::paths::side_at(k)) == k,
{
}

/// A step through side `d` is the step `side_between` names.
pub proof fn lemma_side_between(a: int, d: Direction, b: int)
    requires
        a >= 0,
        neighbor(a, d) == Some(b),
    ensures
        side_between(a, b) == d,
{
    assert(a == 5 * grid_y(a) + grid_x(a)) by {
        vstd::arithmetic::div_mod::lemma_fundamental_div_mod(a, 5);
    }
}

/// A step from `a` to `b` goes through side `side_between(a, b)`.
pub proof fn lemma_step_side(tiles: Seq<Tile>, a: int, b: int)
    requires
        step(tiles, a, b),
    ensures
        step_to(tiles, a, side_between(a, b)) == Some(b),
{
    let d = choose|d: Direction| #[trigger] step_to(tiles, a, d) == Some(b);
    lemma_side_between(a, d, b);
}

pub proof fn lemma_before_trans(a: Seq<int>, b: Seq<int>, c: Seq<int>)
    requires
        ranks_before(a, b),
        ranks_before(b, c),
    ensures
        ranks_before(a, c),
{
    let i = choose|i: int|
        #![trigger a[i], b[i]]
        0 <= i < a.len() && i < b.len() && a[i] < b[i] && forall|j: int| 0 <= j < i ==> a[j] == b[j];
    let k = choose|k: int|
        #![trigger b[k], c[k]]
        0 <= k < b.len() && k < c.len() && b[k] < c[k] && forall|j: int| 0 <= j < k ==> b[j] == c[j];
    if i <= k {
        assert(a[i] < c[i]);
        assert(forall|j: int| 0 <= j < i ==> a[j] == c[j]);
    } else {
        assert(a[k] < c[k]);
        assert(forall|j: int| 0 <= j < k ==> a[j] == c[j]);
    }
}

pub proof fn lemma_before_asym(a: Seq<int>, b: Seq<int>)
    requires
        ranks_before(a, b),
    ensures
        !ranks_before(b, a),
{
    let i = choose|i: int|
        #![trigger a[i], b[i]]
        0 <= i < a.len() && i < b.len() && a[i] < b[i] && forall|j: int| 0 <= j < i ==> a[j] == b[j];
    if ranks_before(b, a) {
        let k = choose|k: int|
            #![trigger b[k], a[k]]
            0 <= k < b.len() && k < a.len() && b[k] < a[k] && forall|j: int| 0 <= j < k ==> b[j] == a[j];
        if i < k {
            assert(b[i] == a[i]);
        } else if k < i {
            assert(a[k] == b[k]);
        }
    }
}

/// Appending to two sequences of one length keeps their order.
pub proof fn lemma_before_push(a: Seq<int>, b: Seq<int>, x: int, y: int)
    requires
        a.len() == b.len(),
        ranks_before(a, b),
    ensures
        ranks_before(a.push(x), b.push(y)),
{
    let i = choose|i: int|
        #![trigger a[i], b[i]]
        0 <= i < a.len() && i < b.len() && a[i] < b[i] && forall|j: int| 0 <= j < i ==> a[j] == b[j];
    assert(a.push(x)[i] < b.push(y)[i]);
    assert(forall|j: int| 0 <= j < i ==> a.push(x)[j] == b.push(y)[j]);
}

/// Appending a lower value gives the earlier sequence.
pub proof fn lemma_push_before(a: Seq<int>, x: int, y: int)
    requires
        x < y,
    ensures
        ranks_before(a.push(x), a.push(y)),
{
    let i = a.len() as int;
    assert(a.push(x)[i] < a.push(y)[i]);
    assert(forall|j: int| 0 <= j < i ==> a.push(x)[j] == a.push(y)[j]);
}

/// Two extended sequences of one length come in order only if the shorter
/// ones do, or they agree and the appended values do.
pub proof fn lemma_before_of_push(a: Seq<int>, b: Seq<int>, x: int, y: int)
    requires
        a.len() == b.len(),
        ranks_before(a.push(x), b.push(y)),
    ensures
        ranks_before(a, b) || (a == b && x < y),
{
    let ax = a.push(x);
    let by = b.push(y);
    let i = choose|i: int|
        #![trigger ax[i], by[i]]
        0 <= i < ax.len() && i < by.len() && ax[i] < by[i] && forall|j: int| 0 <= j < i ==> ax[j] == by[j];
    if i < a.len() {
        assert(a[i] < b[i]);
        assert(forall|j: int| 0 <= j < i ==> a[j] == b[j]) by {
            assert forall|j: int| 0 <= j < i implies a[j] == b[j] by {
                assert(ax[j] == by[j]);
            }
        }
    } else {
        assert forall|j: int| 0 <= j < a.len() implies a[j] == b[j] by {
            assert(ax[j] == by[j]);
        }
        assert(a =~= b);
    }
}

/// The first place below `upto`, from `from` on, where `x` and `y` differ.
proof fn first_diff(x: Seq<int>, y: Seq<int>, from: int, upto: int) -> (j: int)
    requires
        0 <= from <= upto,
        upto <= x.len(),
        upto <= y.len(),
        forall|m: int| 0 <= m < from ==> x[m] == y[m],
    ensures
        from <= j <= upto,
        forall|m: int| 0 <= m < j ==> x[m] == y[m],
        j < upto ==> x[j] != y[j],
    decreases upto - from,
{
    if from == upto {
        from
    } else if x[from] != y[from] {
        from
    } else {
        first_diff(x, y, from + 1, upto)
    }
}

/// What does not come before `y` comes after whatever comes before `y`.
pub proof fn lemma_not_before_then(x: Seq<int>, y: Seq<int>, z: Seq<int>)
    requires
        x.len() == y.len(),
        z.len() == y.len(),
        !ranks_before(x, y),
        ranks_before(z, y),
    ensures
        ranks_before(z, x),
{
    let i = choose|i: int|
        #![trigger z[i], y[i]]
        0 <= i < z.len() && i < y.len() && z[i] < y[i] && forall|j: int| 0 <= j < i ==> z[j] == y[j];
    let j = first_diff(x, y, 0, i);
    if j < i {
        if x[j] < y[j] {
            assert(ranks_before(x, y)) by {
                assert(x[j] < y[j]);
            }
        }
        assert(z[j] < x[j]);
        assert(forall|m: int| 0 <= m < j ==> z[m] == x[m]);
    } else {
        if x[i] < y[i] {
            assert(ranks_before(x, y)) by {
                assert(x[i] < y[i]);
            }
        }
        assert(z[i] < x[i]);
        assert(forall|m: int| 0 <= m < i ==> z[m] == x[m]);
    }
}

/// The sides of a walk are those of the walk without its last room, and
/// then the side of its last step.
pub proof fn lemma_walk_ranks_last(q: Seq<usize>)
    requires
        q.len() >= 2,
    ensures
        walk_ranks(q) == walk_ranks(q.drop_last()).push(
            side_rank(side_between(q[q.len() - 2] as int, q.last() as int)),
        ),
{
    assert(walk_ranks(q) =~= walk_ranks(q.drop_last()).push(
        side_rank(side_between(q[q.len() - 2] as int, q.last() as int)),
    ));
}

/// A walk without its last room is a walk.
pub proof fn lemma_walk_drop_last(tiles: Seq<Tile>, q: Seq<usize>)
    requires
        is_walk(tiles, q),
        q.len() >= 2,
    ensures
        is_walk(tiles, q.drop_last()),
        step(tiles, q[q.len() - 2] as int, q.last() as int),
{
    let p = q.drop_last();
    assert forall|i: int| 0 <= i < p.len() - 1 implies #[trigger] step(tiles, p[i] as int, p[i + 1] as int) by {
        assert(step(tiles, q[i] as int, q[i + 1] as int));
    }
    let k = q.len() - 2;
    assert(step(tiles, q[k] as int, q[k + 1] as int));
}

/// Two sequences of one length, neither before the other, are equal.
pub proof fn lemma_not_before_either(x: Seq<int>, y: Seq<int>)
    requires
        x.len() == y.len(),
        !ranks_before(x, y),
        !ranks_before(y, x),
    ensures
        x == y,
{
    let j = first_diff(x, y, 0, x.len() as int);
    if j < x.len() {
        if x[j] < y[j] {
            assert(ranks_before(x, y)) by {
                assert(x[j] < y[j]);
            }
        } else {
            assert(ranks_before(y, x)) by {
                assert(y[j] < x[j]);
                assert(forall|m: int| 0 <= m < j ==> y[m] == x[m]);
            }
        }
    }
    assert(x =~= y);
}

/// Two walks from one room through the same sides are the same walk.
pub proof fn lemma_same_sides_same_walk(tiles: Seq<Tile>, p: Seq<usize>, q: Seq<usize>, i: int)
    requires
        is_walk(tiles, p),
        is_walk(tiles, q),
        p.len() == q.len(),
        p[0] == q[0],
        walk_ranks(p) == walk_ranks(q),
        0 <= i < p.len(),
    ensures
        p[i] == q[i],
    decreases i,
{
    if i > 0 {
        lemma_same_sides_same_walk(tiles, p, q, i - 1);
        let j = i - 1;
        assert(step(tiles, p[j] as int, p[j + 1] as int));
        assert(step(tiles, q[j] as int, q[j + 1] as int));
        lemma_step_side(tiles, p[j] as int, p[i] as int);
        lemma_step_side(tiles, q[j] as int, q[i] as int);
        assert(walk_ranks(p)[j] == side_rank(side_between(p[j] as int, p[j + 1] as int)));
        assert(walk_ranks(q)[j] == side_rank(side_between(q[j] as int, q[j + 1] as int)));
        assert(walk_ranks(p)[j] == walk_ranks(q)[j]);
        let dp = side_between(p[j] as int, p[i] as int);
        let dq = side_between(q[j] as int, q[i] as int);
        assert(side_rank(dp) == side_rank(dq));
        assert(dp == dq);
    }
}

/// There is only one least walk between two rooms.
pub proof fn lemma_least_walk_unique(tiles: Seq<Tile>, p: Seq<usize>, q: Seq<usize>, a: int, b: int)
    requires
        is_least_walk(tiles, p, a, b),
        is_least_walk(tiles, q, a, b),
    ensures
        p == q,
{
    assert(p.len() <= q.len());
    assert(q.len() <= p.len());
    lemma_not_before_either(walk_ranks(p), walk_ranks(q));
    assert forall|i: int| 0 <= i < p.len() implies p[i] == q[i] by {
        lemma_same_sides_same_walk(tiles, p, q, i);
    }
    assert(p =~= q);
}

} // verus!
