use vstd::prelude::*;

use crate::direction::{rotated, Direction};
use crate::tile::Tile;

verus! {

/// The entrances `e` turned `times` quarter turns clockwise.
pub open spec fn turned(e: Seq<Direction>, times: int) -> Seq<Direction> {
    e.map_values(|d: Direction| rotated(d, times))
}

/// Quarter turns that bring a room standing at rotation `from` to rotation
/// `to`.
pub open spec fn turns_between(from: int, to: int) -> int {
    (4 + to - from) % 4
}

/// Rooms whose remembered board index is `v`.
pub open spec fn loc_is(v: usize) -> spec_fn(Tile) -> bool {
    |t: Tile| t.original_location == v
}

/// The rooms stand in the order of their remembered board indices.
pub open spec fn location_sorted(s: Seq<Tile>) -> bool {
    forall|i: int, j: int|
        0 <= i <= j < s.len() ==> (#[trigger] s[i]).original_location <= (#[trigger] s[j]).original_location
}

/// `b` is `a` with the rooms at `i` and `j` exchanged.
pub open spec fn swapped(a: Seq<Tile>, i: int, j: int) -> Seq<Tile> {
    a.update(i, a[j]).update(j, a[i])
}

/// Exchanges the rooms at `i` and `j`.
pub fn swap_tiles(tiles: &mut Vec<Tile>, i: usize, j: usize)
    requires
        i < old(tiles)@.len(),
        j < old(tiles)@.len(),
    ensures
        final(tiles)@ == swapped(old(tiles)@, i as int, j as int),
{
    if i != j {
        let mut held = Tile::new(Vec::new());
        std::mem::swap(&mut tiles[i], &mut held);
        std::mem::swap(&mut tiles[j], &mut held);
        std::mem::swap(&mut tiles[i], &mut held);
    }
    assert(tiles@ =~= swapped(old(tiles)@, i as int, j as int));
}

/// Every room remembers its current rotation as the one to go back to.
pub fn remember_rotations(tiles: &mut Vec<Tile>)
    ensures
        final(tiles)@.len() == old(tiles)@.len(),
        forall|i: int|
            0 <= i < old(tiles)@.len() ==> {
                &&& (#[trigger] final(tiles)@[i]).original_rotation == old(tiles)@[i].current_rotation
                &&& final(tiles)@[i].entrances == old(tiles)@[i].entrances
                &&& final(tiles)@[i].is_highlighted == old(tiles)@[i].is_highlighted
                &&& final(tiles)@[i].original_location == old(tiles)@[i].original_location
                &&& final(tiles)@[i].current_rotation == old(tiles)@[i].current_rotation
            },
{
    let mut i: usize = 0;
    while i < tiles.len()
        invariant
            i <= tiles@.len(),
            tiles@.len() == old(tiles)@.len(),
            forall|j: int|
                0 <= j < old(tiles)@.len() ==> {
                    &&& (#[trigger] tiles@[j]).original_rotation == if j < i {
                        old(tiles)@[j].current_rotation
                    } else {
                        old(tiles)@[j].original_rotation
                    }
                    &&& tiles@[j].entrances == old(tiles)@[j].entrances
                    &&& tiles@[j].is_highlighted == old(tiles)@[j].is_highlighted
                    &&& tiles@[j].original_location == old(tiles)@[j].original_location
                    &&& tiles@[j].current_rotation == old(tiles)@[j].current_rotation
                },
        decreases tiles@.len() - i,
    {
        let r = tiles[i].current_rotation;
        tiles[i].original_rotation = r;
        i += 1;
    }
}

/// Every room remembers the board index it stands at as the one to go back
/// to.
pub fn remember_locations(tiles: &mut Vec<Tile>)
    ensures
        final(tiles)@.len() == old(tiles)@.len(),
        forall|i: int|
            0 <= i < old(tiles)@.len() ==> {
                &&& (#[trigger] final(tiles)@[i]).original_location == i
                &&& final(tiles)@[i].entrances == old(tiles)@[i].entrances
                &&& final(tiles)@[i].is_highlighted == old(tiles)@[i].is_highlighted
                &&& final(tiles)@[i].original_rotation == old(tiles)@[i].original_rotation
                &&& final(tiles)@[i].current_rotation == old(tiles)@[i].current_rotation
            },
{
    let mut i: usize = 0;
    while i < tiles.len()
        invariant
            i <= tiles@.len(),
            tiles@.len() == old(tiles)@.len(),
            forall|j: int|
                0 <= j < old(tiles)@.len() ==> {
                    &&& (#[trigger] tiles@[j]).original_location == if j < i {
                        j as usize
                    } else {
                        old(tiles)@[j].original_location
                    }
                    &&& tiles@[j].entrances == old(tiles)@[j].entrances
                    &&& tiles@[j].is_highlighted == old(tiles)@[j].is_highlighted
                    &&& tiles@[j].original_rotation == old(tiles)@[j].original_rotation
                    &&& tiles@[j].current_rotation == old(tiles)@[j].current_rotation
                },
        decreases tiles@.len() - i,
    {
        tiles[i].original_location = i;
        i += 1;
    }
}

/// Turns every room back to its remembered rotation.
pub fn revert_rotations(tiles: &mut Vec<Tile>)
    requires
        forall|i: int|
            0 <= i < old(tiles)@.len() ==> (#[trigger] old(tiles)@[i]).current_rotation
                <= old(tiles)@[i].original_rotation + 4,
    ensures
        final(tiles)@.len() == old(tiles)@.len(),
        forall|i: int|
            0 <= i < old(tiles)@.len() ==> {
                &&& (#[trigger] final(tiles)@[i]).entrances@ == turned(
                    old(tiles)@[i].entrances@,
                    turns_between(
                        old(tiles)@[i].current_rotation as int,
                        old(tiles)@[i].original_rotation as int,
                    ),
                )
                &&& final(tiles)@[i].current_rotation == old(tiles)@[i].original_rotation
                &&& final(tiles)@[i].original_rotation == old(tiles)@[i].original_rotation
                &&& final(tiles)@[i].is_highlighted == old(tiles)@[i].is_highlighted
                &&& final(tiles)@[i].original_location == old(tiles)@[i].original_location
            },
{
    let mut i: usize = 0;
    while i < tiles.len()
        invariant
            i <= tiles@.len(),
            tiles@.len() == old(tiles)@.len(),
            forall|j: int|
                i <= j < old(tiles)@.len() ==> #[trigger] tiles@[j] == old(tiles)@[j],
            forall|j: int|
                0 <= j < i ==> {
                    &&& (#[trigger] tiles@[j]).entrances@ == turned(
                        old(tiles)@[j].entrances@,
                        turns_between(
                            old(tiles)@[j].current_rotation as int,
                            old(tiles)@[j].original_rotation as int,
                        ),
                    )
                    &&& tiles@[j].current_rotation == old(tiles)@[j].original_rotation
                    &&& tiles@[j].original_rotation == old(tiles)@[j].original_rotation
                    &&& tiles@[j].is_highlighted == old(tiles)@[j].is_highlighted
                    &&& tiles@[j].original_location == old(tiles)@[j].original_location
                },
            forall|j: int|
                0 <= j < old(tiles)@.len() ==> (#[trigger] old(tiles)@[j]).current_rotation
                    <= old(tiles)@[j].original_rotation + 4,
        decreases tiles@.len() - i,
    {
        let r = tiles[i].original_rotation;
        tiles[i].rotate_entrances(r);
        tiles[i].current_rotation = r;
        i += 1;
    }
}

/// Puts the rooms back in the order of their remembered board indices. The
/// sort is stable: rooms that remember the same index keep their order.
pub fn sort_by_original_location(tiles: &mut Vec<Tile>)
    ensures
        location_sorted(final(tiles)@),
        forall|v: usize| #[trigger] final(tiles)@.filter(loc_is(v)) == old(tiles)@.filter(loc_is(v)),
        final(tiles)@.len() == old(tiles)@.len(),
        forall|i: int| 0 <= i < final(tiles)@.len() ==> old(tiles)@.contains(#[trigger] final(tiles)@[i]),
{
    let ghost start = tiles@;
    let mut rest: Vec<Tile> = Vec::new();
    std::mem::swap(&mut rest, tiles);
    let mut out: Vec<Tile> = Vec::new();
    let ghost mut k: int = 0;
    while rest.len() > 0
        invariant
            0 <= k <= start.len(),
            rest@ == start.skip(k),
            location_sorted(out@),
            forall|v: usize| #[trigger] out@.filter(loc_is(v)) == start.take(k).filter(loc_is(v)),
            out@.len() == k,
            forall|q: int| 0 <= q < out@.len() ==> start.contains(#[trigger] out@[q]),
        decreases rest@.len(),
    {
        let t = rest.remove(0);
        let key = t.original_location;
        let mut p: usize = 0;
        while p < out.len() && out[p].original_location <= key
            invariant
                p <= out@.len(),
                forall|q: int| 0 <= q < p ==> (#[trigger] out@[q]).original_location <= key,
            decreases out@.len() - p,
        {
            p += 1;
        }
        proof {
            lemma_insert_keeps_order(out@, p as int, t);
            assert(start.take(k + 1) == start.take(k).push(t));
            assert(rest@ == start.skip(k + 1));
        }
        let ghost before = out@;
        out.insert(p, t);
        proof {
            assert forall|v: usize| #[trigger] out@.filter(loc_is(v)) == start.take(k + 1).filter(loc_is(v)) by {
                start.take(k).lemma_filter_push(t, loc_is(v));
                assert(before.filter(loc_is(v)) == start.take(k).filter(loc_is(v)));
            }
            assert(start[k] == t);
            assert forall|q: int| 0 <= q < out@.len() implies start.contains(#[trigger] out@[q]) by {
                if q < p {
                    assert(out@[q] == before[q]);
                } else if q > p {
                    assert(out@[q] == before[q - 1]);
                }
            }
            k = k + 1;
        }
    }
    proof {
        assert(start.take(k) == start);
    }
    *tiles = out;
}

/// Inserting room `t` at `p`, just after the rooms of a sorted list that
/// remember an index no greater than its own, keeps the list sorted and adds
/// `t` at the end of the rooms that remember its index.
proof fn lemma_insert_keeps_order(s: Seq<Tile>, p: int, t: Tile)
    requires
        location_sorted(s),
        0 <= p <= s.len(),
        forall|q: int| 0 <= q < p ==> (#[trigger] s[q]).original_location <= t.original_location,
        p < s.len() ==> s[p].original_location > t.original_location,
    ensures
        location_sorted(s.insert(p, t)),
        forall|v: usize| #[trigger] s.insert(p, t).filter(loc_is(v)) == if v == t.original_location {
            s.filter(loc_is(v)).push(t)
        } else {
            s.filter(loc_is(v))
        },
{
    let n = s.insert(p, t);
    assert forall|i: int, j: int| 0 <= i <= j < n.len() implies (#[trigger] n[i]).original_location
        <= (#[trigger] n[j]).original_location by {
        if i < p && j > p {
            assert(n[j] == s[j - 1]);
        } else if i == p && j > p {
            assert(n[j] == s[j - 1]);
            assert(s[p].original_location <= s[j - 1].original_location);
        } else if i > p {
            assert(n[i] == s[i - 1]);
            assert(n[j] == s[j - 1]);
        }
    }
    let front = s.take(p);
    let back = s.skip(p);
    assert(s == front + back);
    assert(n == front + seq![t] + back);
    assert forall|v: usize| #[trigger] n.filter(loc_is(v)) == if v == t.original_location {
        s.filter(loc_is(v)).push(t)
    } else {
        s.filter(loc_is(v))
    } by {
        let f = loc_is(v);
        Seq::filter_distributes_over_add(front, back, f);
        Seq::filter_distributes_over_add(front + seq![t], back, f);
        Seq::filter_distributes_over_add(front, seq![t], f);
        seq![t].lemma_filter_push(t, f);
        assert(seq![t] == Seq::<Tile>::empty().push(t));
        assert(Seq::<Tile>::empty().filter(f) == Seq::<Tile>::empty()) by {
            reveal(Seq::filter);
        }
        Seq::<Tile>::empty().lemma_filter_push(t, f);
        if v == t.original_location {
            assert forall|q: int| 0 <= q < back.len() implies !f(#[trigger] back[q]) by {
                assert(back[q] == s[p + q]);
                assert(s[p].original_location <= s[p + q].original_location);
            }
            assert(back.all(|x: Tile| !f(x)));
            back.lemma_all_neg_filter_empty(f);
            assert(back.filter(f) == Seq::<Tile>::empty());
            assert(front.filter(f) + seq![t] + Seq::<Tile>::empty() == (front.filter(f) + Seq::<Tile>::empty()).push(t));
        }
    }
}

} // verus!
