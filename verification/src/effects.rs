use vstd::prelude::*;

use crate::card::CardEffect;
use crate::constants::{BOARD_TILES, MAP_SIZE};
use crate::direction::Direction;
use crate::monster::{on_board, pos_index};
use crate::paths::side_at;
use crate::tile::{line_from, picked_around, reachable, Tile};

verus! {

/// Room `i` lights up when a card with `effect` is picked by a player in
/// room `cur`: every room a walk reaches for a move; the rooms around for a
/// rotation or a swap; the straight connected lines for a fireball.
pub open spec fn lit_by(effect: CardEffect, tiles: Seq<Tile>, cur: int, i: int) -> bool {
    match effect {
        CardEffect::Dummy => false,
        CardEffect::MoveOneTile => reachable(tiles, cur, i),
        CardEffect::RotateCard => 0 <= i < BOARD_TILES && picked_around(cur, i, true, true),
        CardEffect::SwapCard => i == cur || (0 <= i < BOARD_TILES && picked_around(cur, i, true, true)),
        CardEffect::FireCard => i == cur || exists|d: Direction|
            #[trigger] line_from(tiles, cur, d, MAP_SIZE as nat).contains(i as usize),
    }
}

/// Two boards agree room by room in everything but the highlight, and in
/// the remembered rotation unless `keep_rotation` is false.
pub open spec fn same_but_highlight(a: Seq<Tile>, b: Seq<Tile>) -> bool {
    &&& a.len() == b.len()
    &&& forall|i: int|
        0 <= i < a.len() ==> {
            &&& (#[trigger] a[i]).entrances == b[i].entrances
            &&& a[i].original_location == b[i].original_location
            &&& a[i].current_rotation == b[i].current_rotation
        }
}

/// Lights up every listed room.
fn light_up(tiles: &mut Vec<Tile>, indices: &Vec<usize>)
    requires
        forall|k: int| 0 <= k < indices@.len() ==> (#[trigger] indices@[k] as int) < old(tiles)@.len(),
    ensures
        same_but_highlight(final(tiles)@, old(tiles)@),
        forall|i: int|
            0 <= i < old(tiles)@.len() ==> {
                &&& (#[trigger] final(tiles)@[i]).is_highlighted == (old(tiles)@[i].is_highlighted
                    || indices@.contains(i as usize))
                &&& final(tiles)@[i].original_rotation == old(tiles)@[i].original_rotation
            },
{
    let mut k: usize = 0;
    while k < indices.len()
        invariant
            k <= indices@.len(),
            forall|q: int| 0 <= q < indices@.len() ==> (#[trigger] indices@[q] as int) < old(tiles)@.len(),
            same_but_highlight(tiles@, old(tiles)@),
            forall|i: int|
                0 <= i < old(tiles)@.len() ==> {
                    &&& (#[trigger] tiles@[i]).is_highlighted == (old(tiles)@[i].is_highlighted
                        || indices@.take(k as int).contains(i as usize))
                    &&& tiles@[i].original_rotation == old(tiles)@[i].original_rotation
                },
        decreases indices@.len() - k,
    {
        let idx = indices[k];
        let n = tiles.len();
        tiles[idx].is_highlighted = true;
        proof {
            assert forall|i: int| 0 <= i < old(tiles)@.len() implies (#[trigger] tiles@[i]).is_highlighted
                == (old(tiles)@[i].is_highlighted || indices@.take(k + 1).contains(i as usize)) by {
                let t0 = indices@.take(k as int);
                let t1 = indices@.take(k + 1);
                assert(t1 == t0.push(idx));
                assert(t1[k as int] == idx);
                if t0.contains(i as usize) {
                    let q = choose|q: int| 0 <= q < t0.len() && t0[q] == i as usize;
                    assert(t1[q] == i as usize);
                }
                if t1.contains(i as usize) && i != idx as int {
                    let q = choose|q: int| 0 <= q < t1.len() && t1[q] == i as usize;
                    assert(i < n);
                    assert(q != k as int);
                    assert(t0[q] == i as usize);
                }
                if i == idx as int {
                    assert(t1[k as int] == idx);
                }
            }
        }
        k += 1;
    }
    assert(indices@.take(k as int) == indices@);
}

/// Lights up the rooms that playing `effect` from `player_pos` may target
/// (see `lit_by`); picking a rotation also remembers every room's rotation
/// so it can be undone. Lights already on stay on.
pub fn highlight_tiles_for_effect(effect: &CardEffect, player_pos: (usize, usize), tiles: &mut Vec<Tile>)
    requires
        on_board(player_pos),
        old(tiles)@.len() >= BOARD_TILES,
        old(tiles)@.len() + MAP_SIZE <= usize::MAX,
    ensures
        same_but_highlight(final(tiles)@, old(tiles)@),
        forall|i: int|
            0 <= i < old(tiles)@.len() ==> {
                &&& (#[trigger] final(tiles)@[i]).is_highlighted == (old(tiles)@[i].is_highlighted
                    || lit_by(*effect, old(tiles)@, pos_index(player_pos), i))
                &&& final(tiles)@[i].original_rotation == if *effect == CardEffect::RotateCard {
                    old(tiles)@[i].current_rotation
                } else {
                    old(tiles)@[i].original_rotation
                }
            },
{
    let current_index = player_pos.1 * MAP_SIZE + player_pos.0;
    match effect {
        CardEffect::Dummy => {},
        CardEffect::MoveOneTile => {
            let reachable_indices = tiles[current_index].find_reachable_tiles(current_index, tiles.as_slice());
            proof {
                assert forall|k: int| 0 <= k < reachable_indices@.len() implies (#[trigger] reachable_indices@[k] as int)
                    < tiles@.len() by {
                    let i = reachable_indices@[k];
                    assert(reachable_indices@.contains(i));
                    crate::tile::lemma_reachable_on_board(tiles@, current_index as int, i as int);
                }
            }
            light_up(tiles, &reachable_indices);
        },
        CardEffect::RotateCard => {
            let ghost before = tiles@;
            let mut i: usize = 0;
            while i < tiles.len()
                invariant
                    i <= tiles@.len(),
                    same_but_highlight(tiles@, before),
                    forall|j: int|
                        0 <= j < before.len() ==> {
                            &&& (#[trigger] tiles@[j]).is_highlighted == before[j].is_highlighted
                            &&& tiles@[j].original_rotation == if j < i {
                                before[j].current_rotation
                            } else {
                                before[j].original_rotation
                            }
                        },
                decreases tiles@.len() - i,
            {
                let r = tiles[i].current_rotation;
                tiles[i].original_rotation = r;
                i += 1;
            }
            let adjacent = Tile::get_adjacent_indices(current_index, true, true);
            light_up(tiles, &adjacent);
        },
        CardEffect::SwapCard => {
            tiles[current_index].is_highlighted = true;
            let ghost after_first = tiles@;
            let adjacent = Tile::get_adjacent_indices(current_index, true, true);
            light_up(tiles, &adjacent);
        },
        CardEffect::FireCard => {
            let ghost before = tiles@;
            let mut lines: Vec<usize> = Vec::new();
            let mut k: usize = 0;
            while k < 4
                invariant
                    k <= 4,
                    tiles@ == before,
                    (current_index as int) < tiles@.len(),
                    tiles@.len() + MAP_SIZE <= usize::MAX,
                    forall|q: int| 0 <= q < lines@.len() ==> (#[trigger] lines@[q] as int) < tiles@.len(),
                    forall|i: int| #![trigger lines@.contains(i as usize)]
                        0 <= i < tiles@.len() ==> (lines@.contains(i as usize) <==> (k > 0 && i
                            == current_index as int) || exists|j: int|
                            0 <= j < k && #[trigger] line_from(
                                before,
                                current_index as int,
                                side_at(j),
                                MAP_SIZE as nat,
                            ).contains(i as usize)),
                decreases 4 - k,
            {
                let d = crate::paths::side_at_exec(k);
                let connected = Tile::find_connected_line(current_index, d, tiles.as_slice(), None);
                let ghost l0 = lines@;
                let mut q: usize = 0;
                while q < connected.len()
                    invariant
                        q <= connected@.len(),
                        tiles@ == before,
                        lines@ == l0 + connected@.take(q as int),
                    decreases connected@.len() - q,
                {
                    lines.push(connected[q]);
                    q += 1;
                    assert(lines@ == l0 + connected@.take(q as int));
                }
                proof {
                    assert(connected@.take(q as int) == connected@);
                    lemma_line_on_board(before, current_index as int, d, MAP_SIZE as nat);
                    assert forall|q2: int| 0 <= q2 < lines@.len() implies (#[trigger] lines@[q2] as int) < tiles@.len() by {
                        if q2 >= l0.len() {
                            let w = q2 - l0.len();
                            assert(lines@[q2] == connected@[w]);
                            if w > 0 {
                                assert(connected@[w] == line_from(before, current_index as int, d, MAP_SIZE as nat)[w - 1]);
                            }
                        }
                    }
                    assert forall|i: int| #![trigger lines@.contains(i as usize)] 0 <= i < tiles@.len() implies (lines@.contains(i as usize) <==> (k + 1 > 0 && i
                        == current_index as int) || exists|j: int|
                        0 <= j < k + 1 && #[trigger] line_from(
                            before,
                            current_index as int,
                            side_at(j),
                            MAP_SIZE as nat,
                        ).contains(i as usize)) by {
                        let line = line_from(before, current_index as int, d, MAP_SIZE as nat);
                        crate::board::lemma_concat_contains(l0, connected@, i as usize);
                        crate::board::lemma_concat_contains(seq![current_index], line, i as usize);
                        if i == current_index as int {
                            assert(seq![current_index][0] == current_index);
                        }
                        if exists|j: int| 0 <= j < k + 1 && #[trigger] line_from(before, current_index as int, side_at(j), MAP_SIZE as nat).contains(i as usize) {
                            let j = choose|j: int| 0 <= j < k + 1 && #[trigger] line_from(before, current_index as int, side_at(j), MAP_SIZE as nat).contains(i as usize);
                            if j == k {
                                assert(line.contains(i as usize));
                            }
                        }
                        if line.contains(i as usize) {
                            assert(side_at(k as int) == d);
                        }
                    }
                }
                k += 1;
            }
            proof {
                assert forall|i: int| #![trigger lines@.contains(i as usize)] 0 <= i < tiles@.len() implies (lines@.contains(i as usize) <==> lit_by(*effect, before, current_index as int, i)) by {
                    if exists|d: Direction| #[trigger] line_from(before, current_index as int, d, MAP_SIZE as nat).contains(i as usize) {
                        let d = choose|d: Direction| #[trigger] line_from(before, current_index as int, d, MAP_SIZE as nat).contains(i as usize);
                        crate::paths::lemma_every_side_listed(d);
                        let j = choose|j: int| 0 <= j < 4 && side_at(j) == d;
                        assert(line_from(before, current_index as int, side_at(j), MAP_SIZE as nat).contains(i as usize));
                    }
                }
            }
            light_up(tiles, &lines);
        },
    }
}

/// Every room after the start of a straight line lies on the board.
proof fn lemma_line_on_board(tiles: Seq<Tile>, c: int, d: Direction, steps: nat)
    requires
        0 <= c < tiles.len(),
    ensures
        forall|k: int| 0 <= k < line_from(tiles, c, d, steps).len() ==> (#[trigger] line_from(tiles, c, d, steps)[k] as int) < tiles.len(),
    decreases steps,
{
    if steps > 0 {
        match crate::tile::line_next(c, d, tiles.len() as int) {
            None => {},
            Some(n) => {
                if crate::tile::connects(tiles[c], tiles[n], d) {
                    assert(0 <= n < tiles.len());
                    lemma_line_on_board(tiles, n, d, (steps - 1) as nat);
                    let rest = line_from(tiles, n, d, (steps - 1) as nat);
                    let all = line_from(tiles, c, d, steps);
                    assert(all == seq![n as usize] + rest);
                    assert forall|k: int| 0 <= k < all.len() implies (#[trigger] all[k] as int) < tiles.len() by {
                        if k > 0 {
                            assert(all[k] == rest[k - 1]);
                        }
                    }
                }
            },
        }
    }
}

} // verus!
