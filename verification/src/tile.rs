use vstd::prelude::*;

use crate::constants::{BOARD_TILES, MAP_SIZE};
use crate::direction::{opposite, rotated, Direction};

verus! {

/// A room of the board. Its entrances are the sides through which it can be
/// left; the rotation and location fields remember where the room stood and
/// how it was turned when the current card was played, so that the play can be
/// undone.
#[derive(Debug)]
pub struct Tile {
    pub entrances: Vec<Direction>,
    pub is_highlighted: bool,
    /// Quarter turns of the room when the current card was played (0 to 3).
    pub original_rotation: u8,
    /// Board index the room stood at when the current card was played.
    pub original_location: usize,
    /// Quarter turns of the room now (0 to 3).
    pub current_rotation: u8,
}

/// The room has an entrance on side `d`.
pub open spec fn has_entrance(t: Tile, d: Direction) -> bool {
    t.entrances@.contains(d)
}

/// Room `a` opens towards side `d` and room `b` opens back towards it.
pub open spec fn connects(a: Tile, b: Tile, d: Direction) -> bool {
    has_entrance(a, d) && has_entrance(b, opposite(d))
}

/// Two rooms agree in every field, the entrances compared by their contents.
pub open spec fn same_tile(a: Tile, b: Tile) -> bool {
    &&& a.entrances@ == b.entrances@
    &&& a.is_highlighted == b.is_highlighted
    &&& a.original_rotation == b.original_rotation
    &&& a.original_location == b.original_location
    &&& a.current_rotation == b.current_rotation
}

/// Column of a board index.
pub open spec fn grid_x(i: int) -> int {
    i % (MAP_SIZE as int)
}

/// Row of a board index.
pub open spec fn grid_y(i: int) -> int {
    i / (MAP_SIZE as int)
}

/// The board index of the room next to index `c` on side `d`, if that room
/// lies on the board.
pub open spec fn neighbor(c: int, d: Direction) -> Option<int> {
    let x = grid_x(c);
    let y = grid_y(c);
    match d {
        Direction::Up => if 1 <= y && y - 1 < 5 {
            Some((y - 1) * 5 + x)
        } else {
            None
        },
        Direction::Down => if y + 1 < 5 {
            Some((y + 1) * 5 + x)
        } else {
            None
        },
        Direction::Left => if 1 <= x && y < 5 {
            Some(y * 5 + x - 1)
        } else {
            None
        },
        Direction::Right => if x + 1 < 5 && y < 5 {
            Some(y * 5 + x + 1)
        } else {
            None
        },
    }
}

/// The room one can walk to from room `a` through side `d`: the neighbor on
/// that side, when both rooms have facing entrances.
pub open spec fn step_to(tiles: Seq<Tile>, a: int, d: Direction) -> Option<int> {
    if 0 <= a < tiles.len() {
        match neighbor(a, d) {
            Some(b) => if b < tiles.len() && connects(tiles[a], tiles[b], d) {
                Some(b)
            } else {
                None
            },
            None => None,
        }
    } else {
        None
    }
}

/// One can walk from room `a` straight into room `b`.
pub open spec fn step(tiles: Seq<Tile>, a: int, b: int) -> bool {
    exists|d: Direction| #[trigger] step_to(tiles, a, d) == Some(b)
}

/// `p` is a sequence of rooms, each one a step from the one before.
pub open spec fn is_walk(tiles: Seq<Tile>, p: Seq<usize>) -> bool {
    &&& p.len() >= 1
    &&& forall|i: int| 0 <= i < p.len() - 1 ==> #[trigger] step(tiles, p[i] as int, p[i + 1] as int)
}

/// Some walk leads from room `a` to room `b`.
pub open spec fn reachable(tiles: Seq<Tile>, a: int, b: int) -> bool {
    exists|p: Seq<usize>| #[trigger] is_walk(tiles, p) && p[0] == a && p.last() == b
}

/// A neighbor lies on the board.
pub proof fn lemma_neighbor_on_board(c: int, d: Direction)
    requires
        c >= 0,
    ensures
        neighbor(c, d) matches Some(b) ==> 0 <= b < BOARD_TILES,
{
    assert(0 <= grid_x(c) < 5);
    assert(grid_y(c) >= 0);
}

/// Every room is reachable from itself.
pub proof fn lemma_reachable_refl(tiles: Seq<Tile>, a: usize)
    ensures
        reachable(tiles, a as int, a as int),
{
    let p = seq![a];
    assert(is_walk(tiles, p));
}

/// A room reachable from a room of the board lies on the board.
pub proof fn lemma_reachable_on_board(tiles: Seq<Tile>, a: int, b: int)
    requires
        0 <= a < tiles.len(),
        reachable(tiles, a, b),
    ensures
        0 <= b < tiles.len(),
{
    let p = choose|p: Seq<usize>| #[trigger] is_walk(tiles, p) && p[0] == a && p.last() == b;
    if p.len() > 1 {
        let i = p.len() - 2;
        assert(step(tiles, p[i] as int, p[i + 1] as int));
    }
}

/// A walk can be extended by one step.
pub proof fn lemma_reachable_step(tiles: Seq<Tile>, a: int, b: int, d: Direction, c: usize)
    requires
        reachable(tiles, a, b),
        step_to(tiles, b, d) == Some(c as int),
    ensures
        reachable(tiles, a, c as int),
{
    let p = choose|p: Seq<usize>| #[trigger] is_walk(tiles, p) && p[0] == a && p.last() == b;
    let q = p.push(c);
    assert(step(tiles, b, c as int));
    assert forall|i: int| 0 <= i < q.len() - 1 implies #[trigger] step(
        tiles,
        q[i] as int,
        q[i + 1] as int,
    ) by {
        if i < p.len() - 1 {
            assert(step(tiles, p[i] as int, p[i + 1] as int));
        }
    }
    assert(is_walk(tiles, q));
}

/// A set of rooms that holds room `p[0]` and every room one step away from
/// any of its rooms holds every room of the walk `p`.
pub proof fn lemma_closed_set_holds_walk(tiles: Seq<Tile>, marked: Seq<bool>, p: Seq<usize>)
    requires
        marked.len() == tiles.len(),
        is_walk(tiles, p),
        (p[0] as int) < marked.len(),
        marked[p[0] as int],
        forall|a: int, d: Direction|
            0 <= a < marked.len() && marked[a] && (#[trigger] step_to(tiles, a, d) is Some) ==> {
                let b = step_to(tiles, a, d)->0;
                0 <= b < marked.len() && marked[b]
            },
    ensures
        (p.last() as int) < marked.len(),
        marked[p.last() as int],
    decreases p.len(),
{
    if p.len() > 1 {
        let q = p.drop_last();
        assert forall|i: int| 0 <= i < q.len() - 1 implies #[trigger] step(
            tiles,
            q[i] as int,
            q[i + 1] as int,
        ) by {
            assert(step(tiles, p[i] as int, p[i + 1] as int));
        }
        lemma_closed_set_holds_walk(tiles, marked, q);
        let i = p.len() - 2;
        assert(step(tiles, p[i] as int, p[i + 1] as int));
        let d = choose|d: Direction| #[trigger] step_to(tiles, p[i] as int, d) == Some(
            p[i + 1] as int,
        );
        assert(step_to(tiles, q.last() as int, d) is Some);
    }
}

/// A sequence of distinct indices below `n` has at most `n` entries.
pub proof fn lemma_distinct_below(s: Seq<usize>, n: int)
    requires
        n >= 0,
        s.no_duplicates(),
        forall|k: int| 0 <= k < s.len() ==> (s[k] as int) < n,
    ensures
        s.len() <= n,
{
    let t = s.map_values(|x: usize| x as int);
    assert(t.no_duplicates()) by {
        assert forall|i: int, j: int| 0 <= i < t.len() && 0 <= j < t.len() && i != j implies t[i]
            != t[j] by {
            assert(s[i] != s[j]);
        }
    }
    t.unique_seq_to_set();
    vstd::set_lib::lemma_int_range(0, n);
    assert forall|x: int| t.to_set().contains(x) implies vstd::set_lib::set_int_range(
        0,
        n,
    ).contains(x) by {
        let k = choose|k: int| 0 <= k < t.len() && t[k] == x;
    }
    vstd::set_lib::lemma_len_subset(t.to_set(), vstd::set_lib::set_int_range(0, n));
}

impl Tile {
    /// A room with the given entrances, not highlighted, not turned, and
    /// remembered at index 0.
    pub fn new(entrances: Vec<Direction>) -> (t: Tile)
        ensures
            t.entrances == entrances,
            !t.is_highlighted,
            t.original_rotation == 0,
            t.original_location == 0,
            t.current_rotation == 0,
    {
        Tile {
            entrances,
            is_highlighted: false,
            original_rotation: 0,
            original_location: 0,
            current_rotation: 0,
        }
    }

    /// A copy of the room.
    pub fn duplicate(&self) -> (t: Tile)
        ensures
            same_tile(t, *self),
    {
        let mut entrances: Vec<Direction> = Vec::new();
        let mut i: usize = 0;
        while i < self.entrances.len()
            invariant
                i <= self.entrances.len(),
                entrances@ == self.entrances@.take(i as int),
            decreases self.entrances.len() - i,
        {
            entrances.push(self.entrances[i]);
            i += 1;
            assert(entrances@ == self.entrances@.take(i as int));
        }
        assert(entrances@ == self.entrances@);
        Tile {
            entrances,
            is_highlighted: self.is_highlighted,
            original_rotation: self.original_rotation,
            original_location: self.original_location,
            current_rotation: self.current_rotation,
        }
    }

    /// Whether the room has an entrance on side `d`.
    pub fn has_entrance(&self, d: Direction) -> (r: bool)
        ensures
            r == has_entrance(*self, d),
    {
        let mut i: usize = 0;
        while i < self.entrances.len()
            invariant
                i <= self.entrances.len(),
                forall|j: int| 0 <= j < i ==> self.entrances@[j] != d,
            decreases self.entrances.len() - i,
        {
            if self.entrances[i] == d {
                return true;
            }
            i += 1;
        }
        false
    }

    /// Whether this room and the room next to it on side `direction` have
    /// facing entrances.
    pub fn is_connected_in_direction(&self, direction: Direction, adjacent_tile: &Tile) -> (r:
        bool)
        ensures
            r == connects(*self, *adjacent_tile, direction),
    {
        match direction {
            Direction::Up => self.has_entrance(Direction::Up) && adjacent_tile.has_entrance(
                Direction::Down,
            ),
            Direction::Down => self.has_entrance(Direction::Down) && adjacent_tile.has_entrance(
                Direction::Up,
            ),
            Direction::Left => self.has_entrance(Direction::Left) && adjacent_tile.has_entrance(
                Direction::Right,
            ),
            Direction::Right => self.has_entrance(Direction::Right) && adjacent_tile.has_entrance(
                Direction::Left,
            ),
        }
    }

    /// Column and row of a board index.
    pub fn position(index: usize) -> (r: (usize, usize))
        ensures
            r.0 == grid_x(index as int),
            r.1 == grid_y(index as int),
    {
        (index % MAP_SIZE, index / MAP_SIZE)
    }

    /// Column of a board index.
    pub fn x(index: usize) -> (r: usize)
        ensures
            r == grid_x(index as int),
    {
        index % MAP_SIZE
    }

    /// Row of a board index.
    pub fn y(index: usize) -> (r: usize)
        ensures
            r == grid_y(index as int),
    {
        index / MAP_SIZE
    }

    /// Board index of column `x`, row `y`.
    pub fn index(x: usize, y: usize) -> (r: usize)
        requires
            y * MAP_SIZE + x <= usize::MAX,
        ensures
            r == y * MAP_SIZE + x,
    {
        y * MAP_SIZE + x
    }

    /// Screen coordinates of the top left corner of the room at `index`.
    pub fn screen_position(index: usize, tile_size: u32, offset_x: u32, offset_y: u32) -> (r: (
        u32,
        u32,
    ))
        requires
            offset_x + grid_x(index as int) * tile_size <= u32::MAX,
            offset_y + grid_y(index as int) * tile_size <= u32::MAX,
        ensures
            r.0 == offset_x + grid_x(index as int) * tile_size,
            r.1 == offset_y + grid_y(index as int) * tile_size,
    {
        let (x, y) = Self::position(index);
        if tile_size == 0 {
            assert(x * tile_size == 0 && y * tile_size == 0) by (nonlinear_arith)
                requires
                    tile_size == 0,
            ;
            return (offset_x, offset_y);
        }
        assert(x <= u32::MAX && y <= u32::MAX) by (nonlinear_arith)
            requires
                offset_x + x * tile_size <= u32::MAX,
                offset_y + y * tile_size <= u32::MAX,
                tile_size >= 1,
        ;
        let tx: u32 = offset_x + (x as u32) * tile_size;
        let ty: u32 = offset_y + (y as u32) * tile_size;
        (tx, ty)
    }
}

} // verus!

verus! {

/// Unhighlights every room.
pub fn clear_highlights(tiles: &mut Vec<Tile>)
    ensures
        final(tiles)@.len() == old(tiles)@.len(),
        forall|i: int|
            0 <= i < old(tiles)@.len() ==> {
                let t = #[trigger] final(tiles)@[i];
                let o = old(tiles)@[i];
                &&& !t.is_highlighted
                &&& t.entrances == o.entrances
                &&& t.original_rotation == o.original_rotation
                &&& t.original_location == o.original_location
                &&& t.current_rotation == o.current_rotation
            },
{
    let mut i: usize = 0;
    while i < tiles.len()
        invariant
            i <= tiles@.len(),
            tiles@.len() == old(tiles)@.len(),
            forall|j: int|
                0 <= j < old(tiles)@.len() ==> {
                    let t = #[trigger] tiles@[j];
                    let o = old(tiles)@[j];
                    &&& (j < i ==> !t.is_highlighted)
                    &&& (j >= i ==> t.is_highlighted == o.is_highlighted)
                    &&& t.entrances == o.entrances
                    &&& t.original_rotation == o.original_rotation
                    &&& t.original_location == o.original_location
                    &&& t.current_rotation == o.current_rotation
                },
        decreases tiles@.len() - i,
    {
        tiles[i].is_highlighted = false;
        i += 1;
    }
}

} // verus!

verus! {

/// Distance between two numbers.
pub open spec fn abs_diff(a: int, b: int) -> int {
    if a >= b {
        a - b
    } else {
        b - a
    }
}

/// Room `i` is picked around room `origin`: a side neighbor; with
/// `include_diagonals` also a diagonal neighbor and the room itself; never the
/// room itself without `include_self`.
pub open spec fn picked_around(origin: int, i: int, include_diagonals: bool, include_self: bool) -> bool {
    let dx = abs_diff(grid_x(i), grid_x(origin));
    let dy = abs_diff(grid_y(i), grid_y(origin));
    let is_self = dx == 0 && dy == 0;
    let is_diagonal = dx == 1 && dy == 1;
    let is_adjacent = dx + dy == 1;
    &&& include_self || !is_self
    &&& (include_diagonals && (is_adjacent || is_diagonal || is_self)) || (!include_diagonals
        && is_adjacent)
}

/// The next index along a straight line from `c` towards side `d`, on a
/// board of `len` rooms, if the line does not leave the board there.
pub open spec fn line_next(c: int, d: Direction, len: int) -> Option<int> {
    match d {
        Direction::Up => if c < 5 {
            None
        } else {
            Some(c - 5)
        },
        Direction::Down => if c + 5 >= len {
            None
        } else {
            Some(c + 5)
        },
        Direction::Left => if c % 5 == 0 {
            None
        } else {
            Some(c - 1)
        },
        Direction::Right => if (c + 1) % 5 == 0 || c + 1 >= len {
            None
        } else {
            Some(c + 1)
        },
    }
}

/// A line started at index `c`, past the `len` rooms of the board, ends
/// before its first step: the next index is off the board too, or the line
/// leaves the grid there (the index arithmetic does not overflow).
pub open spec fn stops_off_board(c: int, d: Direction, len: int) -> bool {
    match d {
        Direction::Up => c < 5 || c - 5 >= len,
        Direction::Down => c + 5 <= usize::MAX,
        Direction::Left => c % 5 == 0 || c - 1 >= len,
        Direction::Right => c + 1 <= usize::MAX,
    }
}

/// The rooms after `c` along a straight line towards side `d`, at most
/// `steps` of them, as long as each opens into the next.
pub open spec fn line_from(tiles: Seq<Tile>, c: int, d: Direction, steps: nat) -> Seq<usize>
    decreases steps,
{
    if steps == 0 {
        seq![]
    } else {
        match line_next(c, d, tiles.len() as int) {
            None => seq![],
            Some(n) => if connects(tiles[c], tiles[n], d) {
                seq![n as usize] + line_from(tiles, n, d, (steps - 1) as nat)
            } else {
                seq![]
            },
        }
    }
}

/// A fireball in room `c` of `tiles` moving towards side `d` hits a wall:
/// the board ends there, or room `t` (the room the fireball is in) and the
/// next room do not open into each other.
pub open spec fn fireball_blocked(t: Tile, c: int, d: Direction, tiles: Seq<Tile>) -> bool {
    let x = grid_x(c);
    let y = grid_y(c);
    let at_edge = match d {
        Direction::Up => y == 0,
        Direction::Down => y == 4,
        Direction::Left => x == 0,
        Direction::Right => x == 4,
    };
    if at_edge {
        true
    } else {
        let next = match d {
            Direction::Up => c - 5,
            Direction::Down => c + 5,
            Direction::Left => c - 1,
            Direction::Right => c + 1,
        };
        if next >= tiles.len() {
            true
        } else {
            !connects(t, tiles[next], d)
        }
    }
}

/// Turning the entrances by `a` quarter turns and then by `b` gives them
/// back when `a + b` is a whole number of turns.
pub proof fn lemma_turns_cancel(d: Direction, a: int, b: int)
    requires
        a >= 0,
        b >= 0,
        (a + b) % 4 == 0,
    ensures
        rotated(rotated(d, a), b) == d,
{
    crate::direction::lemma_rotation_composes(d, a, b);
    let c = crate::direction::clockwise_index(d);
    assert((c + a + b) % 4 == c) by (nonlinear_arith)
        requires
            0 <= c < 4,
            (a + b) % 4 == 0,
            a >= 0,
            b >= 0,
    ;
}

impl Tile {
    /// All board indices picked around `origin_index`, in increasing order
    /// (see `picked_around`).
    pub fn get_adjacent_indices(origin_index: usize, include_diagonals: bool, include_self: bool) -> (r: Vec<usize>)
        ensures
            forall|k: int| 0 <= k < r@.len() ==> (#[trigger] r@[k] as int) < BOARD_TILES,
            forall|k1: int, k2: int| 0 <= k1 < k2 < r@.len() ==> #[trigger] r@[k1] < #[trigger] r@[k2],
            forall|i: int|
                0 <= i < BOARD_TILES ==> (r@.contains(i as usize) <==> picked_around(
                    origin_index as int,
                    i,
                    include_diagonals,
                    include_self,
                )),
    {
        let px = origin_index % MAP_SIZE;
        let py = origin_index / MAP_SIZE;
        let mut indices: Vec<usize> = Vec::new();
        let mut i: usize = 0;
        while i < BOARD_TILES
            invariant
                i <= BOARD_TILES,
                px == grid_x(origin_index as int),
                py == grid_y(origin_index as int),
                forall|k: int| 0 <= k < indices@.len() ==> (#[trigger] indices@[k] as int) < i,
                forall|k1: int, k2: int|
                    0 <= k1 < k2 < indices@.len() ==> #[trigger] indices@[k1] < #[trigger] indices@[k2],
                forall|j: int|
                    0 <= j < i ==> (indices@.contains(j as usize) <==> picked_around(
                        origin_index as int,
                        j,
                        include_diagonals,
                        include_self,
                    )),
            decreases BOARD_TILES - i,
        {
            let x = i % MAP_SIZE;
            let y = i / MAP_SIZE;
            let dx = if x >= px {
                x - px
            } else {
                px - x
            };
            let dy = if y >= py {
                y - py
            } else {
                py - y
            };
            let is_self = dx == 0 && dy == 0;
            let is_diagonal = dx == 1 && dy == 1;
            let is_adjacent = (dx == 1 && dy == 0) || (dx == 0 && dy == 1);
            let picked = (include_self || !is_self) && ((include_diagonals && (is_adjacent
                || is_diagonal || is_self)) || (!include_diagonals && is_adjacent));
            let ghost before = indices@;
            if picked {
                indices.push(y * MAP_SIZE + x);
            }
            proof {
                assert(y * 5 + x == i);
                assert forall|j: int|
                    0 <= j < i + 1 implies (indices@.contains(j as usize) <==> picked_around(
                    origin_index as int,
                    j,
                    include_diagonals,
                    include_self,
                )) by {
                    if j < i {
                        if indices@.contains(j as usize) {
                            let k = choose|k: int| 0 <= k < indices@.len() && indices@[k] == j as usize;
                            if k < before.len() {
                                assert(before[k] == j as usize);
                            }
                        }
                        if before.contains(j as usize) {
                            let k = choose|k: int| 0 <= k < before.len() && before[k] == j as usize;
                            assert(indices@[k] == j as usize);
                        }
                    } else {
                        if picked {
                            assert(indices@[indices@.len() - 1] == i);
                        } else if indices@.contains(j as usize) {
                            let k = choose|k: int| 0 <= k < indices@.len() && indices@[k] == j as usize;
                            assert(before[k] == j as usize);
                        }
                    }
                }
            }
            i += 1;
        }
        indices
    }

    /// The room at `start_index` followed by the rooms after it along a
    /// straight line towards `direction`, at most `max_distance` of them
    /// (`MAP_SIZE` when none is given), as long as each opens into the next.
    /// A start past the board gives the start alone.
    pub fn find_connected_line(
        start_index: usize,
        direction: Direction,
        tiles: &[Tile],
        max_distance: Option<usize>,
    ) -> (r: Vec<usize>)
        requires
            start_index < tiles@.len() || (match max_distance {
                Some(m) => m,
                None => MAP_SIZE,
            }) == 0 || stops_off_board(start_index as int, direction, tiles@.len() as int),
            tiles@.len() + MAP_SIZE <= usize::MAX,
        ensures
            start_index < tiles@.len() ==> r@ == seq![start_index] + line_from(
                tiles@,
                start_index as int,
                direction,
                (match max_distance {
                    Some(m) => m,
                    None => MAP_SIZE,
                }) as nat,
            ),
            start_index >= tiles@.len() ==> r@ == seq![start_index],
    {
        let max_dist = match max_distance {
            Some(m) => m,
            None => MAP_SIZE,
        };
        if start_index >= tiles.len() {
            let mut only: Vec<usize> = Vec::new();
            only.push(start_index);
            return only;
        }
        let mut connected_tiles: Vec<usize> = Vec::new();
        connected_tiles.push(start_index);
        let mut current_index = start_index;
        let mut step: usize = 0;
        while step < max_dist
            invariant
                step <= max_dist,
                current_index < tiles@.len(),
                tiles@.len() + MAP_SIZE <= usize::MAX,
                connected_tiles@ + line_from(
                    tiles@,
                    current_index as int,
                    direction,
                    (max_dist - step) as nat,
                ) == seq![start_index] + line_from(
                    tiles@,
                    start_index as int,
                    direction,
                    max_dist as nat,
                ),
            ensures
                current_index < tiles@.len(),
                connected_tiles@ + line_from(
                    tiles@,
                    current_index as int,
                    direction,
                    (max_dist - step) as nat,
                ) == seq![start_index] + line_from(
                    tiles@,
                    start_index as int,
                    direction,
                    max_dist as nat,
                ),
                line_from(tiles@, current_index as int, direction, (max_dist - step) as nat)
                    == Seq::<usize>::empty(),
            decreases max_dist - step,
        {
            let next_index = match direction {
                Direction::Up => {
                    if current_index < MAP_SIZE {
                        break ;
                    }
                    current_index - MAP_SIZE
                },
                Direction::Down => {
                    let new_index = current_index + MAP_SIZE;
                    if new_index >= tiles.len() {
                        break ;
                    }
                    new_index
                },
                Direction::Left => {
                    if current_index % MAP_SIZE == 0 {
                        break ;
                    }
                    current_index - 1
                },
                Direction::Right => {
                    if (current_index + 1) % MAP_SIZE == 0 {
                        break ;
                    }
                    current_index + 1
                },
            };
            if next_index == current_index || next_index >= tiles.len() {
                break ;
            }
            let has_connection = tiles[current_index].is_connected_in_direction(
                direction,
                &tiles[next_index],
            );
            if has_connection {
                let ghost before = connected_tiles@;
                connected_tiles.push(next_index);
                proof {
                    let rest = line_from(tiles@, next_index as int, direction, (max_dist - step - 1) as nat);
                    assert(line_from(tiles@, current_index as int, direction, (max_dist - step) as nat)
                        == seq![next_index] + rest);
                    assert(connected_tiles@ + rest == before + (seq![next_index] + rest));
                }
                current_index = next_index;
            } else {
                break ;
            }
            step += 1;
        }
        proof {
            let rest = line_from(tiles@, current_index as int, direction, (max_dist - step) as nat);
            assert(connected_tiles@ + rest == connected_tiles@);
        }
        connected_tiles
    }

    /// Turns the room's entrances `times` quarter turns clockwise.
    pub fn rotate_clockwise(&mut self, times: usize)
        ensures
            final(self).entrances@ == old(self).entrances@.map_values(
                |d: Direction| rotated(d, times as int),
            ),
            final(self).is_highlighted == old(self).is_highlighted,
            final(self).original_rotation == old(self).original_rotation,
            final(self).original_location == old(self).original_location,
            final(self).current_rotation == old(self).current_rotation,
    {
        let mut turned: Vec<Direction> = Vec::new();
        let mut i: usize = 0;
        while i < self.entrances.len()
            invariant
                i <= self.entrances@.len(),
                turned@ == self.entrances@.take(i as int).map_values(
                    |d: Direction| rotated(d, times as int),
                ),
            decreases self.entrances@.len() - i,
        {
            let d = self.entrances[i].rotated_clockwise(times);
            turned.push(d);
            i += 1;
            assert(turned@ == self.entrances@.take(i as int).map_values(
                |d: Direction| rotated(d, times as int),
            ));
        }
        assert(self.entrances@.take(i as int) == self.entrances@);
        self.entrances = turned;
    }

    /// Turns the room so that it stands `rotation` quarter turns from its
    /// first position, turning the entrances clockwise by the difference from
    /// its current rotation (taken modulo 4).
    pub fn rotate_entrances(&mut self, rotation: u8)
        requires
            old(self).current_rotation <= rotation + 4,
        ensures
            final(self).entrances@ == old(self).entrances@.map_values(
                |d: Direction| rotated(d, (4 + rotation - old(self).current_rotation) % 4),
            ),
            final(self).current_rotation == rotation,
            final(self).is_highlighted == old(self).is_highlighted,
            final(self).original_rotation == old(self).original_rotation,
            final(self).original_location == old(self).original_location,
    {
        let rotations_needed: usize = ((4 + rotation as usize) - self.current_rotation as usize) % 4;
        self.rotate_clockwise(rotations_needed);
        self.current_rotation = rotation;
    }

    /// Exchanges the whole state with another room: entrances, highlight,
    /// rotations and remembered place.
    pub fn swap_with(&mut self, other: &mut Tile)
        ensures
            *final(self) == *old(other),
            *final(other) == *old(self),
    {
        std::mem::swap(&mut self.entrances, &mut other.entrances);
        std::mem::swap(&mut self.is_highlighted, &mut other.is_highlighted);
        std::mem::swap(&mut self.original_rotation, &mut other.original_rotation);
        std::mem::swap(&mut self.original_location, &mut other.original_location);
        std::mem::swap(&mut self.current_rotation, &mut other.current_rotation);
    }

    /// Whether a fireball in this room, standing at `current_index`, hits a
    /// wall when it moves towards `direction` (see `fireball_blocked`).
    pub fn would_fireball_hit_wall(&self, current_index: usize, direction: Direction, tiles: &[Tile]) -> (r: bool)
        requires
            current_index + MAP_SIZE <= usize::MAX,
        ensures
            r == fireball_blocked(*self, current_index as int, direction, tiles@),
    {
        let (tile_x, tile_y) = Tile::position(current_index);
        let at_edge = match direction {
            Direction::Up => tile_y == 0,
            Direction::Down => tile_y == 4,
            Direction::Left => tile_x == 0,
            Direction::Right => tile_x == 4,
        };
        if at_edge {
            return true;
        }
        let next_tile_index = match direction {
            Direction::Up => current_index - 5,
            Direction::Down => current_index + 5,
            Direction::Left => current_index - 1,
            Direction::Right => current_index + 1,
        };
        if next_tile_index >= tiles.len() {
            return true;
        }
        !self.is_connected_in_direction(direction, &tiles[next_tile_index])
    }
}

} // verus!
