use vstd::prelude::*;

use crate::constants::{BOARD_TILES, MAP_SIZE};
use crate::direction::Direction;
use crate::rng::{random_u32, shuffle_directions};
use crate::monster::side_for_roll;
use crate::tile::{grid_x, grid_y, Tile};

verus! {

broadcast use vstd::seq_lib::group_to_multiset_ensures;

/// `d` followed by `s` when `keep`, else `s`.
pub open spec fn keep_if(keep: bool, d: Direction) -> Seq<Direction> {
    if keep {
        seq![d]
    } else {
        seq![]
    }
}

/// The four sides in the order up, down, left, right, without those in
/// `forbidden`.
pub open spec fn allowed_sides(forbidden: Seq<Direction>) -> Seq<Direction> {
    keep_if(!forbidden.contains(Direction::Up), Direction::Up) + keep_if(
        !forbidden.contains(Direction::Down),
        Direction::Down,
    ) + keep_if(!forbidden.contains(Direction::Left), Direction::Left) + keep_if(
        !forbidden.contains(Direction::Right),
        Direction::Right,
    )
}

/// The sides of room `i` that face off the board, in the order up, down,
/// left, right.
pub open spec fn edge_sides(i: int) -> Seq<Direction> {
    keep_if(grid_y(i) == 0, Direction::Up) + keep_if(grid_y(i) == 4, Direction::Down) + keep_if(
        grid_x(i) == 0,
        Direction::Left,
    ) + keep_if(grid_x(i) == 4, Direction::Right)
}

/// The sides of room `i` that face a room of the board, in the order up,
/// down, left, right.
pub open spec fn inner_sides(i: int) -> Seq<Direction> {
    keep_if(grid_y(i) > 0, Direction::Up) + keep_if(grid_y(i) < 4, Direction::Down) + keep_if(
        grid_x(i) > 0,
        Direction::Left,
    ) + keep_if(grid_x(i) < 4, Direction::Right)
}

/// The entrances a room drawn with `forbidden` sides and `entrance_count`
/// wished entrances may get: distinct allowed sides, as many as wished (at
/// most all allowed ones), and one when none was wished; none when no side
/// is allowed.
pub open spec fn fits_draw(entrances: Seq<Direction>, forbidden: Seq<Direction>, entrance_count: int) -> bool {
    let allowed = allowed_sides(forbidden);
    &&& entrances.no_duplicates()
    &&& forall|k: int| 0 <= k < entrances.len() ==> allowed.contains(#[trigger] entrances[k])
    &&& entrances.len() == if allowed.len() == 0 {
        0
    } else if entrance_count == 0 {
        1
    } else if entrance_count < allowed.len() {
        entrance_count
    } else {
        allowed.len() as int
    }
}

fn contains_direction(v: &[Direction], d: Direction) -> (r: bool)
    ensures
        r == v@.contains(d),
{
    let mut i: usize = 0;
    while i < v.len()
        invariant
            i <= v@.len(),
            forall|j: int| 0 <= j < i ==> v@[j] != d,
        decreases v@.len() - i,
    {
        if v[i] == d {
            return true;
        }
        i += 1;
    }
    false
}

/// The four sides in the order up, down, left, right, without the
/// forbidden ones.
pub fn allowed_directions(forbidden: &[Direction]) -> (r: Vec<Direction>)
    ensures
        r@ == allowed_sides(forbidden@),
{
    let mut allowed: Vec<Direction> = Vec::new();
    if !contains_direction(forbidden, Direction::Up) {
        allowed.push(Direction::Up);
    }
    if !contains_direction(forbidden, Direction::Down) {
        allowed.push(Direction::Down);
    }
    if !contains_direction(forbidden, Direction::Left) {
        allowed.push(Direction::Left);
    }
    if !contains_direction(forbidden, Direction::Right) {
        allowed.push(Direction::Right);
    }
    proof {
        let f = forbidden@;
        assert(allowed@ == keep_if(!f.contains(Direction::Up), Direction::Up) + keep_if(
            !f.contains(Direction::Down),
            Direction::Down,
        ) + keep_if(!f.contains(Direction::Left), Direction::Left) + keep_if(
            !f.contains(Direction::Right),
            Direction::Right,
        ));
    }
    allowed
}

/// The sides of room `index` that face off the board.
pub fn edge_directions(index: usize) -> (r: Vec<Direction>)
    ensures
        r@ == edge_sides(index as int),
{
    let (x, y) = Tile::position(index);
    let mut forbidden: Vec<Direction> = Vec::new();
    if y == 0 {
        forbidden.push(Direction::Up);
    }
    if y == MAP_SIZE - 1 {
        forbidden.push(Direction::Down);
    }
    if x == 0 {
        forbidden.push(Direction::Left);
    }
    if x == MAP_SIZE - 1 {
        forbidden.push(Direction::Right);
    }
    proof {
        let i = index as int;
        assert(forbidden@ == keep_if(grid_y(i) == 0, Direction::Up) + keep_if(grid_y(i) == 4, Direction::Down) + keep_if(
            grid_x(i) == 0,
            Direction::Left,
        ) + keep_if(grid_x(i) == 4, Direction::Right));
    }
    forbidden
}

/// The sides of room `index` that face a room of the board.
pub fn inner_directions(index: usize) -> (r: Vec<Direction>)
    ensures
        r@ == inner_sides(index as int),
{
    let (x, y) = Tile::position(index);
    let mut possible: Vec<Direction> = Vec::new();
    if y > 0 {
        possible.push(Direction::Up);
    }
    if y < MAP_SIZE - 1 {
        possible.push(Direction::Down);
    }
    if x > 0 {
        possible.push(Direction::Left);
    }
    if x < MAP_SIZE - 1 {
        possible.push(Direction::Right);
    }
    proof {
        let i = index as int;
        assert(possible@ == keep_if(grid_y(i) > 0, Direction::Up) + keep_if(grid_y(i) < 4, Direction::Down) + keep_if(
            grid_x(i) > 0,
            Direction::Left,
        ) + keep_if(grid_x(i) < 4, Direction::Right));
    }
    possible
}

proof fn lemma_allowed_no_duplicates(forbidden: Seq<Direction>)
    ensures
        allowed_sides(forbidden).no_duplicates(),
        allowed_sides(forbidden).len() <= 4,
{
    let s = allowed_sides(forbidden);
    assert forall|i: int, j: int| 0 <= i < s.len() && 0 <= j < s.len() && i != j implies s[i] != s[j] by {
        let a = keep_if(!forbidden.contains(Direction::Up), Direction::Up);
        let b = keep_if(!forbidden.contains(Direction::Down), Direction::Down);
        let c = keep_if(!forbidden.contains(Direction::Left), Direction::Left);
        let d = keep_if(!forbidden.contains(Direction::Right), Direction::Right);
        assert(s == a + b + c + d);
    }
}

/// The entrances a room gets from a draw: the first `count` sides of the
/// shuffled order `shuffled` (all of them when `count` is larger); when that
/// leaves none, the allowed side that the random number `roll` picks, modulo
/// the number of allowed sides; none when no side is allowed.
pub open spec fn drawn_entrances(shuffled: Seq<Direction>, allowed: Seq<Direction>, count: int, roll: int) -> Seq<
    Direction,
> {
    let k = if count < shuffled.len() {
        count
    } else {
        shuffled.len() as int
    };
    if k > 0 {
        shuffled.take(k)
    } else if allowed.len() > 0 {
        seq![allowed[roll % (allowed.len() as int)]]
    } else {
        seq![]
    }
}

/// The entrances a room gets from the shuffled order of its allowed sides
/// and, when needed, the random number `roll` (see `drawn_entrances`).
pub fn entrances_from_draw(shuffled: &Vec<Direction>, allowed: &Vec<Direction>, entrance_count: usize, roll: u32) -> (r:
    Vec<Direction>)
    ensures
        r@ == drawn_entrances(shuffled@, allowed@, entrance_count as int, roll as int),
{
    let mut entrances: Vec<Direction> = Vec::new();
    let mut k: usize = 0;
    while k < shuffled.len() && k < entrance_count
        invariant
            k <= shuffled@.len(),
            k <= entrance_count,
            entrances@ == shuffled@.take(k as int),
        decreases shuffled@.len() - k,
    {
        entrances.push(shuffled[k]);
        k += 1;
        assert(entrances@ == shuffled@.take(k as int));
    }
    if entrances.len() == 0 && allowed.len() > 0 {
        let pick = (roll as usize) % allowed.len();
        entrances.push(allowed[pick]);
        assert(entrances@ == seq![allowed@[pick as int]]);
    }
    entrances
}

/// Whether a draw with `count` wished entrances among `n` shuffled sides
/// takes none of them, so that a random side must be picked.
fn takes_none(n: usize, count: usize) -> (r: bool)
    ensures
        r == (n == 0 || count == 0),
{
    n == 0 || count == 0
}

impl Tile {
    /// A room whose entrances are drawn at random among the sides not in
    /// `forbidden`: the allowed sides are shuffled and the first
    /// `entrance_count` kept, or one picked by a random number when that
    /// keeps none (see `drawn_entrances` and `fits_draw`). `entrance_count`
    /// is the wished number of entrances, itself drawn by the caller with
    /// the entrance weights.
    pub fn random(forbidden: &[Direction], entrance_count: usize) -> (t: Tile)
        ensures
            fits_draw(t.entrances@, forbidden@, entrance_count as int),
            exists|s: Seq<Direction>, roll: u32|
                s.to_multiset() == allowed_sides(forbidden@).to_multiset() && t.entrances@ == #[trigger] drawn_entrances(
                    s,
                    allowed_sides(forbidden@),
                    entrance_count as int,
                    roll as int,
                ),
            !t.is_highlighted,
            t.original_rotation == 0,
            t.original_location == 0,
            t.current_rotation == 0,
    {
        let allowed = allowed_directions(forbidden);
        proof {
            lemma_allowed_no_duplicates(forbidden@);
        }
        let mut dirs: Vec<Direction> = Vec::new();
        let mut i: usize = 0;
        while i < allowed.len()
            invariant
                i <= allowed@.len(),
                dirs@ == allowed@.take(i as int),
            decreases allowed@.len() - i,
        {
            dirs.push(allowed[i]);
            i += 1;
            assert(dirs@ == allowed@.take(i as int));
        }
        assert(dirs@ == allowed@);
        shuffle_directions(&mut dirs);
        proof {
            allowed@.lemma_multiset_has_no_duplicates();
            assert forall|x: Direction| dirs@.to_multiset().contains(x) implies dirs@.to_multiset().count(x) == 1 by {}
            dirs@.lemma_multiset_has_no_duplicates_conv();
            assert(dirs@.len() == dirs@.to_multiset().len());
            assert(allowed@.len() == allowed@.to_multiset().len());
            assert forall|x: Direction| dirs@.contains(x) implies allowed@.contains(x) by {
                assert(dirs@.to_multiset().count(x) > 0);
            }
        }
        let roll: u32 = if takes_none(dirs.len(), entrance_count) {
            random_u32()
        } else {
            0
        };
        let entrances = entrances_from_draw(&dirs, &allowed, entrance_count, roll);
        proof {
            let k = if entrance_count < dirs@.len() {
                entrance_count as int
            } else {
                dirs@.len() as int
            };
            if k > 0 {
                assert(entrances@ == dirs@.take(k));
                assert forall|i: int, j: int|
                    0 <= i < entrances@.len() && 0 <= j < entrances@.len() && i != j implies entrances@[i]
                    != entrances@[j] by {
                    assert(entrances@[i] == dirs@[i]);
                    assert(entrances@[j] == dirs@[j]);
                }
                assert forall|q: int| 0 <= q < entrances@.len() implies allowed@.contains(#[trigger] entrances@[q]) by {
                    assert(entrances@[q] == dirs@[q]);
                    assert(dirs@.contains(dirs@[q]));
                }
            } else if allowed@.len() > 0 {
                let pick = (roll as int) % (allowed@.len() as int);
                assert(allowed@.contains(allowed@[pick]));
                assert(entrances@ == seq![allowed@[pick]]);
            }
            assert(dirs@.to_multiset() == allowed_sides(forbidden@).to_multiset() && entrances@ == drawn_entrances(
                dirs@,
                allowed_sides(forbidden@),
                entrance_count as int,
                roll as int,
            ));
        }
        Tile::new(entrances)
    }
}

/// A board of `entrance_counts.len()` rooms drawn at random: room `i` gets
/// entrances only on sides that face a room of the board, wishing for
/// `entrance_counts[i]` of them (see `Tile::random`), and remembers `i` as
/// its place.
pub fn random_tiles(entrance_counts: &Vec<usize>) -> (tiles: Vec<Tile>)
    ensures
        tiles@.len() == entrance_counts@.len(),
        forall|i: int|
            0 <= i < tiles@.len() ==> {
                let t = #[trigger] tiles@[i];
                &&& t.original_location == i
                &&& !t.is_highlighted
                &&& t.original_rotation == 0
                &&& t.current_rotation == 0
                &&& fits_draw(t.entrances@, edge_sides(i), entrance_counts@[i] as int)
                &&& exists|s: Seq<Direction>, roll: u32|
                    s.to_multiset() == allowed_sides(edge_sides(i)).to_multiset() && t.entrances@
                        == #[trigger] drawn_entrances(
                        s,
                        allowed_sides(edge_sides(i)),
                        entrance_counts@[i] as int,
                        roll as int,
                    )
            },
{
    let mut tiles: Vec<Tile> = Vec::new();
    let mut i: usize = 0;
    while i < entrance_counts.len()
        invariant
            i <= entrance_counts@.len(),
            tiles@.len() == i,
            forall|j: int|
                0 <= j < i ==> {
                    let t = #[trigger] tiles@[j];
                    &&& t.original_location == j
                    &&& !t.is_highlighted
                    &&& t.original_rotation == 0
                    &&& t.current_rotation == 0
                    &&& fits_draw(t.entrances@, edge_sides(j), entrance_counts@[j] as int)
                    &&& exists|s: Seq<Direction>, roll: u32|
                        s.to_multiset() == allowed_sides(edge_sides(j)).to_multiset() && t.entrances@
                            == #[trigger] drawn_entrances(
                            s,
                            allowed_sides(edge_sides(j)),
                            entrance_counts@[j] as int,
                            roll as int,
                        )
                },
        decreases entrance_counts@.len() - i,
    {
        let forbidden = edge_directions(i);
        let mut tile = Tile::random(forbidden.as_slice(), entrance_counts[i]);
        tile.original_location = i;
        if tile.entrances.len() == 0 {
            let possible = inner_directions(i);
            if possible.len() > 0 {
                tile.entrances.push(side_for_roll(&possible, random_u32()));
            }
        }
        proof {
            lemma_edges_leave_sides(i as int);
        }
        tiles.push(tile);
        i += 1;
    }
    tiles
}

proof fn lemma_keep_contains(k: bool, d: Direction, e: Direction)
    ensures
        keep_if(k, d).contains(e) <==> (k && e == d),
{
    if k && e == d {
        assert(keep_if(k, d)[0] == e);
    }
}

/// An element lies in a concatenation exactly when it lies in one of the
/// parts.
pub proof fn lemma_concat_contains<A>(a: Seq<A>, b: Seq<A>, e: A)
    ensures
        (a + b).contains(e) <==> (a.contains(e) || b.contains(e)),
{
    if a.contains(e) {
        let i = choose|i: int| 0 <= i < a.len() && a[i] == e;
        assert((a + b)[i] == e);
    }
    if b.contains(e) {
        let i = choose|i: int| 0 <= i < b.len() && b[i] == e;
        assert((a + b)[a.len() + i] == e);
    }
    if (a + b).contains(e) {
        let i = choose|i: int| 0 <= i < (a + b).len() && (a + b)[i] == e;
        if i < a.len() {
            assert(a[i] == e);
        } else {
            assert(b[i - a.len()] == e);
        }
    }
}

/// Membership in a list of sides built side by side.
pub proof fn lemma_sides_contain(a: bool, b: bool, c: bool, d: bool, e: Direction)
    ensures
        (keep_if(a, Direction::Up) + keep_if(b, Direction::Down) + keep_if(c, Direction::Left) + keep_if(
            d,
            Direction::Right,
        )).contains(e) <==> ((a && e == Direction::Up) || (b && e == Direction::Down) || (c && e
            == Direction::Left) || (d && e == Direction::Right)),
{
    let s1 = keep_if(a, Direction::Up);
    let s2 = keep_if(b, Direction::Down);
    let s3 = keep_if(c, Direction::Left);
    let s4 = keep_if(d, Direction::Right);
    lemma_keep_contains(a, Direction::Up, e);
    lemma_keep_contains(b, Direction::Down, e);
    lemma_keep_contains(c, Direction::Left, e);
    lemma_keep_contains(d, Direction::Right, e);
    lemma_concat_contains(s1, s2, e);
    lemma_concat_contains(s1 + s2, s3, e);
    lemma_concat_contains(s1 + s2 + s3, s4, e);
}

/// The sides allowed once the edges are forbidden are the sides that face
/// the board.
pub proof fn lemma_allowed_edges_inner(i: int)
    requires
        0 <= i < BOARD_TILES,
    ensures
        allowed_sides(edge_sides(i)) == inner_sides(i),
{
    let x = grid_x(i);
    let y = grid_y(i);
    let f = edge_sides(i);
    assert(0 <= x < 5);
    lemma_sides_contain(y == 0, y == 4, x == 0, x == 4, Direction::Up);
    lemma_sides_contain(y == 0, y == 4, x == 0, x == 4, Direction::Down);
    lemma_sides_contain(y == 0, y == 4, x == 0, x == 4, Direction::Left);
    lemma_sides_contain(y == 0, y == 4, x == 0, x == 4, Direction::Right);
}

/// Every room keeps at least two sides that face the board, so a drawn
/// room always gets an entrance.
proof fn lemma_edges_leave_sides(i: int)
    requires
        i >= 0,
    ensures
        allowed_sides(edge_sides(i)).len() >= 2,
{
    assert(0 <= grid_x(i) < 5);
    if i < BOARD_TILES {
        lemma_allowed_edges_inner(i);
    } else {
        let y = grid_y(i);
        let x = grid_x(i);
        lemma_sides_contain(y == 0, y == 4, x == 0, x == 4, Direction::Up);
        lemma_sides_contain(y == 0, y == 4, x == 0, x == 4, Direction::Down);
    }
}

} // verus!
