use vstd::prelude::*;

use crate::constants::{BOARD_TILES, MONSTER_DAMAGE, MONSTER_HEALTH};
use crate::direction::Direction;
use crate::player::{Player, PlayerId};
use crate::rng::random_u32;
use crate::tile::{connects, grid_x, grid_y, is_walk, neighbor, reachable, step_to, Tile};
use crate::walk_order::{is_least_walk, is_shortest_walk, side_between};

verus! {

/// The monster that roams the board and hunts the players.
#[derive(Debug)]
pub struct Monster {
    pub position: (usize, usize),
    pub original_position: (usize, usize),
    pub health: u32,
    pub max_health: u32,
    /// The way the monster faces.
    pub direction: Direction,
    /// Frame of the walking picture.
    pub animation_frame: usize,
    pub is_moving: bool,
    pub damage: u32,
    /// Index of the player being hunted.
    pub target_player: Option<usize>,
}

/// A spot on the 5x5 board.
pub open spec fn on_board(p: (usize, usize)) -> bool {
    p.0 < 5 && p.1 < 5
}

/// Board index of a spot.
pub open spec fn pos_index(p: (usize, usize)) -> int {
    p.1 * 5 + p.0
}

/// Squared straight-line distance between two spots.
pub open spec fn sq_dist(a: (usize, usize), b: (usize, usize)) -> int {
    (a.0 - b.0) * (a.0 - b.0) + (a.1 - b.1) * (a.1 - b.1)
}

/// Player `i` can be hunted: it is alive and a walk leads to it.
pub open spec fn is_candidate(m: Monster, players: Seq<Player>, tiles: Seq<Tile>, i: int) -> bool {
    &&& players[i].health > 0
    &&& reachable(tiles, pos_index(m.position), pos_index(players[i].position))
}

/// The least distance from the monster to a player that can be hunted,
/// among the first `k` players.
pub open spec fn best_dist(m: Monster, players: Seq<Player>, tiles: Seq<Tile>, k: int) -> Option<int>
    decreases k,
{
    if k <= 0 {
        None
    } else {
        let prev = best_dist(m, players, tiles, k - 1);
        if is_candidate(m, players, tiles, k - 1) {
            let d = sq_dist(players[k - 1].position, m.position);
            match prev {
                None => Some(d),
                Some(p) => Some(if d < p { d } else { p }),
            }
        } else {
            prev
        }
    }
}

/// The players among the first `k` that can be hunted at distance `md`, in
/// order.
pub open spec fn closest_upto(m: Monster, players: Seq<Player>, tiles: Seq<Tile>, md: int, k: int) -> Seq<usize>
    decreases k,
{
    if k <= 0 {
        seq![]
    } else {
        closest_upto(m, players, tiles, md, k - 1) + if is_candidate(m, players, tiles, k - 1)
            && sq_dist(players[k - 1].position, m.position) == md {
            seq![(k - 1) as usize]
        } else {
            seq![]
        }
    }
}

/// The player the monster goes after, with its position: the current target
/// while it can still be hunted; else the nearest huntable player, ties
/// broken by keeping the current target or by a pick that depends on the
/// target and the monster's position.
pub open spec fn nearest_choice(m: Monster, players: Seq<Player>, tiles: Seq<Tile>) -> Option<(usize, (usize, usize))> {
    if players.len() == 0 {
        None
    } else if m.target_player is Some && m.target_player->0 < players.len() && is_candidate(
        m,
        players,
        tiles,
        m.target_player->0 as int,
    ) {
        Some((m.target_player->0, players[m.target_player->0 as int].position))
    } else {
        match best_dist(m, players, tiles, players.len() as int) {
            None => None,
            Some(md) => {
                let c = closest_upto(m, players, tiles, md, players.len() as int);
                let k = if c.len() == 1 {
                    0
                } else {
                    match m.target_player {
                        Some(t) => if c.contains(t) {
                            c.index_of(t)
                        } else {
                            (t + m.position.0 + m.position.1) % (c.len() as int)
                        },
                        None => (m.position.0 + m.position.1) % (c.len() as int),
                    }
                };
                Some((c[k], players[c[k] as int].position))
            },
        }
    }
}

/// The spot next to `pos` on side `d`; `None` at the board's edge.
pub open spec fn spot_beside(pos: (usize, usize), d: Direction) -> Option<(usize, usize)> {
    match d {
        Direction::Up => if pos.1 >= 1 { Some((pos.0, (pos.1 - 1) as usize)) } else { None },
        Direction::Down => if pos.1 + 1 <= 4 { Some((pos.0, (pos.1 + 1) as usize)) } else { None },
        Direction::Left => if pos.0 >= 1 { Some(((pos.0 - 1) as usize, pos.1)) } else { None },
        Direction::Right => if pos.0 + 1 <= 4 { Some(((pos.0 + 1) as usize, pos.1)) } else { None },
    }
}

/// Where one step towards `d` takes the monster from `pos`: the spot beside
/// it on that side, if there is one on the board and the two rooms open into
/// each other.
pub open spec fn monster_step(pos: (usize, usize), d: Direction, tiles: Seq<Tile>) -> Option<(usize, usize)> {
    match spot_beside(pos, d) {
        Some(new_pos) => if on_board(new_pos) && connects(tiles[pos_index(pos)], tiles[pos_index(new_pos)], d) {
            Some(new_pos)
        } else {
            None
        },
        None => None,
    }
}

/// Some player stands on spot `pos`.
pub open spec fn occupied(players: Seq<Player>, pos: (usize, usize)) -> bool {
    exists|i: int| 0 <= i < players.len() && #[trigger] players[i].position == pos
}

/// The sides through which the monster at `pos` could leave, in the order
/// up, down, left, right: the side lies inside the board and both rooms open
/// into each other.
pub open spec fn open_sides(pos: (usize, usize), tiles: Seq<Tile>) -> Seq<Direction> {
    let cur = tiles[pos_index(pos)];
    let up = if pos.1 > 0 && connects(cur, tiles[pos_index((pos.0, (pos.1 - 1) as usize))], Direction::Up) {
        seq![Direction::Up]
    } else {
        seq![]
    };
    let down = if pos.1 < 4 && connects(cur, tiles[pos_index((pos.0, (pos.1 + 1) as usize))], Direction::Down) {
        seq![Direction::Down]
    } else {
        seq![]
    };
    let left = if pos.0 > 0 && connects(cur, tiles[pos_index(((pos.0 - 1) as usize, pos.1))], Direction::Left) {
        seq![Direction::Left]
    } else {
        seq![]
    };
    let right = if pos.0 < 4 && connects(cur, tiles[pos_index(((pos.0 + 1) as usize, pos.1))], Direction::Right) {
        seq![Direction::Right]
    } else {
        seq![]
    };
    up + down + left + right
}

/// The side of the monster's room that faces the player one room away.
pub open spec fn side_towards(m: (usize, usize), p: (usize, usize)) -> Direction {
    let dx = m.0 - p.0;
    let dy = m.1 - p.1;
    if dx > 0 {
        Direction::Left
    } else if dx < 0 {
        Direction::Right
    } else if dy > 0 {
        Direction::Up
    } else {
        Direction::Down
    }
}

/// The monster and the player stand in side-by-side rooms that open into
/// each other.
pub open spec fn touches(m: (usize, usize), p: (usize, usize), tiles: Seq<Tile>) -> bool {
    let dx = m.0 - p.0;
    let dy = m.1 - p.1;
    let adx = if dx >= 0 { dx } else { -dx };
    let ady = if dy >= 0 { dy } else { -dy };
    &&& adx + ady == 1
    &&& connects(tiles[pos_index(m)], tiles[pos_index(p)], side_towards(m, p))
}

/// The monster stands on the board, the board has all its rooms, and every
/// player's board index can be computed.
pub open spec fn turn_ready(m: Monster, players: Seq<Player>, tiles: Seq<Tile>) -> bool {
    &&& tiles.len() >= BOARD_TILES
    &&& on_board(m.position)
    &&& forall|i: int| 0 <= i < players.len() ==> pos_index(#[trigger] players[i].position) <= usize::MAX
    &&& m.target_player matches Some(t) ==> t + m.position.0 + m.position.1 <= usize::MAX
}

/// The monster as it starts: in the middle of the board, full of health,
/// facing down, standing still, hunting no one.
pub open spec fn is_fresh_monster(m: Monster) -> bool {
    &&& m.position == (2usize, 2usize)
    &&& m.original_position == (2usize, 2usize)
    &&& m.health == MONSTER_HEALTH
    &&& m.max_health == MONSTER_HEALTH
    &&& m.direction == Direction::Down
    &&& m.animation_frame == 0
    &&& !m.is_moving
    &&& m.damage == MONSTER_DAMAGE
    &&& m.target_player is None
}

impl Monster {
    /// A monster in the middle of the board, full of health, facing down,
    /// hunting no one.
    pub fn new() -> (m: Monster)
        ensures
            is_fresh_monster(m),
            m.position == (2usize, 2usize),
            m.original_position == (2usize, 2usize),
            m.health == MONSTER_HEALTH,
            m.max_health == MONSTER_HEALTH,
            m.direction == Direction::Down,
            m.animation_frame == 0,
            !m.is_moving,
            m.damage == MONSTER_DAMAGE,
            m.target_player is None,
    {
        Monster {
            position: (2, 2),
            original_position: (2, 2),
            health: MONSTER_HEALTH,
            max_health: MONSTER_HEALTH,
            direction: Direction::Down,
            animation_frame: 0,
            is_moving: false,
            damage: MONSTER_DAMAGE,
            target_player: None,
        }
    }

    /// A copy of the monster.
    pub fn copy(&self) -> (m: Monster)
        ensures
            m == *self,
    {
        Monster {
            position: self.position,
            original_position: self.original_position,
            health: self.health,
            max_health: self.max_health,
            direction: self.direction,
            animation_frame: self.animation_frame,
            is_moving: self.is_moving,
            damage: self.damage,
            target_player: self.target_player,
        }
    }

    /// Puts the monster on board index `to_index`.
    pub fn move_to(&mut self, to_index: usize)
        ensures
            *final(self) == (Monster {
                position: (grid_x(to_index as int) as usize, grid_y(to_index as int) as usize),
                ..*old(self)
            }),
    {
        let (nx, ny) = Tile::position(to_index);
        self.position = (nx, ny);
    }

    /// Remembers the current position as the one to go back to.
    pub fn update_original_position(&mut self)
        ensures
            *final(self) == (Monster { original_position: old(self).position, ..*old(self) }),
    {
        self.original_position = self.position;
    }

    /// Loses `amount` health, down to no less than zero.
    pub fn take_damage(&mut self, amount: u32)
        ensures
            *final(self) == (Monster {
                health: if amount >= old(self).health {
                    0
                } else {
                    (old(self).health - amount) as u32
                },
                ..*old(self)
            }),
    {
        if amount >= self.health {
            self.health = 0;
        } else {
            self.health -= amount;
        }
    }

    /// Gains `amount` health, up to its maximum.
    pub fn heal(&mut self, amount: u32)
        ensures
            *final(self) == (Monster {
                health: if old(self).health + amount > u32::MAX {
                    if u32::MAX < old(self).max_health { u32::MAX } else { old(self).max_health }
                } else if old(self).health + amount < old(self).max_health {
                    (old(self).health + amount) as u32
                } else {
                    old(self).max_health
                },
                ..*old(self)
            }),
    {
        let raised = self.health.saturating_add(amount);
        self.health = if raised < self.max_health {
            raised
        } else {
            self.max_health
        };
    }

    /// Whether the monster has health left.
    pub fn is_alive(&self) -> (r: bool)
        ensures
            r == (self.health > 0),
    {
        self.health > 0
    }

    /// Turns the monster to face `direction`.
    pub fn set_direction(&mut self, direction: Direction)
        ensures
            *final(self) == (Monster { direction, ..*old(self) }),
    {
        self.direction = direction;
    }

    /// Starts or stops the walking picture; stopping shows the still frame.
    pub fn set_moving(&mut self, moving: bool)
        ensures
            *final(self) == (Monster {
                is_moving: moving,
                animation_frame: if moving { old(self).animation_frame } else { 0 },
                ..*old(self)
            }),
    {
        self.is_moving = moving;
        if !moving {
            self.animation_frame = 0;
        }
    }

    /// The index of the player being hunted.
    pub fn get_target_player(&self) -> (r: Option<usize>)
        ensures
            r == self.target_player,
    {
        self.target_player
    }

    /// Hunts the player at `player_index`, or no one.
    pub fn set_target_player(&mut self, player_index: Option<usize>)
        ensures
            *final(self) == (Monster { target_player: player_index, ..*old(self) }),
    {
        self.target_player = player_index;
    }

    /// Hunts no one.
    pub fn clear_target(&mut self)
        ensures
            *final(self) == (Monster { target_player: None, ..*old(self) }),
    {
        self.target_player = None;
    }
}

} // verus!

verus! {

/// A player after losing `amount` health (not below zero), otherwise the
/// same.
pub open spec fn damaged(p: Player, amount: u32) -> Player {
    Player {
        health: if amount >= p.health {
            0
        } else {
            (p.health - amount) as u32
        },
        ..p
    }
}

/// The players after player `i` lost `amount` health.
pub open spec fn players_after_hit(players: Seq<Player>, i: int, amount: u32) -> Seq<Player> {
    players.update(i, damaged(players[i], amount))
}

pub(crate) proof fn lemma_best_dist_attained(m: Monster, players: Seq<Player>, tiles: Seq<Tile>, k: int)
    requires
        0 <= k <= players.len(),
    ensures
        best_dist(m, players, tiles, k) is None <==> forall|j: int|
            0 <= j < k ==> !#[trigger] is_candidate(m, players, tiles, j),
        best_dist(m, players, tiles, k) matches Some(md) ==> closest_upto(m, players, tiles, md, k).len() > 0,
        best_dist(m, players, tiles, k) matches Some(md) ==> forall|j: int|
            0 <= j < k && #[trigger] is_candidate(m, players, tiles, j) ==> md <= sq_dist(players[j].position, m.position),
    decreases k,
{
    if k > 0 {
        lemma_best_dist_attained(m, players, tiles, k - 1);
        let prev = best_dist(m, players, tiles, k - 1);
        let cur = best_dist(m, players, tiles, k);
        if is_candidate(m, players, tiles, k - 1) {
            let d = sq_dist(players[k - 1].position, m.position);
            let md = cur->0;
            assert(cur is Some);
            if md != d {
                lemma_closest_mono(m, players, tiles, md, k - 1);
            } else {
                assert(closest_upto(m, players, tiles, md, k) == closest_upto(m, players, tiles, md, k - 1) + seq![(k - 1) as usize]);
            }
            assert forall|j: int|
                0 <= j < k && #[trigger] is_candidate(m, players, tiles, j) implies md <= sq_dist(players[j].position, m.position) by {
                if j < k - 1 {
                    assert(prev is Some);
                }
            }
        } else {
            if let Some(md) = cur {
                lemma_closest_mono(m, players, tiles, md, k - 1);
            }
            if cur is None {
                assert forall|j: int| 0 <= j < k implies !#[trigger] is_candidate(m, players, tiles, j) by {
                    if j < k - 1 {
                    }
                }
            }
        }
    }
}

proof fn lemma_closest_mono(m: Monster, players: Seq<Player>, tiles: Seq<Tile>, md: int, k: int)
    requires
        k >= 0,
    ensures
        closest_upto(m, players, tiles, md, k).len() <= closest_upto(m, players, tiles, md, k + 1).len(),
{
}

pub(crate) proof fn lemma_closest_bounded(m: Monster, players: Seq<Player>, tiles: Seq<Tile>, md: int, k: int)
    requires
        0 <= k <= players.len(),
        players.len() <= usize::MAX,
    ensures
        forall|j: int|
            0 <= j < closest_upto(m, players, tiles, md, k).len() ==> (#[trigger] closest_upto(
                m,
                players,
                tiles,
                md,
                k,
            )[j] as int) < k && is_candidate(m, players, tiles, closest_upto(m, players, tiles, md, k)[j] as int)
                && sq_dist(players[closest_upto(m, players, tiles, md, k)[j] as int].position, m.position) == md,
    decreases k,
{
    if k > 0 {
        lemma_closest_bounded(m, players, tiles, md, k - 1);
        let prefix = closest_upto(m, players, tiles, md, k - 1);
        let c = closest_upto(m, players, tiles, md, k);
        assert forall|j: int| 0 <= j < c.len() implies (#[trigger] c[j] as int) < k && is_candidate(
            m,
            players,
            tiles,
            c[j] as int,
        ) && sq_dist(players[c[j] as int].position, m.position) == md by {
            if j < prefix.len() {
                assert(c[j] == prefix[j]);
            } else {
                assert(c[j] == (k - 1) as usize);
            }
        }
    }
}

proof fn lemma_sq_dist_small(a: (usize, usize), b: (usize, usize))
    requires
        a.0 < 25,
        a.1 < 5,
        on_board(b),
    ensures
        0 <= sq_dist(a, b) <= 592,
{
    let dx = a.0 - b.0;
    let dy = a.1 - b.1;
    assert(0 <= dx * dx <= 576) by (nonlinear_arith)
        requires
            -4 <= dx <= 24,
    ;
    assert(0 <= dy * dy <= 16) by (nonlinear_arith)
        requires
            -4 <= dy <= 4,
    ;
}

/// A room reachable from a room of the board lies on the board, so its
/// column is below 25 and its row below 5.
proof fn lemma_reachable_near(tiles: Seq<Tile>, m: (usize, usize), p: (usize, usize))
    requires
        on_board(m),
        tiles.len() >= BOARD_TILES,
        reachable(tiles, pos_index(m), pos_index(p)),
    ensures
        0 <= pos_index(p) < 25,
        p.0 < 25,
        p.1 < 5,
{
    let w = choose|w: Seq<usize>| #[trigger] is_walk(tiles, w) && w[0] == pos_index(m) && w.last() == pos_index(p);
    if w.len() > 1 {
        let i = w.len() - 2;
        assert(crate::tile::step(tiles, w[i] as int, w[i + 1] as int));
        let d = choose|d: Direction| #[trigger] step_to(tiles, w[i] as int, d) == Some(w[i + 1] as int);
        crate::tile::lemma_neighbor_on_board(w[i] as int, d);
    }
}

/// Squared distance between two spots of the board.
fn squared_distance(a: (usize, usize), b: (usize, usize)) -> (r: u32)
    requires
        a.0 < 25,
        a.1 < 5,
        on_board(b),
    ensures
        r == sq_dist(a, b),
{
    let adx: usize = if a.0 >= b.0 {
        a.0 - b.0
    } else {
        b.0 - a.0
    };
    let ady: usize = if a.1 >= b.1 {
        a.1 - b.1
    } else {
        b.1 - a.1
    };
    assert(adx * adx == (a.0 - b.0) * (a.0 - b.0) && adx * adx <= 576) by (nonlinear_arith)
        requires
            adx == a.0 - b.0 || adx == b.0 - a.0,
            adx <= 24,
    ;
    assert(ady * ady == (a.1 - b.1) * (a.1 - b.1) && ady * ady <= 16) by (nonlinear_arith)
        requires
            ady == a.1 - b.1 || ady == b.1 - a.1,
            ady <= 4,
    ;
    (adx * adx + ady * ady) as u32
}

/// Whether a walk leads from spot `from` to spot `to`.
fn path_exists(from: (usize, usize), to: (usize, usize), tiles: &[Tile]) -> (r: bool)
    requires
        on_board(from),
        pos_index(to) <= usize::MAX,
        tiles@.len() >= BOARD_TILES,
    ensures
        r == reachable(tiles@, pos_index(from), pos_index(to)),
{
    let start_index = Tile::index(from.0, from.1);
    let target_index = Tile::index(to.0, to.1);
    Tile::find_walkable_path(start_index, target_index, tiles).is_some()
}

/// How the board index of a neighbor relates to the spot it neighbors.
proof fn lemma_neighbor_coords(c: int, d: Direction, n: int)
    requires
        0 <= c,
        neighbor(c, d) == Some(n),
    ensures
        0 <= n < BOARD_TILES,
        d == Direction::Right ==> grid_x(n) == grid_x(c) + 1 && grid_y(n) == grid_y(c),
        d == Direction::Left ==> grid_x(n) == grid_x(c) - 1 && grid_y(n) == grid_y(c),
        d == Direction::Down ==> grid_x(n) == grid_x(c) && grid_y(n) == grid_y(c) + 1,
        d == Direction::Up ==> grid_x(n) == grid_x(c) && grid_y(n) == grid_y(c) - 1,
{
    crate::tile::lemma_neighbor_on_board(c, d);
}

impl Monster {
    /// Whether a spot lies on the board.
    pub fn is_valid_position(&self, pos: (usize, usize)) -> (r: bool)
        ensures
            r == on_board(pos),
    {
        pos.0 < 5 && pos.1 < 5
    }

    /// Whether some player stands on spot `pos`.
    pub fn is_position_occupied(&self, players: &[Player], pos: (usize, usize)) -> (r: bool)
        ensures
            r == occupied(players@, pos),
    {
        let mut i: usize = 0;
        while i < players.len()
            invariant
                i <= players@.len(),
                forall|j: int| 0 <= j < i ==> players@[j].position != pos,
            decreases players@.len() - i,
        {
            if players[i].position.0 == pos.0 && players[i].position.1 == pos.1 {
                return true;
            }
            i += 1;
        }
        false
    }

    /// Where one step towards `direction` takes the monster, only if the
    /// rooms open into each other; `None` at the board's edge (see
    /// `monster_step`).
    pub fn move_in_direction(&self, direction: Direction, tiles: &[Tile]) -> (r: Option<(usize, usize)>)
        requires
            on_board(self.position),
            tiles@.len() >= BOARD_TILES,
        ensures
            r == monster_step(self.position, direction, tiles@),
    {
        let current_tile_index = Tile::index(self.position.0, self.position.1);
        let (x, y) = self.position;
        let beside: Option<(usize, usize)> = match direction {
            Direction::Up => if y >= 1 { Some((x, y - 1)) } else { None },
            Direction::Down => if y + 1 <= 4 { Some((x, y + 1)) } else { None },
            Direction::Left => if x >= 1 { Some((x - 1, y)) } else { None },
            Direction::Right => if x + 1 <= 4 { Some((x + 1, y)) } else { None },
        };
        let new_pos = match beside {
            Some(p) => p,
            None => return None,
        };
        if !self.is_valid_position(new_pos) {
            return None;
        }
        let target_tile_index = Tile::index(new_pos.0, new_pos.1);
        if !tiles[current_tile_index].is_connected_in_direction(direction, &tiles[target_tile_index]) {
            return None;
        }
        Some(new_pos)
    }

    /// The sides through which the monster could leave its room (see
    /// `open_sides`).
    pub fn available_directions(&self, tiles: &[Tile]) -> (r: Vec<Direction>)
        requires
            on_board(self.position),
            tiles@.len() >= BOARD_TILES,
        ensures
            r@ == open_sides(self.position, tiles@),
    {
        let (x, y) = self.position;
        let current_tile = &tiles[Tile::index(x, y)];
        let mut available: Vec<Direction> = Vec::new();
        if y > 0 && current_tile.is_connected_in_direction(Direction::Up, &tiles[Tile::index(x, y - 1)]) {
            available.push(Direction::Up);
        }
        if y < 4 && current_tile.is_connected_in_direction(Direction::Down, &tiles[Tile::index(x, y + 1)]) {
            available.push(Direction::Down);
        }
        if x > 0 && current_tile.is_connected_in_direction(Direction::Left, &tiles[Tile::index(x - 1, y)]) {
            available.push(Direction::Left);
        }
        if x < 4 && current_tile.is_connected_in_direction(Direction::Right, &tiles[Tile::index(x + 1, y)]) {
            available.push(Direction::Right);
        }
        proof {
            let cur = tiles@[pos_index(self.position)];
            let up: Seq<Direction> = if y > 0 && connects(cur, tiles@[pos_index((x, (y - 1) as usize))], Direction::Up) {
                seq![Direction::Up]
            } else {
                seq![]
            };
            let down: Seq<Direction> = if y < 4 && connects(cur, tiles@[pos_index((x, (y + 1) as usize))], Direction::Down) {
                seq![Direction::Down]
            } else {
                seq![]
            };
            let left: Seq<Direction> = if x > 0 && connects(cur, tiles@[pos_index(((x - 1) as usize, y))], Direction::Left) {
                seq![Direction::Left]
            } else {
                seq![]
            };
            let right: Seq<Direction> = if x < 4 && connects(cur, tiles@[pos_index(((x + 1) as usize, y))], Direction::Right) {
                seq![Direction::Right]
            } else {
                seq![]
            };
            assert(available@ == up + down + left + right);
        }
        available
    }

    /// A random side through which the monster could leave its room, or
    /// `None` when there is none.
    pub fn get_random_available_direction(&self, tiles: &[Tile]) -> (r: Option<Direction>)
        requires
            on_board(self.position),
            tiles@.len() >= BOARD_TILES,
        ensures
            r is None <==> open_sides(self.position, tiles@).len() == 0,
            r matches Some(d) ==> open_sides(self.position, tiles@).contains(d),
    {
        let available_directions = self.available_directions(tiles);
        if available_directions.len() == 0 {
            None
        } else {
            Some(side_for_roll(&available_directions, random_u32()))
        }
    }

    /// The side through which the monster takes the first step of the least
    /// walk (see `is_least_walk`, the walk `Tile::find_walkable_path` finds)
    /// to spot `target`; `None` when no walk leads there or the monster
    /// already stands there.
    pub fn calculate_direction_towards(&self, target: (usize, usize), tiles: &[Tile]) -> (r: Option<Direction>)
        requires
            on_board(self.position),
            pos_index(target) <= usize::MAX,
            tiles@.len() >= BOARD_TILES,
        ensures
            r is Some <==> (reachable(tiles@, pos_index(self.position), pos_index(target)) && pos_index(self.position) != pos_index(target)),
            r matches Some(d) ==> exists|p: Seq<usize>|
                #[trigger] is_least_walk(tiles@, p, pos_index(self.position), pos_index(target))
                    && d == side_between(p[0] as int, p[1] as int),
    {
        let start_index = Tile::index(self.position.0, self.position.1);
        let target_index = Tile::index(target.0, target.1);
        assert(start_index as int == pos_index(self.position));
        assert(target_index as int == pos_index(target));
        match Tile::find_walkable_path(start_index, target_index, tiles) {
            Some(path) => {
                if path.len() >= 2 {
                    let next_index = path[1];
                    let (next_x, next_y) = Tile::position(next_index);
                    let (current_x, current_y) = self.position;
                    let ghost d0: Direction;
                    proof {
                        let i0: int = 0;
                        assert(crate::tile::step(tiles@, path@[i0] as int, path@[i0 + 1] as int));
                        d0 = choose|d: Direction| #[trigger] step_to(tiles@, start_index as int, d) == Some(next_index as int);
                        lemma_neighbor_coords(start_index as int, d0, next_index as int);
                        assert(grid_x(start_index as int) == current_x);
                        assert(grid_y(start_index as int) == current_y);
                        assert(is_shortest_walk(tiles@, path@, start_index as int, target_index as int));
                        if start_index == target_index {
                            let q = seq![start_index];
                            assert(is_walk(tiles@, q));
                        }
                    }
                    let d = if next_x > current_x {
                        Direction::Right
                    } else if next_x < current_x {
                        Direction::Left
                    } else if next_y > current_y {
                        Direction::Down
                    } else {
                        Direction::Up
                    };
                    proof {
                        assert(d == d0);
                        crate::walk_order::lemma_side_between(start_index as int, d0, next_index as int);
                        assert(is_least_walk(tiles@, path@, pos_index(self.position), pos_index(target))
                            && d == side_between(path@[0] as int, path@[1] as int));
                    }
                    Some(d)
                } else {
                    proof {
                        assert(path@[0] == path@.last());
                    }
                    None
                }
            },
            None => None,
        }
    }
}

} // verus!

verus! {

/// Where the monster stands after trying to step through side `d` from
/// `pos`: the spot beyond, unless the step is barred or a player stands
/// there.
pub open spec fn step_or_stay(pos: (usize, usize), d: Direction, players: Seq<Player>, tiles: Seq<Tile>) -> (
    usize,
    usize,
) {
    match monster_step(pos, d, tiles) {
        Some(to) => if occupied(players, to) {
            pos
        } else {
            to
        },
        None => pos,
    }
}

/// What one turn of monster `m` does to itself, to the players and what hit
/// it reports: a dead monster does nothing; with no one to hunt it forgets
/// its target and tries a step through one of its open sides, picked at
/// random; it strikes a hunted player it shares a room with or touches
/// through facing entrances; else it tries the first step of the least walk
/// (see `is_least_walk`) to the player.
pub open spec fn turn_outcome(
    m: Monster,
    m2: Monster,
    players: Seq<Player>,
    players2: Seq<Player>,
    tiles: Seq<Tile>,
    hit: Option<(PlayerId, u32)>,
) -> bool {
    if m.health == 0 {
        &&& m2 == m
        &&& players2 == players
        &&& hit is None
    } else {
        match nearest_choice(m, players, tiles) {
            None => {
                &&& m2 == (Monster { target_player: None, position: m2.position, ..m })
                &&& players2 == players
                &&& hit is None
                &&& if open_sides(m.position, tiles).len() == 0 {
                    m2.position == m.position
                } else {
                    exists|d: Direction|
                        open_sides(m.position, tiles).contains(d) && m2.position == #[trigger] step_or_stay(
                            m.position,
                            d,
                            players,
                            tiles,
                        )
                }
            },
            Some(choice) => {
                let pi = choice.0;
                let ppos = choice.1;
                if m.position == ppos || touches(m.position, ppos, tiles) {
                    &&& m2 == (Monster { target_player: Some(pi), ..m })
                    &&& players2 == players_after_hit(players, pi as int, m.damage)
                    &&& hit == Some((players[pi as int].id, m.damage))
                } else {
                    &&& m2 == (Monster { target_player: Some(pi), position: m2.position, ..m })
                    &&& players2 == players
                    &&& hit is None
                    &&& if reachable(tiles, pos_index(m.position), pos_index(ppos)) && pos_index(m.position)
                        != pos_index(ppos) {
                        exists|p: Seq<usize>|
                            #[trigger] is_least_walk(tiles, p, pos_index(m.position), pos_index(ppos))
                                && m2.position == step_or_stay(
                                m.position,
                                side_between(p[0] as int, p[1] as int),
                                players,
                                tiles,
                            )
                    } else {
                        m2.position == m.position
                    }
                }
            },
        }
    }
}

/// What `nearest_choice` picks is a player that can be hunted, with its
/// position; unless the current target is kept, no other player that can
/// be hunted is nearer.
pub proof fn lemma_nearest_choice(m: Monster, players: Seq<Player>, tiles: Seq<Tile>)
    requires
        players.len() <= usize::MAX,
    ensures
        nearest_choice(m, players, tiles) matches Some(c) ==> {
            &&& c.0 < players.len()
            &&& c.1 == players[c.0 as int].position
            &&& is_candidate(m, players, tiles, c.0 as int)
        },
        nearest_choice(m, players, tiles) matches Some(c) ==> (!(m.target_player is Some && m.target_player->0
            < players.len() && is_candidate(m, players, tiles, m.target_player->0 as int)) ==> forall|j: int|
            0 <= j < players.len() && #[trigger] is_candidate(m, players, tiles, j) ==> sq_dist(
                players[c.0 as int].position,
                m.position,
            ) <= sq_dist(players[j].position, m.position)),
{
    if players.len() > 0 && !(m.target_player is Some && m.target_player->0 < players.len() && is_candidate(
        m,
        players,
        tiles,
        m.target_player->0 as int,
    )) {
        let n = players.len() as int;
        lemma_best_dist_attained(m, players, tiles, n);
        if let Some(md) = best_dist(m, players, tiles, n) {
            lemma_closest_bounded(m, players, tiles, md, n);
            let c = closest_upto(m, players, tiles, md, n);
            let k = if c.len() == 1 {
                0
            } else {
                match m.target_player {
                    Some(t) => if c.contains(t) {
                        c.index_of(t)
                    } else {
                        (t + m.position.0 + m.position.1) % (c.len() as int)
                    },
                    None => (m.position.0 + m.position.1) % (c.len() as int),
                }
            };
            assert(0 <= k < c.len());
            assert((c[k] as int) < n && is_candidate(m, players, tiles, c[k] as int));
            assert(sq_dist(players[c[k] as int].position, m.position) == md);
        }
    }
}

/// The side a random draw `roll` picks among `sides`: the one at the draw
/// modulo their number.
pub fn side_for_roll(sides: &Vec<Direction>, roll: u32) -> (d: Direction)
    requires
        sides@.len() > 0,
    ensures
        d == sides@[(roll as int) % (sides@.len() as int)],
{
    let i = (roll as usize) % sides.len();
    sides[i]
}

fn list_contains(v: &Vec<usize>, x: usize) -> (r: bool)
    ensures
        r == v@.contains(x),
{
    let mut i: usize = 0;
    while i < v.len()
        invariant
            i <= v@.len(),
            forall|j: int| 0 <= j < i ==> v@[j] != x,
        decreases v@.len() - i,
    {
        if v[i] == x {
            return true;
        }
        i += 1;
    }
    false
}

impl Monster {
    /// The player to go after and its position (see `nearest_choice`).
    pub fn find_nearest_player_info(&self, players: &[Player], tiles: &[Tile]) -> (r: Option<(usize, (usize, usize))>)
        requires
            turn_ready(*self, players@, tiles@),
        ensures
            r == nearest_choice(*self, players@, tiles@),
            r matches Some(c) ==> c.0 < players@.len() && c.1 == players@[c.0 as int].position,
            r matches Some(c) ==> reachable(tiles@, pos_index(self.position), pos_index(c.1)),
    {
        if players.len() == 0 {
            return None;
        }
        match self.target_player {
            Some(t) => {
                if t < players.len() && players[t].is_alive() && path_exists(
                    self.position,
                    players[t].position,
                    tiles,
                ) {
                    return Some((t, players[t].position));
                }
            },
            None => {},
        }
        let mut dists: Vec<Option<u32>> = Vec::new();
        let mut best: Option<u32> = None;
        let mut i: usize = 0;
        while i < players.len()
            invariant
                i <= players@.len(),
                turn_ready(*self, players@, tiles@),
                dists@.len() == i,
                forall|j: int|
                    0 <= j < i ==> #[trigger] dists@[j] == if is_candidate(*self, players@, tiles@, j) {
                        Some(sq_dist(players@[j].position, self.position) as u32)
                    } else {
                        None
                    },
                best matches Some(b) ==> best_dist(*self, players@, tiles@, i as int) == Some(b as int),
                best is None <==> best_dist(*self, players@, tiles@, i as int) is None,
            decreases players@.len() - i,
        {
            assert(pos_index(players@[i as int].position) <= usize::MAX);
            if players[i].is_alive() && path_exists(self.position, players[i].position, tiles) {
                proof {
                    lemma_reachable_near(tiles@, self.position, players@[i as int].position);
                }
                let d = squared_distance(players[i].position, self.position);
                dists.push(Some(d));
                best = match best {
                    None => Some(d),
                    Some(b) => Some(if d < b {
                        d
                    } else {
                        b
                    }),
                };
            } else {
                dists.push(None);
            }
            i += 1;
        }
        let md = match best {
            None => {
                return None;
            },
            Some(md) => md,
        };
        let mut closest: Vec<usize> = Vec::new();
        let mut k: usize = 0;
        proof {
            assert forall|j: int|
                0 <= j < players@.len() && is_candidate(*self, players@, tiles@, j) implies 0 <= sq_dist(
                #[trigger] players@[j].position,
                self.position,
            ) <= 592 by {
                lemma_reachable_near(tiles@, self.position, players@[j].position);
                lemma_sq_dist_small(players@[j].position, self.position);
            }
        }
        while k < players.len()
            invariant
                k <= players@.len(),
                dists@.len() == players@.len(),
                forall|j: int|
                    0 <= j < players@.len() ==> #[trigger] dists@[j] == if is_candidate(*self, players@, tiles@, j) {
                        Some(sq_dist(players@[j].position, self.position) as u32)
                    } else {
                        None
                    },
                forall|j: int|
                    0 <= j < players@.len() && is_candidate(*self, players@, tiles@, j) ==> 0 <= sq_dist(
                        #[trigger] players@[j].position,
                        self.position,
                    ) <= 592,
                closest@ == closest_upto(*self, players@, tiles@, md as int, k as int),
            decreases players@.len() - k,
        {
            let ghost before = closest@;
            match dists[k] {
                Some(d) => {
                    if d == md {
                        closest.push(k);
                    }
                },
                None => {},
            }
            proof {
                let sq = sq_dist(players@[k as int].position, self.position);
                if is_candidate(*self, players@, tiles@, k as int) {
                    assert(0 <= sq <= 592);
                }
                assert(closest_upto(*self, players@, tiles@, md as int, k + 1) == before + if is_candidate(
                    *self,
                    players@,
                    tiles@,
                    k as int,
                ) && sq == md {
                    seq![k]
                } else {
                    seq![]
                });
            }
            k += 1;
        }
        proof {
            lemma_best_dist_attained(*self, players@, tiles@, players@.len() as int);
            lemma_closest_bounded(*self, players@, tiles@, md as int, players@.len() as int);
        }
        let pick = if closest.len() == 1 {
            closest[0]
        } else {
            match self.target_player {
                Some(t) => {
                    if list_contains(&closest, t) {
                        t
                    } else {
                        closest[(t + self.position.0 + self.position.1) % closest.len()]
                    }
                },
                None => closest[(self.position.0 + self.position.1) % closest.len()],
            }
        };
        proof {
            if closest@.contains(pick) {
                let j = choose|j: int| 0 <= j < closest@.len() && closest@[j] == pick;
                assert((closest@[j] as int) < players@.len());
                assert(is_candidate(*self, players@, tiles@, closest@[j] as int));
            }
        }
        Some((pick, players[pick].position))
    }

    /// Plays the monster's turn (see `turn_outcome`) and reports the player
    /// it struck and the damage dealt, which the server then announces.
    pub fn take_turn(&mut self, players: &mut Vec<Player>, tiles: &[Tile]) -> (hit: Option<(PlayerId, u32)>)
        requires
            turn_ready(*old(self), old(players)@, tiles@),
        ensures
            turn_outcome(*old(self), *final(self), old(players)@, final(players)@, tiles@, hit),
    {
        if !self.is_alive() {
            return None;
        }
        let nearest_player_info = self.find_nearest_player_info(players.as_slice(), tiles);
        match nearest_player_info {
            Some((player_index, player_pos)) => {
                proof {
                    lemma_reachable_near(tiles@, self.position, player_pos);
                }
                self.target_player = Some(player_index);
                if self.position.0 == player_pos.0 && self.position.1 == player_pos.1 {
                    let id = players[player_index].id;
                    players[player_index].take_damage(self.damage);
                    return Some((id, self.damage));
                }
                let dx: i64 = self.position.0 as i64 - player_pos.0 as i64;
                let dy: i64 = self.position.1 as i64 - player_pos.1 as i64;
                let adx: i64 = if dx >= 0 { dx } else { -dx };
                let ady: i64 = if dy >= 0 { dy } else { -dy };
                let is_adjacent = adx <= 1 && ady <= 1 && adx + ady <= 1;
                if is_adjacent && (dx != 0 || dy != 0) {
                    let monster_tile_index = Tile::index(self.position.0, self.position.1);
                    let player_tile_index = Tile::index(player_pos.0, player_pos.1);
                    let direction_to_player = if dx > 0 {
                        Direction::Left
                    } else if dx < 0 {
                        Direction::Right
                    } else if dy > 0 {
                        Direction::Up
                    } else {
                        Direction::Down
                    };
                    if tiles[monster_tile_index].is_connected_in_direction(
                        direction_to_player,
                        &tiles[player_tile_index],
                    ) {
                        let id = players[player_index].id;
                        players[player_index].take_damage(self.damage);
                        return Some((id, self.damage));
                    }
                }
                let ghost before_move = *self;
                match self.calculate_direction_towards(player_pos, tiles) {
                    Some(direction) => {
                        let ghost from = pos_index(before_move.position);
                        let ghost to = pos_index(player_pos);
                        let ghost pw = choose|p: Seq<usize>|
                            #[trigger] is_least_walk(tiles@, p, from, to) && direction == side_between(
                                p[0] as int,
                                p[1] as int,
                            );
                        match self.move_in_direction(direction, tiles) {
                            Some(new_pos) => {
                                if !self.is_position_occupied(players.as_slice(), new_pos) {
                                    self.position = new_pos;
                                    if self.position.0 == player_pos.0 && self.position.1 == player_pos.1 {
                                        proof {
                                            assert(players@[player_index as int].position == new_pos);
                                        }
                                        let id = players[player_index].id;
                                        players[player_index].take_damage(self.damage);
                                        return Some((id, self.damage));
                                    }
                                }
                            },
                            None => {},
                        }
                        proof {
                            assert(self.position == step_or_stay(before_move.position, direction, players@, tiles@));
                            assert(is_least_walk(tiles@, pw, from, to) && self.position == step_or_stay(
                                before_move.position,
                                side_between(pw[0] as int, pw[1] as int),
                                players@,
                                tiles@,
                            ));
                        }
                    },
                    None => {},
                }
                None
            },
            None => {
                self.target_player = None;
                let ghost before_wander = *self;
                match self.get_random_available_direction(tiles) {
                    Some(random_direction) => {
                        match self.move_in_direction(random_direction, tiles) {
                            Some(new_pos) => {
                                if !self.is_position_occupied(players.as_slice(), new_pos) {
                                    self.position = new_pos;
                                }
                            },
                            None => {},
                        }
                        proof {
                            assert(self.position == step_or_stay(before_wander.position, random_direction, players@, tiles@));
                        }
                    },
                    None => {},
                }
                None
            },
        }
    }
}

} // verus!
