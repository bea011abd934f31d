use vstd::prelude::*;

verus! {

/// One of the four sides of a room.
#[derive(Clone, Copy, Debug, PartialEq, Eq, Structural)]
pub enum Direction {
    Up,
    Down,
    Left,
    Right,
}

/// Position of a side when going clockwise from the top.
pub open spec fn clockwise_index(d: Direction) -> int {
    match d {
        Direction::Up => 0,
        Direction::Right => 1,
        Direction::Down => 2,
        Direction::Left => 3,
    }
}

/// The side at a clockwise position (taken modulo 4).
pub open spec fn from_clockwise_index(n: int) -> Direction {
    let m = n % 4;
    if m == 0 {
        Direction::Up
    } else if m == 1 {
        Direction::Right
    } else if m == 2 {
        Direction::Down
    } else {
        Direction::Left
    }
}

/// The side reached from `d` by `times` quarter turns clockwise.
pub open spec fn rotated(d: Direction, times: int) -> Direction {
    from_clockwise_index(clockwise_index(d) + times)
}

/// The side facing `d`.
pub open spec fn opposite(d: Direction) -> Direction {
    match d {
        Direction::Up => Direction::Down,
        Direction::Down => Direction::Up,
        Direction::Left => Direction::Right,
        Direction::Right => Direction::Left,
    }
}

impl Direction {
    /// The side facing this one.
    pub fn opposite(self) -> (r: Direction)
        ensures
            r == opposite(self),
    {
        match self {
            Direction::Up => Direction::Down,
            Direction::Down => Direction::Up,
            Direction::Left => Direction::Right,
            Direction::Right => Direction::Left,
        }
    }

    /// The side reached by `times` quarter turns clockwise.
    pub fn rotated_clockwise(self, times: usize) -> (r: Direction)
        ensures
            r == rotated(self, times as int),
    {
        let n: usize = match self {
            Direction::Up => 0,
            Direction::Right => 1,
            Direction::Down => 2,
            Direction::Left => 3,
        };
        let m: usize = (n % 4 + times % 4) % 4;
        assert((n + times) % 4 == m) by (nonlinear_arith)
            requires
                m == (n % 4 + times % 4) % 4,
        ;
        if m == 0 {
            Direction::Up
        } else if m == 1 {
            Direction::Right
        } else if m == 2 {
            Direction::Down
        } else {
            Direction::Left
        }
    }
}

/// Rotating by a whole turn gives the side back.
pub proof fn lemma_full_turn(d: Direction)
    ensures
        rotated(d, 4) == d,
{
}

/// Quarter turns add up.
pub proof fn lemma_rotation_composes(d: Direction, a: int, b: int)
    requires
        a >= 0,
        b >= 0,
    ensures
        rotated(rotated(d, a), b) == rotated(d, a + b),
{
    let c = clockwise_index(d);
    assert(((c + a) % 4 + b) % 4 == (c + a + b) % 4) by (nonlinear_arith)
        requires
            c >= 0,
            a >= 0,
            b >= 0,
    ;
}

} // verus!
