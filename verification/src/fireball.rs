use vstd::prelude::*;

use crate::direction::Direction;
use crate::player::PlayerId;
use crate::rng::random_u32;

verus! {

/// A fireball flying across the board.
#[derive(Debug)]
pub struct Fireball {
    pub id: u32,
    pub damage: u32,
    pub position: (usize, usize),
    pub direction: Direction,
    pub is_active: bool,
    pub shooter_id: PlayerId,
}

impl Fireball {
    /// An active fireball with a random id.
    pub fn new(damage: u32, position: (usize, usize), direction: Direction, shooter_id: PlayerId) -> (f: Fireball)
        ensures
            f.damage == damage,
            f.position == position,
            f.direction == direction,
            f.is_active,
            f.shooter_id == shooter_id,
    {
        Fireball { id: random_u32(), damage, position, direction, is_active: true, shooter_id }
    }

    /// A copy of the fireball.
    pub fn copy(&self) -> (f: Fireball)
        ensures
            f == *self,
    {
        Fireball {
            id: self.id,
            damage: self.damage,
            position: self.position,
            direction: self.direction,
            is_active: self.is_active,
            shooter_id: self.shooter_id,
        }
    }

    /// Whether the fireball is still flying.
    pub fn is_alive(&self) -> (r: bool)
        ensures
            r == self.is_active,
    {
        self.is_active
    }

    /// Stops the fireball.
    pub fn deactivate(&mut self)
        ensures
            *final(self) == (Fireball { is_active: false, ..*old(self) }),
    {
        self.is_active = false;
    }

    pub fn get_damage(&self) -> (r: u32)
        ensures
            r == self.damage,
    {
        self.damage
    }

    pub fn get_position(&self) -> (r: (usize, usize))
        ensures
            r == self.position,
    {
        self.position
    }

    pub fn get_direction(&self) -> (r: Direction)
        ensures
            r == self.direction,
    {
        self.direction
    }
}

} // verus!
