use vstd::prelude::*;

use crate::card::{card_eq, deal_order, is_fresh_card, Card, CardEffect};
use crate::constants::PLAYER_HEALTH;
use crate::tile::{grid_x, grid_y, Tile};

verus! {

/// Which of the two seats a player sits in.
#[derive(Clone, Copy, Debug, PartialEq, Eq, Structural)]
pub enum PlayerId {
    Player1,
    Player2,
}

impl PlayerId {
    /// The seat's name, as shown and as sent in messages.
    pub fn label(&self) -> (s: String)
        ensures
            s@ == player_label(*self),
    {
        match self {
            PlayerId::Player1 => "Player1".to_string(),
            PlayerId::Player2 => "Player2".to_string(),
        }
    }
}

/// The seat's name.
pub open spec fn player_label(id: PlayerId) -> Seq<char> {
    match id {
        PlayerId::Player1 => "Player1"@,
        PlayerId::Player2 => "Player2"@,
    }
}

/// A player on the board: where it stands, where it stood when the current
/// card was played, its cards and its health.
#[derive(Debug)]
pub struct Player {
    pub id: PlayerId,
    pub position: (usize, usize),
    pub original_position: (usize, usize),
    pub hand: Vec<Card>,
    pub health: u32,
}

/// Two players agree in every field, their cards compared one by one.
pub open spec fn same_player(a: Player, b: Player) -> bool {
    &&& a.id == b.id
    &&& a.position == b.position
    &&& a.original_position == b.original_position
    &&& a.health == b.health
    &&& a.hand@.len() == b.hand@.len()
    &&& forall|k: int| 0 <= k < a.hand@.len() ==> card_eq(#[trigger] a.hand@[k], b.hand@[k])
}

/// A hand as dealt: `size` empty slots when `is_dummy`, else the first
/// `size` of the four unique cards.
pub open spec fn is_dealt_hand(hand: Seq<Card>, size: int, is_dummy: bool) -> bool {
    if is_dummy {
        &&& hand.len() == size
        &&& forall|k: int| 0 <= k < size ==> is_fresh_card(#[trigger] hand[k], CardEffect::Dummy)
    } else {
        &&& hand.len() == if size < 4 { size } else { 4 }
        &&& forall|k: int| 0 <= k < hand.len() ==> is_fresh_card(#[trigger] hand[k], deal_order(k))
    }
}

impl Player {
    /// A player in seat `id` standing at column `x`, row `y`, with full
    /// health and a freshly dealt hand.
    pub fn new(id: PlayerId, x: usize, y: usize, hand_size: usize, is_dummy: bool) -> (p: Player)
        ensures
            p.id == id,
            p.position == (x, y),
            p.original_position == (x, y),
            p.health == PLAYER_HEALTH,
            is_dealt_hand(p.hand@, hand_size as int, is_dummy),
    {
        let hand = Self::new_hand(hand_size, is_dummy);
        Player { id, position: (x, y), original_position: (x, y), hand, health: PLAYER_HEALTH }
    }

    /// A new hand without duplicates: `hand_size` empty slots when
    /// `is_dummy`, else up to `hand_size` of the unique cards.
    pub fn new_hand(hand_size: usize, is_dummy: bool) -> (hand: Vec<Card>)
        ensures
            is_dealt_hand(hand@, hand_size as int, is_dummy),
    {
        if is_dummy {
            let mut hand: Vec<Card> = Vec::new();
            let mut i: usize = 0;
            while i < hand_size
                invariant
                    i <= hand_size,
                    hand@.len() == i,
                    forall|k: int| 0 <= k < i ==> is_fresh_card(#[trigger] hand@[k], CardEffect::Dummy),
                decreases hand_size - i,
            {
                hand.push(Card::dummy_card());
                i += 1;
            }
            hand
        } else {
            let unique = Card::get_unique_cards();
            let mut hand: Vec<Card> = Vec::new();
            let mut i: usize = 0;
            while i < hand_size && i < unique.len()
                invariant
                    i <= 4,
                    i <= hand_size,
                    unique@.len() == 4,
                    forall|k: int| 0 <= k < 4 ==> is_fresh_card(#[trigger] unique@[k], deal_order(k)),
                    hand@.len() == i,
                    forall|k: int| 0 <= k < i ==> is_fresh_card(#[trigger] hand@[k], deal_order(k)),
                decreases hand_size - i,
            {
                hand.push(unique[i].copy());
                i += 1;
            }
            hand
        }
    }

    /// A copy of the player, its cards copied one by one.
    pub fn copy(&self) -> (p: Player)
        ensures
            same_player(p, *self),
    {
        let mut hand: Vec<Card> = Vec::new();
        let mut i: usize = 0;
        while i < self.hand.len()
            invariant
                i <= self.hand@.len(),
                hand@.len() == i,
                forall|k: int| 0 <= k < i ==> card_eq(#[trigger] hand@[k], self.hand@[k]),
            decreases self.hand@.len() - i,
        {
            hand.push(self.hand[i].copy());
            i += 1;
        }
        Player {
            id: self.id,
            position: self.position,
            original_position: self.original_position,
            hand,
            health: self.health,
        }
    }

    /// Puts the player on board index `to_index`.
    pub fn move_to(&mut self, to_index: usize)
        ensures
            final(self).position == (grid_x(to_index as int) as usize, grid_y(to_index as int) as usize),
            final(self).id == old(self).id,
            final(self).original_position == old(self).original_position,
            final(self).hand == old(self).hand,
            final(self).health == old(self).health,
    {
        let (nx, ny) = Tile::position(to_index);
        self.position = (nx, ny);
    }

    /// Adds a card to the end of the hand.
    pub fn draw_card(&mut self, card: Card)
        ensures
            final(self).hand@ == old(self).hand@.push(card),
            final(self).id == old(self).id,
            final(self).position == old(self).position,
            final(self).original_position == old(self).original_position,
            final(self).health == old(self).health,
    {
        self.hand.push(card);
    }

    /// Remembers the current position as the one to go back to.
    pub fn update_original_position(&mut self)
        ensures
            final(self).original_position == old(self).position,
            final(self).position == old(self).position,
            final(self).id == old(self).id,
            final(self).hand == old(self).hand,
            final(self).health == old(self).health,
    {
        self.original_position = self.position;
    }

    /// Loses `amount` health, down to no less than zero.
    pub fn take_damage(&mut self, amount: u32)
        ensures
            final(self).health == if amount >= old(self).health {
                0
            } else {
                old(self).health - amount
            },
            final(self).id == old(self).id,
            final(self).position == old(self).position,
            final(self).original_position == old(self).original_position,
            final(self).hand == old(self).hand,
    {
        if amount >= self.health {
            self.health = 0;
        } else {
            self.health -= amount;
        }
    }

    /// Gains `amount` health, up to the largest `u32`.
    pub fn heal(&mut self, amount: u32)
        ensures
            final(self).health == if old(self).health + amount > u32::MAX {
                u32::MAX as int
            } else {
                old(self).health + amount
            },
            final(self).id == old(self).id,
            final(self).position == old(self).position,
            final(self).original_position == old(self).original_position,
            final(self).hand == old(self).hand,
    {
        self.health = self.health.saturating_add(amount);
    }

    /// Whether the player has health left.
    pub fn is_alive(&self) -> (r: bool)
        ensures
            r == (self.health > 0),
    {
        self.health > 0
    }
}

} // verus!
