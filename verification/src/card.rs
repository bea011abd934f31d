use vstd::prelude::*;

use crate::constants::{
    CARD_DUMMY_COLOR, CARD_FIRE_COLOR, CARD_MOVE_COLOR, CARD_ROTATE_COLOR, CARD_SWAP_COLOR,
};
use crate::rng::random_u32;
use vstd::std_specs::cmp::PartialEqSpecImpl;

verus! {

/// What playing a card does.
#[derive(Clone, Copy, Debug, PartialEq, Eq, Structural)]
pub enum CardEffect {
    /// The empty slot.
    Dummy,
    /// Walk to a connected room.
    MoveOneTile,
    /// Turn rooms around the player.
    RotateCard,
    /// Exchange two rooms around the player.
    SwapCard,
    /// Shoot a fireball along a corridor.
    FireCard,
}

/// A card of a hand or of the play area. A card with id 0 is the empty slot.
#[derive(Clone, Debug)]
pub struct Card {
    pub id: u32,
    pub name: String,
    pub effect: CardEffect,
    pub color: u32,
    /// The hand slot the card was taken from.
    pub hand_index: Option<usize>,
    pub hide_confirm_button: bool,
    pub tooltip: String,
    /// Name of the card's picture.
    pub sprite_name: String,
}

/// Two cards are equal when every field is, the texts compared by their
/// characters.
pub open spec fn card_eq(a: Card, b: Card) -> bool {
    &&& a.id == b.id
    &&& a.name@ == b.name@
    &&& a.effect == b.effect
    &&& a.color == b.color
    &&& a.hand_index == b.hand_index
    &&& a.hide_confirm_button == b.hide_confirm_button
    &&& a.tooltip@ == b.tooltip@
    &&& a.sprite_name@ == b.sprite_name@
}

impl PartialEq for Card {
    fn eq(&self, other: &Self) -> (r: bool) {
        self.id == other.id && self.name == other.name && self.effect == other.effect
            && self.color == other.color && self.hand_index == other.hand_index
            && self.hide_confirm_button == other.hide_confirm_button && self.tooltip
            == other.tooltip && self.sprite_name == other.sprite_name
    }
}

impl PartialEqSpecImpl for Card {
    open spec fn obeys_eq_spec() -> bool {
        true
    }

    open spec fn eq_spec(&self, other: &Self) -> bool {
        card_eq(*self, *other)
    }
}

/// The card a fresh card of kind `effect` is, apart from its random id.
pub open spec fn is_fresh_card(c: Card, effect: CardEffect) -> bool {
    &&& c.effect == effect
    &&& c.hand_index is None
    &&& match effect {
        CardEffect::RotateCard => {
            &&& c.name@ == "TURN"@
            &&& c.color == CARD_ROTATE_COLOR
            &&& !c.hide_confirm_button
            &&& c.tooltip@ == "Rotate any adjacent rooms."@
            &&& c.sprite_name@ == "rotate"@
        },
        CardEffect::MoveOneTile => {
            &&& c.name@ == "MOVE"@
            &&& c.color == CARD_MOVE_COLOR
            &&& !c.hide_confirm_button
            &&& c.tooltip@ == "Move to any connected room."@
            &&& c.sprite_name@ == "move"@
        },
        CardEffect::SwapCard => {
            &&& c.name@ == "SWAP"@
            &&& c.color == CARD_SWAP_COLOR
            &&& !c.hide_confirm_button
            &&& c.tooltip@ == "Swap any two adjacent rooms."@
            &&& c.sprite_name@ == "swap"@
        },
        CardEffect::FireCard => {
            &&& c.name@ == "FIRE"@
            &&& c.color == CARD_FIRE_COLOR
            &&& c.hide_confirm_button
            &&& c.tooltip@ == "Fire a fireball in a line."@
            &&& c.sprite_name@ == "fire"@
        },
        CardEffect::Dummy => {
            &&& c.id == 0
            &&& c.name@ == Seq::<char>::empty()
            &&& c.color == CARD_DUMMY_COLOR
            &&& !c.hide_confirm_button
            &&& c.tooltip@ == Seq::<char>::empty()
            &&& c.sprite_name@ == Seq::<char>::empty()
        },
    }
}

/// The kinds of playable cards, in the order the unique cards are dealt.
pub open spec fn deal_order(k: int) -> CardEffect {
    if k == 0 {
        CardEffect::MoveOneTile
    } else if k == 1 {
        CardEffect::RotateCard
    } else if k == 2 {
        CardEffect::SwapCard
    } else {
        CardEffect::FireCard
    }
}

impl Card {
    /// Clears `selected` when it holds `card`, else selects a copy of `card`.
    pub fn toggle_selection(selected: &mut Option<Card>, card: &Card)
        ensures
            match *old(selected) {
                Some(s) => if card_eq(s, *card) {
                    *final(selected) is None
                } else {
                    *final(selected) matches Some(n) && card_eq(n, *card)
                },
                None => *final(selected) matches Some(n) && card_eq(n, *card),
            },
    {
        let same = match &*selected {
            Some(s) => s.eq(card),
            None => false,
        };
        if same {
            *selected = None;
        } else {
            *selected = Some(card.copy());
        }
    }

    /// A copy of the card.
    pub fn copy(&self) -> (c: Card)
        ensures
            card_eq(c, *self),
    {
        Card {
            id: self.id,
            name: self.name.clone(),
            effect: self.effect,
            color: self.color,
            hand_index: self.hand_index,
            hide_confirm_button: self.hide_confirm_button,
            tooltip: self.tooltip.clone(),
            sprite_name: self.sprite_name.clone(),
        }
    }

    /// The kind of card a random draw `roll` deals: the draw modulo four
    /// picks move, rotate, swap or fire, in that order.
    pub fn kind_for_roll(roll: u32) -> (e: CardEffect)
        ensures
            e == deal_order((roll % 4) as int),
    {
        let index = roll % 4;
        if index == 0 {
            CardEffect::MoveOneTile
        } else if index == 1 {
            CardEffect::RotateCard
        } else if index == 2 {
            CardEffect::SwapCard
        } else {
            CardEffect::FireCard
        }
    }

    /// A fresh card of a playable kind.
    pub fn of_kind(effect: CardEffect) -> (c: Card)
        requires
            effect != CardEffect::Dummy,
        ensures
            is_fresh_card(c, effect),
    {
        match effect {
            CardEffect::MoveOneTile => Self::move_card(),
            CardEffect::RotateCard => Self::rotate_card(),
            CardEffect::SwapCard => Self::swap_card(),
            _ => Self::fire_card(),
        }
    }

    /// A playable card of a random kind (see `kind_for_roll`).
    pub fn random() -> (c: Card)
        ensures
            c.effect != CardEffect::Dummy,
            is_fresh_card(c, c.effect),
    {
        let kind = Self::kind_for_roll(random_u32());
        Self::of_kind(kind)
    }

    /// One card of each playable kind: move, rotate, swap, fire.
    pub fn get_unique_cards() -> (v: Vec<Card>)
        ensures
            v@.len() == 4,
            forall|k: int| 0 <= k < 4 ==> is_fresh_card(#[trigger] v@[k], deal_order(k)),
    {
        let mut v: Vec<Card> = Vec::new();
        v.push(Self::move_card());
        v.push(Self::rotate_card());
        v.push(Self::swap_card());
        v.push(Self::fire_card());
        v
    }

    /// A fresh rotate card with a random id.
    pub fn rotate_card() -> (c: Card)
        ensures
            is_fresh_card(c, CardEffect::RotateCard),
    {
        let c = Card {
            id: random_u32(),
            name: "TURN".to_string(),
            effect: CardEffect::RotateCard,
            color: CARD_ROTATE_COLOR,
            hand_index: None,
            hide_confirm_button: false,
            tooltip: "Rotate any adjacent rooms.".to_string(),
            sprite_name: "rotate".to_string(),
        };
        c
    }

    /// A fresh move card with a random id.
    pub fn move_card() -> (c: Card)
        ensures
            is_fresh_card(c, CardEffect::MoveOneTile),
    {
        Card {
            id: random_u32(),
            name: "MOVE".to_string(),
            effect: CardEffect::MoveOneTile,
            color: CARD_MOVE_COLOR,
            hand_index: None,
            hide_confirm_button: false,
            tooltip: "Move to any connected room.".to_string(),
            sprite_name: "move".to_string(),
        }
    }

    /// A fresh swap card with a random id.
    pub fn swap_card() -> (c: Card)
        ensures
            is_fresh_card(c, CardEffect::SwapCard),
    {
        Card {
            id: random_u32(),
            name: "SWAP".to_string(),
            effect: CardEffect::SwapCard,
            color: CARD_SWAP_COLOR,
            hand_index: None,
            hide_confirm_button: false,
            tooltip: "Swap any two adjacent rooms.".to_string(),
            sprite_name: "swap".to_string(),
        }
    }

    /// A fresh fire card with a random id; it is confirmed by firing, so it
    /// shows no confirm button.
    pub fn fire_card() -> (c: Card)
        ensures
            is_fresh_card(c, CardEffect::FireCard),
    {
        Card {
            id: random_u32(),
            name: "FIRE".to_string(),
            effect: CardEffect::FireCard,
            color: CARD_FIRE_COLOR,
            hand_index: None,
            hide_confirm_button: true,
            tooltip: "Fire a fireball in a line.".to_string(),
            sprite_name: "fire".to_string(),
        }
    }

    /// The empty slot.
    pub fn dummy_card() -> (c: Card)
        ensures
            is_fresh_card(c, CardEffect::Dummy),
    {
        Card {
            id: 0,
            name: String::new(),
            effect: CardEffect::Dummy,
            color: CARD_DUMMY_COLOR,
            hand_index: None,
            hide_confirm_button: false,
            tooltip: String::new(),
            sprite_name: String::new(),
        }
    }

    /// Whether the card is the empty slot (its id is 0).
    pub fn is_dummy(&self) -> (r: bool)
        ensures
            r == (self.id == 0),
    {
        self.id == 0
    }
}

} // verus!
