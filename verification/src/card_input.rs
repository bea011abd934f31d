use vstd::prelude::*;

use crate::card::{card_eq, is_fresh_card, Card, CardEffect};
use crate::card_effect::{misplaced, turned_back};
use crate::client::{cleared, user_seat, GameState};
use crate::constants::{BOARD_TILES, MAP_SIZE};
use crate::effects::{highlight_tiles_for_effect, lit_by, same_but_highlight};
use crate::messages::same_card_opt;
use crate::monster::{on_board, pos_index};
use crate::tile::{clear_highlights, Tile};

verus! {

/// Where a card that is shown moving comes from or goes to.
#[derive(Clone, Copy, Debug, PartialEq, Eq, Structural)]
pub enum AnimatedCardOrigin {
    Hand,
    PlayArea,
    Other,
}

/// The local board player stands on the board and the board is whole, so
/// the rooms for the card held up can be lit.
pub open spec fn can_light(s: GameState) -> bool {
    (s.selected_card is Some && user_seat(s, s.user@) is Some) ==> {
        &&& on_board(s.players@[user_seat(s, s.user@)->0].position)
        &&& s.tiles@.len() >= BOARD_TILES
        &&& s.tiles@.len() + MAP_SIZE <= usize::MAX
    }
}

/// The rooms `b` are `a` with the old lights off and, when a card is held
/// up and the user has a board player, the rooms that card may target from
/// where that player stands lit (see `lit_by`), a rotation card also
/// remembering every room's rotation.
pub open spec fn lights_selection(s: GameState, a: Seq<Tile>, b: Seq<Tile>) -> bool {
    exists|c: Seq<Tile>|
        #[trigger] cleared(a, c) && if s.selected_card is Some && user_seat(s, s.user@) is Some {
            let effect = s.selected_card->0.effect;
            let pos = s.players@[user_seat(s, s.user@)->0].position;
            &&& same_but_highlight(b, c)
            &&& forall|i: int|
                0 <= i < c.len() ==> {
                    &&& (#[trigger] b[i]).is_highlighted == lit_by(effect, c, pos_index(pos), i)
                    &&& b[i].original_rotation == if effect == CardEffect::RotateCard {
                        c[i].current_rotation
                    } else {
                        c[i].original_rotation
                    }
                }
        } else {
            b == c
        }
}

/// Lights the rooms for the card held up (see `lights_selection`).
pub fn highlight_selected_card_tiles(state: &mut GameState)
    requires
        can_light(*old(state)),
    ensures
        lights_selection(*old(state), old(state).tiles@, final(state).tiles@),
        final(state).tiles@.len() == old(state).tiles@.len(),
        final(state).players == old(state).players,
        final(state).selected_card == old(state).selected_card,
        final(state).play_area == old(state).play_area,
        final(state).pending_swaps == old(state).pending_swaps,
        final(state).swap_tiles_selected == old(state).swap_tiles_selected,
        final(state).current_turn == old(state).current_turn,
        final(state).user == old(state).user,
        final(state).user_id_to_player_id == old(state).user_id_to_player_id,
{
    clear_highlights(&mut state.tiles);
    let ghost c = state.tiles@;
    let effect = match &state.selected_card {
        Some(card) => Some(card.effect),
        None => None,
    };
    if let Some(e) = effect {
        if let Some(i) = state.get_local_player_mut() {
            let pos = state.players[i].position;
            highlight_tiles_for_effect(&e, pos, &mut state.tiles);
            proof {
                assert forall|k: int| 0 <= k < c.len() implies (#[trigger] state.tiles@[k]).is_highlighted
                    == lit_by(e, c, pos_index(pos), k) by {
                    assert(!c[k].is_highlighted);
                }
            }
        }
    }
    assert(cleared(old(state).tiles@, c));
}

/// A card shown moving has arrived with `card` at slot `target_row_index`
/// of `target_row`. In the play area it takes the slot, is held up and its
/// rooms light up; the hand slot it came from is returned, to tell the
/// server. Back in the hand it takes its slot again, when the user has a
/// board player with that slot.
pub fn handle_animated_card_complete(
    state: &mut GameState,
    card: Card,
    target_row: AnimatedCardOrigin,
    target_row_index: usize,
) -> (r: Option<usize>)
    requires
        target_row == AnimatedCardOrigin::PlayArea ==> target_row_index < old(state).play_area@.len(),
        target_row == AnimatedCardOrigin::PlayArea ==> can_light(GameState { selected_card: Some(card), ..*old(state) }),
    ensures
        match target_row {
            AnimatedCardOrigin::PlayArea => {
                &&& final(state).play_area@.len() == old(state).play_area@.len()
                &&& card_eq(final(state).play_area@[target_row_index as int], card)
                &&& forall|k: int| 0 <= k < old(state).play_area@.len() && k != target_row_index ==>
                    #[trigger] final(state).play_area@[k] == old(state).play_area@[k]
                &&& same_card_opt(final(state).selected_card, Some(card))
                &&& lights_selection(GameState { selected_card: Some(card), ..*old(state) }, old(state).tiles@, final(state).tiles@)
                &&& final(state).players == old(state).players
                &&& r == card.hand_index
            },
            AnimatedCardOrigin::Hand => {
                &&& r is None
                &&& final(state).tiles == old(state).tiles
                &&& final(state).play_area == old(state).play_area
                &&& final(state).selected_card == old(state).selected_card
                &&& match user_seat(*old(state), old(state).user@) {
                    Some(i) => if target_row_index < old(state).players@[i].hand@.len() {
                        let (pa, pb) = (old(state).players@[i], final(state).players@[i]);
                        &&& final(state).players@.len() == old(state).players@.len()
                        &&& forall|j: int| 0 <= j < old(state).players@.len() && j != i ==> #[trigger] final(state).players@[j]
                            == old(state).players@[j]
                        &&& pb.id == pa.id && pb.position == pa.position && pb.health == pa.health
                            && pb.original_position == pa.original_position
                        &&& crate::handlers::hand_with(pa.hand@, pb.hand@, target_row_index as int, card)
                    } else {
                        final(state).players == old(state).players
                    },
                    None => final(state).players == old(state).players,
                }
            },
            AnimatedCardOrigin::Other => *final(state) == *old(state) && r is None,
        },
{
    match target_row {
        AnimatedCardOrigin::PlayArea => {
            state.play_area.set(target_row_index, card.copy());
            state.selected_card = Some(card.copy());
            let ghost s1 = *state;
            proof {
                assert(user_seat(s1, s1.user@) == user_seat(GameState { selected_card: Some(card), ..*old(state) }, old(state).user@));
            }
            highlight_selected_card_tiles(state);
            proof {
                assert(lights_selection(s1, s1.tiles@, state.tiles@));
                let c = choose|c: Seq<Tile>| #[trigger] cleared(s1.tiles@, c) && if s1.selected_card is Some && user_seat(s1, s1.user@) is Some {
                    let effect = s1.selected_card->0.effect;
                    let pos = s1.players@[user_seat(s1, s1.user@)->0].position;
                    &&& same_but_highlight(state.tiles@, c)
                    &&& forall|i: int|
                        0 <= i < c.len() ==> {
                            &&& (#[trigger] state.tiles@[i]).is_highlighted == lit_by(effect, c, pos_index(pos), i)
                            &&& state.tiles@[i].original_rotation == if effect == CardEffect::RotateCard {
                                c[i].current_rotation
                            } else {
                                c[i].original_rotation
                            }
                        }
                } else {
                    state.tiles@ == c
                };
                assert(cleared(old(state).tiles@, c));
            }
            card.hand_index
        },
        AnimatedCardOrigin::Hand => {
            if let Some(i) = state.get_local_player_mut() {
                if target_row_index < state.players[i].hand.len() {
                    state.players[i].hand.set(target_row_index, card);
                }
            }
            None
        },
        AnimatedCardOrigin::Other => None,
    }
}

/// The user plays the card held up: it is no longer held up, the lights go
/// off, and the card is returned, to tell the server. Nothing happens when no
/// card is held up.
pub fn confirm_card(state: &mut GameState) -> (r: Option<Card>)
    ensures
        match old(state).selected_card {
            Some(c) => {
                &&& r == Some(c)
                &&& final(state).selected_card is None
                &&& cleared(old(state).tiles@, final(state).tiles@)
            },
            None => r is None && *final(state) == *old(state),
        },
        final(state).players == old(state).players,
        final(state).play_area == old(state).play_area,
        final(state).current_turn == old(state).current_turn,
{
    let taken = state.selected_card.take();
    match taken {
        Some(card) => {
            clear_highlights(&mut state.tiles);
            Some(card)
        },
        None => None,
    }
}

/// `m` is the state `a` after the client takes back what a card with
/// `effect` did to the rooms: a rotation turns the rooms back (see
/// `turned_back`); a swap drops the picks and lights and sets the rooms to
/// move back to their remembered places (`moves`, see `misplaced`).
pub open spec fn reverts_card(a: GameState, m: GameState, effect: CardEffect, moves: Seq<(usize, usize)>) -> bool {
    &&& m.players == a.players
    &&& m.user == a.user
    &&& m.user_id_to_player_id == a.user_id_to_player_id
    &&& m.selected_card == a.selected_card
    &&& m.play_area == a.play_area
    &&& m.current_turn == a.current_turn
    &&& match effect {
        CardEffect::RotateCard => {
            &&& moves.len() == 0
            &&& m.tiles@.len() == a.tiles@.len()
            &&& forall|i: int| 0 <= i < a.tiles@.len() ==> turned_back(a.tiles@[i], #[trigger] m.tiles@[i])
            &&& m.pending_swaps == a.pending_swaps
            &&& m.swap_tiles_selected == a.swap_tiles_selected
        },
        CardEffect::SwapCard => {
            &&& moves == misplaced(a.tiles@)
            &&& m.pending_swaps@ == a.pending_swaps@ + moves
            &&& m.swap_tiles_selected@.len() == 0
            &&& cleared(a.tiles@, m.tiles@)
        },
        _ => {
            &&& moves.len() == 0
            &&& m.tiles == a.tiles
            &&& m.pending_swaps == a.pending_swaps
            &&& m.swap_tiles_selected == a.swap_tiles_selected
        },
    }
}

/// The user takes back the card `selected` lying at `play_area_idx` of the
/// play area: what it did to the rooms is taken back (see `reverts_card`);
/// then, when it came from a slot of the user's hand, its play area slot
/// empties and the lights are set anew. Returns the room moves to show and
/// the hand slot the card goes back to, to tell the server.
pub fn handle_card_cancel(state: &mut GameState, play_area_idx: usize, selected: &Card) -> (r: (Vec<(usize, usize)>, Option<usize>))
    requires
        can_light(*old(state)),
        (selected.hand_index matches Some(h) && user_seat(*old(state), old(state).user@) matches Some(i) && h
            < old(state).players@[i].hand@.len()) ==> play_area_idx < old(state).play_area@.len(),
    ensures
        exists|m: GameState|
            {
                &&& #[trigger] reverts_card(*old(state), m, selected.effect, r.0@)
                &&& if selected.hand_index matches Some(h) && user_seat(m, m.user@) matches Some(i) && h
                    < m.players@[i].hand@.len() {
                    &&& r.1 == selected.hand_index
                    &&& final(state).play_area@.len() == m.play_area@.len()
                    &&& is_fresh_card(final(state).play_area@[play_area_idx as int], CardEffect::Dummy)
                    &&& forall|k: int| 0 <= k < m.play_area@.len() && k != play_area_idx ==>
                        #[trigger] final(state).play_area@[k] == m.play_area@[k]
                    &&& lights_selection(m, m.tiles@, final(state).tiles@)
                    &&& final(state).players == m.players
                    &&& final(state).selected_card == m.selected_card
                    &&& final(state).pending_swaps == m.pending_swaps
                } else {
                    &&& r.1 is None
                    &&& *final(state) == m
                }
            },
{
    let mut moves: Vec<(usize, usize)> = Vec::new();
    if selected.effect == CardEffect::RotateCard {
        CardEffect::revert_tile_rotations(&mut state.tiles);
    }
    if selected.effect == CardEffect::SwapCard {
        moves = CardEffect::revert_tile_positions(state);
    }
    let ghost m = *state;
    assert(reverts_card(*old(state), m, selected.effect, moves@));
    if let Some(h) = selected.hand_index {
        if let Some(i) = state.get_local_player_mut() {
            if h < state.players[i].hand.len() {
                state.play_area.set(play_area_idx, Card::dummy_card());
                let ghost s1 = *state;
                highlight_selected_card_tiles(state);
                proof {
                    let c = choose|c: Seq<Tile>| #[trigger] cleared(s1.tiles@, c) && if s1.selected_card is Some && user_seat(s1, s1.user@) is Some {
                        let effect = s1.selected_card->0.effect;
                        let pos = s1.players@[user_seat(s1, s1.user@)->0].position;
                        &&& same_but_highlight(state.tiles@, c)
                        &&& forall|i: int|
                            0 <= i < c.len() ==> {
                                &&& (#[trigger] state.tiles@[i]).is_highlighted == lit_by(effect, c, pos_index(pos), i)
                                &&& state.tiles@[i].original_rotation == if effect == CardEffect::RotateCard {
                                    c[i].current_rotation
                                } else {
                                    c[i].original_rotation
                                }
                            }
                    } else {
                        state.tiles@ == c
                    };
                    assert(cleared(m.tiles@, c));
                    assert(lights_selection(m, m.tiles@, state.tiles@));
                }
                let r = (moves, Some(h));
                assert(reverts_card(*old(state), m, selected.effect, r.0@));
                return r;
            }
        }
    }
    let r = (moves, None);
    assert(reverts_card(*old(state), m, selected.effect, r.0@));
    assert(*state == m);
    r
}

/// The user picks up the hand card in slot `idx` to drag it: when the user
/// has a board player with a real card there, the slot empties and a copy of
/// the card is returned; otherwise nothing happens.
pub fn pick_up_hand_card(state: &mut GameState, idx: usize) -> (r: Option<Card>)
    ensures
        match user_seat(*old(state), old(state).user@) {
            Some(i) => if idx < old(state).players@[i].hand@.len() && old(state).players@[i].hand@[idx as int].id != 0 {
                let (pa, pb) = (old(state).players@[i], final(state).players@[i]);
                &&& r matches Some(c) && card_eq(c, pa.hand@[idx as int])
                &&& final(state).players@.len() == old(state).players@.len()
                &&& forall|j: int| 0 <= j < old(state).players@.len() && j != i ==> #[trigger] final(state).players@[j]
                    == old(state).players@[j]
                &&& pb.id == pa.id && pb.position == pa.position && pb.health == pa.health
                    && pb.original_position == pa.original_position
                &&& crate::handlers::hand_with(pa.hand@, pb.hand@, idx as int, pb.hand@[idx as int])
                &&& is_fresh_card(pb.hand@[idx as int], CardEffect::Dummy)
                &&& final(state).tiles == old(state).tiles
                &&& final(state).selected_card == old(state).selected_card
                &&& final(state).play_area == old(state).play_area
            } else {
                r is None && *final(state) == *old(state)
            },
            None => r is None && *final(state) == *old(state),
        },
{
    if let Some(i) = state.get_local_player_mut() {
        if idx < state.players[i].hand.len() {
            if state.players[i].hand[idx].is_dummy() {
                return None;
            }
            let card = state.players[i].hand[idx].copy();
            state.players[i].hand.set(idx, Card::dummy_card());
            return Some(card);
        }
    }
    None
}

} // verus!
