use vstd::prelude::*;

use crate::broadcast::{
    broadcast_board_state, broadcast_card_cancelled, broadcast_card_confirmed,
    broadcast_fireball_hit_result, broadcast_fireball_shot, broadcast_game_over,
    broadcast_player_moved, broadcast_tile_rotation, broadcast_tiles_swapped,
};
use crate::card::{card_eq, deal_order, is_fresh_card, Card, CardEffect};
use crate::constants::{DEBUG_MODE, FIREBALL_DAMAGE, HAND_SIZE};
use crate::direction::Direction;
use crate::messages::{
    is_card_cancelled, is_card_confirmed, is_fireball_hit, is_fireball_shot, is_game_over,
    is_player_moved, is_tile_rotated, names, same_card_opt, sent, shows_board, CurrentTurn,
    ServerToClient,
};
use crate::monster::Monster;
use crate::player::{Player, PlayerId};
use crate::server::{board_player_index, GameChannel};
use crate::tile::Tile;
use crate::undo::{
    location_sorted, loc_is, remember_locations, remember_rotations, revert_rotations,
    sort_by_original_location, swap_tiles, swapped, turned, turns_between,
};

verus! {

/// A hand as the server deals it at the end of a turn: one card of each
/// playable kind in the dealing order, each knowing its slot.
pub open spec fn is_new_hand(hand: Seq<Card>) -> bool {
    &&& hand.len() == HAND_SIZE
    &&& forall|k: int|
        0 <= k < hand.len() ==> (#[trigger] hand[k]).hand_index == Some(k as usize)
            && is_fresh_card(Card { hand_index: None, ..hand[k] }, deal_order(k))
}

/// The users, the turn order and the monster are as before.
pub open spec fn same_table(a: GameChannel, b: GameChannel) -> bool {
    &&& b.players == a.players
    &&& b.current_turn_index == a.current_turn_index
    &&& b.board_monster == a.board_monster
}

/// `b` has the players of `a`, but the one at `i` may differ from `p`'s
/// hand, position and health as described by the caller; all other board
/// players are unchanged.
pub open spec fn others_kept(a: Seq<Player>, b: Seq<Player>, i: int) -> bool {
    &&& b.len() == a.len()
    &&& forall|j: int| 0 <= j < a.len() && j != i ==> #[trigger] b[j] == a[j]
}

/// `b` is the hand `a` with slot `h` holding `c` instead.
pub open spec fn hand_with(a: Seq<Card>, b: Seq<Card>, h: int, c: Card) -> bool {
    &&& b.len() == a.len()
    &&& card_eq(b[h], c)
    &&& forall|k: int| 0 <= k < a.len() && k != h ==> #[trigger] b[k] == a[k]
}

/// Board player `pb` is `pa` after playing `card`: a move becomes the place
/// to go back to, and the card's hand slot, when it has one in the hand,
/// becomes empty.
pub open spec fn player_after_confirm(pa: Player, pb: Player, card: Card) -> bool {
    &&& pb.id == pa.id
    &&& pb.position == pa.position
    &&& pb.health == pa.health
    &&& pb.original_position == if card.effect == CardEffect::MoveOneTile {
        pa.position
    } else {
        pa.original_position
    }
    &&& match card.hand_index {
        Some(h) => if h < pa.hand@.len() {
            &&& pb.hand@.len() == pa.hand@.len()
            &&& is_fresh_card(pb.hand@[h as int], CardEffect::Dummy)
            &&& forall|k: int| 0 <= k < pa.hand@.len() && k != h ==> #[trigger] pb.hand@[k] == pa.hand@[k]
        } else {
            pb.hand == pa.hand
        },
        None => pb.hand == pa.hand,
    }
}

/// The rooms `b` are `a` after `effect` is played: a rotation is remembered
/// as the one to go back to, a swap remembers the places the rooms now
/// stand at, and any other card leaves the rooms alone.
pub open spec fn tiles_after_confirm(a: Seq<Tile>, b: Seq<Tile>, effect: CardEffect) -> bool {
    &&& b.len() == a.len()
    &&& forall|i: int|
        0 <= i < a.len() ==> {
            &&& (#[trigger] b[i]).entrances == a[i].entrances
            &&& b[i].is_highlighted == a[i].is_highlighted
            &&& b[i].current_rotation == a[i].current_rotation
            &&& b[i].original_rotation == if effect == CardEffect::RotateCard {
                a[i].current_rotation
            } else {
                a[i].original_rotation
            }
            &&& b[i].original_location == if effect == CardEffect::SwapCard {
                i
            } else {
                a[i].original_location as int
            }
        }
}

/// `b` is the game `a` after user `u` plays `card`.
pub open spec fn confirms_card(a: GameChannel, b: GameChannel, u: Seq<char>, card: Card) -> bool {
    &&& same_table(a, b)
    &&& tiles_after_confirm(a.board_tiles@, b.board_tiles@, card.effect)
    &&& match a.seat_of(u) {
        Some(i) => {
            &&& others_kept(a.board_players@, b.board_players@, i)
            &&& player_after_confirm(a.board_players@[i], b.board_players@[i], card)
        },
        None => b.board_players == a.board_players,
    }
    &&& match a.current_turn {
        Some(t) => if t.player_id@ == u {
            b.current_turn matches Some(t2) && t2.player_id == t.player_id && t2.selected_card is None
                && t2.selected_card_index == t.selected_card_index
        } else {
            b.current_turn == a.current_turn
        },
        None => b.current_turn is None,
    }
}

/// `b` is the game `a` after user `u`'s board player gets a new hand (see
/// `is_new_hand`); nothing else changes.
pub open spec fn deals_new_hand(a: GameChannel, b: GameChannel, u: Seq<char>) -> bool {
    &&& same_table(a, b)
    &&& b.board_tiles == a.board_tiles
    &&& b.current_turn == a.current_turn
    &&& match a.seat_of(u) {
        Some(i) => {
            let (pa, pb) = (a.board_players@[i], b.board_players@[i]);
            &&& others_kept(a.board_players@, b.board_players@, i)
            &&& pb.id == pa.id && pb.position == pa.position && pb.original_position == pa.original_position
                && pb.health == pa.health
            &&& is_new_hand(pb.hand@)
        },
        None => b.board_players == a.board_players,
    }
}

/// Gives user `user_id`'s board player a new hand (see `deals_new_hand`).
pub fn give_player_new_hand(channel: &mut GameChannel, user_id: &str)
    ensures
        deals_new_hand(*old(channel), *final(channel), user_id@),
{
    if let Some(i) = board_player_index(channel, user_id) {
        let mut new_hand = Player::new_hand(HAND_SIZE, false);
        let ghost dealt = new_hand@;
        let mut k: usize = 0;
        while k < new_hand.len()
            invariant
                k <= new_hand@.len(),
                new_hand@.len() == HAND_SIZE,
                forall|q: int| 0 <= q < HAND_SIZE ==> is_fresh_card(#[trigger] dealt[q], deal_order(q)),
                forall|q: int| 0 <= q < k ==> (#[trigger] new_hand@[q]).hand_index == Some(q as usize)
                    && (Card { hand_index: None, ..new_hand@[q] }) == dealt[q],
                forall|q: int| k <= q < HAND_SIZE ==> #[trigger] new_hand@[q] == dealt[q],
            decreases new_hand@.len() - k,
        {
            new_hand[k].hand_index = Some(k);
            k += 1;
        }
        channel.board_players[i].hand = new_hand;
    }
}

/// `b` is the game `a` after user `u` holds up the card at `hand_index` of
/// their hand: the slot becomes empty and the turn becomes theirs, holding
/// that card. Nothing happens when the user has no board player or no such
/// slot.
pub open spec fn selects_card(a: GameChannel, b: GameChannel, u: Seq<char>, hand_index: usize) -> bool {
    &&& same_table(a, b)
    &&& b.board_tiles == a.board_tiles
    &&& match a.seat_of(u) {
        Some(i) => if hand_index < a.board_players@[i].hand@.len() {
            let (pa, pb) = (a.board_players@[i], b.board_players@[i]);
            &&& others_kept(a.board_players@, b.board_players@, i)
            &&& pb.id == pa.id && pb.position == pa.position && pb.original_position == pa.original_position
                && pb.health == pa.health
            &&& hand_with(pa.hand@, pb.hand@, hand_index as int, pb.hand@[hand_index as int])
            &&& is_fresh_card(pb.hand@[hand_index as int], CardEffect::Dummy)
            &&& b.current_turn matches Some(t) && t.player_id@ == u && t.selected_card_index == hand_index
                && same_card_opt(t.selected_card, Some(pa.hand@[hand_index as int]))
        } else {
            b.board_players == a.board_players && b.current_turn == a.current_turn
        },
        None => b.board_players == a.board_players && b.current_turn == a.current_turn,
    }
}

/// User `user_id` holds up a card of their hand (see `selects_card`).
pub fn handle_select_card(channel: &mut GameChannel, user_id: &str, hand_index: usize)
    ensures
        selects_card(*old(channel), *final(channel), user_id@, hand_index),
{
    if let Some(i) = board_player_index(channel, user_id) {
        if hand_index < channel.board_players[i].hand.len() {
            let card = channel.board_players[i].hand[hand_index].copy();
            channel.board_players[i].hand[hand_index] = Card::dummy_card();
            channel.current_turn = Some(
                CurrentTurn {
                    player_id: user_id.to_owned(),
                    selected_card: Some(card),
                    selected_card_index: hand_index,
                },
            );
        }
    }
}

/// `b` is the game `a` after user `u` plays `card` (see `confirms_card`),
/// and `ob` is `oa` with the news of it.
pub open spec fn plays_card(
    a: GameChannel,
    b: GameChannel,
    u: Seq<char>,
    card: Card,
    oa: Seq<ServerToClient>,
    ob: Seq<ServerToClient>,
) -> bool {
    &&& confirms_card(a, b, u, card)
    &&& sent(oa, ob, 1)
    &&& is_card_confirmed(ob.last(), u, card)
}

/// User `user_id` plays `card` and everyone is told (see `plays_card`).
pub fn handle_confirm_card(channel: &mut GameChannel, user_id: &str, card: Card, outbox: &mut Vec<ServerToClient>)
    requires
        old(channel).wf(),
    ensures
        final(channel).wf(),
        plays_card(*old(channel), *final(channel), user_id@, card, old(outbox)@, final(outbox)@),
{
    let seat = board_player_index(channel, user_id);
    match card.effect {
        CardEffect::MoveOneTile => {
            if let Some(i) = seat {
                channel.board_players[i].update_original_position();
            }
        },
        CardEffect::RotateCard => {
            remember_rotations(&mut channel.board_tiles);
        },
        CardEffect::SwapCard => {
            remember_locations(&mut channel.board_tiles);
        },
        _ => {},
    }
    if let Some(h) = card.hand_index {
        if let Some(i) = seat {
            if h < channel.board_players[i].hand.len() {
                channel.board_players[i].hand[h] = Card::dummy_card();
            }
        }
    }
    broadcast_card_confirmed(&card, user_id, outbox);
    let uid = user_id.to_owned();
    if let Some(turn) = &mut channel.current_turn {
        if turn.player_id == uid {
            turn.selected_card = None;
        }
    }
}

/// `b` is the game `a` after user `u` turns the room at `tile_index` a
/// quarter turn clockwise, and `ob` is `oa` with the news of it; nothing
/// happens for an index off the board.
pub open spec fn rotates_tile(
    a: GameChannel,
    b: GameChannel,
    u: Seq<char>,
    tile_index: usize,
    oa: Seq<ServerToClient>,
    ob: Seq<ServerToClient>,
) -> bool {
    &&& same_table(a, b)
    &&& b.board_players == a.board_players
    &&& b.current_turn == a.current_turn
    &&& if tile_index < a.board_tiles@.len() {
        let (ta, tb) = (a.board_tiles@[tile_index as int], b.board_tiles@[tile_index as int]);
        &&& b.board_tiles@.len() == a.board_tiles@.len()
        &&& forall|j: int| 0 <= j < a.board_tiles@.len() && j != tile_index ==> #[trigger] b.board_tiles@[j]
            == a.board_tiles@[j]
        &&& tb.entrances@ == turned(ta.entrances@, 1)
        &&& tb.current_rotation == (ta.current_rotation + 1) % 4
        &&& tb.original_rotation == ta.original_rotation
        &&& tb.original_location == ta.original_location
        &&& tb.is_highlighted == ta.is_highlighted
        &&& sent(oa, ob, 1)
        &&& is_tile_rotated(ob.last(), u, tile_index, tb)
    } else {
        b.board_tiles == a.board_tiles && ob == oa
    }
}

/// User `user_id` turns a room (see `rotates_tile`).
pub fn handle_rotate_tile(channel: &mut GameChannel, user_id: &str, tile_index: usize, outbox: &mut Vec<ServerToClient>)
    requires
        old(channel).wf(),
    ensures
        final(channel).wf(),
        rotates_tile(*old(channel), *final(channel), user_id@, tile_index, old(outbox)@, final(outbox)@),
{
    if tile_index < channel.board_tiles.len() {
        let new_rotation = (channel.board_tiles[tile_index].current_rotation + 1) % 4;
        channel.board_tiles[tile_index].rotate_entrances(new_rotation);
        broadcast_tile_rotation(tile_index, &channel.board_tiles[tile_index], user_id, outbox);
    }
}

/// `b` is the game `a` after user `u`'s board player goes to `pos` (goes
/// back, when `canceled`), and `ob` is `oa` with the news of it, sent
/// whether or not the user has a board player.
pub open spec fn moves_player(
    a: GameChannel,
    b: GameChannel,
    u: Seq<char>,
    pos: (usize, usize),
    canceled: bool,
    oa: Seq<ServerToClient>,
    ob: Seq<ServerToClient>,
) -> bool {
    &&& same_table(a, b)
    &&& b.board_tiles == a.board_tiles
    &&& b.current_turn == a.current_turn
    &&& match a.seat_of(u) {
        Some(i) => b.board_players@ == a.board_players@.update(i, Player { position: pos, ..a.board_players@[i] }),
        None => b.board_players == a.board_players,
    }
    &&& sent(oa, ob, 1)
    &&& is_player_moved(ob.last(), u, pos, canceled)
}

/// User `user_id`'s board player moves (see `moves_player`).
pub fn handle_move_player(
    channel: &mut GameChannel,
    user_id: &str,
    new_position: (usize, usize),
    is_canceled: bool,
    outbox: &mut Vec<ServerToClient>,
)
    ensures
        moves_player(*old(channel), *final(channel), user_id@, new_position, is_canceled, old(outbox)@, final(outbox)@),
{
    if let Some(i) = board_player_index(channel, user_id) {
        channel.board_players[i].position = new_position;
    }
    broadcast_player_moved(user_id, new_position, is_canceled, outbox);
}

/// `b` is the game `a` with the rooms at the two indices exchanged, and
/// `ob` is `oa` with the news of it; nothing happens when either index is
/// off the board.
pub open spec fn swaps_tiles(
    a: GameChannel,
    b: GameChannel,
    i: usize,
    j: usize,
    oa: Seq<ServerToClient>,
    ob: Seq<ServerToClient>,
) -> bool {
    &&& same_table(a, b)
    &&& b.board_players == a.board_players
    &&& b.current_turn == a.current_turn
    &&& if i < a.board_tiles@.len() && j < a.board_tiles@.len() {
        &&& b.board_tiles@ == swapped(a.board_tiles@, i as int, j as int)
        &&& sent(oa, ob, 1)
        &&& ob.last() == (ServerToClient::TilesSwapped { tile_index_1: i, tile_index_2: j })
    } else {
        b.board_tiles == a.board_tiles && ob == oa
    }
}

/// Exchanges two rooms (see `swaps_tiles`).
pub fn handle_swap_tiles(channel: &mut GameChannel, tile_index_1: usize, tile_index_2: usize, outbox: &mut Vec<ServerToClient>)
    requires
        old(channel).wf(),
    ensures
        final(channel).wf(),
        swaps_tiles(*old(channel), *final(channel), tile_index_1, tile_index_2, old(outbox)@, final(outbox)@),
{
    if tile_index_1 >= channel.board_tiles.len() || tile_index_2 >= channel.board_tiles.len() {
        return;
    }
    swap_tiles(&mut channel.board_tiles, tile_index_1, tile_index_2);
    broadcast_tiles_swapped(tile_index_1, tile_index_2, outbox);
}

/// The rooms `b` are `a` after the play of a card with `effect` is taken
/// back: a rotation turns every room back to its remembered rotation, a
/// swap puts the rooms back in the order of their remembered places (a
/// stable sort), and any other card leaves the rooms alone.
pub open spec fn tiles_after_cancel(a: Seq<Tile>, b: Seq<Tile>, effect: CardEffect) -> bool {
    match effect {
        CardEffect::RotateCard => {
            &&& b.len() == a.len()
            &&& forall|i: int|
                0 <= i < a.len() ==> {
                    &&& (#[trigger] b[i]).entrances@ == turned(
                        a[i].entrances@,
                        turns_between(a[i].current_rotation as int, a[i].original_rotation as int),
                    )
                    &&& b[i].current_rotation == a[i].original_rotation
                    &&& b[i].original_rotation == a[i].original_rotation
                    &&& b[i].is_highlighted == a[i].is_highlighted
                    &&& b[i].original_location == a[i].original_location
                }
        },
        CardEffect::SwapCard => {
            &&& b.len() == a.len()
            &&& location_sorted(b)
            &&& forall|v: usize| #[trigger] b.filter(loc_is(v)) == a.filter(loc_is(v))
        },
        _ => b == a,
    }
}

/// `b` is the game `a` after user `u` takes back the card held up in the
/// turn, putting it back at `hand_index`; `ob` is `oa` with the news of it
/// and the new board. Nothing happens when no card is held up.
pub open spec fn cancels_card(
    a: GameChannel,
    b: GameChannel,
    u: Seq<char>,
    hand_index: usize,
    oa: Seq<ServerToClient>,
    ob: Seq<ServerToClient>,
) -> bool {
    if a.current_turn matches Some(t) && t.selected_card is Some {
        let card = a.current_turn->0.selected_card->0;
        &&& same_table(a, b)
        &&& tiles_after_cancel(a.board_tiles@, b.board_tiles@, card.effect)
        &&& match a.seat_of(u) {
            Some(i) => {
                let (pa, pb) = (a.board_players@[i], b.board_players@[i]);
                &&& others_kept(a.board_players@, b.board_players@, i)
                &&& pb.id == pa.id && pb.health == pa.health && pb.original_position == pa.original_position
                &&& pb.position == if card.effect == CardEffect::MoveOneTile {
                    pa.original_position
                } else {
                    pa.position
                }
                &&& if hand_index < pa.hand@.len() {
                    hand_with(pa.hand@, pb.hand@, hand_index as int, card)
                } else {
                    pb.hand == pa.hand
                }
            },
            None => b.board_players == a.board_players,
        }
        &&& b.current_turn matches Some(t2) && t2.player_id@ == u && t2.selected_card is None
            && t2.selected_card_index == hand_index
        &&& sent(oa, ob, 2)
        &&& is_card_cancelled(ob[oa.len() as int], u, card)
        &&& shows_board(ob.last(), b.board_tiles@, b.board_players@, b.board_monster, b.current_turn)
    } else {
        b == a && ob == oa
    }
}

/// User `user_id` takes back the card held up in the turn (see
/// `cancels_card`).
pub fn handle_cancel_select_card(
    channel: &mut GameChannel,
    user_id: &str,
    hand_index: usize,
    outbox: &mut Vec<ServerToClient>,
)
    requires
        old(channel).wf(),
    ensures
        final(channel).wf(),
        cancels_card(*old(channel), *final(channel), user_id@, hand_index, old(outbox)@, final(outbox)@),
{
    let card = match &channel.current_turn {
        Some(turn) => match &turn.selected_card {
            Some(c) => c.copy(),
            None => {
                return;
            },
        },
        None => {
            return;
        },
    };
    let ghost start = *channel;
    let seat = board_player_index(channel, user_id);
    match card.effect {
        CardEffect::RotateCard => {
            revert_rotations(&mut channel.board_tiles);
        },
        CardEffect::SwapCard => {
            sort_by_original_location(&mut channel.board_tiles);
            proof {
                assert forall|i: int| 0 <= i < channel.board_tiles@.len() implies (#[trigger] channel.board_tiles@[i]).current_rotation < 4
                    && channel.board_tiles@[i].original_rotation < 4 by {
                    let j = choose|j: int| 0 <= j < start.board_tiles@.len() && start.board_tiles@[j] == channel.board_tiles@[i];
                }
            }
        },
        CardEffect::MoveOneTile => {
            if let Some(i) = seat {
                let back = channel.board_players[i].original_position;
                channel.board_players[i].position = back;
            }
        },
        _ => {},
    }
    if let Some(i) = seat {
        if hand_index < channel.board_players[i].hand.len() {
            channel.board_players[i].hand[hand_index] = card.copy();
        }
    }
    channel.current_turn = Some(
        CurrentTurn { player_id: user_id.to_owned(), selected_card: None, selected_card_index: hand_index },
    );
    let ghost o0 = outbox@;
    broadcast_card_cancelled(&card, user_id, outbox);
    let ghost o1 = outbox@;
    broadcast_board_state(
        &channel.board_tiles,
        &channel.board_players,
        &channel.board_monster,
        &channel.current_turn,
        outbox,
    );
    proof {
        assert(outbox@[o0.len() as int] == o1.last());
        assert(outbox@.take(o0.len() as int) == o1.take(o0.len() as int));
    }
}

/// `b` is `a` after the card that user `u` holds up in the turn, if any, is
/// played; `ob` is `oa` with the news of it.
pub open spec fn plays_held_card(
    a: GameChannel,
    b: GameChannel,
    u: Seq<char>,
    oa: Seq<ServerToClient>,
    ob: Seq<ServerToClient>,
) -> bool {
    if a.current_turn matches Some(t) && t.player_id@ == u && t.selected_card is Some {
        let card = a.current_turn->0.selected_card->0;
        &&& confirms_card(a, b, u, card)
        &&& sent(oa, ob, 1)
        &&& is_card_confirmed(ob.last(), u, card)
    } else {
        b == a && ob == oa
    }
}

/// `b` is the game `a` after user `u` ends the turn: the card the user holds
/// up is played, the user gets a new hand, the turn passes to the next user
/// in order of arrival with no card held up, and the new board is sent.
pub open spec fn ends_turn(
    a: GameChannel,
    b: GameChannel,
    u: Seq<char>,
    oa: Seq<ServerToClient>,
    ob: Seq<ServerToClient>,
) -> bool {
    exists|m: GameChannel, n: GameChannel, om: Seq<ServerToClient>|
        {
            &&& #[trigger] plays_held_card(a, m, u, oa, om)
            &&& #[trigger] deals_new_hand(m, n, u)
            &&& b.players == n.players
            &&& b.board_tiles == n.board_tiles
            &&& b.board_players == n.board_players
            &&& b.board_monster == n.board_monster
            &&& b.current_turn_index == (a.current_turn_index + 1) % (a.players@.len() as int)
            &&& b.current_turn matches Some(t) && t.player_id@ == a.players@[b.current_turn_index as int]@
                && t.selected_card is None && t.selected_card_index == 0
            &&& sent(om, ob, 1)
            &&& shows_board(ob.last(), b.board_tiles@, b.board_players@, b.board_monster, b.current_turn)
        }
}

/// User `user_id` ends the turn (see `ends_turn`).
pub fn handle_end_turn(channel: &mut GameChannel, user_id: &str, outbox: &mut Vec<ServerToClient>)
    requires
        old(channel).wf(),
        old(channel).players@.len() > 0,
        old(channel).current_turn_index < usize::MAX,
    ensures
        final(channel).wf(),
        ends_turn(*old(channel), *final(channel), user_id@, old(outbox)@, final(outbox)@),
{
    let ghost a = *channel;
    let ghost oa = outbox@;
    let uid = user_id.to_owned();
    let held = match &channel.current_turn {
        Some(turn) => if turn.player_id == uid {
            match &turn.selected_card {
                Some(c) => Some(c.copy()),
                None => None,
            }
        } else {
            None
        },
        None => None,
    };
    if let Some(card) = held {
        handle_confirm_card(channel, user_id, card, outbox);
    }
    let ghost m = *channel;
    let ghost om = outbox@;
    give_player_new_hand(channel, user_id);
    let ghost n = *channel;
    channel.current_turn_index = (channel.current_turn_index + 1) % channel.players.len();
    if channel.current_turn_index < channel.players.len() {
        let next = channel.players[channel.current_turn_index].clone();
        channel.current_turn = Some(CurrentTurn { player_id: next, selected_card: None, selected_card_index: 0 });
        broadcast_board_state(
            &channel.board_tiles,
            &channel.board_players,
            &channel.board_monster,
            &channel.current_turn,
            outbox,
        );
    }
    assert(plays_held_card(a, m, user_id@, oa, om));
    assert(deals_new_hand(m, n, user_id@));
}

/// `b` is the game `a` after user `u` shoots a fireball from room
/// `target_tile` towards `direction`: when it is the user's turn and the
/// room is on the board, a fire card is played (unless in debug mode) and
/// the shot is sent; otherwise nothing happens.
pub open spec fn shoots_fireball(
    a: GameChannel,
    b: GameChannel,
    u: Seq<char>,
    target_tile: usize,
    direction: Direction,
    oa: Seq<ServerToClient>,
    ob: Seq<ServerToClient>,
) -> bool {
    if a.current_turn matches Some(t) && t.player_id@ == u && target_tile < a.board_tiles@.len() {
        if !DEBUG_MODE {
            exists|f: Card, om: Seq<ServerToClient>|
                {
                    &&& #[trigger] is_fresh_card(f, CardEffect::FireCard)
                    &&& confirms_card(a, b, u, f)
                    &&& sent(oa, om, 1)
                    &&& is_card_confirmed(om.last(), u, f)
                    &&& #[trigger] sent(om, ob, 1)
                    &&& is_fireball_shot(ob.last(), u, target_tile, direction)
                }
        } else {
            &&& b == a
            &&& sent(oa, ob, 1)
            &&& is_fireball_shot(ob.last(), u, target_tile, direction)
        }
    } else {
        b == a && ob == oa
    }
}

/// User `user_id` shoots a fireball (see `shoots_fireball`). The user must
/// have a board player when the shot is taken.
pub fn handle_fireball_shot(
    channel: &mut GameChannel,
    user_id: &str,
    target_tile: usize,
    direction: Direction,
    outbox: &mut Vec<ServerToClient>,
)
    requires
        old(channel).wf(),
        (old(channel).current_turn matches Some(t) && t.player_id@ == user_id@ && target_tile
            < old(channel).board_tiles@.len()) ==> old(channel).seat_of(user_id@) is Some,
    ensures
        final(channel).wf(),
        shoots_fireball(*old(channel), *final(channel), user_id@, target_tile, direction, old(outbox)@, final(outbox)@),
{
    let uid = user_id.to_owned();
    match &channel.current_turn {
        Some(current_turn) => {
            if current_turn.player_id != uid {
                return;
            }
        },
        None => {
            return;
        },
    }
    if target_tile >= channel.board_tiles.len() {
        return;
    }
    let seat = board_player_index(channel, user_id);
    let i = seat.unwrap();
    let _player_pos = channel.board_players[i].position;
    if !DEBUG_MODE {
        let f = Card::fire_card();
        let ghost fc = f;
        let ghost om = outbox@;
        handle_confirm_card(channel, user_id, f, outbox);
        let ghost om2 = outbox@;
        broadcast_fireball_shot(user_id, target_tile, &direction, outbox);
        assert(is_fresh_card(fc, CardEffect::FireCard) && sent(om2, outbox@, 1));
    } else {
        broadcast_fireball_shot(user_id, target_tile, &direction, outbox);
    }
}

/// The other seat.
pub open spec fn rival(id: PlayerId) -> PlayerId {
    match id {
        PlayerId::Player1 => PlayerId::Player2,
        PlayerId::Player2 => PlayerId::Player1,
    }
}

/// The news of the death of the player in seat `dead` in game `a`: the
/// user of the other seat wins and the user of the dead seat loses, when
/// both seats have users; otherwise nothing is sent.
pub open spec fn announces_death(a: GameChannel, dead: PlayerId, oa: Seq<ServerToClient>, ob: Seq<ServerToClient>) -> bool {
    match (a.user_of(rival(dead)), a.user_of(dead)) {
        (Some(w), Some(l)) => sent(oa, ob, 1) && is_game_over(ob.last(), seq![w], seq![l]),
        _ => ob == oa,
    }
}

/// The player in seat `dead_player_id` has died (see `announces_death`).
pub fn handle_player_death(channel: &GameChannel, dead_player_id: PlayerId, outbox: &mut Vec<ServerToClient>)
    ensures
        announces_death(*channel, dead_player_id, old(outbox)@, final(outbox)@),
{
    let winner_user_id = match dead_player_id {
        PlayerId::Player1 => channel.get_user_id(&PlayerId::Player2),
        PlayerId::Player2 => channel.get_user_id(&PlayerId::Player1),
    };
    let loser_user_id = channel.get_user_id(&dead_player_id);
    if let (Some(winner), Some(loser)) = (winner_user_id, loser_user_id) {
        let mut w: Vec<String> = Vec::new();
        w.push(winner);
        let mut l: Vec<String> = Vec::new();
        l.push(loser);
        broadcast_game_over(w.as_slice(), l.as_slice(), outbox);
        assert(names(w@) == seq![w@[0]@]);
        assert(names(l@) == seq![l@[0]@]);
    }
}

/// `i` is the first board player standing at `pos`.
pub open spec fn is_first_at(players: Seq<Player>, pos: (usize, usize), i: int) -> bool {
    &&& 0 <= i < players.len()
    &&& players[i].position == pos
    &&& forall|j: int| 0 <= j < i ==> (#[trigger] players[j]).position != pos
}

/// The first board player standing at `pos`, if any.
pub open spec fn first_at(players: Seq<Player>, pos: (usize, usize)) -> Option<int> {
    if exists|i: int| is_first_at(players, pos, i) {
        Some(choose|i: int| is_first_at(players, pos, i))
    } else {
        None
    }
}

/// The spot of board index `i`: column `i % 5`, row `i / 5`.
pub open spec fn hit_spot(i: usize) -> (usize, usize) {
    ((i % 5) as usize, (i / 5) as usize)
}

/// Health left after a fireball hits.
pub open spec fn after_hit(health: u32) -> u32 {
    if FIREBALL_DAMAGE >= health {
        0
    } else {
        (health - FIREBALL_DAMAGE) as u32
    }
}

/// `b` is the game `a` after a fireball of user `shooter` lands in room
/// `from`. The monster standing there takes the damage: when it dies with
/// two users connected, both win; otherwise the hit is sent. Else the first
/// board player standing there takes the damage, unless it has no user or is
/// the shooter (then nothing happens); the death of that player is
/// announced (see `announces_death`) before the hit is sent.
pub open spec fn lands_fireball(
    a: GameChannel,
    b: GameChannel,
    shooter: Seq<char>,
    from: usize,
    oa: Seq<ServerToClient>,
    ob: Seq<ServerToClient>,
) -> bool {
    let hit = hit_spot(from);
    if a.board_monster matches Some(m) && m.position == hit {
        let m = a.board_monster->0;
        let health = after_hit(m.health);
        &&& b.board_monster == Some(Monster { health, ..m })
        &&& b.players == a.players
        &&& b.current_turn_index == a.current_turn_index
        &&& b.current_turn == a.current_turn
        &&& b.board_tiles == a.board_tiles
        &&& b.board_players == a.board_players
        &&& sent(oa, ob, 1)
        &&& if health == 0 && a.players@.len() >= 2 {
            is_game_over(ob.last(), seq![a.players@[0]@, a.players@[1]@], seq![])
        } else {
            is_fireball_hit(ob.last(), shooter, "monster"@, 0, Some(FIREBALL_DAMAGE))
        }
    } else {
        match first_at(a.board_players@, hit) {
            None => b == a && ob == oa,
            Some(i) => match a.user_of(a.board_players@[i].id) {
                None => b == a && ob == oa,
                Some(target) => if target == shooter {
                    b == a && ob == oa
                } else {
                    let p = a.board_players@[i];
                    let health = after_hit(p.health);
                    &&& b.board_players@ == a.board_players@.update(i, Player { health, ..p })
                    &&& b.players == a.players
                    &&& b.current_turn_index == a.current_turn_index
                    &&& b.current_turn == a.current_turn
                    &&& b.board_tiles == a.board_tiles
                    &&& b.board_monster == a.board_monster
                    &&& exists|om: Seq<ServerToClient>|
                        {
                            &&& (if health == 0 {
                                announces_death(a, p.id, oa, om)
                            } else {
                                om == oa
                            })
                            &&& #[trigger] sent(om, ob, 1)
                            &&& is_fireball_hit(ob.last(), shooter, target, FIREBALL_DAMAGE, None)
                        }
                },
            },
        }
    }
}

/// A fireball of user `shooter_id` lands in room `from_tile_index` (see
/// `lands_fireball`).
pub fn handle_fireball_hit(
    channel: &mut GameChannel,
    shooter_id: &str,
    from_tile_index: usize,
    _direction: Direction,
    outbox: &mut Vec<ServerToClient>,
)
    ensures
        final(channel).board_tiles == old(channel).board_tiles,
        lands_fireball(*old(channel), *final(channel), shooter_id@, from_tile_index, old(outbox)@, final(outbox)@),
{
    let ghost a = *channel;
    let from_position = (from_tile_index % 5, from_tile_index / 5);
    let hit_position = from_position;
    let monster_there = match &channel.board_monster {
        Some(monster) => monster.position.0 == hit_position.0 && monster.position.1 == hit_position.1,
        None => false,
    };
    if monster_there {
        let mut health: u32 = 0;
        if let Some(monster) = &mut channel.board_monster {
            monster.take_damage(FIREBALL_DAMAGE);
            health = monster.health;
        }
        if health == 0 {
            if channel.players.len() >= 2 {
                let mut winners: Vec<String> = Vec::new();
                winners.push(channel.players[0].clone());
                winners.push(channel.players[1].clone());
                let losers: Vec<String> = Vec::new();
                broadcast_game_over(winners.as_slice(), losers.as_slice(), outbox);
                assert(names(winners@) == seq![a.players@[0]@, a.players@[1]@]);
                assert(names(losers@) == Seq::<Seq<char>>::empty());
                return;
            }
        }
        broadcast_fireball_hit_result(shooter_id, "monster", &0, Some(FIREBALL_DAMAGE), outbox);
        return;
    }
    let mut k: usize = 0;
    let mut found: Option<usize> = None;
    while k < channel.board_players.len()
        invariant
            k <= channel.board_players@.len(),
            *channel == a,
            found matches Some(i) ==> is_first_at(channel.board_players@, hit_position, i as int),
            found is None ==> forall|j: int| 0 <= j < k ==> (#[trigger] channel.board_players@[j]).position != hit_position,
        decreases channel.board_players@.len() - k,
    {
        if found.is_none() && channel.board_players[k].position.0 == hit_position.0
            && channel.board_players[k].position.1 == hit_position.1 {
            found = Some(k);
        }
        k += 1;
    }
    proof {
        match found {
            Some(i) => {
                let c = choose|c: int| is_first_at(a.board_players@, hit_position, c);
                if c < i {
                    assert(a.board_players@[c].position != hit_position);
                } else if c > i as int {
                    assert(a.board_players@[i as int].position != hit_position);
                }
            },
            None => {
                if exists|c: int| is_first_at(a.board_players@, hit_position, c) {
                    let c = choose|c: int| is_first_at(a.board_players@, hit_position, c);
                    assert(a.board_players@[c].position == hit_position);
                }
            },
        }
    }
    let target_player_index = match found {
        Some(i) => i,
        None => {
            return;
        },
    };
    let target_id = channel.board_players[target_player_index].id;
    let target_user_id = match channel.get_user_id(&target_id) {
        Some(id) => id,
        None => {
            return;
        },
    };
    let shooter = shooter_id.to_owned();
    if target_user_id == shooter {
        return;
    }
    let damage_dealt = FIREBALL_DAMAGE;
    channel.board_players[target_player_index].take_damage(damage_dealt);
    let ghost om0 = outbox@;
    if channel.board_players[target_player_index].health == 0 {
        proof {
            crate::server::lemma_seat_slot_ids(channel.board_players@, a.board_players@, target_id);
            crate::server::lemma_seat_slot_ids(channel.board_players@, a.board_players@, rival(target_id));
            assert(channel.user_of(target_id) == a.user_of(target_id));
            assert(channel.user_of(rival(target_id)) == a.user_of(rival(target_id)));
        }
        handle_player_death(channel, target_id, outbox);
    }
    let ghost om = outbox@;
    broadcast_fireball_hit_result(shooter_id, target_user_id.as_str(), &damage_dealt, None, outbox);
    proof {
        assert(channel.board_players@ =~= a.board_players@.update(
            target_player_index as int,
            Player { health: after_hit(a.board_players@[target_player_index as int].health), ..a.board_players@[target_player_index as int] },
        ));
    }
}

} // verus!
