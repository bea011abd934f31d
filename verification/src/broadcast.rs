use vstd::prelude::*;

use crate::card::Card;
use crate::direction::Direction;
use crate::messages::{
    copy_monster_opt, copy_names, copy_players, copy_tiles, copy_turn_opt, is_card_cancelled,
    is_card_confirmed, is_fireball_hit, is_fireball_shot, is_game_over, is_monster_damage,
    is_player_moved, is_tile_rotated, names, sent, shows_board, CurrentTurn, ServerToClient,
};
use crate::monster::Monster;
use crate::player::Player;
use crate::tile::Tile;

verus! {

/// Hands the turn to the user at `current_turn_index`, with no card held up,
/// and sends the board with that turn. Does nothing when no user stands at
/// that place.
pub fn broadcast_turn(
    players: &[String],
    current_turn_index: usize,
    current_turn: &mut Option<CurrentTurn>,
    board_tiles: &[Tile],
    board_players: &[Player],
    board_monster: &Option<Monster>,
    outbox: &mut Vec<ServerToClient>,
)
    ensures
        if current_turn_index < players@.len() {
            &&& *final(current_turn) matches Some(t) && t.player_id@ == players@[current_turn_index as int]@
                && t.selected_card is None && t.selected_card_index == 0
            &&& sent(old(outbox)@, final(outbox)@, 1)
            &&& shows_board(final(outbox)@.last(), board_tiles@, board_players@, *board_monster, *final(current_turn))
        } else {
            &&& *final(current_turn) == *old(current_turn)
            &&& final(outbox)@ == old(outbox)@
        },
{
    if current_turn_index < players.len() {
        *current_turn = Some(
            CurrentTurn {
                player_id: players[current_turn_index].clone(),
                selected_card: None,
                selected_card_index: 0,
            },
        );
        broadcast_board_state(board_tiles, board_players, board_monster, current_turn, outbox);
    }
}

/// Sends the whole board: rooms, players, monster and turn.
pub fn broadcast_board_state(
    board_tiles: &[Tile],
    board_players: &[Player],
    board_monster: &Option<Monster>,
    current_turn: &Option<CurrentTurn>,
    outbox: &mut Vec<ServerToClient>,
)
    ensures
        sent(old(outbox)@, final(outbox)@, 1),
        shows_board(final(outbox)@.last(), board_tiles@, board_players@, *board_monster, *current_turn),
{
    let m = ServerToClient::BoardState {
        tiles: copy_tiles(board_tiles),
        players: copy_players(board_players),
        monster: copy_monster_opt(board_monster),
        current_turn: copy_turn_opt(current_turn),
    };
    outbox.push(m);
    assert(outbox@.take(old(outbox)@.len() as int) == old(outbox)@);
}

/// Sends that `player_id` took back `card`.
pub fn broadcast_card_cancelled(card: &Card, player_id: &str, outbox: &mut Vec<ServerToClient>)
    ensures
        sent(old(outbox)@, final(outbox)@, 1),
        is_card_cancelled(final(outbox)@.last(), player_id@, *card),
{
    outbox.push(ServerToClient::CardCancelled { player_id: player_id.to_owned(), card: card.copy() });
    assert(outbox@.take(old(outbox)@.len() as int) == old(outbox)@);
}

/// Sends that `player_id` played `card`.
pub fn broadcast_card_confirmed(card: &Card, player_id: &str, outbox: &mut Vec<ServerToClient>)
    ensures
        sent(old(outbox)@, final(outbox)@, 1),
        is_card_confirmed(final(outbox)@.last(), player_id@, *card),
{
    outbox.push(ServerToClient::CardConfirmed { player_id: player_id.to_owned(), card: card.copy() });
    assert(outbox@.take(old(outbox)@.len() as int) == old(outbox)@);
}

/// Sends that `player_id` turned the room at `tile_index`, which now is
/// `tile`.
pub fn broadcast_tile_rotation(tile_index: usize, tile: &Tile, player_id: &str, outbox: &mut Vec<ServerToClient>)
    ensures
        sent(old(outbox)@, final(outbox)@, 1),
        is_tile_rotated(final(outbox)@.last(), player_id@, tile_index, *tile),
{
    outbox.push(
        ServerToClient::TileRotated { player_id: player_id.to_owned(), tile_index, tile: tile.duplicate() },
    );
    assert(outbox@.take(old(outbox)@.len() as int) == old(outbox)@);
}

/// Sends that `player_id` moved to `new_position` (moved back, when
/// `is_canceled`).
pub fn broadcast_player_moved(
    player_id: &str,
    new_position: (usize, usize),
    is_canceled: bool,
    outbox: &mut Vec<ServerToClient>,
)
    ensures
        sent(old(outbox)@, final(outbox)@, 1),
        is_player_moved(final(outbox)@.last(), player_id@, new_position, is_canceled),
{
    outbox.push(ServerToClient::PlayerMoved { player_id: player_id.to_owned(), new_position, is_canceled });
    assert(outbox@.take(old(outbox)@.len() as int) == old(outbox)@);
}

/// Sends that the rooms at the two indices were exchanged.
pub fn broadcast_tiles_swapped(tile_index_1: usize, tile_index_2: usize, outbox: &mut Vec<ServerToClient>)
    ensures
        sent(old(outbox)@, final(outbox)@, 1),
        final(outbox)@.last() == (ServerToClient::TilesSwapped { tile_index_1, tile_index_2 }),
{
    outbox.push(ServerToClient::TilesSwapped { tile_index_1, tile_index_2 });
    assert(outbox@.take(old(outbox)@.len() as int) == old(outbox)@);
}

/// Sends that `player_id` shot a fireball from `target_tile` towards
/// `direction`.
pub fn broadcast_fireball_shot(
    player_id: &str,
    target_tile: usize,
    direction: &Direction,
    outbox: &mut Vec<ServerToClient>,
)
    ensures
        sent(old(outbox)@, final(outbox)@, 1),
        is_fireball_shot(final(outbox)@.last(), player_id@, target_tile, *direction),
{
    outbox.push(
        ServerToClient::FireballShot {
            player_id: player_id.to_owned(),
            tile_index: target_tile,
            direction: *direction,
        },
    );
    assert(outbox@.take(old(outbox)@.len() as int) == old(outbox)@);
}

/// Sends what a fireball of `shooter_id` hit.
pub fn broadcast_fireball_hit_result(
    shooter_id: &str,
    target_player_id: &str,
    damage_dealt: &u32,
    monster_damage: Option<u32>,
    outbox: &mut Vec<ServerToClient>,
)
    ensures
        sent(old(outbox)@, final(outbox)@, 1),
        is_fireball_hit(final(outbox)@.last(), shooter_id@, target_player_id@, *damage_dealt, monster_damage),
{
    outbox.push(
        ServerToClient::FireballHit {
            player_id: shooter_id.to_owned(),
            target_id: target_player_id.to_owned(),
            damage_dealt: *damage_dealt,
            monster_damage,
        },
    );
    assert(outbox@.take(old(outbox)@.len() as int) == old(outbox)@);
}

/// Sends that the monster hit `player_id` for `damage_dealt`.
pub fn broadcast_player_damage_from_monster(player_id: &str, damage_dealt: u32, outbox: &mut Vec<ServerToClient>)
    ensures
        sent(old(outbox)@, final(outbox)@, 1),
        is_monster_damage(final(outbox)@.last(), player_id@, damage_dealt),
{
    outbox.push(ServerToClient::PlayerDamageFromMonster { player_id: player_id.to_owned(), damage_dealt });
    assert(outbox@.take(old(outbox)@.len() as int) == old(outbox)@);
}

/// Sends the end of the game.
pub fn broadcast_game_over(winner_ids: &[String], loser_ids: &[String], outbox: &mut Vec<ServerToClient>)
    ensures
        sent(old(outbox)@, final(outbox)@, 1),
        is_game_over(final(outbox)@.last(), names(winner_ids@), names(loser_ids@)),
{
    outbox.push(
        ServerToClient::GameOver { winner_ids: copy_names(winner_ids), loser_ids: copy_names(loser_ids) },
    );
    assert(outbox@.take(old(outbox)@.len() as int) == old(outbox)@);
}

} // verus!
