use dungeon_cards::card::{Card, CardEffect};
use dungeon_cards::direction::Direction;
use dungeon_cards::handlers::{
    give_player_new_hand, handle_cancel_select_card, handle_confirm_card, handle_end_turn,
    handle_fireball_hit, handle_fireball_shot, handle_move_player, handle_rotate_tile,
    handle_select_card, handle_swap_tiles,
};
use dungeon_cards::messages::{ClientToServer, ServerToClient};
use dungeon_cards::player::PlayerId;
use dungeon_cards::server::{get_player_index, GameChannel};
use dungeon_cards::undo::sort_by_original_location;
use dungeon_cards::tile::Tile;

fn channel() -> GameChannel {
    GameChannel::new(&vec![2usize; 25])
}

fn two_player_channel() -> (GameChannel, Vec<ServerToClient>) {
    let mut ch = channel();
    let mut out = Vec::new();
    ch.on_connect("alice", &mut out);
    ch.on_connect("bob", &mut out);
    (ch, out)
}

fn entrances(ch: &GameChannel) -> Vec<Vec<Direction>> {
    ch.board_tiles.iter().map(|t| t.entrances.clone()).collect()
}

#[test]
fn new_channel_has_two_seats_and_a_monster() {
    let ch = channel();
    assert!(ch.players.is_empty());
    assert!(ch.current_turn.is_none());
    assert_eq!(ch.board_tiles.len(), 25);
    assert_eq!(ch.board_players.len(), 2);
    assert_eq!(ch.board_players[0].id, PlayerId::Player1);
    assert_eq!(ch.board_players[0].position, (0, 0));
    assert_eq!(ch.board_players[1].id, PlayerId::Player2);
    assert_eq!(ch.board_players[1].position, (4, 4));
    assert_eq!(ch.board_players[0].health, 3);
    assert_eq!(ch.board_players[0].hand.len(), 4);
    assert_eq!(ch.board_players[0].hand[0].effect, CardEffect::MoveOneTile);
    assert_eq!(ch.board_players[0].hand[3].effect, CardEffect::FireCard);
    let m = ch.board_monster.as_ref().unwrap();
    assert_eq!(m.position, (2, 2));
    assert_eq!(m.health, 5);
}

#[test]
fn first_connection_sends_users_and_board_without_turn() {
    let mut ch = channel();
    let mut out = Vec::new();
    ch.on_connect("alice", &mut out);
    assert_eq!(ch.players, vec!["alice".to_string()]);
    assert_eq!(out.len(), 2);
    match &out[0] {
        ServerToClient::ConnectedUsers { users } => assert_eq!(users, &vec!["alice".to_string()]),
        _ => panic!("expected the users"),
    }
    match &out[1] {
        ServerToClient::BoardState { current_turn, tiles, .. } => {
            assert!(current_turn.is_none());
            assert_eq!(tiles.len(), 25);
        }
        _ => panic!("expected the board"),
    }
    assert!(ch.current_turn.is_none());
}

#[test]
fn second_connection_starts_the_game() {
    let (ch, out) = two_player_channel();
    assert_eq!(ch.players, vec!["alice".to_string(), "bob".to_string()]);
    assert_eq!(ch.current_turn_index, 0);
    assert_eq!(ch.current_turn.as_ref().unwrap().player_id, "alice");
    assert_eq!(out.len(), 4);
    match &out[3] {
        ServerToClient::BoardState { current_turn, .. } => {
            assert_eq!(current_turn.as_ref().unwrap().player_id, "alice")
        }
        _ => panic!("expected the board"),
    }
}

#[test]
fn connecting_twice_keeps_one_place() {
    let mut ch = channel();
    let mut out = Vec::new();
    ch.on_connect("alice", &mut out);
    ch.on_connect("alice", &mut out);
    assert_eq!(ch.players.len(), 1);
    assert_eq!(get_player_index(&ch, "alice"), Some(0));
    assert_eq!(get_player_index(&ch, "carol"), None);
}

#[test]
fn disconnect_ends_the_game() {
    let (mut ch, _) = two_player_channel();
    let mut out = Vec::new();
    ch.on_disconnect("alice", &mut out);
    assert_eq!(ch.players, vec!["bob".to_string()]);
    assert!(ch.current_turn.is_none());
    assert_eq!(out.len(), 2);
}

#[test]
fn disconnect_of_the_player_on_turn_passes_it_on() {
    let mut ch = channel();
    let mut out = Vec::new();
    ch.on_connect("a", &mut out);
    ch.on_connect("b", &mut out);
    ch.on_connect("c", &mut out);
    ch.current_turn_index = 2;
    let mut out = Vec::new();
    ch.on_disconnect("c", &mut out);
    assert_eq!(ch.current_turn_index, 0);
    assert_eq!(ch.current_turn.as_ref().unwrap().player_id, "a");
    assert_eq!(out.len(), 2);
}

#[test]
fn select_then_cancel_returns_the_card() {
    let (mut ch, _) = two_player_channel();
    let before = ch.board_players[0].hand[1].clone();
    handle_select_card(&mut ch, "alice", 1);
    assert_eq!(ch.board_players[0].hand[1].effect, CardEffect::Dummy);
    assert_eq!(ch.current_turn.as_ref().unwrap().selected_card, Some(before.clone()));
    assert_eq!(ch.current_turn.as_ref().unwrap().selected_card_index, 1);
    let mut out = Vec::new();
    handle_cancel_select_card(&mut ch, "alice", 1, &mut out);
    assert_eq!(ch.board_players[0].hand[1], before);
    assert!(ch.current_turn.as_ref().unwrap().selected_card.is_none());
    assert_eq!(out.len(), 2);
    match &out[0] {
        ServerToClient::CardCancelled { player_id, card } => {
            assert_eq!(player_id, "alice");
            assert_eq!(card, &before);
        }
        _ => panic!("expected the cancel"),
    }
}

#[test]
fn cancel_without_a_card_does_nothing() {
    let (mut ch, _) = two_player_channel();
    let mut out = Vec::new();
    handle_cancel_select_card(&mut ch, "alice", 0, &mut out);
    assert!(out.is_empty());
}

#[test]
fn select_for_unknown_user_or_slot_does_nothing() {
    let (mut ch, _) = two_player_channel();
    handle_select_card(&mut ch, "carol", 0);
    handle_select_card(&mut ch, "alice", 9);
    assert!(ch.current_turn.as_ref().unwrap().selected_card.is_none());
    assert_eq!(ch.board_players[0].hand[0].effect, CardEffect::MoveOneTile);
}

#[test]
fn rotations_are_taken_back() {
    let (mut ch, _) = two_player_channel();
    let start = entrances(&ch);
    handle_select_card(&mut ch, "alice", 1); // the rotate card
    assert_eq!(ch.current_turn.as_ref().unwrap().selected_card.as_ref().unwrap().effect, CardEffect::RotateCard);
    let mut out = Vec::new();
    handle_rotate_tile(&mut ch, "alice", 6, &mut out);
    handle_rotate_tile(&mut ch, "alice", 6, &mut out);
    handle_rotate_tile(&mut ch, "alice", 7, &mut out);
    assert_eq!(out.len(), 3);
    assert_eq!(ch.board_tiles[6].current_rotation, 2);
    assert_eq!(ch.board_tiles[7].current_rotation, 1);
    handle_cancel_select_card(&mut ch, "alice", 1, &mut out);
    assert_eq!(entrances(&ch), start);
    assert!(ch.board_tiles.iter().all(|t| t.current_rotation == 0));
}

#[test]
fn rotating_off_the_board_does_nothing() {
    let (mut ch, _) = two_player_channel();
    let mut out = Vec::new();
    handle_rotate_tile(&mut ch, "alice", 25, &mut out);
    assert!(out.is_empty());
}

#[test]
fn swaps_are_taken_back() {
    let (mut ch, _) = two_player_channel();
    let start = entrances(&ch);
    handle_select_card(&mut ch, "alice", 2); // the swap card
    let mut out = Vec::new();
    handle_swap_tiles(&mut ch, 0, 1, &mut out);
    handle_swap_tiles(&mut ch, 1, 6, &mut out);
    assert_eq!(out.len(), 2);
    assert_eq!(ch.board_tiles[6].original_location, 0);
    handle_cancel_select_card(&mut ch, "alice", 2, &mut out);
    assert_eq!(entrances(&ch), start);
    for (i, t) in ch.board_tiles.iter().enumerate() {
        assert_eq!(t.original_location, i);
    }
}

#[test]
fn swap_off_the_board_does_nothing() {
    let (mut ch, _) = two_player_channel();
    let mut out = Vec::new();
    handle_swap_tiles(&mut ch, 0, 30, &mut out);
    assert!(out.is_empty());
}

#[test]
fn confirmed_swap_stays() {
    let (mut ch, _) = two_player_channel();
    let start = entrances(&ch);
    handle_select_card(&mut ch, "alice", 2);
    let card = ch.current_turn.as_ref().unwrap().selected_card.clone().unwrap();
    let mut out = Vec::new();
    handle_swap_tiles(&mut ch, 0, 1, &mut out);
    let mut card = card;
    card.hand_index = Some(2);
    handle_confirm_card(&mut ch, "alice", card, &mut out);
    assert!(ch.current_turn.as_ref().unwrap().selected_card.is_none());
    assert_eq!(ch.board_tiles[0].original_location, 0);
    assert_eq!(ch.board_tiles[0].entrances, start[1]);
    assert_eq!(ch.board_players[0].hand[2].effect, CardEffect::Dummy);
    // nothing left to take back
    let mut out2 = Vec::new();
    handle_cancel_select_card(&mut ch, "alice", 2, &mut out2);
    assert!(out2.is_empty());
    assert_eq!(ch.board_tiles[0].entrances, start[1]);
}

#[test]
fn moves_are_taken_back() {
    let (mut ch, _) = two_player_channel();
    handle_select_card(&mut ch, "alice", 0); // the move card
    let mut out = Vec::new();
    handle_move_player(&mut ch, "alice", (1, 0), false, &mut out);
    assert_eq!(ch.board_players[0].position, (1, 0));
    match &out[0] {
        ServerToClient::PlayerMoved { player_id, new_position, is_canceled } => {
            assert_eq!(player_id, "alice");
            assert_eq!(*new_position, (1, 0));
            assert!(!is_canceled);
        }
        _ => panic!("expected the move"),
    }
    handle_cancel_select_card(&mut ch, "alice", 0, &mut out);
    assert_eq!(ch.board_players[0].position, (0, 0));
}

#[test]
fn confirmed_move_becomes_the_new_start() {
    let (mut ch, _) = two_player_channel();
    let mut out = Vec::new();
    handle_move_player(&mut ch, "alice", (1, 0), false, &mut out);
    handle_confirm_card(&mut ch, "alice", Card::move_card(), &mut out);
    assert_eq!(ch.board_players[0].original_position, (1, 0));
}

#[test]
fn end_turn_passes_to_the_next_user() {
    let (mut ch, _) = two_player_channel();
    handle_select_card(&mut ch, "alice", 3);
    let mut out = Vec::new();
    handle_end_turn(&mut ch, "alice", &mut out);
    assert_eq!(ch.current_turn_index, 1);
    assert_eq!(ch.current_turn.as_ref().unwrap().player_id, "bob");
    // the held card was played, then the hand dealt anew
    assert_eq!(out.len(), 2);
    assert!(matches!(out[0], ServerToClient::CardConfirmed { .. }));
    assert!(matches!(out[1], ServerToClient::BoardState { .. }));
    for (k, c) in ch.board_players[0].hand.iter().enumerate() {
        assert_eq!(c.hand_index, Some(k));
    }
    let mut out = Vec::new();
    handle_end_turn(&mut ch, "bob", &mut out);
    assert_eq!(ch.current_turn.as_ref().unwrap().player_id, "alice");
    assert_eq!(out.len(), 1);
}

#[test]
fn new_hand_knows_its_slots() {
    let (mut ch, _) = two_player_channel();
    give_player_new_hand(&mut ch, "bob");
    let hand = &ch.board_players[1].hand;
    assert_eq!(hand.len(), 4);
    assert_eq!(hand[1].effect, CardEffect::RotateCard);
    assert_eq!(hand[2].hand_index, Some(2));
}

#[test]
fn fireball_shot_needs_the_turn() {
    let (mut ch, _) = two_player_channel();
    let mut out = Vec::new();
    handle_fireball_shot(&mut ch, "bob", 0, Direction::Right, &mut out);
    assert!(out.is_empty());
    handle_fireball_shot(&mut ch, "alice", 0, Direction::Right, &mut out);
    assert_eq!(out.len(), 2);
    match &out[1] {
        ServerToClient::FireballShot { player_id, tile_index, direction } => {
            assert_eq!(player_id, "alice");
            assert_eq!(*tile_index, 0);
            assert_eq!(*direction, Direction::Right);
        }
        _ => panic!("expected the shot"),
    }
}

#[test]
fn fireball_hits_the_other_player() {
    let (mut ch, _) = two_player_channel();
    let mut out = Vec::new();
    handle_fireball_hit(&mut ch, "alice", 24, Direction::Right, &mut out);
    assert_eq!(ch.board_players[1].health, 2);
    match &out[0] {
        ServerToClient::FireballHit { player_id, target_id, damage_dealt, monster_damage } => {
            assert_eq!(player_id, "alice");
            assert_eq!(target_id, "bob");
            assert_eq!(*damage_dealt, 1);
            assert!(monster_damage.is_none());
        }
        _ => panic!("expected the hit"),
    }
}

#[test]
fn fireball_spares_the_shooter_and_empty_rooms() {
    let (mut ch, _) = two_player_channel();
    let mut out = Vec::new();
    handle_fireball_hit(&mut ch, "alice", 0, Direction::Left, &mut out);
    handle_fireball_hit(&mut ch, "alice", 3, Direction::Left, &mut out);
    assert!(out.is_empty());
    assert_eq!(ch.board_players[0].health, 3);
}

#[test]
fn third_hit_kills_and_ends_the_game() {
    let (mut ch, _) = two_player_channel();
    let mut out = Vec::new();
    for _ in 0..3 {
        handle_fireball_hit(&mut ch, "alice", 24, Direction::Right, &mut out);
    }
    assert_eq!(ch.board_players[1].health, 0);
    assert_eq!(out.len(), 4);
    match &out[2] {
        ServerToClient::GameOver { winner_ids, loser_ids } => {
            assert_eq!(winner_ids, &vec!["alice".to_string()]);
            assert_eq!(loser_ids, &vec!["bob".to_string()]);
        }
        _ => panic!("expected the end"),
    }
}

#[test]
fn fireball_hurts_the_monster_and_both_win() {
    let (mut ch, _) = two_player_channel();
    let mut out = Vec::new();
    handle_fireball_hit(&mut ch, "alice", 12, Direction::Up, &mut out);
    assert_eq!(ch.board_monster.as_ref().unwrap().health, 4);
    match &out[0] {
        ServerToClient::FireballHit { target_id, damage_dealt, monster_damage, .. } => {
            assert_eq!(target_id, "monster");
            assert_eq!(*damage_dealt, 0);
            assert_eq!(*monster_damage, Some(1));
        }
        _ => panic!("expected the hit"),
    }
    for _ in 0..4 {
        handle_fireball_hit(&mut ch, "bob", 12, Direction::Up, &mut out);
    }
    assert_eq!(ch.board_monster.as_ref().unwrap().health, 0);
    match out.last().unwrap() {
        ServerToClient::GameOver { winner_ids, loser_ids } => {
            assert_eq!(winner_ids, &vec!["alice".to_string(), "bob".to_string()]);
            assert!(loser_ids.is_empty());
        }
        _ => panic!("expected the end"),
    }
}

#[test]
fn on_data_dispatches() {
    let (mut ch, _) = two_player_channel();
    let mut out = Vec::new();
    ch.on_data("alice", ClientToServer::SelectCard { hand_index: 0 }, &mut out);
    assert!(out.is_empty());
    ch.on_data("alice", ClientToServer::MovePlayer { new_position: (0, 1), is_canceled: false }, &mut out);
    assert_eq!(ch.board_players[0].position, (0, 1));
    ch.on_data("alice", ClientToServer::CancelSelectCard { hand_index: 0 }, &mut out);
    assert_eq!(ch.board_players[0].position, (0, 0));
    ch.on_data("alice", ClientToServer::EndTurn, &mut out);
    assert_eq!(ch.current_turn.as_ref().unwrap().player_id, "bob");
}

#[test]
fn user_of_a_seat() {
    let (ch, _) = two_player_channel();
    assert_eq!(ch.get_user_id(&PlayerId::Player1), Some("alice".to_string()));
    assert_eq!(ch.get_user_id(&PlayerId::Player2), Some("bob".to_string()));
    let lone = channel();
    assert_eq!(lone.get_user_id(&PlayerId::Player1), None);
}

#[test]
fn stable_sort_by_remembered_place() {
    let mut tiles = Vec::new();
    for (loc, d) in [(2usize, Direction::Up), (0, Direction::Down), (2, Direction::Left), (1, Direction::Right)] {
        let mut t = Tile::new(vec![d]);
        t.original_location = loc;
        tiles.push(t);
    }
    sort_by_original_location(&mut tiles);
    let locs: Vec<usize> = tiles.iter().map(|t| t.original_location).collect();
    assert_eq!(locs, vec![0, 1, 2, 2]);
    assert_eq!(tiles[2].entrances, vec![Direction::Up]);
    assert_eq!(tiles[3].entrances, vec![Direction::Left]);
}

#[test]
fn swapping_twice_gives_the_board_back() {
    let (mut ch, _) = two_player_channel();
    let start = entrances(&ch);
    let mut out = Vec::new();
    handle_swap_tiles(&mut ch, 3, 17, &mut out);
    handle_swap_tiles(&mut ch, 3, 17, &mut out);
    assert_eq!(entrances(&ch), start);
}

#[test]
fn dealt_hands_hold_distinct_kinds() {
    let ch = channel();
    let hand = &ch.board_players[0].hand;
    for i in 0..hand.len() {
        for j in i + 1..hand.len() {
            assert_ne!(hand[i].effect, hand[j].effect);
        }
    }
}
