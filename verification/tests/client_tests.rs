use dungeon_cards::card::{Card, CardEffect};
use dungeon_cards::card_effect::{complete_pending_swaps, EffectAction};
use dungeon_cards::card_input::{confirm_card, handle_animated_card_complete, handle_card_cancel, pick_up_hand_card, AnimatedCardOrigin};
use dungeon_cards::client::{
    fill_with_dummies, movement_path, receive_board_state, receive_card_cancelled,
    receive_connected_users, receive_fireball_hit_result, receive_fireball_shot, receive_game_over,
    receive_player_damage_from_monster, receive_player_moved, receive_reset_game,
    receive_tile_rotation, receive_tiles_swapped, GameState,
};
use dungeon_cards::direction::Direction;
use dungeon_cards::messages::CurrentTurn;
use dungeon_cards::player::{Player, PlayerId};
use dungeon_cards::scene::Scene;
use dungeon_cards::tile::Tile;

fn open_board() -> Vec<Tile> {
    let mut v = Vec::new();
    for i in 0..25 {
        let mut t = Tile::new(vec![Direction::Up, Direction::Down, Direction::Left, Direction::Right]);
        t.original_location = i;
        v.push(t);
    }
    v
}

fn turn(user: &str) -> Option<CurrentTurn> {
    Some(CurrentTurn { player_id: user.to_string(), selected_card: None, selected_card_index: 0 })
}

/// A client of user "alice" in a game with "bob", on an open board.
fn state() -> GameState {
    let mut s = GameState::new();
    s.start_game(Some("alice".to_string()));
    receive_connected_users(&mut s, vec!["alice".to_string(), "bob".to_string()]);
    let players = vec![
        Player::new(PlayerId::Player1, 0, 0, 4, false),
        Player::new(PlayerId::Player2, 4, 4, 4, false),
    ];
    receive_board_state(&mut s, open_board(), players, None, turn("alice"));
    s
}

#[test]
fn new_state_starts_in_the_menu() {
    let s = GameState::new();
    assert!(matches!(s.scene, Scene::Menu));
    assert!(s.debug);
    assert_eq!(s.play_area.len(), 4);
    assert!(s.play_area.iter().all(|c| c.effect == CardEffect::Dummy));
    assert!(s.current_turn.is_none());
}

#[test]
fn starting_the_game_without_an_id() {
    let mut s = GameState::new();
    s.start_game(None);
    assert_eq!(s.user, "NO_ID");
    assert!(matches!(s.scene, Scene::Game));
}

#[test]
fn lobby_pairs_users_with_seats() {
    let s = state();
    assert_eq!(s.get_local_player().unwrap().id, PlayerId::Player1);
    assert_eq!(s.get_player_by_user_id("bob"), Some(1));
    assert_eq!(s.get_player_by_user_id("carol"), None);
    assert!(s.is_my_turn());
    assert_eq!(s.get_turn_player().unwrap().id, PlayerId::Player1);
}

#[test]
fn same_user_twice_plays_seat_two() {
    let mut s = GameState::new();
    receive_connected_users(&mut s, vec!["x".to_string(), "x".to_string()]);
    assert_eq!(s.user_id_to_player_id.len(), 1);
    assert_eq!(s.user_id_to_player_id[0].1, PlayerId::Player2);
}

#[test]
fn turn_change_resets_the_turn() {
    let mut s = state();
    s.swap_tiles_selected.push(3);
    s.pending_swaps.push((1, 2));
    s.selected_card = Some(Card::swap_card());
    let players = vec![Player::new(PlayerId::Player1, 0, 0, 4, false)];
    receive_board_state(&mut s, open_board(), players, None, turn("bob"));
    assert!(s.selected_card.is_none());
    assert!(s.swap_tiles_selected.is_empty());
    assert!(s.pending_swaps.is_empty());
    assert!(!s.is_my_turn());
}

#[test]
fn same_turn_keeps_the_turn_state() {
    let mut s = state();
    s.swap_tiles_selected.push(3);
    receive_board_state(&mut s, open_board(), vec![], None, turn("alice"));
    assert_eq!(s.swap_tiles_selected, vec![3]);
}

#[test]
fn own_cancel_clears_the_selection() {
    let mut s = state();
    s.selected_card = Some(Card::move_card());
    s.tiles[4].is_highlighted = true;
    receive_card_cancelled(&mut s, &Card::move_card(), "bob");
    assert!(s.selected_card.is_some());
    receive_card_cancelled(&mut s, &Card::move_card(), "alice");
    assert!(s.selected_card.is_none());
    assert!(!s.tiles[4].is_highlighted);
}

#[test]
fn other_users_moves_are_shown() {
    let s = state();
    assert!(receive_tile_rotation(&s, &3, &s.tiles[3], "bob"));
    assert!(!receive_tile_rotation(&s, &3, &s.tiles[3], "alice"));
    assert_eq!(receive_player_moved(&s, "bob", &(3, 4), false), Some((4, 4)));
    assert_eq!(receive_player_moved(&s, "alice", &(1, 0), false), None);
    assert_eq!(receive_player_moved(&s, "carol", &(1, 0), false), None);
}

#[test]
fn walk_shown_for_a_move() {
    let tiles = open_board();
    let p = movement_path((0, 0), (2, 0), &tiles);
    assert_eq!(p, vec![0, 1, 2]);
    let mut closed = Vec::new();
    for _ in 0..25 {
        closed.push(Tile::new(vec![]));
    }
    assert_eq!(movement_path((0, 0), (2, 0), &closed), vec![0, 2]);
}

#[test]
fn swaps_wait_for_their_animation() {
    let mut s = state();
    receive_tiles_swapped(&mut s, &0, &1);
    receive_tiles_swapped(&mut s, &2, &3);
    assert_eq!(s.pending_swaps, vec![(0, 1), (2, 3)]);
    complete_pending_swaps(&mut s, &vec![3]);
    assert_eq!(s.pending_swaps, vec![(2, 3)]);
    assert_eq!(s.tiles[0].original_location, 1);
    assert_eq!(s.tiles[1].original_location, 0);
    complete_pending_swaps(&mut s, &vec![]);
    assert!(s.pending_swaps.is_empty());
    assert_eq!(s.tiles[2].original_location, 3);
}

#[test]
fn fireballs_of_others_start_where_they_were_shot() {
    let mut s = state();
    assert_eq!(receive_fireball_shot(&mut s, "alice", &7, &Direction::Up), None);
    let r = receive_fireball_shot(&mut s, "bob", &7, &Direction::Up).unwrap();
    assert_eq!(r.1, (4, 4));
    assert_eq!(s.fireballs.len(), 1);
    assert_eq!(s.fireballs[0].position, (2, 1));
    assert_eq!(s.fireballs[0].damage, 10);
    assert_eq!(s.fireballs[0].shooter_id, PlayerId::Player2);
    receive_fireball_hit_result(&mut s, "bob", "alice", &1, None);
    assert_eq!(s.get_local_player().unwrap().health, 2);
    assert!(s.fireballs.is_empty());
    receive_player_damage_from_monster(&mut s, "alice", 5);
    assert_eq!(s.get_local_player().unwrap().health, 0);
}

#[test]
fn game_over_scenes() {
    let mut s = state();
    receive_game_over(&mut s, &["a".to_string(), "b".to_string()], &[]);
    match &s.scene {
        Scene::GameOver { winner_ids, loser_ids } => {
            assert_eq!(winner_ids.len(), 2);
            assert!(loser_ids.is_empty());
        }
        _ => panic!("expected the end"),
    }
    receive_game_over(&mut s, &["a".to_string()], &["b".to_string()]);
    match &s.scene {
        Scene::GameOver { winner_ids, loser_ids } => {
            assert!(winner_ids.is_empty());
            assert_eq!(loser_ids, &vec!["Error".to_string()]);
        }
        _ => panic!("expected the end"),
    }
}

#[test]
fn reset_clears_the_turn() {
    let mut s = state();
    s.selected_card = Some(Card::fire_card());
    s.pending_swaps.push((0, 1));
    receive_reset_game(&mut s);
    assert!(s.selected_card.is_none());
    assert!(s.pending_swaps.is_empty());
    assert_eq!(s.play_area.len(), 4);
}

#[test]
fn fill_cuts_or_pads() {
    let mut v = vec![Card::move_card(), Card::swap_card(), Card::fire_card()];
    fill_with_dummies(&mut v, 2);
    assert_eq!(v.len(), 2);
    assert_eq!(v[1].effect, CardEffect::SwapCard);
    fill_with_dummies(&mut v, 4);
    assert_eq!(v[3].effect, CardEffect::Dummy);
}

#[test]
fn move_effect_targets_lit_rooms() {
    let mut s = state();
    s.tiles[1].is_highlighted = true;
    let r = CardEffect::MoveOneTile.apply_effect(&mut s, 1, false, false);
    assert_eq!(r, EffectAction::MovePlayer(1, 0));
    assert_eq!(CardEffect::MoveOneTile.apply_effect(&mut s, 1, true, false), EffectAction::Nothing);
    assert_eq!(CardEffect::MoveOneTile.apply_effect(&mut s, 2, false, false), EffectAction::Nothing);
    s.tiles[0].is_highlighted = true;
    assert_eq!(CardEffect::MoveOneTile.apply_effect(&mut s, 0, false, false), EffectAction::Nothing);
}

#[test]
fn rotate_effect_needs_a_lit_idle_room() {
    let mut s = state();
    s.tiles[5].is_highlighted = true;
    assert_eq!(CardEffect::RotateCard.apply_effect(&mut s, 5, false, false), EffectAction::RotateTile(5));
    assert_eq!(CardEffect::RotateCard.apply_effect(&mut s, 5, false, true), EffectAction::Nothing);
    assert_eq!(CardEffect::RotateCard.apply_effect(&mut s, 6, false, false), EffectAction::Nothing);
    assert_eq!(CardEffect::FireCard.apply_effect(&mut s, 5, false, false), EffectAction::Nothing);
}

#[test]
fn swap_effect_picks_two_rooms() {
    let mut s = state();
    s.tiles[1].is_highlighted = true;
    s.tiles[5].is_highlighted = true;
    assert_eq!(CardEffect::SwapCard.apply_effect(&mut s, 2, false, false), EffectAction::Nothing);
    assert!(s.swap_tiles_selected.is_empty());
    assert_eq!(CardEffect::SwapCard.apply_effect(&mut s, 1, false, false), EffectAction::Nothing);
    assert_eq!(s.swap_tiles_selected, vec![1]);
    // picking it again unpicks it
    assert_eq!(CardEffect::SwapCard.apply_effect(&mut s, 1, false, false), EffectAction::Nothing);
    assert!(s.swap_tiles_selected.is_empty());
    CardEffect::SwapCard.apply_effect(&mut s, 1, false, false);
    assert_eq!(CardEffect::SwapCard.apply_effect(&mut s, 5, false, false), EffectAction::SwapTiles(1, 5));
    assert!(s.swap_tiles_selected.is_empty());
}

#[test]
fn revert_rotations_on_the_client() {
    let mut tiles = vec![Tile::new(vec![Direction::Up])];
    tiles[0].rotate_entrances(3);
    assert_eq!(tiles[0].entrances, vec![Direction::Left]);
    CardEffect::revert_tile_rotations(&mut tiles);
    assert_eq!(tiles[0].entrances, vec![Direction::Up]);
    assert_eq!(tiles[0].current_rotation, 0);
}

#[test]
fn revert_positions_sets_moves() {
    let mut s = state();
    s.tiles.swap(0, 2);
    s.tiles[1].is_highlighted = true;
    let moves = CardEffect::revert_tile_positions(&mut s);
    assert_eq!(moves, vec![(0, 2), (2, 0)]);
    assert_eq!(s.pending_swaps, vec![(0, 2), (2, 0)]);
    assert!(!s.tiles[1].is_highlighted);
}

#[test]
fn card_arriving_in_the_play_area_is_held_up() {
    let mut s = state();
    let mut card = Card::move_card();
    card.hand_index = Some(0);
    let r = handle_animated_card_complete(&mut s, card.clone(), AnimatedCardOrigin::PlayArea, 2);
    assert_eq!(r, Some(0));
    assert_eq!(s.play_area[2], card);
    assert_eq!(s.selected_card, Some(card));
    // the rooms a walk reaches from the corner light up: the whole open board
    assert!(s.tiles.iter().all(|t| t.is_highlighted));
}

#[test]
fn card_returning_to_the_hand() {
    let mut s = state();
    let r = handle_animated_card_complete(&mut s, Card::fire_card(), AnimatedCardOrigin::Hand, 0);
    assert_eq!(r, None);
    assert_eq!(s.get_local_player().unwrap().hand[0].effect, CardEffect::FireCard);
}

#[test]
fn taking_back_a_card_from_the_play_area() {
    let mut s = state();
    let mut card = Card::move_card();
    card.hand_index = Some(1);
    s.play_area[0] = card.clone();
    let (moves, slot) = handle_card_cancel(&mut s, 0, &card);
    assert!(moves.is_empty());
    assert_eq!(slot, Some(1));
    assert_eq!(s.play_area[0].effect, CardEffect::Dummy);
}

#[test]
fn confirming_returns_the_card() {
    let mut s = state();
    assert!(confirm_card(&mut s).is_none());
    s.selected_card = Some(Card::rotate_card());
    s.tiles[3].is_highlighted = true;
    let c = confirm_card(&mut s).unwrap();
    assert_eq!(c.effect, CardEffect::RotateCard);
    assert!(s.selected_card.is_none());
    assert!(!s.tiles[3].is_highlighted);
}

#[test]
fn picking_up_a_hand_card() {
    let mut s = state();
    // cards get their ids from the platform's random source
    let real = s.get_local_player().unwrap().hand[1].id != 0;
    let r = pick_up_hand_card(&mut s, 1);
    assert_eq!(r.is_some(), real);
    assert_eq!(pick_up_hand_card(&mut s, 9), None);
}

#[test]
fn movement_path_follows_the_search_order() {
    let mut tiles: Vec<Tile> = (0..25).map(|_| Tile::new(vec![])).collect();
    tiles[0] = Tile::new(vec![Direction::Right, Direction::Down]);
    tiles[1] = Tile::new(vec![Direction::Left, Direction::Down]);
    tiles[5] = Tile::new(vec![Direction::Up, Direction::Right]);
    tiles[6] = Tile::new(vec![Direction::Left, Direction::Up]);
    assert_eq!(movement_path((0, 0), (1, 1), &tiles), vec![0, 5, 6]);
}
