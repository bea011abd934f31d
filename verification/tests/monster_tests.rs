use dungeon_cards::card::{Card, CardEffect};
use dungeon_cards::direction::Direction;
use dungeon_cards::monster::{side_for_roll, Monster};
use dungeon_cards::player::{Player, PlayerId};
use dungeon_cards::tile::Tile;

/// A 5x5 board of rooms without entrances.
fn closed_board() -> Vec<Tile> {
    let mut v = Vec::new();
    for _ in 0..25 {
        v.push(Tile::new(vec![]));
    }
    v
}

/// Rooms 0, 1, 5 and 6 form a square: two shortest walks lead from 0 to 6.
fn square_board() -> Vec<Tile> {
    let mut tiles = closed_board();
    tiles[0] = Tile::new(vec![Direction::Right, Direction::Down]);
    tiles[1] = Tile::new(vec![Direction::Left, Direction::Down]);
    tiles[5] = Tile::new(vec![Direction::Up, Direction::Right]);
    tiles[6] = Tile::new(vec![Direction::Left, Direction::Up]);
    tiles
}

fn monster_at(x: usize, y: usize) -> Monster {
    let mut m = Monster::new();
    m.position = (x, y);
    m.original_position = (x, y);
    m
}

#[test]
fn search_prefers_down_before_right() {
    let tiles = square_board();
    assert_eq!(Tile::find_walkable_path(0, 6, &tiles), Some(vec![0, 5, 6]));
    assert_eq!(Tile::find_walkable_path(6, 0, &tiles), Some(vec![6, 1, 0]));
}

#[test]
fn direction_towards_takes_the_first_step_of_that_walk() {
    let tiles = square_board();
    let m = monster_at(0, 0);
    assert_eq!(m.calculate_direction_towards((1, 1), &tiles), Some(Direction::Down));
    assert_eq!(m.calculate_direction_towards((0, 0), &tiles), None);
    assert_eq!(m.calculate_direction_towards((4, 4), &tiles), None);
}

#[test]
fn no_step_past_the_board_edge() {
    let mut tiles = closed_board();
    tiles[2] = Tile::new(vec![Direction::Up, Direction::Down]);
    tiles[7] = Tile::new(vec![Direction::Up]);
    let m = monster_at(2, 0);
    assert_eq!(m.move_in_direction(Direction::Up, &tiles), None);
    assert_eq!(m.move_in_direction(Direction::Down, &tiles), Some((2, 1)));
    assert_eq!(m.move_in_direction(Direction::Left, &tiles), None);
}

#[test]
fn monster_chases_along_the_least_walk() {
    let tiles = square_board();
    let mut m = monster_at(0, 0);
    let mut players = vec![Player::new(PlayerId::Player1, 1, 1, 0, false)];
    let hit = m.take_turn(&mut players, &tiles);
    assert!(hit.is_none());
    assert_eq!(m.position, (0, 1));
    assert_eq!(m.target_player, Some(0));
}

#[test]
fn monster_waits_when_the_step_is_taken() {
    let mut tiles = closed_board();
    for i in 0..3 {
        tiles[i] = Tile::new(vec![Direction::Left, Direction::Right]);
    }
    let mut m = monster_at(0, 0);
    let mut players = vec![
        Player::new(PlayerId::Player1, 2, 0, 0, false),
        Player::new(PlayerId::Player2, 1, 0, 0, false),
    ];
    players[1].health = 0;
    let hit = m.take_turn(&mut players, &tiles);
    assert!(hit.is_none());
    assert_eq!(m.position, (0, 0));
    assert_eq!(m.target_player, Some(0));
}

#[test]
fn monster_strikes_a_touching_player() {
    let mut tiles = closed_board();
    tiles[0] = Tile::new(vec![Direction::Right]);
    tiles[1] = Tile::new(vec![Direction::Left]);
    let mut m = monster_at(0, 0);
    let mut players = vec![Player::new(PlayerId::Player1, 1, 0, 0, false)];
    let before = players[0].health;
    let hit = m.take_turn(&mut players, &tiles);
    assert_eq!(hit, Some((PlayerId::Player1, m.damage)));
    assert_eq!(players[0].health, before - m.damage);
    assert_eq!(m.position, (0, 0));
}

#[test]
fn monster_with_no_prey_steps_through_an_open_side() {
    let mut tiles = closed_board();
    tiles[12] = Tile::new(vec![Direction::Up, Direction::Right]);
    tiles[7] = Tile::new(vec![Direction::Down]);
    tiles[13] = Tile::new(vec![Direction::Left]);
    let mut m = monster_at(2, 2);
    m.target_player = Some(3);
    let mut players: Vec<Player> = Vec::new();
    let hit = m.take_turn(&mut players, &tiles);
    assert!(hit.is_none());
    assert!(m.position == (2, 1) || m.position == (3, 2));
    assert_eq!(m.target_player, None);
}

#[test]
fn walled_in_monster_stays() {
    let tiles = closed_board();
    let mut m = monster_at(2, 2);
    let mut players: Vec<Player> = Vec::new();
    m.take_turn(&mut players, &tiles);
    assert_eq!(m.position, (2, 2));
}

#[test]
fn roll_picks_a_side_modulo_their_number() {
    let sides = vec![Direction::Up, Direction::Left, Direction::Right];
    assert_eq!(side_for_roll(&sides, 0), Direction::Up);
    assert_eq!(side_for_roll(&sides, 4), Direction::Left);
    assert_eq!(side_for_roll(&sides, 8), Direction::Right);
}

#[test]
fn roll_picks_a_card_kind_modulo_four() {
    assert_eq!(Card::kind_for_roll(0), CardEffect::MoveOneTile);
    assert_eq!(Card::kind_for_roll(5), CardEffect::RotateCard);
    assert_eq!(Card::kind_for_roll(10), CardEffect::SwapCard);
    assert_eq!(Card::kind_for_roll(7), CardEffect::FireCard);
    assert_eq!(Card::of_kind(CardEffect::SwapCard).effect, CardEffect::SwapCard);
}

#[test]
fn monster_ignores_a_player_far_off_the_board() {
    let tiles = square_board();
    let mut m = monster_at(0, 0);
    let mut players = vec![Player::new(PlayerId::Player1, 3, 40, 0, false)];
    let hit = m.take_turn(&mut players, &tiles);
    assert!(hit.is_none());
    assert_eq!(m.target_player, None);
}
