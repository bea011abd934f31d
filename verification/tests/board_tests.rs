use dungeon_cards::board::{edge_directions, entrances_from_draw, random_tiles};
use dungeon_cards::direction::Direction;
use dungeon_cards::tile::{clear_highlights, Tile};

fn room(entrances: Vec<Direction>) -> Tile {
    Tile::new(entrances)
}

/// A 5x5 board where every room opens on all four sides.
fn open_board() -> Vec<Tile> {
    let mut v = Vec::new();
    for _ in 0..25 {
        v.push(room(vec![Direction::Up, Direction::Down, Direction::Left, Direction::Right]));
    }
    v
}

/// A 5x5 board of rooms without entrances.
fn closed_board() -> Vec<Tile> {
    let mut v = Vec::new();
    for _ in 0..25 {
        v.push(room(vec![]));
    }
    v
}

#[test]
fn opposite_and_rotation() {
    assert_eq!(Direction::Up.opposite(), Direction::Down);
    assert_eq!(Direction::Left.opposite(), Direction::Right);
    assert_eq!(Direction::Up.rotated_clockwise(1), Direction::Right);
    assert_eq!(Direction::Left.rotated_clockwise(2), Direction::Right);
    assert_eq!(Direction::Down.rotated_clockwise(4), Direction::Down);
}

#[test]
fn grid_positions() {
    assert_eq!(Tile::position(0), (0, 0));
    assert_eq!(Tile::position(7), (2, 1));
    assert_eq!(Tile::position(24), (4, 4));
    assert_eq!(Tile::index(2, 1), 7);
    assert_eq!(Tile::x(13), 3);
    assert_eq!(Tile::y(13), 2);
    assert_eq!(Tile::screen_position(7, 10, 3, 4), (23, 14));
}

#[test]
fn rotate_entrances_turns_by_the_difference() {
    let mut t = room(vec![Direction::Up, Direction::Left]);
    t.rotate_entrances(1);
    assert_eq!(t.entrances, vec![Direction::Right, Direction::Up]);
    assert_eq!(t.current_rotation, 1);
    t.rotate_entrances(3);
    assert_eq!(t.entrances, vec![Direction::Left, Direction::Down]);
    assert_eq!(t.current_rotation, 3);
    // back to rotation 0 turns one more quarter
    t.rotate_entrances(0);
    assert_eq!(t.entrances, vec![Direction::Up, Direction::Left]);
    assert_eq!(t.current_rotation, 0);
}

#[test]
fn four_quarter_turns_give_the_room_back() {
    let mut t = room(vec![Direction::Down, Direction::Right]);
    for _ in 0..4 {
        t.rotate_clockwise(1);
    }
    assert_eq!(t.entrances, vec![Direction::Down, Direction::Right]);
}

#[test]
fn connection_needs_facing_entrances() {
    let a = room(vec![Direction::Right]);
    let b = room(vec![Direction::Left]);
    let c = room(vec![Direction::Up]);
    assert!(a.is_connected_in_direction(Direction::Right, &b));
    assert!(!a.is_connected_in_direction(Direction::Right, &c));
    assert!(!b.is_connected_in_direction(Direction::Left, &c));
    assert!(a.has_entrance(Direction::Right));
    assert!(!a.has_entrance(Direction::Up));
}

#[test]
fn adjacent_indices_in_order() {
    assert_eq!(Tile::get_adjacent_indices(0, false, false), vec![1, 5]);
    assert_eq!(Tile::get_adjacent_indices(0, true, true), vec![0, 1, 5, 6]);
    assert_eq!(Tile::get_adjacent_indices(12, false, false), vec![7, 11, 13, 17]);
    assert_eq!(Tile::get_adjacent_indices(12, true, false), vec![6, 7, 8, 11, 13, 16, 17, 18]);
    assert_eq!(Tile::get_adjacent_indices(24, true, true), vec![18, 19, 23, 24]);
}

#[test]
fn reachable_rooms_on_an_open_board() {
    let tiles = open_board();
    let r = tiles[12].find_reachable_tiles(12, &tiles);
    assert_eq!(r.len(), 25);
    assert_eq!(r[0], 12);
}

#[test]
fn reachable_rooms_on_a_closed_board() {
    let tiles = closed_board();
    let r = tiles[3].find_reachable_tiles(3, &tiles);
    assert_eq!(r, vec![3]);
}

#[test]
fn shortest_walk_on_an_open_board() {
    let tiles = open_board();
    let p = Tile::find_walkable_path(0, 24, &tiles).unwrap();
    assert_eq!(p.len(), 9);
    assert_eq!(p[0], 0);
    assert_eq!(p[8], 24);
    assert_eq!(Tile::find_walkable_path(6, 6, &tiles), Some(vec![6]));
}

#[test]
fn no_walk_on_a_closed_board() {
    let tiles = closed_board();
    assert_eq!(Tile::find_walkable_path(0, 1, &tiles), None);
}

#[test]
fn walk_follows_the_corridor() {
    // a corridor along the top row from 0 to 4
    let mut tiles = closed_board();
    tiles[0] = room(vec![Direction::Right]);
    for i in 1..4 {
        tiles[i] = room(vec![Direction::Left, Direction::Right]);
    }
    tiles[4] = room(vec![Direction::Left]);
    assert_eq!(Tile::find_walkable_path(0, 4, &tiles), Some(vec![0, 1, 2, 3, 4]));
    assert_eq!(Tile::find_walkable_path(4, 0, &tiles), Some(vec![4, 3, 2, 1, 0]));
    assert_eq!(Tile::find_walkable_path(0, 5, &tiles), None);
}

#[test]
fn connected_line_stops_at_walls() {
    let mut tiles = closed_board();
    tiles[10] = room(vec![Direction::Right]);
    tiles[11] = room(vec![Direction::Left, Direction::Right]);
    tiles[12] = room(vec![Direction::Left]);
    assert_eq!(Tile::find_connected_line(10, Direction::Right, &tiles, None), vec![10, 11, 12]);
    assert_eq!(Tile::find_connected_line(10, Direction::Right, &tiles, Some(1)), vec![10, 11]);
    assert_eq!(Tile::find_connected_line(10, Direction::Up, &tiles, None), vec![10]);
}

#[test]
fn fireball_walls() {
    let mut tiles = closed_board();
    tiles[10] = room(vec![Direction::Right]);
    tiles[11] = room(vec![Direction::Left]);
    assert!(!tiles[10].would_fireball_hit_wall(10, Direction::Right, &tiles));
    assert!(tiles[10].would_fireball_hit_wall(10, Direction::Left, &tiles));
    assert!(tiles[11].would_fireball_hit_wall(11, Direction::Right, &tiles));
    assert!(tiles[4].would_fireball_hit_wall(4, Direction::Up, &tiles));
}

#[test]
fn swap_with_exchanges_the_whole_state() {
    let mut a = room(vec![Direction::Up]);
    let mut b = room(vec![Direction::Down]);
    a.original_location = 3;
    b.original_location = 8;
    a.current_rotation = 1;
    b.is_highlighted = true;
    a.swap_with(&mut b);
    assert_eq!(a.entrances, vec![Direction::Down]);
    assert_eq!(b.entrances, vec![Direction::Up]);
    assert_eq!(a.original_location, 8);
    assert_eq!(b.original_location, 3);
    assert_eq!(a.current_rotation, 0);
    assert_eq!(b.current_rotation, 1);
    assert!(a.is_highlighted);
    assert!(!b.is_highlighted);
}

#[test]
fn clearing_highlights() {
    let mut tiles = open_board();
    tiles[3].is_highlighted = true;
    tiles[9].is_highlighted = true;
    clear_highlights(&mut tiles);
    assert!(tiles.iter().all(|t| !t.is_highlighted));
}

#[test]
fn edge_directions_of_corners() {
    assert_eq!(edge_directions(0), vec![Direction::Up, Direction::Left]);
    assert_eq!(edge_directions(24), vec![Direction::Down, Direction::Right]);
    assert_eq!(edge_directions(12), Vec::<Direction>::new());
}

#[test]
fn drawn_board_keeps_entrances_on_the_board() {
    let counts = vec![2usize; 25];
    let tiles = random_tiles(&counts);
    assert_eq!(tiles.len(), 25);
    for (i, t) in tiles.iter().enumerate() {
        assert_eq!(t.original_location, i);
        assert!(!t.entrances.is_empty());
        assert!(t.entrances.len() <= 2);
        let edges = edge_directions(i);
        for d in &t.entrances {
            assert!(!edges.contains(d));
        }
    }
}

#[test]
fn drawn_room_with_no_wish_gets_one_entrance() {
    let counts = vec![0usize; 25];
    let tiles = random_tiles(&counts);
    for t in &tiles {
        assert_eq!(t.entrances.len(), 1);
    }
}

#[test]
fn drawn_entrances_follow_the_shuffle() {
    // the platform's random source gives 0 off the platform, so the shuffle
    // of up, down, left, right puts down first
    let t = Tile::random(&[], 1);
    assert_eq!(t.entrances, vec![Direction::Down]);
    let all = Tile::random(&[], 4);
    assert_eq!(all.entrances, vec![Direction::Down, Direction::Left, Direction::Right, Direction::Up]);
    let edge = Tile::random(&[Direction::Up, Direction::Left], 5);
    assert_eq!(edge.entrances.len(), 2);
    assert!(!edge.entrances.contains(&Direction::Up));
}

#[test]
fn draw_keeps_the_first_shuffled_sides() {
    let shuffled = vec![Direction::Left, Direction::Up, Direction::Right];
    let allowed = vec![Direction::Up, Direction::Left, Direction::Right];
    assert_eq!(entrances_from_draw(&shuffled, &allowed, 2, 7), vec![Direction::Left, Direction::Up]);
    assert_eq!(entrances_from_draw(&shuffled, &allowed, 9, 7), shuffled);
}

#[test]
fn draw_of_no_entrance_picks_one_by_the_roll() {
    let shuffled = vec![Direction::Left, Direction::Up, Direction::Right];
    let allowed = vec![Direction::Up, Direction::Left, Direction::Right];
    assert_eq!(entrances_from_draw(&shuffled, &allowed, 0, 4), vec![Direction::Left]);
    assert_eq!(entrances_from_draw(&shuffled, &allowed, 0, 5), vec![Direction::Right]);
    assert_eq!(entrances_from_draw(&vec![], &vec![], 0, 5), Vec::<Direction>::new());
}

#[test]
fn random_room_has_its_wished_entrances() {
    let t = Tile::random(&[Direction::Up, Direction::Left], 2);
    assert_eq!(t.entrances.len(), 2);
    assert!(t.entrances.iter().all(|d| *d == Direction::Down || *d == Direction::Right));
    let one = Tile::random(&[Direction::Up], 0);
    assert_eq!(one.entrances.len(), 1);
    assert!(one.entrances[0] != Direction::Up);
}

#[test]
fn line_from_a_start_past_the_board_is_the_start() {
    let tiles = open_board();
    assert_eq!(Tile::find_connected_line(30, Direction::Down, &tiles, None), vec![30]);
    assert_eq!(Tile::find_connected_line(40, Direction::Right, &tiles, Some(3)), vec![40]);
    assert_eq!(Tile::find_connected_line(27, Direction::Up, &tiles, Some(0)), vec![27]);
    assert_eq!(Tile::find_connected_line(2, Direction::Down, &tiles, None), vec![2, 7, 12, 17, 22]);
}
