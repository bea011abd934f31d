use dungeon_cards::card::Card;
use dungeon_cards::client::GameState;
use dungeon_cards::layout::{
    get_card_position, get_card_sizes, get_hand_y, hovered_card_index, point_in_bounds,
    position_of_card, should_show_buttons, tile_at_point, Bounds, CardButton, CardRow,
    VISUAL_NONE,
};

#[test]
fn card_sizes() {
    // (400 - 16 * 5) / 4 = 80, limited by a fifth of the height
    assert_eq!(get_card_sizes(400, 1000), (80, 80));
    assert_eq!(get_card_sizes(400, 300), (80, 60));
}

#[test]
fn hand_sits_below_the_board() {
    assert_eq!(get_hand_y(400), 416);
    assert_eq!(get_hand_y(403), 416);
    assert_eq!(get_card_position(2, 80, 400), (16 + 2 * 96, 416));
}

#[test]
fn points_in_rectangles() {
    let b = Bounds::new(10, 20, 5, 5);
    assert!(point_in_bounds(10, 20, &b));
    assert!(point_in_bounds(14, 24, &b));
    assert!(!point_in_bounds(15, 20, &b));
    assert!(!point_in_bounds(9, 22, &b));
    let far = Bounds::new(3_000_000_000, 1, 2, 2);
    assert_eq!(far.x, 0);
}

#[test]
fn hovered_hand_card() {
    let hand = vec![Card::move_card(), Card::rotate_card(), Card::swap_card(), Card::fire_card()];
    // cards 80 wide at x = 16, 112, 208, 304 and y = 416
    assert_eq!(hovered_card_index(&hand, (20, 420), 400, 1000, 400), Some(0));
    assert_eq!(hovered_card_index(&hand, (120, 495), 400, 1000, 400), Some(1));
    assert_eq!(hovered_card_index(&hand, (100, 420), 400, 1000, 400), None);
    assert_eq!(hovered_card_index(&hand, (20, 10), 400, 1000, 400), None);
    assert_eq!(hovered_card_index(&[], (20, 420), 400, 1000, 400), None);
}

#[test]
fn card_rows() {
    let mut real = Card::move_card();
    real.id = 5;
    let cards = vec![real, Card::dummy_card()];
    let row = CardRow::new(&cards, 500, 80, 60);
    assert_eq!(row.slots.len(), 4);
    assert!(row.slots[2].card.is_none());
    assert_eq!(row.slots[0].visual_state, VISUAL_NONE);
    assert_eq!(row.get_slot_position(1), (112, 500));
    assert_eq!(row.slot_at_point(120, 510), Some(1));
    assert_eq!(row.slot_at_point(120, 499), None);
    assert_eq!(row.leftmost_card_index(true), Some(1));
    assert_eq!(row.leftmost_card_index(false), Some(0));
}

#[test]
fn leftmost_empty_slot() {
    let cards = vec![Card::dummy_card(), Card::dummy_card()];
    let row = CardRow::new(&cards, 0, 10, 10);
    assert_eq!(row.leftmost_card_index(true), Some(0));
    assert_eq!(row.leftmost_card_index(false), None);
}

#[test]
fn card_buttons() {
    let b = CardButton::new(100, 80, 60);
    assert_eq!(b.button_w, 16);
    assert_eq!(b.button_h, 16);
    assert_eq!(b.button_y, 100 + 60 - 16 - 16);
    assert_eq!(b.inset, 8);
    let p = b.get_button_positions(10, 80);
    assert_eq!(p[0], (26, 128));
    assert_eq!(p[1], (10 + 80 - 8 - 8 - 16, 128));
}

#[test]
fn buttons_show_on_the_held_real_card() {
    let mut c = Card::move_card();
    c.id = 7;
    let other = Card::swap_card();
    assert!(should_show_buttons(&c, Some(&c.clone())));
    assert!(!should_show_buttons(&c, Some(&other)));
    assert!(!should_show_buttons(&c, None));
    let empty = Card::dummy_card();
    assert!(!should_show_buttons(&empty, Some(&empty.clone())));
}

#[test]
fn board_layout() {
    let s = GameState::new();
    assert_eq!(s.get_board_layout(false, 400, 700), (400, 700, 80, 0, 0));
    assert_eq!(s.get_board_layout(true, 400, 700), (368, 700, 73, 2, 0));
}

#[test]
fn room_under_the_pointer() {
    assert_eq!(tile_at_point(25, 5, 5, 10, 0, 0), Some(0));
    assert_eq!(tile_at_point(25, 15, 25, 10, 0, 0), Some(11));
    assert_eq!(tile_at_point(25, 55, 5, 10, 0, 0), None);
}

#[test]
fn finding_a_card() {
    let cards = vec![Card::dummy_card(), Card::swap_card()];
    assert_eq!(position_of_card(&cards, &Card::swap_card()), Some(1));
    assert_eq!(position_of_card(&cards, &Card::fire_card()), None);
}
