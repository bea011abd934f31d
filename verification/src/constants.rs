use vstd::prelude::*;

verus! {

/// When true, firing a fireball does not use up the fire card.
pub const DEBUG_MODE: bool = false;

/// Padding between cards and around the board, in pixels.
pub const GAME_PADDING: u32 = 16;

/// The board is `MAP_SIZE` rooms wide and `MAP_SIZE` rooms tall.
pub const MAP_SIZE: usize = 5;

/// Number of rooms on the board.
pub const BOARD_TILES: usize = 25;

/// Number of cards in a hand and of slots in the play area.
pub const HAND_SIZE: usize = 4;

/// Height of one line of text, in pixels.
pub const FONT_HEIGHT: u32 = 12;

pub const GAME_BG_COLOR: u32 = 0x222222ff;
pub const PLAYER_1_COLOR: u32 = 0xaa0000ff;
pub const PLAYER_2_COLOR: u32 = 0x0000aaff;

pub const CARD_DUMMY_COLOR: u32 = 0xffffff25;
pub const CARD_FIRE_COLOR: u32 = 0x8b0000ff;
pub const CARD_SWAP_COLOR: u32 = 0xb804b8ff;
pub const CARD_MOVE_COLOR: u32 = 0x0000aaff;
pub const CARD_ROTATE_COLOR: u32 = 0x00aa00ff;
pub const CARD_HOVER_OUTLINE_COLOR: u32 = 0xffffffaa;
pub const CARD_BUTTON_A_COLOR: u32 = 0x118811ff;
pub const CARD_BUTTON_B_COLOR: u32 = 0xff2222ff;

/// Health a player starts with.
pub const PLAYER_HEALTH: u32 = 3;

/// Damage a fireball deals.
pub const FIREBALL_DAMAGE: u32 = 1;

/// Health the monster starts with.
pub const MONSTER_HEALTH: u32 = 5;

/// Damage the monster deals on contact.
pub const MONSTER_DAMAGE: u32 = 1;

} // verus!
