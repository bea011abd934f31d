use vstd::prelude::*;

use crate::card::{card_eq, Card};
use crate::client::GameState;
use crate::constants::{GAME_PADDING, HAND_SIZE, MAP_SIZE};
use crate::messages::same_card_opt;

verus! {

/// A card shown as it is: not hovered, not held up, not empty.
pub const VISUAL_NONE: u8 = 0;
/// The pointer is over the card.
pub const VISUAL_HOVERED: u8 = 1;
/// The card is held up.
pub const VISUAL_SELECTED: u8 = 2;
/// The slot is empty.
pub const VISUAL_DUMMY: u8 = 4;

/// A rectangle of the screen: its top left corner and its size.
#[derive(Debug, Clone, Copy, PartialEq, Eq, Structural)]
pub struct Bounds {
    pub x: i32,
    pub y: i32,
    pub w: u32,
    pub h: u32,
}

/// A screen coordinate as a signed number: coordinates too large for it
/// become 0.
pub open spec fn coord(v: u32) -> i32 {
    if v <= i32::MAX {
        v as i32
    } else {
        0
    }
}

impl Bounds {
    /// The rectangle at `x`, `y` of width `w` and height `h`; a corner
    /// coordinate too large for a signed number becomes 0.
    pub fn new(x: u32, y: u32, w: u32, h: u32) -> (b: Bounds)
        ensures
            b == (Bounds { x: coord(x), y: coord(y), w, h }),
    {
        let bx: i32 = if x <= 2147483647 {
            x as i32
        } else {
            0
        };
        let by: i32 = if y <= 2147483647 {
            y as i32
        } else {
            0
        };
        Bounds { x: bx, y: by, w, h }
    }
}

/// The right and bottom edges of the rectangle, just outside it, fit a
/// signed number.
pub open spec fn edges_fit(b: Bounds) -> bool {
    &&& i32::MIN <= b.x + (b.w as i32) <= i32::MAX
    &&& i32::MIN <= b.y + (b.h as i32) <= i32::MAX
}

/// Whether the point `x`, `y` lies inside the rectangle.
pub fn point_in_bounds(x: i32, y: i32, bounds: &Bounds) -> (r: bool)
    requires
        edges_fit(*bounds),
    ensures
        r == (x >= bounds.x && x < bounds.x + (bounds.w as i32) && y >= bounds.y && y < bounds.y + (bounds.h
            as i32)),
{
    let bx = bounds.x;
    let by = bounds.y;
    let bw = bounds.w as i32;
    let bh = bounds.h as i32;
    x >= bx && x < bx + bw && y >= by && y < by + bh
}

/// Width of a card: the hand's cards share the canvas width with padding
/// around each.
pub open spec fn card_w(canvas_width: u32) -> u32 {
    ((canvas_width - GAME_PADDING * (HAND_SIZE + 1)) / (HAND_SIZE as int)) as u32
}

/// Height of a card: no more than its width nor than a fifth of the canvas.
pub open spec fn card_h(canvas_width: u32, canvas_height: u32) -> u32 {
    if card_w(canvas_width) <= canvas_height / 5 {
        card_w(canvas_width)
    } else {
        canvas_height / 5
    }
}

/// Width and height of a card on a canvas of the given size (see `card_w`
/// and `card_h`).
pub fn get_card_sizes(canvas_width: u32, canvas_height: u32) -> (r: (u32, u32))
    requires
        canvas_width >= GAME_PADDING * (HAND_SIZE + 1),
    ensures
        r == (card_w(canvas_width), card_h(canvas_width, canvas_height)),
{
    let card_width = (canvas_width - GAME_PADDING * ((HAND_SIZE as u32) + 1)) / (HAND_SIZE as u32);
    let card_height = if card_width <= canvas_height / 5 {
        card_width
    } else {
        canvas_height / 5
    };
    (card_width, card_height)
}

/// Top of the hand on a screen `screen_width` wide: just below the board,
/// which fills the width with square rooms, and its padding.
pub fn get_hand_y(screen_width: u32) -> (r: u32)
    requires
        (screen_width / 5) * 5 + GAME_PADDING <= u32::MAX,
    ensures
        r == (screen_width / 5) * 5 + GAME_PADDING,
{
    let tile_size = screen_width / (MAP_SIZE as u32);
    tile_size * (MAP_SIZE as u32) + GAME_PADDING
}

/// Left edge of the card in slot `index` of a row of cards `card_width`
/// wide.
pub open spec fn slot_x(index: usize, card_width: u32) -> int {
    GAME_PADDING + (index as u32) * (card_width + GAME_PADDING)
}

/// The left edge of slot `index` can be computed.
pub open spec fn slot_fits(index: usize, card_width: u32) -> bool {
    card_width + GAME_PADDING <= u32::MAX && slot_x(index, card_width) <= u32::MAX
}

/// Top left corner of the hand card in slot `index`.
pub fn get_card_position(index: usize, card_width: u32, screen_width: u32) -> (r: (u32, u32))
    requires
        slot_fits(index, card_width),
        (screen_width / 5) * 5 + GAME_PADDING <= u32::MAX,
    ensures
        r.0 == slot_x(index, card_width),
        r.1 == (screen_width / 5) * 5 + GAME_PADDING,
{
    let x = GAME_PADDING + (index as u32) * (card_width + GAME_PADDING);
    let y = get_hand_y(screen_width);
    (x, y)
}

/// The screen rectangle of hand slot `i`.
pub open spec fn hand_card_bounds(i: int, card_width: u32, card_height: u32, screen_width: u32) -> Bounds {
    Bounds {
        x: coord(slot_x(i as usize, card_width) as u32),
        y: coord(((screen_width / 5) * 5 + GAME_PADDING) as u32),
        w: card_width,
        h: card_height,
    }
}

/// The point lies inside the rectangle.
pub open spec fn inside(x: i32, y: i32, b: Bounds) -> bool {
    x >= b.x && x < b.x + (b.w as i32) && y >= b.y && y < b.y + (b.h as i32)
}

/// Every card rectangle of a hand of `n` cards can be tested.
pub open spec fn hand_fits(n: int, card_width: u32, card_height: u32, screen_width: u32) -> bool {
    &&& (screen_width / 5) * 5 + GAME_PADDING <= u32::MAX
    &&& forall|i: int|
        0 <= i < n ==> slot_fits(i as usize, card_width) && #[trigger] edges_fit(
            hand_card_bounds(i, card_width, card_height, screen_width),
        )
}

/// The hand card under the pointer: the first slot whose card rectangle
/// holds the pointer, if any.
pub fn hovered_card_index(
    hand: &[Card],
    mouse_xy: (i32, i32),
    canvas_width: u32,
    canvas_height: u32,
    screen_width: u32,
) -> (r: Option<usize>)
    requires
        canvas_width >= GAME_PADDING * (HAND_SIZE + 1),
        hand_fits(hand@.len() as int, card_w(canvas_width), card_h(canvas_width, canvas_height), screen_width),
    ensures
        ({
            let w = card_w(canvas_width);
            let h = card_h(canvas_width, canvas_height);
            match r {
                Some(i) => {
                    &&& i < hand@.len()
                    &&& inside(mouse_xy.0, mouse_xy.1, hand_card_bounds(i as int, w, h, screen_width))
                    &&& forall|j: int| 0 <= j < i ==> !inside(mouse_xy.0, mouse_xy.1, #[trigger] hand_card_bounds(j, w, h, screen_width))
                },
                None => forall|j: int| 0 <= j < hand@.len() ==> !inside(mouse_xy.0, mouse_xy.1, #[trigger] hand_card_bounds(j, w, h, screen_width)),
            }
        }),
{
    if hand.len() == 0 {
        return None;
    }
    let (card_width, card_height) = get_card_sizes(canvas_width, canvas_height);
    let mx = mouse_xy.0;
    let my = mouse_xy.1;
    let mut i: usize = 0;
    while i < hand.len()
        invariant
            i <= hand@.len(),
            card_width == card_w(canvas_width),
            card_height == card_h(canvas_width, canvas_height),
            mx == mouse_xy.0,
            my == mouse_xy.1,
            hand_fits(hand@.len() as int, card_width, card_height, screen_width),
            forall|j: int| 0 <= j < i ==> !inside(mx, my, #[trigger] hand_card_bounds(j, card_width, card_height, screen_width)),
        decreases hand@.len() - i,
    {
        assert(edges_fit(hand_card_bounds(i as int, card_width, card_height, screen_width)));
        let (x, y) = get_card_position(i, card_width, screen_width);
        let bounds = Bounds::new(x, y, card_width, card_height);
        assert(bounds == hand_card_bounds(i as int, card_width, card_height, screen_width));
        if point_in_bounds(mx, my, &bounds) {
            return Some(i);
        }
        i += 1;
    }
    None
}

/// A place for a card in a row, and how it is shown (a combination of the
/// `VISUAL_` flags).
#[derive(Debug)]
pub struct CardSlot {
    pub card: Option<Card>,
    pub visual_state: u8,
}

/// A row of card slots, such as the hand or the play area.
#[derive(Debug)]
pub struct CardRow {
    pub slots: Vec<CardSlot>,
    pub y: u32,
    pub card_width: u32,
    pub card_height: u32,
}

impl CardRow {
    /// A row of `HAND_SIZE` slots at height `y` holding copies of the first
    /// cards of `cards`, the rest empty, all shown plainly.
    pub fn new(cards: &[Card], y: u32, card_width: u32, card_height: u32) -> (row: CardRow)
        ensures
            row.y == y,
            row.card_width == card_width,
            row.card_height == card_height,
            row.slots@.len() == HAND_SIZE,
            forall|i: int|
                0 <= i < HAND_SIZE ==> {
                    &&& (#[trigger] row.slots@[i]).visual_state == VISUAL_NONE
                    &&& same_card_opt(row.slots@[i].card, if i < cards@.len() {
                        Some(cards@[i])
                    } else {
                        None
                    })
                },
    {
        let mut slots: Vec<CardSlot> = Vec::new();
        let mut i: usize = 0;
        while i < HAND_SIZE
            invariant
                i <= HAND_SIZE,
                slots@.len() == i,
                forall|k: int|
                    0 <= k < i ==> {
                        &&& (#[trigger] slots@[k]).visual_state == VISUAL_NONE
                        &&& same_card_opt(slots@[k].card, if k < cards@.len() {
                            Some(cards@[k])
                        } else {
                            None
                        })
                    },
            decreases HAND_SIZE - i,
        {
            let card = if i < cards.len() {
                Some(cards[i].copy())
            } else {
                None
            };
            slots.push(CardSlot { card, visual_state: VISUAL_NONE });
            i += 1;
        }
        CardRow { slots, y, card_width, card_height }
    }

    /// Top left corner of slot `index`.
    pub fn get_slot_position(&self, index: usize) -> (r: (u32, u32))
        requires
            slot_fits(index, self.card_width),
        ensures
            r.0 == slot_x(index, self.card_width),
            r.1 == self.y,
    {
        let x = GAME_PADDING + (index as u32) * (self.card_width + GAME_PADDING);
        (x, self.y)
    }

    /// The screen rectangle of slot `i`.
    pub open spec fn slot_bounds(&self, i: int) -> Bounds {
        Bounds { x: coord(slot_x(i as usize, self.card_width) as u32), y: coord(self.y), w: self.card_width, h: self.card_height }
    }

    /// Every slot rectangle can be tested.
    pub open spec fn fits(&self) -> bool {
        forall|i: int|
            0 <= i < self.slots@.len() ==> slot_fits(i as usize, self.card_width) && #[trigger] edges_fit(
                self.slot_bounds(i),
            )
    }

    /// The slot under the point `px`, `py`: the first one whose rectangle
    /// holds it, if any.
    pub fn slot_at_point(&self, px: i32, py: i32) -> (r: Option<usize>)
        requires
            self.fits(),
        ensures
            match r {
                Some(i) => {
                    &&& i < self.slots@.len()
                    &&& inside(px, py, self.slot_bounds(i as int))
                    &&& forall|j: int| 0 <= j < i ==> !inside(px, py, #[trigger] self.slot_bounds(j))
                },
                None => forall|j: int| 0 <= j < self.slots@.len() ==> !inside(px, py, #[trigger] self.slot_bounds(j)),
            },
    {
        let mut i: usize = 0;
        while i < self.slots.len()
            invariant
                i <= self.slots@.len(),
                self.fits(),
                forall|j: int| 0 <= j < i ==> !inside(px, py, #[trigger] self.slot_bounds(j)),
            decreases self.slots@.len() - i,
        {
            assert(edges_fit(self.slot_bounds(i as int)));
            let (x, y) = self.get_slot_position(i);
            let bounds = Bounds::new(x, y, self.card_width, self.card_height);
            if point_in_bounds(px, py, &bounds) {
                return Some(i);
            }
            i += 1;
        }
        None
    }

    /// Slot `i` holds a card that is empty exactly when `dummy`.
    pub open spec fn holds_kind(&self, i: int, dummy: bool) -> bool {
        self.slots@[i].card matches Some(c) && (c.id == 0) == dummy
    }

    /// The first slot holding an empty card (when `dummy`) or a real card
    /// (otherwise), if any.
    pub fn leftmost_card_index(&self, dummy: bool) -> (r: Option<usize>)
        ensures
            match r {
                Some(i) => i < self.slots@.len() && self.holds_kind(i as int, dummy) && forall|j: int|
                    0 <= j < i ==> !#[trigger] self.holds_kind(j, dummy),
                None => forall|j: int| 0 <= j < self.slots@.len() ==> !#[trigger] self.holds_kind(j, dummy),
            },
    {
        let mut i: usize = 0;
        while i < self.slots.len()
            invariant
                i <= self.slots@.len(),
                forall|j: int| 0 <= j < i ==> !#[trigger] self.holds_kind(j, dummy),
            decreases self.slots@.len() - i,
        {
            let hit = match &self.slots[i].card {
                Some(c) => c.is_dummy() == dummy,
                None => false,
            };
            if hit {
                return Some(i);
            }
            i += 1;
        }
        None
    }
}

/// Where the two buttons of a card held up go.
#[derive(Debug, Clone, Copy, PartialEq, Eq, Structural)]
pub struct CardButton {
    pub button_w: u32,
    pub button_h: u32,
    pub button_y: u32,
    pub inset: u32,
}

impl CardButton {
    /// The square buttons of a card at height `card_y`, `card_w` wide and
    /// `card_h` tall: side by side at the bottom of the card.
    pub fn new(card_y: u32, card_w: u32, card_h: u32) -> (b: CardButton)
        requires
            card_w >= GAME_PADDING * 3,
            card_y + card_h <= u32::MAX,
            card_y + card_h >= GAME_PADDING + (card_w - GAME_PADDING * 3) / 2,
        ensures
            b.inset == GAME_PADDING / 2,
            b.button_w == (card_w - GAME_PADDING * 3) / 2,
            b.button_h == b.button_w,
            b.button_y == card_y + card_h - GAME_PADDING - b.button_h,
    {
        let inset = GAME_PADDING / 2;
        let button_w = (card_w - GAME_PADDING * 3) / 2;
        let button_h = button_w;
        let button_y = card_y + card_h - GAME_PADDING - button_h;
        CardButton { button_w, button_h, button_y, inset }
    }

    /// Top left corners of the two buttons of the card at `card_x`, `card_w`
    /// wide: the cancel button on the left, the confirm button on the right.
    pub fn get_button_positions(&self, card_x: u32, card_w: u32) -> (r: [(u32, u32); 2])
        requires
            card_x + self.inset + GAME_PADDING / 2 <= u32::MAX,
            card_x + card_w <= u32::MAX,
            card_x + card_w >= self.inset + GAME_PADDING / 2 + self.button_w,
        ensures
            r@[0] == ((card_x + self.inset + GAME_PADDING / 2) as u32, self.button_y),
            r@[1] == ((card_x + card_w - self.inset - GAME_PADDING / 2 - self.button_w) as u32, self.button_y),
    {
        let button_a_x = card_x + self.inset + GAME_PADDING / 2;
        let button_b_x = card_x + card_w - self.inset - GAME_PADDING / 2 - self.button_w;
        [(button_a_x, self.button_y), (button_b_x, self.button_y)]
    }
}

/// A card shows its buttons when it is a real card and it is the card held
/// up.
pub fn should_show_buttons(card: &Card, selected_card: Option<&Card>) -> (r: bool)
    ensures
        r == (card.id != 0 && (selected_card matches Some(s) && card_eq(*s, *card))),
{
    !card.is_dummy() && match selected_card {
        Some(selected) => selected.eq(card),
        None => false,
    }
}

impl GameState {
    /// The board's layout on a screen of the given size, as canvas width,
    /// canvas height, room size and the board's left and top offsets: the
    /// canvas is the screen less the padding on both sides when `padded`,
    /// five square rooms fill its width, and the board is centered.
    pub fn get_board_layout(&self, padded: bool, screen_width: u32, screen_height: u32) -> (r: (u32, u32, u32, u32, u32))
        requires
            padded ==> screen_width >= GAME_PADDING * 2,
        ensures
            r.0 == screen_width - if padded {
                GAME_PADDING * 2
            } else {
                0
            },
            r.1 == screen_height,
            r.2 == r.0 / 5,
            r.3 == r.0 / 2 - (r.2 * 5) / 2,
            r.4 == 0,
    {
        let canvas_width = screen_width - if padded {
            GAME_PADDING * 2
        } else {
            0
        };
        let canvas_height = screen_height;
        let tile_size = canvas_width / (MAP_SIZE as u32);
        assert(tile_size * 5 <= canvas_width) by (nonlinear_arith)
            requires
                tile_size == canvas_width / 5,
        ;
        let offset_x = canvas_width / 2 - (tile_size * (MAP_SIZE as u32)) / 2;
        let offset_y: u32 = 0;
        (canvas_width, canvas_height, tile_size, offset_x, offset_y)
    }
}

/// The screen rectangle of the room at board index `i`.
pub open spec fn tile_bounds(i: int, tile_size: u32, offset_x: u32, offset_y: u32) -> Bounds {
    Bounds {
        x: coord((offset_x + crate::tile::grid_x(i) * tile_size) as u32),
        y: coord((offset_y + crate::tile::grid_y(i) * tile_size) as u32),
        w: tile_size,
        h: tile_size,
    }
}

/// Every room rectangle of a board of `n` rooms can be computed and tested.
pub open spec fn board_fits(n: int, tile_size: u32, offset_x: u32, offset_y: u32) -> bool {
    forall|i: int|
        0 <= i < n ==> {
            &&& offset_x + crate::tile::grid_x(i) * tile_size <= u32::MAX
            &&& offset_y + crate::tile::grid_y(i) * tile_size <= u32::MAX
            &&& #[trigger] edges_fit(tile_bounds(i, tile_size, offset_x, offset_y))
        }
}

/// The room under the point `px`, `py` on a board of `tile_count` rooms:
/// the first whose rectangle holds it, if any.
pub fn tile_at_point(tile_count: usize, px: i32, py: i32, tile_size: u32, offset_x: u32, offset_y: u32) -> (r: Option<usize>)
    requires
        board_fits(tile_count as int, tile_size, offset_x, offset_y),
    ensures
        match r {
            Some(i) => {
                &&& i < tile_count
                &&& inside(px, py, tile_bounds(i as int, tile_size, offset_x, offset_y))
                &&& forall|j: int| 0 <= j < i ==> !inside(px, py, #[trigger] tile_bounds(j, tile_size, offset_x, offset_y))
            },
            None => forall|j: int| 0 <= j < tile_count ==> !inside(px, py, #[trigger] tile_bounds(j, tile_size, offset_x, offset_y)),
        },
{
    let mut i: usize = 0;
    while i < tile_count
        invariant
            i <= tile_count,
            board_fits(tile_count as int, tile_size, offset_x, offset_y),
            forall|j: int| 0 <= j < i ==> !inside(px, py, #[trigger] tile_bounds(j, tile_size, offset_x, offset_y)),
        decreases tile_count - i,
    {
        assert(edges_fit(tile_bounds(i as int, tile_size, offset_x, offset_y)));
        let (tx, ty) = crate::tile::Tile::screen_position(i, tile_size, offset_x, offset_y);
        let bounds = Bounds::new(tx, ty, tile_size, tile_size);
        if point_in_bounds(px, py, &bounds) {
            return Some(i);
        }
        i += 1;
    }
    None
}

/// The first place of a card equal to `card`, if any.
pub fn position_of_card(cards: &[Card], card: &Card) -> (r: Option<usize>)
    ensures
        match r {
            Some(i) => i < cards@.len() && card_eq(cards@[i as int], *card) && forall|j: int|
                0 <= j < i ==> !card_eq(#[trigger] cards@[j], *card),
            None => forall|j: int| 0 <= j < cards@.len() ==> !card_eq(#[trigger] cards@[j], *card),
        },
{
    let mut i: usize = 0;
    while i < cards.len()
        invariant
            i <= cards@.len(),
            forall|j: int| 0 <= j < i ==> !card_eq(#[trigger] cards@[j], *card),
        decreases cards@.len() - i,
    {
        if cards[i].eq(card) {
            return Some(i);
        }
        i += 1;
    }
    None
}

/// Whether the rectangle `x2`, `y2`, `w2`, `h2` overlaps the inside of the
/// rectangle `x1`, `y1`, `w1`, `h1` once a border `border` wide is taken off
/// each of its sides.
pub fn rects_intersect_outline_to_inner(
    x1: u32,
    y1: u32,
    w1: u32,
    h1: u32,
    x2: u32,
    y2: u32,
    w2: u32,
    h2: u32,
    border: u32,
) -> (r: bool)
    ensures
        ({
            let iw = if w1 >= 2 * border { w1 - 2 * border } else { 0 };
            let ih = if h1 >= 2 * border { h1 - 2 * border } else { 0 };
            let ix = x1 + border;
            let iy = y1 + border;
            r == (iw > 0 && ih > 0 && x2 < ix + iw && x2 + w2 > ix && y2 < iy + ih && y2 + h2 > iy)
        }),
{
    let b = border as u64;
    let iw: u64 = if w1 as u64 >= 2 * b { w1 as u64 - 2 * b } else { 0 };
    let ih: u64 = if h1 as u64 >= 2 * b { h1 as u64 - 2 * b } else { 0 };
    let ix = x1 as u64 + b;
    let iy = y1 as u64 + b;
    iw > 0 && ih > 0 && (x2 as u64) < ix + iw && (x2 as u64) + (w2 as u64) > ix && (y2 as u64) < iy + ih && (y2 as u64)
        + (h2 as u64) > iy
}

} // verus!
