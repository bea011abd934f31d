use vstd::prelude::*;

use crate::board::{allowed_sides, edge_sides, fits_draw, inner_sides, lemma_allowed_edges_inner, lemma_sides_contain};
use crate::card::{card_eq, CardEffect};
use crate::constants::BOARD_TILES;
use crate::direction::{lemma_rotation_composes, opposite, rotated, Direction};
use crate::handlers::{cancels_card, moves_player, plays_card, rotates_tile, selects_card, swaps_tiles};
use crate::messages::ServerToClient;
use crate::player::is_dealt_hand;
use crate::server::GameChannel;
use crate::effects::lit_by;
use crate::monster::{lemma_nearest_choice, nearest_choice, on_board, pos_index, turn_outcome, Monster};
use crate::handlers::{after_hit, lands_fireball};
use crate::player::Player;
use crate::tile::{has_entrance, connects, is_walk, lemma_turns_cancel, neighbor, reachable, step, step_to, Tile};
use crate::undo::{swapped, turned, turns_between};

verus! {

/// Turning entrances by `a` and then by `b` quarter turns turns them by
/// `a + b`.
pub proof fn lemma_turned_compose(e: Seq<Direction>, a: int, b: int)
    requires
        a >= 0,
        b >= 0,
    ensures
        turned(turned(e, a), b) == turned(e, a + b),
{
    assert forall|k: int| 0 <= k < e.len() implies #[trigger] turned(turned(e, a), b)[k] == turned(e, a + b)[k] by {
        lemma_rotation_composes(e[k], a, b);
    }
    assert(turned(turned(e, a), b) =~= turned(e, a + b));
}

/// Whole turns give the entrances back.
pub proof fn lemma_turned_whole(e: Seq<Direction>, n: int)
    requires
        n >= 0,
        n % 4 == 0,
    ensures
        turned(e, n) == e,
{
    assert forall|k: int| 0 <= k < e.len() implies #[trigger] turned(e, n)[k] == e[k] by {
        lemma_turns_cancel(e[k], n, 0);
        assert(rotated(e[k], 0) == e[k]);
    }
    assert(turned(e, n) =~= e);
}

/// Four quarter turns give a room its entrances back.
pub proof fn law_four_quarter_turns(e: Seq<Direction>)
    ensures
        turned(turned(turned(turned(e, 1), 1), 1), 1) == e,
{
    lemma_turned_compose(e, 1, 1);
    lemma_turned_compose(e, 2, 1);
    lemma_turned_compose(e, 3, 1);
    lemma_turned_whole(e, 4);
}

/// Room `b` is room `a` turned some number of quarter turns, the remembered
/// rotation and place untouched.
pub open spec fn turned_from(a: Tile, b: Tile) -> bool {
    exists|n: nat|
        {
            &&& #[trigger] turned(a.entrances@, n as int) == b.entrances@
            &&& b.current_rotation == (a.current_rotation + n) % 4
            &&& b.original_rotation == a.original_rotation
            &&& b.original_location == a.original_location
        }
}

/// Turning a room a quarter turn more keeps it a turned copy of where it
/// started.
pub proof fn law_turns_accumulate(a: Tile, b: Tile, c: Tile)
    requires
        turned_from(a, b),
        c.entrances@ == turned(b.entrances@, 1),
        c.current_rotation == (b.current_rotation + 1) % 4,
        c.original_rotation == b.original_rotation,
        c.original_location == b.original_location,
    ensures
        turned_from(a, c),
{
    let n = choose|n: nat|
        {
            &&& #[trigger] turned(a.entrances@, n as int) == b.entrances@
            &&& b.current_rotation == (a.current_rotation + n) % 4
            &&& b.original_rotation == a.original_rotation
            &&& b.original_location == a.original_location
        };
    lemma_turned_compose(a.entrances@, n as int, 1);
    assert(turned(a.entrances@, (n + 1) as nat as int) == c.entrances@);
    assert(c.current_rotation == (a.current_rotation + (n + 1) as nat) % 4);
}

/// Taking back a rotation card gives every room turned since the card was
/// played (when its rotation was remembered) its entrances and rotation
/// back.
pub proof fn law_rotation_taken_back(a: Tile, b: Tile, c: Tile)
    requires
        a.current_rotation == a.original_rotation,
        a.current_rotation < 4,
        turned_from(a, b),
        c.entrances@ == turned(b.entrances@, turns_between(b.current_rotation as int, b.original_rotation as int)),
        c.current_rotation == b.original_rotation,
    ensures
        c.entrances@ == a.entrances@,
        c.current_rotation == a.current_rotation,
{
    let n = choose|n: nat|
        {
            &&& #[trigger] turned(a.entrances@, n as int) == b.entrances@
            &&& b.current_rotation == (a.current_rotation + n) % 4
            &&& b.original_rotation == a.original_rotation
            &&& b.original_location == a.original_location
        };
    let o = a.original_rotation as int;
    let k = turns_between(b.current_rotation as int, o);
    assert((n + k) % 4 == 0 && k >= 0) by (nonlinear_arith)
        requires
            0 <= o < 4,
            b.current_rotation == (o + n) % 4,
            k == (4 + o - b.current_rotation) % 4,
            n >= 0,
    ;
    lemma_turned_compose(a.entrances@, n as int, k);
    lemma_turned_whole(a.entrances@, n + k);
}

/// On a game whose rooms all stand at their remembered rotation, a room
/// turned by a user and then taken back with the rotation card held up
/// gets its entrances and rotation back, and so does every other room.
pub proof fn law_rotate_then_cancel(
    a: GameChannel,
    b: GameChannel,
    c: GameChannel,
    u: Seq<char>,
    tile_index: usize,
    hand_index: usize,
    oa: Seq<ServerToClient>,
    ob: Seq<ServerToClient>,
    oc: Seq<ServerToClient>,
)
    requires
        a.wf(),
        forall|i: int| 0 <= i < a.board_tiles@.len() ==> (#[trigger] a.board_tiles@[i]).current_rotation == a.board_tiles@[i].original_rotation,
        rotates_tile(a, b, u, tile_index, oa, ob),
        b.current_turn matches Some(t) && (t.selected_card matches Some(card) && card.effect == CardEffect::RotateCard),
        cancels_card(b, c, u, hand_index, ob, oc),
    ensures
        c.board_tiles@.len() == a.board_tiles@.len(),
        forall|i: int|
            0 <= i < a.board_tiles@.len() ==> (#[trigger] c.board_tiles@[i]).entrances@ == a.board_tiles@[i].entrances@
                && c.board_tiles@[i].current_rotation == a.board_tiles@[i].current_rotation,
{
    assert forall|i: int| 0 <= i < a.board_tiles@.len() implies (#[trigger] c.board_tiles@[i]).entrances@
        == a.board_tiles@[i].entrances@ && c.board_tiles@[i].current_rotation == a.board_tiles@[i].current_rotation by {
        let ta = a.board_tiles@[i];
        let tb = b.board_tiles@[i];
        if i == tile_index {
            lemma_turned_whole(ta.entrances@, 0);
            assert(turned(ta.entrances@, 0nat as int) == ta.entrances@);
            assert(turned_from(ta, ta));
            law_turns_accumulate(ta, ta, tb);
        } else {
            lemma_turned_whole(ta.entrances@, 0);
            assert(turned(ta.entrances@, 0nat as int) == tb.entrances@);
            assert(turned_from(ta, tb));
        }
        law_rotation_taken_back(ta, tb, c.board_tiles@[i]);
    }
}

/// Exchanging the same two rooms twice gives the board back.
pub proof fn law_swap_twice(tiles: Seq<Tile>, i: int, j: int)
    requires
        0 <= i < tiles.len(),
        0 <= j < tiles.len(),
    ensures
        swapped(swapped(tiles, i, j), i, j) == tiles,
{
    assert(swapped(swapped(tiles, i, j), i, j) =~= tiles);
}

/// A user exchanging the same two rooms twice gives the board back.
pub proof fn law_swap_request_twice(
    a: GameChannel,
    b: GameChannel,
    c: GameChannel,
    i: usize,
    j: usize,
    oa: Seq<ServerToClient>,
    ob: Seq<ServerToClient>,
    oc: Seq<ServerToClient>,
)
    requires
        swaps_tiles(a, b, i, j, oa, ob),
        swaps_tiles(b, c, i, j, ob, oc),
    ensures
        c.board_tiles@ == a.board_tiles@,
{
    if i < a.board_tiles@.len() && j < a.board_tiles@.len() {
        law_swap_twice(a.board_tiles@, i as int, j as int);
    }
}

/// A card a user holds up and then takes back returns to the hand slot it
/// came from, and the turn holds no card any more.
pub proof fn law_select_then_cancel(
    a: GameChannel,
    b: GameChannel,
    c: GameChannel,
    u: Seq<char>,
    hand_index: usize,
    ob: Seq<ServerToClient>,
    oc: Seq<ServerToClient>,
)
    requires
        a.seat_of(u) is Some,
        hand_index < a.board_players@[a.seat_of(u)->0].hand@.len(),
        selects_card(a, b, u, hand_index),
        cancels_card(b, c, u, hand_index, ob, oc),
    ensures
        ({
            let i = a.seat_of(u)->0;
            &&& c.board_players@[i].hand@.len() == a.board_players@[i].hand@.len()
            &&& forall|k: int| 0 <= k < a.board_players@[i].hand@.len() ==> card_eq(
                #[trigger] c.board_players@[i].hand@[k],
                a.board_players@[i].hand@[k],
            )
            &&& c.current_turn matches Some(t) && t.player_id@ == u && t.selected_card is None
        }),
{
    let i = a.seat_of(u)->0;
    assert(b.seat_of(u) == a.seat_of(u));
    let pa = a.board_players@[i];
    let pc = c.board_players@[i];
    assert forall|k: int| 0 <= k < pa.hand@.len() implies card_eq(#[trigger] pc.hand@[k], pa.hand@[k]) by {
        if k != hand_index {
            assert(b.board_players@[i].hand@[k] == pa.hand@[k]);
        }
    }
}

/// Once a user has played the card held up, taking it back does nothing.
pub proof fn law_cancel_after_confirm(
    a: GameChannel,
    b: GameChannel,
    c: GameChannel,
    u: Seq<char>,
    card: crate::card::Card,
    hand_index: usize,
    oa: Seq<ServerToClient>,
    ob: Seq<ServerToClient>,
    oc: Seq<ServerToClient>,
)
    requires
        a.current_turn matches Some(t) && t.player_id@ == u,
        plays_card(a, b, u, card, oa, ob),
        cancels_card(b, c, u, hand_index, ob, oc),
    ensures
        c == b,
        oc == ob,
{
}

/// A move taken back puts the player back where it stood when the turn's
/// card was played.
pub proof fn law_move_then_cancel(
    a: GameChannel,
    b: GameChannel,
    c: GameChannel,
    u: Seq<char>,
    pos: (usize, usize),
    hand_index: usize,
    oa: Seq<ServerToClient>,
    ob: Seq<ServerToClient>,
    oc: Seq<ServerToClient>,
)
    requires
        a.seat_of(u) is Some,
        moves_player(a, b, u, pos, false, oa, ob),
        b.current_turn matches Some(t) && (t.selected_card matches Some(card) && card.effect == CardEffect::MoveOneTile),
        cancels_card(b, c, u, hand_index, ob, oc),
    ensures
        c.board_players@[a.seat_of(u)->0].position == a.board_players@[a.seat_of(u)->0].original_position,
{
    assert(b.seat_of(u) == a.seat_of(u));
}

/// A hand as dealt never holds two cards of the same kind.
pub proof fn law_dealt_hand_distinct(hand: Seq<crate::card::Card>, size: int)
    requires
        is_dealt_hand(hand, size, false),
    ensures
        forall|i: int, j: int| 0 <= i < j < hand.len() ==> (#[trigger] hand[i]).effect != (#[trigger] hand[j]).effect,
{
}

/// Every room of a drawn board has an entrance, and each entrance faces a
/// room of the board.
pub proof fn law_drawn_rooms_open(entrances: Seq<Direction>, i: int, entrance_count: int)
    requires
        0 <= i < BOARD_TILES,
        fits_draw(entrances, edge_sides(i), entrance_count),
    ensures
        entrances.len() >= 1,
        forall|k: int| 0 <= k < entrances.len() ==> neighbor(i, #[trigger] entrances[k]) is Some,
{
    lemma_allowed_edges_inner(i);
    let x = crate::tile::grid_x(i);
    let y = crate::tile::grid_y(i);
    assert(0 <= x < 5 && 0 <= y < 5);
    lemma_sides_contain(y > 0, y < 4, x > 0, x < 4, Direction::Up);
    lemma_sides_contain(y > 0, y < 4, x > 0, x < 4, Direction::Down);
    lemma_sides_contain(y > 0, y < 4, x > 0, x < 4, Direction::Left);
    lemma_sides_contain(y > 0, y < 4, x > 0, x < 4, Direction::Right);
    if y < 4 {
        assert(inner_sides(i).contains(Direction::Down));
    } else {
        assert(inner_sides(i).contains(Direction::Up));
    }
    assert(allowed_sides(edge_sides(i)).len() >= 1);
    assert forall|k: int| 0 <= k < entrances.len() implies neighbor(i, #[trigger] entrances[k]) is Some by {
        assert(inner_sides(i).contains(entrances[k]));
    }
}

/// The column and row of the board index of column `x`, row `y`.
proof fn lemma_grid(k: int, x: int, y: int)
    requires
        0 <= x < 5,
        y >= 0,
        k == y * 5 + x,
    ensures
        crate::tile::grid_x(k) == x,
        crate::tile::grid_y(k) == y,
{
    assert(k % 5 == x && k / 5 == y) by (nonlinear_arith)
        requires
            0 <= x < 5,
            y >= 0,
            k == y * 5 + x,
    ;
}

/// One can step back along any step on a board of at most `BOARD_TILES`
/// rooms.
pub proof fn law_step_back(tiles: Seq<Tile>, a: int, b: int)
    requires
        tiles.len() <= BOARD_TILES,
        step(tiles, a, b),
    ensures
        step(tiles, b, a),
{
    let d = choose|d: Direction| #[trigger] step_to(tiles, a, d) == Some(b);
    let e = opposite(d);
    let x = crate::tile::grid_x(a);
    let y = crate::tile::grid_y(a);
    assert(a == y * 5 + x && 0 <= x < 5 && y >= 0) by (nonlinear_arith)
        requires
            a >= 0,
            x == a % 5,
            y == a / 5,
    ;
    match d {
        Direction::Up => lemma_grid(b, x, y - 1),
        Direction::Down => lemma_grid(b, x, y + 1),
        Direction::Left => lemma_grid(b, x - 1, y),
        Direction::Right => lemma_grid(b, x + 1, y),
    }
    assert(neighbor(b, e) == Some(a));
    assert(connects(tiles[b], tiles[a], e));
    assert(step_to(tiles, b, e) == Some(a));
}

/// On a board of at most `BOARD_TILES` rooms, a room reachable from another
/// reaches it back.
pub proof fn law_reachable_symmetric(tiles: Seq<Tile>, a: int, b: int)
    requires
        tiles.len() <= BOARD_TILES,
        reachable(tiles, a, b),
    ensures
        reachable(tiles, b, a),
{
    let p = choose|p: Seq<usize>| #[trigger] is_walk(tiles, p) && p[0] == a && p.last() == b;
    let q = p.reverse();
    assert forall|i: int| 0 <= i < q.len() - 1 implies #[trigger] step(tiles, q[i] as int, q[i + 1] as int) by {
        let j = p.len() - 2 - i;
        assert(step(tiles, p[j] as int, p[j + 1] as int));
        assert(q[i] == p[j + 1]);
        assert(q[i + 1] == p[j]);
        law_step_back(tiles, p[j] as int, p[j + 1] as int);
    }
    assert(is_walk(tiles, q));
    assert(q[0] == b && q.last() == a);
}

/// Every room stands at its remembered place, as on a new board or after a
/// swap card is played.
pub open spec fn settled(a: Seq<Tile>) -> bool {
    forall|i: int| 0 <= i < a.len() ==> (#[trigger] a[i]).original_location == i
}

/// The rooms `b` are the rooms of the settled board `a` in some order: each
/// is the room of `a` at the place it remembers, and no two remember the same
/// place.
pub open spec fn rearranged(a: Seq<Tile>, b: Seq<Tile>) -> bool {
    &&& b.len() == a.len()
    &&& forall|q: int| 0 <= q < b.len() ==> (#[trigger] b[q]).original_location < a.len() && b[q] == a[b[q].original_location as int]
    &&& forall|q1: int, q2: int| 0 <= q1 < q2 < b.len() ==> (#[trigger] b[q1]).original_location != (#[trigger] b[q2]).original_location
}

/// A settled board is an arrangement of itself.
pub proof fn law_settled_rearranged(a: Seq<Tile>)
    requires
        settled(a),
    ensures
        rearranged(a, a),
{
}

/// Exchanging two rooms of an arrangement of a settled board gives another
/// arrangement of it.
pub proof fn law_swap_rearranges(a: Seq<Tile>, b: Seq<Tile>, i: int, j: int)
    requires
        rearranged(a, b),
        0 <= i < b.len(),
        0 <= j < b.len(),
    ensures
        rearranged(a, swapped(b, i, j)),
{
    let c = swapped(b, i, j);
    assert forall|q: int| 0 <= q < c.len() implies (#[trigger] c[q]).original_location < a.len() && c[q] == a[c[q].original_location as int] by {
        if q == j {
            assert(c[q] == b[i]);
        } else if q == i {
            assert(c[q] == b[j]);
        } else {
            assert(c[q] == b[q]);
        }
    }
    assert forall|q1: int, q2: int| 0 <= q1 < q2 < c.len() implies (#[trigger] c[q1]).original_location != (#[trigger] c[q2]).original_location by {
        let p1 = if q1 == j { i } else if q1 == i { j } else { q1 };
        let p2 = if q2 == j { i } else if q2 == i { j } else { q2 };
        assert(c[q1] == b[p1]);
        assert(c[q2] == b[p2]);
        assert(p1 != p2);
        if p1 < p2 {
            assert(b[p1].original_location != b[p2].original_location);
        } else {
            assert(b[p2].original_location != b[p1].original_location);
        }
    }
}

/// A sequence with at most one element passing `pred` keeps at most one.
proof fn lemma_filter_at_most_one<A>(s: Seq<A>, pred: spec_fn(A) -> bool)
    requires
        forall|i: int, j: int| 0 <= i < j < s.len() ==> !(pred(#[trigger] s[i]) && pred(#[trigger] s[j])),
    ensures
        s.filter(pred).len() <= 1,
    decreases s.len(),
{
    if s.len() > 0 {
        let r = s.drop_last();
        assert(s == r.push(s.last()));
        r.lemma_filter_push(s.last(), pred);
        assert forall|i: int, j: int| 0 <= i < j < r.len() implies !(pred(#[trigger] r[i]) && pred(#[trigger] r[j])) by {
            assert(r[i] == s[i] && r[j] == s[j]);
        }
        lemma_filter_at_most_one(r, pred);
        if pred(s.last()) {
            assert forall|i: int| 0 <= i < r.len() implies !pred(#[trigger] r[i]) by {
                assert(r[i] == s[i]);
                assert(!(pred(s[i]) && pred(s[s.len() - 1])));
            }
            assert(r.all(|x: A| !pred(x)));
            r.lemma_all_neg_filter_empty(pred);
        }
    }
}

/// Two elements passing `pred` are both kept.
proof fn lemma_filter_two<A>(s: Seq<A>, pred: spec_fn(A) -> bool, p1: int, p2: int)
    requires
        0 <= p1 < p2 < s.len(),
        pred(s[p1]),
        pred(s[p2]),
    ensures
        s.filter(pred).len() >= 2,
    decreases s.len(),
{
    let r = s.drop_last();
    assert(s == r.push(s.last()));
    r.lemma_filter_push(s.last(), pred);
    if p2 < s.len() - 1 {
        assert(r[p1] == s[p1] && r[p2] == s[p2]);
        lemma_filter_two(r, pred, p1, p2);
    } else {
        assert(r[p1] == s[p1]);
        r.lemma_filter_contains(pred, p1);
        assert(r.filter(pred).len() >= 1);
    }
}

/// Strictly increasing places below `n`, `n` of them, are `0` to `n - 1`.
proof fn lemma_increasing_places(c: Seq<Tile>)
    requires
        forall|q: int| 0 <= q < c.len() ==> (#[trigger] c[q]).original_location < c.len(),
        forall|q1: int, q2: int| 0 <= q1 < q2 < c.len() ==> (#[trigger] c[q1]).original_location < (#[trigger] c[q2]).original_location,
    ensures
        forall|q: int| 0 <= q < c.len() ==> (#[trigger] c[q]).original_location == q,
{
    assert forall|q: int| 0 <= q < c.len() implies (#[trigger] c[q]).original_location == q by {
        lemma_place_at_least(c, q);
        lemma_place_at_most(c, q);
    }
}

proof fn lemma_place_at_least(c: Seq<Tile>, q: int)
    requires
        0 <= q < c.len(),
        forall|q1: int, q2: int| 0 <= q1 < q2 < c.len() ==> (#[trigger] c[q1]).original_location < (#[trigger] c[q2]).original_location,
    ensures
        c[q].original_location >= q,
    decreases q,
{
    if q > 0 {
        lemma_place_at_least(c, q - 1);
        assert(c[q - 1].original_location < c[q].original_location);
    }
}

proof fn lemma_place_at_most(c: Seq<Tile>, q: int)
    requires
        0 <= q < c.len(),
        forall|k: int| 0 <= k < c.len() ==> (#[trigger] c[k]).original_location < c.len(),
        forall|q1: int, q2: int| 0 <= q1 < q2 < c.len() ==> (#[trigger] c[q1]).original_location < (#[trigger] c[q2]).original_location,
    ensures
        c[q].original_location <= q,
    decreases c.len() - q,
{
    if q < c.len() - 1 {
        lemma_place_at_most(c, q + 1);
        assert(c[q].original_location < c[q + 1].original_location);
    } else {
        assert(c[q].original_location < c.len());
    }
}

/// Taking back the swaps of a turn gives back the board as it stood when
/// the swap card was played: the rooms of a settled board, rearranged by any
/// swaps and then put back in the order of their remembered places, are the
/// settled board again.
pub proof fn law_swaps_taken_back(a: Seq<Tile>, b: Seq<Tile>, c: Seq<Tile>)
    requires
        settled(a),
        rearranged(a, b),
        crate::handlers::tiles_after_cancel(b, c, CardEffect::SwapCard),
    ensures
        c == a,
{
    // every room of `c` is a room of `b`
    assert forall|q: int| 0 <= q < c.len() implies b.contains(#[trigger] c[q]) by {
        let v = c[q].original_location;
        c.lemma_filter_contains(crate::undo::loc_is(v), q);
        assert(c.filter(crate::undo::loc_is(v)) == b.filter(crate::undo::loc_is(v)));
        b.lemma_filter_contains_rev(crate::undo::loc_is(v), c[q]);
    }
    assert forall|q: int| 0 <= q < c.len() implies (#[trigger] c[q]).original_location < c.len() && c[q] == a[c[q].original_location as int] by {
        assert(b.contains(c[q]));
        let p = choose|p: int| 0 <= p < b.len() && b[p] == c[q];
        assert(b[p].original_location < a.len());
    }
    // no two rooms of `c` remember the same place
    assert forall|q1: int, q2: int| 0 <= q1 < q2 < c.len() implies (#[trigger] c[q1]).original_location < (#[trigger] c[q2]).original_location by {
        let v = c[q1].original_location;
        let f = crate::undo::loc_is(v);
        assert(c[q1].original_location <= c[q2].original_location);
        if c[q2].original_location == v {
            lemma_filter_two(c, f, q1, q2);
            assert forall|i: int, j: int| 0 <= i < j < b.len() implies !(f(#[trigger] b[i]) && f(#[trigger] b[j])) by {
                assert(b[i].original_location != b[j].original_location);
            }
            lemma_filter_at_most_one(b, f);
            assert(c.filter(f) == b.filter(f));
        }
    }
    lemma_increasing_places(c);
    assert(c =~= a);
}

/// Playing a swap card settles the board: every room remembers the place it
/// now stands at.
pub proof fn law_swap_card_settles(
    a: GameChannel,
    b: GameChannel,
    u: Seq<char>,
    card: crate::card::Card,
    oa: Seq<ServerToClient>,
    ob: Seq<ServerToClient>,
)
    requires
        card.effect == CardEffect::SwapCard,
        plays_card(a, b, u, card, oa, ob),
    ensures
        settled(b.board_tiles@),
{
}

/// A swap request keeps the board an arrangement of the settled board it
/// came from.
pub proof fn law_swap_request_rearranges(
    base: Seq<Tile>,
    a: GameChannel,
    b: GameChannel,
    i: usize,
    j: usize,
    oa: Seq<ServerToClient>,
    ob: Seq<ServerToClient>,
)
    requires
        rearranged(base, a.board_tiles@),
        swaps_tiles(a, b, i, j, oa, ob),
    ensures
        rearranged(base, b.board_tiles@),
{
    if i < a.board_tiles@.len() && j < a.board_tiles@.len() {
        law_swap_rearranges(base, a.board_tiles@, i as int, j as int);
    }
}

/// The spot `p` of the 5x5 grid has column `pos_index(p) % 5` and row
/// `pos_index(p) / 5`.
proof fn lemma_spot_of_index(p: (usize, usize))
    requires
        p.0 < 5,
    ensures
        pos_index(p) % 5 == p.0,
        pos_index(p) / 5 == p.1,
{
    vstd::arithmetic::div_mod::lemma_fundamental_div_mod_converse(pos_index(p), 5, p.1 as int, p.0 as int);
}

/// A rotate card held up by the player at spot `p` lights exactly the rooms
/// of the board whose column and row each differ from those of `p` by at
/// most one: the player's own room, the rooms beside it and the rooms
/// diagonally next to it.
pub proof fn law_rotate_card_lights_block(tiles: Seq<Tile>, p: (usize, usize), i: int)
    requires
        on_board(p),
    ensures
        lit_by(CardEffect::RotateCard, tiles, pos_index(p), i) <==> (0 <= i < 25 && -1 <= i % 5 - p.0 <= 1
            && -1 <= i / 5 - p.1 <= 1),
{
    lemma_spot_of_index(p);
}

/// A swap card held up by the player at spot `p` lights the same rooms as a
/// rotate card: those whose column and row each differ from those of `p` by
/// at most one.
pub proof fn law_swap_card_lights_block(tiles: Seq<Tile>, p: (usize, usize), i: int)
    requires
        on_board(p),
    ensures
        lit_by(CardEffect::SwapCard, tiles, pos_index(p), i) <==> (0 <= i < 25 && -1 <= i % 5 - p.0 <= 1
            && -1 <= i / 5 - p.1 <= 1),
{
    lemma_spot_of_index(p);
}

/// Rooms `a` and `b` stand side by side and each has an entrance facing the
/// other.
pub open spec fn rooms_open_onto(tiles: Seq<Tile>, a: (usize, usize), b: (usize, usize)) -> bool {
    let ta = tiles[pos_index(a)];
    let tb = tiles[pos_index(b)];
    ||| b.0 == a.0 && b.1 + 1 == a.1 && has_entrance(ta, Direction::Up) && has_entrance(tb, Direction::Down)
    ||| b.0 == a.0 && a.1 + 1 == b.1 && has_entrance(ta, Direction::Down) && has_entrance(tb, Direction::Up)
    ||| b.1 == a.1 && b.0 + 1 == a.0 && has_entrance(ta, Direction::Left) && has_entrance(tb, Direction::Right)
    ||| b.1 == a.1 && a.0 + 1 == b.0 && has_entrance(ta, Direction::Right) && has_entrance(tb, Direction::Left)
}

/// When the monster's turn strikes a player, the player struck shares the
/// monster's room or stands in the room beside it with an entrance of each
/// room facing the other: the monster never strikes through a wall.
pub proof fn law_monster_strikes_through_openings(
    m: Monster,
    m2: Monster,
    players: Seq<Player>,
    players2: Seq<Player>,
    tiles: Seq<Tile>,
    hit: Option<(crate::player::PlayerId, u32)>,
)
    requires
        turn_outcome(m, m2, players, players2, tiles, hit),
        hit is Some,
        players.len() <= usize::MAX,
    ensures
        exists|j: int|
            0 <= j < players.len() && #[trigger] players[j].id == (hit->0).0 && (players[j].position == m.position
                || rooms_open_onto(tiles, m.position, players[j].position)),
{
    lemma_nearest_choice(m, players, tiles);
    let c = nearest_choice(m, players, tiles)->0;
    let j = c.0 as int;
    assert(players[j].id == (hit->0).0);
}

/// Unless the monster keeps hunting its current target, the player it
/// chooses is alive, can be reached, and is no farther from it, in squared
/// straight-line distance, than any other live player that can be reached.
pub proof fn law_monster_hunts_nearest(m: Monster, players: Seq<Player>, tiles: Seq<Tile>, c: (usize, (usize, usize)))
    requires
        players.len() <= usize::MAX,
        nearest_choice(m, players, tiles) == Some(c),
        m.target_player matches Some(t) ==> !(t < players.len() && players[t as int].health > 0 && reachable(
            tiles,
            pos_index(m.position),
            pos_index(players[t as int].position),
        )),
    ensures
        c.0 < players.len(),
        c.1 == players[c.0 as int].position,
        players[c.0 as int].health > 0,
        reachable(tiles, pos_index(m.position), pos_index(c.1)),
        forall|j: int|
            0 <= j < players.len() && players[j].health > 0 && reachable(
                tiles,
                pos_index(m.position),
                pos_index(#[trigger] players[j].position),
            ) ==> (c.1.0 - m.position.0) * (c.1.0 - m.position.0) + (c.1.1 - m.position.1) * (c.1.1
                - m.position.1) <= (players[j].position.0 - m.position.0) * (players[j].position.0 - m.position.0)
                + (players[j].position.1 - m.position.1) * (players[j].position.1 - m.position.1),
{
    lemma_nearest_choice(m, players, tiles);
    assert forall|j: int|
        0 <= j < players.len() && players[j].health > 0 && reachable(
            tiles,
            pos_index(m.position),
            pos_index(#[trigger] players[j].position),
        ) implies (c.1.0 - m.position.0) * (c.1.0 - m.position.0) + (c.1.1 - m.position.1) * (c.1.1
        - m.position.1) <= (players[j].position.0 - m.position.0) * (players[j].position.0 - m.position.0) + (
    players[j].position.1 - m.position.1) * (players[j].position.1 - m.position.1) by {
        assert(crate::monster::is_candidate(m, players, tiles, j));
    }
}

/// A fireball landing in room `from` harms only what stands on the spot
/// whose board index is `from` (column `from % 5`, row `from / 5`): the
/// monster when it stands there, else the first player standing there when
/// that player has a user other than the shooter.
pub proof fn law_fireball_hits_its_room(
    a: GameChannel,
    b: GameChannel,
    shooter: Seq<char>,
    from: usize,
    oa: Seq<ServerToClient>,
    ob: Seq<ServerToClient>,
)
    requires
        lands_fireball(a, b, shooter, from, oa, ob),
    ensures
        b.board_monster != a.board_monster ==> (a.board_monster matches Some(m) && m.position.0 < 5
            && m.position.1 * 5 + m.position.0 == from),
        a.board_monster is Some && a.board_monster->0.position.0 < 5 && a.board_monster->0.position.1 * 5
            + a.board_monster->0.position.0 == from ==> b.board_monster == Some(
            Monster { health: after_hit(a.board_monster->0.health), ..a.board_monster->0 },
        ),
        b.board_players@.len() == a.board_players@.len(),
        forall|j: int|
            0 <= j < a.board_players@.len() && #[trigger] b.board_players@[j] != a.board_players@[j] ==> {
                let q = a.board_players@[j].position;
                q.0 < 5 && q.1 * 5 + q.0 == from
            },
        forall|j: int|
            0 <= j < a.board_players@.len() && !(a.board_monster matches Some(m) && m.position.0 < 5
                && m.position.1 * 5 + m.position.0 == from) && a.board_players@[j].position.0 < 5
                && a.board_players@[j].position.1 * 5 + a.board_players@[j].position.0 == from && (forall|k: int|
                0 <= k < j ==> a.board_players@[k].position != a.board_players@[j].position) && (a.user_of(
                a.board_players@[j].id,
            ) matches Some(t) && t != shooter) ==> (#[trigger] b.board_players@[j]).health == after_hit(
                a.board_players@[j].health,
            ),
{
    let spot = crate::handlers::hit_spot(from);
    assert(spot.0 < 5 && spot.1 * 5 + spot.0 == from) by {
        vstd::arithmetic::div_mod::lemma_fundamental_div_mod(from as int, 5);
    }
    assert forall|q: (usize, usize)| q.0 < 5 && q.1 * 5 + q.0 == from implies q == spot by {
        vstd::arithmetic::div_mod::lemma_fundamental_div_mod_converse(from as int, 5, q.1 as int, q.0 as int);
    }
    if !(a.board_monster matches Some(m) && m.position == spot) {
        match crate::handlers::first_at(a.board_players@, spot) {
            None => {
                assert forall|j: int|
                    0 <= j < a.board_players@.len() && a.board_players@[j].position == spot implies exists|k: int|
                        0 <= k < j && a.board_players@[k].position == spot by {
                    if !(exists|k: int| 0 <= k < j && a.board_players@[k].position == spot) {
                        assert(crate::handlers::is_first_at(a.board_players@, spot, j));
                    }
                }
            },
            Some(i) => {
                assert(crate::handlers::is_first_at(a.board_players@, spot, i));
                assert forall|j: int|
                    0 <= j < a.board_players@.len() && !(a.board_monster matches Some(m) && m.position.0 < 5
                        && m.position.1 * 5 + m.position.0 == from) && a.board_players@[j].position.0 < 5
                        && a.board_players@[j].position.1 * 5 + a.board_players@[j].position.0 == from && (forall|
                        k: int,
                    |
                        0 <= k < j ==> a.board_players@[k].position != a.board_players@[j].position) && (a.user_of(
                        a.board_players@[j].id,
                    ) matches Some(t) && t != shooter) implies (#[trigger] b.board_players@[j]).health
                    == after_hit(a.board_players@[j].health) by {
                    assert(a.board_players@[j].position == spot);
                    if j < i {
                        assert(a.board_players@[j].position != spot);
                    } else if j > i {
                        assert(a.board_players@[i].position == a.board_players@[j].position);
                    }
                }
            },
        }
    }
}

/// Once a rotate card is played, no room turns and every room remembers its
/// current rotation as the one to go back to: taking back a later rotate
/// card cannot undo the played turn.
pub proof fn law_played_rotation_is_kept(
    a: GameChannel,
    b: GameChannel,
    u: Seq<char>,
    card: crate::card::Card,
    oa: Seq<ServerToClient>,
    ob: Seq<ServerToClient>,
)
    requires
        plays_card(a, b, u, card, oa, ob),
        card.effect == CardEffect::RotateCard,
    ensures
        b.board_tiles@.len() == a.board_tiles@.len(),
        forall|i: int|
            0 <= i < b.board_tiles@.len() ==> (#[trigger] b.board_tiles@[i]).original_rotation
                == b.board_tiles@[i].current_rotation && b.board_tiles@[i].current_rotation
                == a.board_tiles@[i].current_rotation && b.board_tiles@[i].entrances == a.board_tiles@[i].entrances,
{
}

} // verus!
