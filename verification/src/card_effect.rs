use vstd::prelude::*;

use crate::card::CardEffect;
use crate::client::{cleared, turn_seat, GameState};
use crate::constants::MAP_SIZE;
use crate::tile::{clear_highlights, Tile};
use crate::undo::{swap_tiles, swapped, turned, turns_between};

verus! {

/// What the client does after a room was picked with a card held up.
#[derive(Debug, Clone, Copy, PartialEq, Eq, Structural)]
pub enum EffectAction {
    /// Nothing.
    Nothing,
    /// Walk the player whose turn it is to this spot, and tell the server.
    MovePlayer(usize, usize),
    /// Turn this room, and tell the server.
    RotateTile(usize),
    /// Exchange these two rooms, and tell the server.
    SwapTiles(usize, usize),
}

/// A room turned back by the client when a rotation is taken back: when its
/// remembered rotation lies a part of a turn away, it turns to it.
pub open spec fn turned_back(a: Tile, b: Tile) -> bool {
    let n = 4 + a.original_rotation - a.current_rotation;
    &&& b.is_highlighted == a.is_highlighted
    &&& b.original_rotation == a.original_rotation
    &&& b.original_location == a.original_location
    &&& if n > 0 && n % 4 != 0 {
        &&& b.entrances@ == turned(a.entrances@, turns_between(a.current_rotation as int, a.original_rotation as int))
        &&& b.current_rotation == a.original_rotation
    } else {
        &&& b.entrances == a.entrances
        &&& b.current_rotation == a.current_rotation
    }
}

/// The moves that put every room back at its remembered place: a pair of
/// its place and its remembered place for each room standing elsewhere, in
/// board order.
pub open spec fn misplaced(tiles: Seq<Tile>) -> Seq<(usize, usize)> {
    Seq::new(tiles.len(), |i: int| (i as usize, tiles[i].original_location)).filter(
        |p: (usize, usize)| p.0 != p.1,
    )
}

/// `i` is the first place of `x` in `s`.
pub open spec fn is_first_place(s: Seq<usize>, x: usize, i: int) -> bool {
    &&& 0 <= i < s.len()
    &&& s[i] == x
    &&& forall|j: int| 0 <= j < i ==> s[j] != x
}

impl CardEffect {
    /// Applies the card held up to the room at `tile_index`, which the user
    /// picked: see the effect's own function. `player_moving` tells whether
    /// a player is being shown walking, `rotation_running` whether that
    /// room is being shown turning.
    pub fn apply_effect(
        &self,
        state: &mut GameState,
        tile_index: usize,
        player_moving: bool,
        rotation_running: bool,
    ) -> (r: EffectAction)
        requires
            tile_index < old(state).tiles@.len(),
            *self == CardEffect::MoveOneTile ==> turn_seat(*old(state)) is Some,
            *self == CardEffect::MoveOneTile ==> old(state).players@[turn_seat(*old(state))->0].position.1 * 5
                + old(state).players@[turn_seat(*old(state))->0].position.0 <= usize::MAX,
        ensures
            match *self {
                CardEffect::MoveOneTile => {
                    &&& *final(state) == *old(state)
                    &&& r == match Self::move_target(*old(state), tile_index, player_moving) {
                        Some(p) => EffectAction::MovePlayer(p.0, p.1),
                        None => EffectAction::Nothing,
                    }
                },
                CardEffect::RotateCard => {
                    &&& *final(state) == *old(state)
                    &&& r == if old(state).tiles@[tile_index as int].is_highlighted && !rotation_running {
                        EffectAction::RotateTile(tile_index)
                    } else {
                        EffectAction::Nothing
                    }
                },
                CardEffect::SwapCard => Self::picks_for_swap(*old(state), *final(state), tile_index, r),
                _ => *final(state) == *old(state) && r == EffectAction::Nothing,
            },
    {
        match self {
            CardEffect::Dummy => EffectAction::Nothing,
            CardEffect::MoveOneTile => match self.apply_move_one_tile(state, tile_index, player_moving) {
                Some(p) => EffectAction::MovePlayer(p.0, p.1),
                None => EffectAction::Nothing,
            },
            CardEffect::RotateCard => if self.apply_rotate_card(state, tile_index, rotation_running) {
                EffectAction::RotateTile(tile_index)
            } else {
                EffectAction::Nothing
            },
            CardEffect::SwapCard => self.apply_swap_card(state, tile_index),
            CardEffect::FireCard => {
                self.apply_fire_card(state, tile_index);
                EffectAction::Nothing
            },
        }
    }

    /// Where a move to the room at `tile_index` takes the player whose turn
    /// it is: nowhere when it is the room the player stands in, when the
    /// room is not lit, or while a player is being shown walking; else the
    /// room's spot.
    pub open spec fn move_target(s: GameState, tile_index: usize, player_moving: bool) -> Option<(usize, usize)> {
        let p = s.players@[turn_seat(s)->0].position;
        if tile_index == p.1 * 5 + p.0 || !s.tiles@[tile_index as int].is_highlighted || player_moving {
            None
        } else {
            Some(((tile_index % 5) as usize, (tile_index / 5) as usize))
        }
    }

    /// The move of the player whose turn it is to the room at `tile_index`
    /// (see `move_target`).
    fn apply_move_one_tile(&self, state: &mut GameState, tile_index: usize, player_moving: bool) -> (r: Option<(usize, usize)>)
        requires
            tile_index < old(state).tiles@.len(),
            turn_seat(*old(state)) is Some,
            old(state).players@[turn_seat(*old(state))->0].position.1 * 5
                + old(state).players@[turn_seat(*old(state))->0].position.0 <= usize::MAX,
        ensures
            *final(state) == *old(state),
            r == Self::move_target(*old(state), tile_index, player_moving),
    {
        let player = state.get_turn_player().unwrap();
        let (px, py) = player.position;
        let current_index = py * MAP_SIZE + px;
        if tile_index == current_index {
            return None;
        }
        if !state.tiles[tile_index].is_highlighted {
            return None;
        }
        if player_moving {
            return None;
        }
        Some((tile_index % MAP_SIZE, tile_index / MAP_SIZE))
    }

    /// Whether the room at `tile_index` turns: it must be lit and not be
    /// shown turning already.
    fn apply_rotate_card(&self, state: &mut GameState, tile_index: usize, rotation_running: bool) -> (r: bool)
        requires
            tile_index < old(state).tiles@.len(),
        ensures
            *final(state) == *old(state),
            r == (old(state).tiles@[tile_index as int].is_highlighted && !rotation_running),
    {
        state.tiles[tile_index].is_highlighted && !rotation_running
    }

    /// `b` is the state `a` after the user picks the room at `tile_index`
    /// for a swap, with result `r`: nothing but the picks changes; an unlit
    /// room is ignored; a room already
    /// picked is unpicked; else the room is picked, and once two rooms are
    /// picked they are exchanged and the picks start over.
    pub open spec fn picks_for_swap(a: GameState, b: GameState, tile_index: usize, r: EffectAction) -> bool {
        let sel = a.swap_tiles_selected@;
        &&& b == (GameState { swap_tiles_selected: b.swap_tiles_selected, tiles: b.tiles, ..a })
        &&& b.tiles@ == a.tiles@
        &&& if !a.tiles@[tile_index as int].is_highlighted {
            b == a && r == EffectAction::Nothing
        } else if sel.contains(tile_index) {
            &&& r == EffectAction::Nothing
            &&& exists|p: int| is_first_place(sel, tile_index, p) && b.swap_tiles_selected@ == sel.remove(p)
        } else if sel.len() + 1 == 2 {
            &&& r == EffectAction::SwapTiles(sel[0], tile_index)
            &&& b.swap_tiles_selected@.len() == 0
        } else {
            &&& r == EffectAction::Nothing
            &&& b.swap_tiles_selected@ == sel.push(tile_index)
        }
    }

    /// The user picks the room at `tile_index` for a swap (see
    /// `picks_for_swap`).
    fn apply_swap_card(&self, state: &mut GameState, tile_index: usize) -> (r: EffectAction)
        requires
            tile_index < old(state).tiles@.len(),
        ensures
            Self::picks_for_swap(*old(state), *final(state), tile_index, r),
    {
        if !state.tiles[tile_index].is_highlighted {
            return EffectAction::Nothing;
        }
        let mut pos: usize = 0;
        while pos < state.swap_tiles_selected.len()
            invariant
                *state == *old(state),
                tile_index < old(state).tiles@.len(),
                old(state).tiles@[tile_index as int].is_highlighted,
                pos <= state.swap_tiles_selected@.len(),
                forall|j: int| 0 <= j < pos ==> state.swap_tiles_selected@[j] != tile_index,
            decreases state.swap_tiles_selected@.len() - pos,
        {
            if state.swap_tiles_selected[pos] == tile_index {
                state.swap_tiles_selected.remove(pos);
                assert(is_first_place(old(state).swap_tiles_selected@, tile_index, pos as int));
                assert(state.swap_tiles_selected@ == old(state).swap_tiles_selected@.remove(pos as int));
                assert(old(state).swap_tiles_selected@.contains(tile_index)) by {
                    assert(old(state).swap_tiles_selected@[pos as int] == tile_index);
                }
                return EffectAction::Nothing;
            }
            pos += 1;
        }
        proof {
            assert(!old(state).swap_tiles_selected@.contains(tile_index));
        }
        state.swap_tiles_selected.push(tile_index);
        state.tiles[tile_index].is_highlighted = true;
        assert(state.tiles@ =~= old(state).tiles@);
        if state.swap_tiles_selected.len() == 2 {
            let tile1 = state.swap_tiles_selected[0];
            let tile2 = state.swap_tiles_selected[1];
            state.swap_tiles_selected.clear();
            return EffectAction::SwapTiles(tile1, tile2);
        }
        EffectAction::Nothing
    }

    /// A fire card does nothing to a picked room: the shot is aimed by
    /// direction instead.
    fn apply_fire_card(&self, _state: &mut GameState, _tile_index: usize)
        ensures
            *final(_state) == *old(_state),
    {
    }

    /// Turns every room back to its remembered rotation, the way the client
    /// does when a rotation is taken back (see `turned_back`).
    pub fn revert_tile_rotations(tiles: &mut Vec<Tile>)
        ensures
            final(tiles)@.len() == old(tiles)@.len(),
            forall|i: int| 0 <= i < old(tiles)@.len() ==> turned_back(old(tiles)@[i], #[trigger] final(tiles)@[i]),
    {
        let mut i: usize = 0;
        while i < tiles.len()
            invariant
                i <= tiles@.len(),
                tiles@.len() == old(tiles)@.len(),
                forall|j: int| i <= j < old(tiles)@.len() ==> #[trigger] tiles@[j] == old(tiles)@[j],
                forall|j: int| 0 <= j < i ==> turned_back(old(tiles)@[j], #[trigger] tiles@[j]),
            decreases tiles@.len() - i,
        {
            let current = tiles[i].current_rotation as u32;
            let orig = tiles[i].original_rotation as u32;
            if 4 + orig > current {
                let diff = (4 + orig - current) % 4;
                if diff > 0 {
                    let r = tiles[i].original_rotation;
                    tiles[i].rotate_entrances(r);
                }
            }
            i += 1;
        }
    }

    /// Takes back the swaps of this turn: the picks and the lights go, and
    /// every room standing away from its remembered place is set to move
    /// there once shown moving (see `misplaced`). Returns those moves, to
    /// show them.
    pub fn revert_tile_positions(state: &mut GameState) -> (moves: Vec<(usize, usize)>)
        ensures
            moves@ == misplaced(old(state).tiles@),
            final(state).pending_swaps@ == old(state).pending_swaps@ + moves@,
            final(state).swap_tiles_selected@.len() == 0,
            cleared(old(state).tiles@, final(state).tiles@),
            final(state).players == old(state).players,
            final(state).selected_card == old(state).selected_card,
            final(state).play_area == old(state).play_area,
            final(state).current_turn == old(state).current_turn,
            final(state).user == old(state).user,
            final(state).user_id_to_player_id == old(state).user_id_to_player_id,
    {
        state.swap_tiles_selected.clear();
        clear_highlights(&mut state.tiles);
        let ghost all = Seq::new(old(state).tiles@.len(), |i: int| (i as usize, old(state).tiles@[i].original_location));
        let mut moves: Vec<(usize, usize)> = Vec::new();
        let mut i: usize = 0;
        while i < state.tiles.len()
            invariant
                i <= state.tiles@.len(),
                cleared(old(state).tiles@, state.tiles@),
                state.swap_tiles_selected@.len() == 0,
                state.pending_swaps == old(state).pending_swaps,
                state.players == old(state).players,
                state.selected_card == old(state).selected_card,
                state.play_area == old(state).play_area,
                state.current_turn == old(state).current_turn,
                all == Seq::new(old(state).tiles@.len(), |i: int| (i as usize, old(state).tiles@[i].original_location)),
                moves@ == all.take(i as int).filter(|p: (usize, usize)| p.0 != p.1),
            decreases state.tiles@.len() - i,
        {
            proof {
                assert(all.take(i + 1) == all.take(i as int).push(all[i as int]));
                all.take(i as int).lemma_filter_push(all[i as int], |p: (usize, usize)| p.0 != p.1);
            }
            let target_index = state.tiles[i].original_location;
            if i != target_index {
                moves.push((i, target_index));
            }
            i += 1;
        }
        assert(all.take(i as int) == all);
        let mut k: usize = 0;
        let ghost p0 = state.pending_swaps@;
        while k < moves.len()
            invariant
                k <= moves@.len(),
                state.pending_swaps@ == p0 + moves@.take(k as int),
                p0 == old(state).pending_swaps@,
                cleared(old(state).tiles@, state.tiles@),
                state.swap_tiles_selected@.len() == 0,
                state.players == old(state).players,
                state.selected_card == old(state).selected_card,
                state.play_area == old(state).play_area,
                state.current_turn == old(state).current_turn,
                state.user == old(state).user,
                state.user_id_to_player_id == old(state).user_id_to_player_id,
            decreases moves@.len() - k,
        {
            state.pending_swaps.push(moves[k]);
            k += 1;
            assert(state.pending_swaps@ == p0 + moves@.take(k as int));
        }
        assert(moves@.take(k as int) == moves@);
        moves
    }
}

/// Swaps that can finish: neither room is being shown moving.
pub open spec fn swap_ready(animating: Seq<usize>) -> spec_fn((usize, usize)) -> bool {
    |s: (usize, usize)| !animating.contains(s.0) && !animating.contains(s.1)
}

/// The rooms after the swaps `swaps` are made one after the other.
pub open spec fn apply_swaps(tiles: Seq<Tile>, swaps: Seq<(usize, usize)>) -> Seq<Tile>
    decreases swaps.len(),
{
    if swaps.len() == 0 {
        tiles
    } else {
        let s = swaps.last();
        swapped(apply_swaps(tiles, swaps.drop_last()), s.0 as int, s.1 as int)
    }
}

/// Every waiting swap names rooms of the board.
pub open spec fn swaps_on_board(swaps: Seq<(usize, usize)>, n: int) -> bool {
    forall|k: int| 0 <= k < swaps.len() ==> (#[trigger] swaps[k]).0 < n && swaps[k].1 < n
}

/// Makes, in order, the waiting swaps whose rooms are no longer shown
/// moving (`animating` lists the rooms still shown moving); the others keep
/// waiting.
pub fn complete_pending_swaps(state: &mut GameState, animating: &Vec<usize>)
    requires
        swaps_on_board(old(state).pending_swaps@, old(state).tiles@.len() as int),
    ensures
        final(state).tiles@ == apply_swaps(old(state).tiles@, old(state).pending_swaps@.filter(swap_ready(animating@))),
        final(state).pending_swaps@ == old(state).pending_swaps@.filter(|s: (usize, usize)| !swap_ready(animating@)(s)),
        final(state).players == old(state).players,
        final(state).selected_card == old(state).selected_card,
        final(state).play_area == old(state).play_area,
        final(state).current_turn == old(state).current_turn,
{
    let ghost start = state.pending_swaps@;
    let ghost ready = swap_ready(animating@);
    let ghost waiting = |s: (usize, usize)| !swap_ready(animating@)(s);
    let mut kept: Vec<(usize, usize)> = Vec::new();
    let mut i: usize = 0;
    while i < state.pending_swaps.len()
        invariant
            i <= state.pending_swaps@.len(),
            state.pending_swaps@ == start,
            ready == swap_ready(animating@),
            waiting == (|s: (usize, usize)| !swap_ready(animating@)(s)),
            swaps_on_board(start, old(state).tiles@.len() as int),
            state.tiles@ == apply_swaps(old(state).tiles@, start.take(i as int).filter(ready)),
            state.tiles@.len() == old(state).tiles@.len(),
            kept@ == start.take(i as int).filter(waiting),
            state.players == old(state).players,
            state.selected_card == old(state).selected_card,
            state.play_area == old(state).play_area,
            state.current_turn == old(state).current_turn,
        decreases state.pending_swaps@.len() - i,
    {
        let (tile1, tile2) = state.pending_swaps[i];
        let busy = contains_index(animating, tile1) || contains_index(animating, tile2);
        proof {
            assert(start.take(i + 1) == start.take(i as int).push(start[i as int]));
            start.take(i as int).lemma_filter_push(start[i as int], ready);
            start.take(i as int).lemma_filter_push(start[i as int], waiting);
        }
        if !busy {
            let ghost before = state.tiles@;
            swap_tiles(&mut state.tiles, tile1, tile2);
            proof {
                let f = start.take(i as int).filter(ready).push(start[i as int]);
                assert(f.drop_last() == start.take(i as int).filter(ready));
            }
        } else {
            kept.push((tile1, tile2));
        }
        i += 1;
    }
    assert(start.take(i as int) == start);
    state.pending_swaps = kept;
}

/// Whether `v` holds `x`.
fn contains_index(v: &Vec<usize>, x: usize) -> (r: bool)
    ensures
        r == v@.contains(x),
{
    let mut i: usize = 0;
    while i < v.len()
        invariant
            i <= v@.len(),
            forall|j: int| 0 <= j < i ==> v@[j] != x,
        decreases v@.len() - i,
    {
        if v[i] == x {
            return true;
        }
        i += 1;
    }
    false
}

} // verus!
