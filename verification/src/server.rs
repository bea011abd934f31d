use vstd::prelude::*;

use crate::board::{allowed_sides, drawn_entrances, edge_sides, fits_draw, random_tiles};
use crate::direction::Direction;
use crate::constants::{HAND_SIZE, MAP_SIZE};
use crate::broadcast::{broadcast_board_state, broadcast_turn};
use crate::handlers::{
    cancels_card, ends_turn, handle_cancel_select_card, handle_confirm_card, handle_end_turn,
    handle_fireball_hit, handle_fireball_shot, handle_move_player, handle_rotate_tile,
    handle_select_card, handle_swap_tiles, lands_fireball, moves_player, plays_card,
    rotates_tile, selects_card, shoots_fireball, swaps_tiles,
};
use crate::messages::{
    copy_names, is_connected_users, names, sent, shows_board, ClientToServer, CurrentTurn,
    ServerToClient,
};
use crate::monster::{is_fresh_monster, Monster};
use crate::player::{is_dealt_hand, Player, PlayerId};
use crate::tile::Tile;

verus! {

/// The game as the server keeps it: the connected users in order of
/// arrival, whose turn it is, and the board. The user at place `i` of
/// `players` plays the board player at place `i` of `board_players`.
#[derive(Debug)]
pub struct GameChannel {
    pub players: Vec<String>,
    pub current_turn_index: usize,
    pub current_turn: Option<CurrentTurn>,
    pub board_tiles: Vec<Tile>,
    pub board_players: Vec<Player>,
    pub board_monster: Option<Monster>,
}

/// Every room is turned less than a full turn, now and as remembered.
pub open spec fn rotations_in_range(tiles: Seq<Tile>) -> bool {
    forall|i: int|
        0 <= i < tiles.len() ==> (#[trigger] tiles[i]).current_rotation < 4
            && tiles[i].original_rotation < 4
}

/// `i` is the first place of `players` that holds the user `u`.
pub open spec fn is_first_slot(players: Seq<String>, u: Seq<char>, i: int) -> bool {
    &&& 0 <= i < players.len()
    &&& players[i]@ == u
    &&& forall|j: int| 0 <= j < i ==> (#[trigger] players[j])@ != u
}

/// The first place of `players` that holds the user `u`, if any.
pub open spec fn user_slot(players: Seq<String>, u: Seq<char>) -> Option<int> {
    if exists|i: int| is_first_slot(players, u, i) {
        Some(choose|i: int| is_first_slot(players, u, i))
    } else {
        None
    }
}

/// `i` is the first board player whose seat is `id`.
pub open spec fn is_first_seat(players: Seq<Player>, id: PlayerId, i: int) -> bool {
    &&& 0 <= i < players.len()
    &&& players[i].id == id
    &&& forall|j: int| 0 <= j < i ==> (#[trigger] players[j]).id != id
}

/// The first board player whose seat is `id`, if any.
pub open spec fn seat_slot(players: Seq<Player>, id: PlayerId) -> Option<int> {
    if exists|i: int| is_first_seat(players, id, i) {
        Some(choose|i: int| is_first_seat(players, id, i))
    } else {
        None
    }
}

/// The first place holding `u` is unique.
pub proof fn lemma_first_slot(players: Seq<String>, u: Seq<char>, i: int)
    requires
        is_first_slot(players, u, i),
    ensures
        user_slot(players, u) == Some(i),
{
    let c = choose|c: int| is_first_slot(players, u, c);
    if c < i {
        assert(players[c]@ != u);
    } else if c > i {
        assert(players[i]@ != u);
    }
}

/// The first board player of a seat is unique.
pub proof fn lemma_first_seat(players: Seq<Player>, id: PlayerId, i: int)
    requires
        is_first_seat(players, id, i),
    ensures
        seat_slot(players, id) == Some(i),
{
    let c = choose|c: int| is_first_seat(players, id, c);
    if c < i {
        assert(players[c].id != id);
    } else if c > i {
        assert(players[i].id != id);
    }
}

/// The first board player of a seat depends on the seats alone.
pub proof fn lemma_seat_slot_ids(a: Seq<Player>, b: Seq<Player>, id: PlayerId)
    requires
        a.len() == b.len(),
        forall|j: int| 0 <= j < a.len() ==> (#[trigger] a[j]).id == b[j].id,
    ensures
        seat_slot(a, id) == seat_slot(b, id),
{
    assert forall|i: int| is_first_seat(a, id, i) <==> is_first_seat(b, id, i) by {
        if is_first_seat(a, id, i) {
            assert forall|j: int| 0 <= j < i implies (#[trigger] b[j]).id != id by {
                assert(a[j].id != id);
            }
        }
        if is_first_seat(b, id, i) {
            assert forall|j: int| 0 <= j < i implies (#[trigger] a[j]).id != id by {
                assert(b[j].id != id);
            }
        }
    }
    if exists|i: int| is_first_seat(a, id, i) {
        let i = choose|i: int| is_first_seat(a, id, i);
        lemma_first_seat(a, id, i);
        lemma_first_seat(b, id, i);
    }
}

impl GameChannel {
    /// The rooms' rotations stay within a full turn.
    pub open spec fn wf(&self) -> bool {
        rotations_in_range(self.board_tiles@)
    }

    /// The board player of user `u`: the one at the user's place, when the
    /// user is connected and that board player exists.
    pub open spec fn seat_of(&self, u: Seq<char>) -> Option<int> {
        match user_slot(self.players@, u) {
            Some(i) => if i < self.board_players@.len() {
                Some(i)
            } else {
                None
            },
            None => None,
        }
    }

    /// The user who plays seat `id`: the user at the place of the first
    /// board player in that seat.
    pub open spec fn user_of(&self, id: PlayerId) -> Option<Seq<char>> {
        match seat_slot(self.board_players@, id) {
            Some(i) => if i < self.players@.len() {
                Some(self.players@[i]@)
            } else {
                None
            },
            None => None,
        }
    }

    /// A game with nobody connected and no turn: player one in the top left
    /// corner, player two in the bottom right corner, each with a fresh hand,
    /// the monster in the middle, and a random board whose room `i` wishes
    /// for `entrance_counts[i]` entrances.
    pub fn new(entrance_counts: &Vec<usize>) -> (ch: GameChannel)
        requires
            entrance_counts@.len() == MAP_SIZE * MAP_SIZE,
        ensures
            ch.wf(),
            ch.players@.len() == 0,
            ch.current_turn_index == 0,
            ch.current_turn is None,
            ch.board_tiles@.len() == MAP_SIZE * MAP_SIZE,
            forall|i: int|
                0 <= i < ch.board_tiles@.len() ==> {
                    let t = #[trigger] ch.board_tiles@[i];
                    &&& t.original_location == i
                    &&& !t.is_highlighted
                    &&& t.original_rotation == 0
                    &&& t.current_rotation == 0
                    &&& fits_draw(t.entrances@, edge_sides(i), entrance_counts@[i] as int)
                    &&& exists|s: Seq<Direction>, roll: u32|
                        s.to_multiset() == allowed_sides(edge_sides(i)).to_multiset() && t.entrances@
                            == #[trigger] drawn_entrances(
                            s,
                            allowed_sides(edge_sides(i)),
                            entrance_counts@[i] as int,
                            roll as int,
                        )
                },
            ch.board_players@.len() == 2,
            ch.board_players@[0].id == PlayerId::Player1,
            ch.board_players@[0].position == (0usize, 0usize),
            ch.board_players@[0].original_position == (0usize, 0usize),
            ch.board_players@[0].health == crate::constants::PLAYER_HEALTH,
            is_dealt_hand(ch.board_players@[0].hand@, HAND_SIZE as int, false),
            ch.board_players@[1].id == PlayerId::Player2,
            ch.board_players@[1].position == ((MAP_SIZE - 1) as usize, (MAP_SIZE - 1) as usize),
            ch.board_players@[1].original_position == ((MAP_SIZE - 1) as usize, (MAP_SIZE - 1) as usize),
            ch.board_players@[1].health == crate::constants::PLAYER_HEALTH,
            is_dealt_hand(ch.board_players@[1].hand@, HAND_SIZE as int, false),
            ch.board_monster matches Some(m) && is_fresh_monster(m),
    {
        let mut board_players: Vec<Player> = Vec::new();
        board_players.push(Player::new(PlayerId::Player1, 0, 0, HAND_SIZE, false));
        board_players.push(Player::new(PlayerId::Player2, MAP_SIZE - 1, MAP_SIZE - 1, HAND_SIZE, false));
        let board_tiles = random_tiles(entrance_counts);
        GameChannel {
            players: Vec::new(),
            current_turn_index: 0,
            current_turn: None,
            board_tiles,
            board_players,
            board_monster: Some(Monster::new()),
        }
    }
}

/// The place of user `user_id` among the connected users, if connected.
pub fn get_player_index(channel: &GameChannel, user_id: &str) -> (r: Option<usize>)
    ensures
        match r {
            Some(i) => user_slot(channel.players@, user_id@) == Some(i as int),
            None => user_slot(channel.players@, user_id@) is None,
        },
{
    let uid = user_id.to_owned();
    let mut i: usize = 0;
    while i < channel.players.len()
        invariant
            i <= channel.players@.len(),
            uid@ == user_id@,
            forall|j: int| 0 <= j < i ==> (#[trigger] channel.players@[j])@ != user_id@,
        decreases channel.players@.len() - i,
    {
        if channel.players[i] == uid {
            proof {
                lemma_first_slot(channel.players@, user_id@, i as int);
            }
            return Some(i);
        }
        i += 1;
    }
    proof {
        if exists|k: int| is_first_slot(channel.players@, user_id@, k) {
            let k = choose|k: int| is_first_slot(channel.players@, user_id@, k);
            assert(channel.players@[k]@ == user_id@);
        }
    }
    None
}

/// The board player of user `user_id` (see `GameChannel::seat_of`).
pub fn board_player_index(channel: &GameChannel, user_id: &str) -> (r: Option<usize>)
    ensures
        match r {
            Some(i) => channel.seat_of(user_id@) == Some(i as int),
            None => channel.seat_of(user_id@) is None,
        },
{
    match get_player_index(channel, user_id) {
        Some(i) => if i < channel.board_players.len() {
            Some(i)
        } else {
            None
        },
        None => None,
    }
}

impl GameChannel {
    /// The user who plays seat `player_id` (see `GameChannel::user_of`).
    pub fn get_user_id(&self, player_id: &PlayerId) -> (r: Option<String>)
        ensures
            match r {
                Some(u) => self.user_of(*player_id) == Some(u@),
                None => self.user_of(*player_id) is None,
            },
    {
        let mut i: usize = 0;
        while i < self.board_players.len()
            invariant
                i <= self.board_players@.len(),
                forall|j: int| 0 <= j < i ==> (#[trigger] self.board_players@[j]).id != *player_id,
            decreases self.board_players@.len() - i,
        {
            if self.board_players[i].id == *player_id {
                proof {
                    lemma_first_seat(self.board_players@, *player_id, i as int);
                }
                if i < self.players.len() {
                    return Some(self.players[i].clone());
                } else {
                    return None;
                }
            }
            i += 1;
        }
        proof {
            if exists|k: int| is_first_seat(self.board_players@, *player_id, k) {
                let k = choose|k: int| is_first_seat(self.board_players@, *player_id, k);
                assert(self.board_players@[k].id == *player_id);
            }
        }
        None
    }
}

/// A user holding `u` stands somewhere in `players` exactly when there is a
/// first such place.
pub proof fn lemma_slot_exists(players: Seq<String>, u: Seq<char>, k: int)
    requires
        0 <= k < players.len(),
        players[k]@ == u,
    ensures
        user_slot(players, u) is Some,
    decreases k,
{
    if exists|j: int| 0 <= j < k && (#[trigger] players[j])@ == u {
        let j = choose|j: int| 0 <= j < k && (#[trigger] players[j])@ == u;
        lemma_slot_exists(players, u, j);
    } else {
        assert(is_first_slot(players, u, k));
    }
}

/// The users that stay when `u` leaves.
pub open spec fn without_user(players: Seq<String>, u: Seq<char>) -> Seq<String> {
    players.filter(|p: String| p@ != u)
}

/// `b` is the game `a` after user `u` connects, and `ob` is `oa` with what
/// is sent: `u` joins the users unless already there, everyone gets the list
/// of users; with two users the game starts with the first user's turn and
/// the board is sent, with one user the board is sent with no turn.
pub open spec fn connects_user(
    a: GameChannel,
    b: GameChannel,
    u: Seq<char>,
    oa: Seq<ServerToClient>,
    ob: Seq<ServerToClient>,
) -> bool {
    &&& names(b.players@) == if names(a.players@).contains(u) {
        names(a.players@)
    } else {
        names(a.players@).push(u)
    }
    &&& names(a.players@).contains(u) ==> b.players == a.players
    &&& b.players@.len() == a.players@.len() ==> b.players == a.players
    &&& b.board_tiles == a.board_tiles
    &&& b.board_players == a.board_players
    &&& b.board_monster == a.board_monster
    &&& is_connected_users(ob[oa.len() as int], b.players@)
    &&& if b.players@.len() == 2 {
        &&& b.current_turn_index == 0
        &&& b.current_turn matches Some(t) && t.player_id@ == b.players@[0]@ && t.selected_card is None
            && t.selected_card_index == 0
        &&& sent(oa, ob, 2)
        &&& shows_board(ob.last(), b.board_tiles@, b.board_players@, b.board_monster, b.current_turn)
    } else if b.players@.len() == 1 {
        &&& b.current_turn_index == a.current_turn_index
        &&& b.current_turn == a.current_turn
        &&& sent(oa, ob, 2)
        &&& shows_board(ob.last(), b.board_tiles@, b.board_players@, b.board_monster, None)
    } else {
        &&& b.current_turn_index == a.current_turn_index
        &&& b.current_turn == a.current_turn
        &&& sent(oa, ob, 1)
    }
}

/// `b` is the game `a` after user `u` leaves, and `ob` is `oa` with what is
/// sent: `u` leaves the users and everyone gets the new list; with fewer than
/// two users left the turn ends and the board is sent with no turn; else,
/// when it was `u`'s turn, the turn place wraps around the fewer users, and
/// the turn goes to the user at the turn place, if there is one, and the
/// board is sent.
pub open spec fn disconnects_user(
    a: GameChannel,
    b: GameChannel,
    u: Seq<char>,
    oa: Seq<ServerToClient>,
    ob: Seq<ServerToClient>,
) -> bool {
    let was_turn = a.current_turn_index < a.players@.len() && a.players@[a.current_turn_index as int]@ == u;
    &&& b.players@ == without_user(a.players@, u)
    &&& b.board_tiles == a.board_tiles
    &&& b.board_players == a.board_players
    &&& b.board_monster == a.board_monster
    &&& is_connected_users(ob[oa.len() as int], b.players@)
    &&& if b.players@.len() < 2 {
        &&& b.current_turn is None
        &&& b.current_turn_index == a.current_turn_index
        &&& sent(oa, ob, 2)
        &&& shows_board(ob.last(), b.board_tiles@, b.board_players@, b.board_monster, None)
    } else {
        &&& b.current_turn_index == if was_turn {
            (a.current_turn_index as int % (b.players@.len() as int)) as usize
        } else {
            a.current_turn_index
        }
        &&& if b.current_turn_index < b.players@.len() {
            &&& b.current_turn matches Some(t) && t.player_id@ == b.players@[b.current_turn_index as int]@
                && t.selected_card is None && t.selected_card_index == 0
            &&& sent(oa, ob, 2)
            &&& shows_board(ob.last(), b.board_tiles@, b.board_players@, b.board_monster, b.current_turn)
        } else {
            &&& b.current_turn == a.current_turn
            &&& sent(oa, ob, 1)
        }
    }
}

impl GameChannel {
    /// User `user_id` connects (see `connects_user`).
    pub fn on_connect(&mut self, user_id: &str, outbox: &mut Vec<ServerToClient>)
        requires
            old(self).wf(),
        ensures
            final(self).wf(),
            connects_user(*old(self), *final(self), user_id@, old(outbox)@, final(outbox)@),
    {
        let ghost a = *self;
        let ghost oa = outbox@;
        let known = get_player_index(self, user_id);
        proof {
            if names(a.players@).contains(user_id@) {
                let k = choose|k: int| 0 <= k < names(a.players@).len() && names(a.players@)[k] == user_id@;
                lemma_slot_exists(a.players@, user_id@, k);
            }
            if user_slot(a.players@, user_id@) is Some {
                let k = choose|k: int| is_first_slot(a.players@, user_id@, k);
                assert(names(a.players@)[k] == user_id@);
            }
        }
        if known.is_none() {
            self.players.push(user_id.to_owned());
            assert(names(self.players@) == names(a.players@).push(user_id@));
        }
        broadcast_connected_users(&self.players, outbox);
        let ghost o1 = outbox@;
        if self.players.len() == 2 {
            self.current_turn_index = 0;
            broadcast_turn(
                &self.players,
                self.current_turn_index,
                &mut self.current_turn,
                &self.board_tiles,
                &self.board_players,
                &self.board_monster,
                outbox,
            );
        } else if self.players.len() == 1 {
            broadcast_board_state(&self.board_tiles, &self.board_players, &self.board_monster, &None, outbox);
        }
        proof {
            assert(outbox@[oa.len() as int] == o1.last());
            assert(outbox@.take(oa.len() as int) == o1.take(oa.len() as int));
        }
    }

    /// User `user_id` leaves (see `disconnects_user`).
    pub fn on_disconnect(&mut self, user_id: &str, outbox: &mut Vec<ServerToClient>)
        requires
            old(self).wf(),
        ensures
            final(self).wf(),
            disconnects_user(*old(self), *final(self), user_id@, old(outbox)@, final(outbox)@),
    {
        let ghost a = *self;
        let ghost oa = outbox@;
        let uid = user_id.to_owned();
        let was_turn = self.current_turn_index < self.players.len() && self.players[self.current_turn_index] == uid;
        let mut kept: Vec<String> = Vec::new();
        let mut i: usize = 0;
        while i < self.players.len()
            invariant
                i <= self.players@.len(),
                *self == a,
                uid@ == user_id@,
                kept@ == self.players@.take(i as int).filter(|p: String| p@ != user_id@),
            decreases self.players@.len() - i,
        {
            proof {
                assert(self.players@.take(i + 1) == self.players@.take(i as int).push(self.players@[i as int]));
                self.players@.take(i as int).lemma_filter_push(self.players@[i as int], |p: String| p@ != user_id@);
            }
            if self.players[i] != uid {
                kept.push(self.players[i].clone());
            }
            i += 1;
        }
        assert(self.players@.take(i as int) == self.players@);
        self.players = kept;
        broadcast_connected_users(&self.players, outbox);
        let ghost o1 = outbox@;
        if self.players.len() < 2 {
            self.current_turn = None;
            broadcast_board_state(&self.board_tiles, &self.board_players, &self.board_monster, &None, outbox);
        } else {
            if was_turn {
                self.current_turn_index = self.current_turn_index % self.players.len();
            }
            broadcast_turn(
                &self.players,
                self.current_turn_index,
                &mut self.current_turn,
                &self.board_tiles,
                &self.board_players,
                &self.board_monster,
                outbox,
            );
        }
        proof {
            assert(outbox@[oa.len() as int] == o1.last());
            assert(outbox@.take(oa.len() as int) == o1.take(oa.len() as int));
        }
    }
}

/// Sends the list of connected users.
pub fn broadcast_connected_users(users: &Vec<String>, outbox: &mut Vec<ServerToClient>)
    ensures
        sent(old(outbox)@, final(outbox)@, 1),
        is_connected_users(final(outbox)@.last(), users@),
{
    outbox.push(ServerToClient::ConnectedUsers { users: copy_names(users.as_slice()) });
    assert(outbox@.take(old(outbox)@.len() as int) == old(outbox)@);
}

impl GameChannel {
    /// Answers a request of user `user_id`, each by its handler.
    pub fn on_data(&mut self, user_id: &str, data: ClientToServer, outbox: &mut Vec<ServerToClient>)
        requires
            old(self).wf(),
            data is EndTurn ==> old(self).players@.len() > 0 && old(self).current_turn_index < usize::MAX,
            data matches ClientToServer::FireballShot { target_tile, .. } ==> ((old(self).current_turn matches Some(
                t,
            ) && t.player_id@ == user_id@ && target_tile < old(self).board_tiles@.len()) ==> old(
                self,
            ).seat_of(user_id@) is Some),
        ensures
            final(self).wf(),
            match data {
                ClientToServer::EndTurn => ends_turn(*old(self), *final(self), user_id@, old(outbox)@, final(outbox)@),
                ClientToServer::SelectCard { hand_index } => selects_card(*old(self), *final(self), user_id@, hand_index)
                    && final(outbox)@ == old(outbox)@,
                ClientToServer::CancelSelectCard { hand_index } => cancels_card(
                    *old(self),
                    *final(self),
                    user_id@,
                    hand_index,
                    old(outbox)@,
                    final(outbox)@,
                ),
                ClientToServer::ConfirmCard { card } => plays_card(*old(self), *final(self), user_id@, card, old(outbox)@, final(outbox)@),
                ClientToServer::RotateTile { tile_index } => rotates_tile(
                    *old(self),
                    *final(self),
                    user_id@,
                    tile_index,
                    old(outbox)@,
                    final(outbox)@,
                ),
                ClientToServer::MovePlayer { new_position, is_canceled } => moves_player(
                    *old(self),
                    *final(self),
                    user_id@,
                    new_position,
                    is_canceled,
                    old(outbox)@,
                    final(outbox)@,
                ),
                ClientToServer::SwapTiles { tile_index_1, tile_index_2 } => swaps_tiles(
                    *old(self),
                    *final(self),
                    tile_index_1,
                    tile_index_2,
                    old(outbox)@,
                    final(outbox)@,
                ),
                ClientToServer::FireballShot { target_tile, direction } => shoots_fireball(
                    *old(self),
                    *final(self),
                    user_id@,
                    target_tile,
                    direction,
                    old(outbox)@,
                    final(outbox)@,
                ),
                ClientToServer::FireballHit { shooter_id, from_tile_index, .. } => lands_fireball(
                    *old(self),
                    *final(self),
                    shooter_id@,
                    from_tile_index,
                    old(outbox)@,
                    final(outbox)@,
                ),
            },
    {
        match data {
            ClientToServer::EndTurn => {
                handle_end_turn(self, user_id, outbox);
            },
            ClientToServer::SelectCard { hand_index } => {
                handle_select_card(self, user_id, hand_index);
            },
            ClientToServer::CancelSelectCard { hand_index } => {
                handle_cancel_select_card(self, user_id, hand_index, outbox);
            },
            ClientToServer::ConfirmCard { card } => {
                handle_confirm_card(self, user_id, card, outbox);
            },
            ClientToServer::RotateTile { tile_index } => {
                handle_rotate_tile(self, user_id, tile_index, outbox);
            },
            ClientToServer::MovePlayer { new_position, is_canceled } => {
                handle_move_player(self, user_id, new_position, is_canceled, outbox);
            },
            ClientToServer::SwapTiles { tile_index_1, tile_index_2 } => {
                handle_swap_tiles(self, tile_index_1, tile_index_2, outbox);
            },
            ClientToServer::FireballShot { target_tile, direction } => {
                handle_fireball_shot(self, user_id, target_tile, direction, outbox);
            },
            ClientToServer::FireballHit { shooter_id, from_tile_index, direction } => {
                handle_fireball_hit(self, shooter_id.as_str(), from_tile_index, direction, outbox);
            },
        }
    }
}

} // verus!
