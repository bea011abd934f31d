use vstd::prelude::*;

use crate::card::{is_fresh_card, Card, CardEffect};
use crate::constants::HAND_SIZE;
use crate::direction::Direction;
use crate::fireball::Fireball;
use crate::messages::CurrentTurn;
use crate::monster::Monster;
use crate::player::{Player, PlayerId};
use crate::scene::Scene;
use crate::server::{is_first_seat, lemma_first_seat, seat_slot};
use crate::tile::{clear_highlights, grid_x, grid_y, Tile};

verus! {

/// What a client knows of the game. The user names are paired with the
/// seats they play in `user_id_to_player_id`, at most once each.
#[derive(Debug)]
pub struct GameState {
    pub frame: usize,
    pub tiles: Vec<Tile>,
    pub players: Vec<Player>,
    pub monster: Option<Monster>,
    pub fireballs: Vec<Fireball>,
    pub selected_card: Option<Card>,
    pub scene: Scene,
    /// This client's user name.
    pub user: String,
    /// The users in the game, in order of arrival.
    pub in_lobby: Vec<String>,
    pub debug: bool,
    pub user_id_to_player_id: Vec<(String, PlayerId)>,
    pub play_area: Vec<Card>,
    pub current_turn: Option<CurrentTurn>,
    /// The rooms picked for a swap so far.
    pub swap_tiles_selected: Vec<usize>,
    /// Swaps of rooms that wait for their animation to finish.
    pub pending_swaps: Vec<(usize, usize)>,
}

/// `i` is the first pair of `m` for user `u`.
pub open spec fn is_first_key(m: Seq<(String, PlayerId)>, u: Seq<char>, i: int) -> bool {
    &&& 0 <= i < m.len()
    &&& m[i].0@ == u
    &&& forall|j: int| 0 <= j < i ==> (#[trigger] m[j]).0@ != u
}

/// The seat paired with user `u`, if any.
pub open spec fn lookup(m: Seq<(String, PlayerId)>, u: Seq<char>) -> Option<PlayerId> {
    if exists|i: int| is_first_key(m, u, i) {
        Some(m[choose|i: int| is_first_key(m, u, i)].1)
    } else {
        None
    }
}

/// The first pair for a user is unique.
pub proof fn lemma_first_key(m: Seq<(String, PlayerId)>, u: Seq<char>, i: int)
    requires
        is_first_key(m, u, i),
    ensures
        lookup(m, u) == Some(m[i].1),
{
    let c = choose|c: int| is_first_key(m, u, c);
    if c < i {
        assert(m[c].0@ != u);
    } else if c > i {
        assert(m[i].0@ != u);
    }
}

/// The board player of user `u` in state `s`: the first player in the seat
/// paired with `u`.
pub open spec fn user_seat(s: GameState, u: Seq<char>) -> Option<int> {
    match lookup(s.user_id_to_player_id@, u) {
        Some(id) => seat_slot(s.players@, id),
        None => None,
    }
}

/// The board player whose turn it is in state `s`.
pub open spec fn turn_seat(s: GameState) -> Option<int> {
    match s.current_turn {
        Some(t) => user_seat(s, t.player_id@),
        None => None,
    }
}

/// The seat the lobby gives user `u`: the first user plays seat one and the
/// second seat two (the later pairing wins when both are the same user).
pub open spec fn lobby_seat(users: Seq<String>, u: Seq<char>) -> Option<PlayerId> {
    if users.len() >= 2 && users[1]@ == u {
        Some(PlayerId::Player2)
    } else if users.len() >= 1 && users[0]@ == u {
        Some(PlayerId::Player1)
    } else {
        None
    }
}

/// The rooms `b` are the rooms `a` with every highlight off.
pub open spec fn cleared(a: Seq<Tile>, b: Seq<Tile>) -> bool {
    &&& b.len() == a.len()
    &&& forall|i: int|
        0 <= i < a.len() ==> {
            let t = #[trigger] b[i];
            let o = a[i];
            &&& !t.is_highlighted
            &&& t.entrances == o.entrances
            &&& t.original_rotation == o.original_rotation
            &&& t.original_location == o.original_location
            &&& t.current_rotation == o.current_rotation
        }
}

/// `b` is the list `a` cut or filled up with empty slots to `size` cards.
pub open spec fn filled_to(a: Seq<Card>, b: Seq<Card>, size: int) -> bool {
    &&& b.len() == size
    &&& forall|k: int| 0 <= k < size && k < a.len() ==> #[trigger] b[k] == a[k]
    &&& forall|k: int| a.len() <= k < size ==> is_fresh_card(#[trigger] b[k], CardEffect::Dummy)
}

/// Makes the list exactly `size` cards long, adding empty slots at its end
/// or cutting it.
pub fn fill_with_dummies(vec: &mut Vec<Card>, size: usize)
    ensures
        filled_to(old(vec)@, final(vec)@, size as int),
{
    while vec.len() < size
        invariant
            forall|k: int| 0 <= k < vec@.len() && k < old(vec)@.len() ==> #[trigger] vec@[k] == old(vec)@[k],
            forall|k: int| old(vec)@.len() <= k < vec@.len() ==> is_fresh_card(#[trigger] vec@[k], CardEffect::Dummy),
            vec@.len() >= old(vec)@.len() || vec@ == old(vec)@,
        decreases size - vec@.len(),
    {
        vec.push(Card::dummy_card());
    }
    vec.truncate(size);
}

/// `b` is the state `a` at the start of a new turn: no card held up, no
/// rooms picked or lit, no swap waiting, and an empty play area.
pub open spec fn turn_reset(a: GameState, b: GameState) -> bool {
    &&& b.selected_card is None
    &&& b.swap_tiles_selected@.len() == 0
    &&& cleared(a.tiles@, b.tiles@)
    &&& b.pending_swaps@.len() == 0
    &&& filled_to(Seq::empty(), b.play_area@, HAND_SIZE as int)
    &&& b.frame == a.frame
    &&& b.players == a.players
    &&& b.monster == a.monster
    &&& b.fireballs == a.fireballs
    &&& b.scene == a.scene
    &&& b.user == a.user
    &&& b.in_lobby == a.in_lobby
    &&& b.debug == a.debug
    &&& b.user_id_to_player_id == a.user_id_to_player_id
    &&& b.current_turn == a.current_turn
}

/// The place of the first pair for user `user_id`.
fn find_user(m: &Vec<(String, PlayerId)>, user_id: &str) -> (r: Option<usize>)
    ensures
        match r {
            Some(i) => is_first_key(m@, user_id@, i as int) && lookup(m@, user_id@) == Some(m@[i as int].1),
            None => lookup(m@, user_id@) is None,
        },
{
    let uid = user_id.to_owned();
    let mut i: usize = 0;
    while i < m.len()
        invariant
            i <= m@.len(),
            uid@ == user_id@,
            forall|j: int| 0 <= j < i ==> (#[trigger] m@[j]).0@ != user_id@,
        decreases m@.len() - i,
    {
        if m[i].0 == uid {
            proof {
                lemma_first_key(m@, user_id@, i as int);
            }
            return Some(i);
        }
        i += 1;
    }
    proof {
        if exists|k: int| is_first_key(m@, user_id@, k) {
            let k = choose|k: int| is_first_key(m@, user_id@, k);
            assert(m@[k].0@ == user_id@);
        }
    }
    None
}

/// The place of the first player in seat `id`.
fn find_seat(players: &Vec<Player>, id: PlayerId) -> (r: Option<usize>)
    ensures
        match r {
            Some(i) => seat_slot(players@, id) == Some(i as int),
            None => seat_slot(players@, id) is None,
        },
{
    let mut i: usize = 0;
    while i < players.len()
        invariant
            i <= players@.len(),
            forall|j: int| 0 <= j < i ==> (#[trigger] players@[j]).id != id,
        decreases players@.len() - i,
    {
        if players[i].id == id {
            proof {
                lemma_first_seat(players@, id, i as int);
            }
            return Some(i);
        }
        i += 1;
    }
    proof {
        if exists|k: int| is_first_seat(players@, id, k) {
            let k = choose|k: int| is_first_seat(players@, id, k);
            assert(players@[k].id == id);
        }
    }
    None
}

/// Pairs user `key` with seat `value`, replacing the user's earlier pairing.
fn pair_user(m: &mut Vec<(String, PlayerId)>, key: &String, value: PlayerId)
    ensures
        lookup(final(m)@, key@) == Some(value),
        forall|u: Seq<char>| u != key@ ==> #[trigger] lookup(final(m)@, u) == lookup(old(m)@, u),
{
    match find_user(m, key.as_str()) {
        Some(i) => {
            let ghost before = m@;
            m.set(i, (key.clone(), value));
            proof {
                assert(is_first_key(m@, key@, i as int));
                lemma_first_key(m@, key@, i as int);
                assert forall|u: Seq<char>| u != key@ implies #[trigger] lookup(m@, u) == lookup(before, u) by {
                    lemma_lookup_frame(before, m@, u);
                }
            }
        },
        None => {
            let ghost before = m@;
            m.push((key.clone(), value));
            proof {
                let n = before.len() as int;
                assert forall|j: int| 0 <= j < n implies (#[trigger] m@[j]).0@ != key@ by {
                    assert(m@[j] == before[j]);
                    if before[j].0@ == key@ {
                        assert(exists|k: int| is_first_key(before, key@, k)) by {
                            crate::client::lemma_key_exists(before, key@, j);
                        }
                    }
                }
                assert(is_first_key(m@, key@, n));
                lemma_first_key(m@, key@, n);
                assert forall|u: Seq<char>| u != key@ implies #[trigger] lookup(m@, u) == lookup(before, u) by {
                    lemma_lookup_frame(before, m@, u);
                }
            }
        },
    }
}

/// A pair for `u` at `k` means a first pair for `u` exists.
pub proof fn lemma_key_exists(m: Seq<(String, PlayerId)>, u: Seq<char>, k: int)
    requires
        0 <= k < m.len(),
        m[k].0@ == u,
    ensures
        exists|i: int| is_first_key(m, u, i),
    decreases k,
{
    if exists|j: int| 0 <= j < k && (#[trigger] m[j]).0@ == u {
        let j = choose|j: int| 0 <= j < k && (#[trigger] m[j]).0@ == u;
        lemma_key_exists(m, u, j);
    } else {
        assert(is_first_key(m, u, k));
    }
}

/// Pairs for users other than `u` may change or be added at the end
/// without changing the seat paired with `u`.
pub proof fn lemma_lookup_frame(a: Seq<(String, PlayerId)>, b: Seq<(String, PlayerId)>, u: Seq<char>)
    requires
        b.len() >= a.len(),
        forall|j: int| 0 <= j < a.len() && (a[j].0@ == u || b[j].0@ == u) ==> #[trigger] b[j] == a[j],
        forall|j: int| a.len() <= j < b.len() ==> (#[trigger] b[j]).0@ != u,
    ensures
        lookup(b, u) == lookup(a, u),
{
    if exists|k: int| is_first_key(a, u, k) {
        let k = choose|k: int| is_first_key(a, u, k);
        assert(b[k] == a[k]);
        assert forall|j: int| 0 <= j < k implies (#[trigger] b[j]).0@ != u by {
            assert(a[j].0@ != u);
        }
        lemma_first_key(a, u, k);
        lemma_first_key(b, u, k);
    } else if exists|k: int| is_first_key(b, u, k) {
        let k = choose|k: int| is_first_key(b, u, k);
        assert(k < a.len());
        assert(b[k] == a[k]);
        assert forall|j: int| 0 <= j < k implies (#[trigger] a[j]).0@ != u by {
            if a[j].0@ == u {
                assert(b[j] == a[j]);
            }
        }
        assert(is_first_key(a, u, k));
    }
}

impl GameState {
    /// A client in the menu: no board yet, no user, debugging on, and an
    /// empty play area.
    pub fn new() -> (s: GameState)
        ensures
            s.frame == 0,
            s.tiles@.len() == 0,
            s.players@.len() == 0,
            s.monster is None,
            s.fireballs@.len() == 0,
            s.selected_card is None,
            s.scene is Menu,
            s.user@ == Seq::<char>::empty(),
            s.in_lobby@.len() == 0,
            s.debug,
            s.user_id_to_player_id@.len() == 0,
            filled_to(Seq::empty(), s.play_area@, HAND_SIZE as int),
            s.current_turn is None,
            s.swap_tiles_selected@.len() == 0,
            s.pending_swaps@.len() == 0,
    {
        let mut play_area: Vec<Card> = Vec::new();
        fill_with_dummies(&mut play_area, HAND_SIZE);
        GameState {
            frame: 0,
            tiles: Vec::new(),
            players: Vec::new(),
            monster: None,
            fireballs: Vec::new(),
            selected_card: None,
            scene: Scene::Menu,
            user: String::new(),
            in_lobby: Vec::new(),
            debug: true,
            user_id_to_player_id: Vec::new(),
            play_area,
            current_turn: None,
            swap_tiles_selected: Vec::new(),
            pending_swaps: Vec::new(),
        }
    }

    /// Whether the turn is this client's user's.
    pub fn is_my_turn(&self) -> (r: bool)
        ensures
            r == (self.current_turn matches Some(t) && t.player_id@ == self.user@),
    {
        match &self.current_turn {
            Some(turn) => self.user == turn.player_id,
            None => false,
        }
    }

    /// The board player whose turn it is (see `turn_seat`).
    pub fn get_turn_player(&self) -> (r: Option<&Player>)
        ensures
            match turn_seat(*self) {
                Some(i) => r == Some(&self.players@[i]),
                None => r is None,
            },
    {
        match &self.current_turn {
            Some(turn) => match self.player_index_of(turn.player_id.as_str()) {
                Some(i) => Some(&self.players[i]),
                None => None,
            },
            None => None,
        }
    }

    /// The place in `players` of user `user_id`'s board player (see
    /// `user_seat`).
    pub fn player_index_of(&self, user_id: &str) -> (r: Option<usize>)
        ensures
            match r {
                Some(i) => user_seat(*self, user_id@) == Some(i as int),
                None => user_seat(*self, user_id@) is None,
            },
    {
        match find_user(&self.user_id_to_player_id, user_id) {
            Some(k) => find_seat(&self.players, self.user_id_to_player_id[k].1),
            None => None,
        }
    }

    /// This client's board player.
    pub fn get_local_player(&self) -> (r: Option<&Player>)
        ensures
            match user_seat(*self, self.user@) {
                Some(i) => r == Some(&self.players@[i]),
                None => r is None,
            },
    {
        match self.player_index_of(self.user.as_str()) {
            Some(i) => Some(&self.players[i]),
            None => None,
        }
    }

    /// This client's board player.
    pub fn get_local_player_ref(&self) -> (r: Option<&Player>)
        ensures
            match user_seat(*self, self.user@) {
                Some(i) => r == Some(&self.players@[i]),
                None => r is None,
            },
    {
        self.get_local_player()
    }

    /// The place in `players` of this client's board player, for changing
    /// it.
    pub fn get_local_player_mut(&self) -> (r: Option<usize>)
        ensures
            match r {
                Some(i) => user_seat(*self, self.user@) == Some(i as int),
                None => user_seat(*self, self.user@) is None,
            },
    {
        self.player_index_of(self.user.as_str())
    }

    /// The place in `players` of user `user_id`'s board player, for
    /// changing it.
    pub fn get_player_by_user_id(&self, user_id: &str) -> (r: Option<usize>)
        ensures
            match r {
                Some(i) => user_seat(*self, user_id@) == Some(i as int),
                None => user_seat(*self, user_id@) is None,
            },
    {
        self.player_index_of(user_id)
    }

    /// Starts a new turn (see `turn_reset`); the server sends the new board.
    pub fn start_new_turn(&mut self)
        ensures
            turn_reset(*old(self), *final(self)),
            final(self).tiles@.len() == old(self).tiles@.len(),
    {
        self.selected_card = None;
        self.swap_tiles_selected.clear();
        clear_highlights(&mut self.tiles);
        self.pending_swaps.clear();
        self.play_area.clear();
        fill_with_dummies(&mut self.play_area, HAND_SIZE);
    }

    /// The user enters the game from the menu as `user_id` (`"NO_ID"` when
    /// there is none); the first two users of the lobby are paired with the
    /// two seats.
    pub fn start_game(&mut self, user_id: Option<String>)
        ensures
            final(self).scene is Game,
            final(self).user@ == match user_id {
                Some(u) => u@,
                None => "NO_ID"@,
            },
            forall|u: Seq<char>| #[trigger] lookup(final(self).user_id_to_player_id@, u) == if old(self).in_lobby@.len() >= 2 {
                lobby_seat(old(self).in_lobby@, u)
            } else {
                None
            },
            final(self).in_lobby == old(self).in_lobby,
            final(self).tiles == old(self).tiles,
            final(self).players == old(self).players,
            final(self).current_turn == old(self).current_turn,
            final(self).selected_card == old(self).selected_card,
            final(self).play_area == old(self).play_area,
    {
        self.scene = Scene::Game;
        self.user = match user_id {
            Some(u) => u,
            None => "NO_ID".to_string(),
        };
        self.user_id_to_player_id = Vec::new();
        if self.in_lobby.len() >= 2 {
            pair_user(&mut self.user_id_to_player_id, &self.in_lobby[0], PlayerId::Player1);
            pair_user(&mut self.user_id_to_player_id, &self.in_lobby[1], PlayerId::Player2);
        }
    }
}

/// The users now in the game: the lobby becomes `users`, the first user
/// plays seat one and the second seat two (see `lobby_seat`).
pub fn receive_connected_users(game_state: &mut GameState, users: Vec<String>)
    ensures
        final(game_state).in_lobby@ == users@,
        forall|u: Seq<char>| #[trigger] lookup(final(game_state).user_id_to_player_id@, u) == lobby_seat(users@, u),
        final(game_state).tiles == old(game_state).tiles,
        final(game_state).players == old(game_state).players,
        final(game_state).user == old(game_state).user,
        final(game_state).current_turn == old(game_state).current_turn,
        final(game_state).selected_card == old(game_state).selected_card,
        final(game_state).play_area == old(game_state).play_area,
        final(game_state).scene == old(game_state).scene,
{
    game_state.in_lobby = users;
    game_state.user_id_to_player_id = Vec::new();
    if game_state.in_lobby.len() > 0 {
        pair_user(&mut game_state.user_id_to_player_id, &game_state.in_lobby[0], PlayerId::Player1);
        if game_state.in_lobby.len() >= 2 {
            pair_user(&mut game_state.user_id_to_player_id, &game_state.in_lobby[1], PlayerId::Player2);
        }
    }
}

/// The turn passes to another user, or starts or stops.
pub open spec fn turn_changed(a: Option<CurrentTurn>, b: Option<CurrentTurn>) -> bool {
    match (a, b) {
        (Some(x), Some(y)) => x.player_id@ != y.player_id@,
        _ => a is Some != b is Some,
    }
}

/// The board from the server replaces the client's; when the turn changed
/// hands, a new turn starts first (see `turn_reset`).
pub fn receive_board_state(
    game_state: &mut GameState,
    tiles: Vec<Tile>,
    players: Vec<Player>,
    monster: Option<Monster>,
    current_turn: Option<CurrentTurn>,
)
    ensures
        final(game_state).tiles == tiles,
        final(game_state).players == players,
        final(game_state).monster == monster,
        final(game_state).current_turn == current_turn,
        if turn_changed(old(game_state).current_turn, current_turn) {
            &&& final(game_state).selected_card is None
            &&& final(game_state).swap_tiles_selected@.len() == 0
            &&& final(game_state).pending_swaps@.len() == 0
            &&& filled_to(Seq::empty(), final(game_state).play_area@, HAND_SIZE as int)
        } else {
            &&& final(game_state).selected_card == old(game_state).selected_card
            &&& final(game_state).swap_tiles_selected == old(game_state).swap_tiles_selected
            &&& final(game_state).pending_swaps == old(game_state).pending_swaps
            &&& final(game_state).play_area == old(game_state).play_area
        },
        final(game_state).user == old(game_state).user,
        final(game_state).in_lobby == old(game_state).in_lobby,
        final(game_state).user_id_to_player_id == old(game_state).user_id_to_player_id,
        final(game_state).fireballs == old(game_state).fireballs,
        final(game_state).scene == old(game_state).scene,
{
    let changed = match (&game_state.current_turn, &current_turn) {
        (Some(old_turn), Some(new_turn)) => old_turn.player_id != new_turn.player_id,
        _ => game_state.current_turn.is_some() != current_turn.is_some(),
    };
    if changed {
        game_state.start_new_turn();
    }
    game_state.tiles = tiles;
    game_state.players = players;
    game_state.monster = monster;
    game_state.current_turn = current_turn;
}

/// A user took back a card; when it is this client's user, the card is no
/// longer held up and the lights go off.
pub fn receive_card_cancelled(game_state: &mut GameState, card: &Card, player_id: &str)
    ensures
        if old(game_state).user@ == player_id@ {
            &&& final(game_state).selected_card is None
            &&& cleared(old(game_state).tiles@, final(game_state).tiles@)
        } else {
            &&& final(game_state).selected_card == old(game_state).selected_card
            &&& final(game_state).tiles == old(game_state).tiles
        },
        final(game_state).players == old(game_state).players,
        final(game_state).play_area == old(game_state).play_area,
        final(game_state).current_turn == old(game_state).current_turn,
        final(game_state).user == old(game_state).user,
{
    let uid = player_id.to_owned();
    if game_state.user == uid {
        game_state.selected_card = None;
        clear_highlights(&mut game_state.tiles);
    }
}

/// A user played a card; when it is this client's user, the card is no
/// longer held up and the lights go off.
pub fn receive_card_confirmed(game_state: &mut GameState, card: &Card, player_id: &str)
    ensures
        if old(game_state).user@ == player_id@ {
            &&& final(game_state).selected_card is None
            &&& cleared(old(game_state).tiles@, final(game_state).tiles@)
        } else {
            &&& final(game_state).selected_card == old(game_state).selected_card
            &&& final(game_state).tiles == old(game_state).tiles
        },
        final(game_state).players == old(game_state).players,
        final(game_state).play_area == old(game_state).play_area,
        final(game_state).current_turn == old(game_state).current_turn,
        final(game_state).user == old(game_state).user,
{
    let uid = player_id.to_owned();
    if game_state.user == uid {
        game_state.selected_card = None;
        clear_highlights(&mut game_state.tiles);
    }
}

/// A user turned a room; the turn is shown unless this client's user made
/// it, whose client shows it already. Returns whether to show it.
pub fn receive_tile_rotation(game_state: &GameState, tile_index: &usize, tile: &Tile, player_id: &str) -> (r: bool)
    ensures
        r == (game_state.user@ != player_id@),
{
    let uid = player_id.to_owned();
    !(game_state.user == uid)
}

/// A user moved. Unless it is this client's user (whose client shows the
/// move already) or the user has no board player, returns where that player
/// stands now, to show the walk from there.
pub fn receive_player_moved(
    game_state: &GameState,
    player_id: &str,
    new_position: &(usize, usize),
    is_canceled: bool,
) -> (r: Option<(usize, usize)>)
    ensures
        if game_state.user@ == player_id@ {
            r is None
        } else {
            match user_seat(*game_state, player_id@) {
                Some(i) => r == Some(game_state.players@[i].position),
                None => r is None,
            }
        },
{
    let uid = player_id.to_owned();
    if game_state.user == uid {
        return None;
    }
    match game_state.get_player_by_user_id(player_id) {
        Some(i) => Some(game_state.players[i].position),
        None => None,
    }
}

/// The way a player is shown walking from `from_pos` to `to_pos`: the walk
/// `Tile::find_walkable_path` finds (see `is_least_walk`), or the two rooms
/// alone when no walk leads there.
pub fn movement_path(from_pos: (usize, usize), to_pos: (usize, usize), tiles: &Vec<Tile>) -> (r: Vec<usize>)
    requires
        from_pos.0 < 5 && from_pos.1 < 5,
        to_pos.0 < 5 && to_pos.1 < 5,
        tiles@.len() >= crate::constants::BOARD_TILES,
    ensures
        ({
            let s = from_pos.1 * 5 + from_pos.0;
            let t = to_pos.1 * 5 + to_pos.0;
            if crate::tile::reachable(tiles@, s, t) {
                crate::walk_order::is_least_walk(tiles@, r@, s, t)
            } else {
                r@ == seq![s as usize, t as usize]
            }
        }),
{
    let start_index = Tile::index(from_pos.0, from_pos.1);
    let target_index = Tile::index(to_pos.0, to_pos.1);
    match Tile::find_walkable_path(start_index, target_index, tiles.as_slice()) {
        Some(p) => p,
        None => {
            let mut p: Vec<usize> = Vec::new();
            p.push(start_index);
            p.push(target_index);
            p
        },
    }
}

/// Two rooms were exchanged; the exchange waits for its animation.
pub fn receive_tiles_swapped(game_state: &mut GameState, tile_index_1: &usize, tile_index_2: &usize)
    ensures
        final(game_state).pending_swaps@ == old(game_state).pending_swaps@.push((*tile_index_1, *tile_index_2)),
        final(game_state).tiles == old(game_state).tiles,
        final(game_state).players == old(game_state).players,
{
    game_state.pending_swaps.push((*tile_index_1, *tile_index_2));
}

/// Another user shot a fireball from room `tile_index` towards
/// `direction`: a fireball of ten damage in that user's seat starts there.
/// Returns its id and where the shooter stands, to show the flight; nothing
/// happens for this client's own user. The shooter must have a board player.
pub fn receive_fireball_shot(
    game_state: &mut GameState,
    player_id: &str,
    tile_index: &usize,
    direction: &Direction,
) -> (r: Option<(u32, (usize, usize))>)
    requires
        old(game_state).user@ != player_id@ ==> user_seat(*old(game_state), player_id@) is Some,
    ensures
        if old(game_state).user@ == player_id@ {
            r is None && final(game_state).fireballs == old(game_state).fireballs
        } else {
            let p = old(game_state).players@[user_seat(*old(game_state), player_id@)->0];
            let f = final(game_state).fireballs@.last();
            &&& final(game_state).fireballs@.len() == old(game_state).fireballs@.len() + 1
            &&& final(game_state).fireballs@.drop_last() == old(game_state).fireballs@
            &&& f.damage == 10
            &&& f.position == (grid_x(*tile_index as int) as usize, grid_y(*tile_index as int) as usize)
            &&& f.direction == *direction
            &&& f.is_active
            &&& f.shooter_id == p.id
            &&& r == Some((f.id, p.position))
        },
        final(game_state).players == old(game_state).players,
        final(game_state).tiles == old(game_state).tiles,
{
    let uid = player_id.to_owned();
    if game_state.user == uid {
        return None;
    }
    let i = game_state.get_player_by_user_id(player_id).unwrap();
    let position = game_state.players[i].position;
    let fireball = Fireball::new(10, Tile::position(*tile_index), *direction, game_state.players[i].id);
    let fireball_id = fireball.id;
    game_state.fireballs.push(fireball);
    assert(game_state.fireballs@.drop_last() == old(game_state).fireballs@);
    Some((fireball_id, position))
}

/// Health after a hit of `damage`.
pub open spec fn hurt(health: u32, damage: u32) -> u32 {
    if damage >= health {
        0
    } else {
        (health - damage) as u32
    }
}

/// The players `b` are `a` with the board player of user `u` in `s`, if
/// any, hurt by `damage`.
pub open spec fn hurts_user(s: GameState, a: Seq<Player>, b: Seq<Player>, u: Seq<char>, damage: u32) -> bool {
    match user_seat(s, u) {
        Some(i) => b == a.update(i, Player { health: hurt(a[i].health, damage), ..a[i] }),
        None => b == a,
    }
}

/// A fireball landed: the monster takes `monster_damage` when given, the
/// board player of `target_id` takes `damage_dealt`, and the fireballs are
/// gone.
pub fn receive_fireball_hit_result(
    game_state: &mut GameState,
    player_id: &str,
    target_id: &str,
    damage_dealt: &u32,
    monster_damage: Option<u32>,
)
    ensures
        final(game_state).monster == match (old(game_state).monster, monster_damage) {
            (Some(m), Some(d)) => Some(Monster { health: hurt(m.health, d), ..m }),
            _ => old(game_state).monster,
        },
        hurts_user(*old(game_state), old(game_state).players@, final(game_state).players@, target_id@, *damage_dealt),
        final(game_state).fireballs@.len() == 0,
        final(game_state).tiles == old(game_state).tiles,
        final(game_state).user_id_to_player_id == old(game_state).user_id_to_player_id,
{
    if let Some(damage) = monster_damage {
        if let Some(monster) = &mut game_state.monster {
            monster.take_damage(damage);
        }
    }
    if let Some(i) = game_state.get_player_by_user_id(target_id) {
        game_state.players[i].take_damage(*damage_dealt);
        proof {
            assert(game_state.players@ =~= old(game_state).players@.update(
                i as int,
                Player { health: hurt(old(game_state).players@[i as int].health, *damage_dealt), ..old(game_state).players@[i as int] },
            ));
        }
    }
    game_state.fireballs.clear();
}

/// The monster hit `player_id`'s board player for `damage_dealt`.
pub fn receive_player_damage_from_monster(game_state: &mut GameState, player_id: &str, damage_dealt: u32)
    ensures
        hurts_user(*old(game_state), old(game_state).players@, final(game_state).players@, player_id@, damage_dealt),
        final(game_state).tiles == old(game_state).tiles,
        final(game_state).monster == old(game_state).monster,
        final(game_state).user_id_to_player_id == old(game_state).user_id_to_player_id,
{
    if let Some(i) = game_state.get_player_by_user_id(player_id) {
        game_state.players[i].take_damage(damage_dealt);
        proof {
            assert(game_state.players@ =~= old(game_state).players@.update(
                i as int,
                Player { health: hurt(old(game_state).players@[i as int].health, damage_dealt), ..old(game_state).players@[i as int] },
            ));
        }
    }
}

impl GameState {
    /// The game is over, with `winner_ids` winning and `loser_ids` losing.
    pub fn game_over_cooperative(&mut self, winner_ids: &[String], loser_ids: &[String])
        ensures
            final(self).scene matches Scene::GameOver { winner_ids: w, loser_ids: l } && w@ == winner_ids@
                && l@ == loser_ids@,
            final(self).tiles == old(self).tiles,
            final(self).players == old(self).players,
    {
        self.scene = Scene::GameOver {
            winner_ids: crate::messages::copy_names(winner_ids),
            loser_ids: crate::messages::copy_names(loser_ids),
        };
    }
}

/// The game ended: the users won together when two or more winners and no
/// losers are named, lost together when no winners and two or more losers
/// are named; anything else ends the game as lost by `"Error"`.
pub fn receive_game_over(game_state: &mut GameState, winner_ids: &[String], loser_ids: &[String])
    ensures
        final(game_state).scene matches Scene::GameOver { winner_ids: w, loser_ids: l } && (if winner_ids@.len() > 1
            && loser_ids@.len() == 0 {
            w@ == winner_ids@ && l@.len() == 0
        } else if winner_ids@.len() == 0 && loser_ids@.len() > 1 {
            w@.len() == 0 && l@ == loser_ids@
        } else {
            w@.len() == 0 && l@.len() == 1 && l@[0]@ == "Error"@
        }),
        final(game_state).tiles == old(game_state).tiles,
        final(game_state).players == old(game_state).players,
{
    let none: Vec<String> = Vec::new();
    if winner_ids.len() > 1 && loser_ids.len() == 0 {
        game_state.game_over_cooperative(winner_ids, none.as_slice());
    } else if winner_ids.len() == 0 && loser_ids.len() > 1 {
        game_state.game_over_cooperative(none.as_slice(), loser_ids);
    } else {
        let mut err: Vec<String> = Vec::new();
        err.push("Error".to_string());
        game_state.game_over_cooperative(none.as_slice(), err.as_slice());
    }
}

/// The game starts over: no card held up, no rooms picked or lit, no swaps
/// waiting, no fireballs, and an empty play area.
pub fn receive_reset_game(game_state: &mut GameState)
    ensures
        final(game_state).selected_card is None,
        final(game_state).swap_tiles_selected@.len() == 0,
        final(game_state).pending_swaps@.len() == 0,
        final(game_state).fireballs@.len() == 0,
        cleared(old(game_state).tiles@, final(game_state).tiles@),
        filled_to(Seq::empty(), final(game_state).play_area@, HAND_SIZE as int),
        final(game_state).players == old(game_state).players,
        final(game_state).current_turn == old(game_state).current_turn,
        final(game_state).user == old(game_state).user,
{
    game_state.fireballs.clear();
    game_state.selected_card = None;
    game_state.swap_tiles_selected.clear();
    game_state.pending_swaps.clear();
    game_state.start_new_turn();
    game_state.play_area.clear();
    fill_with_dummies(&mut game_state.play_area, HAND_SIZE);
}

} // verus!
