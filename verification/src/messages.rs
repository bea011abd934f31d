use vstd::prelude::*;

use crate::card::{card_eq, Card};
use crate::direction::Direction;
use crate::monster::Monster;
use crate::player::{same_player, Player};
use crate::tile::{same_tile, Tile};

verus! {

/// Whose turn it is and which card that player holds up.
#[derive(Debug)]
pub struct CurrentTurn {
    pub player_id: String,
    pub selected_card: Option<Card>,
    pub selected_card_index: usize,
}

/// What the server tells every client.
#[derive(Debug)]
pub enum ServerToClient {
    ConnectedUsers { users: Vec<String> },
    BoardState {
        tiles: Vec<Tile>,
        players: Vec<Player>,
        monster: Option<Monster>,
        current_turn: Option<CurrentTurn>,
    },
    CardCancelled { player_id: String, card: Card },
    CardConfirmed { player_id: String, card: Card },
    TileRotated { player_id: String, tile_index: usize, tile: Tile },
    PlayerMoved { player_id: String, new_position: (usize, usize), is_canceled: bool },
    TilesSwapped { tile_index_1: usize, tile_index_2: usize },
    FireballShot { player_id: String, tile_index: usize, direction: Direction },
    FireballHit {
        player_id: String,
        target_id: String,
        damage_dealt: u32,
        monster_damage: Option<u32>,
    },
    PlayerDamageFromMonster { player_id: String, damage_dealt: u32 },
    GameOver { winner_ids: Vec<String>, loser_ids: Vec<String> },
}

/// What a client asks of the server.
#[derive(Debug)]
pub enum ClientToServer {
    EndTurn,
    SelectCard { hand_index: usize },
    CancelSelectCard { hand_index: usize },
    ConfirmCard { card: Card },
    RotateTile { tile_index: usize },
    MovePlayer { new_position: (usize, usize), is_canceled: bool },
    SwapTiles { tile_index_1: usize, tile_index_2: usize },
    FireballShot { target_tile: usize, direction: Direction },
    FireballHit { shooter_id: String, from_tile_index: usize, direction: Direction },
}

/// Two optional cards are both absent or equal cards.
pub open spec fn same_card_opt(a: Option<Card>, b: Option<Card>) -> bool {
    match (a, b) {
        (Some(x), Some(y)) => card_eq(x, y),
        (None, None) => true,
        _ => false,
    }
}

/// Two turns agree in every field.
pub open spec fn same_turn(a: CurrentTurn, b: CurrentTurn) -> bool {
    &&& a.player_id@ == b.player_id@
    &&& same_card_opt(a.selected_card, b.selected_card)
    &&& a.selected_card_index == b.selected_card_index
}

/// Two optional turns are both absent or agree.
pub open spec fn same_turn_opt(a: Option<CurrentTurn>, b: Option<CurrentTurn>) -> bool {
    match (a, b) {
        (Some(x), Some(y)) => same_turn(x, y),
        (None, None) => true,
        _ => false,
    }
}

/// Two boards agree room by room.
pub open spec fn same_tiles(a: Seq<Tile>, b: Seq<Tile>) -> bool {
    &&& a.len() == b.len()
    &&& forall|i: int| 0 <= i < a.len() ==> same_tile(#[trigger] a[i], b[i])
}

/// Two lists of players agree player by player.
pub open spec fn same_players(a: Seq<Player>, b: Seq<Player>) -> bool {
    &&& a.len() == b.len()
    &&& forall|i: int| 0 <= i < a.len() ==> same_player(#[trigger] a[i], b[i])
}

/// The user names, as texts.
pub open spec fn names(s: Seq<String>) -> Seq<Seq<char>> {
    s.map_values(|x: String| x@)
}

/// `m` shows the board made of `tiles`, `players`, `monster` and `turn`.
pub open spec fn shows_board(
    m: ServerToClient,
    tiles: Seq<Tile>,
    players: Seq<Player>,
    monster: Option<Monster>,
    turn: Option<CurrentTurn>,
) -> bool {
    match m {
        ServerToClient::BoardState { tiles: t, players: p, monster: mo, current_turn: c } => {
            &&& same_tiles(t@, tiles)
            &&& same_players(p@, players)
            &&& mo == monster
            &&& same_turn_opt(c, turn)
        },
        _ => false,
    }
}

/// `new` is `old` with `k` messages added at its end.
pub open spec fn sent(old: Seq<ServerToClient>, new: Seq<ServerToClient>, k: int) -> bool {
    &&& new.len() == old.len() + k
    &&& new.take(old.len() as int) == old
}

/// `m` lists the connected users `users`.
pub open spec fn is_connected_users(m: ServerToClient, users: Seq<String>) -> bool {
    m matches ServerToClient::ConnectedUsers { users: u } && u@ == users
}

/// `m` tells that user `u` took back `card`.
pub open spec fn is_card_cancelled(m: ServerToClient, u: Seq<char>, card: Card) -> bool {
    m matches ServerToClient::CardCancelled { player_id, card: c } && player_id@ == u && card_eq(c, card)
}

/// `m` tells that user `u` played `card`.
pub open spec fn is_card_confirmed(m: ServerToClient, u: Seq<char>, card: Card) -> bool {
    m matches ServerToClient::CardConfirmed { player_id, card: c } && player_id@ == u && card_eq(c, card)
}

/// `m` tells that user `u` turned the room at `index`, which now is `tile`.
pub open spec fn is_tile_rotated(m: ServerToClient, u: Seq<char>, index: usize, tile: Tile) -> bool {
    m matches ServerToClient::TileRotated { player_id, tile_index, tile: t } && player_id@ == u
        && tile_index == index && same_tile(t, tile)
}

/// `m` tells that user `u` moved to `pos`, or was moved back there when
/// `canceled`.
pub open spec fn is_player_moved(m: ServerToClient, u: Seq<char>, pos: (usize, usize), canceled: bool) -> bool {
    m matches ServerToClient::PlayerMoved { player_id, new_position, is_canceled } && player_id@ == u
        && new_position == pos && is_canceled == canceled
}

/// `m` tells that user `u` shot a fireball from room `index` towards `d`.
pub open spec fn is_fireball_shot(m: ServerToClient, u: Seq<char>, index: usize, d: Direction) -> bool {
    m matches ServerToClient::FireballShot { player_id, tile_index, direction } && player_id@ == u
        && tile_index == index && direction == d
}

/// `m` tells that the fireball of `shooter` hit `target` for `damage`, and
/// the monster for `monster_damage` when given.
pub open spec fn is_fireball_hit(
    m: ServerToClient,
    shooter: Seq<char>,
    target: Seq<char>,
    damage: u32,
    monster_damage: Option<u32>,
) -> bool {
    m matches ServerToClient::FireballHit { player_id, target_id, damage_dealt, monster_damage: md }
        && player_id@ == shooter && target_id@ == target && damage_dealt == damage && md
        == monster_damage
}

/// `m` tells that the monster hit user `u` for `damage`.
pub open spec fn is_monster_damage(m: ServerToClient, u: Seq<char>, damage: u32) -> bool {
    m matches ServerToClient::PlayerDamageFromMonster { player_id, damage_dealt } && player_id@ == u
        && damage_dealt == damage
}

/// `m` ends the game with the users `winners` and `losers`.
pub open spec fn is_game_over(m: ServerToClient, winners: Seq<Seq<char>>, losers: Seq<Seq<char>>) -> bool {
    m matches ServerToClient::GameOver { winner_ids, loser_ids } && names(winner_ids@) == winners
        && names(loser_ids@) == losers
}

/// A copy of every room of the board.
pub fn copy_tiles(tiles: &[Tile]) -> (r: Vec<Tile>)
    ensures
        same_tiles(r@, tiles@),
{
    let mut r: Vec<Tile> = Vec::new();
    let mut i: usize = 0;
    while i < tiles.len()
        invariant
            i <= tiles@.len(),
            r@.len() == i,
            forall|k: int| 0 <= k < i ==> same_tile(#[trigger] r@[k], tiles@[k]),
        decreases tiles@.len() - i,
    {
        r.push(tiles[i].duplicate());
        i += 1;
    }
    r
}

/// A copy of every player.
pub fn copy_players(players: &[Player]) -> (r: Vec<Player>)
    ensures
        same_players(r@, players@),
{
    let mut r: Vec<Player> = Vec::new();
    let mut i: usize = 0;
    while i < players.len()
        invariant
            i <= players@.len(),
            r@.len() == i,
            forall|k: int| 0 <= k < i ==> same_player(#[trigger] r@[k], players@[k]),
        decreases players@.len() - i,
    {
        r.push(players[i].copy());
        i += 1;
    }
    r
}

/// A copy of every user name.
pub fn copy_names(users: &[String]) -> (r: Vec<String>)
    ensures
        r@ == users@,
{
    let mut r: Vec<String> = Vec::new();
    let mut i: usize = 0;
    while i < users.len()
        invariant
            i <= users@.len(),
            r@ == users@.take(i as int),
        decreases users@.len() - i,
    {
        r.push(users[i].clone());
        i += 1;
        assert(r@ == users@.take(i as int));
    }
    assert(users@.take(i as int) == users@);
    r
}

/// A copy of an optional card.
pub fn copy_card_opt(c: &Option<Card>) -> (r: Option<Card>)
    ensures
        same_card_opt(r, *c),
{
    match c {
        Some(x) => Some(x.copy()),
        None => None,
    }
}

impl CurrentTurn {
    /// A copy of the turn.
    pub fn copy(&self) -> (r: CurrentTurn)
        ensures
            same_turn(r, *self),
    {
        CurrentTurn {
            player_id: self.player_id.clone(),
            selected_card: copy_card_opt(&self.selected_card),
            selected_card_index: self.selected_card_index,
        }
    }
}

/// A copy of an optional turn.
pub fn copy_turn_opt(t: &Option<CurrentTurn>) -> (r: Option<CurrentTurn>)
    ensures
        same_turn_opt(r, *t),
{
    match t {
        Some(x) => Some(x.copy()),
        None => None,
    }
}

/// A copy of an optional monster.
pub fn copy_monster_opt(m: &Option<Monster>) -> (r: Option<Monster>)
    ensures
        r == *m,
{
    match m {
        Some(x) => Some(x.copy()),
        None => None,
    }
}

} // verus!
