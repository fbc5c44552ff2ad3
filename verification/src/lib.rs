//! Rooms, players and boards of a two-player grid battle game: the registry
//! of rooms, the life of one connection, and the random placement of the
//! fleet. Sending and receiving is left to the caller, who gets the messages
//! to send as values.

use vstd::prelude::*;

pub mod handlers;
pub mod utils;

verus! {

/// The axis direction along which a ship extends from its origin cell.
#[derive(Debug, Clone, Copy, PartialEq, Eq, Structural)]
pub enum Direction {
    Up,
    Right,
    Down,
    Left,
}

/// The state of one grid cell.
#[derive(Debug, Clone, Copy, PartialEq, Eq, Structural)]
pub enum Cell {
    Empty,
    Hitted,
    Ship,
    HittedShip,
}

/// A grid of one hundred cells, row by row: the cell in row `r` and column
/// `c` stands at index `r * 10 + c`.
pub type Board = [Cell; 100];

impl Direction {
    /// The index step from one cell of a run to the next.
    pub open spec fn cell_offset(self) -> int {
        match self {
            Direction::Up => -10,
            Direction::Right => 1,
            Direction::Down => 10,
            Direction::Left => -1,
        }
    }

    /// Whether a run in this direction stays within one row.
    pub open spec fn is_horizontal(self) -> bool {
        self == Direction::Right || self == Direction::Left
    }

    /// The direction that a drawn number stands for.
    pub open spec fn spec_from_index(n: int) -> Direction {
        if n == 0 {
            Direction::Up
        } else if n == 1 {
            Direction::Right
        } else if n == 2 {
            Direction::Down
        } else {
            Direction::Left
        }
    }

    /// Maps a drawn number to a direction: 0, 1 and 2 are `Up`, `Right` and
    /// `Down`, every other number is `Left`.
    pub fn from_index(n: i32) -> (d: Direction)
        ensures
            d == Direction::spec_from_index(n as int),
    {
        match n {
            0 => Direction::Up,
            1 => Direction::Right,
            2 => Direction::Down,
            _ => Direction::Left,
        }
    }
}

/// One player of a room. `tx` is the handle through which messages reach the
/// player's connection; nothing here looks inside it.
#[derive(Clone, Debug)]
pub struct Player<H> {
    pub id: u32,
    pub board: Board,
    pub tx: H,
}

/// A room for up to two players.
#[derive(Clone, Debug)]
pub struct Room<H> {
    pub id: u32,
    pub players: Vec<Player<H>>,
    pub next_player_id: u32,
    pub turn: Option<u32>,
}

/// All rooms, in the order of their creation.
#[derive(Clone, Debug)]
pub struct State<H> {
    pub rooms: Vec<Room<H>>,
    pub next_room_id: u32,
}

impl<H> Room<H> {
    /// Whether the turn, if it is set, is with a player who is in the room.
    pub open spec fn turn_names_player(&self) -> bool {
        self.turn matches Some(holder) ==> self.player_index(holder) is Some
    }

    /// A room holds at most two players, whose ids differ and were all handed
    /// out by the room's counter; the turn, if it is set, is with one of
    /// them.
    pub open spec fn wf(&self) -> bool {
        &&& self.players@.len() <= 2
        &&& self.next_player_id >= 1
        &&& forall|p: int|
            0 <= p < self.players@.len() ==> 1 <= (#[trigger] self.players@[p]).id
                < self.next_player_id
        &&& forall|p: int, q: int|
            0 <= p < q < self.players@.len() ==> (#[trigger] self.players@[p]).id
                != (#[trigger] self.players@[q]).id
        &&& self.turn_names_player()
    }

    /// The position of the first player whose id is not `player_id`.
    pub open spec fn opponent_index(&self, player_id: u32) -> Option<int> {
        if self.players@.len() >= 1 && self.players@[0].id != player_id {
            Some(0)
        } else if self.players@.len() >= 2 && self.players@[1].id != player_id {
            Some(1)
        } else {
            None
        }
    }

    /// The position of the player with id `player_id`.
    pub open spec fn player_index(&self, player_id: u32) -> Option<int> {
        if self.players@.len() >= 1 && self.players@[0].id == player_id {
            Some(0)
        } else if self.players@.len() >= 2 && self.players@[1].id == player_id {
            Some(1)
        } else {
            None
        }
    }

    /// Whether the two rooms differ at most in the boards of their players.
    pub open spec fn same_but_boards(&self, other: &Room<H>) -> bool {
        &&& self.id == other.id
        &&& self.next_player_id == other.next_player_id
        &&& self.turn == other.turn
        &&& self.players@.len() == other.players@.len()
        &&& forall|p: int|
            0 <= p < self.players@.len() ==> (#[trigger] self.players@[p]).id
                == other.players@[p].id && self.players@[p].tx == other.players@[p].tx
    }
}

impl<H> State<H> {
    /// The rooms are numbered from 1 in the order of their creation, the
    /// counter holds the next number, and every room is well formed.
    pub open spec fn wf(&self) -> bool {
        &&& self.next_room_id == self.rooms@.len() + 1
        &&& forall|r: int|
            0 <= r < self.rooms@.len() ==> (#[trigger] self.rooms@[r]).wf() && self.rooms@[r].id
                == r + 1
    }

    /// The position of the room with id `room_id`, if there is one.
    pub open spec fn room_index(&self, room_id: u32) -> Option<int> {
        if 1 <= room_id <= self.rooms@.len() {
            Some(room_id - 1)
        } else {
            None
        }
    }

    /// Whether the two states are the same but for the room at position `r`.
    pub open spec fn same_but_room(&self, other: &State<H>, r: int) -> bool {
        &&& self.next_room_id == other.next_room_id
        &&& self.rooms@.len() == other.rooms@.len()
        &&& forall|s: int|
            0 <= s < self.rooms@.len() && s != r ==> #[trigger] self.rooms@[s] == other.rooms@[s]
    }

    /// Finds the room with id `room_id`.
    pub fn find_room(&self, room_id: u32) -> (found: Option<usize>)
        requires
            self.wf(),
        ensures
            found matches Some(r) ==> self.room_index(room_id) == Some(r as int),
            found is None ==> self.room_index(room_id) is None,
    {
        let mut r: usize = 0;
        while r < self.rooms.len()
            invariant
                self.wf(),
                r <= self.rooms@.len(),
                forall|s: int| 0 <= s < r ==> (#[trigger] self.rooms@[s]).id != room_id,
            decreases self.rooms@.len() - r,
        {
            if self.rooms[r].id == room_id {
                return Some(r);
            }
            r = r + 1;
        }
        proof {
            if 1 <= room_id <= self.rooms@.len() {
                assert(self.rooms@[room_id - 1].id == room_id);
            }
        }
        None
    }
}

impl<H> Room<H> {
    /// Finds the first player whose id is not `player_id`.
    pub fn find_opponent(&self, player_id: u32) -> (found: Option<usize>)
        requires
            self.wf(),
        ensures
            found matches Some(p) ==> self.opponent_index(player_id) == Some(p as int),
            found is None ==> self.opponent_index(player_id) is None,
    {
        let mut p: usize = 0;
        while p < self.players.len()
            invariant
                self.wf(),
                p <= self.players@.len(),
                forall|q: int| 0 <= q < p ==> (#[trigger] self.players@[q]).id == player_id,
            decreases self.players@.len() - p,
        {
            if self.players[p].id != player_id {
                return Some(p);
            }
            p = p + 1;
        }
        None
    }
}

impl<H> State<H> {
    /// The handle of player `player_id` of the room with id `room_id`, if
    /// the room exists and the player is in it.
    pub fn player_handle(&self, room_id: u32, player_id: u32) -> (handle: Option<&H>)
        requires
            self.wf(),
        ensures
            handle == match self.room_index(room_id) {
                Some(r) => match self.rooms@[r].player_index(player_id) {
                    Some(p) => Some(&self.rooms@[r].players@[p].tx),
                    None => None,
                },
                None => None,
            },
    {
        let r = match self.find_room(room_id) {
            Some(r) => r,
            None => {
                return None;
            },
        };
        let room = &self.rooms[r];
        assert(room.wf());
        let mut p: usize = 0;
        while p < room.players.len()
            invariant
                room.wf(),
                self.room_index(room_id) == Some(r as int),
                *room == self.rooms@[r as int],
                p <= room.players@.len(),
                forall|q: int| 0 <= q < p ==> (#[trigger] room.players@[q]).id != player_id,
            decreases room.players@.len() - p,
        {
            if room.players[p].id == player_id {
                return Some(&room.players[p].tx);
            }
            p = p + 1;
        }
        None
    }
}

impl<H> Room<H> {
    /// Tests whether the room is well formed.
    pub fn is_well_formed(&self) -> (ok: bool)
        ensures
            ok == self.wf(),
    {
        let n = self.players.len();
        let next = self.next_player_id;
        if n > 2 || next < 1 {
            return false;
        }
        match self.turn {
            None => {},
            Some(holder) => {
                let first_has = n >= 1 && self.players[0].id == holder;
                let second_has = n >= 2 && self.players[1].id == holder;
                if !first_has && !second_has {
                    return false;
                }
            },
        }
        if n >= 1 {
            let first = self.players[0].id;
            if first < 1 || first >= next {
                assert(!(1 <= self.players@[0].id < next));
                return false;
            }
        }
        if n >= 2 {
            let second = self.players[1].id;
            if second < 1 || second >= next || second == self.players[0].id {
                assert(!(1 <= self.players@[1].id < next) || self.players@[0].id
                    == self.players@[1].id);
                return false;
            }
        }
        true
    }
}

impl<H> State<H> {
    /// Tests whether the state is well formed.
    pub fn is_well_formed(&self) -> (ok: bool)
        ensures
            ok == self.wf(),
    {
        let n = self.rooms.len();
        if n >= 0xffff_ffff || self.next_room_id as usize != n + 1 {
            return false;
        }
        let mut r: usize = 0;
        while r < n
            invariant
                n == self.rooms@.len(),
                n < 0xffff_ffff,
                self.next_room_id == n + 1,
                r <= n,
                forall|s: int|
                    0 <= s < r ==> (#[trigger] self.rooms@[s]).wf() && self.rooms@[s].id == s + 1,
            decreases n - r,
        {
            if !self.rooms[r].is_well_formed() || self.rooms[r].id as usize != r + 1 {
                assert(!(self.rooms@[r as int].wf() && self.rooms@[r as int].id == r + 1));
                return false;
            }
            r = r + 1;
        }
        true
    }
}

impl<H> Default for State<H> {
    /// No room yet; the first room will have id 1.
    fn default() -> (state: Self)
        ensures
            state.rooms@.len() == 0,
            state.next_room_id == 1,
            state.wf(),
    {
        State { rooms: Vec::new(), next_room_id: 1 }
    }
}

/// Sent to a player who entered a room.
#[derive(Clone, Copy, Debug, PartialEq, Eq)]
pub struct RoomEnteredEvent {
    pub board: Board,
    pub has_opponent: bool,
    pub has_turn: bool,
}

/// Sent to a player whose opponent entered.
#[derive(Clone, Copy, Debug, PartialEq, Eq)]
pub struct OpponentEnteredEvent {}

/// Sent to a player whose opponent left, with the player's new board.
#[derive(Clone, Copy, Debug, PartialEq, Eq)]
pub struct OpponentLeftEvent {
    pub board: Board,
}

/// Sent to the shooter: what the shot at `index` found on the opponent's
/// board, and whether it sank the last ship.
#[derive(Clone, Copy, Debug, PartialEq, Eq)]
pub struct OpponentCellShotResultEvent {
    pub index: u8,
    pub has_ship: bool,
    pub won: bool,
}

/// Sent to the player who was shot at.
#[derive(Clone, Copy, Debug, PartialEq, Eq)]
pub struct CellShotResultEvent {
    pub index: u8,
    pub lost: bool,
}

/// Sent to each player after a restart, with the player's new board.
#[derive(Clone, Copy, Debug, PartialEq, Eq)]
pub struct RestartedEvent {
    pub board: Board,
}

/// A message from the server to a player.
#[derive(Clone, Copy, Debug, PartialEq, Eq)]
pub enum WebSocketSentEvent {
    RoomEntered(RoomEnteredEvent),
    OpponentEntered(OpponentEnteredEvent),
    OpponentLeft(OpponentLeftEvent),
    OpponentCellShotResult(OpponentCellShotResultEvent),
    CellShotResult(CellShotResultEvent),
    Restarted(RestartedEvent),
}

/// A player shoots at the cell at `index` of the opponent's board.
#[derive(Clone, Copy, Debug, PartialEq, Eq)]
pub struct CellShotEvent {
    pub index: u8,
}

/// A player asks for new boards.
#[derive(Clone, Copy, Debug, PartialEq, Eq)]
pub struct RestartEvent {}

/// A message from a player to the server.
#[derive(Clone, Copy, Debug, PartialEq, Eq)]
pub enum WebSocketReceivedEvent {
    CellShot(CellShotEvent),
    Restart(RestartEvent),
}

} // verus!
