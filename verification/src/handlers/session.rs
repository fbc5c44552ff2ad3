use crate::handlers::enter_room::{
    decision, enter, entry_deliveries, handle, joined, leave, leave_applied, restart,
    restart_applied, shoot, shot_applied, Delivery, Rejection,
};
use crate::{Board, CellShotEvent, State};
use vstd::prelude::*;

verus! {

/// Where one connection stands in its life. A session goes from
/// `Connecting` over `Validating` to `Active` and ends `Closed`; a request
/// that is turned down goes to `Closed` at once.
#[derive(Clone, Copy, Debug, PartialEq, Eq, Structural)]
pub enum Session {
    /// A request has come in and nothing is decided.
    Connecting,
    /// The request names a room with a place left; the connection is not
    /// open yet.
    Validating { room_id: u32 },
    /// The connection is open and the player is in the room.
    Active { room_id: u32, player_id: u32 },
    /// The connection is over, or never came about.
    Closed,
}

impl Session {
    /// Decides on the request of a session that is `Connecting`: with the id
    /// of a room that has a place left the session goes on to `Validating`,
    /// else it is `Closed` with the reason. A session in any other state
    /// stays as it is.
    pub fn validate<H>(self, state: &State<H>, room_id: &str) -> (r: (Session, Option<Rejection>))
        requires
            state.wf(),
        ensures
            r == match self {
                Session::Connecting => match decision(state, room_id@) {
                    Ok(id) => (Session::Validating { room_id: id }, None::<Rejection>),
                    Err(rejection) => (Session::Closed, Some(rejection)),
                },
                _ => (self, None),
            },
    {
        match self {
            Session::Connecting => match handle(state, room_id) {
                Ok(id) => (Session::Validating { room_id: id }, None),
                Err(rejection) => (Session::Closed, Some(rejection)),
            },
            _ => (self, None),
        }
    }

    /// Whether a player can enter for this session: it is `Validating` and
    /// its room still exists with a place left.
    pub open spec fn can_open<H>(self, state: State<H>) -> bool {
        self matches Session::Validating { room_id } && state.room_index(room_id) matches Some(r)
            && state.rooms@[r].players@.len() < 2
    }

    /// Opens the connection of a session that is `Validating`: the player
    /// enters the room with `board` and handle `tx`, the session is `Active`
    /// with the player's id, and the messages of the entry are returned. If
    /// the room has no place left by now, the session is `Closed` and nothing
    /// changes. A session in any other state stays as it is.
    pub fn open<H>(self, state: &mut State<H>, board: Board, tx: H) -> (r: (Session, Vec<Delivery>))
        requires
            old(state).wf(),
            self matches Session::Validating { room_id } ==> (old(state).room_index(
                room_id,
            ) matches Some(i) ==> old(state).rooms@[i].next_player_id < u32::MAX),
        ensures
            final(state).wf(),
            match self {
                Session::Validating { room_id } => if self.can_open(*old(state)) {
                    let i = old(state).room_index(room_id).unwrap();
                    let player_id = old(state).rooms@[i].next_player_id;
                    &&& joined(*old(state), *final(state), i, player_id, board, tx)
                    &&& r.0 == Session::Active { room_id, player_id }
                    &&& r.1@ == entry_deliveries(old(state).rooms@[i], board)
                } else {
                    *final(state) == *old(state) && r.0 == Session::Closed && r.1@.len() == 0
                },
                _ => *final(state) == *old(state) && r.0 == self && r.1@.len() == 0,
            },
    {
        match self {
            Session::Validating { room_id } => match enter(state, room_id, board, tx) {
                Ok(entered) => (
                    Session::Active { room_id, player_id: entered.player_id },
                    entered.deliveries,
                ),
                Err(_) => (Session::Closed, Vec::new()),
            },
            _ => (self, Vec::new()),
        }
    }

    /// Applies a shot that came in over the connection: for an `Active`
    /// session it is the shot of the session's player in the session's room;
    /// in any other state nothing happens.
    pub fn shot<H>(self, state: &mut State<H>, event: &CellShotEvent) -> (deliveries: Vec<Delivery>)
        requires
            old(state).wf(),
        ensures
            final(state).wf(),
            match self {
                Session::Active { room_id, player_id } => shot_applied(
                    *old(state),
                    *final(state),
                    room_id,
                    player_id,
                    event.index,
                    deliveries@,
                ),
                _ => *final(state) == *old(state) && deliveries@.len() == 0,
            },
    {
        match self {
            Session::Active { room_id, player_id } => shoot(state, room_id, player_id, event),
            _ => Vec::new(),
        }
    }

    /// Applies a restart that came in over the connection: for an `Active`
    /// session the players of the session's room get the new boards; in any
    /// other state nothing happens.
    pub fn restart<H>(self, state: &mut State<H>, first: Board, second: Board) -> (deliveries: Vec<
        Delivery,
    >)
        requires
            old(state).wf(),
        ensures
            final(state).wf(),
            match self {
                Session::Active { room_id, .. } => restart_applied(
                    *old(state),
                    *final(state),
                    room_id,
                    first,
                    second,
                    deliveries@,
                ),
                _ => *final(state) == *old(state) && deliveries@.len() == 0,
            },
    {
        match self {
            Session::Active { room_id, .. } => restart(state, room_id, first, second),
            _ => Vec::new(),
        }
    }

    /// Ends the session. An `Active` session's player leaves the room, and
    /// `board` goes to an opponent who stays; in any other state nothing
    /// changes. The session is `Closed` afterwards, so the room is left once
    /// and no more.
    pub fn close<H>(self, state: &mut State<H>, board: Board) -> (r: (Session, Vec<Delivery>))
        requires
            old(state).wf(),
        ensures
            final(state).wf(),
            r.0 == Session::Closed,
            match self {
                Session::Active { room_id, player_id } => leave_applied(
                    *old(state),
                    *final(state),
                    room_id,
                    player_id,
                    board,
                    r.1@,
                ),
                _ => *final(state) == *old(state) && r.1@.len() == 0,
            },
    {
        match self {
            Session::Active { room_id, player_id } => (
                Session::Closed,
                leave(state, room_id, player_id, board),
            ),
            _ => (Session::Closed, Vec::new()),
        }
    }
}

} // verus!
