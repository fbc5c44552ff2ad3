use crate::{Room, State};
use vstd::prelude::*;

verus! {

/// The answer to a request for a new room.
#[derive(Clone, Copy, Debug, PartialEq, Eq)]
pub struct CreateRoomResponse {
    pub room_id: u32,
}

/// Whether `post` is `pre` with one more room, empty and with id `room_id`,
/// which is the id that `pre` held ready.
pub open spec fn room_created<H>(pre: State<H>, post: State<H>, room_id: u32) -> bool {
    &&& room_id == pre.next_room_id
    &&& post.next_room_id == pre.next_room_id + 1
    &&& post.rooms@.len() == pre.rooms@.len() + 1
    &&& forall|r: int| 0 <= r < pre.rooms@.len() ==> #[trigger] post.rooms@[r] == pre.rooms@[r]
    &&& post.rooms@.last().id == room_id
    &&& post.rooms@.last().players@.len() == 0
    &&& post.rooms@.last().next_player_id == 1
    &&& post.rooms@.last().turn is None
}

/// Creates an empty room under the next id and returns that id.
pub fn handle<H>(state: &mut State<H>) -> (response: CreateRoomResponse)
    requires
        old(state).wf(),
        old(state).next_room_id < u32::MAX,
    ensures
        final(state).wf(),
        room_created(*old(state), *final(state), response.room_id),
{
    let room_id = state.next_room_id;
    state.rooms.push(Room { id: room_id, next_player_id: 1, players: Vec::new(), turn: None });
    state.next_room_id = state.next_room_id + 1;
    CreateRoomResponse { room_id }
}

/// Rooms created one after the other get ids that rise by one, and the first
/// room of a state that starts at id 1 gets id 1.
pub proof fn lemma_room_ids_rise<H>(
    start: State<H>,
    middle: State<H>,
    end: State<H>,
    first: u32,
    second: u32,
)
    requires
        room_created(start, middle, first),
        room_created(middle, end, second),
    ensures
        first < second,
        second == first + 1,
        start.next_room_id == 1 ==> first == 1,
{
}

} // verus!
