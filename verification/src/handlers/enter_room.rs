use crate::handlers::room_id::{parse_room_id, parsed_room_id};
use crate::utils::cell_shot::{after_shot, shot, shot_lands};
use crate::utils::fleet::ship_count;
use crate::{
    Board, Cell, CellShotEvent, CellShotResultEvent, OpponentCellShotResultEvent,
    OpponentEnteredEvent, OpponentLeftEvent, Player, RestartedEvent, Room, RoomEnteredEvent, State,
    WebSocketSentEvent,
};
use vstd::prelude::*;

verus! {

/// Why a request to enter a room is turned down before a connection is
/// opened.
#[derive(Clone, Copy, Debug, PartialEq, Eq, Structural)]
pub enum Rejection {
    /// The text is not a room id.
    InvalidRoomId,
    /// No room has this id, or the room has two players already.
    RoomNotFound,
}

/// Why a player could not enter a room.
#[derive(Clone, Copy, Debug, PartialEq, Eq, Structural)]
pub enum JoinError {
    RoomNotFound,
    RoomFull,
}

/// A message and the player of the room who is to get it.
#[derive(Clone, Copy, Debug, PartialEq, Eq)]
pub struct Delivery {
    pub to: u32,
    pub event: WebSocketSentEvent,
}

/// What entering a room gave: the new player's id and the messages to send.
#[derive(Clone, Debug, PartialEq, Eq)]
pub struct Entered {
    pub player_id: u32,
    pub deliveries: Vec<Delivery>,
}

/// Whether a room with id `room_id` exists and has a place left.
pub open spec fn admits<H>(state: &State<H>, room_id: u32) -> bool {
    state.room_index(room_id) matches Some(r) && state.rooms@[r].players@.len() < 2
}

/// The answer to a request to enter the room that `text` writes: text that
/// is no room id is invalid; an id without a room, or of a room with two
/// players, finds no room; else the request may go on with the id.
pub open spec fn decision<H>(state: &State<H>, text: Seq<char>) -> Result<u32, Rejection> {
    match parsed_room_id(text) {
        None => Err(Rejection::InvalidRoomId),
        Some(id) => if admits(state, id) {
            Ok(id)
        } else {
            Err(Rejection::RoomNotFound)
        },
    }
}

/// Decides on a request to enter the room that `room_id` writes: the id of
/// the room where the request may go on, else the reason why not.
pub fn handle<H>(state: &State<H>, room_id: &str) -> (r: Result<u32, Rejection>)
    requires
        state.wf(),
    ensures
        r == decision(state, room_id@),
{
    let id = match parse_room_id(room_id) {
        Some(id) => id,
        None => {
            return Err(Rejection::InvalidRoomId);
        },
    };
    match state.find_room(id) {
        Some(r) => {
            if state.rooms[r].players.len() < 2 {
                Ok(id)
            } else {
                Err(Rejection::RoomNotFound)
            }
        },
        None => Err(Rejection::RoomNotFound),
    }
}

/// Whether `post` is `pre` with one more player in the room at position `r`:
/// the player has the id that the room held ready, the given board and
/// handle, and stands last; the room's counter has moved on, and the turn
/// goes to the player if nobody has entered the room before.
pub open spec fn joined<H>(
    pre: State<H>,
    post: State<H>,
    r: int,
    player_id: u32,
    board: Board,
    tx: H,
) -> bool {
    let before = pre.rooms@[r];
    let after = post.rooms@[r];
    &&& post.same_but_room(&pre, r)
    &&& player_id == before.next_player_id
    &&& after.id == before.id
    &&& after.next_player_id == player_id + 1
    &&& after.players@ == before.players@.push(Player { id: player_id, board, tx })
    &&& after.turn == if before.next_player_id == 1 {
        Some(player_id)
    } else {
        before.turn
    }
}

/// The messages that follow when a player enters `room` with `board`: if a
/// player is there already, first the news for that player, then in any case
/// the greeting for the new player, who has the turn only in a room that
/// nobody had entered before.
pub open spec fn entry_deliveries<H>(room: Room<H>, board: Board) -> Seq<Delivery> {
    let greeting = Delivery {
        to: room.next_player_id,
        event: WebSocketSentEvent::RoomEntered(
            RoomEnteredEvent {
                board,
                has_opponent: room.players@.len() > 0,
                has_turn: room.next_player_id == 1,
            },
        ),
    };
    if room.players@.len() > 0 {
        seq![
            Delivery {
                to: room.players@[0].id,
                event: WebSocketSentEvent::OpponentEntered(OpponentEnteredEvent {  }),
            },
            greeting,
        ]
    } else {
        seq![greeting]
    }
}

/// What `enter` does: without a room with id `room_id` it fails with
/// `RoomNotFound`, in a room with two players with `RoomFull`, and the state
/// stays as it is; else the player is in the room, and the result holds the
/// player's id and the messages to send.
pub open spec fn enter_applied<H>(
    pre: State<H>,
    post: State<H>,
    room_id: u32,
    board: Board,
    tx: H,
    r: Result<Entered, JoinError>,
) -> bool {
    match pre.room_index(room_id) {
        None => r matches Err(JoinError::RoomNotFound) && post == pre,
        Some(i) => if pre.rooms@[i].players@.len() >= 2 {
            r matches Err(JoinError::RoomFull) && post == pre
        } else {
            r matches Ok(entered) && joined(pre, post, i, entered.player_id, board, tx)
                && entered.deliveries@ == entry_deliveries(pre.rooms@[i], board)
        },
    }
}

/// Lets a player with `board` and handle `tx` enter the room with id
/// `room_id`, and returns the player's id and the messages to send. A room
/// that does not exist or has two players is left as it is.
pub fn enter<H>(state: &mut State<H>, room_id: u32, board: Board, tx: H) -> (r: Result<
    Entered,
    JoinError,
>)
    requires
        old(state).wf(),
        old(state).room_index(room_id) matches Some(i) ==> old(state).rooms@[i].next_player_id
            < u32::MAX,
    ensures
        final(state).wf(),
        enter_applied(*old(state), *final(state), room_id, board, tx, r),
{
    let i = match state.find_room(room_id) {
        Some(i) => i,
        None => {
            return Err(JoinError::RoomNotFound);
        },
    };
    if state.rooms[i].players.len() >= 2 {
        return Err(JoinError::RoomFull);
    }
    let player_id = state.rooms[i].next_player_id;
    let has_turn = player_id == 1;
    let has_opponent = state.rooms[i].players.len() > 0;
    let mut deliveries: Vec<Delivery> = Vec::new();
    if has_opponent {
        deliveries.push(
            Delivery {
                to: state.rooms[i].players[0].id,
                event: WebSocketSentEvent::OpponentEntered(OpponentEnteredEvent {  }),
            },
        );
    }
    deliveries.push(
        Delivery {
            to: player_id,
            event: WebSocketSentEvent::RoomEntered(
                RoomEnteredEvent { board, has_opponent, has_turn },
            ),
        },
    );
    let room = &mut state.rooms[i];
    room.players.push(Player { id: player_id, board, tx });
    room.next_player_id = player_id + 1;
    if has_turn {
        room.turn = Some(player_id);
    }
    assert(deliveries@ =~= entry_deliveries(old(state).rooms@[i as int], board));
    Ok(Entered { player_id, deliveries })
}

/// The first player to enter a room that nobody has entered is greeted with
/// the turn and without an opponent; the player who enters next is greeted
/// without the turn and with an opponent.
pub proof fn lemma_first_to_enter_has_turn<H>(
    start: State<H>,
    middle: State<H>,
    r: int,
    first: u32,
    first_board: Board,
    first_tx: H,
    second_board: Board,
)
    requires
        start.wf(),
        0 <= r < start.rooms@.len(),
        start.rooms@[r].next_player_id == 1,
        joined(start, middle, r, first, first_board, first_tx),
    ensures
        entry_deliveries(start.rooms@[r], first_board) == seq![
            Delivery {
                to: first,
                event: WebSocketSentEvent::RoomEntered(
                    RoomEnteredEvent { board: first_board, has_opponent: false, has_turn: true },
                ),
            },
        ],
        entry_deliveries(middle.rooms@[r], second_board) == seq![
            Delivery {
                to: first,
                event: WebSocketSentEvent::OpponentEntered(OpponentEnteredEvent {  }),
            },
            Delivery {
                to: middle.rooms@[r].next_player_id,
                event: WebSocketSentEvent::RoomEntered(
                    RoomEnteredEvent { board: second_board, has_opponent: true, has_turn: false },
                ),
            },
        ],
{
    let room = start.rooms@[r];
    assert(room.wf());
    if room.players@.len() > 0 {
        assert(1 <= room.players@[0].id < room.next_player_id);
    }
    assert(middle.rooms@[r].players@[0].id == first);
}

/// Whether `post` is `pre` but for the board of the player at position `p`
/// of the room at position `r`, which is `board`.
pub open spec fn board_set<H>(pre: State<H>, post: State<H>, r: int, p: int, board: Seq<Cell>) -> bool {
    &&& post.same_but_room(&pre, r)
    &&& post.rooms@[r].same_but_boards(&pre.rooms@[r])
    &&& post.rooms@[r].players@[p].board@ == board
    &&& forall|q: int|
        0 <= q < pre.rooms@[r].players@.len() && q != p ==> (#[trigger] post.rooms@[r].players@[q])
            == pre.rooms@[r].players@[q]
}

/// The messages that follow a shot by `shooter` at the cell at `index` of
/// `board`, the board of `defender`: none if the shot does not land; else
/// first the shooter learns what the shot found and whether it sank the last
/// ship, then the defender learns of the shot and whether all is lost.
pub open spec fn shot_deliveries(shooter: u32, defender: u32, board: Seq<Cell>, index: u8) -> Seq<
    Delivery,
> {
    if shot_lands(board, index as int) {
        let won = ship_count(after_shot(board, index as int)) == 0;
        seq![
            Delivery {
                to: shooter,
                event: WebSocketSentEvent::OpponentCellShotResult(
                    OpponentCellShotResultEvent {
                        index,
                        has_ship: board[index as int] == Cell::Ship,
                        won,
                    },
                ),
            },
            Delivery {
                to: defender,
                event: WebSocketSentEvent::CellShotResult(CellShotResultEvent { index, lost: won }),
            },
        ]
    } else {
        Seq::empty()
    }
}

/// Of two shots at one cell only the first can land: a shot that lands
/// brings two messages, and any shot at the same cell after it brings none.
pub proof fn lemma_second_shot_sends_nothing(
    shooter: u32,
    defender: u32,
    board: Seq<Cell>,
    index: u8,
)
    ensures
        shot_lands(board, index as int) ==> shot_deliveries(shooter, defender, board, index).len()
            == 2,
        shot_deliveries(shooter, defender, after_shot(board, index as int), index).len() == 0,
        after_shot(after_shot(board, index as int), index as int) == after_shot(
            board,
            index as int,
        ),
{
}

/// What `shoot` does: the board of the opponent of player `player_id` in the
/// room with id `room_id` is the board after the shot, all else is as before,
/// and `deliveries` are the messages that follow the shot. Without such a
/// room or without an opponent nothing changes and nothing is sent.
pub open spec fn shot_applied<H>(
    pre: State<H>,
    post: State<H>,
    room_id: u32,
    player_id: u32,
    index: u8,
    deliveries: Seq<Delivery>,
) -> bool {
    match pre.room_index(room_id) {
        Some(r) => match pre.rooms@[r].opponent_index(player_id) {
            Some(p) => {
                let target = pre.rooms@[r].players@[p];
                &&& board_set(pre, post, r, p, after_shot(target.board@, index as int))
                &&& deliveries == shot_deliveries(player_id, target.id, target.board@, index)
            },
            None => post == pre && deliveries.len() == 0,
        },
        None => post == pre && deliveries.len() == 0,
    }
}

/// Applies a shot of player `player_id` in the room with id `room_id` to the
/// board of the opponent, the first other player of the room, and returns
/// the messages to send. Whose turn it is plays no part. Without such a room
/// or without an opponent nothing happens.
pub fn shoot<H>(state: &mut State<H>, room_id: u32, player_id: u32, event: &CellShotEvent) -> (deliveries:
    Vec<Delivery>)
    requires
        old(state).wf(),
    ensures
        final(state).wf(),
        shot_applied(*old(state), *final(state), room_id, player_id, event.index, deliveries@),
{
    let mut deliveries: Vec<Delivery> = Vec::new();
    let r = match state.find_room(room_id) {
        Some(r) => r,
        None => {
            return deliveries;
        },
    };
    let p = match state.rooms[r].find_opponent(player_id) {
        Some(p) => p,
        None => {
            return deliveries;
        },
    };
    let defender = state.rooms[r].players[p].id;
    let index = event.index;
    match shot(&mut state.rooms[r].players[p].board, index) {
        Some(result) => {
            deliveries.push(
                Delivery {
                    to: player_id,
                    event: WebSocketSentEvent::OpponentCellShotResult(
                        OpponentCellShotResultEvent {
                            index,
                            has_ship: result.has_ship,
                            won: result.won,
                        },
                    ),
                },
            );
            deliveries.push(
                Delivery {
                    to: defender,
                    event: WebSocketSentEvent::CellShotResult(
                        CellShotResultEvent { index, lost: result.won },
                    ),
                },
            );
        },
        None => {},
    }
    proof {
        let target = old(state).rooms@[r as int].players@[p as int];
        assert(deliveries@ =~= shot_deliveries(player_id, target.id, target.board@, index));
    }
    deliveries
}

/// Whether `post` is `pre` with new boards in the room at position `r`:
/// `first` for the first player and `second` for the second, as far as the
/// room has them.
pub open spec fn restarted<H>(pre: State<H>, post: State<H>, r: int, first: Board, second: Board) -> bool {
    let after = post.rooms@[r];
    &&& post.same_but_room(&pre, r)
    &&& after.same_but_boards(&pre.rooms@[r])
    &&& after.players@.len() >= 1 ==> after.players@[0].board == first
    &&& after.players@.len() >= 2 ==> after.players@[1].board == second
}

/// The messages that follow a restart of `room`: each player gets the new
/// board, the first player first.
pub open spec fn restart_deliveries<H>(room: Room<H>, first: Board, second: Board) -> Seq<Delivery> {
    Seq::new(
        room.players@.len(),
        |p: int|
            Delivery {
                to: room.players@[p].id,
                event: WebSocketSentEvent::Restarted(
                    RestartedEvent {
                        board: if p == 0 {
                            first
                        } else {
                            second
                        },
                    },
                ),
            },
    )
}

/// What `restart` does: the players of the room with id `room_id` have the
/// new boards, and `deliveries` tell each of them. Without such a room
/// nothing changes and nothing is sent.
pub open spec fn restart_applied<H>(
    pre: State<H>,
    post: State<H>,
    room_id: u32,
    first: Board,
    second: Board,
    deliveries: Seq<Delivery>,
) -> bool {
    match pre.room_index(room_id) {
        Some(r) => restarted(pre, post, r, first, second) && deliveries == restart_deliveries(
            pre.rooms@[r],
            first,
            second,
        ),
        None => post == pre && deliveries.len() == 0,
    }
}

/// Gives the players of the room with id `room_id` new boards, `first` to
/// the first and `second` to the second, and returns the messages to send.
/// The turn stays where it is. Without such a room nothing happens.
pub fn restart<H>(state: &mut State<H>, room_id: u32, first: Board, second: Board) -> (deliveries:
    Vec<Delivery>)
    requires
        old(state).wf(),
    ensures
        final(state).wf(),
        restart_applied(*old(state), *final(state), room_id, first, second, deliveries@),
{
    let mut deliveries: Vec<Delivery> = Vec::new();
    let r = match state.find_room(room_id) {
        Some(r) => r,
        None => {
            return deliveries;
        },
    };
    assert(state.rooms@[r as int].wf());
    if state.rooms[r].players.len() >= 1 {
        state.rooms[r].players[0].board = first;
        deliveries.push(
            Delivery {
                to: state.rooms[r].players[0].id,
                event: WebSocketSentEvent::Restarted(RestartedEvent { board: first }),
            },
        );
    }
    if state.rooms[r].players.len() >= 2 {
        state.rooms[r].players[1].board = second;
        deliveries.push(
            Delivery {
                to: state.rooms[r].players[1].id,
                event: WebSocketSentEvent::Restarted(RestartedEvent { board: second }),
            },
        );
    }
    assert(deliveries@ =~= restart_deliveries(old(state).rooms@[r as int], first, second));
    deliveries
}

/// The test that keeps every player but the one with id `player_id`.
pub open spec fn is_other<H>(player_id: u32) -> spec_fn(Player<H>) -> bool {
    |player: Player<H>| player.id != player_id
}

/// Takes the players with id `player_id` out of the list and keeps the
/// others in their order.
pub fn remove_player<H>(players: &mut Vec<Player<H>>, player_id: u32)
    ensures
        final(players)@ == old(players)@.filter(is_other(player_id)),
{
    let ghost before = players@;
    let ghost keep = is_other::<H>(player_id);
    let ghost mut seen: int = 0;
    let mut q: usize = 0;
    proof {
        reveal(Seq::filter);
        assert(before.take(0).filter(keep) =~= players@.take(0));
        assert(players@.skip(0) =~= before.skip(0));
    }
    while q < players.len()
        invariant
            keep == is_other::<H>(player_id),
            0 <= seen <= before.len(),
            q <= players@.len(),
            players@.take(q as int) == before.take(seen).filter(keep),
            players@.skip(q as int) == before.skip(seen),
        decreases players@.len() - q,
    {
        proof {
            reveal(Seq::filter);
            assert(players@.skip(q as int).len() == players@.len() - q);
            assert(before.skip(seen).len() == before.len() - seen);
            assert(players@[q as int] == players@.skip(q as int)[0]);
            assert(before[seen] == before.skip(seen)[0]);
            assert(before.take(seen + 1).drop_last() =~= before.take(seen));
            assert(before.take(seen + 1).last() == before[seen]);
        }
        let ghost current = players@;
        if players[q].id == player_id {
            players.remove(q);
            proof {
                assert(players@.take(q as int) =~= current.take(q as int));
                assert forall|j: int| 0 <= j < players@.len() - q implies players@.skip(q as int)[j]
                    == before.skip(seen + 1)[j] by {
                    assert(players@[q + j] == current.skip(q as int)[j + 1]);
                }
                assert(players@.skip(q as int) =~= before.skip(seen + 1));
            }
        } else {
            q = q + 1;
            proof {
                assert(players@.take(q as int) =~= current.take(q - 1).push(before[seen]));
                assert forall|j: int| 0 <= j < players@.len() - q implies players@.skip(q as int)[j]
                    == before.skip(seen + 1)[j] by {
                    assert(players@[q + j] == current.skip(q - 1)[j + 1]);
                }
                assert(players@.skip(q as int) =~= before.skip(seen + 1));
            }
        }
        proof {
            seen = seen + 1;
        }
    }
    proof {
        assert(players@.skip(q as int).len() == 0);
        assert(seen == before.len());
        assert(before.take(seen) =~= before);
        assert(players@.take(q as int) =~= players@);
    }
}

/// The players of `room` once the opponent of player `player_id`, if there
/// is one, has the new `board`.
pub open spec fn refreshed<H>(room: Room<H>, player_id: u32, board: Board) -> Seq<Player<H>> {
    match room.opponent_index(player_id) {
        Some(p) => room.players@.update(
            p,
            Player { id: room.players@[p].id, board, tx: room.players@[p].tx },
        ),
        None => room.players@,
    }
}

/// Whether `post` is `pre` after player `player_id` has left the room at
/// position `r`: the player is gone from the room; an opponent who stays has
/// the new `board`, and has the turn if the player who left had it. If
/// nobody stays, the turn that the player had is with nobody.
pub open spec fn left<H>(pre: State<H>, post: State<H>, r: int, player_id: u32, board: Board) -> bool {
    let before = pre.rooms@[r];
    let after = post.rooms@[r];
    &&& post.same_but_room(&pre, r)
    &&& after.id == before.id
    &&& after.next_player_id == before.next_player_id
    &&& after.players@ == refreshed(before, player_id, board).filter(is_other(player_id))
    &&& after.turn == match before.opponent_index(player_id) {
        Some(p) => if before.turn == Some(player_id) {
            Some(before.players@[p].id)
        } else {
            before.turn
        },
        None => if before.turn == Some(player_id) {
            None
        } else {
            before.turn
        },
    }
}

/// The message that follows when player `player_id` leaves `room`: the
/// opponent, if there is one, learns of it and gets the new `board`.
pub open spec fn leave_deliveries<H>(room: Room<H>, player_id: u32, board: Board) -> Seq<Delivery> {
    match room.opponent_index(player_id) {
        Some(p) => seq![
            Delivery {
                to: room.players@[p].id,
                event: WebSocketSentEvent::OpponentLeft(OpponentLeftEvent { board }),
            },
        ],
        None => Seq::empty(),
    }
}

/// What `leave` does: player `player_id` has left the room with id
/// `room_id`, and `deliveries` tell an opponent who stays. Without such a
/// room nothing changes and nothing is sent.
pub open spec fn leave_applied<H>(
    pre: State<H>,
    post: State<H>,
    room_id: u32,
    player_id: u32,
    board: Board,
    deliveries: Seq<Delivery>,
) -> bool {
    match pre.room_index(room_id) {
        Some(r) => left(pre, post, r, player_id, board) && deliveries == leave_deliveries(
            pre.rooms@[r],
            player_id,
            board,
        ),
        None => post == pre && deliveries.len() == 0,
    }
}

/// Takes player `player_id` out of the room with id `room_id` and returns
/// the message to send. An opponent who stays starts anew with `board` and
/// takes over the turn if the leaving player had it; without an opponent
/// the turn of the leaving player is unset. The room itself stays, also when
/// it is empty. Without such a room nothing happens.
pub fn leave<H>(state: &mut State<H>, room_id: u32, player_id: u32, board: Board) -> (deliveries:
    Vec<Delivery>)
    requires
        old(state).wf(),
    ensures
        final(state).wf(),
        leave_applied(*old(state), *final(state), room_id, player_id, board, deliveries@),
{
    let mut deliveries: Vec<Delivery> = Vec::new();
    let r = match state.find_room(room_id) {
        Some(r) => r,
        None => {
            return deliveries;
        },
    };
    assert(state.rooms@[r as int].wf());
    match state.rooms[r].find_opponent(player_id) {
        Some(p) => {
            let opponent_id = state.rooms[r].players[p].id;
            state.rooms[r].players[p].board = board;
            if state.rooms[r].turn == Some(player_id) {
                state.rooms[r].turn = Some(opponent_id);
            }
            deliveries.push(
                Delivery {
                    to: opponent_id,
                    event: WebSocketSentEvent::OpponentLeft(OpponentLeftEvent { board }),
                },
            );
        },
        None => {
            if state.rooms[r].turn == Some(player_id) {
                state.rooms[r].turn = None;
            }
        },
    }
    let ghost middle = state.rooms@[r as int].players@;
    assert(middle =~= refreshed(old(state).rooms@[r as int], player_id, board));
    remove_player(&mut state.rooms[r].players, player_id);
    proof {
        lemma_filter_of_two(middle, is_other::<H>(player_id));
        assert(deliveries@ =~= leave_deliveries(old(state).rooms@[r as int], player_id, board));
    }
    deliveries
}

/// Entering keeps the turn with a player of the room, if it is set.
pub proof fn lemma_enter_keeps_turn_holder<H>(
    pre: State<H>,
    post: State<H>,
    r: int,
    player_id: u32,
    board: Board,
    tx: H,
)
    requires
        pre.wf(),
        0 <= r < pre.rooms@.len(),
        pre.rooms@[r].players@.len() < 2,
        joined(pre, post, r, player_id, board, tx),
    ensures
        post.rooms@[r].turn_names_player(),
{
    let before = pre.rooms@[r];
    let after = post.rooms@[r];
    assert(before.wf());
    if before.players@.len() > 0 {
        assert(after.players@[0] == before.players@[0]);
    }
    assert(after.players@[after.players@.len() - 1].id == player_id);
}

/// Leaving keeps the turn with a player of the room, if it is set: the turn
/// of the player who left goes to an opponent who stays, and to nobody if the
/// room is empty.
pub proof fn lemma_leave_keeps_turn_holder<H>(
    pre: State<H>,
    post: State<H>,
    r: int,
    player_id: u32,
    board: Board,
)
    requires
        pre.wf(),
        0 <= r < pre.rooms@.len(),
        left(pre, post, r, player_id, board),
    ensures
        post.rooms@[r].turn_names_player(),
        pre.rooms@[r].opponent_index(player_id) is None ==> post.rooms@[r].turn is None,
{
    let before = pre.rooms@[r];
    assert(before.wf());
    lemma_filter_of_two(refreshed(before, player_id, board), is_other::<H>(player_id));
}

/// The player who left is gone, and an opponent is still there, with the new
/// board and the same id and handle.
pub proof fn lemma_leaver_is_gone<H>(
    pre: State<H>,
    post: State<H>,
    r: int,
    player_id: u32,
    board: Board,
)
    requires
        pre.wf(),
        0 <= r < pre.rooms@.len(),
        left(pre, post, r, player_id, board),
    ensures
        post.rooms@[r].player_index(player_id) is None,
        pre.rooms@[r].opponent_index(player_id) matches Some(p) ==> post.rooms@[r].players@[0]
            == (Player { id: pre.rooms@[r].players@[p].id, board, tx: pre.rooms@[r].players@[p].tx }),
        pre.rooms@[r].player_index(player_id) is Some ==> post.rooms@[r].players@.len()
            == pre.rooms@[r].players@.len() - 1,
{
    assert(pre.rooms@[r].wf());
    lemma_filter_of_two(refreshed(pre.rooms@[r], player_id, board), is_other::<H>(player_id));
}

/// What a filter keeps of a list of at most two.
proof fn lemma_filter_of_two<A>(list: Seq<A>, keep: spec_fn(A) -> bool)
    requires
        list.len() <= 2,
    ensures
        list.len() == 0 ==> list.filter(keep) == Seq::<A>::empty(),
        list.len() == 1 ==> list.filter(keep) == if keep(list[0]) {
            seq![list[0]]
        } else {
            Seq::<A>::empty()
        },
        list.len() == 2 ==> list.filter(keep) == if keep(list[0]) && keep(list[1]) {
            seq![list[0], list[1]]
        } else if keep(list[0]) {
            seq![list[0]]
        } else if keep(list[1]) {
            seq![list[1]]
        } else {
            Seq::<A>::empty()
        },
{
    reveal(Seq::filter);
    if list.len() == 0 {
        assert(list.filter(keep) =~= Seq::<A>::empty());
    } else if list.len() == 1 {
        assert(list.drop_last().filter(keep) =~= Seq::<A>::empty());
        assert(list.filter(keep) =~= if keep(list[0]) {
            seq![list[0]]
        } else {
            Seq::<A>::empty()
        });
    } else {
        let front = list.drop_last();
        assert(front.drop_last().filter(keep) =~= Seq::<A>::empty());
        assert(front.filter(keep) =~= if keep(list[0]) {
            seq![list[0]]
        } else {
            Seq::<A>::empty()
        });
        assert(list.filter(keep) =~= if keep(list[0]) && keep(list[1]) {
            seq![list[0], list[1]]
        } else if keep(list[0]) {
            seq![list[0]]
        } else if keep(list[1]) {
            seq![list[1]]
        } else {
            Seq::<A>::empty()
        });
    }
}

} // verus!
