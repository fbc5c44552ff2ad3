use server::handlers::create_room;
use server::handlers::enter_room::{
    enter, handle, leave, remove_player, restart, shoot, Delivery, JoinError, Rejection,
};
use server::handlers::room_id::parse_room_id;
use server::utils::cell_shot::{all_sunk, shot, ShotResult};
use server::{
    Board, Cell, CellShotEvent, CellShotResultEvent, OpponentCellShotResultEvent,
    OpponentEnteredEvent, OpponentLeftEvent, Player, RestartedEvent, Room, RoomEnteredEvent, State,
    WebSocketSentEvent,
};

fn board_with(ships: &[usize]) -> Board {
    let mut board = [Cell::Empty; 100];
    for &i in ships {
        board[i] = Cell::Ship;
    }
    board
}

fn state_with_rooms(n: u32) -> State<&'static str> {
    let mut state = State::default();
    for _ in 0..n {
        create_room::handle(&mut state);
    }
    state
}

#[test]
fn default_state_is_empty_and_starts_at_one() {
    let state: State<u8> = State::default();
    assert!(state.rooms.is_empty());
    assert_eq!(state.next_room_id, 1);
}

#[test]
fn created_rooms_are_numbered_from_one() {
    let mut state: State<u8> = State::default();
    let first = create_room::handle(&mut state);
    let second = create_room::handle(&mut state);
    assert_eq!(first.room_id, 1);
    assert_eq!(second.room_id, 2);
    assert_eq!(state.next_room_id, 3);
    assert_eq!(state.rooms.len(), 2);
    assert_eq!(state.rooms[0].id, 1);
    assert_eq!(state.rooms[1].id, 2);
    assert!(state.rooms[1].players.is_empty());
    assert_eq!(state.rooms[1].next_player_id, 1);
    assert_eq!(state.rooms[1].turn, None);
}

#[test]
fn room_id_is_read_from_decimal_digits() {
    assert_eq!(parse_room_id("0"), Some(0));
    assert_eq!(parse_room_id("1"), Some(1));
    assert_eq!(parse_room_id("007"), Some(7));
    assert_eq!(parse_room_id("+5"), Some(5));
    assert_eq!(parse_room_id("4294967295"), Some(4294967295));
    assert_eq!(parse_room_id("0000000000004294967295"), Some(4294967295));
}

#[test]
fn room_id_that_is_no_number_is_refused() {
    assert_eq!(parse_room_id(""), None);
    assert_eq!(parse_room_id("+"), None);
    assert_eq!(parse_room_id("abc"), None);
    assert_eq!(parse_room_id("-1"), None);
    assert_eq!(parse_room_id("1a"), None);
    assert_eq!(parse_room_id(" 1"), None);
    assert_eq!(parse_room_id("1 "), None);
    assert_eq!(parse_room_id("++1"), None);
    assert_eq!(parse_room_id("1.0"), None);
    assert_eq!(parse_room_id("4294967296"), None);
    assert_eq!(parse_room_id("99999999999999999999999999"), None);
    assert_eq!(parse_room_id("\u{0661}"), None);
}

#[test]
fn room_id_agrees_with_the_standard_parser() {
    for text in ["0", "12", "+12", "-12", "", "+", "x", "4294967295", "4294967296", "00", "1_0"] {
        assert_eq!(parse_room_id(text), text.parse::<u32>().ok());
    }
}

#[test]
fn entering_a_room_that_does_not_exist_is_rejected() {
    let state = state_with_rooms(1);
    assert_eq!(handle(&state, "999"), Err(Rejection::RoomNotFound));
    assert_eq!(handle(&state, "0"), Err(Rejection::RoomNotFound));
    assert_eq!(handle(&state, "1"), Ok(1));
}

#[test]
fn entering_with_a_malformed_id_is_rejected_otherwise() {
    let state = state_with_rooms(1);
    assert_eq!(handle(&state, "abc"), Err(Rejection::InvalidRoomId));
    assert_ne!(handle(&state, "abc"), handle(&state, "999"));
}

#[test]
fn entering_a_full_room_is_rejected() {
    let mut state = state_with_rooms(1);
    assert!(enter(&mut state, 1, board_with(&[1]), "a").is_ok());
    assert_eq!(handle(&state, "1"), Ok(1));
    assert!(enter(&mut state, 1, board_with(&[2]), "b").is_ok());
    assert_eq!(handle(&state, "1"), Err(Rejection::RoomNotFound));
    assert_eq!(enter(&mut state, 1, board_with(&[3]), "c"), Err(JoinError::RoomFull));
    assert_eq!(state.rooms[0].players.len(), 2);
    assert_eq!(state.rooms[0].next_player_id, 3);
    assert_eq!(enter(&mut state, 2, board_with(&[3]), "c"), Err(JoinError::RoomNotFound));
}

#[test]
fn two_players_enter_and_one_shoots() {
    let mut state: State<&'static str> = State::default();
    assert_eq!(create_room::handle(&mut state).room_id, 1);
    let board_a = board_with(&[5, 6, 40]);
    let board_b = board_with(&[70]);

    let a = enter(&mut state, 1, board_a, "a").unwrap();
    assert_eq!(a.player_id, 1);
    assert_eq!(
        a.deliveries,
        vec![Delivery {
            to: 1,
            event: WebSocketSentEvent::RoomEntered(RoomEnteredEvent {
                board: board_a,
                has_opponent: false,
                has_turn: true,
            }),
        }]
    );

    let b = enter(&mut state, 1, board_b, "b").unwrap();
    assert_eq!(b.player_id, 2);
    assert_eq!(
        b.deliveries,
        vec![
            Delivery { to: 1, event: WebSocketSentEvent::OpponentEntered(OpponentEnteredEvent {}) },
            Delivery {
                to: 2,
                event: WebSocketSentEvent::RoomEntered(RoomEnteredEvent {
                    board: board_b,
                    has_opponent: true,
                    has_turn: false,
                }),
            },
        ]
    );
    assert_eq!(state.rooms[0].turn, Some(1));
    assert_eq!(state.rooms[0].players[0].tx, "a");
    assert_eq!(state.rooms[0].players[1].tx, "b");

    let deliveries = shoot(&mut state, 1, 2, &CellShotEvent { index: 5 });
    assert_eq!(
        deliveries,
        vec![
            Delivery {
                to: 2,
                event: WebSocketSentEvent::OpponentCellShotResult(OpponentCellShotResultEvent {
                    index: 5,
                    has_ship: true,
                    won: false,
                }),
            },
            Delivery {
                to: 1,
                event: WebSocketSentEvent::CellShotResult(CellShotResultEvent {
                    index: 5,
                    lost: false,
                }),
            },
        ]
    );
    assert_eq!(state.rooms[0].players[0].board[5], Cell::HittedShip);
    assert_eq!(state.rooms[0].players[1].board, board_b);
}

#[test]
fn shot_out_of_turn_is_applied_all_the_same() {
    let mut state = state_with_rooms(1);
    enter(&mut state, 1, board_with(&[5]), "a").unwrap();
    enter(&mut state, 1, board_with(&[7]), "b").unwrap();
    assert_eq!(state.rooms[0].turn, Some(1));
    let deliveries = shoot(&mut state, 1, 2, &CellShotEvent { index: 0 });
    assert_eq!(deliveries.len(), 2);
    let deliveries = shoot(&mut state, 1, 2, &CellShotEvent { index: 1 });
    assert_eq!(deliveries.len(), 2);
    assert_eq!(state.rooms[0].turn, Some(1));
}

#[test]
fn second_shot_at_a_cell_is_ignored() {
    let mut state = state_with_rooms(1);
    enter(&mut state, 1, board_with(&[5, 6]), "a").unwrap();
    enter(&mut state, 1, board_with(&[7]), "b").unwrap();
    assert_eq!(shoot(&mut state, 1, 2, &CellShotEvent { index: 5 }).len(), 2);
    let after_first = state.rooms[0].players[0].board;
    assert_eq!(shoot(&mut state, 1, 2, &CellShotEvent { index: 5 }), vec![]);
    assert_eq!(state.rooms[0].players[0].board, after_first);
    assert_eq!(shoot(&mut state, 1, 2, &CellShotEvent { index: 9 }).len(), 2);
    assert_eq!(shoot(&mut state, 1, 2, &CellShotEvent { index: 9 }), vec![]);
}

#[test]
fn shot_off_the_board_is_ignored() {
    let mut state = state_with_rooms(1);
    enter(&mut state, 1, board_with(&[5]), "a").unwrap();
    enter(&mut state, 1, board_with(&[7]), "b").unwrap();
    let before = state.rooms[0].players[0].board;
    assert_eq!(shoot(&mut state, 1, 2, &CellShotEvent { index: 100 }), vec![]);
    assert_eq!(shoot(&mut state, 1, 2, &CellShotEvent { index: 255 }), vec![]);
    assert_eq!(state.rooms[0].players[0].board, before);
    assert_eq!(shoot(&mut state, 1, 2, &CellShotEvent { index: 99 }).len(), 2);
}

#[test]
fn shot_without_opponent_or_room_is_ignored() {
    let mut state = state_with_rooms(1);
    enter(&mut state, 1, board_with(&[5]), "a").unwrap();
    assert_eq!(shoot(&mut state, 1, 1, &CellShotEvent { index: 5 }), vec![]);
    assert_eq!(shoot(&mut state, 9, 1, &CellShotEvent { index: 5 }), vec![]);
    assert_eq!(state.rooms[0].players[0].board, board_with(&[5]));
}

#[test]
fn won_comes_with_the_shot_that_sinks_the_last_ship() {
    let mut state = state_with_rooms(1);
    enter(&mut state, 1, board_with(&[5, 6]), "a").unwrap();
    enter(&mut state, 1, board_with(&[7]), "b").unwrap();
    let won_of = |deliveries: Vec<Delivery>| match (deliveries[0].event, deliveries[1].event) {
        (
            WebSocketSentEvent::OpponentCellShotResult(shooter),
            WebSocketSentEvent::CellShotResult(defender),
        ) => {
            assert_eq!(shooter.won, defender.lost);
            (shooter.has_ship, shooter.won)
        }
        _ => panic!("other messages"),
    };
    assert_eq!(won_of(shoot(&mut state, 1, 2, &CellShotEvent { index: 0 })), (false, false));
    assert_eq!(won_of(shoot(&mut state, 1, 2, &CellShotEvent { index: 5 })), (true, false));
    assert_eq!(won_of(shoot(&mut state, 1, 2, &CellShotEvent { index: 6 })), (true, true));
    assert_eq!(won_of(shoot(&mut state, 1, 1, &CellShotEvent { index: 7 })), (true, true));
}

#[test]
fn shot_on_a_board_marks_the_cell() {
    let mut board = board_with(&[3, 4]);
    assert_eq!(shot(&mut board, 0), Some(ShotResult { has_ship: false, won: false }));
    assert_eq!(board[0], Cell::Hitted);
    assert_eq!(shot(&mut board, 0), None);
    assert_eq!(shot(&mut board, 3), Some(ShotResult { has_ship: true, won: false }));
    assert_eq!(board[3], Cell::HittedShip);
    assert_eq!(shot(&mut board, 3), None);
    assert_eq!(shot(&mut board, 100), None);
    assert!(!all_sunk(&board));
    assert_eq!(shot(&mut board, 4), Some(ShotResult { has_ship: true, won: true }));
    assert!(all_sunk(&board));
    assert_eq!(shot(&mut board, 9), Some(ShotResult { has_ship: false, won: true }));
}

#[test]
fn restart_gives_each_player_a_new_board() {
    let mut state = state_with_rooms(2);
    enter(&mut state, 2, board_with(&[5]), "a").unwrap();
    enter(&mut state, 2, board_with(&[7]), "b").unwrap();
    shoot(&mut state, 2, 1, &CellShotEvent { index: 7 });
    let first = board_with(&[11]);
    let second = board_with(&[22]);
    let deliveries = restart(&mut state, 2, first, second);
    assert_eq!(
        deliveries,
        vec![
            Delivery { to: 1, event: WebSocketSentEvent::Restarted(RestartedEvent { board: first }) },
            Delivery { to: 2, event: WebSocketSentEvent::Restarted(RestartedEvent { board: second }) },
        ]
    );
    assert_eq!(state.rooms[1].players[0].board, first);
    assert_eq!(state.rooms[1].players[1].board, second);
    assert_eq!(state.rooms[1].turn, Some(1));
    assert_eq!(restart(&mut state, 1, first, second), vec![]);
    assert_eq!(restart(&mut state, 3, first, second), vec![]);
}

#[test]
fn restart_with_one_player() {
    let mut state = state_with_rooms(1);
    enter(&mut state, 1, board_with(&[5]), "a").unwrap();
    let first = board_with(&[11]);
    let deliveries = restart(&mut state, 1, first, board_with(&[22]));
    assert_eq!(
        deliveries,
        vec![Delivery { to: 1, event: WebSocketSentEvent::Restarted(RestartedEvent { board: first }) }]
    );
    assert_eq!(state.rooms[0].players[0].board, first);
}

#[test]
fn leaving_hands_the_turn_and_a_new_board_to_the_opponent() {
    let mut state = state_with_rooms(1);
    enter(&mut state, 1, board_with(&[5]), "a").unwrap();
    enter(&mut state, 1, board_with(&[7]), "b").unwrap();
    shoot(&mut state, 1, 1, &CellShotEvent { index: 7 });
    let fresh = board_with(&[50, 51]);
    let deliveries = leave(&mut state, 1, 1, fresh);
    assert_eq!(
        deliveries,
        vec![Delivery { to: 2, event: WebSocketSentEvent::OpponentLeft(OpponentLeftEvent { board: fresh }) }]
    );
    assert_eq!(state.rooms.len(), 1);
    assert_eq!(state.rooms[0].players.len(), 1);
    assert_eq!(state.rooms[0].players[0].id, 2);
    assert_eq!(state.rooms[0].players[0].tx, "b");
    assert_eq!(state.rooms[0].players[0].board, fresh);
    assert_eq!(state.rooms[0].turn, Some(2));
    assert_eq!(state.rooms[0].next_player_id, 3);
}

#[test]
fn leaving_without_the_turn_keeps_the_turn() {
    let mut state = state_with_rooms(1);
    enter(&mut state, 1, board_with(&[5]), "a").unwrap();
    enter(&mut state, 1, board_with(&[7]), "b").unwrap();
    let fresh = board_with(&[50]);
    let deliveries = leave(&mut state, 1, 2, fresh);
    assert_eq!(
        deliveries,
        vec![Delivery { to: 1, event: WebSocketSentEvent::OpponentLeft(OpponentLeftEvent { board: fresh }) }]
    );
    assert_eq!(state.rooms[0].players.len(), 1);
    assert_eq!(state.rooms[0].players[0].id, 1);
    assert_eq!(state.rooms[0].players[0].board, fresh);
    assert_eq!(state.rooms[0].turn, Some(1));
}

#[test]
fn last_player_leaves_and_the_room_stays() {
    let mut state = state_with_rooms(1);
    enter(&mut state, 1, board_with(&[5]), "a").unwrap();
    assert_eq!(state.rooms[0].turn, Some(1));
    assert_eq!(leave(&mut state, 1, 1, board_with(&[9])), vec![]);
    assert_eq!(state.rooms.len(), 1);
    assert!(state.rooms[0].players.is_empty());
    assert_eq!(state.rooms[0].turn, None);
    assert_eq!(state.rooms[0].next_player_id, 2);
    assert!(state.is_well_formed());
    assert_eq!(handle(&state, "1"), Ok(1));
    let again = enter(&mut state, 1, board_with(&[6]), "c").unwrap();
    assert_eq!(again.player_id, 2);
    assert_eq!(
        again.deliveries,
        vec![Delivery {
            to: 2,
            event: WebSocketSentEvent::RoomEntered(RoomEnteredEvent {
                board: board_with(&[6]),
                has_opponent: false,
                has_turn: false,
            }),
        }]
    );
    assert_eq!(state.rooms[0].turn, None);
    assert!(state.is_well_formed());
    assert_eq!(leave(&mut state, 7, 1, board_with(&[9])), vec![]);
}

#[test]
fn last_player_without_the_turn_leaves() {
    let mut state = state_with_rooms(1);
    enter(&mut state, 1, board_with(&[5]), "a").unwrap();
    enter(&mut state, 1, board_with(&[6]), "b").unwrap();
    leave(&mut state, 1, 2, board_with(&[7]));
    assert_eq!(state.rooms[0].turn, Some(1));
    leave(&mut state, 1, 1, board_with(&[8]));
    assert_eq!(state.rooms[0].turn, None);
    assert!(state.rooms[0].players.is_empty());
    enter(&mut state, 1, board_with(&[5]), "c").unwrap();
    enter(&mut state, 1, board_with(&[6]), "d").unwrap();
    assert_eq!(state.rooms[0].turn, None);
    leave(&mut state, 1, 3, board_with(&[8]));
    assert_eq!(state.rooms[0].turn, None);
    assert_eq!(state.rooms[0].players[0].id, 4);
    assert!(state.is_well_formed());
}

#[test]
fn player_ids_are_not_used_again() {
    let mut state = state_with_rooms(1);
    assert_eq!(enter(&mut state, 1, board_with(&[5]), "a").unwrap().player_id, 1);
    assert_eq!(enter(&mut state, 1, board_with(&[5]), "b").unwrap().player_id, 2);
    leave(&mut state, 1, 1, board_with(&[9]));
    assert_eq!(enter(&mut state, 1, board_with(&[5]), "c").unwrap().player_id, 3);
    assert_eq!(state.rooms[0].players[0].id, 2);
    assert_eq!(state.rooms[0].players[1].id, 3);
    assert_eq!(state.rooms[0].turn, Some(2));
}

#[test]
fn remove_player_keeps_the_others_in_order() {
    let board = board_with(&[]);
    let mut players = vec![
        Player { id: 4, board, tx: 'a' },
        Player { id: 2, board, tx: 'b' },
        Player { id: 4, board, tx: 'c' },
        Player { id: 9, board, tx: 'd' },
    ];
    remove_player(&mut players, 4);
    let left: Vec<(u32, char)> = players.iter().map(|p| (p.id, p.tx)).collect();
    assert_eq!(left, vec![(2, 'b'), (9, 'd')]);
    remove_player(&mut players, 1);
    assert_eq!(players.len(), 2);
}

#[test]
fn player_handle_finds_the_player_of_the_room() {
    let mut state = state_with_rooms(2);
    enter(&mut state, 2, board_with(&[5]), "a").unwrap();
    enter(&mut state, 2, board_with(&[7]), "b").unwrap();
    assert_eq!(state.player_handle(2, 1), Some(&"a"));
    assert_eq!(state.player_handle(2, 2), Some(&"b"));
    assert_eq!(state.player_handle(2, 3), None);
    assert_eq!(state.player_handle(1, 1), None);
    assert_eq!(state.player_handle(3, 1), None);
    assert_eq!(state.find_room(2), Some(1));
    assert_eq!(state.find_room(0), None);
    assert_eq!(state.rooms[1].find_opponent(1), Some(1));
    assert_eq!(state.rooms[1].find_opponent(2), Some(0));
    assert_eq!(state.rooms[1].find_opponent(7), Some(0));
    assert_eq!(state.rooms[0].find_opponent(1), None);
}

#[test]
fn states_made_by_the_handlers_are_well_formed() {
    let mut state = state_with_rooms(3);
    assert!(state.is_well_formed());
    enter(&mut state, 2, board_with(&[5]), "a").unwrap();
    enter(&mut state, 2, board_with(&[7]), "b").unwrap();
    assert!(state.is_well_formed());
    leave(&mut state, 2, 1, board_with(&[9]));
    assert!(state.is_well_formed());
    leave(&mut state, 2, 2, board_with(&[9]));
    assert!(state.is_well_formed());
}

#[test]
fn states_made_by_hand_are_tested() {
    let board = board_with(&[]);
    let room = |id: u32, ids: &[u32], next_player_id: u32, turn: Option<u32>| Room {
        id,
        players: ids.iter().map(|&id| Player { id, board, tx: () }).collect(),
        next_player_id,
        turn,
    };
    assert!(room(1, &[], 1, None).is_well_formed());
    assert!(room(1, &[], 4, None).is_well_formed());
    assert!(room(1, &[2, 1], 3, Some(1)).is_well_formed());
    assert!(room(1, &[2, 1], 3, Some(2)).is_well_formed());
    assert!(room(1, &[2, 1], 3, None).is_well_formed());
    assert!(room(1, &[5], 9, Some(5)).is_well_formed());
    assert!(!room(1, &[], 1, Some(1)).is_well_formed());
    assert!(!room(1, &[], 4, Some(3)).is_well_formed());
    assert!(!room(1, &[2], 4, Some(3)).is_well_formed());
    assert!(!room(1, &[1, 2], 4, Some(3)).is_well_formed());
    assert!(!room(1, &[1, 1], 3, Some(1)).is_well_formed());
    assert!(!room(1, &[1, 2, 3], 4, Some(1)).is_well_formed());
    assert!(!room(1, &[3], 3, Some(3)).is_well_formed());
    assert!(!room(1, &[0], 3, Some(0)).is_well_formed());
    assert!(!room(1, &[], 0, None).is_well_formed());

    let good = State { rooms: vec![room(1, &[], 1, None), room(2, &[1], 2, Some(1))], next_room_id: 3 };
    assert!(good.is_well_formed());
    let wrong_counter = State { rooms: vec![room(1, &[], 1, None)], next_room_id: 3 };
    assert!(!wrong_counter.is_well_formed());
    let wrong_id = State { rooms: vec![room(2, &[], 1, None)], next_room_id: 2 };
    assert!(!wrong_id.is_well_formed());
    let wrong_room = State { rooms: vec![room(1, &[], 2, Some(1))], next_room_id: 2 };
    assert!(!wrong_room.is_well_formed());
}
