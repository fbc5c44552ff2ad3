pub mod create_room;
pub mod enter_room;
pub mod room_id;
pub mod session;
