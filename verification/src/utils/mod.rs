pub mod cell_shot;
pub mod fleet;
pub mod generate_random_board;
pub mod is_ship_allocable;
