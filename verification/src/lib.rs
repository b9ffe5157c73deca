pub mod game_backend;
pub mod game_frontend;
pub mod grid_model;
pub mod row_model;
