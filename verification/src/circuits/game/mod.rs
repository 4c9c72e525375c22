pub mod board;
pub mod shot;
