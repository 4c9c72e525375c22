pub mod board;
pub mod fleet;
pub mod range;
pub mod shot;
