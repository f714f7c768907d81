pub mod cells;
pub mod creatures;
pub mod events;
pub mod geometry;
pub mod player;
pub mod pool;
pub mod regions;
pub mod rng;
pub mod session;
pub mod skills;
pub mod status;
pub mod tile;
pub mod values;
