//! Reading the game's prototype dump into a database.

pub mod energy;
pub mod parse;
pub mod raw;
