pub mod beach;
pub mod clans;
pub mod crab;
pub mod ocean;
pub mod reef;

pub use beach::Beach;
pub use clans::ClanSystem;
pub use crab::{Color, Crab, Diet};
pub use ocean::{Ocean, ReefHandle};
pub use reef::{Prey, Reef};

