//! The shapes of the remote services' answers and the rules for reading them.

pub mod csgobackpack;
pub mod steam;
