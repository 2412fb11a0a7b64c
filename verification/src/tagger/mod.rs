//! Voting, decades, corrections and the plan for writing tags.

pub mod correction;
pub mod decade;
pub mod genre_map;
pub mod voter;
pub mod writer;
