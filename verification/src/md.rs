//! Mission design: trajectories and the search for events along them.

pub mod events;
pub mod trajectory;
