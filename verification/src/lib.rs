//! Score keeping for teams and their players, with the bearer-token auth gate and
//! the pack upload rules of the service built around it.

pub mod auth;
pub mod model;
pub mod packs;
pub mod score_laws;
pub mod scores;
pub mod state;
