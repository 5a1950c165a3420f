//! Move selection for a turn-based snake game on a bounded grid.
//!
//! Two engines decide moves over one shared board model: a shortest-path
//! search with terrain-dependent step costs, and a fixed-horizon two-player
//! tree search with alpha-beta pruning that advances and reverts the board
//! in place.

pub mod a_prime;
pub mod api;
pub mod compact;
pub mod constant_carter;
pub mod devious_devin;
pub mod eremetic_eric;
pub mod fx;
pub mod minimax_model;
pub mod moves;
pub mod outside;
pub mod path_model;
pub mod scoring;
pub mod search_state;
pub mod types;
