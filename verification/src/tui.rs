//! What the dashboard decides and computes: which action a key means, how
//! the list of runs is laid out, where the selection moves.
pub mod app;
pub mod input;
pub mod renderer;
pub mod utils;
