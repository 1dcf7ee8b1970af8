//! Self-play: recording games and keeping what was recorded.
//!
//! What a step of a game looks like to a network, and what a game was
//! worth, is the caller's arithmetic. This module keeps the records in
//! order, bounds how many are kept, draws batches of them, and runs the
//! loop of a game.

pub mod self_play;
pub mod trajectory;

pub use self_play::{MoveChooser, SelfPlayWorker};
pub use trajectory::{sample_indices, ExperienceBuffer, Recorded, Trajectory};
