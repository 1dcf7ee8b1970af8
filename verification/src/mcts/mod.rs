//! Public-State Monte Carlo Tree Search.
//!
//! Only the nodes at which the searching player moves branch over all
//! legal actions; at the other nodes an opponent policy samples one action,
//! and the node grows an edge for it when it is new. The tree counts
//! visits. What a visit was worth is the caller's arithmetic: the tree
//! stores it per edge and hands it back, and never looks inside.

pub mod node;
pub mod policy;
pub mod search;
pub mod stats;
pub mod tree;

pub use node::{Edge, MCTSNode, NodeId, RewardModel};
pub use stats::SearchStats;
pub use tree::{MCTSTree, TreeStats};
pub use policy::{
    OpponentPolicy, RandomSimulation, SelectionPolicy, SimulationPolicy, UniformOpponent,
};
pub use search::{MCTSSearch, SearchLimits};
