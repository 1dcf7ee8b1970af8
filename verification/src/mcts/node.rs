//! The nodes and edges of the search tree.

use crate::base::action::Action;
use crate::base::player::PlayerId;
use crate::base::state::GameState;
use crate::rules::engine::GameResult;
use vstd::prelude::*;

verus! {

/// Index of a node in the tree's arena.
#[derive(Clone, Copy, Debug, PartialEq, Eq, Hash, Structural)]
pub struct NodeId(pub u32);

impl NodeId {
    /// The identifier that stands for no node: of a root's parent, of the
    /// child of an edge that is not expanded.
    pub fn none() -> (node: Self)
        ensures
            node.0 == u32::MAX,
    {
        NodeId(u32::MAX)
    }

    /// The identifier as text.
    pub fn to_string(&self) -> (text: String)
        ensures
            text@ == (if self.spec_is_none() {
                "NodeId(NONE)"@
            } else {
                "NodeId("@ + crate::base::text::decimal(self.0 as nat) + ")"@
            }),
    {
        if self.0 == u32::MAX {
            "NodeId(NONE)".to_owned()
        } else {
            crate::base::text::labelled("NodeId(", self.0 as u64, ")")
        }
    }

    /// A node identifier.
    pub fn new(id: u32) -> (node: Self)
        ensures
            node.0 == id,
    {
        NodeId(id)
    }

    /// Whether this stands for no node.
    pub open spec fn spec_is_none(self) -> bool {
        self.0 == u32::MAX
    }

    /// Whether this stands for no node.
    #[verifier::when_used_as_spec(spec_is_none)]
    pub fn is_none(self) -> (none: bool)
        ensures
            none == self.spec_is_none(),
    {
        self.0 == u32::MAX
    }

    /// The raw number.
    pub fn raw(self) -> (raw: u32)
        ensures
            raw == self.0,
    {
        self.0
    }
}

/// What passes through the tree are worth, and how it adds up. The tree
/// keeps these values and never looks inside.
pub trait RewardModel {
    /// What one pass was worth, to each player.
    type Rewards;

    /// What the passes over one edge added up to.
    type EdgeStats;

    /// The statistics of an edge that no pass went over.
    fn fresh_edge(player_count: usize) -> Self::EdgeStats;

    /// Adds what one pass was worth to the statistics of an edge.
    fn record(stats: &mut Self::EdgeStats, rewards: &Self::Rewards);

    /// A copy of what a pass was worth.
    fn copy_rewards(rewards: &Self::Rewards) -> Self::Rewards;

    /// What a finished game is worth.
    fn rewards_of(result: &GameResult, player_count: usize) -> Self::Rewards;

    /// What an unfinished game is estimated to be worth.
    fn estimate(state: &GameState, player_count: usize) -> Self::Rewards;

    /// What a game is worth in which no one can move.
    fn even(player_count: usize) -> Self::Rewards;
}

/// An action that can be taken at a node, and the child it leads to.
pub struct Edge<M: RewardModel> {
    /// The action.
    pub action: Action,
    /// The node the action leads to; `none()` until the edge is expanded.
    pub child: NodeId,
    /// How many passes went over the edge.
    pub visits: u32,
    /// What those passes added up to.
    pub stats: M::EdgeStats,
}

impl<M: RewardModel> Edge<M> {
    /// An edge that is not expanded and that no pass went over.
    pub fn new(action: Action, player_count: usize) -> (edge: Self)
        ensures
            edge.action == action,
            edge.child.0 == u32::MAX,
            edge.visits == 0,
    {
        Edge { action, child: NodeId::none(), visits: 0, stats: M::fresh_edge(player_count) }
    }

    /// Whether the edge leads to a node.
    pub open spec fn spec_is_expanded(&self) -> bool {
        !self.child.spec_is_none()
    }

    /// Whether the edge leads to a node.
    #[verifier::when_used_as_spec(spec_is_expanded)]
    pub fn is_expanded(&self) -> (expanded: bool)
        ensures
            expanded == self.spec_is_expanded(),
    {
        !self.child.is_none()
    }
}

/// A node of the search tree.
pub struct MCTSNode<M: RewardModel> {
    /// The node this one hangs on; `none()` for the root.
    pub parent: NodeId,
    /// The index of the parent's edge that leads here.
    pub parent_edge_idx: u16,
    /// The player who moves here.
    pub to_move: PlayerId,
    /// How far below the root the node is.
    pub depth: u16,
    /// How many passes went through the node.
    pub visits: u32,
    /// Whether the game is over here.
    pub is_terminal: bool,
    /// What the game is worth if it is over here.
    pub terminal_reward: Option<M::Rewards>,
    /// The actions that can be taken here.
    pub edges: Vec<Edge<M>>,
}

/// The index of the edge with the most visits among the first `count`;
/// of those with the most, the last.
pub open spec fn most_visited<M: RewardModel>(edges: Seq<Edge<M>>, count: int) -> int
    decreases count,
{
    if count <= 1 {
        0
    } else {
        let before = most_visited(edges, count - 1);
        if edges[count - 1].visits >= edges[before].visits {
            count - 1
        } else {
            before
        }
    }
}

/// The visits of the first `count` edges, added up.
pub open spec fn edge_visits<M: RewardModel>(edges: Seq<Edge<M>>, count: int) -> int
    decreases count,
{
    if count <= 0 {
        0
    } else {
        edge_visits(edges, count - 1) + edges[count - 1].visits
    }
}

impl<M: RewardModel> MCTSNode<M> {
    /// A node without edges that no pass went through.
    pub fn new(parent: NodeId, parent_edge_idx: u16, to_move: PlayerId, depth: u16) -> (node: Self)
        ensures
            node.parent == parent,
            node.parent_edge_idx == parent_edge_idx,
            node.to_move == to_move,
            node.depth == depth,
            node.visits == 0,
            !node.is_terminal,
            node.terminal_reward is None,
            node.edges@.len() == 0,
    {
        MCTSNode {
            parent,
            parent_edge_idx,
            to_move,
            depth,
            visits: 0,
            is_terminal: false,
            terminal_reward: None,
            edges: Vec::new(),
        }
    }

    /// A root: a node at depth 0 without a parent.
    pub fn root(to_move: PlayerId) -> (node: Self)
        ensures
            node.parent.0 == u32::MAX,
            node.parent_edge_idx == 0,
            node.to_move == to_move,
            node.depth == 0,
            node.visits == 0,
            !node.is_terminal,
            node.terminal_reward is None,
            node.edges@.len() == 0,
    {
        Self::new(NodeId::none(), 0, to_move, 0)
    }

    /// Whether the node has edges and all of them are expanded.
    pub fn is_fully_expanded(&self) -> (full: bool)
        ensures
            full == (self.edges@.len() > 0 && forall|i: int|
                0 <= i < self.edges@.len() ==> (#[trigger] self.edges@[i]).spec_is_expanded()),
    {
        if self.edges.len() == 0 {
            return false;
        }
        let mut next: usize = 0;
        while next < self.edges.len()
            invariant
                next <= self.edges@.len(),
                forall|i: int| 0 <= i < next ==> (#[trigger] self.edges@[i]).spec_is_expanded(),
            decreases self.edges@.len() - next,
        {
            if !self.edges[next].is_expanded() {
                return false;
            }
            next = next + 1;
        }
        true
    }

    /// Whether the node has an edge that is not expanded.
    pub open spec fn spec_has_unexpanded(&self) -> bool {
        exists|i: int| 0 <= i < self.edges@.len() && !(#[trigger] self.edges@[i]).spec_is_expanded()
    }

    /// Whether the node has an edge that is not expanded.
    pub fn has_unexpanded(&self) -> (some: bool)
        ensures
            some == self.spec_has_unexpanded(),
    {
        let mut next: usize = 0;
        while next < self.edges.len()
            invariant
                next <= self.edges@.len(),
                forall|i: int| 0 <= i < next ==> (#[trigger] self.edges@[i]).spec_is_expanded(),
            decreases self.edges@.len() - next,
        {
            if !self.edges[next].is_expanded() {
                return true;
            }
            next = next + 1;
        }
        false
    }

    /// The indices of the edges that are not expanded, in order.
    pub fn unexpanded_edges(&self) -> (indices: Vec<usize>)
        ensures
            forall|k: int|
                0 <= k < indices@.len() ==> (#[trigger] indices@[k]) < self.edges@.len()
                    && !self.edges@[indices@[k] as int].spec_is_expanded(),
            forall|k: int, l: int| 0 <= k < l < indices@.len() ==> indices@[k] < indices@[l],
            forall|i: int|
                0 <= i < self.edges@.len() && !(#[trigger] self.edges@[i]).spec_is_expanded()
                    ==> indices@.contains(i as usize),
    {
        let mut indices: Vec<usize> = Vec::new();
        let mut next: usize = 0;
        while next < self.edges.len()
            invariant
                next <= self.edges@.len(),
                forall|k: int|
                    0 <= k < indices@.len() ==> (#[trigger] indices@[k]) < next
                        && !self.edges@[indices@[k] as int].spec_is_expanded(),
                forall|k: int, l: int| 0 <= k < l < indices@.len() ==> indices@[k] < indices@[l],
                forall|i: int|
                    0 <= i < next && !(#[trigger] self.edges@[i]).spec_is_expanded()
                        ==> indices@.contains(i as usize),
            decreases self.edges@.len() - next,
        {
            let ghost before = indices@;
            if !self.edges[next].is_expanded() {
                indices.push(next);
                proof {
                    assert(indices@[before.len() as int] == next);
                    assert forall|i: int|
                        0 <= i < next + 1 && !(#[trigger] self.edges@[i]).spec_is_expanded()
                        implies indices@.contains(i as usize) by {
                        if i < next {
                            let k = choose|k: int| 0 <= k < before.len() && before[k] == i as usize;
                            assert(indices@[k] == i as usize);
                        }
                    }
                }
            }
            next = next + 1;
        }
        indices
    }

    /// The edge with the most visits; of those with the most, the last.
    pub fn best_edge_by_visits(&self) -> (best: Option<&Edge<M>>)
        ensures
            self.edges@.len() == 0 ==> best is None,
            self.edges@.len() > 0 ==> best == Some(
                &self.edges@[most_visited(self.edges@, self.edges@.len() as int)],
            ),
    {
        if self.edges.len() == 0 {
            return None;
        }
        let mut best: usize = 0;
        let mut next: usize = 1;
        while next < self.edges.len()
            invariant
                1 <= next <= self.edges@.len(),
                best < next,
                best == most_visited(self.edges@, next as int),
            decreases self.edges@.len() - next,
        {
            if self.edges[next].visits >= self.edges[best].visits {
                best = next;
            }
            next = next + 1;
        }
        Some(&self.edges[best])
    }
}

} // verus!
