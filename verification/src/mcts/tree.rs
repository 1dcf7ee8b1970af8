//! The search tree: an arena of nodes that name each other by index.

use super::node::{MCTSNode, NodeId, RewardModel};
use crate::base::player::PlayerId;
use vstd::prelude::*;

verus! {

/// Whether the nodes hang together as a tree: the first node is the root,
/// at depth 0 and without a parent; every expanded edge leads to a later
/// node, one level down, that names the edge's node as its parent and the
/// edge's index (in 16 bits) as the edge it hangs on; and no two edges of
/// a node lead to the same node; and every node but the root hangs on an
/// edge of the node it names as its parent. So every node but the root
/// hangs on one edge.
pub open spec fn linked<M: RewardModel>(nodes: Seq<MCTSNode<M>>) -> bool {
    &&& 0 < nodes.len() <= u32::MAX
    &&& nodes[0].parent.spec_is_none()
    &&& nodes[0].depth == 0
    &&& forall|n: int, e: int|
        0 <= n < nodes.len() && 0 <= e < nodes[n].edges@.len() && (
        #[trigger] nodes[n].edges@[e]).spec_is_expanded() ==> {
            let child = nodes[n].edges@[e].child.0 as int;
            &&& n < child < nodes.len()
            &&& nodes[child].parent == NodeId(n as u32)
            &&& nodes[child].depth == nodes[n].depth + 1
            &&& nodes[child].parent_edge_idx == e % 65536
        }
    &&& forall|n: int, e: int, other: int|
        0 <= n < nodes.len() && 0 <= e < nodes[n].edges@.len() && 0 <= other
            < nodes[n].edges@.len() && (#[trigger] nodes[n].edges@[e]).spec_is_expanded()
            && nodes[n].edges@[e].child == (#[trigger] nodes[n].edges@[other]).child ==> e
            == other
    &&& forall|child: int| 0 < child < nodes.len() ==> #[trigger] hangs(nodes, child)
}

/// Whether a node hangs on an edge of an earlier node: the node it names
/// as its parent has an edge that leads to it.
pub open spec fn hangs<M: RewardModel>(nodes: Seq<MCTSNode<M>>, child: int) -> bool {
    let parent = nodes[child].parent.0 as int;
    0 <= parent < child && exists|e: int|
        0 <= e < nodes[parent].edges@.len() && (#[trigger] nodes[parent].edges@[e]).child
            == NodeId(child as u32)
}

/// The search tree.
pub struct MCTSTree<M: RewardModel> {
    nodes: Vec<MCTSNode<M>>,
    root: NodeId,
    player_count: usize,
}

/// Counts over a tree.
#[derive(Clone, Copy, Debug, Default, PartialEq, Eq)]
pub struct TreeStats {
    pub node_count: usize,
    pub max_depth: u16,
    pub terminal_count: usize,
    pub total_edges: usize,
    pub expanded_edges: usize,
}

/// The greatest depth among the first `count` nodes.
pub open spec fn deepest<M: RewardModel>(nodes: Seq<MCTSNode<M>>, count: int) -> u16
    decreases count,
{
    if count <= 0 {
        0
    } else {
        let before = deepest(nodes, count - 1);
        if nodes[count - 1].depth > before {
            nodes[count - 1].depth
        } else {
            before
        }
    }
}

/// The number of terminal nodes among the first `count`.
pub open spec fn terminals<M: RewardModel>(nodes: Seq<MCTSNode<M>>, count: int) -> int
    decreases count,
{
    if count <= 0 {
        0
    } else {
        terminals(nodes, count - 1) + (if nodes[count - 1].is_terminal {
            1int
        } else {
            0int
        })
    }
}

/// Nodes that agree in their verdicts and depths have as many terminal
/// nodes among the first `count`, and the same greatest depth.
pub proof fn lemma_counts_same<M: RewardModel>(
    first: Seq<MCTSNode<M>>,
    second: Seq<MCTSNode<M>>,
    count: int,
)
    requires
        0 <= count <= first.len(),
        count <= second.len(),
        forall|i: int|
            0 <= i < count ==> (#[trigger] second[i]).is_terminal == first[i].is_terminal
                && second[i].depth == first[i].depth,
    ensures
        terminals(second, count) == terminals(first, count),
        deepest(second, count) == deepest(first, count),
        0 <= terminals(first, count) <= count,
    decreases count,
{
    if count > 0 {
        lemma_counts_same(first, second, count - 1);
        assert(second[count - 1].is_terminal == first[count - 1].is_terminal);
    }
}

/// Where one node that was not terminal is marked terminal, and all else
/// agrees in verdicts and depths, one more node is terminal among the
/// first `count` if the node is among them, and the greatest depth is the
/// same.
pub proof fn lemma_terminal_marked<M: RewardModel>(
    first: Seq<MCTSNode<M>>,
    second: Seq<MCTSNode<M>>,
    at: int,
    count: int,
)
    requires
        0 <= count <= first.len(),
        count <= second.len(),
        0 <= at < first.len(),
        !first[at].is_terminal,
        second[at].is_terminal,
        forall|i: int| 0 <= i < count ==> (#[trigger] second[i]).depth == first[i].depth,
        forall|i: int|
            0 <= i < count && i != at ==> (#[trigger] second[i]).is_terminal == first[i].is_terminal,
    ensures
        terminals(second, count) == terminals(first, count) + (if at < count {
            1int
        } else {
            0int
        }),
        deepest(second, count) == deepest(first, count),
    decreases count,
{
    if count > 0 {
        lemma_terminal_marked(first, second, at, count - 1);
        assert(second[count - 1].depth == first[count - 1].depth);
        if count - 1 != at {
            assert(second[count - 1].is_terminal == first[count - 1].is_terminal);
        }
    }
}

/// The number of nodes among the first `count`, the root aside, that hang
/// on a node where `player` moves.
pub open spec fn hanging_on<M: RewardModel>(
    nodes: Seq<MCTSNode<M>>,
    player: PlayerId,
    count: int,
) -> int
    decreases count,
{
    if count <= 1 {
        0
    } else {
        hanging_on(nodes, player, count - 1) + (
        if nodes[nodes[count - 1].parent.0 as int].to_move == player {
            1int
        } else {
            0int
        })
    }
}

/// Nodes that agree in their parents and players have as many among the
/// first `count` that hang on a node where `player` moves, and no more
/// than there are nodes but the root.
pub proof fn lemma_hanging_same<M: RewardModel>(
    first: Seq<MCTSNode<M>>,
    second: Seq<MCTSNode<M>>,
    player: PlayerId,
    count: int,
)
    requires
        0 <= count <= first.len(),
        count <= second.len(),
        linked(first),
        forall|i: int|
            0 <= i < count ==> (#[trigger] second[i]).parent == first[i].parent && second[i].to_move
                == first[i].to_move,
    ensures
        hanging_on(second, player, count) == hanging_on(first, player, count),
        0 <= hanging_on(first, player, count),
        count >= 1 ==> hanging_on(first, player, count) <= count - 1,
    decreases count,
{
    if count > 1 {
        lemma_hanging_same(first, second, player, count - 1);
        assert(hangs(first, count - 1));
        let parent = first[count - 1].parent.0 as int;
        assert(second[count - 1].parent == first[count - 1].parent);
        assert(second[parent].to_move == first[parent].to_move);
    }
}

/// The number of expanded edges among the first `count` edges of a node.
pub open spec fn expanded_among<M: RewardModel>(node: MCTSNode<M>, count: int) -> int
    decreases count,
{
    if count <= 0 {
        0
    } else {
        expanded_among(node, count - 1) + (if node.edges@[count - 1].spec_is_expanded() {
            1int
        } else {
            0int
        })
    }
}

/// The number of edges of the first `count` nodes.
pub open spec fn edges_of<M: RewardModel>(nodes: Seq<MCTSNode<M>>, count: int) -> int
    decreases count,
{
    if count <= 0 {
        0
    } else {
        edges_of(nodes, count - 1) + nodes[count - 1].edges@.len()
    }
}

/// The number of expanded edges of the first `count` nodes.
pub open spec fn expanded_of<M: RewardModel>(nodes: Seq<MCTSNode<M>>, count: int) -> int
    decreases count,
{
    if count <= 0 {
        0
    } else {
        expanded_of(nodes, count - 1) + expanded_among(
            nodes[count - 1],
            nodes[count - 1].edges@.len() as int,
        )
    }
}

/// A count as far as `usize` holds it.
pub open spec fn capped(count: int) -> usize {
    if count > usize::MAX {
        usize::MAX
    } else {
        count as usize
    }
}

/// Adds two counts as far as `usize` holds the sum.
fn add_capped(total: usize, more: usize) -> (sum: usize)
    ensures
        sum == capped(total + more),
{
    if more > usize::MAX - total {
        usize::MAX
    } else {
        total + more
    }
}

impl<M: RewardModel> MCTSTree<M> {
    /// The nodes, the root first.
    pub closed spec fn nodes(&self) -> Seq<MCTSNode<M>> {
        self.nodes@
    }

    /// The number of players.
    pub closed spec fn players(&self) -> usize {
        self.player_count
    }

    /// The root is the first node, and the nodes hang together as a tree.
    pub closed spec fn wf(&self) -> bool {
        self.root == NodeId(0) && linked(self.nodes@)
    }

    /// Whether the root is the first node.
    pub closed spec fn root_is_first(&self) -> bool {
        self.root == NodeId(0)
    }

    /// What `wf` says.
    pub proof fn lemma_wf(&self)
        requires
            self.wf(),
        ensures
            linked(self.nodes()),
            self.root_is_first(),
    {
    }

    /// What makes a tree well formed.
    pub proof fn lemma_wf_from(&self, before: Seq<MCTSNode<M>>)
        requires
            linked(self.nodes()),
            self.root_is_first(),
        ensures
            self.wf(),
    {
    }

    /// A tree of one node, the root.
    pub fn new(root_player: PlayerId, player_count: usize) -> (tree: Self)
        ensures
            tree.wf(),
            tree.nodes().len() == 1,
            tree.nodes()[0].to_move == root_player,
            tree.nodes()[0].edges@.len() == 0,
            tree.nodes()[0].visits == 0,
            !tree.nodes()[0].is_terminal,
            tree.players() == player_count,
    {
        let mut nodes: Vec<MCTSNode<M>> = Vec::new();
        nodes.push(MCTSNode::root(root_player));
        MCTSTree { nodes, root: NodeId::new(0), player_count }
    }

    /// A tree of one node, the root, with room for `capacity` nodes.
    pub fn with_capacity(root_player: PlayerId, player_count: usize, capacity: usize) -> (tree: Self)
        ensures
            tree.wf(),
            tree.nodes().len() == 1,
            tree.nodes()[0].to_move == root_player,
            tree.nodes()[0].edges@.len() == 0,
            tree.nodes()[0].visits == 0,
            !tree.nodes()[0].is_terminal,
            tree.players() == player_count,
    {
        let mut nodes: Vec<MCTSNode<M>> = Vec::with_capacity(capacity);
        nodes.push(MCTSNode::root(root_player));
        MCTSTree { nodes, root: NodeId::new(0), player_count }
    }

    /// The root.
    pub fn root(&self) -> (root: NodeId)
        ensures
            self.wf() ==> root == NodeId(0),
    {
        self.root
    }

    /// A node of the tree.
    pub fn get(&self, id: NodeId) -> (node: &MCTSNode<M>)
        requires
            (id.0 as int) < self.nodes().len(),
        ensures
            *node == self.nodes()[id.0 as int],
    {
        &self.nodes[id.0 as usize]
    }

    /// A node of the tree, to change in place. No other node changes.
    pub fn get_mut(&mut self, id: NodeId) -> (node: &mut MCTSNode<M>)
        requires
            (id.0 as int) < old(self).nodes().len(),
        ensures
            *node == old(self).nodes()[id.0 as int],
            final(self).nodes() == old(self).nodes().update(id.0 as int, *final(node)),
            final(self).players() == old(self).players(),
            final(self).root_is_first() == old(self).root_is_first(),
    {
        &mut self.nodes[id.0 as usize]
    }

    /// Puts a node into the arena and gives its identifier. Every
    /// identifier given before stays that of the same node.
    pub fn allocate(&mut self, node: MCTSNode<M>) -> (id: NodeId)
        requires
            old(self).nodes().len() < u32::MAX,
        ensures
            id.0 == old(self).nodes().len(),
            final(self).nodes() == old(self).nodes().push(node),
            final(self).players() == old(self).players(),
            final(self).root_is_first() == old(self).root_is_first(),
    {
        let id = NodeId::new(self.nodes.len() as u32);
        self.nodes.push(node);
        id
    }

    /// The number of nodes.
    pub fn len(&self) -> (count: usize)
        ensures
            count == self.nodes().len(),
    {
        self.nodes.len()
    }

    /// Whether the tree has no node.
    pub fn is_empty(&self) -> (empty: bool)
        ensures
            empty == (self.nodes().len() == 0),
    {
        self.nodes.len() == 0
    }

    /// The number of players.
    pub fn player_count(&self) -> (count: usize)
        ensures
            count == self.players(),
    {
        self.player_count
    }

    /// Counts over the tree; each as far as `usize` holds it.
    pub fn stats(&self) -> (stats: TreeStats)
        ensures
            stats.node_count == self.nodes().len(),
            stats.max_depth == deepest(self.nodes(), self.nodes().len() as int),
            stats.terminal_count == terminals(self.nodes(), self.nodes().len() as int),
            stats.total_edges == capped(edges_of(self.nodes(), self.nodes().len() as int)),
            stats.expanded_edges == capped(expanded_of(self.nodes(), self.nodes().len() as int)),
    {
        let mut max_depth: u16 = 0;
        let mut terminal_count: usize = 0;
        let mut total_edges: usize = 0;
        let mut expanded_edges: usize = 0;
        let mut next: usize = 0;
        while next < self.nodes.len()
            invariant
                next <= self.nodes@.len(),
                max_depth == deepest(self.nodes@, next as int),
                terminal_count == terminals(self.nodes@, next as int),
                terminal_count <= next,
                0 <= edges_of(self.nodes@, next as int),
                0 <= expanded_of(self.nodes@, next as int),
                total_edges == capped(edges_of(self.nodes@, next as int)),
                expanded_edges == capped(expanded_of(self.nodes@, next as int)),
            decreases self.nodes@.len() - next,
        {
            let node = &self.nodes[next];
            if node.depth > max_depth {
                max_depth = node.depth;
            }
            if node.is_terminal {
                terminal_count = terminal_count + 1;
            }
            total_edges = add_capped(total_edges, node.edges.len());
            let mut expanded: usize = 0;
            let mut edge: usize = 0;
            while edge < node.edges.len()
                invariant
                    edge <= node.edges@.len(),
                    expanded == expanded_among(*node, edge as int),
                    expanded <= edge,
                decreases node.edges@.len() - edge,
            {
                if node.edges[edge].is_expanded() {
                    expanded = expanded + 1;
                }
                edge = edge + 1;
            }
            expanded_edges = add_capped(expanded_edges, expanded);
            next = next + 1;
        }
        TreeStats { node_count: self.nodes.len(), max_depth, terminal_count, total_edges, expanded_edges }
    }

    /// Empties the tree but for a new root. No identifier given before
    /// stays valid, but that of the root.
    pub fn reset(&mut self, root_player: PlayerId)
        ensures
            final(self).wf(),
            final(self).nodes().len() == 1,
            final(self).nodes()[0].to_move == root_player,
            final(self).nodes()[0].edges@.len() == 0,
            final(self).nodes()[0].visits == 0,
            !final(self).nodes()[0].is_terminal,
            final(self).players() == old(self).players(),
    {
        self.nodes.clear();
        self.nodes.push(MCTSNode::root(root_player));
        self.root = NodeId::new(0);
    }

    /// The root node.
    pub fn root_node(&self) -> (node: &MCTSNode<M>)
        requires
            self.wf(),
        ensures
            *node == self.nodes()[0],
    {
        self.get(self.root)
    }

    /// The root node, to change in place. No other node changes.
    pub fn root_node_mut(&mut self) -> (node: &mut MCTSNode<M>)
        requires
            old(self).wf(),
        ensures
            *node == old(self).nodes()[0],
            final(self).nodes() == old(self).nodes().update(0, *final(node)),
            final(self).players() == old(self).players(),
    {
        let root = self.root;
        self.get_mut(root)
    }

    /// The nodes with their identifiers, the root first.
    pub fn iter(&self) -> (pairs: Vec<(NodeId, &MCTSNode<M>)>)
        requires
            self.nodes().len() <= u32::MAX,
        ensures
            pairs@.len() == self.nodes().len(),
            forall|i: int|
                0 <= i < pairs@.len() ==> (#[trigger] pairs@[i]).0.0 == i && *pairs@[i].1
                    == self.nodes()[i],
    {
        let mut pairs: Vec<(NodeId, &MCTSNode<M>)> = Vec::new();
        let mut next: usize = 0;
        while next < self.nodes.len()
            invariant
                next <= self.nodes@.len() <= u32::MAX,
                pairs@.len() == next,
                forall|i: int|
                    0 <= i < pairs@.len() ==> (#[trigger] pairs@[i]).0.0 == i && *pairs@[i].1
                        == self.nodes@[i],
            decreases self.nodes@.len() - next,
        {
            pairs.push((NodeId(next as u32), &self.nodes[next]));
            next = next + 1;
        }
        pairs
    }
}

/// In a tree that hangs together every child names its parent: an expanded
/// edge of a node leads to a node of the tree that names that node as its
/// parent and lies one level deeper.
pub proof fn lemma_children_point_back<M: RewardModel>(tree: &MCTSTree<M>, node: int, edge: int)
    requires
        tree.wf(),
        0 <= node < tree.nodes().len(),
        0 <= edge < tree.nodes()[node].edges@.len(),
        tree.nodes()[node].edges@[edge].spec_is_expanded(),
    ensures
        (tree.nodes()[node].edges@[edge].child.0 as int) < tree.nodes().len(),
        tree.nodes()[tree.nodes()[node].edges@[edge].child.0 as int].parent == NodeId(node as u32),
        tree.nodes()[tree.nodes()[node].edges@[edge].child.0 as int].depth == tree.nodes()[node].depth
            + 1,
{
    tree.lemma_wf();
}

} // verus!
