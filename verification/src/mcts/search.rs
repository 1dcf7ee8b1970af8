//! The search.
//!
//! A search resets its tree, gives the root its edges, and runs passes.
//! A pass walks down from the root: at a node of the searching player it
//! expands an edge that is not expanded yet, plays the game out from there
//! and stops; where all edges are expanded it follows the one the
//! selection policy picks. At a node of another player it follows the edge
//! of the action the opponent policy draws, which it adds if it is new.
//! What the pass was worth is then recorded on every edge it went over.
//!
//! Every pass counts once at the root and once more for the root edge it
//! took. So the visits of the root's edges add up to the number of passes
//! that took a root edge.

use super::node::{edge_visits, most_visited, Edge, MCTSNode, NodeId, RewardModel};
use super::policy::{
    OpponentPolicy, RandomSimulation, SelectionPolicy, SimulationPolicy, UniformOpponent,
};
use super::stats::{count_one, counted, SearchStats};
use super::tree::{
    deepest, hanging_on, hangs, lemma_counts_same, lemma_hanging_same, lemma_terminal_marked,
    linked, terminals, MCTSTree,
};
use crate::base::action::{Action, ActionView};
use crate::base::player::PlayerId;
use crate::base::rng::{GameRng, GameRngState};
use crate::base::state::{GameState, GameStateView};
use crate::rules::engine::{
    action_views, enumerates, ActionEnumeration, GameResult, RulesEngine,
};
use vstd::prelude::*;

verus! {

/// `std::time::Instant`, a point in time. Nothing is said of what is
/// inside.
#[verifier::external_type_specification]
#[verifier::external_body]
pub struct ExInstant(std::time::Instant);

/// `Instant::now`: the time at the call.
#[verifier::external_body]
fn clock_now() -> std::time::Instant {
    std::time::Instant::now()
}

/// `Instant::elapsed`: the time since `start`.
#[verifier::external_body]
fn clock_elapsed(start: &std::time::Instant) -> std::time::Duration {
    start.elapsed()
}

/// `Duration::as_micros`: the whole microseconds of a span of time.
#[verifier::external_body]
fn whole_micros(span: &std::time::Duration) -> u128 {
    span.as_micros()
}

/// The time since `start` in whole microseconds, as far as 64 bits hold
/// them.
fn micros_since(start: &std::time::Instant) -> u64 {
    let span = clock_elapsed(start);
    let micros = whole_micros(&span);
    (micros & 0xFFFF_FFFF_FFFF_FFFF) as u64
}

/// The limits of a search.
#[derive(Clone, Copy, Debug, PartialEq, Eq, Structural)]
pub struct SearchLimits {
    /// How deep the tree may grow; without limit if 0.
    pub max_depth: u32,
    /// The search stops when the tree has this many nodes.
    pub max_nodes: usize,
    /// The seed of the search's random number generator.
    pub seed: u64,
}

impl Default for SearchLimits {
    fn default() -> (limits: Self)
        ensures
            limits == (SearchLimits { max_depth: 0, max_nodes: 100_000, seed: 42 }),
    {
        SearchLimits { max_depth: 0, max_nodes: 100_000, seed: 42 }
    }
}

impl SearchLimits {
    /// The same limits with another seed.
    pub fn with_seed(self, seed: u64) -> (limits: Self)
        ensures
            limits == (SearchLimits { seed, ..self }),
    {
        SearchLimits { max_depth: self.max_depth, max_nodes: self.max_nodes, seed }
    }

    /// The same limits with another greatest depth.
    pub fn with_max_depth(self, depth: u32) -> (limits: Self)
        ensures
            limits == (SearchLimits { max_depth: depth, ..self }),
    {
        SearchLimits { max_depth: depth, max_nodes: self.max_nodes, seed: self.seed }
    }
}

/// The actions of a node's edges, as plain values.
pub open spec fn edge_actions<M: RewardModel>(edges: Seq<Edge<M>>) -> Seq<ActionView> {
    Seq::new(edges.len(), |e: int| edges[e].action@)
}

/// Whether a node is the same as another but for visits and statistics,
/// and for edges added at its end that are not expanded.
pub open spec fn grown<M: RewardModel>(before: MCTSNode<M>, after: MCTSNode<M>) -> bool {
    &&& after.parent == before.parent
    &&& after.parent_edge_idx == before.parent_edge_idx
    &&& after.to_move == before.to_move
    &&& after.depth == before.depth
    &&& after.edges@.len() >= before.edges@.len()
    &&& forall|e: int|
        0 <= e < before.edges@.len() ==> (#[trigger] after.edges@[e]).child
            == before.edges@[e].child && after.edges@[e].action@ == before.edges@[e].action@
    &&& forall|e: int|
        before.edges@.len() <= e < after.edges@.len() ==> !(
        #[trigger] after.edges@[e]).spec_is_expanded()
}

/// Whether a node is still the node it was: it has its parent, its place,
/// its player and its verdict, its edges are those it had, with their
/// actions, and then any new ones, and an edge that led to a node still
/// leads there.
pub open spec fn kept<M: RewardModel>(before: MCTSNode<M>, after: MCTSNode<M>) -> bool {
    &&& after.parent == before.parent
    &&& after.parent_edge_idx == before.parent_edge_idx
    &&& after.to_move == before.to_move
    &&& after.depth == before.depth
    &&& after.is_terminal == before.is_terminal
    &&& after.edges@.len() >= before.edges@.len()
    &&& forall|e: int|
        0 <= e < before.edges@.len() ==> (#[trigger] after.edges@[e]).action@
            == before.edges@[e].action@ && (before.edges@[e].spec_is_expanded()
            ==> after.edges@[e].child == before.edges@[e].child)
}

/// A node that is kept twice is kept.
pub proof fn lemma_kept_twice<M: RewardModel>(
    first: MCTSNode<M>,
    second: MCTSNode<M>,
    third: MCTSNode<M>,
)
    requires
        kept(first, second),
        kept(second, third),
    ensures
        kept(first, third),
{
    assert forall|e: int| 0 <= e < first.edges@.len() implies (#[trigger] third.edges@[e]).action@
        == first.edges@[e].action@ && (first.edges@[e].spec_is_expanded() ==> third.edges@[e].child
        == first.edges@[e].child) by {
        assert(second.edges@[e].action@ == first.edges@[e].action@);
    }
}

/// A node that has grown and has its verdict is kept.
pub proof fn lemma_grown_kept<M: RewardModel>(before: MCTSNode<M>, after: MCTSNode<M>)
    requires
        grown(before, after),
        after.is_terminal == before.is_terminal,
    ensures
        kept(before, after),
{
    assert forall|e: int| 0 <= e < before.edges@.len() implies (#[trigger] after.edges@[e]).action@
        == before.edges@[e].action@ && (before.edges@[e].spec_is_expanded() ==> after.edges@[e].child
        == before.edges@[e].child) by {
        assert(after.edges@[e].child == before.edges@[e].child);
    }
}

/// A tree keeps hanging together when one of its nodes grows.
pub proof fn lemma_linked_grown<M: RewardModel>(nodes: Seq<MCTSNode<M>>, at: int, after: MCTSNode<M>)
    requires
        linked(nodes),
        0 <= at < nodes.len(),
        grown(nodes[at], after),
    ensures
        linked(nodes.update(at, after)),
{
    let changed = nodes.update(at, after);
    assert forall|n: int, e: int|
        0 <= n < changed.len() && 0 <= e < changed[n].edges@.len() && (
        #[trigger] changed[n].edges@[e]).spec_is_expanded() implies {
        let child = changed[n].edges@[e].child.0 as int;
        &&& n < child < changed.len()
        &&& changed[child].parent == NodeId(n as u32)
        &&& changed[child].depth == changed[n].depth + 1
    } by {
        if n == at {
            assert(e < nodes[at].edges@.len());
            assert(after.edges@[e].child == nodes[at].edges@[e].child);
        }
        assert(nodes[n].edges@[e].spec_is_expanded());
    }
    assert forall|child: int| 0 < child < changed.len() implies #[trigger] hangs(changed, child) by {
        assert(hangs(nodes, child));
        let parent = nodes[child].parent.0 as int;
        let e = choose|e: int|
            0 <= e < nodes[parent].edges@.len() && (#[trigger] nodes[parent].edges@[e]).child
                == NodeId(child as u32);
        if parent == at {
            assert(after.edges@[e].child == nodes[at].edges@[e].child);
        }
        assert(changed[parent].edges@[e].child == NodeId(child as u32));
    }
}

/// A tree keeps hanging together when an edge that was not expanded is
/// made to lead to the last node, which names the edge's node as its
/// parent one level up and has no expanded edge.
pub proof fn lemma_linked_attach<M: RewardModel>(
    nodes: Seq<MCTSNode<M>>,
    at: int,
    edge: int,
    after: MCTSNode<M>,
)
    requires
        linked(nodes.drop_last()),
        nodes.len() >= 2,
        nodes.len() <= u32::MAX,
        0 <= at < nodes.len() - 1,
        0 <= edge < nodes[at].edges@.len(),
        !nodes[at].edges@[edge].spec_is_expanded(),
        nodes.last().parent == NodeId(at as u32),
        nodes.last().depth == nodes[at].depth + 1,
        nodes.last().parent_edge_idx == edge % 65536,
        forall|e: int|
            0 <= e < nodes.last().edges@.len() ==> !(
            #[trigger] nodes.last().edges@[e]).spec_is_expanded(),
        after.parent == nodes[at].parent,
        after.parent_edge_idx == nodes[at].parent_edge_idx,
        after.depth == nodes[at].depth,
        after.edges@.len() == nodes[at].edges@.len(),
        after.edges@[edge].child == NodeId((nodes.len() - 1) as u32),
        forall|e: int|
            0 <= e < after.edges@.len() && e != edge ==> (#[trigger] after.edges@[e]).child
                == nodes[at].edges@[e].child,
    ensures
        linked(nodes.update(at, after)),
{
    let shorter = nodes.drop_last();
    let changed = nodes.update(at, after);
    assert forall|child: int| 0 < child < changed.len() implies #[trigger] hangs(changed, child) by {
        if child == nodes.len() - 1 {
            assert(changed[at].edges@[edge].child == NodeId(child as u32));
        } else {
            assert(hangs(shorter, child));
            assert(shorter[child] == nodes[child]);
            let parent = shorter[child].parent.0 as int;
            assert(shorter[parent] == nodes[parent]);
            let e = choose|e: int|
                0 <= e < shorter[parent].edges@.len() && (#[trigger] shorter[parent].edges@[e]).child
                    == NodeId(child as u32);
            if parent == at {
                assert(e != edge);
                assert(after.edges@[e].child == nodes[at].edges@[e].child);
            }
            assert(changed[parent].edges@[e].child == NodeId(child as u32));
        }
    }
    assert forall|n: int, e: int, other: int|
        0 <= n < changed.len() && 0 <= e < changed[n].edges@.len() && 0 <= other
            < changed[n].edges@.len() && (#[trigger] changed[n].edges@[e]).spec_is_expanded()
            && changed[n].edges@[e].child == (#[trigger] changed[n].edges@[other]).child implies e
        == other by {
        if n == nodes.len() - 1 {
            assert(!nodes.last().edges@[e].spec_is_expanded());
        } else if n == at {
            if e != edge && other != edge {
                assert(shorter[n].edges@[e] == nodes[n].edges@[e]);
                assert(shorter[n].edges@[other] == nodes[n].edges@[other]);
                assert(after.edges@[e].child == nodes[at].edges@[e].child);
                assert(after.edges@[other].child == nodes[at].edges@[other].child);
                assert(shorter[n].edges@[e].spec_is_expanded());
            } else if e != edge {
                assert(shorter[n].edges@[e] == nodes[n].edges@[e]);
                assert(after.edges@[e].child == nodes[at].edges@[e].child);
                assert(shorter[n].edges@[e].spec_is_expanded());
                assert((shorter[n].edges@[e].child.0 as int) < shorter.len());
            } else if other != edge {
                assert(shorter[n].edges@[other] == nodes[n].edges@[other]);
                assert(after.edges@[other].child == nodes[at].edges@[other].child);
                assert(shorter[n].edges@[other].spec_is_expanded());
                assert((shorter[n].edges@[other].child.0 as int) < shorter.len());
            }
        } else {
            assert(shorter[n].edges@[e] == nodes[n].edges@[e]);
            assert(shorter[n].edges@[other] == nodes[n].edges@[other]);
            assert(shorter[n].edges@[e].spec_is_expanded());
        }
    }
    assert(changed[0].depth == 0) by {
        assert(shorter[0] == nodes[0]);
    }
    assert forall|n: int, e: int|
        0 <= n < changed.len() && 0 <= e < changed[n].edges@.len() && (
        #[trigger] changed[n].edges@[e]).spec_is_expanded() implies {
        let child = changed[n].edges@[e].child.0 as int;
        &&& n < child < changed.len()
        &&& changed[child].parent == NodeId(n as u32)
        &&& changed[child].depth == changed[n].depth + 1
        &&& changed[child].parent_edge_idx == e % 65536
    } by {
        if n == nodes.len() - 1 {
            assert(!nodes.last().edges@[e].spec_is_expanded());
        } else if n == at && e == edge {
        } else {
            assert(shorter[n].edges@[e] == nodes[n].edges@[e]);
            if n == at {
                assert(after.edges@[e].child == nodes[at].edges@[e].child);
            }
            assert(shorter[n].edges@[e].spec_is_expanded());
            let child = shorter[n].edges@[e].child.0 as int;
            assert(child < shorter.len());
            assert(shorter[child] == nodes[child]);
        }
    }
    assert(changed[0].parent.spec_is_none()) by {
        assert(shorter[0] == nodes[0]);
    }
}

/// The visits of edges add up to at least the visits of each.
pub proof fn lemma_edge_visits_bound<M: RewardModel>(edges: Seq<Edge<M>>, count: int, edge: int)
    requires
        0 <= edge < count <= edges.len(),
    ensures
        edges[edge].visits <= edge_visits(edges, count),
        0 <= edge_visits(edges, count),
    decreases count,
{
    lemma_edge_visits_nonnegative(edges, count - 1);
    if edge < count - 1 {
        lemma_edge_visits_bound(edges, count - 1, edge);
    }
}

/// The visits of edges add up to no less than 0.
pub proof fn lemma_edge_visits_nonnegative<M: RewardModel>(edges: Seq<Edge<M>>, count: int)
    ensures
        0 <= edge_visits(edges, count),
    decreases count,
{
    if count > 0 {
        lemma_edge_visits_nonnegative(edges, count - 1);
    }
}

/// One more visit of one edge is one more in the sum.
pub proof fn lemma_edge_visits_step<M: RewardModel>(
    before: Seq<Edge<M>>,
    after: Seq<Edge<M>>,
    count: int,
    edge: int,
)
    requires
        0 <= count <= before.len(),
        before.len() == after.len(),
        0 <= edge < before.len(),
        after[edge].visits == before[edge].visits + 1,
        forall|e: int| 0 <= e < before.len() && e != edge ==> (#[trigger] after[e]).visits == before[e].visits,
    ensures
        edge_visits(after, count) == edge_visits(before, count) + (if edge < count {
            1int
        } else {
            0int
        }),
    decreases count,
{
    if count > 0 {
        lemma_edge_visits_step(before, after, count - 1, edge);
    }
}

/// Edges with the same visits add up to the same.
pub proof fn lemma_edge_visits_same<M: RewardModel>(
    before: Seq<Edge<M>>,
    after: Seq<Edge<M>>,
    count: int,
)
    requires
        0 <= count <= before.len(),
        before.len() == after.len(),
        forall|e: int| 0 <= e < before.len() ==> (#[trigger] after[e]).visits == before[e].visits,
    ensures
        edge_visits(after, count) == edge_visits(before, count),
    decreases count,
{
    if count > 0 {
        lemma_edge_visits_same(before, after, count - 1);
    }
}

/// Edges that were not visited add nothing.
pub proof fn lemma_edge_visits_fresh<M: RewardModel>(edges: Seq<Edge<M>>, count: int)
    requires
        0 <= count <= edges.len(),
        forall|e: int| 0 <= e < edges.len() ==> (#[trigger] edges[e]).visits == 0,
    ensures
        edge_visits(edges, count) == 0,
    decreases count,
{
    if count > 0 {
        lemma_edge_visits_fresh(edges, count - 1);
    }
}

/// Adding an edge at the end leaves the sums over the edges before it as
/// they were.
pub proof fn lemma_edge_visits_push<M: RewardModel>(edges: Seq<Edge<M>>, edge: Edge<M>, count: int)
    requires
        0 <= count <= edges.len(),
    ensures
        edge_visits(edges.push(edge), count) == edge_visits(edges, count),
    decreases count,
{
    if count > 0 {
        lemma_edge_visits_push(edges, edge, count - 1);
    }
}

/// The fork counter of a generator after `times` more forks were taken:
/// it goes round at the end of `u64`.
pub open spec fn forked(counter: u64, times: u32) -> u64 {
    if counter + times > u64::MAX {
        (counter + times - 0x1_0000_0000_0000_0000) as u64
    } else {
        (counter + times) as u64
    }
}

/// A search for the best action of a player.
#[verifier::reject_recursive_types(E)]
#[verifier::reject_recursive_types(M)]
pub struct MCTSSearch<E: RulesEngine + Clone, M: RewardModel> {
    engine: E,
    limits: SearchLimits,
    tree: MCTSTree<M>,
    rng: GameRng,
    selection: Box<dyn SelectionPolicy<M>>,
    simulation: Box<dyn SimulationPolicy<E, M>>,
    opponent: Box<dyn OpponentPolicy<E>>,
    stats: SearchStats,
}

/// Whether a path leads down from the root of a tree: it begins at the
/// root, every step names an edge of its node, and every step but the
/// first is at a node other than the root.
pub open spec fn descends<M: RewardModel>(nodes: Seq<MCTSNode<M>>, path: Seq<(NodeId, usize)>) -> bool {
    &&& path.len() > 0 ==> path[0].0 == NodeId(0)
    &&& forall|i: int|
        0 <= i < path.len() ==> ((#[trigger] path[i]).0.0 as int) < nodes.len() && (path[i].1
            as int) < nodes[path[i].0.0 as int].edges@.len()
    &&& forall|i: int| 0 < i < path.len() ==> (#[trigger] path[i]).0.0 > 0
}

impl<E: RulesEngine + Clone, M: RewardModel> MCTSSearch<E, M> {
    /// The tree of the search.
    pub closed spec fn tree_view(&self) -> MCTSTree<M> {
        self.tree
    }

    /// The counters of the search.
    pub closed spec fn stats_view(&self) -> SearchStats {
        self.stats
    }

    /// The rules of the game.
    pub closed spec fn rules(&self) -> E {
        self.engine
    }

    /// The limits of the search.
    pub closed spec fn bounds(&self) -> SearchLimits {
        self.limits
    }

    /// The state of the random number generator of the search.
    pub closed spec fn generator(&self) -> GameRngState {
        self.rng@
    }

    /// The policy that picks among expanded edges.
    pub closed spec fn selection_policy(&self) -> &Box<dyn SelectionPolicy<M>> {
        &self.selection
    }

    /// The policy that plays games out.
    pub closed spec fn simulation_policy(&self) -> &Box<dyn SimulationPolicy<E, M>> {
        &self.simulation
    }

    /// The policy that moves for the opponents.
    pub closed spec fn opponent_policy(&self) -> &Box<dyn OpponentPolicy<E>> {
        &self.opponent
    }

    /// The tree hangs together.
    pub open spec fn wf(&self) -> bool {
        self.tree_view().wf()
    }

    /// The visits of the root.
    pub open spec fn root_visits(&self) -> int {
        self.tree_view().nodes()[0].visits as int
    }

    /// The visits of the root's edges, added up.
    pub open spec fn root_edge_visits(&self) -> int {
        edge_visits(
            self.tree_view().nodes()[0].edges@,
            self.tree_view().nodes()[0].edges@.len() as int,
        )
    }

    /// The visits of the root are `passes` more than those of its edges
    /// together, which are no more than `passes`: every pass counts once
    /// at the root, and once more at the root and at a root edge if it
    /// took one.
    pub open spec fn accounted(&self, passes: int) -> bool {
        self.root_visits() == self.root_edge_visits() + passes && 0 <= self.root_edge_visits()
            <= passes
    }

    /// What a search gives, as far as the root says it: nothing where the
    /// game is over at the root or the root has no edge, and else an action
    /// that is the one of the root's edge with the most visits; of those
    /// with the most, the last.
    pub open spec fn most_visited_action(&self, best: Option<Action>) -> Option<Action> {
        let root = self.tree_view().nodes()[0];
        if root.is_terminal || root.edges@.len() == 0 {
            None
        } else if best matches Some(action) && action@ == root.edges@[most_visited(
            root.edges@,
            root.edges@.len() as int,
        )].action@ {
            best
        } else {
            Some(root.edges@[most_visited(root.edges@, root.edges@.len() as int)].action)
        }
    }

    /// A search with the given policy of selection, which plays games out
    /// at random and takes opponents to move at random.
    pub fn new(engine: E, limits: SearchLimits, selection: Box<dyn SelectionPolicy<M>>) -> (search:
        Self) where M: 'static
        ensures
            search.wf(),
            *search.selection_policy() === selection,
            search.rules() == engine,
            search.bounds() == limits,
            search.generator() == (GameRngState {
                seed: limits.seed,
                word_pos: 0,
                fork_counter: 0,
            }),
            search.stats_view() == (SearchStats {
                iterations: 0,
                nodes_expanded: 0,
                simulations: 0,
                max_depth: 0,
                time_us: 0,
            }),
            search.tree_view().nodes().len() == 1,
            search.tree_view().nodes()[0].edges@.len() == 0,
    {
        let player_count = engine.config().player_count;
        let rng = GameRng::new(limits.seed);
        MCTSSearch {
            engine,
            limits,
            tree: MCTSTree::with_capacity(PlayerId::new(0), player_count, limits.max_nodes),
            rng,
            selection,
            simulation: Box::new(RandomSimulation::new()),
            opponent: Box::new(UniformOpponent),
            stats: SearchStats::new(),
        }
    }

    /// The same search with another policy of selection.
    pub fn with_selection(self, selection: Box<dyn SelectionPolicy<M>>) -> (search: Self)
        ensures
            *search.selection_policy() === selection,
            *search.simulation_policy() === *self.simulation_policy(),
            *search.opponent_policy() === *self.opponent_policy(),
            search.tree_view() == self.tree_view(),
            search.stats_view() == self.stats_view(),
            search.rules() == self.rules(),
            search.bounds() == self.bounds(),
            search.generator() == self.generator(),
    {
        MCTSSearch {
            engine: self.engine,
            limits: self.limits,
            tree: self.tree,
            rng: self.rng,
            selection,
            simulation: self.simulation,
            opponent: self.opponent,
            stats: self.stats,
        }
    }

    /// The same search with another policy of simulation.
    pub fn with_simulation(self, simulation: Box<dyn SimulationPolicy<E, M>>) -> (search: Self)
        ensures
            *search.selection_policy() === *self.selection_policy(),
            *search.simulation_policy() === simulation,
            *search.opponent_policy() === *self.opponent_policy(),
            search.tree_view() == self.tree_view(),
            search.stats_view() == self.stats_view(),
            search.rules() == self.rules(),
            search.bounds() == self.bounds(),
            search.generator() == self.generator(),
    {
        MCTSSearch {
            engine: self.engine,
            limits: self.limits,
            tree: self.tree,
            rng: self.rng,
            selection: self.selection,
            simulation,
            opponent: self.opponent,
            stats: self.stats,
        }
    }

    /// The same search with another policy for opponents.
    pub fn with_opponent(self, opponent: Box<dyn OpponentPolicy<E>>) -> (search: Self)
        ensures
            *search.selection_policy() === *self.selection_policy(),
            *search.simulation_policy() === *self.simulation_policy(),
            *search.opponent_policy() === opponent,
            search.tree_view() == self.tree_view(),
            search.stats_view() == self.stats_view(),
            search.rules() == self.rules(),
            search.bounds() == self.bounds(),
            search.generator() == self.generator(),
    {
        MCTSSearch {
            engine: self.engine,
            limits: self.limits,
            tree: self.tree,
            rng: self.rng,
            selection: self.selection,
            simulation: self.simulation,
            opponent,
            stats: self.stats,
        }
    }

    /// Searches for the action of `player` in `state` with up to
    /// `iterations` passes, and gives the root action with the most
    /// visits. It gives nothing where the game is over or no action is
    /// legal, and the only legal action without a pass where there is one.
    /// The passes end early once the tree has as many nodes as the limits
    /// allow. Each pass plays on a snapshot of `state`, so the state is
    /// left as it was but for the forks taken from its generator.
    ///
    /// Afterwards the visits of the root's edges add up to the number of
    /// passes that took a root edge, and the root's visits to that number
    /// and the number of passes. The counters say how long the passes
    /// took.
    pub fn search(&mut self, state: &mut GameState, player: PlayerId, iterations: u32) -> (best:
        Option<Action>)
        requires
            iterations <= 0x7FFF_FFFF,
        ensures
            final(self).wf(),
            final(self).stats_view().iterations <= iterations,
            final(self).accounted(final(self).stats_view().iterations as int),
            best == final(self).most_visited_action(best),
            final(self).bounds() == old(self).bounds(),
            final(self).stats_view().iterations == iterations || final(self).tree_view().nodes().len()
                >= final(self).bounds().max_nodes || final(self).tree_view().nodes()[0].is_terminal
                || final(self).tree_view().nodes()[0].edges@.len() == 1,
            final(state)@ == (GameStateView {
                rng: GameRngState {
                    fork_counter: forked(
                        old(state)@.rng.fork_counter,
                        final(self).stats_view().iterations,
                    ),
                    ..old(state)@.rng
                },
                ..old(state)@
            }),
            final(self).tallied(),
            final(self).simulated(player),
            final(self).stats_view().simulations <= final(self).stats_view().iterations,
            final(self).tree_view().nodes()[0].to_move == old(state).public.active_player,
            exists|verdict: Option<GameResult>| #[trigger]
                call_ensures(E::is_terminal, (&old(self).rules(), &*old(state)), verdict) && final(self).rooted(&old(self).rules(), &*old(state), player, verdict),
            old(state).public.active_player == player && final(self).tree_view().nodes()[0].edges@.len()
                > 0 && final(self).tree_view().nodes().len() < u32::MAX ==> final(self).root_edge_visits() == final(self).stats_view().iterations,
    {
        let start = clock_now();
        self.stats.reset();
        self.tree.reset(state.public.active_player);
        let root = NodeId::new(0);
        let ghost fresh = *self;
        self.expand_node(root, state);
        let ghost verdict = choose|verdict: Option<GameResult>| #[trigger]
            call_ensures(E::is_terminal, (&fresh.engine, &*state), verdict) && fresh.expanded_to(
                0,
                state,
                verdict,
                *self,
            );
        let ghost root0 = self.tree.nodes()[0];
        proof {
            self.tree.lemma_wf();
            let edges = self.tree.nodes()[0].edges@;
            lemma_edge_visits_fresh(edges, edges.len() as int);
            fresh.tree.lemma_wf();
            assert(terminals(fresh.tree.nodes(), 0) == 0);
            assert(terminals(fresh.tree.nodes(), 1) == 0);
            assert(deepest(fresh.tree.nodes(), 0) == 0);
            assert(deepest(fresh.tree.nodes(), 1) == 0);
            assert(self.tallied());
            assert(hanging_on(self.tree.nodes(), player, 1) == 0);
            assert(fresh.engine == old(self).rules());
            assert(edge_actions(root0.edges@).take(root0.edges@.len() as int) =~= edge_actions(
                root0.edges@,
            ));
            assert(self.rooted(&old(self).rules(), &*old(state), player, verdict));
        }
        if self.tree.get(root).is_terminal {
            return None;
        }
        if self.tree.get(root).edges.len() == 1 {
            return Some(self.tree.get(root).edges[0].action.clone());
        }
        let mut done: u32 = 0;
        while done < iterations
            invariant
                done <= iterations <= 0x7FFF_FFFF,
                *state == *old(state) || done > 0,
                self.tallied(),
                self.simulated(player),
                self.stats.simulations <= done,
                state.public.active_player == old(state).public.active_player,
                root0.to_move == old(state).public.active_player,
                !root0.is_terminal,
                verdict is None,
                enumerates(
                    &old(self).rules(),
                    &*old(state),
                    old(state).public.active_player,
                    edge_actions(root0.edges@),
                ),
                kept(root0, self.tree.nodes()[0]),
                root0.to_move == player ==> self.tree.nodes()[0].edges@.len() == root0.edges@.len(),
                old(state).public.active_player == player && self.tree.nodes()[0].edges@.len() > 0
                    && self.tree.nodes().len() < u32::MAX ==> self.root_edge_visits() == done,
                self.limits == old(self).limits,
                state@ == (GameStateView {
                    rng: GameRngState {
                        fork_counter: forked(old(state)@.rng.fork_counter, done),
                        ..old(state)@.rng
                    },
                    ..old(state)@
                }),
                self.wf(),
                self.stats.iterations == done,
                self.accounted(done as int),
                !self.tree.nodes()[0].is_terminal,
            ensures
                done == iterations || self.tree.nodes().len() >= self.limits.max_nodes,
            decreases iterations - done,
        {
            let mut sim_state = state.clone_state();
            let ghost before_pass = self.tree.nodes();
            let ghost before_visits = self.root_edge_visits();
            proof {
                self.tree.lemma_wf();
                assert(before_pass.len() > 0);
                if old(state).public.active_player == player && before_pass[0].edges@.len() > 0
                    && before_pass.len() < u32::MAX {
                    assert(self.takes_root_edge(player));
                }
            }
            self.iteration(&mut sim_state, player);
            proof {
                self.tree.lemma_wf();
                assert(kept(before_pass[0], self.tree.nodes()[0]));
                lemma_kept_twice(root0, before_pass[0], self.tree.nodes()[0]);
            }
            self.stats.iterations = self.stats.iterations + 1;
            done = done + 1;
            if self.tree.len() >= self.limits.max_nodes {
                break ;
            }
        }
        self.stats.time_us = micros_since(&start);
        proof {
            let root = self.tree.nodes()[0];
            let actions = edge_actions(root0.edges@);
            assert(edge_actions(root.edges@).take(actions.len() as int) =~= actions);
            assert(self.rooted(&old(self).rules(), &*old(state), player, verdict));
        }
        self.best_action(player)
    }

    /// Whether the root is that of a search from `state` under the rules
    /// `engine`, given what the rules say of the state. Where the game is
    /// over, the root is marked so and has no edge. Where it is not, the
    /// root's edges begin with the legal actions of the active player, in
    /// the order the rules give them; they are all its edges where the
    /// active player is the one who searches.
    pub open spec fn rooted(
        &self,
        engine: &E,
        state: &GameState,
        player: PlayerId,
        verdict: Option<GameResult>,
    ) -> bool {
        let root = self.tree_view().nodes()[0];
        match verdict {
            Some(result) => root.is_terminal && root.edges@.len() == 0,
            None => !root.is_terminal && exists|actions: Seq<ActionView>| #[trigger]
                enumerates(engine, state, state.public.active_player, actions) && actions.len()
                    <= root.edges@.len() && edge_actions(root.edges@).take(actions.len() as int)
                    == actions && (state.public.active_player == player ==> root.edges@.len()
                    == actions.len()),
        }
    }

    /// Whether the counters say what the tree holds: every node that is
    /// not terminal has been counted as expanded, and the greatest depth
    /// of a node is counted.
    pub open spec fn tallied(&self) -> bool {
        let nodes = self.tree_view().nodes();
        &&& self.stats_view().nodes_expanded + terminals(nodes, nodes.len() as int) == nodes.len()
        &&& self.stats_view().max_depth == deepest(nodes, nodes.len() as int)
    }

    /// Whether the simulations counted are as many as the nodes that hang
    /// on a node where `player` moves: one game was played out for each
    /// node made below a node of the searching player.
    pub open spec fn simulated(&self, player: PlayerId) -> bool {
        let nodes = self.tree_view().nodes();
        self.stats_view().simulations == hanging_on(nodes, player, nodes.len() as int)
    }

    /// As many nodes hang on a node of a player as before where no node
    /// came or went and the parents and players of the nodes are the
    /// same.
    proof fn lemma_hanging_kept(&self, before: Seq<MCTSNode<M>>, player: PlayerId)
        requires
            linked(before),
            self.tree.nodes().len() == before.len(),
            forall|n: int|
                0 <= n < before.len() ==> (#[trigger] self.tree.nodes()[n]).parent
                    == before[n].parent && self.tree.nodes()[n].to_move == before[n].to_move,
        ensures
            hanging_on(self.tree.nodes(), player, before.len() as int) == hanging_on(
                before,
                player,
                before.len() as int,
            ),
    {
        lemma_hanging_same(before, self.tree.nodes(), player, before.len() as int);
    }

    /// The counters still say what the tree holds where neither they nor
    /// the verdicts and depths of the nodes have changed.
    proof fn lemma_tally_kept(&self, before: Seq<MCTSNode<M>>, expanded: u32, depth: u16)
        requires
            expanded + terminals(before, before.len() as int) == before.len(),
            depth == deepest(before, before.len() as int),
            self.stats.nodes_expanded == expanded,
            self.stats.max_depth == depth,
            self.tree.nodes().len() == before.len(),
            forall|n: int|
                0 <= n < before.len() ==> (#[trigger] self.tree.nodes()[n]).is_terminal
                    == before[n].is_terminal && self.tree.nodes()[n].depth == before[n].depth,
        ensures
            self.tallied(),
    {
        lemma_counts_same(before, self.tree.nodes(), before.len() as int);
    }

    /// Whether a pass for a player is sure to go over an edge of the
    /// root: the game is not over there, the root has an edge, the player
    /// moves there, and the tree can take one more node.
    pub closed spec fn takes_root_edge(&self, player: PlayerId) -> bool {
        &&& !self.tree.nodes()[0].is_terminal
        &&& self.tree.nodes()[0].edges@.len() > 0
        &&& self.tree.nodes()[0].to_move == player
        &&& self.tree.nodes().len() < u32::MAX
    }

    /// Nodes that were kept up to a point, and are kept from there, with
    /// the edges of the searching player's nodes as many as before, are
    /// kept, with as many edges.
    proof fn lemma_kept_on(
        &self,
        first: Seq<MCTSNode<M>>,
        second: Seq<MCTSNode<M>>,
        player: PlayerId,
    )
        requires
            first.len() <= second.len() <= self.tree.nodes().len(),
            forall|n: int|
                0 <= n < first.len() ==> kept(first[n], #[trigger] second[n]) && (first[n].to_move
                    == player ==> second[n].edges@.len() == first[n].edges@.len()),
            forall|n: int|
                0 <= n < second.len() ==> kept(second[n], #[trigger] self.tree.nodes()[n]) && (
                second[n].to_move == player ==> self.tree.nodes()[n].edges@.len()
                    == second[n].edges@.len()),
        ensures
            forall|n: int|
                0 <= n < first.len() ==> kept(first[n], #[trigger] self.tree.nodes()[n]) && (
                first[n].to_move == player ==> self.tree.nodes()[n].edges@.len()
                    == first[n].edges@.len()),
    {
        assert forall|n: int| 0 <= n < first.len() implies kept(
            first[n],
            #[trigger] self.tree.nodes()[n],
        ) && (first[n].to_move == player ==> self.tree.nodes()[n].edges@.len()
            == first[n].edges@.len()) by {
            assert(kept(first[n], second[n]));
            lemma_kept_twice(first[n], second[n], self.tree.nodes()[n]);
        }
    }

    /// One pass through the tree.
    fn iteration(&mut self, state: &mut GameState, searching_player: PlayerId)
        requires
            old(self).simulated(searching_player),
            old(self).tallied(),
            old(self).wf(),
            0 <= old(self).root_edge_visits() <= old(self).root_visits() <= u32::MAX - 2,
        ensures
            final(self).simulated(searching_player),
            final(self).tallied(),
            old(self).stats.simulations <= final(self).stats.simulations <= old(self).stats.simulations + 1,
            final(self).limits == old(self).limits,
            final(self).wf(),
            final(self).stats_view().iterations == old(self).stats_view().iterations,
            final(self).root_visits() - final(self).root_edge_visits() == old(self).root_visits()
                - old(self).root_edge_visits() + 1,
            old(self).root_edge_visits() <= final(self).root_edge_visits() <= old(self).root_edge_visits() + 1,
            final(self).tree_view().nodes()[0].is_terminal == old(self).tree_view().nodes()[0].is_terminal,
            final(self).tree.nodes().len() >= old(self).tree.nodes().len(),
            forall|n: int|
                0 <= n < old(self).tree.nodes().len() ==> kept(
                    old(self).tree.nodes()[n],
                    #[trigger] final(self).tree.nodes()[n],
                ) && (old(self).tree.nodes()[n].to_move == searching_player
                    ==> final(self).tree.nodes()[n].edges@.len() == old(self).tree.nodes()[n].edges@.len()),
            old(self).takes_root_edge(searching_player) ==> final(self).root_edge_visits() == old(self).root_edge_visits() + 1,
    {
        let mut path: Vec<(NodeId, usize)> = Vec::new();
        let mut current = NodeId::new(0);
        proof {
            self.tree.lemma_wf();
        }
        loop
            invariant
                self.limits == old(self).limits,
                self.wf(),
                self.stats.iterations == old(self).stats.iterations,
                (current.0 as int) < self.tree.nodes().len(),
                descends(self.tree.nodes(), path@),
                path@.len() == 0 <==> current.0 == 0,
                self.root_visits() == old(self).root_visits(),
                self.root_edge_visits() == old(self).root_edge_visits(),
                self.tree.nodes()[0].is_terminal == old(self).tree.nodes()[0].is_terminal,
                0 <= old(self).root_edge_visits() <= old(self).root_visits() <= u32::MAX - 2,
                self.tree.nodes().len() >= old(self).tree.nodes().len(),
                self.tallied(),
                self.simulated(searching_player),
                self.stats.simulations == old(self).stats.simulations,
                path@.len() == 0 ==> self.tree.nodes() == old(self).tree.nodes(),
                forall|n: int|
                    0 <= n < old(self).tree.nodes().len() ==> kept(
                        old(self).tree.nodes()[n],
                        #[trigger] self.tree.nodes()[n],
                    ) && (old(self).tree.nodes()[n].to_move == searching_player
                        ==> self.tree.nodes()[n].edges@.len() == old(self).tree.nodes()[n].edges@.len()),
            decreases u16::MAX - self.tree.nodes()[current.0 as int].depth,
        {
            proof {
                self.tree.lemma_wf();
            }
            let ghost at_pass = self.tree.nodes();
            let node = self.tree.get(current);
            let depth = node.depth;
            let to_move = node.to_move;
            if node.is_terminal {
                let worth = match &node.terminal_reward {
                    Some(rewards) => M::copy_rewards(rewards),
                    None => M::even(self.tree.player_count()),
                };
                let ghost at_end = self.tree.nodes();
                let ghost expanded = self.stats.nodes_expanded;
                let ghost deepest_so_far = self.stats.max_depth;
                self.backpropagate(&path, worth);
                proof {
                    self.lemma_kept_on(old(self).tree.nodes(), at_end, searching_player);
                    self.lemma_tally_kept(at_end, expanded, deepest_so_far);
                    self.lemma_hanging_kept(at_end, searching_player);
                }
                return ;
            }
            if (self.limits.max_depth > 0 && depth as u32 >= self.limits.max_depth) || depth
                == u16::MAX || self.tree.len() >= u32::MAX as usize {
                let worth = M::estimate(state, self.tree.player_count());
                let ghost at_end = self.tree.nodes();
                let ghost expanded = self.stats.nodes_expanded;
                let ghost deepest_so_far = self.stats.max_depth;
                self.backpropagate(&path, worth);
                proof {
                    self.lemma_kept_on(old(self).tree.nodes(), at_end, searching_player);
                    self.lemma_tally_kept(at_end, expanded, deepest_so_far);
                    self.lemma_hanging_kept(at_end, searching_player);
                }
                return ;
            }
            if to_move != searching_player {
                match self.sample_opponent_action(state, to_move) {
                    Some(action) => {
                        let mut engine = self.engine.clone();
                        engine.apply_action(state, to_move, &action);
                        let edge_idx = self.find_or_create_edge(current, &action);
                        path.push((current, edge_idx));
                        let ghost grown_nodes = self.tree.nodes();
                        proof {
                            lemma_grown_kept(at_pass[current.0 as int], grown_nodes[current.0 as int]);
                            self.lemma_kept_on(old(self).tree.nodes(), at_pass, searching_player);
                            self.lemma_tally_kept(
                                at_pass,
                                self.stats.nodes_expanded,
                                self.stats.max_depth,
                            );
                            self.lemma_hanging_kept(at_pass, searching_player);
                        }
                        let child = self.ensure_child(current, edge_idx, state);
                        proof {
                            self.lemma_kept_on(old(self).tree.nodes(), grown_nodes, searching_player);
                            self.tree.lemma_wf();
                            lemma_edge_visits_same(
                                grown_nodes[0].edges@,
                                self.tree.nodes()[0].edges@,
                                grown_nodes[0].edges@.len() as int,
                            );
                        }
                        current = child;
                        continue ;
                    },
                    None => {
                        let worth = M::even(self.tree.player_count());
                        let ghost at_end = self.tree.nodes();
                        let ghost expanded = self.stats.nodes_expanded;
                        let ghost deepest_so_far = self.stats.max_depth;
                        self.backpropagate(&path, worth);
                        proof {
                            self.lemma_kept_on(old(self).tree.nodes(), at_end, searching_player);
                            self.lemma_tally_kept(at_end, expanded, deepest_so_far);
                    self.lemma_hanging_kept(at_end, searching_player);
                        }
                        return ;
                    },
                }
            }
            if self.tree.get(current).edges.len() == 0 {
                let worth = M::even(self.tree.player_count());
                let ghost at_end = self.tree.nodes();
                let ghost expanded = self.stats.nodes_expanded;
                let ghost deepest_so_far = self.stats.max_depth;
                self.backpropagate(&path, worth);
                proof {
                    self.lemma_kept_on(old(self).tree.nodes(), at_end, searching_player);
                    self.lemma_tally_kept(at_end, expanded, deepest_so_far);
                    self.lemma_hanging_kept(at_end, searching_player);
                }
                return ;
            }
            let has_unexpanded = self.tree.get(current).has_unexpanded();
            let edge_idx = if has_unexpanded {
                self.select_unexpanded(current)
            } else {
                let picked = self.selection.select(self.tree.get(current), searching_player);
                if picked < self.tree.get(current).edges.len() {
                    picked
                } else {
                    0
                }
            };
            path.push((current, edge_idx));
            let action = self.tree.get(current).edges[edge_idx].action.clone();
            let mut engine = self.engine.clone();
            engine.apply_action(state, to_move, &action);
            let child = self.tree.get(current).edges[edge_idx].child;
            if child.is_none() {
                let ghost known_nodes = self.tree.nodes();
                let _ = self.ensure_child(current, edge_idx, state);
                proof {
                    self.lemma_kept_on(old(self).tree.nodes(), known_nodes, searching_player);
                    self.tree.lemma_wf();
                    lemma_edge_visits_same(
                        known_nodes[0].edges@,
                        self.tree.nodes()[0].edges@,
                        known_nodes[0].edges@.len() as int,
                    );
                }
                proof {
                    let grown_to = self.tree.nodes();
                    assert(!known_nodes[current.0 as int].edges@[edge_idx as int].spec_is_expanded());
                    assert(known_nodes[current.0 as int].to_move == searching_player);
                    assert(hanging_on(grown_to, searching_player, grown_to.len() as int)
                        == hanging_on(known_nodes, searching_player, known_nodes.len() as int) + 1);
                    lemma_hanging_same(
                        grown_to,
                        grown_to,
                        searching_player,
                        grown_to.len() as int,
                    );
                }
                let worth = self.simulate(state);
                self.stats.simulations = count_one(self.stats.simulations);
                let ghost at_end = self.tree.nodes();
                let ghost expanded = self.stats.nodes_expanded;
                let ghost deepest_so_far = self.stats.max_depth;
                self.backpropagate(&path, worth);
                proof {
                    self.lemma_kept_on(old(self).tree.nodes(), at_end, searching_player);
                    self.lemma_tally_kept(at_end, expanded, deepest_so_far);
                    self.lemma_hanging_kept(at_end, searching_player);
                }
                return ;
            }
            current = child;
        }
    }

    /// Gives a node that has no edges its edges: one for each legal action
    /// of the player who moves there, none of them expanded. A node at
    /// which the game is over is marked so instead, with what the game is
    /// worth.
    fn expand_node(&mut self, node_id: NodeId, state: &GameState)
        requires
            old(self).wf(),
            (node_id.0 as int) < old(self).tree.nodes().len(),
            old(self).tree.nodes()[node_id.0 as int].edges@.len() == 0,
            !old(self).tree.nodes()[node_id.0 as int].is_terminal,
            old(self).stats.nodes_expanded < u32::MAX,
        ensures
            final(self).stats.nodes_expanded + terminals(
                final(self).tree.nodes(),
                final(self).tree.nodes().len() as int,
            ) == old(self).stats.nodes_expanded + terminals(
                old(self).tree.nodes(),
                old(self).tree.nodes().len() as int,
            ) + 1,
            deepest(final(self).tree.nodes(), final(self).tree.nodes().len() as int) == deepest(
                old(self).tree.nodes(),
                old(self).tree.nodes().len() as int,
            ),
            final(self).stats.max_depth == old(self).stats.max_depth,
            final(self).stats.simulations == old(self).stats.simulations,
            forall|n: int|
                0 <= n < old(self).tree.nodes().len() ==> (#[trigger] final(self).tree.nodes()[n]).parent
                    == old(self).tree.nodes()[n].parent && final(self).tree.nodes()[n].to_move == old(self).tree.nodes()[n].to_move,
            final(self).limits == old(self).limits,
            final(self).wf(),
            final(self).stats.iterations == old(self).stats.iterations,
            final(self).tree.nodes().len() == old(self).tree.nodes().len(),
            forall|n: int|
                0 <= n < old(self).tree.nodes().len() && n != node_id.0 ==> #[trigger] final(self).tree.nodes()[n] == old(self).tree.nodes()[n],
            grown(
                old(self).tree.nodes()[node_id.0 as int],
                final(self).tree.nodes()[node_id.0 as int],
            ),
            final(self).tree.nodes()[node_id.0 as int].visits == old(self).tree.nodes()[node_id.0 as int].visits,
            forall|e: int|
                0 <= e < final(self).tree.nodes()[node_id.0 as int].edges@.len() ==> (
                #[trigger] final(self).tree.nodes()[node_id.0 as int].edges@[e]).visits == 0,
            final(self).engine == old(self).engine,
            final(self).rng == old(self).rng,
            final(self).tree.nodes()[node_id.0 as int].to_move == old(self).tree.nodes()[node_id.0 as int].to_move,
            exists|verdict: Option<GameResult>| #[trigger]
                call_ensures(E::is_terminal, (&old(self).engine, state), verdict) && old(self).expanded_to(node_id.0 as int, state, verdict, *final(self)),
    {
        let player = self.tree.get(node_id).to_move;
        let player_count = self.tree.player_count();
        proof {
            self.tree.lemma_wf();
        }
        let ghost before = self.tree.nodes();
        let verdict = self.engine.is_terminal(state);
        match verdict {
            Some(result) => {
                let worth = M::rewards_of(&result, player_count);
                let node = self.tree.get_mut(node_id);
                node.is_terminal = true;
                node.terminal_reward = Some(worth);
                proof {
                    lemma_linked_grown(before, node_id.0 as int, self.tree.nodes()[node_id.0 as int]);
                    self.lemma_restore_wf(before);
                    assert(old(self).expanded_to(node_id.0 as int, state, verdict, *self));
                    lemma_terminal_marked(
                        before,
                        self.tree.nodes(),
                        node_id.0 as int,
                        before.len() as int,
                    );
                }
                return ;
            },
            None => {},
        }
        let mut actions = self.engine.legal_actions(state, player);
        let ghost all = action_views(actions@);
        let node = self.tree.get_mut(node_id);
        proof {
            assert(edge_actions(node.edges@) + action_views(actions@) =~= all);
        }
        while actions.len() > 0
            invariant
                self.limits == old(self).limits,
                node.parent == before[node_id.0 as int].parent,
                node.parent_edge_idx == before[node_id.0 as int].parent_edge_idx,
                node.depth == before[node_id.0 as int].depth,
                node.visits == before[node_id.0 as int].visits,
                node.to_move == before[node_id.0 as int].to_move,
                node.is_terminal == before[node_id.0 as int].is_terminal,
                node.terminal_reward == before[node_id.0 as int].terminal_reward,
                forall|e: int|
                    0 <= e < node.edges@.len() ==> !(#[trigger] node.edges@[e]).spec_is_expanded()
                        && node.edges@[e].visits == 0,
                edge_actions(node.edges@) + action_views(actions@) == all,
            decreases actions@.len(),
        {
            let ghost edges_before = node.edges@;
            let ghost actions_before = actions@;
            let action = actions.remove(0);
            node.edges.push(Edge::new(action, player_count));
            proof {
                assert(edge_actions(node.edges@) + action_views(actions@) =~= edge_actions(
                    edges_before,
                ) + action_views(actions_before));
            }
        }
        self.stats.nodes_expanded = count_one(self.stats.nodes_expanded);
        proof {
            assert(edge_actions(self.tree.nodes()[node_id.0 as int].edges@) =~= all);
        }
        proof {
            lemma_linked_grown(before, node_id.0 as int, self.tree.nodes()[node_id.0 as int]);
            self.lemma_restore_wf(before);
            assert(old(self).expanded_to(node_id.0 as int, state, verdict, *self));
            lemma_counts_same(before, self.tree.nodes(), before.len() as int);
        }
    }

    /// What giving a node its edges leads to, by what the game says of
    /// the state there. Where the game is over, the node is marked so and
    /// holds what the result is worth, and has no edges. Where it is not,
    /// the node's edges are the legal actions of the player who moves
    /// there, in the order the game gives them, and one more node counts
    /// as expanded.
    pub closed spec fn expanded_to(
        &self,
        at: int,
        state: &GameState,
        verdict: Option<GameResult>,
        after: Self,
    ) -> bool {
        let node = after.tree.nodes()[at];
        match verdict {
            Some(result) => {
                &&& node.is_terminal
                &&& node.edges@.len() == 0
                &&& node.terminal_reward matches Some(worth) && call_ensures(
                    M::rewards_of,
                    (&result, self.tree.players()),
                    worth,
                )
                &&& after.stats == self.stats
            },
            None => {
                &&& node.is_terminal == self.tree.nodes()[at].is_terminal
                &&& node.terminal_reward == self.tree.nodes()[at].terminal_reward
                &&& enumerates(
                    &self.engine,
                    state,
                    self.tree.nodes()[at].to_move,
                    edge_actions(node.edges@),
                )
                &&& after.stats == (SearchStats {
                    nodes_expanded: counted(self.stats.nodes_expanded),
                    ..self.stats
                })
            },
        }
    }

    /// A tree whose nodes hang together and whose root is the first node
    /// is well formed.
    proof fn lemma_restore_wf(&self, before: Seq<MCTSNode<M>>)
        requires
            linked(self.tree.nodes()),
            self.tree.root_is_first(),
        ensures
            self.wf(),
    {
        self.tree.lemma_wf_from(before);
    }

    /// The index of an edge that is not expanded, drawn from all of them;
    /// 0 where all are expanded. The generator is drawn from only where
    /// there is a choice: it stays on its stream, and stays as it is
    /// where at most one edge is not expanded.
    fn select_unexpanded(&mut self, node_id: NodeId) -> (index: usize)
        requires
            (node_id.0 as int) < old(self).tree.nodes().len(),
            old(self).tree.nodes()[node_id.0 as int].edges@.len() > 0,
        ensures
            final(self).limits == old(self).limits,
            final(self).tree == old(self).tree,
            final(self).stats == old(self).stats,
            final(self).engine == old(self).engine,
            index < old(self).tree.nodes()[node_id.0 as int].edges@.len(),
            old(self).tree.nodes()[node_id.0 as int].spec_has_unexpanded() ==> !old(self).tree.nodes()[node_id.0 as int].edges@[index as int].spec_is_expanded(),
            !old(self).tree.nodes()[node_id.0 as int].spec_has_unexpanded() ==> index == 0,
            final(self).rng@.seed == old(self).rng@.seed,
            final(self).rng@.fork_counter == old(self).rng@.fork_counter,
            (forall|first: int, second: int|
                0 <= first < second < old(self).tree.nodes()[node_id.0 as int].edges@.len() ==> (
                #[trigger] old(self).tree.nodes()[node_id.0 as int].edges@[first]).spec_is_expanded()
                    || (#[trigger] old(self).tree.nodes()[node_id.0 as int].edges@[second]).spec_is_expanded()) ==> final(self).rng@ == old(self).rng@,
    {
        let node = self.tree.get(node_id);
        let unexpanded = node.unexpanded_edges();
        if unexpanded.len() == 0 {
            proof {
                if node.spec_has_unexpanded() {
                    let e = choose|e: int|
                        0 <= e < node.edges@.len() && !(#[trigger] node.edges@[e]).spec_is_expanded();
                    assert(unexpanded@.contains(e as usize));
                }
            }
            0
        } else if unexpanded.len() == 1 {
            proof {
                assert(!node.edges@[unexpanded@[0] as int].spec_is_expanded());
            }
            unexpanded[0]
        } else {
            proof {
                let first = unexpanded@[0] as int;
                let second = unexpanded@[1] as int;
                assert(first < second);
                assert(!node.edges@[first].spec_is_expanded());
                assert(!node.edges@[second].spec_is_expanded());
            }
            let drawn = self.rng.gen_range_usize(0..unexpanded.len());
            proof {
                assert(!node.edges@[unexpanded@[drawn as int] as int].spec_is_expanded());
            }
            unexpanded[drawn]
        }
    }

    /// Makes a new node for an edge that is not expanded, gives it its
    /// edges, and gives its identifier.
    fn expand_child(&mut self, parent_id: NodeId, edge_idx: usize, state: &GameState) -> (child:
        NodeId)
        requires
            old(self).tallied(),
            old(self).wf(),
            (parent_id.0 as int) < old(self).tree.nodes().len(),
            (edge_idx as int) < old(self).tree.nodes()[parent_id.0 as int].edges@.len(),
            !old(self).tree.nodes()[parent_id.0 as int].edges@[edge_idx as int].spec_is_expanded(),
            old(self).tree.nodes()[parent_id.0 as int].depth < u16::MAX,
            old(self).tree.nodes().len() < u32::MAX,
        ensures
            forall|player: PlayerId| #[trigger]
                hanging_on(
                    final(self).tree.nodes(),
                    player,
                    final(self).tree.nodes().len() as int,
                ) == hanging_on(old(self).tree.nodes(), player, old(self).tree.nodes().len() as int) + (
                if (true) && old(self).tree.nodes()[parent_id.0 as int].to_move == player {
                    1int
                } else {
                    0int
                }),
            final(self).tree.nodes().len() == old(self).tree.nodes().len() + (if true {
                1int
            } else {
                0int
            }),
            final(self).tallied(),
            final(self).stats.simulations == old(self).stats.simulations,
            final(self).limits == old(self).limits,
            final(self).wf(),
            final(self).stats.iterations == old(self).stats.iterations,
            child.0 == old(self).tree.nodes().len(),
            final(self).tree.nodes().len() == old(self).tree.nodes().len() + 1,
            final(self).tree.nodes()[child.0 as int].depth == old(self).tree.nodes()[parent_id.0 as int].depth + 1,
            forall|n: int|
                0 <= n < old(self).tree.nodes().len() && n != parent_id.0 ==> #[trigger] final(self).tree.nodes()[n] == old(self).tree.nodes()[n],
            final(self).tree.nodes()[parent_id.0 as int].edges@.len() == old(self).tree.nodes()[parent_id.0 as int].edges@.len(),
            final(self).tree.nodes()[parent_id.0 as int].visits == old(self).tree.nodes()[parent_id.0 as int].visits,
            final(self).tree.nodes()[parent_id.0 as int].is_terminal == old(self).tree.nodes()[parent_id.0 as int].is_terminal,
            kept(
                old(self).tree.nodes()[parent_id.0 as int],
                final(self).tree.nodes()[parent_id.0 as int],
            ),
            forall|e: int|
                0 <= e < old(self).tree.nodes()[parent_id.0 as int].edges@.len() ==> (
                #[trigger] final(self).tree.nodes()[parent_id.0 as int].edges@[e]).visits == old(self).tree.nodes()[parent_id.0 as int].edges@[e].visits,
    {
        proof {
            self.tree.lemma_wf();
        }
        let ghost before = self.tree.nodes();
        let depth = self.tree.get(parent_id).depth + 1;
        let to_move = state.public.active_player;
        if depth > self.stats.max_depth {
            self.stats.max_depth = depth;
        }
        let child = MCTSNode::new(parent_id, (edge_idx % 65536) as u16, to_move, depth);
        let child_id = self.tree.allocate(child);
        let ghost with_child = self.tree.nodes();
        let parent = self.tree.get_mut(parent_id);
        parent.edges[edge_idx].child = child_id;
        proof {
            assert(with_child.drop_last() =~= before);
            lemma_linked_attach(
                with_child,
                parent_id.0 as int,
                edge_idx as int,
                self.tree.nodes()[parent_id.0 as int],
            );
            self.lemma_restore_wf(before);
            let now = self.tree.nodes();
            let count = before.len() as int;
            assert forall|i: int| 0 <= i < count implies (#[trigger] now[i]).is_terminal
                == before[i].is_terminal && now[i].depth == before[i].depth by {
                assert(with_child[i] == before[i]);
            }
            lemma_counts_same(before, now, count);
            assert(now[count] == with_child[count]);
            assert(terminals(now, count + 1) == terminals(now, count));
            assert(deepest(now, count + 1) == (if depth > deepest(now, count) {
                depth
            } else {
                deepest(now, count)
            }));
        }
        let ghost attached = self.tree.nodes();
        self.expand_node(child_id, state);
        proof {
            let last = self.tree.nodes();
            let count = before.len() as int;
            assert forall|i: int| 0 <= i < count implies (#[trigger] last[i]).parent
                == before[i].parent && last[i].to_move == before[i].to_move by {
                assert(last[i].parent == attached[i].parent);
                assert(with_child[i] == before[i]);
            }
            assert(last[count].parent == attached[count].parent);
            assert(attached[count] == with_child[count]);
            assert forall|player: PlayerId| #[trigger]
                hanging_on(last, player, count + 1) == hanging_on(before, player, count) + (
                if before[parent_id.0 as int].to_move == player {
                    1int
                } else {
                    0int
                }) by {
                lemma_hanging_same(before, last, player, count);
            }
        }
        child_id
    }

    /// The child of an edge; a new one where the edge is not expanded.
    fn ensure_child(&mut self, parent_id: NodeId, edge_idx: usize, state: &GameState) -> (child:
        NodeId)
        requires
            old(self).tallied(),
            old(self).wf(),
            (parent_id.0 as int) < old(self).tree.nodes().len(),
            (edge_idx as int) < old(self).tree.nodes()[parent_id.0 as int].edges@.len(),
            old(self).tree.nodes()[parent_id.0 as int].depth < u16::MAX,
            old(self).tree.nodes().len() < u32::MAX,
        ensures
            forall|player: PlayerId| #[trigger]
                hanging_on(
                    final(self).tree.nodes(),
                    player,
                    final(self).tree.nodes().len() as int,
                ) == hanging_on(old(self).tree.nodes(), player, old(self).tree.nodes().len() as int) + (
                if (!old(self).tree.nodes()[parent_id.0 as int].edges@[edge_idx as int].spec_is_expanded()) && old(self).tree.nodes()[parent_id.0 as int].to_move == player {
                    1int
                } else {
                    0int
                }),
            final(self).tree.nodes().len() == old(self).tree.nodes().len() + (if !old(self).tree.nodes()[parent_id.0 as int].edges@[edge_idx as int].spec_is_expanded() {
                1int
            } else {
                0int
            }),
            final(self).tallied(),
            final(self).stats.simulations == old(self).stats.simulations,
            final(self).limits == old(self).limits,
            final(self).wf(),
            final(self).stats.iterations == old(self).stats.iterations,
            parent_id.0 < child.0 < final(self).tree.nodes().len(),
            final(self).tree.nodes().len() >= old(self).tree.nodes().len(),
            final(self).tree.nodes()[child.0 as int].depth == old(self).tree.nodes()[parent_id.0 as int].depth + 1,
            forall|n: int|
                0 <= n < old(self).tree.nodes().len() && n != parent_id.0 ==> #[trigger] final(self).tree.nodes()[n] == old(self).tree.nodes()[n],
            final(self).tree.nodes()[parent_id.0 as int].edges@.len() == old(self).tree.nodes()[parent_id.0 as int].edges@.len(),
            final(self).tree.nodes()[parent_id.0 as int].visits == old(self).tree.nodes()[parent_id.0 as int].visits,
            final(self).tree.nodes()[parent_id.0 as int].is_terminal == old(self).tree.nodes()[parent_id.0 as int].is_terminal,
            kept(
                old(self).tree.nodes()[parent_id.0 as int],
                final(self).tree.nodes()[parent_id.0 as int],
            ),
            forall|e: int|
                0 <= e < old(self).tree.nodes()[parent_id.0 as int].edges@.len() ==> (
                #[trigger] final(self).tree.nodes()[parent_id.0 as int].edges@[e]).visits == old(self).tree.nodes()[parent_id.0 as int].edges@[e].visits,
    {
        proof {
            self.tree.lemma_wf();
        }
        let child = self.tree.get(parent_id).edges[edge_idx].child;
        if !child.is_none() {
            return child;
        }
        self.expand_child(parent_id, edge_idx, state)
    }

    /// The index of the edge of a node for an action; a new edge, added
    /// last, where the node has none for it.
    fn find_or_create_edge(&mut self, node_id: NodeId, action: &Action) -> (index: usize)
        requires
            old(self).wf(),
            (node_id.0 as int) < old(self).tree.nodes().len(),
        ensures
            final(self).limits == old(self).limits,
            final(self).wf(),
            final(self).stats == old(self).stats,
            final(self).tree.nodes().len() == old(self).tree.nodes().len(),
            index < final(self).tree.nodes()[node_id.0 as int].edges@.len(),
            final(self).tree.nodes()[node_id.0 as int].edges@[index as int].action@ == action@,
            forall|n: int|
                0 <= n < old(self).tree.nodes().len() && n != node_id.0 ==> #[trigger] final(self).tree.nodes()[n] == old(self).tree.nodes()[n],
            grown(
                old(self).tree.nodes()[node_id.0 as int],
                final(self).tree.nodes()[node_id.0 as int],
            ),
            final(self).tree.nodes()[node_id.0 as int].visits == old(self).tree.nodes()[node_id.0 as int].visits,
            final(self).tree.nodes()[node_id.0 as int].is_terminal == old(self).tree.nodes()[node_id.0 as int].is_terminal,
            edge_visits(
                final(self).tree.nodes()[node_id.0 as int].edges@,
                final(self).tree.nodes()[node_id.0 as int].edges@.len() as int,
            ) == edge_visits(
                old(self).tree.nodes()[node_id.0 as int].edges@,
                old(self).tree.nodes()[node_id.0 as int].edges@.len() as int,
            ),
    {
        proof {
            self.tree.lemma_wf();
        }
        let ghost before = self.tree.nodes();
        let node = self.tree.get(node_id);
        let mut next: usize = 0;
        while next < node.edges.len()
            invariant
                self.limits == old(self).limits,
                next <= node.edges@.len(),
                *node == before[node_id.0 as int],
                self.tree.nodes() == before,
                self.stats == old(self).stats,
                self.wf(),
            decreases node.edges@.len() - next,
        {
            if node.edges[next].action == *action {
                return next;
            }
            next = next + 1;
        }
        let player_count = self.tree.player_count();
        let node = self.tree.get_mut(node_id);
        let ghost old_edges = node.edges@;
        let edge = Edge::new(action.clone(), player_count);
        proof {
            lemma_edge_visits_push(old_edges, edge, old_edges.len() as int);
            assert(old_edges.push(edge)[old_edges.len() as int] == edge);
        }
        node.edges.push(edge);
        let index = node.edges.len() - 1;
        proof {
            lemma_linked_grown(before, node_id.0 as int, self.tree.nodes()[node_id.0 as int]);
            self.lemma_restore_wf(before);
        }
        index
    }

    /// The action the opponent policy has the opponent take.
    fn sample_opponent_action(&mut self, state: &GameState, opponent: PlayerId) -> (action:
        Option<Action>)
        ensures
            final(self).limits == old(self).limits,
            final(self).tree == old(self).tree,
            final(self).stats == old(self).stats,
    {
        self.opponent.choose_action(&self.engine, state, opponent, &mut self.rng)
    }

    /// Plays the game out from a state, as the policy of simulation does
    /// it, under a copy of the rules and with a generator forked from the
    /// search's own: the search's generator has one fork more and is
    /// otherwise as it was. What the game was worth, and the state it
    /// reached, are the policy's.
    fn simulate(&mut self, state: &mut GameState) -> (worth: M::Rewards)
        ensures
            final(self).limits == old(self).limits,
            final(self).tree == old(self).tree,
            final(self).stats == old(self).stats,
            final(self).engine == old(self).engine,
            final(self).rng@ == (GameRngState {
                fork_counter: old(self).rng@.fork_counter.wrapping_add(1),
                ..old(self).rng@
            }),
    {
        let mut sim_rng = self.rng.fork();
        let mut engine = self.engine.clone();
        self.simulation.simulate(&mut engine, state, &mut sim_rng, self.limits.max_depth)
    }

    /// Records what a pass was worth: one visit and the worth on every
    /// edge of the path, one visit on every node of the path, from its end
    /// to its beginning, and one visit more on the root.
    fn backpropagate(&mut self, path: &Vec<(NodeId, usize)>, rewards: M::Rewards)
        requires
            old(self).wf(),
            descends(old(self).tree.nodes(), path@),
            0 <= old(self).root_edge_visits() <= old(self).root_visits() <= u32::MAX - 2,
        ensures
            final(self).limits == old(self).limits,
            final(self).wf(),
            final(self).stats == old(self).stats,
            final(self).root_visits() - final(self).root_edge_visits() == old(self).root_visits()
                - old(self).root_edge_visits() + 1,
            old(self).root_edge_visits() <= final(self).root_edge_visits() <= old(self).root_edge_visits() + 1,
            final(self).tree_view().nodes()[0].is_terminal == old(self).tree_view().nodes()[0].is_terminal,
            final(self).root_edge_visits() == old(self).root_edge_visits() + (if path@.len() > 0 {
                1int
            } else {
                0int
            }),
            final(self).tree.nodes().len() == old(self).tree.nodes().len(),
            forall|n: int|
                0 <= n < old(self).tree.nodes().len() ==> grown(
                    old(self).tree.nodes()[n],
                    #[trigger] final(self).tree.nodes()[n],
                ) && final(self).tree.nodes()[n].edges@.len() == old(self).tree.nodes()[n].edges@.len()
                    && final(self).tree.nodes()[n].is_terminal == old(self).tree.nodes()[n].is_terminal,
    {
        proof {
            self.tree.lemma_wf();
        }
        let ghost start = self.tree.nodes();
        let ghost root_edges = start[0].edges@;
        let mut at: usize = path.len();
        while at > 0
            invariant
                self.limits == old(self).limits,
                at <= path@.len(),
                self.wf(),
                self.stats == old(self).stats,
                self.tree.nodes().len() == start.len(),
                start.len() > 0,
                descends(start, path@),
                forall|n: int|
                    0 <= n < start.len() ==> grown(start[n], #[trigger] self.tree.nodes()[n])
                        && self.tree.nodes()[n].edges@.len() == start[n].edges@.len()
                        && self.tree.nodes()[n].is_terminal == start[n].is_terminal,
                at > 0 || path@.len() == 0 ==> self.tree.nodes()[0] == start[0],
                at == 0 && path@.len() > 0 ==> self.tree.nodes()[0].visits == start[0].visits + 1
                    && edge_visits(
                    self.tree.nodes()[0].edges@,
                    root_edges.len() as int,
                ) == edge_visits(root_edges, root_edges.len() as int) + 1,
                root_edges == start[0].edges@,
                0 <= edge_visits(root_edges, root_edges.len() as int) <= start[0].visits
                    <= u32::MAX - 2,
                start == old(self).tree.nodes(),
            decreases at,
        {
            at = at - 1;
            let (node_id, edge_idx) = path[at];
            proof {
                self.tree.lemma_wf();
                if at == 0 {
                    lemma_edge_visits_bound(root_edges, root_edges.len() as int, edge_idx as int);
                }
            }
            let ghost before = self.tree.nodes();
            let node = self.tree.get_mut(node_id);
            node.visits = count_one(node.visits);
            let edge = &mut node.edges[edge_idx];
            edge.visits = count_one(edge.visits);
            M::record(&mut edge.stats, &rewards);
            proof {
                let after = self.tree.nodes()[node_id.0 as int];
                assert(grown(before[node_id.0 as int], after));
                lemma_linked_grown(before, node_id.0 as int, after);
                self.lemma_restore_wf(before);
                assert forall|n: int| 0 <= n < start.len() implies grown(
                    start[n],
                    #[trigger] self.tree.nodes()[n],
                ) && self.tree.nodes()[n].edges@.len() == start[n].edges@.len()
                    && self.tree.nodes()[n].is_terminal == start[n].is_terminal by {
                    if n == node_id.0 {
                        assert(grown(start[n], before[n]));
                    } else {
                        assert(self.tree.nodes()[n] == before[n]);
                    }
                }
                if at == 0 {
                    assert(node_id.0 == 0);
                    lemma_edge_visits_step(
                        root_edges,
                        after.edges@,
                        root_edges.len() as int,
                        edge_idx as int,
                    );
                } else {
                    assert(node_id.0 > 0);
                }
            }
        }
        proof {
            self.tree.lemma_wf();
        }
        let ghost before = self.tree.nodes();
        let root = self.tree.get_mut(NodeId(0));
        root.visits = count_one(root.visits);
        proof {
            lemma_linked_grown(before, 0, self.tree.nodes()[0]);
            self.lemma_restore_wf(before);
            assert forall|n: int| 0 <= n < start.len() implies grown(
                start[n],
                #[trigger] self.tree.nodes()[n],
            ) && self.tree.nodes()[n].edges@.len() == start[n].edges@.len()
                && self.tree.nodes()[n].is_terminal == start[n].is_terminal by {
                assert(grown(start[n], before[n]));
                if n != 0 {
                    assert(self.tree.nodes()[n] == before[n]);
                }
            }
        }
    }

    /// The root action with the most visits; of those with the most, the
    /// last. None where the root has no edge.
    fn best_action(&self, _player: PlayerId) -> (best: Option<Action>)
        requires
            self.wf(),
        ensures
            self.tree.nodes()[0].edges@.len() == 0 ==> best is None,
            self.tree.nodes()[0].edges@.len() > 0 ==> (best matches Some(action) && action@
                == self.tree.nodes()[0].edges@[most_visited(
                self.tree.nodes()[0].edges@,
                self.tree.nodes()[0].edges@.len() as int,
            )].action@),
    {
        let root = self.tree.root_node();
        match root.best_edge_by_visits() {
            Some(edge) => Some(edge.action.clone()),
            None => None,
        }
    }

    /// The counters of the last search.
    pub fn stats(&self) -> (stats: &SearchStats)
        ensures
            *stats == self.stats_view(),
    {
        &self.stats
    }

    /// The tree of the last search.
    pub fn tree(&self) -> (tree: &MCTSTree<M>)
        ensures
            *tree == self.tree_view(),
    {
        &self.tree
    }

    /// The root actions with the number of their visits, in the order of
    /// the root's edges.
    pub fn action_visits(&self) -> (visits: Vec<(Action, u32)>)
        requires
            self.wf(),
        ensures
            visits@.len() == self.tree_view().nodes()[0].edges@.len(),
            forall|i: int|
                0 <= i < visits@.len() ==> (#[trigger] visits@[i]).0@
                    == self.tree_view().nodes()[0].edges@[i].action@ && visits@[i].1
                    == self.tree_view().nodes()[0].edges@[i].visits,
    {
        let root = self.tree.root_node();
        let mut visits: Vec<(Action, u32)> = Vec::new();
        let mut next: usize = 0;
        while next < root.edges.len()
            invariant
                next <= root.edges@.len(),
                visits@.len() == next,
                forall|i: int|
                    0 <= i < next ==> (#[trigger] visits@[i]).0@ == root.edges@[i].action@
                        && visits@[i].1 == root.edges@[i].visits,
            decreases root.edges@.len() - next,
        {
            visits.push((root.edges[next].action.clone(), root.edges[next].visits));
            next = next + 1;
        }
        visits
    }

    /// The statistics of a root edge, to change in place; nothing where
    /// the root has no such edge. Neither the shape of the tree nor any
    /// count of visits changes.
    pub fn root_edge_stats(&mut self, index: usize) -> (stats: Option<&mut M::EdgeStats>)
        requires
            old(self).wf(),
        ensures
            stats is Some <==> (index as int) < old(self).tree_view().nodes()[0].edges@.len(),
            stats is None ==> final(self).tree_view() == old(self).tree_view(),
            stats matches Some(slot) ==> *slot == old(self).tree_view().nodes()[0].edges@[index as int].stats
                && final(self).tree_view().nodes()[0].edges@[index as int].stats == *final(slot),
            final(self).tree_view().nodes().len() == old(self).tree_view().nodes().len(),
            forall|n: int|
                0 < n < old(self).tree_view().nodes().len() ==> #[trigger] final(self).tree_view().nodes()[n] == old(self).tree_view().nodes()[n],
            final(self).tree_view().nodes()[0].edges@.len() == old(self).tree_view().nodes()[0].edges@.len(),
            forall|e: int|
                0 <= e < old(self).tree_view().nodes()[0].edges@.len() ==> {
                    let after = #[trigger] final(self).tree_view().nodes()[0].edges@[e];
                    let before = old(self).tree_view().nodes()[0].edges@[e];
                    after.action == before.action && after.child == before.child && after.visits
                        == before.visits && (e != index ==> after == before)
                },
            final(self).tree_view().nodes()[0].visits == old(self).tree_view().nodes()[0].visits,
            final(self).tree_view().nodes()[0].is_terminal == old(self).tree_view().nodes()[0].is_terminal,
            final(self).stats_view() == old(self).stats_view(),
            final(self).bounds() == old(self).bounds(),
    {
        proof {
            self.tree.lemma_wf();
        }
        if index < self.tree.get(NodeId(0)).edges.len() {
            let root = self.tree.get_mut(NodeId(0));
            Some(&mut root.edges[index].stats)
        } else {
            None
        }
    }

    /// The rules of the game.
    pub fn engine(&self) -> (engine: &E)
        ensures
            *engine == self.rules(),
    {
        &self.engine
    }

    /// The limits of the search.
    pub fn limits(&self) -> (limits: &SearchLimits)
        ensures
            *limits == self.bounds(),
    {
        &self.limits
    }

    /// The random number generator of the search.
    pub fn rng(&self) -> (rng: &GameRng)
        ensures
            rng@ == self.generator(),
    {
        &self.rng
    }
}

} // verus!
