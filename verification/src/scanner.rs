//! Results of a scan: the effects found in a crate, its function declarations,
//! and its call graph.
use vstd::prelude::*;

use vstd::multiset::Multiset;
use petgraph::graph::DiGraph;
use petgraph::visit::EdgeRef;

use crate::audit_file::{info_views, insert_info, EffectInfo, EffectInfoView};
use crate::effect::{
    contains_instance, effect_type_of, instance_views, EffectType, EffectInstance, EffectInstanceView, FnDec, SrcLoc, SrcLocView,
    Visibility,
};
use crate::ident::{
    contains_path, crate_name_spec, insert_path, is_main_spec, path_views, replace_hyphens, CanonicalPath,
};
use crate::text::{copy_string, replace_hyphens_spec, str_eq};
use crate::loc_tracker::{LoCTracker, LoCTrackerView};

verus! {

#[verifier::external_type_specification]
#[verifier::external_body]
#[verifier::reject_recursive_types(N)]
#[verifier::reject_recursive_types(E)]
#[verifier::reject_recursive_types(Ty)]
#[verifier::reject_recursive_types(Ix)]
pub struct ExGraph<N, E, Ty, Ix>(petgraph::graph::Graph<N, E, Ty, Ix>);

#[verifier::external_type_specification]
#[verifier::external_body]
pub struct ExDirected(petgraph::Directed);

/// The node weights of a call graph, by node index.
pub uninterp spec fn graph_nodes(g: DiGraph<CanonicalPath, SrcLoc>) -> Seq<Seq<char>>;

/// The edges of a call graph, by edge index: source index, target index, weight.
pub uninterp spec fn graph_edges(g: DiGraph<CanonicalPath, SrcLoc>) -> Seq<(nat, nat, SrcLocView)>;

/// The (caller, location) pairs of the edges into node `n`, counted with multiplicity.
pub open spec fn incoming_pairs(
    nodes: Seq<Seq<char>>,
    edges: Seq<(nat, nat, SrcLocView)>,
    n: nat,
) -> Multiset<(Seq<char>, SrcLocView)>
    decreases edges.len(),
{
    if edges.len() == 0 {
        Multiset::empty()
    } else {
        let rest = incoming_pairs(nodes, edges.drop_last(), n);
        let e = edges.last();
        if e.1 == n {
            rest.insert((nodes[e.0 as int], e.2))
        } else {
            rest
        }
    }
}

/// Calls `Graph::new`: a graph with no nodes and no edges.
#[verifier::external_body]
fn graph_new() -> (g: DiGraph<CanonicalPath, SrcLoc>)
    ensures
        graph_nodes(g) == Seq::<Seq<char>>::empty(),
        graph_edges(g) == Seq::<(nat, nat, SrcLocView)>::empty(),
{
    DiGraph::new()
}

/// Calls `Graph::add_node`: the weight is appended to the nodes and its index
/// returned. With `u32` indices it panics when the index would reach `u32::MAX`.
#[verifier::external_body]
fn graph_add_node(g: &mut DiGraph<CanonicalPath, SrcLoc>, n: CanonicalPath) -> (i: usize)
    requires
        graph_nodes(*old(g)).len() < u32::MAX,
    ensures
        graph_nodes(*final(g)) == graph_nodes(*old(g)).push(n@),
        graph_edges(*final(g)) == graph_edges(*old(g)),
        i == graph_nodes(*old(g)).len(),
{
    g.add_node(n).index()
}

/// Calls `Graph::add_edge`: the edge from `a` to `b` is appended to the edges.
/// It panics when a node index is out of bounds or the edge index would reach `u32::MAX`.
#[verifier::external_body]
fn graph_add_edge(g: &mut DiGraph<CanonicalPath, SrcLoc>, a: usize, b: usize, w: SrcLoc)
    requires
        a < graph_nodes(*old(g)).len(),
        b < graph_nodes(*old(g)).len(),
        graph_nodes(*old(g)).len() <= u32::MAX,
        graph_edges(*old(g)).len() < u32::MAX,
    ensures
        graph_nodes(*final(g)) == graph_nodes(*old(g)),
        graph_edges(*final(g)) == graph_edges(*old(g)).push((a as nat, b as nat, w@)),
{
    g.add_edge(
        petgraph::graph::NodeIndex::new(a),
        petgraph::graph::NodeIndex::new(b),
        w,
    );
}

/// Calls `Graph::edges_directed(n, Incoming)` and copies, for each edge into `n`,
/// the weight of its source node and its own weight. The order in which the edges
/// come is not stated; which edges come, and how often, is.
#[verifier::external_body]
fn graph_incoming(g: &DiGraph<CanonicalPath, SrcLoc>, n: usize) -> (r: Vec<(CanonicalPath, SrcLoc)>)
    requires
        n < graph_nodes(*g).len(),
        graph_nodes(*g).len() <= u32::MAX,
    ensures
        r@.map_values(|p: (CanonicalPath, SrcLoc)| (p.0@, p.1@)).to_multiset() == incoming_pairs(
            graph_nodes(*g),
            graph_edges(*g),
            n as nat,
        ),
{
    g.edges_directed(petgraph::graph::NodeIndex::new(n), petgraph::Direction::Incoming)
        .map(|e| (g[e.source()].clone(), e.weight().clone()))
        .collect()
}

/// Some edge goes from node `a` to node `b`.
pub open spec fn has_edge(edges: Seq<(nat, nat, SrcLocView)>, a: nat, b: nat) -> bool {
    exists|j: int| 0 <= j < edges.len() && (#[trigger] edges[j]).0 == a && edges[j].1 == b
}

/// `path` is a walk along the edges: a node, then each next node joined to the
/// one before by an edge.
pub open spec fn is_walk(edges: Seq<(nat, nat, SrcLocView)>, path: Seq<nat>) -> bool {
    &&& path.len() >= 1
    &&& forall|i: int| 0 <= i < path.len() - 1 ==> has_edge(edges, #[trigger] path[i], path[i + 1])
}

/// Node `b` is reached from node `a` along the edges (every node reaches itself).
pub open spec fn reaches(edges: Seq<(nat, nat, SrcLocView)>, a: nat, b: nat) -> bool {
    exists|path: Seq<nat>| #[trigger] is_walk(edges, path) && path[0] == a && path.last() == b
}

/// Runs petgraph's `Bfs` from node `start` and collects the indices of the
/// nodes it visits: the nodes that the edges lead to from `start`, `start`
/// included (it follows each edge from its source to its target).
#[verifier::external_body]
fn graph_reachable(g: &DiGraph<CanonicalPath, SrcLoc>, start: usize) -> (r: Vec<usize>)
    requires
        start < graph_nodes(*g).len(),
        graph_nodes(*g).len() <= u32::MAX,
    ensures
        forall|n: nat| #[trigger] reaches(graph_edges(*g), start as nat, n) <==> exists|k: int|
            0 <= k < r@.len() && r@[k] as nat == n,
{
    let mut bfs = petgraph::visit::Bfs::new(g, petgraph::graph::NodeIndex::new(start));
    let mut r = Vec::new();
    while let Some(n) = bfs.next(g) {
        r.push(n.index());
    }
    r
}

/// The callers of `p` in a call graph: the source and location of each edge into a node named `p`.
pub open spec fn callers_of(
    nodes: Seq<Seq<char>>,
    edges: Seq<(nat, nat, SrcLocView)>,
    p: Seq<char>,
) -> Set<EffectInfoView> {
    Set::new(
        |x: EffectInfoView|
            exists|j: int|
                0 <= j < edges.len() && nodes[(#[trigger] edges[j]).1 as int] == p && x == (
                EffectInfoView { caller_path: nodes[edges[j].0 as int], callee_loc: edges[j].2 }),
    )
}

proof fn lemma_incoming_pairs(
    nodes: Seq<Seq<char>>,
    edges: Seq<(nat, nat, SrcLocView)>,
    n: nat,
    x: (Seq<char>, SrcLocView),
)
    ensures
        incoming_pairs(nodes, edges, n).count(x) > 0 <==> exists|j: int|
            0 <= j < edges.len() && (#[trigger] edges[j]).1 == n && x == (
                nodes[edges[j].0 as int],
                edges[j].2,
            ),
    decreases edges.len(),
{
    if edges.len() > 0 {
        let d = edges.drop_last();
        lemma_incoming_pairs(nodes, d, n, x);
        if exists|j: int|
            0 <= j < d.len() && (#[trigger] d[j]).1 == n && x == (nodes[d[j].0 as int], d[j].2) {
            let j = choose|j: int|
                0 <= j < d.len() && (#[trigger] d[j]).1 == n && x == (nodes[d[j].0 as int], d[j].2);
            assert(edges[j] == d[j]);
        }
        if exists|j: int|
            0 <= j < edges.len() && (#[trigger] edges[j]).1 == n && x == (
                nodes[edges[j].0 as int],
                edges[j].2,
            ) {
            let j = choose|j: int|
                0 <= j < edges.len() && (#[trigger] edges[j]).1 == n && x == (
                    nodes[edges[j].0 as int],
                    edges[j].2,
                );
            if j < d.len() {
                assert(d[j] == edges[j]);
            }
        }
    }
}


/// The map of a list of (path, location) pairs; later pairs override earlier ones.
pub open spec fn loc_map(v: Seq<(CanonicalPath, SrcLoc)>) -> Map<Seq<char>, SrcLocView>
    decreases v.len(),
{
    if v.len() == 0 {
        Map::empty()
    } else {
        loc_map(v.drop_last()).insert(v.last().0@, v.last().1@)
    }
}

proof fn lemma_loc_map_dom(v: Seq<(CanonicalPath, SrcLoc)>)
    ensures
        loc_map(v).dom() == loc_keys(v).to_set(),
    decreases v.len(),
{
    broadcast use vstd::seq_lib::group_seq_properties;
    if v.len() > 0 {
        lemma_loc_map_dom(v.drop_last());
        assert(loc_keys(v) =~= loc_keys(v.drop_last()).push(v.last().0@));
        assert(loc_map(v).dom() =~= loc_keys(v).to_set());
    } else {
        assert(loc_map(v).dom() =~= loc_keys(v).to_set());
    }
}

proof fn lemma_loc_map_remove(v: Seq<(CanonicalPath, SrcLoc)>, j: int)
    requires
        0 <= j < v.len(),
        loc_keys(v).no_duplicates(),
    ensures
        loc_map(v.remove(j)) == loc_map(v).remove(v[j].0@),
        loc_keys(v.remove(j)).no_duplicates(),
        loc_keys(v.remove(j)) == loc_keys(v).remove(j),
    decreases v.len(),
{
    let d = v.drop_last();
    assert(loc_keys(v.remove(j)) =~= loc_keys(v).remove(j));
    assert(loc_keys(d) =~= loc_keys(v).drop_last());
    if j == v.len() - 1 {
        assert(v.remove(j) =~= d);
        lemma_loc_map_dom(d);
        assert(!loc_keys(d).contains(v[j].0@)) by {
            if loc_keys(d).contains(v[j].0@) {
                let k = choose|k: int| 0 <= k < loc_keys(d).len() && loc_keys(d)[k] == v[j].0@;
                assert(loc_keys(v)[k] == loc_keys(v)[j]);
            }
        }
        assert(loc_map(v.remove(j)) =~= loc_map(v).remove(v[j].0@));
    } else {
        lemma_loc_map_remove(d, j);
        assert(v.remove(j) =~= d.remove(j).push(v.last()));
        assert(d.remove(j).push(v.last()).drop_last() =~= d.remove(j));
        assert(loc_map(v.remove(j)) == loc_map(d.remove(j)).insert(v.last().0@, v.last().1@));
        assert(loc_map(v) == loc_map(d).insert(v.last().0@, v.last().1@));
        assert(loc_keys(v)[j] != loc_keys(v)[v.len() - 1]);
        assert(loc_map(v.remove(j)) =~= loc_map(v).remove(v[j].0@));
    }
}

/// Results of a scan
///
/// Holds the intermediate state between scans which doesn't hold references
/// to file data
pub struct ScanResults {
    pub effects: Vec<EffectInstance>,
    pub fn_ptr_effects: Vec<EffectInstance>,
    // Saved function declarations
    pub pub_fns: Vec<CanonicalPath>,
    pub fn_locs: Vec<(CanonicalPath, SrcLoc)>,
    pub trait_meths: Vec<CanonicalPath>,
    pub fns_with_effects: Vec<CanonicalPath>,
    pub call_graph: DiGraph<CanonicalPath, SrcLoc>,
    pub node_idxs: Vec<(CanonicalPath, usize)>,
    /* Tracking lines of code (LoC) and skipped/unsupported cases */
    pub total_loc: LoCTracker,
    pub skipped_macros: LoCTracker,
    pub skipped_conditional_code: LoCTracker,
    pub skipped_fn_calls: LoCTracker,
    pub skipped_fn_ptrs: LoCTracker,
    pub skipped_other: LoCTracker,
    pub unsafe_traits: LoCTracker,
    pub unsafe_impls: LoCTracker,
    pub fn_loc_tracker: Vec<(CanonicalPath, LoCTracker)>,
}

/// The keys of a list of (path, location) pairs.
pub open spec fn loc_keys(v: Seq<(CanonicalPath, SrcLoc)>) -> Seq<Seq<char>> {
    v.map_values(|p: (CanonicalPath, SrcLoc)| p.0@)
}

impl ScanResults {
    /// The call graph's nodes are distinct, `node_idxs` gives each node's index,
    /// every edge joins nodes of the graph, and the sets and maps have distinct keys.
    pub open spec fn wf(&self) -> bool {
        let nodes = graph_nodes(self.call_graph);
        let edges = graph_edges(self.call_graph);
        &&& nodes.no_duplicates()
        &&& nodes.len() <= u32::MAX
        &&& self.node_idxs@.len() == nodes.len()
        &&& forall|i: int|
            0 <= i < nodes.len() ==> (#[trigger] self.node_idxs@[i]).0@ == nodes[i]
                && self.node_idxs@[i].1 == i
        &&& forall|j: int|
            0 <= j < edges.len() ==> (#[trigger] edges[j]).0 < nodes.len() && edges[j].1
                < nodes.len()
        &&& path_views(self.pub_fns@).no_duplicates()
        &&& loc_keys(self.fn_locs@).no_duplicates()
    }

    /// Only the call graph and its index differ between `self` and `other`.
    pub open spec fn graph_only_changed(&self, other: ScanResults) -> bool {
        &&& self.effects == other.effects
        &&& self.fn_ptr_effects == other.fn_ptr_effects
        &&& self.pub_fns == other.pub_fns
        &&& self.fn_locs == other.fn_locs
        &&& self.trait_meths == other.trait_meths
        &&& self.fns_with_effects == other.fns_with_effects
        &&& self.total_loc == other.total_loc
        &&& self.skipped_macros == other.skipped_macros
        &&& self.skipped_conditional_code == other.skipped_conditional_code
        &&& self.skipped_fn_calls == other.skipped_fn_calls
        &&& self.skipped_fn_ptrs == other.skipped_fn_ptrs
        &&& self.skipped_other == other.skipped_other
        &&& self.unsafe_traits == other.unsafe_traits
        &&& self.unsafe_impls == other.unsafe_impls
        &&& self.fn_loc_tracker == other.fn_loc_tracker
    }

    /// Only the call graph, its index, the public functions and the function
    /// locations differ between `self` and `other`.
    pub open spec fn decl_only_changed(&self, other: ScanResults) -> bool {
        &&& self.effects == other.effects
        &&& self.fn_ptr_effects == other.fn_ptr_effects
        &&& self.trait_meths == other.trait_meths
        &&& self.fns_with_effects == other.fns_with_effects
        &&& self.total_loc == other.total_loc
        &&& self.skipped_macros == other.skipped_macros
        &&& self.skipped_conditional_code == other.skipped_conditional_code
        &&& self.skipped_fn_calls == other.skipped_fn_calls
        &&& self.skipped_fn_ptrs == other.skipped_fn_ptrs
        &&& self.skipped_other == other.skipped_other
        &&& self.unsafe_traits == other.unsafe_traits
        &&& self.unsafe_impls == other.unsafe_impls
        &&& self.fn_loc_tracker == other.fn_loc_tracker
    }

    /// The callers recorded in the call graph for `p`.
    pub open spec fn callers(&self, p: Seq<char>) -> Set<EffectInfoView> {
        callers_of(graph_nodes(self.call_graph), graph_edges(self.call_graph), p)
    }

    pub fn new() -> (r: Self)
        ensures
            r.wf(),
            r.effects@.len() == 0,
            r.pub_fns@.len() == 0,
            r.fn_locs@.len() == 0,
            graph_nodes(r.call_graph).len() == 0,
            graph_edges(r.call_graph).len() == 0,
    {
        let r = ScanResults {
            effects: Vec::new(),
            fn_ptr_effects: Vec::new(),
            pub_fns: Vec::new(),
            fn_locs: Vec::new(),
            trait_meths: Vec::new(),
            fns_with_effects: Vec::new(),
            call_graph: graph_new(),
            node_idxs: Vec::new(),
            total_loc: LoCTracker::new(),
            skipped_macros: LoCTracker::new(),
            skipped_conditional_code: LoCTracker::new(),
            skipped_fn_calls: LoCTracker::new(),
            skipped_fn_ptrs: LoCTracker::new(),
            skipped_other: LoCTracker::new(),
            unsafe_traits: LoCTracker::new(),
            unsafe_impls: LoCTracker::new(),
            fn_loc_tracker: Vec::new(),
        };
        assert(path_views(r.pub_fns@) =~= Seq::<Seq<char>>::empty());
        assert(loc_keys(r.fn_locs@) =~= Seq::<Seq<char>>::empty());
        r
    }

    /// The effects found, each once.
    pub fn effects_set(&self) -> (r: Vec<EffectInstance>)
        ensures
            instance_views(r@).no_duplicates(),
            instance_views(r@).to_set() == instance_views(self.effects@).to_set(),
    {
        let mut r: Vec<EffectInstance> = Vec::new();
        let mut i: usize = 0;
        proof {
            broadcast use vstd::seq_lib::group_seq_properties;
            assert(instance_views(r@) =~= Seq::<crate::effect::EffectInstanceView>::empty());
            assert(instance_views(self.effects@).take(0) =~= Seq::<crate::effect::EffectInstanceView>::empty());
        }
        while i < self.effects.len()
            invariant
                i <= self.effects.len(),
                instance_views(r@).no_duplicates(),
                instance_views(r@).to_set() == instance_views(self.effects@).take(i as int).to_set(),
            decreases self.effects.len() - i,
        {
            let e = &self.effects[i];
            proof {
                broadcast use vstd::seq_lib::group_seq_properties;
                assert(instance_views(self.effects@).take(i + 1) =~= instance_views(self.effects@).take(
                    i as int,
                ).push(e@));
            }
            crate::effect::insert_instance(&mut r, e);
            i = i + 1;
        }
        assert(instance_views(self.effects@).take(self.effects.len() as int) =~= instance_views(
            self.effects@,
        ));
        r
    }

    /// The index of the node named `p`, if there is one.
    fn node_index(&self, p: &CanonicalPath) -> (r: Option<usize>)
        requires
            self.wf(),
        ensures
            match r {
                None => !graph_nodes(self.call_graph).contains(p@),
                Some(i) => i < graph_nodes(self.call_graph).len() && graph_nodes(self.call_graph)[i as int] == p@,
            },
    {
        let mut i: usize = 0;
        while i < self.node_idxs.len()
            invariant
                self.wf(),
                i <= self.node_idxs@.len(),
                forall|k: int| 0 <= k < i ==> graph_nodes(self.call_graph)[k] != p@,
            decreases self.node_idxs@.len() - i,
        {
            if self.node_idxs[i].0.same_path(p) {
                return Some(self.node_idxs[i].1);
            }
            i = i + 1;
        }
        None
    }

    /// The index of the node for `method`, added if it is new.
    pub fn update_call_graph(&mut self, method: &CanonicalPath) -> (r: usize)
        requires
            old(self).wf(),
            graph_nodes(old(self).call_graph).contains(method@) || graph_nodes(
                old(self).call_graph,
            ).len() < u32::MAX,
        ensures
            final(self).wf(),
            graph_edges(final(self).call_graph) == graph_edges(old(self).call_graph),
            graph_nodes(old(self).call_graph).contains(method@) ==> graph_nodes(
                final(self).call_graph,
            ) == graph_nodes(old(self).call_graph),
            !graph_nodes(old(self).call_graph).contains(method@) ==> graph_nodes(
                final(self).call_graph,
            ) == graph_nodes(old(self).call_graph).push(method@),
            r < graph_nodes(final(self).call_graph).len(),
            graph_nodes(final(self).call_graph)[r as int] == method@,
            final(self).pub_fns == old(self).pub_fns,
            final(self).fn_locs == old(self).fn_locs,
            final(self).effects == old(self).effects,
            final(self).graph_only_changed(*old(self)),
    {
        if let Some(node_idx) = self.node_index(method) {
            return node_idx;
        }
        let ghost old_nodes = graph_nodes(self.call_graph);
        let ghost old_idxs = self.node_idxs@;
        let node_idx = graph_add_node(&mut self.call_graph, method.clone());
        self.node_idxs.push((method.clone(), node_idx));
        proof {
            let nodes = graph_nodes(self.call_graph);
            assert forall|i: int| 0 <= i < nodes.len() implies (#[trigger] self.node_idxs@[i]).0@
                == nodes[i] && self.node_idxs@[i].1 == i by {
                if i < old_nodes.len() {
                    assert(self.node_idxs@[i] == old_idxs[i]);
                }
            }
            assert forall|a: int, b: int| 0 <= a < b < nodes.len() implies nodes[a] != nodes[b] by {
                if b == old_nodes.len() {
                    assert(old_nodes.contains(old_nodes[a]));
                }
            }
        }
        node_idx
    }

    /// Records a call from `caller` to `callee` at `loc`.
    pub fn add_call(&mut self, caller: &CanonicalPath, callee: &CanonicalPath, loc: SrcLoc)
        requires
            old(self).wf(),
            graph_nodes(old(self).call_graph).len() + 2 < u32::MAX,
            graph_edges(old(self).call_graph).len() < u32::MAX,
        ensures
            final(self).wf(),
            graph_nodes(final(self).call_graph).contains(caller@),
            graph_nodes(final(self).call_graph).contains(callee@),
            graph_nodes(old(self).call_graph).is_prefix_of(graph_nodes(final(self).call_graph)),
            graph_nodes(final(self).call_graph).len() <= graph_nodes(old(self).call_graph).len() + 2,
            exists|a: nat, b: nat|
                graph_nodes(final(self).call_graph)[a as int] == caller@ && graph_nodes(
                    final(self).call_graph,
                )[b as int] == callee@ && graph_edges(final(self).call_graph) == graph_edges(
                    old(self).call_graph,
                ).push((a, b, loc@)),
            final(self).pub_fns == old(self).pub_fns,
            final(self).fn_locs == old(self).fn_locs,
            final(self).effects == old(self).effects,
            final(self).graph_only_changed(*old(self)),
    {
        let ghost n0 = graph_nodes(self.call_graph);
        let caller_idx = self.update_call_graph(caller);
        let ghost n1 = graph_nodes(self.call_graph);
        let callee_idx = self.update_call_graph(callee);
        let ghost n2 = graph_nodes(self.call_graph);
        let ghost old_edges = graph_edges(self.call_graph);
        assert(n0.is_prefix_of(n1));
        assert(n1.is_prefix_of(n2));
        assert(n2[caller_idx as int] == caller@);
        graph_add_edge(&mut self.call_graph, caller_idx, callee_idx, loc);
        proof {
            let edges = graph_edges(self.call_graph);
            assert forall|j: int| 0 <= j < edges.len() implies (#[trigger] edges[j]).0 < n2.len()
                && edges[j].1 < n2.len() by {
                if j < old_edges.len() {
                    assert(edges[j] == old_edges[j]);
                }
            }
            assert(n0.is_prefix_of(n2));
            assert(graph_nodes(self.call_graph)[caller_idx as int] == caller@);
            assert(graph_nodes(self.call_graph)[callee_idx as int] == callee@);
        }
    }

    /// Records a function declaration: its node in the call graph, its location,
    /// and, if it is public or the crate's `main`, its name among the public functions.
    pub fn add_fn_dec(&mut self, f: FnDec)
        requires
            old(self).wf(),
            graph_nodes(old(self).call_graph).len() + 1 < u32::MAX,
        ensures
            final(self).wf(),
            graph_nodes(final(self).call_graph).contains(f.fn_name@),
            graph_edges(final(self).call_graph) == graph_edges(old(self).call_graph),
            path_views(final(self).pub_fns@).to_set() == if f.vis == Visibility::Public
                || is_main_spec(f.fn_name@) {
                path_views(old(self).pub_fns@).to_set().insert(f.fn_name@)
            } else {
                path_views(old(self).pub_fns@).to_set()
            },
            loc_map(final(self).fn_locs@) == loc_map(old(self).fn_locs@).insert(
                f.fn_name@,
                f.src_loc@,
            ),
            final(self).effects == old(self).effects,
            final(self).decl_only_changed(*old(self)),
            graph_nodes(old(self).call_graph).is_prefix_of(graph_nodes(final(self).call_graph)),
            graph_nodes(final(self).call_graph).len() <= graph_nodes(old(self).call_graph).len() + 1,
    {
        let fn_name = f.fn_name;
        // Update call graph
        self.update_call_graph(&fn_name);
        // Save function info
        if f.vis == Visibility::Public || fn_name.is_main() {
            insert_path(&mut self.pub_fns, &fn_name);
        }
        let ghost old_locs = self.fn_locs@;
        let mut j: usize = 0;
        let mut found: Option<usize> = None;
        while j < self.fn_locs.len() && found.is_none()
            invariant
                j <= self.fn_locs@.len(),
                self.fn_locs@ == old_locs,
                found matches Some(k) ==> k < old_locs.len() && old_locs[k as int].0@ == fn_name@,
                found is None ==> forall|k: int| 0 <= k < j ==> (#[trigger] old_locs[k]).0@ != fn_name@,
            decreases self.fn_locs@.len() - j,
        {
            if self.fn_locs[j].0.same_path(&fn_name) {
                found = Some(j);
            }
            j = j + 1;
        }
        let ghost locv = f.src_loc@;
        let ghost namev = fn_name@;
        match found {
            Some(j) => {
                let _old = self.fn_locs.remove(j);
                proof {
                    lemma_loc_map_remove(old_locs, j as int);
                }
            },
            None => {
                proof {
                    lemma_loc_map_dom(old_locs);
                    assert(!loc_keys(old_locs).contains(namev)) by {
                        if loc_keys(old_locs).contains(namev) {
                            let k = choose|k: int| 0 <= k < loc_keys(old_locs).len() && loc_keys(old_locs)[k] == namev;
                            assert(old_locs[k].0@ == namev);
                        }
                    }
                    assert(loc_map(old_locs).remove(namev) =~= loc_map(old_locs));
                }
            },
        }
        let ghost mid = self.fn_locs@;
        proof {
            lemma_loc_map_dom(mid);
            assert(!loc_keys(mid).contains(namev)) by {
                if loc_keys(mid).contains(namev) {
                    assert(loc_map(mid).dom().contains(namev));
                }
            }
        }
        self.fn_locs.push((fn_name, f.src_loc));
        proof {
            assert(self.fn_locs@.drop_last() =~= mid);
            assert(loc_keys(self.fn_locs@) =~= loc_keys(mid).push(namev));
            assert(loc_map(self.fn_locs@) =~= loc_map(old_locs).insert(namev, locv));
        }
    }

    /// The callers of `callee`; an error if `callee` is not in the call graph.
    pub fn get_callers(&self, callee: &CanonicalPath) -> (r: Result<Vec<EffectInfo>, ()>)
        requires
            self.wf(),
        ensures
            r is Err <==> !graph_nodes(self.call_graph).contains(callee@),
            r matches Ok(v) ==> info_views(v@).no_duplicates() && info_views(v@).to_set()
                == self.callers(callee@),
    {
        let ghost nodes = graph_nodes(self.call_graph);
        let ghost edges = graph_edges(self.call_graph);
        let callee_node = match self.node_index(callee) {
            Some(i) => i,
            None => return Err(()),
        };
        let raw = graph_incoming(&self.call_graph, callee_node);
        let ghost rv = raw@.map_values(|p: (CanonicalPath, SrcLoc)| (p.0@, p.1@));
        let mut res: Vec<EffectInfo> = Vec::new();
        let mut i: usize = 0;
        proof {
            broadcast use vstd::seq_lib::group_seq_properties;
            assert(info_views(res@) =~= Seq::<EffectInfoView>::empty());
        }
        while i < raw.len()
            invariant
                i <= raw.len(),
                rv == raw@.map_values(|p: (CanonicalPath, SrcLoc)| (p.0@, p.1@)),
                info_views(res@).no_duplicates(),
                forall|x: EffectInfoView|
                    info_views(res@).to_set().contains(x) <==> exists|k: int|
                        0 <= k < i && x == (EffectInfoView {
                            caller_path: (#[trigger] rv[k]).0,
                            callee_loc: rv[k].1,
                        }),
            decreases raw.len() - i,
        {
            let info = EffectInfo::new(raw[i].0.clone(), raw[i].1.clone());
            let ghost before = info_views(res@).to_set();
            insert_info(&mut res, info);
            proof {
                assert(rv[i as int] == (raw@[i as int].0@, raw@[i as int].1@));
                assert forall|x: EffectInfoView|
                    info_views(res@).to_set().contains(x) <==> exists|k: int|
                        0 <= k < i + 1 && x == (EffectInfoView {
                            caller_path: (#[trigger] rv[k]).0,
                            callee_loc: rv[k].1,
                        }) by {
                    if x == info@ {
                        assert(x == (EffectInfoView { caller_path: rv[i as int].0, callee_loc: rv[i as int].1 }));
                    }
                }
            }
            i = i + 1;
        }
        proof {
            let n = callee_node as nat;
            assert forall|x: EffectInfoView|
                info_views(res@).to_set().contains(x) <==> #[trigger] self.callers(callee@).contains(x) by {
                let pr = (x.caller_path, x.callee_loc);
                vstd::seq_lib::to_multiset_contains(rv, pr);
                lemma_incoming_pairs(nodes, edges, n, pr);
                if info_views(res@).to_set().contains(x) {
                    let k = choose|k: int| 0 <= k < raw.len() && x == (EffectInfoView {
                        caller_path: (#[trigger] rv[k]).0,
                        callee_loc: rv[k].1,
                    });
                    assert(rv.contains(pr)) by {
                        assert(rv[k] == pr);
                    }
                    let j = choose|j: int| 0 <= j < edges.len() && (#[trigger] edges[j]).1 == n && pr == (
                        nodes[edges[j].0 as int],
                        edges[j].2,
                    );
                    assert(nodes[edges[j].1 as int] == callee@);
                }
                if self.callers(callee@).contains(x) {
                    let j = choose|j: int|
                        0 <= j < edges.len() && nodes[(#[trigger] edges[j]).1 as int] == callee@ && x == (
                        EffectInfoView { caller_path: nodes[edges[j].0 as int], callee_loc: edges[j].2 });
                    assert(edges[j].1 == n) by {
                        assert(nodes[edges[j].1 as int] == nodes[n as int]);
                    }
                    assert(rv.contains(pr));
                    let k = choose|k: int| 0 <= k < rv.len() && rv[k] == pr;
                    assert(x == (EffectInfoView { caller_path: rv[k].0, callee_loc: rv[k].1 }));
                }
            }
            assert(info_views(res@).to_set() =~= self.callers(callee@));
        }
        Ok(res)
    }
}


/// A node reached from a node of the graph is a node of the graph.
proof fn lemma_reach_in_range(edges: Seq<(nat, nat, SrcLocView)>, len: nat, a: nat, b: nat)
    requires
        a < len,
        forall|j: int| 0 <= j < edges.len() ==> (#[trigger] edges[j]).0 < len && edges[j].1 < len,
        reaches(edges, a, b),
    ensures
        b < len,
{
    let path = choose|path: Seq<nat>| #[trigger] is_walk(edges, path) && path[0] == a && path.last() == b;
    if path.len() > 1 {
        let i = path.len() - 2;
        assert(has_edge(edges, path[i], path[i + 1]));
        let j = choose|j: int| 0 <= j < edges.len() && (#[trigger] edges[j]).0 == path[i] && edges[j].1 == path[i + 1];
        assert(edges[j].1 < len);
    }
}

/// Some function reached from the node at index `i`, that node included, has effects.
pub open spec fn reaches_effects(sr: ScanResults, i: nat) -> bool {
    exists|n: nat| #[trigger] reaches(graph_edges(sr.call_graph), i, n) && n < graph_nodes(sr.call_graph).len()
        && path_views(sr.fns_with_effects@).contains(graph_nodes(sr.call_graph)[n as int])
}

/// Whether the function pointer effects of `effs`, taken in order, are kept:
/// those whose callee is in another crate than `crate_name`, or reaches a
/// function with effects. Gives the kept effects and the functions with effects
/// after each kept effect's caller was added.
pub open spec fn kept_fn_ptrs(
    nodes: Seq<Seq<char>>,
    edges: Seq<(nat, nat, SrcLocView)>,
    fwe: Set<Seq<char>>,
    effs: Seq<EffectInstanceView>,
    crate_name: Seq<char>,
) -> (Seq<EffectInstanceView>, Set<Seq<char>>)
    decreases effs.len(),
{
    if effs.len() == 0 {
        (Seq::empty(), fwe)
    } else {
        let (kept, f) = kept_fn_ptrs(nodes, edges, fwe, effs.drop_last(), crate_name);
        let e = effs.last();
        let keep = crate_name_spec(e.callee) != crate_name || !nodes.contains(e.callee) || exists|i: int, n: nat|
            0 <= i < nodes.len() && nodes[i] == e.callee && #[trigger] reaches(edges, i as nat, n) && n < nodes.len()
                && f.contains(nodes[n as int]);
        if keep {
            (kept.push(e), f.insert(e.caller))
        } else {
            (kept, f)
        }
    }
}

impl ScanResults {
    /// Whether the function `fn_` has effects, or calls, directly or not, a
    /// function with effects; a function that is not in the call graph counts
    /// as having effects.
    pub fn check_fn_for_effects(&self, fn_: &CanonicalPath) -> (r: bool)
        requires
            self.wf(),
        ensures
            !graph_nodes(self.call_graph).contains(fn_@) ==> r,
            forall|i: int| 0 <= i < graph_nodes(self.call_graph).len() && graph_nodes(self.call_graph)[i] == fn_@
                ==> (r <==> reaches_effects(*self, i as nat)),
    {
        let i = match self.node_index(fn_) {
            Some(i) => i,
            None => {
                return true;
            },
        };
        let ghost nodes = graph_nodes(self.call_graph);
        let ghost edges = graph_edges(self.call_graph);
        let reach = graph_reachable(&self.call_graph, i);
        let mut k: usize = 0;
        while k < reach.len()
            invariant
                self.wf(),
                nodes == graph_nodes(self.call_graph),
                edges == graph_edges(self.call_graph),
                i < nodes.len(),
                nodes[i as int] == fn_@,
                forall|n: nat| #[trigger] reaches(edges, i as nat, n) <==> exists|kk: int|
                    0 <= kk < reach@.len() && reach@[kk] as nat == n,
                k <= reach.len(),
                forall|kk: int| 0 <= kk < k ==> (reach@[kk] as int) < nodes.len() && !path_views(self.fns_with_effects@).contains(nodes[reach@[kk] as int]),
            decreases reach.len() - k,
        {
            let n = reach[k];
            proof {
                assert(reaches(edges, i as nat, n as nat));
                lemma_reach_in_range(edges, nodes.len(), i as nat, n as nat);
            }
            if contains_path(&self.fns_with_effects, &self.node_idxs[n].0) {
                proof {
                    assert(reaches(edges, i as nat, n as nat) && (n as nat) < nodes.len()
                        && path_views(self.fns_with_effects@).contains(nodes[n as int]));
                    assert(reaches_effects(*self, i as nat));
                    assert forall|j: int| 0 <= j < nodes.len() && nodes[j] == fn_@ implies j == i by {
                        if j != i {
                            assert(nodes[j] == nodes[i as int]);
                        }
                    }
                }
                return true;
            }
            k = k + 1;
        }
        proof {
            assert forall|n: nat| #[trigger] reaches(edges, i as nat, n) && n < nodes.len()
                implies !path_views(self.fns_with_effects@).contains(nodes[n as int]) by {
                let kk = choose|kk: int| 0 <= kk < reach@.len() && reach@[kk] as nat == n;
            }
            assert forall|j: int| 0 <= j < nodes.len() && nodes[j] == fn_@ implies j == i by {
                if j != i {
                    assert(nodes[j] == nodes[i as int]);
                }
            }
        }
        false
    }

    /// Keeps, of the function pointer effects, those whose target is in
    /// another crate than `crate_name` (with hyphens written as underscores) or
    /// has effects: each kept effect joins the effects, and its caller the
    /// functions with effects, before the next one is looked at.
    pub fn filter_fn_ptr_effects(&mut self, crate_name: &str)
        requires
            old(self).wf(),
        ensures
            final(self).wf(),
            ({
                let (kept, fwe) = kept_fn_ptrs(
                    graph_nodes(old(self).call_graph),
                    graph_edges(old(self).call_graph),
                    path_views(old(self).fns_with_effects@).to_set(),
                    instance_views(old(self).fn_ptr_effects@),
                    replace_hyphens_spec(crate_name@),
                );
                &&& instance_views(final(self).effects@) == instance_views(old(self).effects@) + kept
                &&& path_views(final(self).fns_with_effects@).to_set() == fwe
            }),
            final(self).fn_ptr_effects@ == old(self).fn_ptr_effects@,
            final(self).call_graph == old(self).call_graph,
            final(self).node_idxs@ == old(self).node_idxs@,
            final(self).pub_fns@ == old(self).pub_fns@,
            final(self).fn_locs@ == old(self).fn_locs@,
    {
        let mut name = copy_string(crate_name);
        replace_hyphens(&mut name);
        let ghost nodes = graph_nodes(self.call_graph);
        let ghost edges = graph_edges(self.call_graph);
        let ghost fwe0 = path_views(self.fns_with_effects@).to_set();
        let ghost effs = instance_views(self.fn_ptr_effects@);
        let ghost effects0 = instance_views(self.effects@);
        let mut i: usize = 0;
        proof {
            assert(effs.take(0) =~= Seq::<EffectInstanceView>::empty());
            assert(effects0 + Seq::<EffectInstanceView>::empty() =~= effects0);
        }
        while i < self.fn_ptr_effects.len()
            invariant
                self.wf(),
                i <= self.fn_ptr_effects.len(),
                nodes == graph_nodes(self.call_graph),
                edges == graph_edges(self.call_graph),
                effs == instance_views(self.fn_ptr_effects@),
                self.fn_ptr_effects@ == old(self).fn_ptr_effects@,
                self.call_graph == old(self).call_graph,
                self.node_idxs@ == old(self).node_idxs@,
                self.pub_fns@ == old(self).pub_fns@,
                self.fn_locs@ == old(self).fn_locs@,
                nodes == graph_nodes(old(self).call_graph),
                edges == graph_edges(old(self).call_graph),
                fwe0 == path_views(old(self).fns_with_effects@).to_set(),
                effects0 == instance_views(old(self).effects@),
                name@ == replace_hyphens_spec(crate_name@),
                ({
                    let (kept, fwe) = kept_fn_ptrs(nodes, edges, fwe0, effs.take(i as int), name@);
                    &&& instance_views(self.effects@) == effects0 + kept
                    &&& path_views(self.fns_with_effects@).to_set() == fwe
                }),
            decreases self.fn_ptr_effects.len() - i,
        {
            let ghost prev = kept_fn_ptrs(nodes, edges, fwe0, effs.take(i as int), name@);
            let ghost e = effs[i as int];
            proof {
                assert(effs.take(i + 1).drop_last() =~= effs.take(i as int));
                assert(effs.take(i + 1).last() == e);
            }
            let other_crate = {
                let c = self.fn_ptr_effects[i].callee().crate_name();
                !str_eq(c.as_str(), name.as_str())
            };
            let keep = other_crate || self.check_fn_for_effects(self.fn_ptr_effects[i].callee());
            proof {
                let f = prev.1;
                let spec_keep = crate_name_spec(e.callee) != name@ || !nodes.contains(e.callee) || exists|ii: int, n: nat|
                    0 <= ii < nodes.len() && nodes[ii] == e.callee && #[trigger] reaches(edges, ii as nat, n) && n < nodes.len()
                        && f.contains(nodes[n as int]);
                if !other_crate && nodes.contains(e.callee) {
                    let ii = choose|ii: int| 0 <= ii < nodes.len() && nodes[ii] == e.callee;
                    assert(keep == reaches_effects(*self, ii as nat));
                    if keep {
                        let n = choose|n: nat| #[trigger] reaches(edges, ii as nat, n) && n < nodes.len()
                            && path_views(self.fns_with_effects@).contains(nodes[n as int]);
                        assert(f.contains(nodes[n as int]));
                    } else {
                        assert forall|i2: int, n: nat|
                            0 <= i2 < nodes.len() && nodes[i2] == e.callee && #[trigger] reaches(edges, i2 as nat, n) && n < nodes.len()
                            implies !f.contains(nodes[n as int]) by {
                            assert(i2 == ii) by {
                                if i2 != ii {
                                    assert(nodes[i2] == nodes[ii]);
                                }
                            }
                            assert(!path_views(self.fns_with_effects@).contains(nodes[n as int]));
                        }
                    }
                }
                assert(keep == spec_keep);
            }
            if keep {
                let ghost before = self.effects@;
                let ghost fbefore = self.fns_with_effects@;
                let eff = self.fn_ptr_effects[i].clone();
                let caller = self.fn_ptr_effects[i].caller().clone();
                assert(caller@ == e.caller);
                self.effects.push(eff);
                if !contains_path(&self.fns_with_effects, &caller) {
                    self.fns_with_effects.push(caller);
                    proof {
                        assert(path_views(self.fns_with_effects@) =~= path_views(fbefore).push(e.caller));
                        path_views(fbefore).lemma_push_to_set_commute(e.caller);
                    }
                } else {
                    proof {
                        assert(path_views(fbefore).to_set().contains(e.caller));
                        assert(path_views(self.fns_with_effects@).to_set() =~= path_views(fbefore).to_set().insert(e.caller));
                    }
                }
                proof {
                    assert(instance_views(self.effects@) =~= instance_views(before).push(e));
                }
            }
            i = i + 1;
        }
        proof {
            assert(effs.take(i as int) =~= effs);
        }
    }
}
impl ScanResults {
    /// Keeps the effects of the given types, in order.
    pub fn retain_effects(&mut self, types: &[EffectType])
        ensures
            instance_views(final(self).effects@) == instance_views(old(self).effects@).filter(
                |e: EffectInstanceView| types@.contains(effect_type_of(e.eff_type)),
            ),
            final(self).fn_ptr_effects == old(self).fn_ptr_effects,
            final(self).pub_fns == old(self).pub_fns,
            final(self).fn_locs == old(self).fn_locs,
            final(self).call_graph == old(self).call_graph,
            final(self).node_idxs == old(self).node_idxs,
            final(self).fns_with_effects == old(self).fns_with_effects,
            final(self).trait_meths == old(self).trait_meths,
            final(self).total_loc == old(self).total_loc,
            final(self).skipped_macros == old(self).skipped_macros,
            final(self).skipped_conditional_code == old(self).skipped_conditional_code,
            final(self).skipped_fn_calls == old(self).skipped_fn_calls,
            final(self).skipped_fn_ptrs == old(self).skipped_fn_ptrs,
            final(self).skipped_other == old(self).skipped_other,
            final(self).unsafe_traits == old(self).unsafe_traits,
            final(self).unsafe_impls == old(self).unsafe_impls,
            final(self).fn_loc_tracker == old(self).fn_loc_tracker,
    {
        let ghost pred = |e: EffectInstanceView| types@.contains(effect_type_of(e.eff_type));
        let ghost all = instance_views(self.effects@);
        let mut kept: Vec<EffectInstance> = Vec::new();
        let mut i: usize = 0;
        proof {
            reveal(Seq::filter);
            assert(all.take(0).filter(pred) =~= Seq::<EffectInstanceView>::empty());
            assert(instance_views(kept@) =~= Seq::<EffectInstanceView>::empty());
        }
        while i < self.effects.len()
            invariant
                i <= self.effects.len(),
                all == instance_views(self.effects@),
                self.effects == old(self).effects,
                pred == (|e: EffectInstanceView| types@.contains(effect_type_of(e.eff_type))),
                instance_views(kept@) == all.take(i as int).filter(pred),
            decreases self.effects.len() - i,
        {
            let ghost before = kept@;
            proof {
                reveal(Seq::filter);
                assert(all.take(i + 1).drop_last() =~= all.take(i as int));
                assert(all.take(i + 1).last() == self.effects@[i as int]@);
            }
            if EffectType::matches_effect(types, self.effects[i].eff_type()) {
                let c = self.effects[i].clone();
                kept.push(c);
                proof {
                    assert(instance_views(kept@) =~= instance_views(before).push(self.effects@[i as int]@));
                }
            }
            i = i + 1;
        }
        proof {
            assert(all.take(self.effects.len() as int) =~= all);
        }
        self.effects = kept;
    }
}

} // verus!
