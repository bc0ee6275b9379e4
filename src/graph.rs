use vstd::prelude::*;
use std::collections::HashMap;
use crate::gate::SocketKind;
use crate::node::Edge;

verus! {

broadcast use vstd::std_specs::hash::group_hash_axioms;

/// One neighbour record: the neighbour's node identifier, tagged `Input` when
/// it feeds one of this node's inputs and `Output` when this node feeds it.
pub type Adjacency = (SocketKind, u64);

/// The neighbour list of `n` in `g`, empty where `g` has no entry for it.
pub open spec fn list_of(g: Map<u64, Seq<Adjacency>>, n: u64) -> Seq<Adjacency> {
    if g.contains_key(n) {
        g[n]
    } else {
        seq![]
    }
}

/// `g` with the records of wire `e` appended: the source to the list of the
/// target's node, then the target to the list of the source's node.
pub open spec fn add_edge(g: Map<u64, Seq<Adjacency>>, e: Edge) -> Map<u64, Seq<Adjacency>> {
    let t = e.to.node_id;
    let f = e.from.node_id;
    let g1 = g.insert(t, list_of(g, t).push((SocketKind::Input, f)));
    g1.insert(f, list_of(g1, f).push((SocketKind::Output, t)))
}

/// The dependency graph of a sequence of wires, in wire order.
pub open spec fn graph_of(edges: Seq<Edge>) -> Map<u64, Seq<Adjacency>>
    decreases edges.len(),
{
    if edges.len() == 0 {
        Map::empty()
    } else {
        add_edge(graph_of(edges.drop_last()), edges.last())
    }
}

/// The nodes that feed a node, in the order of its neighbour records.
pub open spec fn feeders(s: Seq<Adjacency>) -> Seq<u64>
    decreases s.len(),
{
    if s.len() == 0 {
        seq![]
    } else if s.last().0 == SocketKind::Input {
        feeders(s.drop_last()).push(s.last().1)
    } else {
        feeders(s.drop_last())
    }
}

/// The source nodes of the wires that arrive at node `n`, in wire order.
pub open spec fn sources_into(edges: Seq<Edge>, n: u64) -> Seq<u64>
    decreases edges.len(),
{
    if edges.len() == 0 {
        seq![]
    } else if edges.last().to.node_id == n {
        sources_into(edges.drop_last(), n).push(edges.last().from.node_id)
    } else {
        sources_into(edges.drop_last(), n)
    }
}

/// `edges` without every wire equal to `a`, order kept.
pub open spec fn without(edges: Seq<Edge>, a: Edge) -> Seq<Edge>
    decreases edges.len(),
{
    if edges.len() == 0 {
        seq![]
    } else if edges.last() == a {
        without(edges.drop_last(), a)
    } else {
        without(edges.drop_last(), a).push(edges.last())
    }
}

/// For each node, its neighbours through the wires, in wire order.
pub struct DependencyGraph {
    adj: HashMap<u64, Vec<Adjacency>>,
}

impl View for DependencyGraph {
    type V = Map<u64, Seq<Adjacency>>;

    closed spec fn view(&self) -> Map<u64, Seq<Adjacency>> {
        Map::new(|k: u64| self.adj@.contains_key(k), |k: u64| self.adj@[k]@)
    }
}

impl DependencyGraph {
    /// A graph without nodes.
    pub fn new() -> (r: DependencyGraph)
        ensures
            r@ == Map::<u64, Seq<Adjacency>>::empty(),
    {
        let r = DependencyGraph { adj: HashMap::new() };
        assert(r@ =~= Map::<u64, Seq<Adjacency>>::empty());
        r
    }

    /// Appends `entry` to the neighbour list of `n`.
    fn append(&mut self, n: u64, entry: Adjacency)
        ensures
            final(self)@ == old(self)@.insert(n, list_of(old(self)@, n).push(entry)),
    {
        let mut v = match self.adj.remove(&n) {
            Some(v) => v,
            None => Vec::new(),
        };
        v.push(entry);
        self.adj.insert(n, v);
        assert(self@ =~= old(self)@.insert(n, list_of(old(self)@, n).push(entry)));
    }

    /// The graph of `edges`, built afresh: for each wire in order, the source
    /// node is appended to the target node's list tagged `Input`, then the
    /// target node to the source node's list tagged `Output`.
    pub fn build(edges: &Vec<Edge>) -> (r: DependencyGraph)
        ensures
            r@ == graph_of(edges@),
    {
        let mut g = DependencyGraph::new();
        let mut i: usize = 0;
        while i < edges.len()
            invariant
                i <= edges.len(),
                g@ == graph_of(edges@.subrange(0, i as int)),
            decreases edges.len() - i,
        {
            let e = edges[i];
            proof {
                assert(edges@.subrange(0, i + 1).drop_last() =~= edges@.subrange(0, i as int));
            }
            g.append(e.to.node_id, (SocketKind::Input, e.from.node_id));
            g.append(e.from.node_id, (SocketKind::Output, e.to.node_id));
            i = i + 1;
        }
        assert(edges@.subrange(0, edges.len() as int) =~= edges@);
        g
    }

    /// The neighbour list of `n`, or `None` where the graph has no entry for it.
    pub fn neighbors(&self, n: u64) -> (r: Option<&Vec<Adjacency>>)
        ensures
            match r {
                Some(v) => self@.contains_key(n) && v@ == self@[n],
                None => !self@.contains_key(n),
            },
    {
        self.adj.get(&n)
    }
}

/// The nodes tagged `Input` in a node's list are exactly the sources of the
/// wires that arrive at it, in wire order.
pub proof fn lemma_feeders_are_sources(edges: Seq<Edge>, n: u64)
    ensures
        feeders(list_of(graph_of(edges), n)) == sources_into(edges, n),
    decreases edges.len(),
{
    if edges.len() > 0 {
        let prev = edges.drop_last();
        let e = edges.last();
        lemma_feeders_are_sources(prev, n);
        let g = graph_of(prev);
        let s = list_of(g, n);
        let t = e.to.node_id;
        let f = e.from.node_id;
        let s1 = if t == n { s.push((SocketKind::Input, f)) } else { s };
        let s2 = if f == n { s1.push((SocketKind::Output, t)) } else { s1 };
        assert(list_of(graph_of(edges), n) == s2);
        if t == n {
            assert(s.push((SocketKind::Input, f)).drop_last() =~= s);
            assert(feeders(s1) == feeders(s).push(f));
        } else {
            assert(feeders(s1) == feeders(s));
        }
        if f == n {
            assert(s1.push((SocketKind::Output, t)).drop_last() =~= s1);
            assert(feeders(s2) == feeders(s1));
        }
        if t == n {
            assert(sources_into(edges, n) == sources_into(prev, n).push(f));
        } else {
            assert(sources_into(edges, n) == sources_into(prev, n));
        }
    }
}

/// Leaving out a wire that a sequence does not hold gives the sequence back.
pub proof fn lemma_without_absent(edges: Seq<Edge>, a: Edge)
    requires
        !edges.contains(a),
    ensures
        without(edges, a) == edges,
    decreases edges.len(),
{
    if edges.len() > 0 {
        let prev = edges.drop_last();
        assert(!prev.contains(a)) by {
            if prev.contains(a) {
                let j = choose|j: int| 0 <= j < prev.len() && prev[j] == a;
                assert(edges[j] == a);
            }
        }
        lemma_without_absent(prev, a);
        assert(edges[edges.len() - 1] != a);
        assert(prev.push(edges.last()) =~= edges);
    }
}

/// Adding a wire and then removing it again yields the graph that the wires
/// had without it: no neighbour record of it is left behind.
pub proof fn lemma_add_then_remove(edges: Seq<Edge>, a: Edge)
    requires
        !edges.contains(a),
    ensures
        graph_of(without(edges.push(a), a)) == graph_of(edges),
{
    assert(edges.push(a).drop_last() =~= edges);
    lemma_without_absent(edges, a);
}

} // verus!
