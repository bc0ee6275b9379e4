use vstd::prelude::*;
use crate::eval::{
    captured, records, eval_at, evaluate, find_index, lemma_records_same, lemma_records_trans, find_node, value_at, value_of, same_but_displays,
    lemma_displays_do_not_matter,
};
use crate::gate::{NodeKind, SocketKind, input_arity, output_arity};
use crate::graph::{Adjacency, DependencyGraph, graph_of, without};
use crate::ids::IdAllocator;
use crate::node::{Edge, Node, Socket, SocketRef, ids_needed, numbered_sockets};

verus! {

/// Why a wire was refused.
#[derive(Debug, Clone, Copy, PartialEq, Eq, Structural)]
pub enum ConnectError {
    /// The wire does not start at an existing output socket.
    SourceNotOutput,
    /// The wire does not end at an existing input socket.
    TargetNotInput,
    /// The same wire is already there.
    Duplicate,
}

/// The kind of the first socket with identifier `id` in `s`, from index `k` on.
pub open spec fn socket_kind_from(s: Seq<Socket>, id: u64, k: int) -> Option<SocketKind>
    decreases s.len() - k,
{
    if k < 0 || k >= s.len() {
        None
    } else if s[k].id == id {
        Some(s[k].kind)
    } else {
        socket_kind_from(s, id, k + 1)
    }
}

/// The kind of the socket that `r` names: the first socket with its identifier
/// among the inputs, then the outputs, of the first node with its node
/// identifier; `None` where there is no such socket.
pub open spec fn socket_kind(nodes: Seq<Node>, r: SocketRef) -> Option<SocketKind> {
    match find_node(nodes, r.node_id) {
        Some(i) => socket_kind_from(nodes[i].inputs@ + nodes[i].outputs@, r.socket_id, 0),
        None => None,
    }
}

/// What connecting `from` to `to` gives: the source must be an output socket,
/// the target an input socket, and the wire must not be there yet.
pub open spec fn connect_outcome(nodes: Seq<Node>, edges: Seq<Edge>, from: SocketRef, to: SocketRef) -> Result<
    (),
    ConnectError,
> {
    if socket_kind(nodes, from) != Some(SocketKind::Output) {
        Err(ConnectError::SourceNotOutput)
    } else if socket_kind(nodes, to) != Some(SocketKind::Input) {
        Err(ConnectError::TargetNotInput)
    } else if edges.contains(Edge { from, to }) {
        Err(ConnectError::Duplicate)
    } else {
        Ok(())
    }
}

/// `edges` without every wire that starts or ends at node `id`, order kept.
pub open spec fn without_node(edges: Seq<Edge>, id: u64) -> Seq<Edge>
    decreases edges.len(),
{
    if edges.len() == 0 {
        seq![]
    } else if edges.last().from.node_id == id || edges.last().to.node_id == id {
        without_node(edges.drop_last(), id)
    } else {
        without_node(edges.drop_last(), id).push(edges.last())
    }
}

/// A circuit: its nodes, its wires, the dependency graph of the wires, the
/// identifier counter and the flag that asks for a new evaluation pass.
pub struct Circuit {
    nodes: Vec<Node>,
    edges: Vec<Edge>,
    graph: DependencyGraph,
    ids: IdAllocator,
    dirty: bool,
}

impl Circuit {
    /// The nodes, in the order they were created.
    pub closed spec fn nodes_spec(&self) -> Seq<Node> {
        self.nodes@
    }

    /// The wires, in the order they were made.
    pub closed spec fn edges_spec(&self) -> Seq<Edge> {
        self.edges@
    }

    /// The dependency graph as last built.
    pub closed spec fn graph_spec(&self) -> Map<u64, Seq<Adjacency>> {
        self.graph@
    }

    /// Whether an evaluation pass is due.
    pub closed spec fn dirty_spec(&self) -> bool {
        self.dirty
    }

    /// The next identifier that a new node or socket receives.
    pub closed spec fn next_id_spec(&self) -> nat {
        self.ids.next_spec()
    }

    /// The dependency graph is the one that the current wires give.
    pub open spec fn wf(&self) -> bool {
        self.graph_spec() == graph_of(self.edges_spec())
    }

    /// A circuit without nodes or wires.
    pub fn new() -> (r: Circuit)
        ensures
            r.wf(),
            r.nodes_spec() == Seq::<Node>::empty(),
            r.edges_spec() == Seq::<Edge>::empty(),
            !r.dirty_spec(),
            r.next_id_spec() == 0,
    {
        let edges: Vec<Edge> = Vec::new();
        let graph = DependencyGraph::build(&edges);
        Circuit { nodes: Vec::new(), edges, graph, ids: IdAllocator::new(), dirty: false }
    }

    /// The nodes, in the order they were created.
    pub fn nodes(&self) -> (r: &Vec<Node>)
        ensures
            r@ == self.nodes_spec(),
    {
        &self.nodes
    }

    /// The wires, in the order they were made.
    pub fn edges(&self) -> (r: &Vec<Edge>)
        ensures
            r@ == self.edges_spec(),
    {
        &self.edges
    }

    /// The dependency graph of the wires.
    pub fn graph(&self) -> (r: &DependencyGraph)
        ensures
            r@ == self.graph_spec(),
    {
        &self.graph
    }

    /// Whether an evaluation pass is due.
    pub fn is_dirty(&self) -> (r: bool)
        ensures
            r == self.dirty_spec(),
    {
        self.dirty
    }

    /// The value of the node with identifier `id`; `None` where it is
    /// undefined or no node has it. Every `Display` reached with a defined
    /// value records it.
    pub fn evaluate(&mut self, id: u64) -> (r: Option<bool>)
        requires
            old(self).wf(),
        ensures
            final(self).wf(),
            r == value_of(old(self).nodes_spec(), old(self).graph_spec(), id),
            records(
                old(self).nodes_spec(),
                final(self).nodes_spec(),
                old(self).graph_spec(),
                old(self).nodes_spec().len(),
            ),
            match find_node(old(self).nodes_spec(), id) {
                Some(i) => final(self).nodes_spec()[i] == captured(old(self).nodes_spec()[i], r),
                None => final(self).nodes_spec() == old(self).nodes_spec(),
            },
            final(self).edges_spec() == old(self).edges_spec(),
            final(self).graph_spec() == old(self).graph_spec(),
            final(self).next_id_spec() == old(self).next_id_spec(),
            final(self).dirty_spec() == old(self).dirty_spec(),
    {
        evaluate(&mut self.nodes, &self.graph, id)
    }

    /// Adds a node of kind `kind` with fresh identifiers for it and its
    /// sockets, and returns its identifier; `None`, with nothing changed, when
    /// the identifiers are used up.
    pub fn create_node(&mut self, kind: NodeKind) -> (r: Option<u64>)
        requires
            old(self).wf(),
        ensures
            final(self).wf(),
            final(self).edges_spec() == old(self).edges_spec(),
            final(self).graph_spec() == old(self).graph_spec(),
            final(self).dirty_spec() == old(self).dirty_spec(),
            (r is Some) == (old(self).next_id_spec() + ids_needed(kind) <= u64::MAX),
            match r {
                Some(id) => {
                    &&& id == old(self).next_id_spec()
                    &&& final(self).nodes_spec().len() == old(self).nodes_spec().len() + 1
                    &&& final(self).nodes_spec().drop_last() == old(self).nodes_spec()
                    &&& final(self).nodes_spec().last().id == id
                    &&& final(self).nodes_spec().last().kind == kind
                    &&& numbered_sockets(
                        final(self).nodes_spec().last().inputs@,
                        old(self).next_id_spec() + 1,
                        input_arity(kind),
                        SocketKind::Input,
                    )
                    &&& numbered_sockets(
                        final(self).nodes_spec().last().outputs@,
                        old(self).next_id_spec() + 1 + input_arity(kind),
                        output_arity(kind),
                        SocketKind::Output,
                    )
                    &&& final(self).next_id_spec() == old(self).next_id_spec() + ids_needed(kind)
                },
                None => {
                    &&& final(self).nodes_spec() == old(self).nodes_spec()
                    &&& final(self).next_id_spec() == old(self).next_id_spec()
                },
            },
    {
        let need: u64 = 1 + kind.inputs() as u64 + kind.outputs() as u64;
        if self.ids.remaining() < need {
            return None;
        }
        let node = kind.build(&mut self.ids);
        let id = node.id;
        self.nodes.push(node);
        proof {
            assert(self.nodes@.drop_last() =~= old(self).nodes@);
        }
        Some(id)
    }

    /// The kind of the socket that `r` names, or `None` where there is none.
    pub fn socket_kind(&self, r: SocketRef) -> (out: Option<SocketKind>)
        ensures
            out == socket_kind(self.nodes_spec(), r),
    {
        match find_index(&self.nodes, r.node_id) {
            None => None,
            Some(i) => {
                proof {
                    crate::eval::lemma_find_bounds(self.nodes@, r.node_id);
                }
                let node = &self.nodes[i];
                let ghost s = node.inputs@ + node.outputs@;
                assert(socket_kind(self.nodes@, r) == socket_kind_from(s, r.socket_id, 0));
                let mut k: usize = 0;
                while k < node.inputs.len()
                    invariant
                        k <= node.inputs@.len(),
                        s == node.inputs@ + node.outputs@,
                        socket_kind(self.nodes@, r) == socket_kind_from(s, r.socket_id, k as int),
                    decreases node.inputs@.len() - k,
                {
                    assert(s[k as int] == node.inputs@[k as int]);
                    if node.inputs[k].id == r.socket_id {
                        assert(socket_kind_from(s, r.socket_id, k as int) == Some(node.inputs@[k as int].kind));
                        return Some(node.inputs[k].kind);
                    }
                    k = k + 1;
                }
                let mut j: usize = 0;
                while j < node.outputs.len()
                    invariant
                        j <= node.outputs@.len(),
                        s == node.inputs@ + node.outputs@,
                        socket_kind(self.nodes@, r) == socket_kind_from(
                            s,
                            r.socket_id,
                            node.inputs@.len() + j,
                        ),
                    decreases node.outputs@.len() - j,
                {
                    assert(s[node.inputs@.len() + j] == node.outputs@[j as int]);
                    if node.outputs[j].id == r.socket_id {
                        assert(socket_kind_from(s, r.socket_id, node.inputs@.len() + j) == Some(
                            node.outputs@[j as int].kind,
                        ));
                        return Some(node.outputs[j].kind);
                    }
                    j = j + 1;
                }
                None
            },
        }
    }

    /// Whether the wire `e` is there.
    pub fn has_edge(&self, e: Edge) -> (r: bool)
        ensures
            r == self.edges_spec().contains(e),
    {
        let mut k: usize = 0;
        while k < self.edges.len()
            invariant
                k <= self.edges@.len(),
                forall|j: int| 0 <= j < k ==> self.edges@[j] != e,
            decreases self.edges@.len() - k,
        {
            if self.edges[k] == e {
                assert(self.edges@[k as int] == e);
                return true;
            }
            k = k + 1;
        }
        false
    }

    /// Wires output socket `from` to input socket `to`, rebuilds the
    /// dependency graph and asks for an evaluation pass. A source that is not
    /// an output socket, a target that is not an input socket, or a wire that
    /// is already there is refused, and nothing changes.
    pub fn connect(&mut self, from: SocketRef, to: SocketRef) -> (r: Result<(), ConnectError>)
        requires
            old(self).wf(),
        ensures
            final(self).wf(),
            r == connect_outcome(old(self).nodes_spec(), old(self).edges_spec(), from, to),
            final(self).nodes_spec() == old(self).nodes_spec(),
            final(self).next_id_spec() == old(self).next_id_spec(),
            r is Ok ==> final(self).edges_spec() == old(self).edges_spec().push(Edge { from, to }),
            r is Ok ==> final(self).dirty_spec(),
            r is Err ==> final(self).edges_spec() == old(self).edges_spec(),
            r is Err ==> final(self).graph_spec() == old(self).graph_spec(),
            r is Err ==> final(self).dirty_spec() == old(self).dirty_spec(),
    {
        if self.socket_kind(from) != Some(SocketKind::Output) {
            return Err(ConnectError::SourceNotOutput);
        }
        if self.socket_kind(to) != Some(SocketKind::Input) {
            return Err(ConnectError::TargetNotInput);
        }
        let e = Edge { from, to };
        if self.has_edge(e) {
            return Err(ConnectError::Duplicate);
        }
        self.edges.push(e);
        self.graph = DependencyGraph::build(&self.edges);
        self.dirty = true;
        Ok(())
    }

    /// Removes every wire equal to `e`, rebuilds the dependency graph and asks
    /// for an evaluation pass.
    pub fn disconnect(&mut self, e: Edge)
        requires
            old(self).wf(),
        ensures
            final(self).wf(),
            final(self).edges_spec() == without(old(self).edges_spec(), e),
            final(self).nodes_spec() == old(self).nodes_spec(),
            final(self).next_id_spec() == old(self).next_id_spec(),
            final(self).dirty_spec(),
    {
        let mut kept: Vec<Edge> = Vec::new();
        let mut k: usize = 0;
        while k < self.edges.len()
            invariant
                k <= self.edges@.len(),
                kept@ == without(self.edges@.subrange(0, k as int), e),
            decreases self.edges@.len() - k,
        {
            proof {
                assert(self.edges@.subrange(0, k + 1).drop_last() =~= self.edges@.subrange(0, k as int));
            }
            let x = self.edges[k];
            if x != e {
                kept.push(x);
            }
            k = k + 1;
        }
        assert(self.edges@.subrange(0, self.edges@.len() as int) =~= self.edges@);
        self.edges = kept;
        self.graph = DependencyGraph::build(&self.edges);
        self.dirty = true;
    }

    /// Removes every wire that starts or ends at node `id`, rebuilds the
    /// dependency graph and asks for an evaluation pass.
    pub fn disconnect_node(&mut self, id: u64)
        requires
            old(self).wf(),
        ensures
            final(self).wf(),
            final(self).edges_spec() == without_node(old(self).edges_spec(), id),
            final(self).nodes_spec() == old(self).nodes_spec(),
            final(self).next_id_spec() == old(self).next_id_spec(),
            final(self).dirty_spec(),
    {
        let mut kept: Vec<Edge> = Vec::new();
        let mut k: usize = 0;
        while k < self.edges.len()
            invariant
                k <= self.edges@.len(),
                kept@ == without_node(self.edges@.subrange(0, k as int), id),
            decreases self.edges@.len() - k,
        {
            proof {
                assert(self.edges@.subrange(0, k + 1).drop_last() =~= self.edges@.subrange(0, k as int));
            }
            let x = self.edges[k];
            if x.from.node_id != id && x.to.node_id != id {
                kept.push(x);
            }
            k = k + 1;
        }
        assert(self.edges@.subrange(0, self.edges@.len() as int) =~= self.edges@);
        self.edges = kept;
        self.graph = DependencyGraph::build(&self.edges);
        self.dirty = true;
    }

    /// Gives node `i` the kind `kind`, keeping its identifier and sockets.
    fn set_kind(&mut self, i: usize, kind: NodeKind)
        requires
            i < old(self).nodes@.len(),
        ensures
            final(self).nodes@ == old(self).nodes@.update(i as int, Node { kind, ..old(self).nodes@[i as int] }),
            final(self).edges@ == old(self).edges@,
            final(self).graph@ == old(self).graph@,
            final(self).ids == old(self).ids,
            final(self).dirty == old(self).dirty,
    {
        crate::eval::set_kind(&mut self.nodes, i, kind);
    }

    /// Flips the state of the `Input` node with identifier `id` and asks for
    /// an evaluation pass; `false`, with nothing changed, where the first node
    /// with that identifier is no `Input` or there is none.
    pub fn toggle_input(&mut self, id: u64) -> (r: bool)
        requires
            old(self).wf(),
        ensures
            final(self).wf(),
            final(self).edges_spec() == old(self).edges_spec(),
            final(self).graph_spec() == old(self).graph_spec(),
            final(self).next_id_spec() == old(self).next_id_spec(),
            r == (match find_node(old(self).nodes_spec(), id) {
                Some(i) => old(self).nodes_spec()[i].kind is Input,
                None => false,
            }),
            r ==> {
                let i = find_node(old(self).nodes_spec(), id)->Some_0;
                let n = old(self).nodes_spec()[i];
                &&& final(self).nodes_spec() == old(self).nodes_spec().update(
                    i,
                    Node { kind: NodeKind::Input(!(n.kind->Input_0)), ..n },
                )
                &&& final(self).dirty_spec()
            },
            !r ==> final(self).nodes_spec() == old(self).nodes_spec() && final(self).dirty_spec()
                == old(self).dirty_spec(),
    {
        match find_index(&self.nodes, id) {
            None => false,
            Some(i) => {
                proof {
                    crate::eval::lemma_find_bounds(self.nodes@, id);
                }
                if let NodeKind::Input(v) = self.nodes[i].kind {
                    self.set_kind(i, NodeKind::Input(!v));
                    self.dirty = true;
                    true
                } else {
                    false
                }
            },
        }
    }

    /// Flips what the `Display` node with identifier `id` shows and asks for
    /// an evaluation pass; no value of any node changes. `false`, with nothing
    /// changed, where the first node with that identifier is no `Display` or
    /// there is none.
    pub fn toggle_display(&mut self, id: u64) -> (r: bool)
        requires
            old(self).wf(),
        ensures
            final(self).wf(),
            final(self).edges_spec() == old(self).edges_spec(),
            final(self).graph_spec() == old(self).graph_spec(),
            final(self).next_id_spec() == old(self).next_id_spec(),
            r == (match find_node(old(self).nodes_spec(), id) {
                Some(i) => old(self).nodes_spec()[i].kind is Display,
                None => false,
            }),
            r ==> {
                let i = find_node(old(self).nodes_spec(), id)->Some_0;
                let n = old(self).nodes_spec()[i];
                &&& final(self).nodes_spec() == old(self).nodes_spec().update(
                    i,
                    Node { kind: NodeKind::Display(!(n.kind->Display_0)), ..n },
                )
                &&& final(self).dirty_spec()
            },
            !r ==> final(self).nodes_spec() == old(self).nodes_spec() && final(self).dirty_spec()
                == old(self).dirty_spec(),
            forall|x: u64|
                value_of(final(self).nodes_spec(), final(self).graph_spec(), x) == #[trigger] value_of(
                    old(self).nodes_spec(),
                    old(self).graph_spec(),
                    x,
                ),
    {
        match find_index(&self.nodes, id) {
            None => false,
            Some(i) => {
                proof {
                    crate::eval::lemma_find_bounds(self.nodes@, id);
                }
                if let NodeKind::Display(v) = self.nodes[i].kind {
                    self.set_kind(i, NodeKind::Display(!v));
                    self.dirty = true;
                    proof {
                        crate::eval::lemma_values_same_but_displays(old(self).nodes@, self.nodes@, self.graph@);
                    }
                    true
                } else {
                    false
                }
            },
        }
    }

    /// When an evaluation pass is due: evaluates every node once, in order,
    /// lets each `Display` record its value where it is defined, clears the
    /// flag, and returns each node's identifier with its value. Otherwise
    /// returns nothing and changes nothing.
    pub fn tick(&mut self) -> (r: Vec<(u64, Option<bool>)>)
        requires
            old(self).wf(),
        ensures
            final(self).wf(),
            final(self).edges_spec() == old(self).edges_spec(),
            final(self).graph_spec() == old(self).graph_spec(),
            final(self).next_id_spec() == old(self).next_id_spec(),
            !final(self).dirty_spec(),
            !old(self).dirty_spec() ==> r@.len() == 0 && final(self).nodes_spec() == old(self).nodes_spec(),
            old(self).dirty_spec() ==> {
                let n = old(self).nodes_spec();
                let g = old(self).graph_spec();
                &&& r@.len() == n.len()
                &&& final(self).nodes_spec().len() == n.len()
                &&& forall|k: int|
                    0 <= k < n.len() ==> #[trigger] r@[k] == (n[k].id, value_at(n, g, k, n.len()))
                &&& forall|k: int|
                    0 <= k < n.len() ==> #[trigger] final(self).nodes_spec()[k] == captured(
                        n[k],
                        value_at(n, g, k, n.len()),
                    )
            },
    {
        let mut out: Vec<(u64, Option<bool>)> = Vec::new();
        if !self.dirty {
            return out;
        }
        let ghost start = self.nodes@;
        let ghost g = self.graph@;
        let count = self.nodes.len();
        let mut i: usize = 0;
        while i < count
            invariant
                i <= count,
                count == start.len(),
                self.nodes@.len() == count,
                self.graph@ == g,
                self.wf(),
                self.edges@ == old(self).edges@,
                self.graph@ == old(self).graph@,
                self.ids == old(self).ids,
                records(start, self.nodes@, g, count as nat),
                out@.len() == i,
                forall|k: int| 0 <= k < i ==> #[trigger] out@[k] == (start[k].id, value_at(start, g, k, count as nat)),
                forall|k: int|
                    0 <= k < i ==> #[trigger] self.nodes@[k] == captured(
                        start[k],
                        value_at(start, g, k, count as nat),
                    ),
            decreases count - i,
        {
            let ghost cur = self.nodes@;
            let id = self.nodes[i].id;
            let v = eval_at(&mut self.nodes, &self.graph, i, count);
            proof {
                lemma_records_same(start, cur, g, count as nat);
                lemma_records_trans(start, cur, self.nodes@, g, count as nat);
                lemma_displays_do_not_matter(start, cur, g, i as int, count as nat);
                assert forall|k: int| 0 <= k < i + 1 implies #[trigger] self.nodes@[k] == captured(
                    start[k],
                    value_at(start, g, k, count as nat),
                ) by {
                    lemma_displays_do_not_matter(start, cur, g, k, count as nat);
                    assert(cur[k] == start[k] || cur[k] == captured(start[k], value_at(start, g, k, count as nat)));
                }
            }
            out.push((id, v));
            i = i + 1;
        }
        self.dirty = false;
        out
    }
}

/// Connecting the same two sockets a second time is refused as a duplicate,
/// after the first connection added exactly one wire.
pub proof fn lemma_connect_twice(nodes: Seq<Node>, edges: Seq<Edge>, from: SocketRef, to: SocketRef)
    requires
        connect_outcome(nodes, edges, from, to) is Ok,
    ensures
        edges.push(Edge { from, to }).len() == edges.len() + 1,
        connect_outcome(nodes, edges.push(Edge { from, to }), from, to) == Err::<(), ConnectError>(
            ConnectError::Duplicate,
        ),
{
    let e = Edge { from, to };
    assert(edges.push(e)[edges.len() as int] == e);
}

/// Wiring two sockets and then removing that wire leaves the dependency graph
/// that the circuit had before.
pub proof fn lemma_connect_then_disconnect(nodes: Seq<Node>, edges: Seq<Edge>, from: SocketRef, to: SocketRef)
    requires
        connect_outcome(nodes, edges, from, to) is Ok,
    ensures
        graph_of(without(edges.push(Edge { from, to }), Edge { from, to })) == graph_of(edges),
{
    crate::graph::lemma_add_then_remove(edges, Edge { from, to });
}

} // verus!
