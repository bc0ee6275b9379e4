use vstd::prelude::*;
use crate::gate::{NodeKind, binary_table, unary_table, is_binary, input_arity};
use crate::graph::{
    Adjacency, DependencyGraph, feeders, list_of, graph_of, sources_into, lemma_feeders_are_sources,
};
use crate::node::{Edge, Node};

verus! {

/// The first index at or after `i` whose node has identifier `id`.
pub open spec fn find_from(nodes: Seq<Node>, id: u64, i: int) -> Option<int>
    decreases nodes.len() - i,
{
    if i < 0 || i >= nodes.len() {
        None
    } else if nodes[i].id == id {
        Some(i)
    } else {
        find_from(nodes, id, i + 1)
    }
}

/// The index of the first node with identifier `id`.
pub open spec fn find_node(nodes: Seq<Node>, id: u64) -> Option<int> {
    find_from(nodes, id, 0)
}

/// The value of `node`, following wires at most `fuel` steps upstream through
/// `nodes`; `None` is the undefined value. An `Input` gives its state. Any
/// other gate is undefined when the steps are used up, when fewer nodes feed
/// it than it has inputs, when a feeding node cannot be found, or when an
/// operand is undefined; otherwise it applies its gate to the values of its
/// first one or two feeding nodes.
pub open spec fn node_value(nodes: Seq<Node>, g: Map<u64, Seq<Adjacency>>, node: Node, fuel: nat) -> Option<bool>
    decreases fuel,
{
    let f = feeders(list_of(g, node.id));
    match node.kind {
        NodeKind::Input(v) => Some(v),
        _ => {
            if fuel == 0 {
                None
            } else if is_binary(node.kind) {
                if f.len() < 2 {
                    None
                } else {
                    match (find_node(nodes, f[0]), find_node(nodes, f[1])) {
                        (Some(ja), Some(jb)) => match (
                            node_value(nodes, g, nodes[ja], (fuel - 1) as nat),
                            node_value(nodes, g, nodes[jb], (fuel - 1) as nat),
                        ) {
                            (Some(a), Some(b)) => binary_table(node.kind, a, b),
                            _ => None,
                        },
                        _ => None,
                    }
                }
            } else if f.len() < 1 {
                None
            } else {
                match find_node(nodes, f[0]) {
                    Some(j) => match node_value(nodes, g, nodes[j], (fuel - 1) as nat) {
                        Some(a) => unary_table(node.kind, a),
                        None => None,
                    },
                    None => None,
                }
            }
        },
    }
}

/// The value of node `i` of `nodes`, with at most `fuel` steps upstream.
pub open spec fn value_at(nodes: Seq<Node>, g: Map<u64, Seq<Adjacency>>, i: int, fuel: nat) -> Option<bool> {
    node_value(nodes, g, nodes[i], fuel)
}

/// The value of the node with identifier `id`, with as many steps as there are
/// nodes; by `lemma_enough_steps` no larger number changes it.
pub open spec fn value_of(nodes: Seq<Node>, g: Map<u64, Seq<Adjacency>>, id: u64) -> Option<bool> {
    match find_node(nodes, id) {
        Some(i) => value_at(nodes, g, i, nodes.len()),
        None => None,
    }
}

/// Node `i` takes an operand from node `j`: `j` is the node found for its
/// first feeder, or, for a two-input gate, for its second.
pub open spec fn reads(nodes: Seq<Node>, g: Map<u64, Seq<Adjacency>>, i: int, j: int) -> bool {
    let node = nodes[i];
    let f = feeders(list_of(g, node.id));
    &&& !(node.kind is Input)
    &&& {
        ||| f.len() >= 1 && find_node(nodes, f[0]) == Some(j)
        ||| is_binary(node.kind) && f.len() >= 2 && find_node(nodes, f[1]) == Some(j)
    }
}

/// Two node sequences that differ at most in what their `Display` nodes hold.
pub open spec fn same_but_displays(n1: Seq<Node>, n2: Seq<Node>) -> bool {
    &&& n1.len() == n2.len()
    &&& forall|i: int|
        0 <= i < n1.len() ==> {
            &&& #[trigger] n1[i].id == n2[i].id
            &&& (n1[i].kind == n2[i].kind || (n1[i].kind is Display && n2[i].kind is Display))
        }
}

proof fn lemma_find_from_bounds(nodes: Seq<Node>, id: u64, i: int)
    requires
        0 <= i,
    ensures
        match find_from(nodes, id, i) {
            Some(j) => i <= j < nodes.len() && nodes[j].id == id,
            None => forall|k: int| i <= k < nodes.len() ==> nodes[k].id != id,
        },
    decreases nodes.len() - i,
{
    if 0 <= i < nodes.len() && nodes[i].id != id {
        lemma_find_from_bounds(nodes, id, i + 1);
    }
}

proof fn lemma_find_same_ids(n1: Seq<Node>, n2: Seq<Node>, id: u64, i: int)
    requires
        same_but_displays(n1, n2),
    ensures
        find_from(n1, id, i) == find_from(n2, id, i),
    decreases n1.len() - i,
{
    if 0 <= i < n1.len() {
        assert(n1[i].id == n2[i].id);
        lemma_find_same_ids(n1, n2, id, i + 1);
    }
}

/// The node found for `id` has that identifier; where none is found, no
/// node has it.
pub proof fn lemma_find_bounds(nodes: Seq<Node>, id: u64)
    ensures
        match find_node(nodes, id) {
            Some(j) => 0 <= j < nodes.len() && nodes[j].id == id,
            None => forall|k: int| 0 <= k < nodes.len() ==> nodes[k].id != id,
        },
{
    lemma_find_from_bounds(nodes, id, 0);
}

/// The index of the first node with identifier `id`.
pub fn find_index(nodes: &Vec<Node>, id: u64) -> (r: Option<usize>)
    ensures
        match r {
            Some(j) => find_node(nodes@, id) == Some(j as int),
            None => find_node(nodes@, id) is None,
        },
{
    let mut k: usize = 0;
    while k < nodes.len()
        invariant
            k <= nodes.len(),
            find_node(nodes@, id) == find_from(nodes@, id, k as int),
        decreases nodes.len() - k,
    {
        if nodes[k].id == id {
            return Some(k);
        }
        k = k + 1;
    }
    None
}

/// The nodes that feed node `id`, in the order of its neighbour records.
pub fn feeders_of(graph: &DependencyGraph, id: u64) -> (r: Vec<u64>)
    ensures
        r@ == feeders(list_of(graph@, id)),
{
    let mut r: Vec<u64> = Vec::new();
    match graph.neighbors(id) {
        None => {
            assert(r@ =~= feeders(list_of(graph@, id)));
        },
        Some(list) => {
            let mut k: usize = 0;
            while k < list.len()
                invariant
                    k <= list.len(),
                    r@ == feeders(list@.subrange(0, k as int)),
                decreases list.len() - k,
            {
                proof {
                    assert(list@.subrange(0, k + 1).drop_last() =~= list@.subrange(0, k as int));
                }
                let (kind, n) = list[k];
                if kind == crate::gate::SocketKind::Input {
                    r.push(n);
                }
                k = k + 1;
            }
            assert(list@.subrange(0, list.len() as int) =~= list@);
        },
    }
    r
}

/// Node `n` after an evaluation found value `v` for it: a `Display` records a
/// defined value, every other node stays as it was.
pub open spec fn captured(n: Node, v: Option<bool>) -> Node {
    match (n.kind, v) {
        (NodeKind::Display(_), Some(b)) => Node { kind: NodeKind::Display(b), ..n },
        _ => n,
    }
}

/// `new` is `old` after evaluations with `fuel` steps: each node is as it was,
/// or has recorded its own value.
pub open spec fn records(old: Seq<Node>, new: Seq<Node>, g: Map<u64, Seq<Adjacency>>, fuel: nat) -> bool {
    &&& new.len() == old.len()
    &&& forall|j: int|
        0 <= j < old.len() ==> #[trigger] new[j] == old[j] || new[j] == captured(
            old[j],
            value_at(old, g, j, fuel),
        )
}

/// A defined value stays the same when more steps are allowed.
proof fn lemma_value_step(nodes: Seq<Node>, g: Map<u64, Seq<Adjacency>>, f: nat)
    ensures
        forall|j: int|
            0 <= j < nodes.len() && (#[trigger] value_at(nodes, g, j, f)) is Some ==> value_at(
                nodes,
                g,
                j,
                f + 1,
            ) == value_at(nodes, g, j, f),
    decreases f,
{
    if f > 0 {
        lemma_value_step(nodes, g, (f - 1) as nat);
    }
    assert forall|j: int|
        0 <= j < nodes.len() && (#[trigger] value_at(nodes, g, j, f)) is Some implies value_at(
            nodes,
            g,
            j,
            f + 1,
        ) == value_at(nodes, g, j, f) by {
        let node = nodes[j];
        let fs = feeders(list_of(g, node.id));
        if !(node.kind is Input) {
            assert(f > 0);
            let pf = (f - 1) as nat;
            if is_binary(node.kind) {
                assert(fs.len() >= 2);
                lemma_find_from_bounds(nodes, fs[0], 0);
                lemma_find_from_bounds(nodes, fs[1], 0);
                let ja = find_node(nodes, fs[0])->Some_0;
                let jb = find_node(nodes, fs[1])->Some_0;
                assert(value_at(nodes, g, ja, pf) is Some);
                assert(value_at(nodes, g, jb, pf) is Some);
                assert(value_at(nodes, g, ja, f) == value_at(nodes, g, ja, pf));
                assert(value_at(nodes, g, jb, f) == value_at(nodes, g, jb, pf));
            } else {
                assert(fs.len() >= 1);
                lemma_find_from_bounds(nodes, fs[0], 0);
                let ja = find_node(nodes, fs[0])->Some_0;
                assert(value_at(nodes, g, ja, pf) is Some);
                assert(value_at(nodes, g, ja, f) == value_at(nodes, g, ja, pf));
            }
        }
    }
}

/// A defined value stays the same however many more steps are allowed.
pub proof fn lemma_value_mono(nodes: Seq<Node>, g: Map<u64, Seq<Adjacency>>, j: int, f: nat, f2: nat)
    requires
        0 <= j < nodes.len(),
        f <= f2,
        value_at(nodes, g, j, f) is Some,
    ensures
        value_at(nodes, g, j, f2) == value_at(nodes, g, j, f),
    decreases f2 - f,
{
    if f < f2 {
        lemma_value_step(nodes, g, f);
        lemma_value_mono(nodes, g, j, f + 1, f2);
    }
}

/// Recording values changes no identifier and no kind but a display's payload.
pub proof fn lemma_records_same(old: Seq<Node>, new: Seq<Node>, g: Map<u64, Seq<Adjacency>>, f: nat)
    requires
        records(old, new, g, f),
    ensures
        same_but_displays(old, new),
{
    assert forall|j: int| 0 <= j < old.len() implies {
        &&& #[trigger] old[j].id == new[j].id
        &&& (old[j].kind == new[j].kind || (old[j].kind is Display && new[j].kind is Display))
    } by {
        assert(new[j] == old[j] || new[j] == captured(old[j], value_at(old, g, j, f)));
    }
}

proof fn lemma_records_lift(old: Seq<Node>, new: Seq<Node>, g: Map<u64, Seq<Adjacency>>, f: nat, f2: nat)
    requires
        records(old, new, g, f),
        f <= f2,
    ensures
        records(old, new, g, f2),
{
    assert forall|j: int| 0 <= j < old.len() implies #[trigger] new[j] == old[j] || new[j] == captured(
        old[j],
        value_at(old, g, j, f2),
    ) by {
        if value_at(old, g, j, f) is Some {
            lemma_value_mono(old, g, j, f, f2);
        }
    }
}

/// Two rounds of recording values are one.
pub proof fn lemma_records_trans(
    old: Seq<Node>,
    mid: Seq<Node>,
    new: Seq<Node>,
    g: Map<u64, Seq<Adjacency>>,
    f: nat,
)
    requires
        records(old, mid, g, f),
        records(mid, new, g, f),
    ensures
        records(old, new, g, f),
{
    lemma_records_same(old, mid, g, f);
    assert forall|j: int| 0 <= j < old.len() implies #[trigger] new[j] == old[j] || new[j] == captured(
        old[j],
        value_at(old, g, j, f),
    ) by {
        lemma_displays_do_not_matter(old, mid, g, j, f);
        assert(mid[j] == old[j] || mid[j] == captured(old[j], value_at(old, g, j, f)));
        assert(new[j] == mid[j] || new[j] == captured(mid[j], value_at(mid, g, j, f)));
    }
}

/// Gives node `i` the kind `kind`, keeping its identifier and sockets.
pub(crate) fn set_kind(nodes: &mut Vec<Node>, i: usize, kind: NodeKind)
    requires
        i < old(nodes)@.len(),
    ensures
        final(nodes)@ == old(nodes)@.update(i as int, Node { kind, ..old(nodes)@[i as int] }),
{
    let mut node = nodes.remove(i);
    node.kind = kind;
    nodes.insert(i, node);
    assert(nodes@ =~= old(nodes)@.update(i as int, Node { kind, ..old(nodes)@[i as int] }));
}

/// The value of node `i`, with at most `fuel` steps upstream. Every `Display`
/// that the evaluation reaches with a defined value records it, node `i`
/// included; nothing else changes.
pub fn eval_at(nodes: &mut Vec<Node>, graph: &DependencyGraph, i: usize, fuel: usize) -> (r: Option<bool>)
    requires
        i < old(nodes)@.len(),
    ensures
        r == value_at(old(nodes)@, graph@, i as int, fuel as nat),
        records(old(nodes)@, final(nodes)@, graph@, fuel as nat),
        final(nodes)@[i as int] == captured(old(nodes)@[i as int], r),
    decreases fuel,
{
    let ghost n0 = nodes@;
    let ghost g = graph@;
    let kind = nodes[i].kind;
    let id = nodes[i].id;
    if let NodeKind::Input(v) = kind {
        return Some(v);
    }
    if fuel == 0 {
        return None;
    }
    let f = feeders_of(graph, id);
    let r = if kind.is_binary() {
        if f.len() < 2 {
            None
        } else {
            let ja = find_index(nodes, f[0]);
            let jb = find_index(nodes, f[1]);
            match (ja, jb) {
                (Some(ja), Some(jb)) => {
                    proof {
                        lemma_find_from_bounds(n0, f@[0], 0);
                        lemma_find_from_bounds(n0, f@[1], 0);
                    }
                    let a = eval_at(nodes, graph, ja, fuel - 1);
                    proof {
                        lemma_records_lift(n0, nodes@, g, (fuel - 1) as nat, fuel as nat);
                    }
                    match a {
                        None => None,
                        Some(a) => {
                            let ghost n1 = nodes@;
                            let b = eval_at(nodes, graph, jb, fuel - 1);
                            proof {
                                lemma_records_same(n0, n1, g, fuel as nat);
                                lemma_displays_do_not_matter(n0, n1, g, jb as int, (fuel - 1) as nat);
                                lemma_records_lift(n1, nodes@, g, (fuel - 1) as nat, fuel as nat);
                                lemma_records_trans(n0, n1, nodes@, g, fuel as nat);
                            }
                            match b {
                                None => None,
                                Some(b) => kind.apply_binary(a, b),
                            }
                        },
                    }
                },
                _ => None,
            }
        }
    } else if f.len() < 1 {
        None
    } else {
        match find_index(nodes, f[0]) {
            Some(j) => {
                proof {
                    lemma_find_from_bounds(n0, f@[0], 0);
                }
                let a = eval_at(nodes, graph, j, fuel - 1);
                proof {
                    lemma_records_lift(n0, nodes@, g, (fuel - 1) as nat, fuel as nat);
                }
                match a {
                    Some(a) => kind.apply_unary(a),
                    None => None,
                }
            },
            None => None,
        }
    };
    proof {
        assert(r == value_at(n0, g, i as int, fuel as nat));
        assert(nodes@[i as int] == n0[i as int] || nodes@[i as int] == captured(n0[i as int], r));
    }
    if let NodeKind::Display(_) = kind {
        if let Some(b) = r {
            let ghost before = nodes@;
            set_kind(nodes, i, NodeKind::Display(b));
            assert(records(n0, nodes@, g, fuel as nat)) by {
                assert forall|j: int| 0 <= j < n0.len() implies #[trigger] nodes@[j] == n0[j] || nodes@[j]
                    == captured(n0[j], value_at(n0, g, j, fuel as nat)) by {
                    if j != i {
                        assert(nodes@[j] == before[j]);
                    }
                }
            }
        }
    }
    r
}

impl Node {
    /// The value of node `i` of `nodes`, resolving the nodes that feed it
    /// through `graph`, with as many steps upstream as there are nodes; every
    /// `Display` reached with a defined value records it.
    pub fn eval(nodes: &mut Vec<Node>, graph: &DependencyGraph, i: usize) -> (r: Option<bool>)
        requires
            i < old(nodes)@.len(),
        ensures
            r == value_at(old(nodes)@, graph@, i as int, old(nodes)@.len()),
            records(old(nodes)@, final(nodes)@, graph@, old(nodes)@.len()),
            final(nodes)@[i as int] == captured(old(nodes)@[i as int], r),
    {
        let n = nodes.len();
        eval_at(nodes, graph, i, n)
    }
}

/// The value of the node with identifier `id`; `None` where no node has it,
/// or where its value is undefined. Every `Display` reached with a defined
/// value records it.
pub fn evaluate(nodes: &mut Vec<Node>, graph: &DependencyGraph, id: u64) -> (r: Option<bool>)
    ensures
        r == value_of(old(nodes)@, graph@, id),
        records(old(nodes)@, final(nodes)@, graph@, old(nodes)@.len()),
        match find_node(old(nodes)@, id) {
            Some(i) => final(nodes)@[i] == captured(old(nodes)@[i], r),
            None => final(nodes)@ == old(nodes)@,
        },
{
    match find_index(nodes, id) {
        Some(i) => {
            proof {
                lemma_find_from_bounds(nodes@, id, 0);
            }
            let n = nodes.len();
            eval_at(nodes, graph, i, n)
        },
        None => None,
    }
}

/// A gate into which fewer wires arrive than it has inputs is undefined,
/// never `false`, however far the evaluation may reach.
pub proof fn lemma_missing_input_undefined(nodes: Seq<Node>, edges: Seq<Edge>, i: int, fuel: nat)
    requires
        0 <= i < nodes.len(),
        sources_into(edges, nodes[i].id).len() < input_arity(nodes[i].kind),
    ensures
        value_at(nodes, graph_of(edges), i, fuel) is None,
{
    lemma_feeders_are_sources(edges, nodes[i].id);
}

proof fn lemma_cycle_at_fuel(nodes: Seq<Node>, g: Map<u64, Seq<Adjacency>>, c: Seq<int>, fuel: nat)
    requires
        c.len() >= 1,
        forall|k: int| 0 <= k < c.len() ==> 0 <= #[trigger] c[k] < nodes.len(),
        forall|k: int| 0 <= k < c.len() - 1 ==> #[trigger] reads(nodes, g, c[k], c[k + 1]),
        reads(nodes, g, c[c.len() - 1], c[0]),
    ensures
        forall|k: int| 0 <= k < c.len() ==> (#[trigger] value_at(nodes, g, c[k], fuel)) is None,
    decreases fuel,
{
    if fuel > 0 {
        lemma_cycle_at_fuel(nodes, g, c, (fuel - 1) as nat);
    }
    assert forall|k: int| 0 <= k < c.len() implies (#[trigger] value_at(nodes, g, c[k], fuel)) is None by {
        let next = if k == c.len() - 1 { c[0] } else { c[k + 1] };
        assert(reads(nodes, g, c[k], next));
        if fuel > 0 {
            assert(value_at(nodes, g, next, (fuel - 1) as nat) is None);
        }
    }
}

/// Every node of a cycle of operand reads is undefined, whatever the number
/// of steps: a gate fed by its own output, directly or around a longer loop,
/// is undefined rather than evaluated forever.
pub proof fn lemma_cycle_undefined(nodes: Seq<Node>, g: Map<u64, Seq<Adjacency>>, c: Seq<int>)
    requires
        c.len() >= 1,
        forall|k: int| 0 <= k < c.len() ==> 0 <= #[trigger] c[k] < nodes.len(),
        forall|k: int| 0 <= k < c.len() - 1 ==> #[trigger] reads(nodes, g, c[k], c[k + 1]),
        reads(nodes, g, c[c.len() - 1], c[0]),
    ensures
        forall|k: int, fuel: nat| 0 <= k < c.len() ==> (#[trigger] value_at(nodes, g, c[k], fuel)) is None,
{
    assert forall|k: int, fuel: nat| 0 <= k < c.len() implies (#[trigger] value_at(nodes, g, c[k], fuel)) is None by {
        lemma_cycle_at_fuel(nodes, g, c, fuel);
    }
}

/// A `Not` gate whose first feeding wire comes from its own output is
/// undefined, however far the evaluation may reach.
pub proof fn lemma_not_fed_by_itself(nodes: Seq<Node>, edges: Seq<Edge>, i: int, fuel: nat)
    requires
        0 <= i < nodes.len(),
        nodes[i].kind is Not,
        sources_into(edges, nodes[i].id).len() >= 1,
        find_node(nodes, sources_into(edges, nodes[i].id)[0]) == Some(i),
    ensures
        value_at(nodes, graph_of(edges), i, fuel) is None,
{
    lemma_feeders_are_sources(edges, nodes[i].id);
    let g = graph_of(edges);
    lemma_cycle_undefined(nodes, g, seq![i]);
    assert(seq![i][0] == i);
}

/// What the `Display` nodes hold never changes any value: a display passes its
/// input through and only records it.
pub proof fn lemma_displays_do_not_matter(
    n1: Seq<Node>,
    n2: Seq<Node>,
    g: Map<u64, Seq<Adjacency>>,
    i: int,
    fuel: nat,
)
    requires
        same_but_displays(n1, n2),
        0 <= i < n1.len(),
    ensures
        value_at(n1, g, i, fuel) == value_at(n2, g, i, fuel),
    decreases fuel,
{
    let f = feeders(list_of(g, n1[i].id));
    assert(n1[i].id == n2[i].id);
    if fuel > 0 && f.len() >= 1 {
        lemma_find_same_ids(n1, n2, f[0], 0);
        lemma_find_from_bounds(n1, f[0], 0);
        if let Some(j) = find_node(n1, f[0]) {
            lemma_displays_do_not_matter(n1, n2, g, j, (fuel - 1) as nat);
        }
        if f.len() >= 2 {
            lemma_find_same_ids(n1, n2, f[1], 0);
            lemma_find_from_bounds(n1, f[1], 0);
            if let Some(j) = find_node(n1, f[1]) {
                lemma_displays_do_not_matter(n1, n2, g, j, (fuel - 1) as nat);
            }
        }
    }
}

/// Changing what `Display` nodes hold changes the value of no node.
pub proof fn lemma_values_same_but_displays(n1: Seq<Node>, n2: Seq<Node>, g: Map<u64, Seq<Adjacency>>)
    requires
        same_but_displays(n1, n2),
    ensures
        forall|x: u64| #[trigger] value_of(n2, g, x) == value_of(n1, g, x),
{
    assert forall|x: u64| #[trigger] value_of(n2, g, x) == value_of(n1, g, x) by {
        lemma_find_same_ids(n1, n2, x, 0);
        lemma_find_from_bounds(n1, x, 0);
        if let Some(i) = find_node(n1, x) {
            lemma_displays_do_not_matter(n1, n2, g, i, n1.len());
        }
    }
}

/// One more step changes the value of no node.
pub open spec fn settled(nodes: Seq<Node>, g: Map<u64, Seq<Adjacency>>, f: nat) -> bool {
    forall|j: int| 0 <= j < nodes.len() ==> #[trigger] value_at(nodes, g, j, f + 1) == value_at(nodes, g, j, f)
}

/// How many of the first `k` nodes are defined with `f` steps.
pub open spec fn defined_count(nodes: Seq<Node>, g: Map<u64, Seq<Adjacency>>, f: nat, k: int) -> nat
    decreases k,
{
    if k <= 0 {
        0
    } else {
        defined_count(nodes, g, f, k - 1) + if value_at(nodes, g, k - 1, f) is Some {
            1nat
        } else {
            0nat
        }
    }
}

proof fn lemma_settled_next(nodes: Seq<Node>, g: Map<u64, Seq<Adjacency>>, f: nat)
    requires
        settled(nodes, g, f),
    ensures
        settled(nodes, g, f + 1),
{
    assert forall|j: int| 0 <= j < nodes.len() implies #[trigger] value_at(nodes, g, j, f + 2)
        == value_at(nodes, g, j, f + 1) by {
        let node = nodes[j];
        let fs = feeders(list_of(g, node.id));
        if fs.len() >= 1 {
            lemma_find_from_bounds(nodes, fs[0], 0);
            if let Some(ja) = find_node(nodes, fs[0]) {
                assert(value_at(nodes, g, ja, f + 1) == value_at(nodes, g, ja, f));
            }
        }
        if fs.len() >= 2 {
            lemma_find_from_bounds(nodes, fs[1], 0);
            if let Some(jb) = find_node(nodes, fs[1]) {
                assert(value_at(nodes, g, jb, f + 1) == value_at(nodes, g, jb, f));
            }
        }
    }
}

proof fn lemma_settled_from(nodes: Seq<Node>, g: Map<u64, Seq<Adjacency>>, f: nat, k: nat)
    requires
        settled(nodes, g, f),
    ensures
        settled(nodes, g, f + k),
        forall|j: int| 0 <= j < nodes.len() ==> #[trigger] value_at(nodes, g, j, f + k) == value_at(nodes, g, j, f),
    decreases k,
{
    if k > 0 {
        lemma_settled_from(nodes, g, f, (k - 1) as nat);
        lemma_settled_next(nodes, g, (f + k - 1) as nat);
        assert forall|j: int| 0 <= j < nodes.len() implies #[trigger] value_at(nodes, g, j, f + k) == value_at(
            nodes,
            g,
            j,
            f,
        ) by {
            assert(value_at(nodes, g, j, (f + k - 1) as nat) == value_at(nodes, g, j, f));
            assert(value_at(nodes, g, j, ((f + k - 1) as nat + 1) as nat) == value_at(nodes, g, j, (f + k - 1) as nat));
        }
    }
}

proof fn lemma_count_bound(nodes: Seq<Node>, g: Map<u64, Seq<Adjacency>>, f: nat, k: int)
    requires
        0 <= k,
    ensures
        defined_count(nodes, g, f, k) <= k,
    decreases k,
{
    if k > 0 {
        lemma_count_bound(nodes, g, f, k - 1);
    }
}

proof fn lemma_count_zero(nodes: Seq<Node>, g: Map<u64, Seq<Adjacency>>, f: nat, k: int)
    requires
        0 <= k,
        defined_count(nodes, g, f, k) == 0,
    ensures
        forall|j: int| 0 <= j < k ==> (#[trigger] value_at(nodes, g, j, f)) is None,
    decreases k,
{
    if k > 0 {
        lemma_count_zero(nodes, g, f, k - 1);
    }
}

proof fn lemma_count_grows(nodes: Seq<Node>, g: Map<u64, Seq<Adjacency>>, f: nat, k: int, j0: int)
    requires
        0 <= k <= nodes.len(),
    ensures
        defined_count(nodes, g, f + 1, k) >= defined_count(nodes, g, f, k),
        0 <= j0 < k && value_at(nodes, g, j0, f) is None && value_at(nodes, g, j0, f + 1) is Some
            ==> defined_count(nodes, g, f + 1, k) >= defined_count(nodes, g, f, k) + 1,
    decreases k,
{
    if k > 0 {
        lemma_count_grows(nodes, g, f, k - 1, j0);
        lemma_value_step(nodes, g, f);
        if value_at(nodes, g, k - 1, f) is Some {
            assert(value_at(nodes, g, k - 1, f + 1) is Some);
        }
    }
}

proof fn lemma_settled_zero(nodes: Seq<Node>, g: Map<u64, Seq<Adjacency>>)
    requires
        forall|j: int| 0 <= j < nodes.len() ==> (#[trigger] value_at(nodes, g, j, 0)) is None,
    ensures
        settled(nodes, g, 0),
{
    assert forall|j: int| 0 <= j < nodes.len() implies #[trigger] value_at(nodes, g, j, 0 + 1) == value_at(
        nodes,
        g,
        j,
        0,
    ) by {
        assert(value_at(nodes, g, j, 0) is None);
        let fs = feeders(list_of(g, nodes[j].id));
        if fs.len() >= 1 {
            lemma_find_from_bounds(nodes, fs[0], 0);
            if let Some(ja) = find_node(nodes, fs[0]) {
                assert(value_at(nodes, g, ja, 0) is None);
            }
        }
    }
}

proof fn lemma_growth(nodes: Seq<Node>, g: Map<u64, Seq<Adjacency>>, f: nat)
    requires
        nodes.len() >= 1,
        !settled(nodes, g, (nodes.len() - 1) as nat),
        f <= nodes.len(),
    ensures
        defined_count(nodes, g, f, nodes.len() as int) >= defined_count(nodes, g, 0, nodes.len() as int) + f,
    decreases f,
{
    if f > 0 {
        let p = (f - 1) as nat;
        lemma_growth(nodes, g, p);
        if settled(nodes, g, p) {
            lemma_settled_from(nodes, g, p, (nodes.len() - 1 - p) as nat);
        }
        let j0 = choose|j0: int| 0 <= j0 < nodes.len() && #[trigger] value_at(nodes, g, j0, p + 1) != value_at(nodes, g, j0, p);
        lemma_value_step(nodes, g, p);
        lemma_count_grows(nodes, g, p, nodes.len() as int, j0);
    }
}

/// As many steps as there are nodes, less one, give every node its final
/// value: a path of reads without a cycle visits each node at most once.
pub proof fn lemma_enough_steps(nodes: Seq<Node>, g: Map<u64, Seq<Adjacency>>, i: int, f: nat)
    requires
        0 <= i < nodes.len(),
        f >= nodes.len() - 1,
    ensures
        value_at(nodes, g, i, f) == value_at(nodes, g, i, nodes.len()),
{
    let m = (nodes.len() - 1) as nat;
    if !settled(nodes, g, m) {
        lemma_growth(nodes, g, nodes.len());
        lemma_count_bound(nodes, g, nodes.len(), nodes.len() as int);
        lemma_count_zero(nodes, g, 0, nodes.len() as int);
        lemma_settled_zero(nodes, g);
        lemma_settled_from(nodes, g, 0, m);
    }
    lemma_settled_from(nodes, g, m, (f - m) as nat);
    lemma_settled_from(nodes, g, m, 1);
}

/// A `Not` gate whose first feeding node has a value gives its negation.
pub proof fn lemma_not_of_feeder(nodes: Seq<Node>, g: Map<u64, Seq<Adjacency>>, i: int, j: int, v: bool)
    requires
        0 <= i < nodes.len(),
        nodes[i].kind is Not,
        feeders(list_of(g, nodes[i].id)).len() >= 1,
        find_node(nodes, feeders(list_of(g, nodes[i].id))[0]) == Some(j),
        value_at(nodes, g, j, nodes.len()) == Some(v),
    ensures
        value_at(nodes, g, i, nodes.len()) == Some(!v),
{
    lemma_find_from_bounds(nodes, feeders(list_of(g, nodes[i].id))[0], 0);
    lemma_enough_steps(nodes, g, j, (nodes.len() - 1) as nat);
}

/// A two-input gate whose first two feeding nodes have values applies its
/// truth table to them, in that order.
pub proof fn lemma_binary_of_feeders(
    nodes: Seq<Node>,
    g: Map<u64, Seq<Adjacency>>,
    i: int,
    ja: int,
    jb: int,
    a: bool,
    b: bool,
)
    requires
        0 <= i < nodes.len(),
        is_binary(nodes[i].kind),
        feeders(list_of(g, nodes[i].id)).len() >= 2,
        find_node(nodes, feeders(list_of(g, nodes[i].id))[0]) == Some(ja),
        find_node(nodes, feeders(list_of(g, nodes[i].id))[1]) == Some(jb),
        value_at(nodes, g, ja, nodes.len()) == Some(a),
        value_at(nodes, g, jb, nodes.len()) == Some(b),
    ensures
        value_at(nodes, g, i, nodes.len()) == binary_table(nodes[i].kind, a, b),
{
    let fs = feeders(list_of(g, nodes[i].id));
    lemma_find_from_bounds(nodes, fs[0], 0);
    lemma_find_from_bounds(nodes, fs[1], 0);
    lemma_enough_steps(nodes, g, ja, (nodes.len() - 1) as nat);
    lemma_enough_steps(nodes, g, jb, (nodes.len() - 1) as nat);
}

} // verus!
