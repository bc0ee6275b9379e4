use vstd::prelude::*;
use crate::gate::{NodeKind, SocketKind, input_arity, output_arity};
use crate::ids::IdAllocator;

verus! {

/// One connection point of a node.
#[derive(Debug, Clone, Copy, PartialEq, Eq, Structural)]
pub struct Socket {
    pub id: u64,
    pub kind: SocketKind,
}

/// Names one socket: the node that owns it and the socket's own identifier.
#[derive(Debug, Clone, Copy, PartialEq, Eq, Structural)]
pub struct SocketRef {
    pub node_id: u64,
    pub socket_id: u64,
}

/// A directed wire from an output socket to an input socket.
#[derive(Debug, Clone, Copy, PartialEq, Eq, Structural)]
pub struct Edge {
    pub from: SocketRef,
    pub to: SocketRef,
}

/// One gate of the circuit, with the sockets that its kind calls for.
#[derive(Debug, Clone)]
pub struct Node {
    pub id: u64,
    pub kind: NodeKind,
    pub inputs: Vec<Socket>,
    pub outputs: Vec<Socket>,
}

/// `s` holds `count` sockets of kind `kind`, numbered upward from `first`.
pub open spec fn numbered_sockets(s: Seq<Socket>, first: nat, count: nat, kind: SocketKind) -> bool {
    &&& s.len() == count
    &&& forall|i: int| 0 <= i < s.len() ==> #[trigger] s[i] == (Socket { id: (first + i) as u64, kind })
}

/// How many identifiers a node of kind `k` takes: its own and one per socket.
pub open spec fn ids_needed(k: NodeKind) -> nat {
    1 + input_arity(k) + output_arity(k)
}

/// Makes `count` sockets of kind `kind` with fresh identifiers.
fn make_sockets(ids: &mut IdAllocator, count: usize, kind: SocketKind) -> (r: Vec<Socket>)
    requires
        old(ids).next_spec() + count <= u64::MAX,
    ensures
        numbered_sockets(r@, old(ids).next_spec(), count as nat, kind),
        final(ids).next_spec() == old(ids).next_spec() + count,
{
    let mut r: Vec<Socket> = Vec::new();
    let mut i: usize = 0;
    while i < count
        invariant
            i <= count,
            ids.next_spec() == old(ids).next_spec() + i,
            old(ids).next_spec() + count <= u64::MAX,
            numbered_sockets(r@, old(ids).next_spec(), i as nat, kind),
        decreases count - i,
    {
        let id = ids.fresh();
        r.push(Socket { id, kind });
        i = i + 1;
    }
    r
}

impl NodeKind {
    /// A node of this kind: its identifier first, then one per input socket,
    /// then one per output socket, all drawn from `ids`.
    pub fn build(&self, ids: &mut IdAllocator) -> (r: Node)
        requires
            old(ids).next_spec() + ids_needed(*self) <= u64::MAX,
        ensures
            r.id == old(ids).next_spec(),
            r.kind == *self,
            numbered_sockets(r.inputs@, old(ids).next_spec() + 1, input_arity(*self), SocketKind::Input),
            numbered_sockets(
                r.outputs@,
                old(ids).next_spec() + 1 + input_arity(*self),
                output_arity(*self),
                SocketKind::Output,
            ),
            final(ids).next_spec() == old(ids).next_spec() + ids_needed(*self),
    {
        let id = ids.fresh();
        let n_in = self.inputs();
        let n_out = self.outputs();
        let inputs = make_sockets(ids, n_in, SocketKind::Input);
        let outputs = make_sockets(ids, n_out, SocketKind::Output);
        Node { id, kind: *self, inputs, outputs }
    }
}

} // verus!
