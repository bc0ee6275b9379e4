use vstd::prelude::*;

verus! {

/// The direction of a socket: an input receives a value, an output provides one.
#[derive(Debug, Clone, Copy, PartialEq, Eq, Structural)]
pub enum SocketKind {
    Input,
    Output,
}

/// The kind of a gate. `Input` holds its toggle state and `Display` the last
/// value that it observed.
#[derive(Debug, Clone, Copy, PartialEq, Eq, Structural)]
pub enum NodeKind {
    NAnd,
    And,
    Or,
    XOr,
    Not,
    Input(bool),
    Display(bool),
}

/// Number of input sockets of a gate of kind `k`.
pub open spec fn input_arity(k: NodeKind) -> nat {
    match k {
        NodeKind::Input(_) => 0,
        NodeKind::Not | NodeKind::Display(_) => 1,
        _ => 2,
    }
}

/// Number of output sockets of a gate of kind `k`.
pub open spec fn output_arity(k: NodeKind) -> nat {
    1
}

/// Whether `k` is one of the four two-input gates.
pub open spec fn is_binary(k: NodeKind) -> bool {
    match k {
        NodeKind::NAnd | NodeKind::And | NodeKind::Or | NodeKind::XOr => true,
        _ => false,
    }
}

/// The truth table of a two-input gate; `None` for the other kinds.
pub open spec fn binary_table(k: NodeKind, a: bool, b: bool) -> Option<bool> {
    match k {
        NodeKind::NAnd => Some(!(a && b)),
        NodeKind::And => Some(a && b),
        NodeKind::Or => Some(a || b),
        NodeKind::XOr => Some(a != b),
        _ => None,
    }
}

/// The transfer function of a one-input gate; `None` for the other kinds.
pub open spec fn unary_table(k: NodeKind, a: bool) -> Option<bool> {
    match k {
        NodeKind::Not => Some(!a),
        NodeKind::Display(_) => Some(a),
        _ => None,
    }
}

/// The label shown for a gate of kind `k`.
pub open spec fn label_of(k: NodeKind) -> Seq<char> {
    match k {
        NodeKind::NAnd => "NAND"@,
        NodeKind::And => "AND"@,
        NodeKind::Or => "OR"@,
        NodeKind::XOr => "XOR"@,
        NodeKind::Not => "NOT"@,
        NodeKind::Input(_) => "INPUT"@,
        NodeKind::Display(_) => "DISPLAY"@,
    }
}

impl NodeKind {
    /// Every kind that can be placed, in menu order, with payloads cleared.
    pub fn list() -> (r: [NodeKind; 7])
        ensures
            r@ == seq![
                NodeKind::Input(false),
                NodeKind::Display(false),
                NodeKind::NAnd,
                NodeKind::And,
                NodeKind::Not,
                NodeKind::Or,
                NodeKind::XOr,
            ],
    {
        let r = [
            NodeKind::Input(false),
            NodeKind::Display(false),
            NodeKind::NAnd,
            NodeKind::And,
            NodeKind::Not,
            NodeKind::Or,
            NodeKind::XOr,
        ];
        assert(r@ =~= seq![
            NodeKind::Input(false),
            NodeKind::Display(false),
            NodeKind::NAnd,
            NodeKind::And,
            NodeKind::Not,
            NodeKind::Or,
            NodeKind::XOr,
        ]);
        r
    }

    /// Applies a two-input gate; not applicable (`None`) to the other kinds.
    pub fn apply_binary(&self, a: bool, b: bool) -> (r: Option<bool>)
        ensures
            r == binary_table(*self, a, b),
    {
        match self {
            NodeKind::NAnd => Some(!(a && b)),
            NodeKind::And => Some(a && b),
            NodeKind::Or => Some(a || b),
            NodeKind::XOr => Some(a != b),
            _ => None,
        }
    }

    /// Applies a one-input gate: `Not` negates, `Display` passes the value
    /// through; not applicable (`None`) to the other kinds.
    pub fn apply_unary(&self, a: bool) -> (r: Option<bool>)
        ensures
            r == unary_table(*self, a),
    {
        match self {
            NodeKind::Not => Some(!a),
            NodeKind::Display(_) => Some(a),
            _ => None,
        }
    }

    /// Number of input sockets of this kind.
    pub fn inputs(&self) -> (r: usize)
        ensures
            r == input_arity(*self),
    {
        match self {
            NodeKind::Input(_) => 0,
            NodeKind::Not | NodeKind::Display(_) => 1,
            NodeKind::NAnd | NodeKind::And | NodeKind::Or | NodeKind::XOr => 2,
        }
    }

    /// Number of output sockets of this kind.
    pub fn outputs(&self) -> (r: usize)
        ensures
            r == output_arity(*self),
    {
        match self {
            NodeKind::Display(_) => 1,
            NodeKind::Not
            | NodeKind::Input(_)
            | NodeKind::NAnd
            | NodeKind::And
            | NodeKind::Or
            | NodeKind::XOr => 1,
        }
    }

    /// Whether this is one of the four two-input gates.
    pub fn is_binary(&self) -> (r: bool)
        ensures
            r == is_binary(*self),
    {
        match self {
            NodeKind::NAnd | NodeKind::And | NodeKind::Or | NodeKind::XOr => true,
            _ => false,
        }
    }

    /// The label shown for this kind.
    pub fn label(&self) -> (r: &'static str)
        ensures
            r@ == label_of(*self),
    {
        proof {
            reveal_strlit("NAND");
            reveal_strlit("AND");
            reveal_strlit("OR");
            reveal_strlit("XOR");
            reveal_strlit("NOT");
            reveal_strlit("INPUT");
            reveal_strlit("DISPLAY");
        }
        match self {
            NodeKind::NAnd => "NAND",
            NodeKind::And => "AND",
            NodeKind::Or => "OR",
            NodeKind::XOr => "XOR",
            NodeKind::Not => "NOT",
            NodeKind::Input(_) => "INPUT",
            NodeKind::Display(_) => "DISPLAY",
        }
    }
}

/// Each kind has the input and output counts of its gate: none in and one out
/// for `Input`, one in and one out for `Not` and `Display`, two in and one out
/// for the two-input gates.
pub proof fn lemma_arity_table(k: NodeKind)
    ensures
        output_arity(k) == 1,
        k is Input ==> input_arity(k) == 0,
        (k is Not || k is Display) ==> input_arity(k) == 1,
        is_binary(k) ==> input_arity(k) == 2,
{
}

/// The gates compute the boolean operations of their names on every
/// combination of operands.
pub proof fn lemma_truth_tables(a: bool, b: bool)
    ensures
        binary_table(NodeKind::NAnd, a, b) == Some(!(a && b)),
        binary_table(NodeKind::And, a, b) == Some(a && b),
        binary_table(NodeKind::Or, a, b) == Some(a || b),
        binary_table(NodeKind::XOr, a, b) == Some((a && !b) || (!a && b)),
        unary_table(NodeKind::Not, a) == Some(!a),
{
}

} // verus!
