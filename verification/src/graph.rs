//! Model of the target IR's hierarchical graph.
//!
//! A graph is a vector of nodes - each with an optional parent and an
//! operation - plus data edges between ports and explicit ordering edges
//! between nodes. Node identifiers are indices assigned at creation time;
//! a child is always created after its parent, so parent indices decrease
//! strictly along any ancestor chain.

use vstd::prelude::*;
use crate::extension::JeffOp;
use crate::types::{HugrType, Signature};

verus! {

/// Identifier of a node in the target graph, assigned at creation time.
pub type NodeId = usize;

/// A data edge between two ports.
#[derive(Clone, Copy, Debug, PartialEq, Eq, Structural)]
pub struct Edge {
    /// The producing node.
    pub src: NodeId,
    /// The producing node's outgoing port.
    pub src_port: usize,
    /// The consuming node.
    pub dst: NodeId,
    /// The consuming node's incoming port.
    pub dst_port: usize,
}

/// An explicit ordering edge between two sibling nodes.
#[derive(Clone, Copy, Debug, PartialEq, Eq, Structural)]
pub struct OrderEdge {
    /// The node that must run first.
    pub src: NodeId,
    /// The node that must run after it.
    pub dst: NodeId,
}

/// The native quantum operations of the target vocabulary.
#[derive(Clone, Copy, Debug, PartialEq, Eq, Structural)]
pub enum TketGate {
    /// Hadamard.
    H,
    /// Pauli X.
    X,
    /// Pauli Y.
    Y,
    /// Pauli Z.
    Z,
    /// Controlled X.
    CX,
    /// Controlled Y.
    CY,
    /// Controlled Z.
    CZ,
    /// Quarter turn about Z.
    S,
    /// Adjoint quarter turn about Z.
    Sdg,
    /// Eighth turn about Z.
    T,
    /// Adjoint eighth turn about Z.
    Tdg,
    /// Parametric rotation about X.
    Rx,
    /// Parametric rotation about Y.
    Ry,
    /// Parametric rotation about Z.
    Rz,
    /// Allocate a qubit.
    QAlloc,
    /// Free a qubit.
    QFree,
    /// Measure a qubit without consuming it.
    Measure,
    /// Measure a qubit, consuming it.
    MeasureFree,
    /// Reset a qubit.
    Reset,
}

/// The floating-point operations of the target vocabulary.
#[derive(Clone, Copy, Debug, PartialEq, Eq, Structural)]
pub enum FloatNodeOp {
    /// Addition.
    Fadd,
    /// Subtraction.
    Fsub,
    /// Multiplication.
    Fmul,
    /// Division.
    Fdiv,
    /// Exponentiation.
    Fpow,
    /// Equality.
    Feq,
    /// Less-than.
    Flt,
    /// Less-than-or-equal.
    Fle,
    /// Absolute value.
    Fabs,
    /// Round up.
    Fceil,
    /// Round down.
    Ffloor,
    /// Maximum.
    Fmax,
    /// Minimum.
    Fmin,
}

/// The integer operations of the target vocabulary that the translation
/// emits.
#[derive(Clone, Copy, Debug, PartialEq, Eq, Structural)]
pub enum IntNodeOp {
    /// Signed less-than.
    IltS,
    /// Addition.
    Iadd,
}

/// A constant value loaded by a constant-loading node.
#[derive(Clone, Debug, PartialEq, Eq)]
pub enum ConstValue {
    /// A boolean.
    Bool(bool),
    /// An integer of width 2^log_width.
    Int {
        /// Base-two logarithm of the bit width.
        log_width: u8,
        /// The value, stored unsigned.
        value: u64,
    },
    /// A 64-bit float, stored as its raw bit pattern.
    F64 {
        /// The IEEE-754 bit pattern.
        bits: u64,
    },
    /// A constant integer array of the extension vocabulary.
    IntReg(crate::extension::ConstIntReg),
}

/// The operation carried by a node of the target graph.
#[derive(Clone, Debug, PartialEq, Eq)]
pub enum NodeOp {
    /// The module root.
    Module,
    /// A function definition; its children form the body region.
    FuncDefn {
        /// The function's name.
        name: String,
        /// The function's signature.
        signature: Signature,
    },
    /// A function declaration, with no body.
    FuncDecl {
        /// The function's name.
        name: String,
        /// The function's signature.
        signature: Signature,
    },
    /// The input boundary of a dataflow region.
    Input {
        /// The region's input types.
        types: Vec<HugrType>,
    },
    /// The output boundary of a dataflow region.
    Output {
        /// The region's output types.
        types: Vec<HugrType>,
    },
    /// A call to a function, wired to the function through a static port
    /// after the dataflow inputs.
    Call {
        /// The called function's signature.
        signature: Signature,
    },
    /// A nested dataflow region.
    Dfg {
        /// The region's signature.
        signature: Signature,
    },
    /// A structured conditional: one child case per sum row.
    Conditional {
        /// The rows of the discriminant sum, one per case.
        sum_rows: Vec<Vec<HugrType>>,
        /// The inputs after the discriminant.
        other_inputs: Vec<HugrType>,
        /// The output types.
        outputs: Vec<HugrType>,
    },
    /// One branch of a conditional.
    Case {
        /// The branch's signature.
        signature: Signature,
    },
    /// A tail-controlled loop: the body runs, then its first output - a sum
    /// over (continue-with, break-with) rows - decides whether to repeat.
    TailLoop {
        /// The types consumed again on every repeat.
        just_inputs: Vec<HugrType>,
        /// The types produced only on exit.
        just_outputs: Vec<HugrType>,
        /// The types threaded through unchanged.
        rest: Vec<HugrType>,
    },
    /// An injection into a sum type.
    Tag {
        /// The variant injected into.
        tag: usize,
        /// The rows of the sum.
        variants: Vec<Vec<HugrType>>,
    },
    /// A constant together with the node loading it.
    LoadValue {
        /// The constant value.
        value: ConstValue,
    },
    /// A native quantum operation.
    TketOp {
        /// The operation.
        op: TketGate,
    },
    /// An operation of the extension vocabulary.
    Extension {
        /// The operation.
        op: JeffOp,
    },
    /// A floating-point operation.
    FloatOp {
        /// The operation.
        op: FloatNodeOp,
    },
    /// An integer operation at a given width.
    IntOp {
        /// The operation.
        op: IntNodeOp,
        /// Base-two logarithm of the operand width.
        log_width: u8,
    },
    /// Conversion from a half-turn count to the rotation type.
    RotationFromHalfTurns,
}

/// Whether `a` stands on the parent chain of `n` (or is `n` itself) in
/// the given node table.
pub open spec fn ancestor_in(nodes: Seq<NodeData>, a: int, n: int) -> bool
    decreases n,
{
    if a == n {
        true
    } else if 0 <= n < nodes.len() {
        match nodes[n].parent {
            Some(p) => if p < n {
                ancestor_in(nodes, a, p as int)
            } else {
                false
            },
            None => false,
        }
    } else {
        false
    }
}

/// A node: its parent in the hierarchy (none for a root) and its operation.
#[derive(Clone, Debug, PartialEq, Eq)]
pub struct NodeData {
    /// The parent node, if any.
    pub parent: Option<NodeId>,
    /// The node's operation.
    pub op: NodeOp,
}

/// The target graph under construction.
#[derive(Clone, Debug, PartialEq, Eq)]
pub struct Graph {
    /// The nodes; a node's identifier is its index.
    pub nodes: Vec<NodeData>,
    /// The data edges.
    pub edges: Vec<Edge>,
    /// The explicit ordering edges.
    pub order_edges: Vec<OrderEdge>,
}

/// The graph after a build step extends the graph before it: existing
/// nodes and edges are untouched, and every new node sits at or below the
/// step's container in creation order.
pub open spec fn graph_extended(g0: Graph, g1: Graph, container: NodeId) -> bool {
    &&& g0.nodes@.is_prefix_of(g1.nodes@)
    &&& g0.edges@.is_prefix_of(g1.edges@)
    &&& g0.order_edges@.is_prefix_of(g1.order_edges@)
    &&& forall|i: int|
        g0.nodes@.len() <= i < g1.nodes@.len() ==> (#[trigger] g1.nodes@[i]).parent is Some
            && g1.nodes@[i].parent->0 >= container
}

impl TketGate {
    /// The number of incoming dataflow ports of this operation's node.
    pub open spec fn spec_num_inputs(self) -> nat {
        match self {
            TketGate::CX | TketGate::CY | TketGate::CZ => 2,
            TketGate::Rx | TketGate::Ry | TketGate::Rz => 2,
            TketGate::QAlloc => 0,
            _ => 1,
        }
    }

    /// The number of outgoing dataflow ports of this operation's node.
    pub open spec fn spec_num_outputs(self) -> nat {
        match self {
            TketGate::CX | TketGate::CY | TketGate::CZ => 2,
            TketGate::QFree => 0,
            TketGate::Measure => 2,
            _ => 1,
        }
    }

    /// The number of incoming dataflow ports of this operation's node.
    pub fn num_inputs(&self) -> (r: usize)
        ensures
            r == self.spec_num_inputs(),
    {
        match self {
            TketGate::CX | TketGate::CY | TketGate::CZ => 2,
            TketGate::Rx | TketGate::Ry | TketGate::Rz => 2,
            TketGate::QAlloc => 0,
            _ => 1,
        }
    }

    /// The number of outgoing dataflow ports of this operation's node.
    pub fn num_outputs(&self) -> (r: usize)
        ensures
            r == self.spec_num_outputs(),
    {
        match self {
            TketGate::CX | TketGate::CY | TketGate::CZ => 2,
            TketGate::QFree => 0,
            TketGate::Measure => 2,
            _ => 1,
        }
    }
}

impl FloatNodeOp {
    /// The number of incoming dataflow ports of the operation's node.
    pub open spec fn spec_num_inputs(self) -> nat {
        match self {
            FloatNodeOp::Fabs | FloatNodeOp::Fceil | FloatNodeOp::Ffloor => 1,
            _ => 2,
        }
    }

    /// The number of incoming dataflow ports of the operation's node.
    pub fn num_inputs(&self) -> (r: usize)
        ensures
            r == self.spec_num_inputs(),
    {
        match self {
            FloatNodeOp::Fabs | FloatNodeOp::Fceil | FloatNodeOp::Ffloor => 1,
            _ => 2,
        }
    }
}

impl Graph {
    /// Parents point strictly backwards and edges stay inside the node
    /// table.
    pub open spec fn wf(self) -> bool {
        &&& (forall|i: int|
            0 <= i < self.nodes@.len() ==> (#[trigger] self.nodes@[i].parent is Some
                ==> self.nodes@[i].parent->0 < i))
        &&& (forall|i: int|
            0 <= i < self.edges@.len() ==> #[trigger] self.edges@[i].src < self.nodes@.len()
                && self.edges@[i].dst < self.nodes@.len())
        &&& (forall|i: int|
            0 <= i < self.order_edges@.len() ==> #[trigger] self.order_edges@[i].src
                < self.nodes@.len() && self.order_edges@[i].dst < self.nodes@.len())
    }

    /// An empty graph.
    pub fn new() -> (g: Graph)
        ensures
            g.wf(),
            g.nodes@ == Seq::<NodeData>::empty(),
            g.edges@ == Seq::<Edge>::empty(),
            g.order_edges@ == Seq::<OrderEdge>::empty(),
    {
        let g = Graph { nodes: Vec::new(), edges: Vec::new(), order_edges: Vec::new() };
        proof {
            assert(g.nodes@ =~= Seq::<NodeData>::empty());
            assert(g.edges@ =~= Seq::<Edge>::empty());
            assert(g.order_edges@ =~= Seq::<OrderEdge>::empty());
        }
        g
    }

    /// Add a root node, with no parent.
    pub fn add_root(&mut self, op: NodeOp) -> (n: NodeId)
        ensures
            n == old(self).nodes@.len(),
            (*final(self)).nodes@ == old(self).nodes@.push(NodeData { parent: None, op }),
            (*final(self)).edges@ == old(self).edges@,
            (*final(self)).order_edges@ == old(self).order_edges@,
            old(self).wf() ==> (*final(self)).wf(),
    {
        let n = self.nodes.len();
        self.nodes.push(NodeData { parent: None, op });
        n
    }

    /// Add a node under the given parent.
    pub fn add_node(&mut self, parent: NodeId, op: NodeOp) -> (n: NodeId)
        requires
            parent < old(self).nodes@.len(),
        ensures
            n == old(self).nodes@.len(),
            (*final(self)).nodes@ == old(self).nodes@.push(
                NodeData { parent: Some(parent), op },
            ),
            (*final(self)).edges@ == old(self).edges@,
            (*final(self)).order_edges@ == old(self).order_edges@,
            old(self).wf() ==> (*final(self)).wf(),
            graph_extended(*old(self), *final(self), parent),
    {
        let n = self.nodes.len();
        self.nodes.push(NodeData { parent: Some(parent), op });
        proof {
            assert((*self).nodes@.subrange(0, old(self).nodes@.len() as int) =~= old(
                self,
            ).nodes@);
            assert((*self).edges@.subrange(0, old(self).edges@.len() as int) =~= old(
                self,
            ).edges@);
            assert((*self).order_edges@.subrange(0, old(self).order_edges@.len() as int) =~= old(
                self,
            ).order_edges@);
        }
        n
    }

    /// Add a data edge between two ports.
    pub fn connect(&mut self, src: NodeId, src_port: usize, dst: NodeId, dst_port: usize)
        requires
            src < old(self).nodes@.len(),
            dst < old(self).nodes@.len(),
        ensures
            (*final(self)).nodes@ == old(self).nodes@,
            (*final(self)).edges@ == old(self).edges@.push(Edge { src, src_port, dst, dst_port }),
            (*final(self)).order_edges@ == old(self).order_edges@,
            old(self).wf() ==> (*final(self)).wf(),
            forall|c: NodeId| #[trigger] graph_extended(*old(self), *final(self), c),
    {
        self.edges.push(Edge { src, src_port, dst, dst_port });
        proof {
            assert forall|c: NodeId| #[trigger] graph_extended(*old(self), *self, c) by {
                assert((*self).nodes@.subrange(0, old(self).nodes@.len() as int) =~= old(
                    self,
                ).nodes@);
                assert((*self).edges@.subrange(0, old(self).edges@.len() as int) =~= old(
                    self,
                ).edges@);
                assert((*self).order_edges@.subrange(
                    0,
                    old(self).order_edges@.len() as int,
                ) =~= old(self).order_edges@);
            }
        }
    }

    /// Add an explicit ordering edge between two nodes.
    pub fn add_order_edge(&mut self, src: NodeId, dst: NodeId)
        requires
            src < old(self).nodes@.len(),
            dst < old(self).nodes@.len(),
        ensures
            (*final(self)).nodes@ == old(self).nodes@,
            (*final(self)).edges@ == old(self).edges@,
            (*final(self)).order_edges@ == old(self).order_edges@.push(OrderEdge { src, dst }),
            old(self).wf() ==> (*final(self)).wf(),
            forall|c: NodeId| #[trigger] graph_extended(*old(self), *final(self), c),
    {
        self.order_edges.push(OrderEdge { src, dst });
        proof {
            assert forall|c: NodeId| #[trigger] graph_extended(*old(self), *self, c) by {
                assert((*self).nodes@.subrange(0, old(self).nodes@.len() as int) =~= old(
                    self,
                ).nodes@);
                assert((*self).edges@.subrange(0, old(self).edges@.len() as int) =~= old(
                    self,
                ).edges@);
                assert((*self).order_edges@.subrange(
                    0,
                    old(self).order_edges@.len() as int,
                ) =~= old(self).order_edges@);
            }
        }
    }

    /// The parent of a node.
    pub fn parent_of(&self, n: NodeId) -> (r: Option<NodeId>)
        requires
            n < self.nodes@.len(),
        ensures
            r == self.nodes@[n as int].parent,
    {
        self.nodes[n].parent
    }

    /// Whether `a` stands on the parent chain of `n` (or is `n` itself).
    pub open spec fn is_ancestor_of(self, a: int, n: int) -> bool {
        ancestor_in(self.nodes@, a, n)
    }

    /// Stepping from an ancestor to its own parent stays on the chain.
    pub proof fn lemma_ancestor_parent(self, a: int, n: int, p: NodeId)
        requires
            self.wf(),
            0 <= a < self.nodes@.len(),
            0 <= n < self.nodes@.len(),
            self.is_ancestor_of(a, n),
            self.nodes@[a].parent == Some(p),
        ensures
            self.is_ancestor_of(p as int, n),
        decreases n,
    {
        if a == n {
            assert(p < a);
            assert(self.is_ancestor_of(p as int, p as int));
        } else {
            let q = self.nodes@[n].parent->0;
            self.lemma_ancestor_parent(a, q as int, p);
        }
    }

    /// Walk the two parent chains up to the closest pair of ancestors that
    /// share a parent scope.
    ///
    /// Returns ancestors `x` of `src` and `y` of `dst` with one common
    /// parent, or nothing when the chains end in different roots. When one
    /// node's scope encloses the other's, the enclosing side's
    /// representative is the enclosing node itself.
    pub fn sibling_ancestors(&self, src: NodeId, dst: NodeId) -> (r: Option<(NodeId, NodeId)>)
        requires
            self.wf(),
            src < self.nodes@.len(),
            dst < self.nodes@.len(),
        ensures
            r matches Some((x, y)) ==> x < self.nodes@.len() && y < self.nodes@.len()
                && self.is_ancestor_of(x as int, src as int) && self.is_ancestor_of(
                y as int,
                dst as int,
            ) && self.nodes@[x as int].parent == self.nodes@[y as int].parent,
    {
        let mut x = src;
        let mut y = dst;
        loop
            invariant
                self.wf(),
                x < self.nodes@.len(),
                y < self.nodes@.len(),
                self.is_ancestor_of(x as int, src as int),
                self.is_ancestor_of(y as int, dst as int),
            decreases x + y,
        {
            let px = self.nodes[x].parent;
            let py = self.nodes[y].parent;
            let same = match (px, py) {
                (Some(a), Some(b)) => a == b,
                (None, None) => true,
                _ => false,
            };
            if same {
                return Some((x, y));
            }
            if x > y {
                match px {
                    Some(p) => {
                        proof {
                            self.lemma_ancestor_parent(x as int, src as int, p);
                        }
                        x = p;
                    },
                    None => {
                        return None;
                    },
                }
            } else {
                match py {
                    Some(p) => {
                        proof {
                            self.lemma_ancestor_parent(y as int, dst as int, p);
                        }
                        y = p;
                    },
                    None => {
                        return None;
                    },
                }
            }
        }
    }
}


} // verus!
