//! The resolved dependency tree.

use vstd::prelude::*;

verus! {

/// How a module in the tree was concluded.
#[derive(Clone, Copy, PartialEq, Eq, Structural, Debug)]
pub enum NodeStatus {
    /// The module was located and its report was read.
    Resolved,
    /// The module could not be located anywhere; shown as an empty leaf.
    NotFound,
    /// The module was located, but the analysis utility could not be run
    /// on it or its output could not be decoded.
    ReportUnavailable,
}

/// One module in the resolved dependency tree.
pub struct DependencyNode {
    /// Bare module filename.
    pub name: String,
    /// Absolute path; present iff resolution succeeded.
    pub location: Option<String>,
    /// What became of this module.
    pub status: NodeStatus,
    /// Exclusively-owned children, in the order the analysis utility
    /// reported them.
    pub children: Vec<DependencyNode>,
}

/// Mathematical model of one tree node.
#[verifier::ext_equal]
pub struct NodeModel {
    pub name: Seq<char>,
    pub location: Option<Seq<char>>,
    pub status: NodeStatus,
    pub children: Seq<NodeModel>,
}

pub open spec fn opt_str_view(o: Option<String>) -> Option<Seq<char>> {
    match o {
        Option::Some(s) => Option::Some(s@),
        Option::None => Option::None,
    }
}

/// Model of a node, children modelled recursively.
pub open spec fn node_model(n: DependencyNode) -> NodeModel
    decreases n,
{
    NodeModel {
        name: n.name@,
        location: opt_str_view(n.location),
        status: n.status,
        children: nodes_model(n.children@),
    }
}

/// Models of a sequence of nodes, in order.
pub open spec fn nodes_model(ns: Seq<DependencyNode>) -> Seq<NodeModel>
    decreases ns,
{
    if ns.len() == 0 {
        Seq::empty()
    } else {
        nodes_model(ns.drop_last()).push(node_model(ns.last()))
    }
}

impl View for DependencyNode {
    type V = NodeModel;

    open spec fn view(&self) -> NodeModel {
        node_model(*self)
    }
}

impl NodeModel {
    /// Structural invariant: a node has a location exactly when it
    /// resolved, and a node that did not fully resolve is a leaf.
    pub open spec fn wf(self) -> bool
        decreases self,
    {
        &&& (self.location is None <==> self.status is NotFound)
        &&& (!(self.status is Resolved) ==> self.children.len() == 0)
        &&& forall|i: int|
            0 <= i < self.children.len() ==> (#[trigger] self.children[i]).wf()
    }
}

} // verus!
