//! The combinatorial half of the force-directed layout: which nodes act on
//! which, and with which kind of force. The forces themselves are computed
//! on the canvas, outside this library.

use vstd::prelude::*;
use crate::model::Graph;
use crate::turing::{NodeIndex, Turing};

verus! {

/// The kind of force between two nodes.
#[derive(Clone, Copy, Debug, PartialEq, Eq, Structural)]
pub enum Pull {
    /// The two are joined by an edge: a spring holds them at the length of
    /// an edge.
    Spring,
    /// They are not: they push each other apart while they are close.
    Repulsion,
}

/// One node that acts on another, and how.
#[derive(Clone, Copy, Debug, PartialEq, Eq, Structural)]
pub struct Influence {
    pub other: NodeIndex,
    pub pull: Pull,
}

/// The force between `a` and `b`: a spring where an edge joins them in
/// either direction.
pub open spec fn pull_between(g: Graph, a: int, b: int) -> Pull {
    if g.connects(a, b) || g.connects(b, a) {
        Pull::Spring
    } else {
        Pull::Repulsion
    }
}

/// The `k`-th node other than `node`, counting up and skipping `node`.
pub open spec fn other_than(node: int, k: int) -> int {
    if k < node {
        k
    } else {
        k + 1
    }
}

/// `influences` holds one entry for every node other than `node`, in rising
/// order, each with the force that acts between the two.
pub open spec fn is_influences_of(g: Graph, node: int, influences: Seq<Influence>) -> bool {
    &&& influences.len() == g.nodes.len() - 1
    &&& forall|k: int|
        0 <= k < influences.len() ==> (#[trigger] influences[k]).other == other_than(node, k)
            && influences[k].pull == pull_between(g, node, other_than(node, k))
}

/// The nodes that act on `node` in one step of the layout, each with the
/// kind of force: every other node, once. Empty where `node` names no node.
pub fn influences(graph: &Turing, node: NodeIndex) -> (r: Vec<Influence>)
    requires
        graph@.well_formed(),
    ensures
        node < graph@.nodes.len() ==> is_influences_of(graph@, node as int, r@),
        node >= graph@.nodes.len() ==> r@.len() == 0,
{
    let mut r: Vec<Influence> = Vec::new();
    let count = graph.node_count();
    if node >= count {
        return r;
    }
    let mut other: usize = 0;
    while other < count
        invariant
            graph@.well_formed(),
            count == graph@.nodes.len(),
            node < count,
            other <= count,
            r@.len() == (if other <= node {
                other as int
            } else {
                other - 1
            }),
            forall|k: int|
                0 <= k < r@.len() ==> (#[trigger] r@[k]).other == other_than(node as int, k)
                    && r@[k].pull == pull_between(graph@, node as int, other_than(node as int, k)),
        decreases count - other,
    {
        if other != node {
            let pull = if graph.adjacent(node, other) {
                Pull::Spring
            } else {
                Pull::Repulsion
            };
            r.push(Influence { other, pull });
        }
        other += 1;
    }
    r
}

/// A node that is alone is acted on by nothing.
pub proof fn law_single_node_has_no_influence(g: Graph, influences: Seq<Influence>)
    requires
        g.nodes.len() == 1,
        is_influences_of(g, 0, influences),
    ensures
        influences.len() == 0,
{
}

/// The force between two nodes is the same seen from either.
pub proof fn law_pull_symmetric(g: Graph, a: int, b: int)
    ensures
        pull_between(g, a, b) == pull_between(g, b, a),
{
}

} // verus!
