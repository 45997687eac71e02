//! The mathematical model of the graph store: what the two arrays hold, and
//! when their cross-references are consistent.

use vstd::prelude::*;
use crate::turing::{Edge, Node, State, Transition};

verus! {

/// A transition with its place in the chain forgotten: where it leaves, where
/// it arrives, and what it shows.
pub struct Arrow {
    pub source: int,
    pub target: int,
    pub transition: Transition,
}

/// The two arrays of a store, as sequences.
pub struct Graph {
    pub nodes: Seq<Node>,
    pub edges: Seq<Edge>,
}

/// The arrow that an edge stands for.
pub open spec fn arrow_of(e: Edge) -> Arrow {
    Arrow { source: e.source as int, target: e.target as int, transition: e.transition }
}

/// An index as it reads once the entry at `removed` is gone: what lay above
/// moves down by one.
pub open spec fn shifted(i: int, removed: int) -> int {
    if i > removed {
        i - 1
    } else {
        i
    }
}

impl Arrow {
    /// The arrow leaves or enters node `n`.
    pub open spec fn touches(self, n: int) -> bool {
        self.source == n || self.target == n
    }

    /// The arrow with both ends renumbered for the removal of node `n`.
    pub open spec fn renumbered(self, n: int) -> Arrow {
        Arrow {
            source: shifted(self.source, n),
            target: shifted(self.target, n),
            transition: self.transition,
        }
    }
}

/// The arrows that stay when node `n` goes.
pub open spec fn keeps(n: int) -> spec_fn(Arrow) -> bool {
    |a: Arrow| !a.touches(n)
}

/// The renumbering of arrows for the removal of node `n`.
pub open spec fn renumbers(n: int) -> spec_fn(Arrow) -> Arrow {
    |a: Arrow| a.renumbered(n)
}

/// What is left of `arrows` when node `n` goes: the arrows that touch it
/// disappear, the others keep their order and are renumbered.
pub open spec fn without_node(arrows: Seq<Arrow>, n: int) -> Seq<Arrow> {
    arrows.filter(keeps(n)).map_values(renumbers(n))
}

/// `a` stands for an arrow of `arrows` that touches node `n` at neither end,
/// renumbered for the removal of `n`.
pub open spec fn survives(arrows: Seq<Arrow>, n: int, a: Arrow) -> bool {
    exists|e: int|
        0 <= e < arrows.len() && !(#[trigger] arrows[e]).touches(n) && a == arrows[e].renumbered(n)
}

/// A stored edge reference as it reads once edge `removed` is unlinked and
/// gone: a reference to the edge itself passes on to `after`, its successor.
pub open spec fn relinked(link: Option<usize>, removed: int, after: Option<usize>) -> Option<
    usize,
> {
    match link {
        Some(e) => if e == removed {
            after
        } else if e > removed {
            Some((e - 1) as usize)
        } else {
            Some(e)
        },
        None => None,
    }
}

impl Graph {
    /// The states of the nodes, by handle.
    pub open spec fn states(self) -> Seq<State> {
        Seq::new(self.nodes.len(), |n: int| self.nodes[n].state)
    }

    /// The arrows of the edges, by handle.
    pub open spec fn arrows(self) -> Seq<Arrow> {
        Seq::new(self.edges.len(), |e: int| arrow_of(self.edges[e]))
    }

    /// Every edge leaves and enters a node of the store.
    pub open spec fn endpoints_valid(self) -> bool {
        forall|e: int|
            0 <= e < self.edges.len() ==> (#[trigger] self.edges[e]).source < self.nodes.len()
                && self.edges[e].target < self.nodes.len()
    }

    /// `link` names the last edge below `bound` that leaves node `n`, and is
    /// empty exactly when no edge below `bound` leaves it.
    pub open spec fn is_last_below(self, link: Option<usize>, bound: int, n: int) -> bool {
        match link {
            Some(e) => e < bound && self.edges[e as int].source == n && forall|k: int|
                e < k < bound ==> (#[trigger] self.edges[k]).source != n,
            None => forall|k: int| 0 <= k < bound ==> (#[trigger] self.edges[k]).source != n,
        }
    }

    /// The first edge of node `n` is the most recent edge that leaves it.
    pub open spec fn head_valid(self, n: int) -> bool {
        self.is_last_below(self.nodes[n].edge, self.edges.len() as int, n)
    }

    /// The successor of edge `e` is the most recent older edge with the same
    /// source.
    pub open spec fn link_valid(self, e: int) -> bool {
        self.is_last_below(self.edges[e].next, e, self.edges[e].source as int)
    }

    /// Every node has the first edge that `head_valid` asks for.
    pub open spec fn heads_valid(self) -> bool {
        forall|n: int| 0 <= n < self.nodes.len() ==> #[trigger] self.head_valid(n)
    }

    /// Every edge has the successor that `link_valid` asks for.
    pub open spec fn links_valid(self) -> bool {
        forall|e: int| 0 <= e < self.edges.len() ==> #[trigger] self.link_valid(e)
    }

    /// The cross-references of the store are consistent: edges name nodes
    /// that exist, and the chain of every node runs through exactly the edges
    /// that leave it, most recent first.
    pub open spec fn well_formed(self) -> bool {
        &&& self.endpoints_valid()
        &&& self.heads_valid()
        &&& self.links_valid()
    }

    /// The edges met when walking from `link` along the successors.
    pub open spec fn chain_from(self, link: Option<usize>) -> Seq<int>
        decreases
            (match link {
                Some(e) => e + 1,
                None => 0,
            }),
    {
        match link {
            Some(e) => {
                let next = self.edges[e as int].next;
                if e < self.edges.len() && (next matches Some(m) ==> m < e) {
                    seq![e as int] + self.chain_from(next)
                } else {
                    seq![e as int]
                }
            },
            None => Seq::empty(),
        }
    }

    /// The chain of node `n`: its outgoing edges in the order of a walk.
    pub open spec fn chain(self, n: int) -> Seq<int> {
        self.chain_from(self.nodes[n].edge)
    }

    /// Some edge runs from `n1` to `n2`.
    pub open spec fn connects(self, n1: int, n2: int) -> bool {
        exists|e: int|
            0 <= e < self.edges.len() && (#[trigger] self.edges[e]).source == n1
                && self.edges[e].target == n2
    }

    /// The two stores hold the same nodes, but for node `index`.
    pub open spec fn same_nodes_but(self, other: Graph, index: int) -> bool {
        &&& self.nodes.len() == other.nodes.len()
        &&& forall|n: int|
            0 <= n < self.nodes.len() && n != index ==> #[trigger] self.nodes[n] == other.nodes[n]
    }

    /// The two stores hold the same edges, but for edge `index`.
    pub open spec fn same_edges_but(self, other: Graph, index: int) -> bool {
        &&& self.edges.len() == other.edges.len()
        &&& forall|e: int|
            0 <= e < self.edges.len() && e != index ==> #[trigger] self.edges[e] == other.edges[e]
    }

    /// Edge `e` runs from `n1` to `n2`.
    pub open spec fn runs(self, e: int, n1: int, n2: int) -> bool {
        self.edges[e].source == n1 && self.edges[e].target == n2
    }

    /// `handles` lists the edges at or above `bound` that run from `n1` to
    /// `n2`: each of them once, most recent first, and no other.
    pub open spec fn is_group_above(
        self,
        handles: Seq<usize>,
        bound: int,
        n1: int,
        n2: int,
    ) -> bool {
        &&& forall|i: int|
            0 <= i < handles.len() ==> bound <= (#[trigger] handles[i]) < self.edges.len()
                && self.runs(handles[i] as int, n1, n2)
        &&& forall|i: int, j: int| 0 <= i < j < handles.len() ==> handles[i] > handles[j]
        &&& forall|k: int|
            bound <= k < self.edges.len() && (#[trigger] self.edges[k]).source == n1
                && self.edges[k].target == n2 ==> handles.contains(k as usize)
    }

    /// `handles` lists the edges from `n1` to `n2`: each of them once, most
    /// recent first, and no other.
    pub open spec fn is_group(self, handles: Seq<usize>, n1: int, n2: int) -> bool {
        self.is_group_above(handles, 0, n1, n2)
    }

    /// The curve from `source` to `target` bows to the other side: there are
    /// edges both ways, and this is the direction that leaves the higher
    /// handle.
    pub open spec fn reverse(self, source: int, target: int) -> bool {
        source > target && self.connects(source, target) && self.connects(target, source)
    }

    /// `found` is the most recent edge from `n1` to `n2`, and is empty exactly
    /// when there is none.
    pub open spec fn is_first_match(self, found: Option<usize>, n1: int, n2: int) -> bool {
        match found {
            Some(e) => e < self.edges.len() && self.edges[e as int].source == n1
                && self.edges[e as int].target == n2 && forall|k: int|
                e < k < self.edges.len() ==> !((#[trigger] self.edges[k]).source == n1
                    && self.edges[k].target == n2),
            None => !self.connects(n1, n2),
        }
    }
}

} // verus!
