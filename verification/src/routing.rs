//! Which kind of curve a transition is drawn as, and to which side it bows.

use vstd::prelude::*;
use crate::model::Graph;
use crate::turing::{NodeIndex, Turing};

verus! {

/// The kind of curve that joins two nodes.
#[derive(Clone, Copy, Debug, PartialEq, Eq, Structural)]
pub enum Route {
    /// From a node back to itself: a loop that leaves the body of the graph.
    Loop,
    /// From one node to another: an arc, which bows to the other side where
    /// `reverse` is set.
    Arc { reverse: bool },
}

/// The curve for the transitions from `source` to `target`.
pub open spec fn route_of(g: Graph, source: int, target: int) -> Route {
    if source == target {
        Route::Loop
    } else {
        Route::Arc { reverse: g.reverse(source, target) }
    }
}

/// The curve for the transitions from `source` to `target`: a loop where the
/// two are one node, else an arc, reversed where edges run both ways and
/// `source` is the higher handle.
pub fn route(graph: &Turing, source: NodeIndex, target: NodeIndex) -> (r: Route)
    requires
        graph@.well_formed(),
    ensures
        r == route_of(graph@, source as int, target as int),
{
    if source == target {
        Route::Loop
    } else {
        Route::Arc { reverse: source > target && graph.is_adjacent(source, target) == 2 }
    }
}

/// Where edges run both ways between two different nodes, exactly one of the
/// two directions is reversed, so the two arcs bow to opposite sides; where
/// they run one way at most, none is.
pub proof fn law_opposite_sides(g: Graph, a: int, b: int)
    requires
        a != b,
    ensures
        g.connects(a, b) && g.connects(b, a) ==> g.reverse(a, b) != g.reverse(b, a),
        !(g.connects(a, b) && g.connects(b, a)) ==> !g.reverse(a, b) && !g.reverse(b, a),
        route_of(g, a, b) is Arc,
        route_of(g, a, a) is Loop,
{
}

} // verus!
