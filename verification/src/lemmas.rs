//! Why each change of the two arrays keeps the store well formed.

use vstd::prelude::*;
use crate::model::{relinked, renumbers, shifted, Graph};
use crate::turing::{Edge, Node, State, Transition};

verus! {

/// A node pushed without edges keeps the store well formed.
pub proof fn lemma_pushed_node(before: Graph, after: Graph, state: State)
    requires
        before.well_formed(),
        after.nodes == before.nodes.push(Node { state, edge: None }),
        after.edges == before.edges,
    ensures
        after.well_formed(),
{
    assert forall|n: int| 0 <= n < after.nodes.len() implies #[trigger] after.head_valid(n) by {
        if n < before.nodes.len() {
            assert(after.nodes[n] == before.nodes[n]);
            assert(before.head_valid(n));
        }
    }
    assert forall|e: int| 0 <= e < after.edges.len() implies #[trigger] after.link_valid(e) by {
        assert(before.link_valid(e));
    }
}

/// An edge pushed at the head of the chain of its source keeps the store
/// well formed.
pub proof fn lemma_pushed_edge(
    before: Graph,
    after: Graph,
    transition: Transition,
    source: usize,
    target: usize,
    index: usize,
)
    requires
        before.well_formed(),
        source < before.nodes.len(),
        target < before.nodes.len(),
        index == before.edges.len(),
        after.edges == before.edges.push(
            Edge { transition, source, target, next: before.nodes[source as int].edge },
        ),
        after.nodes == before.nodes.update(
            source as int,
            Node { state: before.nodes[source as int].state, edge: Some(index) },
        ),
    ensures
        after.well_formed(),
{
    let last = before.edges.len() as int;
    assert forall|n: int| 0 <= n < after.nodes.len() implies #[trigger] after.head_valid(n) by {
        assert(before.head_valid(n));
        if n != source {
            assert(after.nodes[n] == before.nodes[n]);
            assert forall|k: int| 0 <= k < last implies after.edges[k] == before.edges[k] by {}
        }
    }
    assert forall|e: int| 0 <= e < after.edges.len() implies #[trigger] after.link_valid(e) by {
        if e < last {
            assert(after.edges[e] == before.edges[e]);
            assert(before.link_valid(e));
        } else {
            assert(before.head_valid(source as int));
        }
    }
}

/// `after` is `before` with edge `index` unlinked and gone: every stored edge
/// reference is relinked, and nothing else changes.
pub open spec fn unlinked(before: Graph, after: Graph, index: int) -> bool {
    let succ = before.edges[index].next;
    &&& after.nodes.len() == before.nodes.len()
    &&& forall|n: int|
        0 <= n < after.nodes.len() ==> (#[trigger] after.nodes[n]).state == before.nodes[n].state
            && after.nodes[n].edge == relinked(before.nodes[n].edge, index, succ)
    &&& after.edges.len() == before.edges.len() - 1
    &&& forall|e: int|
        0 <= e < after.edges.len() ==> {
            let from = before.edges[if e < index {
                e
            } else {
                e + 1
            }];
            &&& (#[trigger] after.edges[e]).transition == from.transition
            &&& after.edges[e].source == from.source
            &&& after.edges[e].target == from.target
            &&& after.edges[e].next == relinked(from.next, index, succ)
        }
}

/// Unlinking an edge keeps the store well formed, keeps the states, and
/// takes exactly that arrow out.
pub proof fn lemma_unlinked(before: Graph, after: Graph, index: int)
    requires
        before.well_formed(),
        0 <= index < before.edges.len(),
        unlinked(before, after, index),
    ensures
        after.well_formed(),
        after.states() == before.states(),
        after.arrows() == before.arrows().remove(index),
{
    let len = before.edges.len() as int;
    assert forall|e: int| 0 <= e < after.edges.len() implies (#[trigger] after.edges[e]).source
        < after.nodes.len() && after.edges[e].target < after.nodes.len() by {
        let from = before.edges[if e < index {
            e
        } else {
            e + 1
        }];
        assert(from.source < before.nodes.len());
    }
    assert forall|n: int| 0 <= n < after.nodes.len() implies #[trigger] after.head_valid(n) by {
        assert(before.head_valid(n));
        lemma_relinked_is_last(before, after, index, before.nodes[n].edge, len, n);
    }
    assert forall|e: int| 0 <= e < after.edges.len() implies #[trigger] after.link_valid(e) by {
        let o = if e < index {
            e
        } else {
            e + 1
        };
        assert(before.link_valid(o));
        lemma_relinked_is_last(
            before,
            after,
            index,
            before.edges[o].next,
            o,
            before.edges[o].source as int,
        );
    }
    assert(after.states() =~= before.states());
    assert(after.arrows() =~= before.arrows().remove(index));
}

/// A reference that named the last edge of `n` below `bound` names, once
/// relinked, the last edge of `n` below the place that `bound` moved to.
proof fn lemma_relinked_is_last(
    before: Graph,
    after: Graph,
    index: int,
    link: Option<usize>,
    bound: int,
    n: int,
)
    requires
        before.well_formed(),
        0 <= index < before.edges.len(),
        unlinked(before, after, index),
        0 <= bound <= before.edges.len(),
        bound != index,
        before.is_last_below(link, bound, n),
    ensures
        after.is_last_below(
            relinked(link, index, before.edges[index].next),
            if bound > index {
                bound - 1
            } else {
                bound
            },
            n,
        ),
{
    let succ = before.edges[index].next;
    let new_bound = if bound > index {
        bound - 1
    } else {
        bound
    };
    let new_link = relinked(link, index, succ);
    assert(before.link_valid(index));
    assert forall|k: int| 0 <= k < after.edges.len() implies (#[trigger] after.edges[k]).source
        == before.edges[if k < index {
        k
    } else {
        k + 1
    }].source by {}
    match new_link {
        Some(m) => {
            assert forall|k: int| m < k < new_bound implies (#[trigger] after.edges[k]).source
                != n by {
                let o = if k < index {
                    k
                } else {
                    k + 1
                };
                assert(before.edges[o].source != n);
            }
        },
        None => {
            assert forall|k: int| 0 <= k < new_bound implies (#[trigger] after.edges[k]).source
                != n by {
                let o = if k < index {
                    k
                } else {
                    k + 1
                };
                assert(before.edges[o].source != n);
            }
        },
    }
}

/// Taking out an element that a filter drops does not change what the
/// filter keeps.
pub proof fn lemma_filter_remove<A>(s: Seq<A>, pred: spec_fn(A) -> bool, i: int)
    requires
        0 <= i < s.len(),
        !pred(s[i]),
    ensures
        s.remove(i).filter(pred) == s.filter(pred),
{
    let head = s.take(i);
    let one = seq![s[i]];
    let tail = s.skip(i + 1);
    assert(s =~= head + (one + tail));
    assert(s.remove(i) =~= head + tail);
    Seq::filter_distributes_over_add(head, one + tail, pred);
    Seq::filter_distributes_over_add(one, tail, pred);
    Seq::filter_distributes_over_add(head, tail, pred);
    assert(one.filter(pred) =~= Seq::<A>::empty()) by {
        reveal_with_fuel(Seq::filter, 2);
        assert(one.drop_last() =~= Seq::<A>::empty());
    }
    assert(one.filter(pred) + tail.filter(pred) =~= tail.filter(pred));
}

/// A filter that drops nothing gives the sequence back.
pub proof fn lemma_filter_all_kept<A>(s: Seq<A>, pred: spec_fn(A) -> bool)
    requires
        forall|i: int| 0 <= i < s.len() ==> pred(#[trigger] s[i]),
    ensures
        s.filter(pred) == s,
    decreases s.len(),
{
    reveal(Seq::filter);
    if s.len() > 0 {
        lemma_filter_all_kept(s.drop_last(), pred);
        assert(s.drop_last().push(s.last()) =~= s);
    }
}

/// `after` is `before` with node `index` gone: the nodes above it move down
/// by one, and every edge names its two ends by their new handles.
pub open spec fn node_dropped(before: Graph, after: Graph, index: int) -> bool {
    &&& after.nodes == before.nodes.remove(index)
    &&& after.edges.len() == before.edges.len()
    &&& forall|e: int|
        0 <= e < after.edges.len() ==> {
            &&& (#[trigger] after.edges[e]).transition == before.edges[e].transition
            &&& after.edges[e].source == shifted(before.edges[e].source as int, index)
            &&& after.edges[e].target == shifted(before.edges[e].target as int, index)
            &&& after.edges[e].next == before.edges[e].next
        }
}

/// Dropping a node that no edge touches keeps the store well formed, takes
/// exactly that state out, and renumbers the arrows.
pub proof fn lemma_node_dropped(before: Graph, after: Graph, index: int)
    requires
        before.well_formed(),
        0 <= index < before.nodes.len(),
        forall|e: int|
            0 <= e < before.edges.len() ==> !(#[trigger] before.arrows()[e]).touches(index),
        node_dropped(before, after, index),
    ensures
        after.well_formed(),
        after.states() == before.states().remove(index),
        after.arrows() == before.arrows().map_values(renumbers(index)),
{
    assert forall|e: int| 0 <= e < before.edges.len() implies (#[trigger] before.edges[e]).source
        != index && before.edges[e].target != index by {
        assert(!before.arrows()[e].touches(index));
    }
    assert forall|e: int| 0 <= e < after.edges.len() implies (#[trigger] after.edges[e]).source
        < after.nodes.len() && after.edges[e].target < after.nodes.len() by {
        assert(before.edges[e].source < before.nodes.len());
    }
    assert forall|n: int| 0 <= n < after.nodes.len() implies #[trigger] after.head_valid(n) by {
        let o = if n < index {
            n
        } else {
            n + 1
        };
        assert(before.head_valid(o));
        assert(after.nodes[n] == before.nodes[o]);
        lemma_same_chain(before, after, index, before.nodes[o].edge, before.edges.len() as int, o);
    }
    assert forall|e: int| 0 <= e < after.edges.len() implies #[trigger] after.link_valid(e) by {
        assert(before.link_valid(e));
        lemma_same_chain(
            before,
            after,
            index,
            before.edges[e].next,
            e,
            before.edges[e].source as int,
        );
    }
    assert(after.states() =~= before.states().remove(index));
    assert(after.arrows() =~= before.arrows().map_values(renumbers(index)));
}

/// With node `index` gone, a reference that named the last edge of `n` below
/// `bound` names the last edge of the renumbered `n` below `bound`.
proof fn lemma_same_chain(
    before: Graph,
    after: Graph,
    index: int,
    link: Option<usize>,
    bound: int,
    n: int,
)
    requires
        0 <= index < before.nodes.len(),
        forall|e: int|
            0 <= e < before.edges.len() ==> (#[trigger] before.edges[e]).source != index,
        node_dropped(before, after, index),
        0 <= bound <= before.edges.len(),
        n != index,
        before.is_last_below(link, bound, n),
    ensures
        after.is_last_below(link, bound, shifted(n, index)),
{
    assert forall|k: int| 0 <= k < bound implies ((#[trigger] after.edges[k]).source == shifted(
        n,
        index,
    ) <==> before.edges[k].source == n) by {
        assert(before.edges[k].source != index);
    }
}

/// A change that leaves every handle and every stored reference as it was
/// keeps the store well formed.
pub proof fn lemma_same_links(before: Graph, after: Graph)
    requires
        before.well_formed(),
        after.nodes.len() == before.nodes.len(),
        after.edges.len() == before.edges.len(),
        forall|n: int|
            0 <= n < after.nodes.len() ==> (#[trigger] after.nodes[n]).edge == before.nodes[n].edge,
        forall|e: int|
            0 <= e < after.edges.len() ==> (#[trigger] after.edges[e]).source
                == before.edges[e].source && after.edges[e].target == before.edges[e].target
                && after.edges[e].next == before.edges[e].next,
    ensures
        after.well_formed(),
{
    assert forall|n: int| 0 <= n < after.nodes.len() implies #[trigger] after.head_valid(n) by {
        assert(before.head_valid(n));
        lemma_same_sources(before, after, before.nodes[n].edge, before.edges.len() as int, n);
    }
    assert forall|e: int| 0 <= e < after.edges.len() implies #[trigger] after.link_valid(e) by {
        assert(before.link_valid(e));
        lemma_same_sources(before, after, before.edges[e].next, e, before.edges[e].source as int);
    }
}

/// Where two stores agree on the source of every edge, they agree on which
/// edge is the last of `n` below `bound`.
proof fn lemma_same_sources(before: Graph, after: Graph, link: Option<usize>, bound: int, n: int)
    requires
        after.edges.len() == before.edges.len(),
        forall|e: int|
            0 <= e < after.edges.len() ==> (#[trigger] after.edges[e]).source
                == before.edges[e].source,
        0 <= bound <= before.edges.len(),
        before.is_last_below(link, bound, n),
    ensures
        after.is_last_below(link, bound, n),
{
    assert forall|k: int| 0 <= k < bound implies ((#[trigger] after.edges[k]).source == n
        <==> before.edges[k].source == n) by {}
}

} // verus!
