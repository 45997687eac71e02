//! What holds of every well-formed store, and of the removal of a node.

use vstd::prelude::*;
use crate::model::{arrow_of, keeps, survives, without_node, Arrow, Graph};

verus! {

/// The walk from `link` visits, in strictly falling order of handle, exactly
/// the edges below `bound` that leave `n`: each of them once, and no other.
pub proof fn lemma_chain_from(g: Graph, link: Option<usize>, bound: int, n: int)
    requires
        g.links_valid(),
        0 <= bound <= g.edges.len(),
        g.is_last_below(link, bound, n),
    ensures
        forall|i: int|
            0 <= i < g.chain_from(link).len() ==> 0 <= #[trigger] g.chain_from(link)[i] < bound
                && g.edges[g.chain_from(link)[i]].source == n,
        forall|i: int, j: int|
            0 <= i < j < g.chain_from(link).len() ==> g.chain_from(link)[i] > g.chain_from(
                link,
            )[j],
        forall|k: int|
            0 <= k < bound && (#[trigger] g.edges[k]).source == n ==> g.chain_from(link).contains(
                k,
            ),
    decreases bound,
{
    match link {
        None => {},
        Some(e) => {
            let next = g.edges[e as int].next;
            let rest = g.chain_from(next);
            let whole = g.chain_from(link);
            assert(g.link_valid(e as int));
            lemma_chain_from(g, next, e as int, n);
            assert(whole == seq![e as int] + rest);
            assert forall|i: int| 0 <= i < whole.len() implies 0 <= #[trigger] whole[i] < bound
                && g.edges[whole[i]].source == n by {
                if i > 0 {
                    assert(whole[i] == rest[i - 1]);
                }
            }
            assert forall|i: int, j: int| 0 <= i < j < whole.len() implies whole[i] > whole[j] by {
                assert(whole[j] == rest[j - 1]);
                if i > 0 {
                    assert(whole[i] == rest[i - 1]);
                }
            }
            assert forall|k: int| 0 <= k < bound && (#[trigger] g.edges[k]).source
                == n implies whole.contains(k) by {
                if k == e {
                    assert(whole[0] == k);
                } else {
                    assert(rest.contains(k));
                    let i = choose|i: int| 0 <= i < rest.len() && rest[i] == k;
                    assert(whole[i + 1] == k);
                }
            }
        },
    }
}

/// In a well-formed store every edge joins two nodes that exist, every
/// successor lies strictly below its edge, so that no walk can come back to
/// an edge it has left, and the chain of every node holds exactly the edges
/// that leave it, each once.
pub proof fn law_chains_sound(g: Graph, n: int)
    requires
        g.well_formed(),
        0 <= n < g.nodes.len(),
    ensures
        forall|e: int|
            0 <= e < g.edges.len() ==> 0 <= (#[trigger] g.arrows()[e]).source < g.nodes.len() && 0
                <= g.arrows()[e].target < g.nodes.len(),
        forall|e: int|
            0 <= e < g.edges.len() ==> ((#[trigger] g.edges[e]).next matches Some(m) ==> m < e),
        forall|i: int|
            0 <= i < g.chain(n).len() ==> 0 <= #[trigger] g.chain(n)[i] < g.edges.len()
                && g.arrows()[g.chain(n)[i]].source == n,
        forall|i: int, j: int| 0 <= i < j < g.chain(n).len() ==> g.chain(n)[i] > g.chain(n)[j],
        forall|e: int|
            0 <= e < g.edges.len() && (#[trigger] g.arrows()[e]).source == n ==> g.chain(
                n,
            ).contains(e),
{
    assert forall|e: int| 0 <= e < g.edges.len() implies ((#[trigger] g.edges[e]).next matches Some(
        m,
    ) ==> m < e) by {
        assert(g.link_valid(e));
    }
    assert(g.head_valid(n));
    lemma_chain_from(g, g.nodes[n].edge, g.edges.len() as int, n);
    assert forall|e: int| 0 <= e < g.edges.len() && (#[trigger] g.arrows()[e]).source
        == n implies g.chain(n).contains(e) by {
        assert(g.edges[e].source == n);
    }
}

/// The states and the arrows decide a well-formed store: the first edge of
/// every node and the successor of every edge follow from them.
pub proof fn law_links_determined(a: Graph, b: Graph)
    requires
        a.well_formed(),
        b.well_formed(),
        a.states() == b.states(),
        a.arrows() == b.arrows(),
    ensures
        a == b,
{
    assert(a.nodes.len() == a.states().len());
    assert(b.nodes.len() == b.states().len());
    assert(a.edges.len() == a.arrows().len());
    assert(b.edges.len() == b.arrows().len());
    assert forall|e: int|
        #![trigger a.edges[e]]
        #![trigger b.edges[e]]
        0 <= e < a.edges.len() implies a.edges[e].source == b.edges[e].source && a.edges[e].target
        == b.edges[e].target && a.edges[e].transition == b.edges[e].transition by {
        assert(a.arrows()[e] == arrow_of(a.edges[e]));
        assert(b.arrows()[e] == arrow_of(b.edges[e]));
    }
    assert forall|n: int| 0 <= n < a.nodes.len() implies a.nodes[n] == b.nodes[n] by {
        assert(a.states()[n] == a.nodes[n].state);
        assert(b.states()[n] == b.nodes[n].state);
        assert(a.head_valid(n));
        assert(b.head_valid(n));
    }
    assert forall|e: int| 0 <= e < a.edges.len() implies a.edges[e] == b.edges[e] by {
        assert(a.link_valid(e));
        assert(b.link_valid(e));
    }
    assert(a.nodes =~= b.nodes);
    assert(a.edges =~= b.edges);
}

/// Every element that a filter keeps meets the test and comes from the
/// sequence.
pub proof fn lemma_filter_from<A>(s: Seq<A>, pred: spec_fn(A) -> bool)
    ensures
        forall|i: int|
            0 <= i < s.filter(pred).len() ==> pred(#[trigger] s.filter(pred)[i]) && s.contains(
                s.filter(pred)[i],
            ),
    decreases s.len(),
{
    reveal(Seq::filter);
    if s.len() > 0 {
        let front = s.drop_last();
        lemma_filter_from(front, pred);
        assert forall|i: int| 0 <= i < s.filter(pred).len() implies pred(
            #[trigger] s.filter(pred)[i],
        ) && s.contains(s.filter(pred)[i]) by {
            if i < front.filter(pred).len() {
                assert(s.filter(pred)[i] == front.filter(pred)[i]);
                let j = choose|j: int| 0 <= j < front.len() && front[j] == front.filter(pred)[i];
                assert(s[j] == s.filter(pred)[i]);
            } else {
                assert(s[s.len() - 1] == s.filter(pred)[i]);
            }
        }
    }
}

/// Once node `n` is removed, every arrow that is left stands for an arrow
/// that touched `n` at neither end, renumbered; and both its ends name a node
/// of the smaller store.
pub proof fn law_removed_node_leaves_no_arrow(arrows: Seq<Arrow>, count: int, n: int)
    requires
        0 <= n < count,
        forall|e: int|
            0 <= e < arrows.len() ==> 0 <= (#[trigger] arrows[e]).source < count && 0
                <= arrows[e].target < count,
    ensures
        forall|i: int|
            0 <= i < without_node(arrows, n).len() ==> survives(
                arrows,
                n,
                #[trigger] without_node(arrows, n)[i],
            ),
        forall|i: int|
            0 <= i < without_node(arrows, n).len() ==> 0 <= (#[trigger] without_node(
                arrows,
                n,
            )[i]).source < count - 1 && 0 <= without_node(arrows, n)[i].target < count - 1,
{
    let kept = arrows.filter(keeps(n));
    lemma_filter_from(arrows, keeps(n));
    assert forall|i: int| 0 <= i < without_node(arrows, n).len() implies survives(
        arrows,
        n,
        #[trigger] without_node(arrows, n)[i],
    ) by {
        assert(keeps(n)(kept[i]));
        assert(arrows.contains(kept[i]));
        let e = choose|e: int| 0 <= e < arrows.len() && arrows[e] == kept[i];
        assert(!arrows[e].touches(n));
    }
    assert forall|i: int| 0 <= i < without_node(arrows, n).len() implies 0 <= (
    #[trigger] without_node(arrows, n)[i]).source < count - 1 && 0 <= without_node(
        arrows,
        n,
    )[i].target < count - 1 by {
        assert(keeps(n)(kept[i]));
        assert(arrows.contains(kept[i]));
        let e = choose|e: int| 0 <= e < arrows.len() && arrows[e] == kept[i];
        assert(!arrows[e].touches(n));
    }
}

} // verus!
