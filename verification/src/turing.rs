//! The graph store: states and transitions in two arrays, an array position
//! being the handle of what lies there.

use vstd::prelude::*;
use crate::model::{keeps, relinked, shifted, without_node, Graph};
use crate::lemmas::{
    lemma_filter_all_kept, lemma_filter_remove, lemma_node_dropped, lemma_pushed_edge,
    lemma_pushed_node, lemma_same_links, lemma_unlinked,
};

verus! {

pub type NodeIndex = usize;

pub type EdgeIndex = usize;

/// A point of the canvas, as `egui` holds it. Its coordinates are not read here.
#[verifier::external_type_specification]
#[verifier::external_body]
pub struct ExPos2(egui::Pos2);

/// A display colour, as `egui` holds it. Its channels are not read here.
#[verifier::external_type_specification]
#[verifier::external_body]
pub struct ExColor32(egui::Color32);

/// `egui::Color32::from_rgb` builds an opaque colour from three channels;
/// nothing is claimed of the result.
pub assume_specification[ egui::Color32::from_rgb ](r: u8, g: u8, b: u8) -> (c: egui::Color32)
;

/// `rand::random::<u8>()` draws a byte from the thread-local generator;
/// nothing is claimed of the result.
#[verifier::external_body]
fn random_channel() -> (r: u8) {
    rand::random::<u8>()
}

/// Why the store refused a call.
#[derive(Clone, Copy, Debug, PartialEq, Eq, Structural)]
pub enum GraphError {
    /// A handle named no node or no edge of the store.
    OutOfRange,
}

/// What a node shows.
#[derive(Debug, PartialEq)]
pub struct State {
    pub name: String,
    pub position: egui::Pos2,
    pub color: egui::Color32,
}

/// What an edge shows.
#[derive(Debug, PartialEq)]
pub struct Transition {
    pub text: String,
}

impl Default for Transition {
    /// A transition that shows nothing yet.
    fn default() -> (t: Transition)
        ensures
            t.text@ == Seq::<char>::empty(),
    {
        Transition { text: String::new() }
    }
}

/// A node: its state and the first edge of its chain.
#[derive(Debug, PartialEq)]
pub struct Node {
    pub state: State,
    pub edge: Option<EdgeIndex>,
}

/// An edge: its transition, its two ends and the next edge of the chain of
/// its source.
#[derive(Debug, PartialEq)]
pub struct Edge {
    pub transition: Transition,
    pub source: NodeIndex,
    pub target: NodeIndex,
    pub next: Option<EdgeIndex>,
}

/// The store. The arrays are private: every value that a caller can hold is
/// well formed.
pub struct Turing {
    nodes: Vec<Node>,
    edges: Vec<Edge>,
}

impl State {
    /// A state with the given name and place, and a colour drawn at random.
    pub fn new_at_pos(name: String, position: egui::Pos2) -> (s: State)
        ensures
            s.name == name,
            s.position == position,
    {
        State {
            name,
            position,
            color: egui::Color32::from_rgb(random_channel(), random_channel(), random_channel()),
        }
    }
}

impl View for Turing {
    type V = Graph;

    closed spec fn view(&self) -> Graph {
        Graph { nodes: self.nodes@, edges: self.edges@ }
    }
}

impl Default for Turing {
    /// An empty store.
    fn default() -> (g: Turing)
        ensures
            g@.nodes.len() == 0,
            g@.edges.len() == 0,
            g@.well_formed(),
    {
        Turing::new()
    }
}

impl Turing {
    /// An empty store.
    pub fn new() -> (g: Turing)
        ensures
            g@.nodes.len() == 0,
            g@.edges.len() == 0,
            g@.well_formed(),
    {
        Turing { nodes: Vec::new(), edges: Vec::new() }
    }

    /// The number of nodes; the valid node handles are those below it.
    pub fn node_count(&self) -> (n: usize)
        ensures
            n == self@.nodes.len(),
    {
        self.nodes.len()
    }

    /// The number of edges; the valid edge handles are those below it.
    pub fn edge_count(&self) -> (n: usize)
        ensures
            n == self@.edges.len(),
    {
        self.edges.len()
    }

    /// The node at `index`, or nothing where the handle names none.
    pub fn node(&self, index: NodeIndex) -> (r: Option<&Node>)
        ensures
            index < self@.nodes.len() ==> r == Some(&self@.nodes[index as int]),
            index >= self@.nodes.len() ==> r is None,
    {
        if index < self.nodes.len() {
            Some(&self.nodes[index])
        } else {
            None
        }
    }

    /// The edge at `index`, or nothing where the handle names none.
    pub fn edge(&self, index: EdgeIndex) -> (r: Option<&Edge>)
        ensures
            index < self@.edges.len() ==> r == Some(&self@.edges[index as int]),
            index >= self@.edges.len() ==> r is None,
    {
        if index < self.edges.len() {
            Some(&self.edges[index])
        } else {
            None
        }
    }

    /// Appends a node without edges and returns its handle, the highest one.
    pub fn add_state(&mut self, state: State) -> (index: NodeIndex)
        requires
            old(self)@.well_formed(),
        ensures
            index == old(self)@.nodes.len(),
            final(self)@.nodes == old(self)@.nodes.push(Node { state, edge: None }),
            final(self)@.edges == old(self)@.edges,
            final(self)@.well_formed(),
    {
        let index = self.nodes.len();
        self.nodes.push(Node { state, edge: None });
        proof {
            lemma_pushed_node(old(self)@, self@, state);
        }
        index
    }

    /// Appends an edge from `source` to `target` and makes it the first of the
    /// chain of `source`. Refused, with the store unchanged, where either
    /// handle names no node.
    pub fn add_transition(
        &mut self,
        transition: Transition,
        source: NodeIndex,
        target: NodeIndex,
    ) -> (r: Result<(), GraphError>)
        requires
            old(self)@.well_formed(),
        ensures
            r is Ok <==> source < old(self)@.nodes.len() && target < old(self)@.nodes.len(),
            r is Err ==> r == Err::<(), GraphError>(GraphError::OutOfRange),
            r is Err ==> final(self)@ == old(self)@,
            r is Ok ==> final(self)@.edges == old(self)@.edges.push(
                Edge { transition, source, target, next: old(self)@.nodes[source as int].edge },
            ),
            r is Ok ==> final(self)@.nodes == old(self)@.nodes.update(
                source as int,
                Node {
                    state: old(self)@.nodes[source as int].state,
                    edge: Some(old(self)@.edges.len() as usize),
                },
            ),
            final(self)@.well_formed(),
    {
        if source >= self.nodes.len() || target >= self.nodes.len() {
            return Err(GraphError::OutOfRange);
        }
        let edge_index = self.edges.len();
        let next = self.nodes[source].edge;
        self.edges.push(Edge { transition, source, target, next });
        self.nodes[source].edge = Some(edge_index);
        proof {
            lemma_pushed_edge(old(self)@, self@, transition, source, target, edge_index);
        }
        Ok(())
    }

    /// Removes node `index` with every edge that enters or leaves it: first
    /// the edges that enter it, then the edges of its own chain, each through
    /// `remove_transition`; then the ends of the edges that stay are
    /// renumbered, and the node leaves the array. Refused, with the store
    /// unchanged, where the handle names no node.
    pub fn remove_state(&mut self, index: NodeIndex) -> (r: Result<(), GraphError>)
        requires
            old(self)@.well_formed(),
        ensures
            r is Ok <==> index < old(self)@.nodes.len(),
            r is Err ==> r == Err::<(), GraphError>(GraphError::OutOfRange),
            r is Err ==> final(self)@ == old(self)@,
            r is Ok ==> final(self)@.nodes.len() == old(self)@.nodes.len() - 1,
            r is Ok ==> final(self)@.states() == old(self)@.states().remove(index as int),
            r is Ok ==> final(self)@.arrows() == without_node(old(self)@.arrows(), index as int),
            final(self)@.well_formed(),
    {
        if index >= self.nodes.len() {
            return Err(GraphError::OutOfRange);
        }
        let ghost before = self@;
        let ghost kept = before.arrows().filter(keeps(index as int));
        let mut e: usize = self.edges.len();
        while e > 0
            invariant
                self@.well_formed(),
                self@.states() == before.states(),
                self@.arrows().filter(keeps(index as int)) == kept,
                e <= self@.edges.len(),
                forall|k: int|
                    e <= k < self@.edges.len() ==> (#[trigger] self@.arrows()[k]).target != index,
            decreases e,
        {
            e -= 1;
            if self.edges[e].target == index {
                let ghost prev = self@;
                assert(!keeps(index as int)(prev.arrows()[e as int]));
                let _ = self.remove_transition(e);
                proof {
                    lemma_filter_remove(prev.arrows(), keeps(index as int), e as int);
                    assert(prev.arrows().len() == prev.edges.len());
                    assert(self@.arrows().len() == self@.edges.len());
                    assert forall|k: int| e <= k < self@.edges.len() implies (
                    #[trigger] self@.arrows()[k]).target != index by {
                        assert(self@.arrows()[k] == prev.arrows()[k + 1]);
                    }
                }
            } else {
                assert(self@.arrows()[e as int].target != index);
            }
        }
        assert(self@.states().len() == self@.nodes.len());
        loop
            invariant
                self@.well_formed(),
                self@.states() == before.states(),
                index < before.nodes.len(),
                self@.arrows().filter(keeps(index as int)) == kept,
                forall|k: int|
                    0 <= k < self@.edges.len() ==> (#[trigger] self@.arrows()[k]).target != index,
            ensures
                self@.well_formed(),
                self@.states() == before.states(),
                self@.arrows().filter(keeps(index as int)) == kept,
                forall|k: int|
                    0 <= k < self@.edges.len() ==> !(#[trigger] self@.arrows()[k]).touches(
                        index as int,
                    ),
            decreases self@.edges.len(),
        {
            assert(self@.states().len() == self@.nodes.len());
            assert(self@.head_valid(index as int));
            match self.nodes[index].edge {
                None => {
                    assert forall|k: int| 0 <= k < self@.edges.len() implies !(
                    #[trigger] self@.arrows()[k]).touches(index as int) by {
                        assert(self@.edges[k].source != index);
                        assert(self@.arrows()[k].target != index);
                    }
                    break ;
                },
                Some(head) => {
                    let ghost prev = self@;
                    assert(!keeps(index as int)(prev.arrows()[head as int]));
                    let _ = self.remove_transition(head);
                    proof {
                        lemma_filter_remove(prev.arrows(), keeps(index as int), head as int);
                        assert(prev.arrows().len() == prev.edges.len());
                        assert(self@.arrows().len() == self@.edges.len());
                        assert forall|k: int| 0 <= k < self@.edges.len() implies (
                        #[trigger] self@.arrows()[k]).target != index by {
                            if k < head {
                                assert(self@.arrows()[k] == prev.arrows()[k]);
                            } else {
                                assert(self@.arrows()[k] == prev.arrows()[k + 1]);
                            }
                        }
                    }
                },
            }
        }
        let ghost middle = self@;
        proof {
            assert forall|k: int| 0 <= k < middle.arrows().len() implies keeps(index as int)(
                #[trigger] middle.arrows()[k],
            ) by {
                assert(!middle.arrows()[k].touches(index as int));
            }
            lemma_filter_all_kept(middle.arrows(), keeps(index as int));
        }
        let mut e: usize = 0;
        while e < self.edges.len()
            invariant
                self.nodes@ == middle.nodes,
                self.edges@.len() == middle.edges.len(),
                e <= self.edges@.len(),
                forall|j: int|
                    0 <= j < e ==> (#[trigger] self.edges@[j]).transition
                        == middle.edges[j].transition && self.edges@[j].source == shifted(
                        middle.edges[j].source as int,
                        index as int,
                    ) && self.edges@[j].target == shifted(
                        middle.edges[j].target as int,
                        index as int,
                    ) && self.edges@[j].next == middle.edges[j].next,
                forall|j: int| e <= j < self.edges@.len() ==> self.edges@[j] == middle.edges[j],
            decreases self.edges@.len() - e,
        {
            let source = self.edges[e].source;
            let target = self.edges[e].target;
            if source > index {
                self.edges[e].source = source - 1;
            }
            if target > index {
                self.edges[e].target = target - 1;
            }
            e += 1;
        }
        self.nodes.remove(index);
        proof {
            assert(middle.states().len() == middle.nodes.len());
            lemma_node_dropped(middle, self@, index as int);
        }
        Ok(())
    }

    /// Unlinks edge `index` from the chain that holds it, renumbers every
    /// stored reference to an edge above it, and takes it out of the array.
    /// Refused, with the store unchanged, where the handle names no edge.
    pub fn remove_transition(&mut self, index: EdgeIndex) -> (r: Result<(), GraphError>)
        requires
            old(self)@.well_formed(),
        ensures
            r is Ok <==> index < old(self)@.edges.len(),
            r is Err ==> r == Err::<(), GraphError>(GraphError::OutOfRange),
            r is Err ==> final(self)@ == old(self)@,
            r is Ok ==> final(self)@.nodes.len() == old(self)@.nodes.len(),
            r is Ok ==> final(self)@.edges.len() == old(self)@.edges.len() - 1,
            r is Ok ==> final(self)@.states() == old(self)@.states(),
            r is Ok ==> final(self)@.arrows() == old(self)@.arrows().remove(index as int),
            final(self)@.well_formed(),
    {
        if index >= self.edges.len() {
            return Err(GraphError::OutOfRange);
        }
        let ghost before = self@;
        let succ = self.edges[index].next;
        let mut n: usize = 0;
        while n < self.nodes.len()
            invariant
                self.edges@ == before.edges,
                self.nodes@.len() == before.nodes.len(),
                n <= self.nodes@.len(),
                forall|j: int|
                    0 <= j < n ==> (#[trigger] self.nodes@[j]).state == before.nodes[j].state
                        && self.nodes@[j].edge == relinked(
                        before.nodes[j].edge,
                        index as int,
                        succ,
                    ),
                forall|j: int| n <= j < self.nodes@.len() ==> self.nodes@[j] == before.nodes[j],
            decreases self.nodes@.len() - n,
        {
            match self.nodes[n].edge {
                Some(head) => {
                    if head == index {
                        self.nodes[n].edge = succ;
                    } else if head > index {
                        self.nodes[n].edge = Some(head - 1);
                    }
                },
                None => {},
            }
            n += 1;
        }
        self.edges.remove(index);
        let ghost middle = self.edges@;
        let mut e: usize = 0;
        while e < self.edges.len()
            invariant
                middle == before.edges.remove(index as int),
                self.edges@.len() == middle.len(),
                e <= self.edges@.len(),
                forall|j: int|
                    0 <= j < e ==> (#[trigger] self.edges@[j]).transition == middle[j].transition
                        && self.edges@[j].source == middle[j].source && self.edges@[j].target
                        == middle[j].target && self.edges@[j].next == relinked(
                        middle[j].next,
                        index as int,
                        succ,
                    ),
                forall|j: int| e <= j < self.edges@.len() ==> self.edges@[j] == middle[j],
                self.nodes@.len() == before.nodes.len(),
                forall|j: int|
                    0 <= j < self.nodes@.len() ==> (#[trigger] self.nodes@[j]).state
                        == before.nodes[j].state && self.nodes@[j].edge == relinked(
                        before.nodes[j].edge,
                        index as int,
                        succ,
                    ),
            decreases self.edges@.len() - e,
        {
            match self.edges[e].next {
                Some(next) => {
                    if next == index {
                        self.edges[e].next = succ;
                    } else if next > index {
                        self.edges[e].next = Some(next - 1);
                    }
                },
                None => {},
            }
            e += 1;
        }
        proof {
            lemma_unlinked(before, self@, index as int);
        }
        Ok(())
    }

    /// The most recent edge from `n1` to `n2`: the first one that a walk of
    /// the chain of `n1` meets. Nothing where there is none, or where `n1`
    /// names no node.
    pub fn transition_exist(&self, n1: NodeIndex, n2: NodeIndex) -> (found: Option<EdgeIndex>)
        requires
            self@.well_formed(),
        ensures
            self@.is_first_match(found, n1 as int, n2 as int),
    {
        if n1 >= self.nodes.len() {
            return None;
        }
        let mut link = self.nodes[n1].edge;
        let ghost mut bound: int = self.edges.len() as int;
        assert(self@.head_valid(n1 as int));
        loop
            invariant
                self@.well_formed(),
                n1 < self@.nodes.len(),
                0 <= bound <= self@.edges.len(),
                self@.is_last_below(link, bound, n1 as int),
                forall|k: int|
                    bound <= k < self@.edges.len() ==> !((#[trigger] self@.edges[k]).source == n1
                        && self@.edges[k].target == n2),
            ensures
                self@.is_first_match(link, n1 as int, n2 as int),
            decreases bound,
        {
            match link {
                None => {
                    break ;
                },
                Some(e) => {
                    if self.edges[e].target == n2 {
                        break ;
                    }
                    proof {
                        bound = e as int;
                        assert(self@.link_valid(e as int));
                    }
                    link = self.edges[e].next;
                },
            }
        }
        link
    }

    /// The handles of the edges that leave `n`, in the order of a walk along
    /// its chain: most recent first. Empty where `n` names no node.
    pub fn outgoing(&self, n: NodeIndex) -> (chain: Vec<EdgeIndex>)
        requires
            self@.well_formed(),
        ensures
            n >= self@.nodes.len() ==> chain@.len() == 0,
            n < self@.nodes.len() ==> chain@.len() == self@.chain(n as int).len(),
            n < self@.nodes.len() ==> forall|i: int|
                0 <= i < chain@.len() ==> #[trigger] chain@[i] == self@.chain(n as int)[i],
    {
        let mut chain: Vec<EdgeIndex> = Vec::new();
        if n >= self.nodes.len() {
            return chain;
        }
        let mut link = self.nodes[n].edge;
        let ghost mut bound: int = self.edges.len() as int;
        let ghost mut walked: Seq<int> = Seq::empty();
        assert(self@.head_valid(n as int));
        assert(walked + self@.chain_from(link) =~= self@.chain(n as int));
        loop
            invariant
                self@.well_formed(),
                0 <= bound <= self@.edges.len(),
                self@.is_last_below(link, bound, n as int),
                walked.len() == chain@.len(),
                forall|i: int| 0 <= i < chain@.len() ==> #[trigger] chain@[i] == walked[i],
                walked + self@.chain_from(link) == self@.chain(n as int),
            ensures
                walked.len() == chain@.len(),
                forall|i: int| 0 <= i < chain@.len() ==> #[trigger] chain@[i] == walked[i],
                walked == self@.chain(n as int),
            decreases bound,
        {
            match link {
                None => {
                    assert(walked + self@.chain_from(link) =~= walked);
                    break ;
                },
                Some(e) => {
                    let next = self.edges[e].next;
                    proof {
                        assert(self@.link_valid(e as int));
                        assert(walked.push(e as int) + self@.chain_from(next) =~= walked
                            + self@.chain_from(link));
                        walked = walked.push(e as int);
                        bound = e as int;
                    }
                    chain.push(e);
                    link = next;
                },
            }
        }
        chain
    }

    /// The place of node `index` on the canvas. Refused where the handle
    /// names no node.
    pub fn position(&self, index: NodeIndex) -> (r: Result<egui::Pos2, GraphError>)
        ensures
            index < self@.nodes.len() ==> r == Ok::<egui::Pos2, GraphError>(
                self@.nodes[index as int].state.position,
            ),
            index >= self@.nodes.len() ==> r == Err::<egui::Pos2, GraphError>(
                GraphError::OutOfRange,
            ),
    {
        if index < self.nodes.len() {
            Ok(self.nodes[index].state.position)
        } else {
            Err(GraphError::OutOfRange)
        }
    }

    /// Moves node `index` to `position` and changes nothing else. Refused,
    /// with the store unchanged, where the handle names no node.
    pub fn set_position(&mut self, index: NodeIndex, position: egui::Pos2) -> (r: Result<
        (),
        GraphError,
    >)
        requires
            old(self)@.well_formed(),
        ensures
            r is Ok <==> index < old(self)@.nodes.len(),
            r is Err ==> r == Err::<(), GraphError>(GraphError::OutOfRange),
            r is Err ==> final(self)@ == old(self)@,
            r is Ok ==> final(self)@.edges == old(self)@.edges,
            r is Ok ==> final(self)@.nodes == old(self)@.nodes.update(
                index as int,
                Node {
                    state: State {
                        name: old(self)@.nodes[index as int].state.name,
                        position,
                        color: old(self)@.nodes[index as int].state.color,
                    },
                    edge: old(self)@.nodes[index as int].edge,
                },
            ),
            final(self)@.well_formed(),
    {
        if index >= self.nodes.len() {
            return Err(GraphError::OutOfRange);
        }
        self.nodes[index].state.position = position;
        proof {
            lemma_same_links(old(self)@, self@);
        }
        Ok(())
    }

    /// Gives node `index` the name `name` and changes nothing else. Refused,
    /// with the store unchanged, where the handle names no node.
    pub fn set_name(&mut self, index: NodeIndex, name: String) -> (r: Result<(), GraphError>)
        requires
            old(self)@.well_formed(),
        ensures
            r is Ok <==> index < old(self)@.nodes.len(),
            r is Err ==> r == Err::<(), GraphError>(GraphError::OutOfRange),
            r is Err ==> final(self)@ == old(self)@,
            r is Ok ==> final(self)@.edges == old(self)@.edges,
            r is Ok ==> final(self)@.nodes == old(self)@.nodes.update(
                index as int,
                Node {
                    state: State {
                        name,
                        position: old(self)@.nodes[index as int].state.position,
                        color: old(self)@.nodes[index as int].state.color,
                    },
                    edge: old(self)@.nodes[index as int].edge,
                },
            ),
            final(self)@.well_formed(),
    {
        if index >= self.nodes.len() {
            return Err(GraphError::OutOfRange);
        }
        self.nodes[index].state.name = name;
        proof {
            lemma_same_links(old(self)@, self@);
        }
        Ok(())
    }

    /// Gives edge `index` the text `text` and changes nothing else. Refused,
    /// with the store unchanged, where the handle names no edge.
    pub fn set_text(&mut self, index: EdgeIndex, text: String) -> (r: Result<(), GraphError>)
        requires
            old(self)@.well_formed(),
        ensures
            r is Ok <==> index < old(self)@.edges.len(),
            r is Err ==> r == Err::<(), GraphError>(GraphError::OutOfRange),
            r is Err ==> final(self)@ == old(self)@,
            r is Ok ==> final(self)@.nodes == old(self)@.nodes,
            r is Ok ==> final(self)@.edges == old(self)@.edges.update(
                index as int,
                Edge {
                    transition: Transition { text },
                    source: old(self)@.edges[index as int].source,
                    target: old(self)@.edges[index as int].target,
                    next: old(self)@.edges[index as int].next,
                },
            ),
            final(self)@.well_formed(),
    {
        if index >= self.edges.len() {
            return Err(GraphError::OutOfRange);
        }
        self.edges[index].transition.text = text;
        proof {
            lemma_same_links(old(self)@, self@);
        }
        Ok(())
    }

    /// The handles of the edges from `n1` to `n2`, most recent first: the
    /// transitions that are drawn as one curve. Empty where there is none, or
    /// where `n1` names no node.
    pub fn group(&self, n1: NodeIndex, n2: NodeIndex) -> (handles: Vec<EdgeIndex>)
        requires
            self@.well_formed(),
        ensures
            self@.is_group(handles@, n1 as int, n2 as int),
    {
        let mut handles: Vec<EdgeIndex> = Vec::new();
        if n1 >= self.nodes.len() {
            return handles;
        }
        let mut link = self.nodes[n1].edge;
        let ghost mut bound: int = self.edges.len() as int;
        assert(self@.head_valid(n1 as int));
        loop
            invariant
                self@.well_formed(),
                n1 < self@.nodes.len(),
                0 <= bound <= self@.edges.len(),
                self@.is_last_below(link, bound, n1 as int),
                self@.is_group_above(handles@, bound, n1 as int, n2 as int),
            ensures
                self@.is_group(handles@, n1 as int, n2 as int),
            decreases bound,
        {
            match link {
                None => {
                    break ;
                },
                Some(e) => {
                    let ghost seen = handles@;
                    if self.edges[e].target == n2 {
                        handles.push(e);
                    }
                    proof {
                        assert(self@.link_valid(e as int));
                        assert forall|k: int|
                            e <= k < self@.edges.len() && (#[trigger] self@.edges[k]).source == n1
                                && self@.edges[k].target == n2 implies handles@.contains(
                            k as usize,
                        ) by {
                            if k == e {
                                assert(handles@[seen.len() as int] == e);
                            } else {
                                assert(seen.contains(k as usize));
                                let i = choose|i: int| 0 <= i < seen.len() && seen[i] == k as usize;
                                assert(handles@[i] == k as usize);
                            }
                        }
                        bound = e as int;
                    }
                    link = self.edges[e].next;
                },
            }
        }
        handles
    }

    /// Whether an edge joins `n1` and `n2`, in either direction.
    pub fn adjacent(&self, n1: NodeIndex, n2: NodeIndex) -> (b: bool)
        requires
            self@.well_formed(),
        ensures
            b == (self@.connects(n1 as int, n2 as int) || self@.connects(n2 as int, n1 as int)),
    {
        self.transition_exist(n1, n2).is_some() || self.transition_exist(n2, n1).is_some()
    }

    /// How many of the two directions between `n1` and `n2` hold an edge.
    pub fn is_adjacent(&self, n1: NodeIndex, n2: NodeIndex) -> (c: usize)
        requires
            self@.well_formed(),
        ensures
            c == (if self@.connects(n1 as int, n2 as int) {
                1int
            } else {
                0int
            }) + (if self@.connects(n2 as int, n1 as int) {
                1int
            } else {
                0int
            }),
    {
        let mut c: usize = 0;
        if self.transition_exist(n1, n2).is_some() {
            c += 1
        }
        if self.transition_exist(n2, n1).is_some() {
            c += 1
        }
        c
    }
}

} // verus!
