//! One editing session: the store, the selection, and whether the layout has
//! come to rest.

use vstd::prelude::*;
use crate::model::{without_node, Graph};
use crate::selection::{action_of, selection_after, Action, Click, Selection};
use crate::turing::{EdgeIndex, GraphError, NodeIndex, State, Transition, Turing};

verus! {

/// What a session holds, as mathematics.
pub struct Session {
    pub graph: Graph,
    pub selection: Selection,
    pub stable: bool,
}

impl Session {
    /// The store is well formed and the selection names nodes that exist.
    pub open spec fn well_formed(self) -> bool {
        &&& self.graph.well_formed()
        &&& self.selection.within(self.graph.nodes.len() as int)
    }
}

/// The state of the session. Its fields are private: every change goes
/// through a method, and every method that changes the graph marks the layout
/// as not at rest.
pub struct Editor {
    graph: Turing,
    selection: Selection,
    stable: bool,
}

impl View for Editor {
    type V = Session;

    closed spec fn view(&self) -> Session {
        Session { graph: self.graph@, selection: self.selection, stable: self.stable }
    }
}

/// The name that a node gets when a click creates it.
pub open spec fn new_node_name() -> Seq<char> {
    "Test"@
}

impl Editor {
    /// A session on an empty store, with nothing selected and the layout at
    /// rest.
    pub fn new() -> (editor: Editor)
        ensures
            editor@.graph.nodes.len() == 0,
            editor@.graph.edges.len() == 0,
            editor@.selection == Selection::Idle,
            editor@.stable,
            editor@.well_formed(),
    {
        Editor { graph: Turing::new(), selection: Selection::Idle, stable: true }
    }

    /// The store.
    pub fn graph(&self) -> (graph: &Turing)
        ensures
            graph@ == self@.graph,
    {
        &self.graph
    }

    /// What is selected.
    pub fn selection(&self) -> (selection: Selection)
        ensures
            selection == self@.selection,
    {
        self.selection
    }

    /// Whether the layout is at rest: while it is not, it has to be stepped
    /// again.
    pub fn is_stable(&self) -> (stable: bool)
        ensures
            stable == self@.stable,
    {
        self.stable
    }

    /// Replaces the store as a whole. Nothing stays selected and the layout
    /// has to run again.
    pub fn load(&mut self, graph: Turing)
        requires
            graph@.well_formed(),
        ensures
            final(self)@.graph == graph@,
            final(self)@.selection == Selection::Idle,
            !final(self)@.stable,
            final(self)@.well_formed(),
    {
        self.graph = graph;
        self.selection = Selection::Idle;
        self.stable = false;
    }

    /// Handles one click: the selection moves as the selection rules say, and
    /// what the click asks of the graph is done. A click on the idle canvas
    /// adds a node at `position`; a click on a node while a node is selected
    /// adds a transition between the two that shows nothing yet; both mark
    /// the layout as not at rest. Refused, with the session unchanged, where
    /// the click names a node that the store does not hold.
    pub fn click(&mut self, click: Click, position: egui::Pos2) -> (r: Result<Action, GraphError>)
        requires
            old(self)@.well_formed(),
        ensures
            r is Ok <==> click.within(old(self)@.graph.nodes.len() as int),
            r is Err ==> r == Err::<Action, GraphError>(GraphError::OutOfRange),
            r is Err ==> final(self)@ == old(self)@,
            r matches Ok(action) ==> action == action_of(old(self)@.selection, click),
            r is Ok ==> final(self)@.selection == selection_after(old(self)@.selection, click),
            r matches Ok(action) ==> final(self)@.stable == (old(self)@.stable
                && !action.disturbs()),
            r matches Ok(action) ==> !action.disturbs() ==> final(self)@.graph == old(self)@.graph,
            r matches Ok(Action::CreateNode) ==> {
                let last = old(self)@.graph.nodes.len() as int;
                &&& final(self)@.graph.edges == old(self)@.graph.edges
                &&& final(self)@.graph.nodes.len() == last + 1
                &&& final(self)@.graph.nodes.take(last) == old(self)@.graph.nodes
                &&& final(self)@.graph.nodes[last].edge is None
                &&& final(self)@.graph.nodes[last].state.position == position
                &&& final(self)@.graph.nodes[last].state.name@ == new_node_name()
            },
            r matches Ok(Action::CreateTransition(a, b)) ==> {
                let last = old(self)@.graph.edges.len() as int;
                &&& final(self)@.graph.nodes.len() == old(self)@.graph.nodes.len()
                &&& final(self)@.graph.states() == old(self)@.graph.states()
                &&& final(self)@.graph.edges.len() == last + 1
                &&& final(self)@.graph.arrows().len() == last + 1
                &&& final(self)@.graph.arrows().take(last) == old(self)@.graph.arrows()
                &&& final(self)@.graph.arrows()[last].source == a
                &&& final(self)@.graph.arrows()[last].target == b
                &&& final(self)@.graph.arrows()[last].transition.text@ == Seq::<char>::empty()
            },
            final(self)@.well_formed(),
    {
        if !click.is_within(self.graph.node_count()) {
            return Err(GraphError::OutOfRange);
        }
        let (selection, action) = self.selection.on_click(click);
        let ghost before = self.graph@;
        match action {
            Action::CreateNode => {
                let state = State::new_at_pos("Test".to_owned(), position);
                let _ = self.graph.add_state(state);
                assert(self.graph@.nodes.take(before.nodes.len() as int) =~= before.nodes);
            },
            Action::CreateTransition(a, b) => {
                let _ = self.graph.add_transition(Transition::default(), a, b);
                assert(self.graph@.states() =~= before.states());
                assert(self.graph@.arrows().take(before.edges.len() as int) =~= before.arrows());
            },
            Action::Nothing => {},
            Action::Reframe => {},
        }
        if action.changes_graph() {
            self.stable = false;
        }
        self.selection = selection;
        Ok(action)
    }

    /// Removes node `index` with its edges, as the store does. Nothing stays
    /// selected, since the handles above `index` change their meaning, and
    /// the layout has to run again. Refused, with the session unchanged,
    /// where the handle names no node.
    pub fn remove_state(&mut self, index: NodeIndex) -> (r: Result<(), GraphError>)
        requires
            old(self)@.well_formed(),
        ensures
            r is Ok <==> index < old(self)@.graph.nodes.len(),
            r is Err ==> r == Err::<(), GraphError>(GraphError::OutOfRange),
            r is Err ==> final(self)@ == old(self)@,
            r is Ok ==> final(self)@.graph.nodes.len() == old(self)@.graph.nodes.len() - 1,
            r is Ok ==> final(self)@.graph.states() == old(self)@.graph.states().remove(
                index as int,
            ),
            r is Ok ==> final(self)@.graph.arrows() == without_node(
                old(self)@.graph.arrows(),
                index as int,
            ),
            r is Ok ==> final(self)@.selection == Selection::Idle && !final(self)@.stable,
            final(self)@.well_formed(),
    {
        let r = self.graph.remove_state(index);
        if r.is_ok() {
            self.selection = Selection::Idle;
            self.stable = false;
        }
        r
    }

    /// Removes edge `index`, as the store does. The selection stays, and the
    /// layout has to run again. Refused, with the session unchanged, where
    /// the handle names no edge.
    pub fn remove_transition(&mut self, index: EdgeIndex) -> (r: Result<(), GraphError>)
        requires
            old(self)@.well_formed(),
        ensures
            r is Ok <==> index < old(self)@.graph.edges.len(),
            r is Err ==> r == Err::<(), GraphError>(GraphError::OutOfRange),
            r is Err ==> final(self)@ == old(self)@,
            r is Ok ==> final(self)@.graph.nodes.len() == old(self)@.graph.nodes.len(),
            r is Ok ==> final(self)@.graph.edges.len() == old(self)@.graph.edges.len() - 1,
            r is Ok ==> final(self)@.graph.states() == old(self)@.graph.states(),
            r is Ok ==> final(self)@.graph.arrows() == old(self)@.graph.arrows().remove(
                index as int,
            ),
            r is Ok ==> final(self)@.selection == old(self)@.selection && !final(self)@.stable,
            final(self)@.well_formed(),
    {
        let ghost before = self.graph@;
        let r = self.graph.remove_transition(index);
        if r.is_ok() {
            self.stable = false;
            assert(self.graph@.states().len() == self.graph@.nodes.len());
            assert(before.states().len() == before.nodes.len());
        }
        r
    }

    /// The user drags node `index` to `position`: the node is there from now
    /// on, and the layout has to run again from this new ground. Refused,
    /// with the session unchanged, where the handle names no node.
    pub fn drag(&mut self, index: NodeIndex, position: egui::Pos2) -> (r: Result<(), GraphError>)
        requires
            old(self)@.well_formed(),
        ensures
            r is Ok <==> index < old(self)@.graph.nodes.len(),
            r is Err ==> r == Err::<(), GraphError>(GraphError::OutOfRange),
            r is Err ==> final(self)@ == old(self)@,
            r is Ok ==> final(self)@.graph.edges == old(self)@.graph.edges,
            r is Ok ==> final(self)@.graph.nodes[index as int].state.position == position,
            r is Ok ==> final(self)@.graph.same_nodes_but(old(self)@.graph, index as int),
            r is Ok ==> final(self)@.selection == old(self)@.selection && !final(self)@.stable,
            final(self)@.well_formed(),
    {
        let r = self.graph.set_position(index, position);
        if r.is_ok() {
            self.stable = false;
        }
        r
    }

    /// The layout moves node `index` to `position`. This disturbs nothing:
    /// whether the layout is at rest is for `settle` to say. Refused, with
    /// the session unchanged, where the handle names no node.
    pub fn place(&mut self, index: NodeIndex, position: egui::Pos2) -> (r: Result<(), GraphError>)
        requires
            old(self)@.well_formed(),
        ensures
            r is Ok <==> index < old(self)@.graph.nodes.len(),
            r is Err ==> r == Err::<(), GraphError>(GraphError::OutOfRange),
            r is Err ==> final(self)@ == old(self)@,
            r is Ok ==> final(self)@.graph.edges == old(self)@.graph.edges,
            r is Ok ==> final(self)@.graph.nodes[index as int].state.position == position,
            r is Ok ==> final(self)@.graph.same_nodes_but(old(self)@.graph, index as int),
            r is Ok ==> final(self)@.selection == old(self)@.selection && final(self)@.stable
                == old(self)@.stable,
            final(self)@.well_formed(),
    {
        self.graph.set_position(index, position)
    }

    /// Gives node `index` the name `name`. Neither the selection nor the
    /// layout is disturbed. Refused, with the session unchanged, where the
    /// handle names no node.
    pub fn set_name(&mut self, index: NodeIndex, name: String) -> (r: Result<(), GraphError>)
        requires
            old(self)@.well_formed(),
        ensures
            r is Ok <==> index < old(self)@.graph.nodes.len(),
            r is Err ==> r == Err::<(), GraphError>(GraphError::OutOfRange),
            r is Err ==> final(self)@ == old(self)@,
            r is Ok ==> final(self)@.graph.edges == old(self)@.graph.edges,
            r is Ok ==> final(self)@.graph.nodes[index as int].state.name == name,
            r is Ok ==> final(self)@.graph.same_nodes_but(old(self)@.graph, index as int),
            r is Ok ==> final(self)@.selection == old(self)@.selection && final(self)@.stable
                == old(self)@.stable,
            final(self)@.well_formed(),
    {
        self.graph.set_name(index, name)
    }

    /// Gives edge `index` the text `text`. Neither the selection nor the
    /// layout is disturbed. Refused, with the session unchanged, where the
    /// handle names no edge.
    pub fn set_text(&mut self, index: EdgeIndex, text: String) -> (r: Result<(), GraphError>)
        requires
            old(self)@.well_formed(),
        ensures
            r is Ok <==> index < old(self)@.graph.edges.len(),
            r is Err ==> r == Err::<(), GraphError>(GraphError::OutOfRange),
            r is Err ==> final(self)@ == old(self)@,
            r is Ok ==> final(self)@.graph.nodes == old(self)@.graph.nodes,
            r is Ok ==> final(self)@.graph.edges[index as int].transition.text == text,
            r is Ok ==> final(self)@.graph.same_edges_but(old(self)@.graph, index as int),
            r is Ok ==> final(self)@.selection == old(self)@.selection && final(self)@.stable
                == old(self)@.stable,
            final(self)@.well_formed(),
    {
        self.graph.set_text(index, text)
    }

    /// Records what a step of the layout found: at rest or not.
    pub fn settle(&mut self, stable: bool)
        ensures
            final(self)@.graph == old(self)@.graph,
            final(self)@.selection == old(self)@.selection,
            final(self)@.stable == stable,
    {
        self.stable = stable;
    }
}

} // verus!
