//! The selection rules: what a click does, given what is selected and what
//! the pointer hit.

use vstd::prelude::*;
use crate::turing::NodeIndex;

verus! {

/// What is selected. At most one thing is.
#[derive(Clone, Copy, Debug, PartialEq, Eq, Structural)]
pub enum Selection {
    /// Nothing.
    Idle,
    /// A node.
    NodeSelected(NodeIndex),
    /// The group of transitions from the first node to the second.
    TransitionSelected(NodeIndex, NodeIndex),
}

/// What the pointer hit.
#[derive(Clone, Copy, Debug, PartialEq, Eq, Structural)]
pub enum Click {
    /// The empty canvas.
    Canvas,
    /// The empty canvas, twice in a row.
    CanvasDouble,
    /// A node.
    Node(NodeIndex),
    /// A label of the group of transitions from the first node to the second.
    Label(NodeIndex, NodeIndex),
}

/// What a click asks of the editor, beyond the change of selection.
#[derive(Clone, Copy, Debug, PartialEq, Eq, Structural)]
pub enum Action {
    /// Nothing.
    Nothing,
    /// A new node where the pointer is.
    CreateNode,
    /// A new transition from the first node to the second.
    CreateTransition(NodeIndex, NodeIndex),
    /// The view is reframed to fit the content; the graph stays as it is.
    Reframe,
}

impl Action {
    /// The action changes the graph, so the layout has to run again.
    pub open spec fn disturbs(self) -> bool {
        self is CreateNode || self is CreateTransition
    }

    /// Whether the action changes the graph.
    pub fn changes_graph(self) -> (b: bool)
        ensures
            b == self.disturbs(),
    {
        match self {
            Action::CreateNode => true,
            Action::CreateTransition(_, _) => true,
            Action::Nothing => false,
            Action::Reframe => false,
        }
    }
}

/// The selection after `click`.
pub open spec fn selection_after(selection: Selection, click: Click) -> Selection {
    match click {
        Click::Canvas => Selection::Idle,
        Click::CanvasDouble => selection,
        Click::Node(b) => match selection {
            Selection::NodeSelected(_) => Selection::Idle,
            _ => Selection::NodeSelected(b),
        },
        Click::Label(source, target) => Selection::TransitionSelected(source, target),
    }
}

/// What `click` asks for.
pub open spec fn action_of(selection: Selection, click: Click) -> Action {
    match click {
        Click::Canvas => if selection is Idle {
            Action::CreateNode
        } else {
            Action::Nothing
        },
        Click::CanvasDouble => Action::Reframe,
        Click::Node(b) => match selection {
            Selection::NodeSelected(a) => Action::CreateTransition(a, b),
            _ => Action::Nothing,
        },
        Click::Label(_, _) => Action::Nothing,
    }
}

impl Selection {
    /// Every handle that the selection names is below `count`.
    pub open spec fn within(self, count: int) -> bool {
        match self {
            Selection::Idle => true,
            Selection::NodeSelected(a) => a < count,
            Selection::TransitionSelected(source, target) => source < count && target < count,
        }
    }

    /// One step of the selection rules: the selection after `click`, and
    /// what the click asks for.
    pub fn on_click(self, click: Click) -> (r: (Selection, Action))
        ensures
            r.0 == selection_after(self, click),
            r.1 == action_of(self, click),
    {
        match click {
            Click::Canvas => match self {
                Selection::Idle => (Selection::Idle, Action::CreateNode),
                _ => (Selection::Idle, Action::Nothing),
            },
            Click::CanvasDouble => (self, Action::Reframe),
            Click::Node(b) => match self {
                Selection::NodeSelected(a) => (Selection::Idle, Action::CreateTransition(a, b)),
                _ => (Selection::NodeSelected(b), Action::Nothing),
            },
            Click::Label(source, target) => (
                Selection::TransitionSelected(source, target),
                Action::Nothing,
            ),
        }
    }
}

impl Click {
    /// Every handle that the click names is below `count`.
    pub open spec fn within(self, count: int) -> bool {
        match self {
            Click::Canvas => true,
            Click::CanvasDouble => true,
            Click::Node(b) => b < count,
            Click::Label(source, target) => source < count && target < count,
        }
    }

    /// Whether every handle that the click names is below `count`.
    pub fn is_within(self, count: usize) -> (b: bool)
        ensures
            b == self.within(count as int),
    {
        match self {
            Click::Canvas => true,
            Click::CanvasDouble => true,
            Click::Node(b) => b < count,
            Click::Label(source, target) => source < count && target < count,
        }
    }
}

/// A click on valid handles leaves a selection on valid handles, and asks
/// only for transitions between nodes that exist.
pub proof fn law_selection_stays_valid(selection: Selection, click: Click, count: int)
    requires
        selection.within(count),
        click.within(count),
    ensures
        selection_after(selection, click).within(count),
        action_of(selection, click) matches Action::CreateTransition(a, b) ==> a < count && b
            < count,
{
}

/// A click changes the graph only from the idle canvas and from a node to a
/// node; a click on a label selects its group whatever was selected.
pub proof fn law_clicks(selection: Selection, click: Click)
    ensures
        action_of(selection, click) is CreateNode <==> click is Canvas && selection is Idle,
        action_of(selection, click) is CreateTransition <==> click is Node
            && selection is NodeSelected,
        click matches Click::Label(s, t) ==> selection_after(selection, click)
            == Selection::TransitionSelected(s, t),
        action_of(selection, click).disturbs() ==> selection_after(selection, click) is Idle,
{
}

} // verus!
