use egui::pos2;
use turing_graph::editor::Editor;
use turing_graph::routing::{route, Route};
use turing_graph::selection::{Action, Click, Selection};
use turing_graph::turing::{GraphError, State, Transition, Turing};

fn two_nodes() -> Editor {
    let mut editor = Editor::new();
    assert_eq!(editor.click(Click::Canvas, pos2(0.0, 0.0)), Ok(Action::CreateNode));
    assert_eq!(editor.click(Click::Canvas, pos2(100.0, 0.0)), Ok(Action::CreateNode));
    editor.settle(true);
    editor
}

#[test]
fn new_session_is_idle_and_at_rest() {
    let editor = Editor::new();
    assert_eq!(editor.selection(), Selection::Idle);
    assert!(editor.is_stable());
    assert_eq!(editor.graph().node_count(), 0);
}

#[test]
fn click_on_idle_canvas_adds_a_node_there() {
    let mut editor = Editor::new();
    assert_eq!(editor.click(Click::Canvas, pos2(12.0, 34.0)), Ok(Action::CreateNode));
    assert_eq!(editor.selection(), Selection::Idle);
    assert!(!editor.is_stable());
    assert_eq!(editor.graph().node_count(), 1);
    let node = editor.graph().node(0).unwrap();
    assert_eq!(node.state.name, "Test");
    assert_eq!(node.state.position, pos2(12.0, 34.0));
    assert_eq!(node.edge, None);
}

#[test]
fn two_clicks_on_nodes_add_a_transition() {
    let mut editor = two_nodes();
    assert_eq!(editor.click(Click::Node(0), pos2(0.0, 0.0)), Ok(Action::Nothing));
    assert_eq!(editor.selection(), Selection::NodeSelected(0));
    assert!(editor.is_stable());
    assert_eq!(
        editor.click(Click::Node(1), pos2(0.0, 0.0)),
        Ok(Action::CreateTransition(0, 1))
    );
    assert_eq!(editor.selection(), Selection::Idle);
    assert!(!editor.is_stable());
    assert_eq!(editor.graph().edge_count(), 1);
    let edge = editor.graph().edge(0).unwrap();
    assert_eq!((edge.source, edge.target), (0, 1));
    assert_eq!(edge.transition.text, "");
    assert_eq!(editor.graph().node_count(), 2);
}

#[test]
fn click_on_canvas_with_a_selection_only_deselects() {
    let mut editor = two_nodes();
    editor.click(Click::Node(1), pos2(0.0, 0.0)).unwrap();
    assert_eq!(editor.click(Click::Canvas, pos2(50.0, 50.0)), Ok(Action::Nothing));
    assert_eq!(editor.selection(), Selection::Idle);
    assert_eq!(editor.graph().node_count(), 2);
    assert!(editor.is_stable());
}

#[test]
fn click_on_label_overrides_the_selection() {
    let mut editor = two_nodes();
    editor.click(Click::Node(1), pos2(0.0, 0.0)).unwrap();
    assert_eq!(editor.click(Click::Label(0, 1), pos2(0.0, 0.0)), Ok(Action::Nothing));
    assert_eq!(editor.selection(), Selection::TransitionSelected(0, 1));
    assert_eq!(editor.graph().edge_count(), 0);
}

#[test]
fn double_click_changes_nothing_but_asks_to_reframe() {
    let mut editor = two_nodes();
    editor.click(Click::Node(1), pos2(0.0, 0.0)).unwrap();
    assert_eq!(editor.click(Click::CanvasDouble, pos2(0.0, 0.0)), Ok(Action::Reframe));
    assert_eq!(editor.selection(), Selection::NodeSelected(1));
    assert_eq!(editor.graph().node_count(), 2);
    assert!(editor.is_stable());
}

#[test]
fn click_on_unknown_node_is_refused() {
    let mut editor = two_nodes();
    editor.click(Click::Node(0), pos2(0.0, 0.0)).unwrap();
    assert_eq!(editor.click(Click::Node(2), pos2(0.0, 0.0)), Err(GraphError::OutOfRange));
    assert_eq!(editor.click(Click::Label(0, 2), pos2(0.0, 0.0)), Err(GraphError::OutOfRange));
    assert_eq!(editor.selection(), Selection::NodeSelected(0));
    assert_eq!(editor.graph().edge_count(), 0);
    assert!(editor.is_stable());
}

#[test]
fn every_edit_of_the_graph_unsettles_the_layout() {
    let mut editor = two_nodes();
    editor.click(Click::Node(0), pos2(0.0, 0.0)).unwrap();
    editor.click(Click::Node(1), pos2(0.0, 0.0)).unwrap();
    editor.settle(true);
    assert!(editor.is_stable());
    assert_eq!(editor.drag(1, pos2(5.0, 5.0)), Ok(()));
    assert!(!editor.is_stable());
    assert_eq!(editor.graph().position(1), Ok(pos2(5.0, 5.0)));
    editor.settle(true);
    assert_eq!(editor.place(0, pos2(1.0, 1.0)), Ok(()));
    assert!(editor.is_stable());
    assert_eq!(editor.graph().position(0), Ok(pos2(1.0, 1.0)));
    assert_eq!(editor.remove_transition(0), Ok(()));
    assert!(!editor.is_stable());
    assert_eq!(editor.graph().edge_count(), 0);
    editor.settle(true);
    editor.click(Click::Node(1), pos2(0.0, 0.0)).unwrap();
    assert_eq!(editor.remove_state(0), Ok(()));
    assert!(!editor.is_stable());
    assert_eq!(editor.selection(), Selection::Idle);
    assert_eq!(editor.graph().node_count(), 1);
    assert_eq!(editor.graph().position(0), Ok(pos2(5.0, 5.0)));
}

#[test]
fn refused_edits_leave_the_session_alone() {
    let mut editor = two_nodes();
    editor.click(Click::Node(1), pos2(0.0, 0.0)).unwrap();
    assert_eq!(editor.remove_state(2), Err(GraphError::OutOfRange));
    assert_eq!(editor.remove_transition(0), Err(GraphError::OutOfRange));
    assert_eq!(editor.drag(2, pos2(0.0, 0.0)), Err(GraphError::OutOfRange));
    assert_eq!(editor.place(2, pos2(0.0, 0.0)), Err(GraphError::OutOfRange));
    assert!(editor.is_stable());
    assert_eq!(editor.selection(), Selection::NodeSelected(1));
    assert_eq!(editor.graph().node_count(), 2);
}

#[test]
fn load_replaces_the_store() {
    let mut editor = two_nodes();
    editor.click(Click::Node(1), pos2(0.0, 0.0)).unwrap();
    let mut g = Turing::new();
    g.add_state(State::new_at_pos("only".to_string(), pos2(9.0, 9.0)));
    g.add_transition(Transition { text: "self".to_string() }, 0, 0).unwrap();
    editor.load(g);
    assert_eq!(editor.selection(), Selection::Idle);
    assert!(!editor.is_stable());
    assert_eq!(editor.graph().node_count(), 1);
    assert_eq!(editor.graph().edge_count(), 1);
    assert_eq!(editor.graph().node(0).unwrap().state.name, "only");
}

#[test]
fn antiparallel_arcs_get_opposite_flags() {
    let mut g = Turing::new();
    g.add_state(State::new_at_pos("A".to_string(), pos2(0.0, 0.0)));
    g.add_state(State::new_at_pos("B".to_string(), pos2(100.0, 0.0)));
    g.add_transition(Transition::default(), 0, 1).unwrap();
    assert_eq!(route(&g, 0, 1), Route::Arc { reverse: false });
    assert_eq!(route(&g, 1, 0), Route::Arc { reverse: false });
    g.add_transition(Transition::default(), 1, 0).unwrap();
    assert_eq!(g.is_adjacent(0, 1), 2);
    assert_eq!(route(&g, 0, 1), Route::Arc { reverse: false });
    assert_eq!(route(&g, 1, 0), Route::Arc { reverse: true });
}

#[test]
fn self_loop_is_routed_as_a_loop() {
    let mut g = Turing::new();
    g.add_state(State::new_at_pos("A".to_string(), pos2(0.0, 0.0)));
    g.add_transition(Transition::default(), 0, 0).unwrap();
    assert_eq!(route(&g, 0, 0), Route::Loop);
    assert_eq!(route(&g, 3, 3), Route::Loop);
}

#[test]
fn route_is_the_same_on_every_call() {
    let mut g = Turing::new();
    g.add_state(State::new_at_pos("A".to_string(), pos2(0.0, 0.0)));
    g.add_state(State::new_at_pos("B".to_string(), pos2(100.0, 0.0)));
    g.add_transition(Transition::default(), 0, 1).unwrap();
    g.add_transition(Transition::default(), 1, 0).unwrap();
    for _ in 0..3 {
        assert_eq!(route(&g, 1, 0), Route::Arc { reverse: true });
        assert_eq!(route(&g, 0, 1), Route::Arc { reverse: false });
    }
}
