use turing_graph::selection::{Action, Click, Selection};

#[test]
fn click_on_canvas_while_idle_creates_a_node() {
    assert_eq!(Selection::Idle.on_click(Click::Canvas), (Selection::Idle, Action::CreateNode));
}

#[test]
fn click_on_canvas_deselects() {
    assert_eq!(
        Selection::NodeSelected(2).on_click(Click::Canvas),
        (Selection::Idle, Action::Nothing)
    );
    assert_eq!(
        Selection::TransitionSelected(0, 1).on_click(Click::Canvas),
        (Selection::Idle, Action::Nothing)
    );
}

#[test]
fn click_on_node_selects_it() {
    assert_eq!(
        Selection::Idle.on_click(Click::Node(4)),
        (Selection::NodeSelected(4), Action::Nothing)
    );
    assert_eq!(
        Selection::TransitionSelected(0, 1).on_click(Click::Node(3)),
        (Selection::NodeSelected(3), Action::Nothing)
    );
}

#[test]
fn click_on_node_while_node_selected_creates_a_transition() {
    assert_eq!(
        Selection::NodeSelected(1).on_click(Click::Node(2)),
        (Selection::Idle, Action::CreateTransition(1, 2))
    );
    assert_eq!(
        Selection::NodeSelected(1).on_click(Click::Node(1)),
        (Selection::Idle, Action::CreateTransition(1, 1))
    );
}

#[test]
fn click_on_label_selects_its_group_from_any_state() {
    for state in [
        Selection::Idle,
        Selection::NodeSelected(0),
        Selection::TransitionSelected(5, 6),
    ] {
        assert_eq!(
            state.on_click(Click::Label(2, 3)),
            (Selection::TransitionSelected(2, 3), Action::Nothing)
        );
    }
}

#[test]
fn double_click_reframes_and_keeps_the_selection() {
    for state in [
        Selection::Idle,
        Selection::NodeSelected(0),
        Selection::TransitionSelected(5, 6),
    ] {
        assert_eq!(state.on_click(Click::CanvasDouble), (state, Action::Reframe));
    }
}

#[test]
fn only_creations_change_the_graph() {
    assert!(Action::CreateNode.changes_graph());
    assert!(Action::CreateTransition(0, 1).changes_graph());
    assert!(!Action::Nothing.changes_graph());
    assert!(!Action::Reframe.changes_graph());
}

#[test]
fn click_handles_are_held_to_the_node_count() {
    assert!(Click::Canvas.is_within(0));
    assert!(Click::CanvasDouble.is_within(0));
    assert!(Click::Node(2).is_within(3));
    assert!(!Click::Node(3).is_within(3));
    assert!(Click::Label(0, 2).is_within(3));
    assert!(!Click::Label(3, 0).is_within(3));
    assert!(!Click::Label(0, 3).is_within(3));
}
