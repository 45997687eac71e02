use egui::pos2;
use turing_graph::layout::{influences, Influence, Pull};
use turing_graph::turing::{State, Transition, Turing};

fn nodes(count: usize) -> Turing {
    let mut g = Turing::new();
    for i in 0..count {
        g.add_state(State::new_at_pos(format!("N{}", i), pos2(i as f32 * 200.0, 0.0)));
    }
    g
}

#[test]
fn single_node_is_acted_on_by_nothing() {
    let g = nodes(1);
    assert_eq!(influences(&g, 0), Vec::<Influence>::new());
}

#[test]
fn unknown_node_has_no_influences() {
    let g = nodes(2);
    assert_eq!(influences(&g, 2), Vec::<Influence>::new());
    assert_eq!(influences(&Turing::new(), 0), Vec::<Influence>::new());
}

#[test]
fn every_other_node_acts_once() {
    let mut g = nodes(4);
    g.add_transition(Transition::default(), 0, 2).unwrap();
    g.add_transition(Transition::default(), 3, 0).unwrap();
    assert_eq!(
        influences(&g, 0),
        vec![
            Influence { other: 1, pull: Pull::Repulsion },
            Influence { other: 2, pull: Pull::Spring },
            Influence { other: 3, pull: Pull::Spring },
        ]
    );
    assert_eq!(
        influences(&g, 2),
        vec![
            Influence { other: 0, pull: Pull::Spring },
            Influence { other: 1, pull: Pull::Repulsion },
            Influence { other: 3, pull: Pull::Repulsion },
        ]
    );
    assert_eq!(
        influences(&g, 3),
        vec![
            Influence { other: 0, pull: Pull::Spring },
            Influence { other: 1, pull: Pull::Repulsion },
            Influence { other: 2, pull: Pull::Repulsion },
        ]
    );
}

#[test]
fn cycle_of_three_is_all_springs() {
    let mut g = nodes(3);
    g.add_transition(Transition::default(), 0, 1).unwrap();
    g.add_transition(Transition::default(), 1, 2).unwrap();
    g.add_transition(Transition::default(), 2, 0).unwrap();
    for n in 0..3 {
        let acting = influences(&g, n);
        assert_eq!(acting.len(), 2);
        assert!(acting.iter().all(|i| i.pull == Pull::Spring && i.other != n));
    }
}

#[test]
fn self_loop_pulls_on_no_other_node() {
    let mut g = nodes(2);
    g.add_transition(Transition::default(), 0, 0).unwrap();
    assert_eq!(influences(&g, 0), vec![Influence { other: 1, pull: Pull::Repulsion }]);
    assert_eq!(influences(&g, 1), vec![Influence { other: 0, pull: Pull::Repulsion }]);
}
