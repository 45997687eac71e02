//! Graph store, selection rules and routing decisions of a state-machine editor.

pub mod editor;
pub mod laws;
pub mod layout;
mod lemmas;
pub mod model;
pub mod routing;
pub mod selection;
pub mod turing;
