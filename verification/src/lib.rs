//! Core of a Turing machine simulator: tapes, transitions, machine graphs,
//! a text format for graphs and a step-by-step, backtracking executor.
use vstd::prelude::*;

pub mod iteration_tree;
pub mod text;
pub mod text_roundtrip;
pub mod transition_edit;
pub mod turing_graph;
pub mod turing_index;
pub mod turing_machine;
pub mod turing_parser;
pub mod turing_tape;
pub mod turing_transition;

verus! {

/// State data that carries nothing.
#[derive(Debug, Clone, Default, PartialEq)]
pub struct EmptyState;

/// Transition data that carries nothing.
#[derive(Debug, Clone, Default, PartialEq)]
pub struct EmptyTransition;

impl turing_graph::TuringState for EmptyState {
    fn new_init() -> Self {
        EmptyState
    }

    fn new_accepting() -> Self {
        EmptyState
    }
}

impl turing_transition::TuringTransition for EmptyTransition {

}

/// A graph whose states and transitions carry no data of their own.
pub type SimpleTuringGraph = turing_graph::TuringGraph<EmptyState, EmptyTransition>;

/// A machine whose graph carries no data of its own.
pub type SimpleTuringMachine = turing_machine::TuringMachine<EmptyState, EmptyTransition>;

} // verus!
