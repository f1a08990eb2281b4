use ritm_core::iteration_tree::{IterationTree, NodeType};
use ritm_core::turing_graph::TuringStateType;
use ritm_core::turing_machine::{Mode, TuringExecutionSteps, TuringMachine, TuringMachineError};
use ritm_core::turing_parser::parse_turing_graph_string;
use ritm_core::turing_tape::TuringTapeError;
use ritm_core::{EmptyState, EmptyTransition, SimpleTuringGraph, SimpleTuringMachine};

fn copy_machine_graph() -> SimpleTuringGraph {
    parse_turing_graph_string::<EmptyState, EmptyTransition>(String::from(
        "accepting = q_a;
         q_i {ç, ç -> R, ç, R} q_r;
         q_r {0, _ -> R, 0, R | 1, _ -> R, 1, R} q_r;
         q_r {$, _ -> N, _, N} q_a;",
    ))
    .expect("valid machine")
}

fn choice_machine_graph() -> SimpleTuringGraph {
    parse_turing_graph_string::<EmptyState, EmptyTransition>(String::from(
        "accepting = q_a;
         q_i {ç, ç -> R, ç, R} q_1;
         q_1 {0, _ -> R, _, N} q_2;
         q_1 {0, _ -> R, _, N} q_3;
         q_3 {$, _ -> N, _, N} q_a;",
    ))
    .expect("valid machine")
}

fn collect_steps(machine: &mut SimpleTuringMachine) -> Vec<TuringExecutionSteps> {
    let mut steps = Vec::new();
    while let Some(step) = machine.next() {
        steps.push(step);
    }
    steps
}

#[test]
fn machine_copies_word() {
    let mut machine =
        TuringMachine::new(copy_machine_graph(), String::from("01"), Mode::SaveAll).unwrap();
    let steps = collect_steps(&mut machine);
    assert_eq!(steps.len(), 5);
    assert!(matches!(steps[0], TuringExecutionSteps::FirstIteration { .. }));
    assert_eq!(steps[0].get_nb_iterations(), 0);
    assert_eq!(steps[4].get_nb_iterations(), 4);
    assert_eq!(steps[4].get_current_state().get_name(), "a");
    assert_eq!(
        steps[4].get_current_state().get_type(),
        TuringStateType::Accepting
    );
    let tapes = steps[4].get_tapes();
    assert_eq!(tapes.len(), 2);
    assert_eq!(tapes[0].get_contents(), &vec!['ç', '0', '1', '$']);
    assert_eq!(tapes[0].get_pointer(), 3);
    assert_eq!(tapes[1].get_contents(), &vec!['ç', '0', '1', '_']);
    assert!(machine.is_over());
    assert_eq!(machine.get_iteration(), 6);
    // An execution that is over stays over.
    assert!(machine.next().is_none());
}

#[test]
fn machine_rejects_word_with_unknown_symbol() {
    let mut machine =
        TuringMachine::new(copy_machine_graph(), String::from("02"), Mode::SaveAll).unwrap();
    let steps = collect_steps(&mut machine);
    assert_eq!(steps.len(), 3);
    assert_eq!(steps[2].get_current_state().get_name(), "r");
    assert!(
        machine
            .get_path_to_accept(|| true)
            .is_none()
    );
}

#[test]
fn machine_backtracks() {
    let mut machine =
        TuringMachine::new(choice_machine_graph(), String::from("0"), Mode::SaveAll).unwrap();
    let steps = collect_steps(&mut machine);
    assert_eq!(steps.len(), 6);
    assert_eq!(steps[2].get_current_state().get_name(), "2");
    match &steps[3] {
        TuringExecutionSteps::Backtracked {
            backtracked_iteration,
            iteration,
            state_pointer,
            ..
        } => {
            assert_eq!(*backtracked_iteration, 1);
            assert_eq!(*iteration, 3);
            assert_eq!(*state_pointer, 2);
        }
        _ => panic!("a backtracking step was expected"),
    }
    assert_eq!(steps[4].get_current_state().get_name(), "3");
    assert_eq!(steps[5].get_current_state().get_name(), "a");
}

#[test]
fn path_to_accept_skips_undone_steps() {
    let mut machine =
        TuringMachine::new(choice_machine_graph(), String::from("0"), Mode::SaveAll).unwrap();
    let path = machine.get_path_to_accept(|| true).expect("an accepting path");
    let names: Vec<String> = path
        .iter()
        .map(|s| s.get_current_state().get_name())
        .collect();
    assert_eq!(names, vec!["i", "1", "3", "a"]);
    let iterations: Vec<usize> = path.iter().map(|s| s.get_nb_iterations()).collect();
    assert_eq!(iterations, vec![0, 1, 4, 5]);
}

#[test]
fn path_to_accept_stops_on_request() {
    let mut machine =
        TuringMachine::new(choice_machine_graph(), String::from("0"), Mode::SaveAll).unwrap();
    let mut calls = 0;
    let res = machine.get_path_to_accept(|| {
        calls += 1;
        calls < 3
    });
    assert!(res.is_none());
    assert_eq!(calls, 3);
}

#[test]
fn stop_first_reject_does_not_backtrack() {
    let mut machine =
        TuringMachine::new(choice_machine_graph(), String::from("0"), Mode::StopFirstReject)
            .unwrap();
    let steps = collect_steps(&mut machine);
    assert_eq!(steps.len(), 3);
    assert_eq!(machine.get_memory().len(), 1);
    assert!(machine.get_path_to_accept(|| true).is_none());
}

#[test]
fn stop_after_limits_iterations() {
    let mut machine =
        TuringMachine::new(copy_machine_graph(), String::from("0101"), Mode::StopAfter(2))
            .unwrap();
    let steps = collect_steps(&mut machine);
    assert_eq!(steps.len(), 2);
    assert_eq!(machine.get_iteration(), 2);
    machine.set_mode(&Mode::SaveAll);
    assert_eq!(collect_steps(&mut machine).len(), 5);
}

#[test]
fn reset_restarts_execution() {
    let mut machine =
        TuringMachine::new(copy_machine_graph(), String::from("1"), Mode::SaveAll).unwrap();
    let first = collect_steps(&mut machine);
    machine.reset();
    assert_eq!(machine.get_iteration(), 0);
    assert!(!machine.is_over());
    assert!(machine.get_last_step().is_none());
    assert_eq!(machine.get_state_pointer(), 0);
    let second = collect_steps(&mut machine);
    assert_eq!(first.len(), second.len());
    for (a, b) in first.iter().zip(second.iter()) {
        assert_eq!(a.to_text(), b.to_text());
    }
}

#[test]
fn reset_word_refuses_special_characters() {
    let mut machine =
        TuringMachine::new(copy_machine_graph(), String::from("1"), Mode::SaveAll).unwrap();
    match machine.reset_word(&String::from("1$")) {
        Err(TuringMachineError::TapeError(TuringTapeError::IllegalInputError {
            word,
            illegal_char,
        })) => {
            assert_eq!(word, "1$");
            assert_eq!(illegal_char, '$');
        }
        _ => panic!("an illegal input error was expected"),
    }
    assert_eq!(machine.get_word(), "1");
    machine.reset_word(&String::from("00")).unwrap();
    assert_eq!(machine.get_word(), "00");
    assert_eq!(collect_steps(&mut machine).len(), 5);
}

#[test]
fn new_machine_refuses_special_characters() {
    match TuringMachine::new(copy_machine_graph(), String::from("aç"), Mode::SaveAll) {
        Err(TuringMachineError::TapeError(TuringTapeError::IllegalInputError {
            illegal_char,
            ..
        })) => assert_eq!(illegal_char, 'ç'),
        _ => panic!("an illegal input error was expected"),
    }
}

#[test]
fn step_and_mode_texts() {
    let mut machine =
        TuringMachine::new(copy_machine_graph(), String::from("0"), Mode::SaveAll).unwrap();
    let first = machine.next().unwrap();
    assert_eq!(
        first.to_text(),
        "* Initial state : (0: i, Normal)\n* Tapes:\n[ç,0,$]\n ↑     \n[ç,_]\n ↑   "
    );
    let second = machine.next().unwrap();
    assert_eq!(
        second.to_text(),
        "* Left state : (0: i, Normal)\n* Current state : (2: r, Normal)\n* Took the following transition : ç, ç -> R, ç, R\n* Tapes:\n[ç,0,$]\n   ↑   \n[ç,_]\n   ↑ "
    );
    assert_eq!(Mode::StopAfter(12).to_text(), "Stops After 12 iterations");
    assert_eq!(Mode::SaveAll.to_text(), "Saves All and does a full exploration");
}

#[test]
fn no_step_finds_no_path() {
    let mut machine =
        TuringMachine::new(copy_machine_graph(), String::from("01"), Mode::StopAfter(0)).unwrap();
    assert!(machine.get_path_to_accept(|| true).is_none());
}

#[test]
fn refusing_exit_condition_finds_no_path() {
    let mut machine =
        TuringMachine::new(copy_machine_graph(), String::from("01"), Mode::SaveAll).unwrap();
    assert!(machine.get_path_to_accept(|| false).is_none());
    assert!(machine.get_path_to_accept(|| true).is_some());
}

#[test]
fn iteration_tree_branches_on_backtrack() {
    let mut machine =
        TuringMachine::new(choice_machine_graph(), String::from("0"), Mode::SaveAll).unwrap();
    let mut tree = IterationTree::new();
    while let Some(step) = machine.next() {
        tree.add_step(step);
    }
    assert_eq!(tree.len(), 6);
    assert_eq!(tree.get_node(0).parent_id, None);
    assert_eq!(tree.get_node(0).children, vec![1]);
    assert_eq!(tree.get_node(1).children, vec![2, 4]);
    assert_eq!(tree.get_node(2).children, vec![3]);
    assert_eq!(tree.get_node(3).parent_id, Some(2));
    assert_eq!(tree.get_node(3).node_type, NodeType::Rejecting);
    assert_eq!(tree.get_node(4).parent_id, Some(1));
    assert_eq!(tree.get_node(5).parent_id, Some(4));
    assert_eq!(tree.get_node(5).node_type, NodeType::Accepting);
    assert_eq!(tree.get_node(1).node_type, NodeType::Normal);
    assert_eq!(tree.get_next_parent(), 5);
    assert!(!tree.has_children(5));
}
