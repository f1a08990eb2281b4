use ritm_core::turing_graph::{TuringGraphError, TuringGraphIndex, TuringStateType};
use ritm_core::turing_index::{TransitionId, TuringStateIndex, TuringTransitionIndex};
use ritm_core::turing_machine::TuringMachineError;
use ritm_core::turing_parser::{
    TuringParserError, graph_to_string, parse_transition_string, parse_turing_graph_string,
};
use ritm_core::turing_tape::{TuringTape, TuringTapeError};
use ritm_core::turing_transition::{
    MatchSymbol, TransitionMultRibbonInfo, TransitionsInfo, TuringDirection, TuringTransitionError,
    TuringTransitionWrapper,
};
use ritm_core::{EmptyState, EmptyTransition, SimpleTuringGraph};

fn parse(text: &str) -> Result<SimpleTuringGraph, TuringParserError> {
    parse_turing_graph_string::<EmptyState, EmptyTransition>(String::from(text))
}

#[test]
fn remove_transition_undoes_append() {
    let mut graph = SimpleTuringGraph::new(1, true).unwrap();
    let before = graph.clone();
    let t = TuringTransitionWrapper::create(
        vec!['ç', 'ç'],
        vec!['ç'],
        vec![TuringDirection::Right, TuringDirection::Right],
    )
    .unwrap();
    graph.append_transition("i", t.clone(), "a").unwrap();
    assert_ne!(graph, before);
    graph.remove_transition("i", &t, "a").unwrap();
    assert_eq!(graph, before);
}

#[test]
fn append_then_get_keeps_order() {
    let mut graph = SimpleTuringGraph::new(1, true).unwrap();
    let t1 = TuringTransitionWrapper::create(
        vec!['ç', 'ç'],
        vec!['ç'],
        vec![TuringDirection::Right, TuringDirection::Right],
    )
    .unwrap();
    let t2 = TuringTransitionWrapper::create(
        vec!['0', '_'],
        vec!['1'],
        vec![TuringDirection::Right, TuringDirection::Left],
    )
    .unwrap();
    graph.append_transition(0, t1.clone(), 1).unwrap();
    graph.append_transition(0, t2.clone(), 1).unwrap();
    let ts = graph.get_transitions(0, 1).unwrap().unwrap();
    assert_eq!(ts.len(), 2);
    assert_eq!(ts[0].info, t1.info);
    assert_eq!(ts[1].info, t2.info);
    assert!(matches!(
        graph.append_transition(0, t2.clone(), 1),
        Err(TuringGraphError::AlreadyPresentTransitionError { .. })
    ));
}

#[test]
fn incompatible_transition_is_refused() {
    let mut graph = SimpleTuringGraph::new(2, false).unwrap();
    let t = TuringTransitionWrapper::create(
        vec!['ç', 'ç'],
        vec!['ç'],
        vec![TuringDirection::Right, TuringDirection::Right],
    )
    .unwrap();
    match graph.append_transition(0, t, 0) {
        Err(TuringGraphError::IncompatibleTransitionError { expected, received }) => {
            assert_eq!(expected, 2);
            assert_eq!(received, 1);
        }
        _ => panic!("an incompatible transition error was expected"),
    }
}

#[test]
fn rename_then_get() {
    let mut graph = SimpleTuringGraph::new(1, true).unwrap();
    graph.rename_state("a", "accept").unwrap();
    assert_eq!(graph.get_state("accept").unwrap().get_id(), 1);
    assert!(matches!(
        graph.get_state("a"),
        Err(TuringGraphError::UnknownStateIndex { .. })
    ));
    match graph.rename_state(0, "accept") {
        Err(TuringGraphError::AlreadyPresentNameError { name, state }) => {
            assert_eq!(name, "accept");
            assert_eq!(state.get_id(), 1);
        }
        _ => panic!("a name error was expected"),
    }
}

#[test]
fn removed_state_loses_its_transitions() {
    let mut graph = SimpleTuringGraph::new(1, true).unwrap();
    let b = graph.add_state("b", TuringStateType::Normal);
    let t = TuringTransitionWrapper::create(
        vec!['ç', 'ç'],
        vec!['ç'],
        vec![TuringDirection::Right, TuringDirection::Right],
    )
    .unwrap();
    graph.append_transition(0, t.clone(), b).unwrap();
    graph.append_transition(b, t.clone(), 1).unwrap();
    graph.append_transition(0, t.clone(), 1).unwrap();
    graph.remove_state(b).unwrap();
    assert_eq!(graph.get_edges().len(), 1);
    assert_eq!(graph.get_edges()[0].get_from(), 0);
    assert_eq!(graph.get_edges()[0].get_to(), 1);
    assert_eq!(graph.get_states().len(), 2);
    // A new state gets a fresh id.
    assert_eq!(graph.add_state("b", TuringStateType::Normal), 3);
}

#[test]
fn valid_transitions_follow_reads() {
    let graph = parse(
        "q_i {ç, ç -> R, ç, R} q_1;
         q_i {ç, ç -> N, ç, R} q_2;
         q_1 {0, _ -> R, a, R} q_2;",
    )
    .unwrap();
    let found = graph.get_valid_transitions_indexes(0, &vec!['ç', 'ç']);
    assert_eq!(found, vec![(1, 0), (2, 0)]);
    assert!(graph.get_valid_transitions_indexes(0, &vec!['0', '_']).is_empty());
    let valid = graph.get_valid_transitions("1", vec!['0', '_']).unwrap();
    assert_eq!(valid.len(), 1);
    assert_eq!(valid[0].1, 2);
}

#[test]
fn graph_text_is_exact() {
    let graph = parse(
        "initial = qinit; // the start
        accepting = q_1, q_2;
        q_init {ç, ç -> R, ç, R} q_1;
        q1 {  0, _ -> R, a, R
           |  1, _ -> R, a, R} q3;",
    )
    .unwrap();
    assert_eq!(
        graph_to_string(&graph),
        "initial = q_init;\naccepting = q_1;\naccepting = q_2;\nq_init {ç, ç -> R, ç, R} q_1;\nq_1 {0, _ -> R, a, R | 1, _ -> R, a, R} q_3;\n"
    );
    assert_eq!(parse(&graph_to_string(&graph)).unwrap(), graph);
}

#[test]
fn empty_text_gives_initial_graph() {
    let graph = parse("  // nothing here\n").unwrap();
    assert_eq!(graph, SimpleTuringGraph::new(1, false).unwrap());
    assert_eq!(graph_to_string(&graph), "initial = q_i;\n");
}

#[test]
fn initial_with_its_own_name_changes_nothing() {
    let graph = parse("initial = q_i;").unwrap();
    assert_eq!(graph, SimpleTuringGraph::new(1, false).unwrap());
}

#[test]
fn initial_with_a_taken_name_fails() {
    match parse("q_i {ç, ç -> R, ç, R} q_1;\ninitial = q_1;") {
        Err(TuringParserError::TuringError {
            line_col_pos,
            turing_error,
            value,
        }) => {
            assert_eq!(line_col_pos, (2, 1));
            assert_eq!(value, "initial");
            assert!(matches!(
                *turing_error,
                TuringMachineError::GraphError(TuringGraphError::AlreadyPresentNameError { .. })
            ));
        }
        _ => panic!("a graph error was expected"),
    }
}

#[test]
fn parsing_error_positions() {
    match parse("q_i ç, ç -> R, ç, R} q_1;") {
        Err(TuringParserError::ParsingError {
            line_col_pos,
            value,
            missing_value,
        }) => {
            assert_eq!(line_col_pos, (1, 5));
            assert_eq!(value, "ç");
            assert_eq!(missing_value, Some(String::from("{")));
        }
        _ => panic!("a parsing error was expected"),
    }
    match parse("q_i {ç, ç -> R, ç, R} q_1;\n  q_1 {0 _ -> R, a, R} q_1;") {
        Err(TuringParserError::ParsingError {
            line_col_pos,
            value,
            missing_value,
        }) => {
            assert_eq!(line_col_pos, (2, 10));
            assert_eq!(value, "_");
            assert_eq!(missing_value, Some(String::from("->")));
        }
        _ => panic!("a parsing error was expected"),
    }
    match parse("q_i {ç, ç -> X, ç, R} q_1;") {
        Err(TuringParserError::ParsingError {
            line_col_pos,
            value,
            missing_value,
        }) => {
            assert_eq!(line_col_pos, (1, 14));
            assert_eq!(value, "X");
            assert_eq!(missing_value, None);
        }
        _ => panic!("a parsing error was expected"),
    }
}

#[test]
fn single_tape_first_transition_fails() {
    match parse("q_i {ç -> R} q_1;") {
        Err(TuringParserError::TuringError { turing_error, .. }) => assert!(matches!(
            *turing_error,
            TuringMachineError::GraphError(TuringGraphError::NotEnoughTapesError)
        )),
        _ => panic!("a graph error was expected"),
    }
}

#[test]
fn illegal_transition_is_reported() {
    match parse("q_i {$, ç -> R, ç, R} q_1;") {
        Err(TuringParserError::TuringError {
            line_col_pos,
            turing_error,
            value,
        }) => {
            assert_eq!(line_col_pos, (1, 6));
            assert_eq!(value, "$");
            assert!(matches!(
                *turing_error,
                TuringMachineError::TransitionError(TuringTransitionError::IllegalActionError(_))
            ));
        }
        _ => panic!("a transition error was expected"),
    }
}

#[test]
fn transition_string_with_trailing_text_fails() {
    assert!(matches!(
        parse_transition_string(String::from("q_1 {0, a -> R, b, L} q_2 q_3")),
        Err(TuringParserError::ParsingError { missing_value: None, .. })
    ));
    let (from, ts, to) =
        parse_transition_string(String::from("q_1 {0, a -> R, b, L | 1, a -> L, c, N} q__x"))
            .unwrap();
    assert_eq!(from, "1");
    assert_eq!(to, "_x");
    assert_eq!(ts.len(), 2);
    assert_eq!(ts[1].chars_write, vec![('c', TuringDirection::Neutral)]);
}

#[test]
fn tape_text_marks_head() {
    let mut tape = TuringTape::new(true);
    assert_eq!(tape.to_text(), "[ç,$]\n ↑   ");
    tape.feed_word(String::from("ab"), true).unwrap();
    tape.try_apply_transition(&MatchSymbol::Char('ç'), 'ç', &TuringDirection::Right)
        .unwrap();
    assert_eq!(tape.to_text(), "[ç,a,b,$]\n   ↑     ");
}

#[test]
fn reading_tape_end_is_out_of_range() {
    let mut tape = TuringTape::new(true);
    tape.try_apply_transition(&MatchSymbol::Char('ç'), 'ç', &TuringDirection::Right)
        .unwrap();
    match tape.try_apply_transition(&MatchSymbol::Char('$'), '$', &TuringDirection::Right) {
        Err(TuringTapeError::OutofRangeError {
            accessed_index,
            tape_size,
        }) => {
            assert_eq!(accessed_index, 2);
            assert_eq!(tape_size, 2);
        }
        _ => panic!("an out of range error was expected"),
    }
    assert_eq!(tape.get_pointer(), 1);
    assert_eq!(
        tape.try_apply_transition(&MatchSymbol::Char('x'), 'y', &TuringDirection::Left)
            .unwrap(),
        false
    );
}

#[test]
fn writing_tape_grows_and_shrinks() {
    let mut tape = TuringTape::new(false);
    tape.try_apply_transition(&MatchSymbol::Char('ç'), 'ç', &TuringDirection::Right)
        .unwrap();
    assert_eq!(tape.get_contents(), &vec!['ç', '_']);
    tape.try_apply_transition(&MatchSymbol::Any, 'x', &TuringDirection::Right)
        .unwrap();
    assert_eq!(tape.get_contents(), &vec!['ç', 'x', '_']);
    assert_eq!(tape.get_pointer(), 2);
    tape.try_apply_transition(&MatchSymbol::Char('_'), '_', &TuringDirection::Left)
        .unwrap();
    assert_eq!(tape.get_contents(), &vec!['ç', 'x', '_']);
    assert_eq!(tape.get_pointer(), 1);
    assert!(matches!(
        TuringTape::new(false).try_apply_transition(
            &MatchSymbol::Char('ç'),
            'ç',
            &TuringDirection::Left
        ),
        Err(TuringTapeError::OutofRangeError { .. })
    ));
}

#[test]
fn transition_texts() {
    let t = TransitionMultRibbonInfo::create(
        vec!['0', '_', '_'],
        vec!['a', 'b'],
        vec![TuringDirection::Right, TuringDirection::Left, TuringDirection::Neutral],
    )
    .unwrap();
    assert_eq!(
        TransitionsInfo::MultipleTapes(t.clone()).to_text(),
        "0, _, _ -> R, a, L, b, N"
    );
    assert_eq!(t.get_number_of_affected_tapes(), 3);
    let default = TransitionMultRibbonInfo::create_default(2);
    assert_eq!(default.chars_read, vec!['ç', 'ç', 'ç']);
    assert_eq!(default.move_read, TuringDirection::Neutral);
    assert_eq!(
        default.chars_write,
        vec![('ç', TuringDirection::Neutral), ('ç', TuringDirection::Neutral)]
    );
    assert_eq!(TuringDirection::Left.get_value(), -1);
    assert_eq!(TuringDirection::Neutral.get_value(), 0);
}

#[test]
fn indexes_convert() {
    assert_eq!(TuringStateIndex::from(3usize), TuringStateIndex::ID(3));
    assert_eq!(
        TuringStateIndex::from("q"),
        TuringStateIndex::Value(String::from("q"))
    );
    assert_eq!(TransitionId::from(2usize), TransitionId::ID(2));
    let idx = TuringTransitionIndex::from((1usize, 0usize, "b"));
    assert_eq!(idx.source_id, TuringStateIndex::ID(1));
    assert_eq!(idx.transition_id, TransitionId::ID(0));
    assert_eq!(idx.target_id, TuringStateIndex::Value(String::from("b")));
    assert_eq!(TuringGraphIndex::from(&4usize), TuringGraphIndex::ID(4));
}

#[test]
fn index_texts() {
    assert_eq!(TuringGraphIndex::from(12usize).to_text(), "12");
    assert_eq!(TuringGraphIndex::from("q_1").to_text(), "q_1");
    assert_eq!(TuringStateIndex::from(7usize).to_text(), "7");
    assert_eq!(TuringStateIndex::from("q_a").to_text(), "q_a");
    assert_eq!(TransitionId::from(305usize).to_text(), "305");
    let index = TuringTransitionIndex::from((0usize, 1usize, "q_a"));
    assert_eq!(index.to_text(), "(0 -> 1 -> q_a)");
    let t = TransitionMultRibbonInfo::create(
        vec!['ç', 'ç'],
        vec!['ç'],
        vec![TuringDirection::Right, TuringDirection::Neutral],
    )
    .unwrap();
    let by_value = TransitionId::from(TransitionsInfo::MultipleTapes(t.clone()));
    assert_eq!(by_value.to_text(), TransitionsInfo::MultipleTapes(t).to_text());
}

#[test]
fn transition_error_messages() {
    match TransitionMultRibbonInfo::create(vec!['ç'], vec![], vec![]) {
        Err(TuringTransitionError::TransitionArgsError(m)) => {
            assert_eq!(m, "At least one direction must be given")
        }
        _ => panic!("an argument error was expected"),
    }
    match TransitionMultRibbonInfo::create(
        vec!['ç', 'ç'],
        vec!['ç'],
        vec![TuringDirection::Left, TuringDirection::Neutral],
    ) {
        Err(TuringTransitionError::IllegalActionError(m)) => assert_eq!(
            m,
            "Detected the couple : (\"ç\", \"L\"), this could result in going out of bounds of the tape. Change the given direction to N for example."
        ),
        _ => panic!("an illegal action error was expected"),
    }
    match TransitionMultRibbonInfo::create(
        vec!['a', 'b'],
        vec!['ç'],
        vec![TuringDirection::Right, TuringDirection::Neutral],
    ) {
        Err(TuringTransitionError::IllegalActionError(m)) => assert_eq!(
            m,
            "Tried to replace a normal character ('b') with a special character ('ç') for the tape 1"
        ),
        _ => panic!("an illegal action error was expected"),
    }
}
