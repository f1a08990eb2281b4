use ritm_core::transition_edit::{
    GuiError, RitmError, Transition, TransitionEdit, TransitionWrapper, TransitionWrapperCopy,
};
use ritm_core::turing_transition::{TransitionMultRibbonInfo, TransitionsInfo, TuringDirection};

fn sample() -> TransitionWrapper {
    let info = TransitionMultRibbonInfo::create(
        vec!['0', '_'],
        vec!['a'],
        vec![TuringDirection::Right, TuringDirection::Left],
    )
    .unwrap();
    TransitionWrapper { inner_transition: Transition::new(), info: TransitionsInfo::MultipleTapes(info) }
}

#[test]
fn copy_holds_symbols_as_strings() {
    let copy = TransitionWrapperCopy::from(&sample());
    assert_eq!(copy.chars_read, vec![String::from("0"), String::from("_")]);
    assert_eq!(copy.move_read, TuringDirection::Right);
    assert_eq!(copy.chars_write, vec![(String::from("a"), TuringDirection::Left)]);
}

#[test]
fn copy_turns_back_into_the_transition() {
    let t = sample();
    let back = TransitionWrapperCopy::from(&t).try_to().unwrap();
    assert_eq!(back.info, t.info);
}

#[test]
fn first_character_of_each_symbol_is_used() {
    let mut copy = TransitionWrapperCopy::from(&sample());
    copy.chars_write[0].0 = String::from("bc");
    let back = copy.try_to().unwrap();
    match back.info {
        TransitionsInfo::MultipleTapes(m) => assert_eq!(m.chars_write, vec![('b', TuringDirection::Left)]),
        TransitionsInfo::OneTape(_) => panic!("a multi-tape transition was expected"),
    }
}

#[test]
fn empty_symbol_is_refused() {
    let mut copy = TransitionWrapperCopy::from(&sample());
    copy.chars_read[1] = String::new();
    assert_eq!(
        copy.try_to().unwrap_err(),
        RitmError::GuiError(GuiError::InvalidTransition {
            reason: String::from("Empty char present in the transition")
        })
    );
}

#[test]
fn illegal_edit_is_reported_by_the_core() {
    let mut copy = TransitionWrapperCopy::from(&sample());
    copy.chars_read[0] = String::from("ç");
    copy.move_read = TuringDirection::Left;
    match copy.try_to() {
        Err(RitmError::CoreError(m)) => assert!(m.starts_with("Tried to create an illegal transition: \"")),
        other => panic!("unexpected {:?}", other),
    }
}

#[test]
fn edit_changes_and_undo() {
    let t = sample();
    let mut edit = TransitionEdit::from(&t);
    assert!(!edit.has_changed());
    edit.get_edit().move_read = TuringDirection::Neutral;
    assert!(edit.has_changed());
    assert_eq!(edit.to().unwrap().info, {
        let info = TransitionMultRibbonInfo::create(
            vec!['0', '_'],
            vec!['a'],
            vec![TuringDirection::Neutral, TuringDirection::Left],
        )
        .unwrap();
        TransitionsInfo::MultipleTapes(info)
    });
    edit.undo();
    assert!(!edit.has_changed());
    assert_eq!(edit.to().unwrap().info, t.info);
}

#[test]
fn error_texts() {
    assert_eq!(GuiError::NoStateSelected.to_text(), "No state selected\n");
    assert_eq!(
        GuiError::SyntaxError(String::from("x")).to_text(),
        "Syntax error : x\n"
    );
    assert_eq!(
        RitmError::GuiError(GuiError::InvalidState).to_text(),
        "Application state invalid !\n\n"
    );
    assert_eq!(RitmError::CoreError(String::from("boom")).to_text(), "boom\n");
}
