use ritm_core::turing_tape::{BLANK_CHAR, END_CHAR, INIT_CHAR, TuringTape, TuringTapeError};
use ritm_core::turing_transition::{MatchSymbol, TuringDirection};

fn expect_ill_action_error(te: TuringTapeError) {
    match te {
        TuringTapeError::IllegalInputError {
            word: _,
            illegal_char: _,
        }
        | TuringTapeError::SpecialCharPlacementError {
            og_char: _,
            special_char: _,
        }
        | TuringTapeError::SpecialCharReplacementError {
            special_char: _,
            replacement_char: _,
        } => {}
        _ => panic!(
            "Exepected an IllegalActionError, but received the following error : {:?}",
            te
        ),
    }
}

#[test]
fn test_new_reading_tape() {
    let tape = TuringTape::new(true);

    assert_eq!(tape.get_pointer(), 0);
    assert_eq!(*tape.get_contents(), vec!(INIT_CHAR, END_CHAR));
    let tape = TuringTape::new(false);

    assert_eq!(tape.get_pointer(), 0);
    assert_eq!(*tape.get_contents(), vec!(INIT_CHAR, BLANK_CHAR));
}

#[test]
fn test_feed_word_tape() {
    let mut tape = TuringTape::new(false);

    tape.feed_word("test".to_string(), true).unwrap();

    assert_eq!(
        *tape.get_contents(),
        vec!(INIT_CHAR, 't', 'e', 's', 't', END_CHAR)
    );
}

#[test]
fn test_feed_word_tape_illegal_char() {
    let mut tape = TuringTape::new(true);

    match tape.feed_word("dsdçaaz".to_string(), true) {
        Ok(_) => panic!("Exepected an error"),
        Err(te) => expect_ill_action_error(te),
    }
    match tape.feed_word("dsdaaz$".to_string(), true) {
        Ok(_) => panic!("Exepected an error"),
        Err(te) => expect_ill_action_error(te),
    }
    match tape.feed_word("_dsdaaz".to_string(), true) {
        Ok(_) => panic!("Exepected an error"),
        Err(te) => expect_ill_action_error(te),
    }
}

#[test]
fn test_transition_read_tape() {
    let mut tape = TuringTape::new(false);

    tape.feed_word("test".to_string(), true).unwrap();

    tape.try_apply_transition(
        &MatchSymbol::Char(INIT_CHAR),
        INIT_CHAR,
        &TuringDirection::Right,
    )
    .unwrap();
    assert_eq!(tape.get_pointer(), 1);
    tape.try_apply_transition(&MatchSymbol::Char('t'), 'p', &TuringDirection::Left)
        .unwrap();
    assert_eq!(tape.get_pointer(), 0);
    tape.try_apply_transition(
        &MatchSymbol::Char(INIT_CHAR),
        INIT_CHAR,
        &TuringDirection::Neutral,
    )
    .unwrap();
    assert_eq!(tape.get_pointer(), 0);

    assert_eq!(
        *tape.get_contents(),
        vec!(INIT_CHAR, 'p', 'e', 's', 't', END_CHAR)
    );

    assert!(matches!(
        tape.try_apply_transition(&MatchSymbol::Char(INIT_CHAR), '_', &TuringDirection::Right),
        Err(TuringTapeError::SpecialCharReplacementError {
            special_char,
            replacement_char
        }) if special_char == INIT_CHAR && replacement_char == '_'
    ));

    tape.try_apply_transition(&MatchSymbol::Char('ç'), 'ç', &TuringDirection::Right)
        .unwrap();

    tape.try_apply_transition(&MatchSymbol::Char('p'), '_', &TuringDirection::Right)
        .unwrap();
    tape.try_apply_transition(&MatchSymbol::Char('e'), '_', &TuringDirection::Right)
        .unwrap();
    tape.try_apply_transition(&MatchSymbol::Char('s'), '_', &TuringDirection::Right)
        .unwrap();
    tape.try_apply_transition(&MatchSymbol::Char('t'), '_', &TuringDirection::Right)
        .unwrap();

    assert!(matches!(
        tape.try_apply_transition(&MatchSymbol::Char(END_CHAR), '_', &TuringDirection::Right),
        Err(TuringTapeError::SpecialCharReplacementError {
            special_char,
            replacement_char
        }) if special_char == END_CHAR && replacement_char == '_'
    ))
}

#[test]
fn test_illegal_replacement() {
    let mut tape = TuringTape::new(false);

    tape.try_apply_transition(
        &MatchSymbol::Char(INIT_CHAR),
        INIT_CHAR,
        &TuringDirection::Right,
    )
    .unwrap();
    assert_eq!(tape.get_pointer(), 1);

    if tape
        .try_apply_transition(
            &MatchSymbol::Char(BLANK_CHAR),
            INIT_CHAR,
            &TuringDirection::Right,
        )
        .is_ok()
    {
        panic!("An error should have been returned");
    }

    tape.try_apply_transition(
        &MatchSymbol::Char(BLANK_CHAR),
        BLANK_CHAR,
        &TuringDirection::Left,
    )
    .unwrap();
    tape.try_apply_transition(
        &MatchSymbol::Char(BLANK_CHAR),
        BLANK_CHAR,
        &TuringDirection::Left,
    )
    .unwrap();

    match tape.try_apply_transition(&MatchSymbol::Char(INIT_CHAR), 'p', &TuringDirection::Right)
    {
        Ok(_) => panic!("Exected an error"),
        Err(te) => expect_ill_action_error(te),
    }

    match tape.try_apply_transition(
        &MatchSymbol::Char(INIT_CHAR),
        END_CHAR,
        &TuringDirection::Right,
    ) {
        Ok(_) => panic!("Exected an error"),
        Err(te) => expect_ill_action_error(te),
    }

    match tape.try_apply_transition(
        &MatchSymbol::Char(INIT_CHAR),
        BLANK_CHAR,
        &TuringDirection::Right,
    ) {
        Ok(_) => panic!("Exected an error"),
        Err(te) => expect_ill_action_error(te),
    }
}
