//! Transitions of a Turing machine and the checks made when one is built.
use vstd::prelude::*;

use crate::text::{char_at, decimal, push_char, push_decimal, push_text};
use crate::turing_tape::{END_CHAR, INIT_CHAR};

verus! {

/// The symbol that, in the text format, matches any character.
pub const ANY_CHAR_SYMBOL: char = '@';

#[derive(Debug)]
pub enum TuringTransitionError {
    /// The parts given to build a transition do not have matching lengths.
    TransitionArgsError(String),
    /// The transition could move a head out of its tape or overwrite a special character.
    IllegalActionError(String),
}

/// Direction in which the head of a tape moves after a transition.
#[derive(Debug, Clone, Copy, PartialEq, Eq, Structural)]
pub enum TuringDirection {
    Left,
    Right,
    Neutral,
}

impl TuringDirection {
    /// The signed offset of the head: `-1`, `1` or `0`.
    pub open spec fn value_spec(self) -> int {
        match self {
            TuringDirection::Left => -1,
            TuringDirection::Right => 1,
            TuringDirection::Neutral => 0,
        }
    }

    /// The letter that stands for the direction in the text format.
    pub open spec fn letter(self) -> char {
        match self {
            TuringDirection::Left => 'L',
            TuringDirection::Right => 'R',
            TuringDirection::Neutral => 'N',
        }
    }

    /// Returns the integer value of the direction: left is negative, right positive and none zero.
    pub fn get_value(&self) -> (v: i8)
        ensures
            v as int == self.value_spec(),
    {
        match self {
            TuringDirection::Left => -1,
            TuringDirection::Right => 1,
            TuringDirection::Neutral => 0,
        }
    }

    /// The letter of the direction (`L`, `R` or `N`).
    pub fn to_letter(&self) -> (c: char)
        ensures
            c == self.letter(),
    {
        match self {
            TuringDirection::Left => 'L',
            TuringDirection::Right => 'R',
            TuringDirection::Neutral => 'N',
        }
    }
}

/// What a tape head has to read for a transition to apply.
#[derive(Debug, Clone, Copy, PartialEq, Eq, Structural)]
pub enum MatchSymbol {
    Char(char),
    Range(char, char),
    Any,
}

impl MatchSymbol {
    /// Whether the symbol accepts `value`. A range accepts every character that is at least
    /// its lower bound or at most its upper bound.
    pub open spec fn matches_spec(self, value: char) -> bool {
        match self {
            MatchSymbol::Char(c) => value == c,
            MatchSymbol::Range(min_c, max_c) => (min_c as u32) <= (value as u32) || (value as u32)
                <= (max_c as u32),
            MatchSymbol::Any => true,
        }
    }

    /// The text of the symbol: the character itself, `{a}..{b}` for a range, `@` for any.
    pub open spec fn text(self) -> Seq<char> {
        match self {
            MatchSymbol::Char(c) => seq![c],
            MatchSymbol::Range(a, b) => seq!['{', a, '}', '.', '.', '{', b, '}'],
            MatchSymbol::Any => seq![ANY_CHAR_SYMBOL],
        }
    }

    pub fn matches(&self, value: char) -> (b: bool)
        ensures
            b == self.matches_spec(value),
    {
        match self {
            MatchSymbol::Char(c) => value == *c,
            MatchSymbol::Range(min_c, max_c) => {
                let min: u32 = *min_c as u32;
                let max: u32 = *max_c as u32;
                let val: u32 = value as u32;
                min <= val || val <= max
            },
            MatchSymbol::Any => true,
        }
    }

    /// Appends the text of the symbol to `s`.
    pub fn push_text_to(&self, s: &mut String)
        ensures
            final(s)@ == old(s)@ + self.text(),
    {
        let ghost s0 = s@;
        match self {
            MatchSymbol::Char(c) => push_char(s, *c),
            MatchSymbol::Range(a, b) => {
                push_char(s, '{');
                push_char(s, *a);
                push_char(s, '}');
                push_char(s, '.');
                push_char(s, '.');
                push_char(s, '{');
                push_char(s, *b);
                push_char(s, '}');
            },
            MatchSymbol::Any => push_char(s, ANY_CHAR_SYMBOL),
        }
        assert(s@ =~= s0 + self.text());
    }
}

/// Symbols that are matched against characters all at once.
pub trait MatchesAll {
    spec fn matches_all_spec(&self, other: Seq<char>) -> bool;

    fn matches_all(&self, other: &[char]) -> (b: bool)
        ensures
            b == self.matches_all_spec(other@),
    ;
}

impl MatchesAll for Vec<MatchSymbol> {
    open spec fn matches_all_spec(&self, other: Seq<char>) -> bool {
        &&& self@.len() == other.len()
        &&& forall|i: int| 0 <= i < other.len() ==> #[trigger] self@[i].matches_spec(other[i])
    }

    fn matches_all(&self, other: &[char]) -> (b: bool) {
        if self.len() != other.len() {
            return false;
        }
        let mut i: usize = 0;
        while i < self.len()
            invariant
                0 <= i <= self.len(),
                self@.len() == other@.len(),
                forall|j: int| 0 <= j < i ==> #[trigger] self@[j].matches_spec(other@[j]),
            decreases self.len() - i,
        {
            if !self[i].matches(other[i]) {
                return false;
            }
            i = i + 1;
        }
        true
    }
}

/// Marker for the data that users attach to the transitions of a graph.
pub trait TuringTransition: Clone + Default + std::fmt::Debug + PartialEq {

}

/// A transition of a machine with one tape: `a -> b, D`.
#[derive(Debug, Clone, Copy, PartialEq, Eq, Structural)]
pub struct TransitionOneRibbonInfo {
    /// The symbol that has to be read for this transition to apply.
    pub chars_read: MatchSymbol,
    /// The move to take after reading the character.
    pub move_pointer: TuringDirection,
    /// The character that replaces the one just read.
    pub replace_with: char,
}

/// The abstract content of a transition for `k + 1` tapes:
/// `a_0, ..., a_k -> D_0, b_1, D_1, ..., b_k, D_k`.
pub struct MultModel {
    pub chars_read: Seq<char>,
    pub move_read: TuringDirection,
    pub chars_write: Seq<(char, TuringDirection)>,
}

/// A transition for a reading tape and `k >= 1` writing tapes:
/// `a_0, a_1, ..., a_k -> D_0, b_1, D_1, ..., b_k, D_k`, where `a_i` is read on tape `i`,
/// `b_i` replaces it on writing tape `i`, and `D_i` moves the head of tape `i`.
#[derive(Debug, Clone, PartialEq)]
pub struct TransitionMultRibbonInfo {
    /// The characters that have to be read: `a_0, ..., a_k`.
    pub chars_read: Vec<char>,
    /// The move of the reading tape: `D_0`.
    pub move_read: TuringDirection,
    /// What is written on the writing tapes and how they move: `(b_1, D_1), ..., (b_k, D_k)`.
    pub chars_write: Vec<(char, TuringDirection)>,
}

/// The name the transition information of a multi-tape machine is also known by.
pub type TuringTransitionInfo = TransitionMultRibbonInfo;

impl View for TransitionMultRibbonInfo {
    type V = MultModel;

    open spec fn view(&self) -> MultModel {
        MultModel { chars_read: self.chars_read@, move_read: self.move_read, chars_write: self.chars_write@ }
    }
}

/// The abstract content of the information of a transition.
pub enum InfoModel {
    OneTape(TransitionOneRibbonInfo),
    MultipleTapes(MultModel),
}

/// The information of a transition, for one tape or for several.
#[derive(Debug, Clone, PartialEq)]
pub enum TransitionsInfo {
    OneTape(TransitionOneRibbonInfo),
    MultipleTapes(TransitionMultRibbonInfo),
}

impl View for TransitionsInfo {
    type V = InfoModel;

    open spec fn view(&self) -> InfoModel {
        match self {
            TransitionsInfo::OneTape(t) => InfoModel::OneTape(*t),
            TransitionsInfo::MultipleTapes(t) => InfoModel::MultipleTapes(t@),
        }
    }
}

impl MultModel {
    /// The number of tapes the transition acts on: `k + 1`.
    pub open spec fn tapes(self) -> nat {
        self.chars_write.len() + 1
    }

    /// The symbols read, one per tape.
    pub open spec fn symbols(self) -> Seq<MatchSymbol> {
        Seq::new(self.chars_read.len(), |j: int| MatchSymbol::Char(char_at(self.chars_read, j)))
    }
}

impl InfoModel {
    /// The number of tapes the transition acts on.
    pub open spec fn tapes(self) -> nat {
        match self {
            InfoModel::OneTape(_) => 1,
            InfoModel::MultipleTapes(t) => t.tapes(),
        }
    }

    /// The symbols to be read, one per tape.
    pub open spec fn symbols(self) -> Seq<MatchSymbol> {
        match self {
            InfoModel::OneTape(t) => seq![t.chars_read],
            InfoModel::MultipleTapes(t) => t.symbols(),
        }
    }

    /// Whether the transition applies when the tapes read `chars`.
    pub open spec fn accepts(self, chars: Seq<char>) -> bool {
        match self {
            InfoModel::OneTape(t) => chars.len() == 1 && t.chars_read.matches_spec(chars[0]),
            InfoModel::MultipleTapes(t) => t.chars_read == chars,
        }
    }

    /// The move of the first tape.
    pub open spec fn move_read(self) -> TuringDirection {
        match self {
            InfoModel::OneTape(t) => t.move_pointer,
            InfoModel::MultipleTapes(t) => t.move_read,
        }
    }
}

/// Whether `symbol`, on a head that moves along `dir`, could read `cond_char` and then move
/// along `forbidden_dir`.
pub open spec fn ill_direction(
    symbol: MatchSymbol,
    cond_char: char,
    dir: TuringDirection,
    forbidden_dir: TuringDirection,
) -> bool {
    symbol.matches_spec(cond_char) && dir == forbidden_dir
}

/// Whether writing `replacement` where `symbol` was read could overwrite `INIT_CHAR` with
/// something else, or place `INIT_CHAR` over a normal character.
pub open spec fn ill_replacement(symbol: MatchSymbol, replacement: char) -> bool {
    if symbol.matches_spec(INIT_CHAR) {
        !symbol.matches_spec(replacement)
    } else {
        replacement == INIT_CHAR
    }
}

/// Whether the lengths of the parts of a multi-tape transition do not fit together.
pub open spec fn mult_args_bad(
    symbols: Seq<char>,
    chars_write: Seq<char>,
    directions: Seq<TuringDirection>,
) -> bool {
    ||| directions.len() == 0
    ||| chars_write.len() + 1 != directions.len()
    ||| symbols.len() != directions.len()
}

/// Whether a multi-tape transition, whose parts fit together, could move the reading head
/// out of its tape, a writing head before the start of its tape, or misuse `INIT_CHAR`.
pub open spec fn mult_illegal(
    symbols: Seq<char>,
    chars_write: Seq<char>,
    directions: Seq<TuringDirection>,
) -> bool {
    ||| ill_direction(MatchSymbol::Char(symbols[0]), END_CHAR, directions[0], TuringDirection::Right)
    ||| ill_direction(MatchSymbol::Char(symbols[0]), INIT_CHAR, directions[0], TuringDirection::Left)
    ||| exists|i: int|
        1 <= i < symbols.len() && {
            ||| ill_direction(
                MatchSymbol::Char(#[trigger] symbols[i]),
                INIT_CHAR,
                directions[i],
                TuringDirection::Left,
            )
            ||| ill_replacement(MatchSymbol::Char(symbols[i]), chars_write[i - 1])
        }
}

/// The transition built from parts that fit together.
pub open spec fn mult_built(
    symbols: Seq<char>,
    chars_write: Seq<char>,
    directions: Seq<TuringDirection>,
) -> MultModel {
    MultModel {
        chars_read: symbols,
        move_read: directions[0],
        chars_write: Seq::new(chars_write.len(), |i: int| (chars_write[i], directions[i + 1])),
    }
}

/// Whether a transition for `k + 1` tapes respects the rules that
/// [`TransitionMultRibbonInfo::create`] checks.
pub open spec fn mult_valid(t: MultModel) -> bool {
    let directions = seq![t.move_read] + t.chars_write.map_values(|p: (char, TuringDirection)| p.1);
    let writes = t.chars_write.map_values(|p: (char, TuringDirection)| p.0);
    &&& t.chars_read.len() == t.chars_write.len() + 1
    &&& !mult_illegal(t.chars_read, writes, directions)
}

/// Parts that fit together and pass the checks make a transition that respects the rules.
pub proof fn lemma_built_valid(symbols: Seq<char>, chars_write: Seq<char>, directions: Seq<TuringDirection>)
    requires
        !mult_args_bad(symbols, chars_write, directions),
        !mult_illegal(symbols, chars_write, directions),
    ensures
        mult_valid(mult_built(symbols, chars_write, directions)),
{
    let t = mult_built(symbols, chars_write, directions);
    assert(seq![t.move_read] + t.chars_write.map_values(|p: (char, TuringDirection)| p.1) =~= directions);
    assert(t.chars_write.map_values(|p: (char, TuringDirection)| p.0) =~= chars_write);
}

/// The message carried by an error of a transition.
pub open spec fn transition_error_message(e: TuringTransitionError) -> Seq<char> {
    match e {
        TuringTransitionError::TransitionArgsError(m) => m@,
        TuringTransitionError::IllegalActionError(m) => m@,
    }
}

/// The message of a transition that could move a head reading `symbol` along `dir` out of
/// its tape.
pub open spec fn ill_direction_text(symbol: MatchSymbol, dir: TuringDirection) -> Seq<char> {
    "Detected the couple : (\""@ + symbol.text() + "\", \""@ + seq![dir.letter()]
        + "\"), this could result in going out of bounds of the tape. Change the given direction to N for example."@
}

/// The message of a transition that could, on tape `tape`, write `replacement` where
/// `symbol` was read and so misuse `INIT_CHAR`.
pub open spec fn ill_replacement_text(symbol: MatchSymbol, replacement: char, tape: nat) -> Seq<char> {
    (if symbol.matches_spec(INIT_CHAR) {
        "Tried to replace a special character ('"@ + symbol.text() + "') with another character ('"@
    } else {
        "Tried to replace a normal character ('"@ + symbol.text() + "') with a special character ('"@
    }) + seq![replacement] + "') for the tape "@ + decimal(tape)
}

/// The message when no direction is given.
pub open spec fn no_direction_text() -> Seq<char> {
    "At least one direction must be given"@
}

/// The message when the characters to write do not fit the directions.
pub open spec fn writes_count_text() -> Seq<char> {
    "The number of character to write must be equal to the number of directions minus one (for the reading tape)"@
}

/// The message when the characters to read do not fit the directions.
pub open spec fn reads_count_text() -> Seq<char> {
    "The number of characters to read must be equal to the number of given directions"@
}

/// The message of the first writing tape, from tape `j` on, whose part of the transition is
/// refused; empty when there is none.
pub open spec fn writing_error_text(
    symbols: Seq<char>,
    chars_write: Seq<char>,
    directions: Seq<TuringDirection>,
    j: int,
) -> Seq<char>
    decreases symbols.len() - j,
{
    if j < 1 || j >= symbols.len() {
        Seq::empty()
    } else if ill_direction(MatchSymbol::Char(symbols[j]), INIT_CHAR, directions[j], TuringDirection::Left) {
        ill_direction_text(MatchSymbol::Char(symbols[j]), directions[j])
    } else if ill_replacement(MatchSymbol::Char(symbols[j]), chars_write[j - 1]) {
        ill_replacement_text(MatchSymbol::Char(symbols[j]), chars_write[j - 1], j as nat)
    } else {
        writing_error_text(symbols, chars_write, directions, j + 1)
    }
}

/// The message of the error [`TransitionMultRibbonInfo::create`] gives: that of the first
/// check that fails, in the order they are made.
pub open spec fn mult_error_text(
    symbols: Seq<char>,
    chars_write: Seq<char>,
    directions: Seq<TuringDirection>,
) -> Seq<char> {
    if directions.len() == 0 {
        no_direction_text()
    } else if chars_write.len() + 1 != directions.len() {
        writes_count_text()
    } else if symbols.len() != directions.len() {
        reads_count_text()
    } else if ill_direction(MatchSymbol::Char(symbols[0]), END_CHAR, directions[0], TuringDirection::Right)
        || ill_direction(MatchSymbol::Char(symbols[0]), INIT_CHAR, directions[0], TuringDirection::Left) {
        ill_direction_text(MatchSymbol::Char(symbols[0]), directions[0])
    } else {
        writing_error_text(symbols, chars_write, directions, 1)
    }
}

/// Building a transition from the characters to read, the move of the reading tape and the
/// pairs written by the writing tapes ([`TransitionMultRibbonInfo::new`]) is building it from
/// the same characters, the characters of the pairs and all the moves
/// ([`TransitionMultRibbonInfo::create`]): the same checks fail, and the same transition comes
/// out when none does.
pub proof fn lemma_new_as_create(
    symbols: Seq<char>,
    move_read: TuringDirection,
    pairs: Seq<(char, TuringDirection)>,
)
    ensures
        ({
            let writes = pairs.map_values(|p: (char, TuringDirection)| p.0);
            let directions = seq![move_read] + pairs.map_values(|p: (char, TuringDirection)| p.1);
            &&& !mult_args_bad(symbols, writes, directions) <==> symbols.len() == pairs.len() + 1
            &&& !mult_args_bad(symbols, writes, directions) ==> mult_built(symbols, writes, directions)
                == (MultModel { chars_read: symbols, move_read, chars_write: pairs })
        }),
{
    let writes = pairs.map_values(|p: (char, TuringDirection)| p.0);
    let directions = seq![move_read] + pairs.map_values(|p: (char, TuringDirection)| p.1);
    assert(mult_built(symbols, writes, directions).chars_write =~= pairs);
}

/// The symbols matching exactly the characters of `chars`.
fn symbols_of(chars: &Vec<char>) -> (v: Vec<MatchSymbol>)
    ensures
        v@ == Seq::new(chars@.len(), |j: int| MatchSymbol::Char(char_at(chars@, j))),
{
    let mut v: Vec<MatchSymbol> = Vec::new();
    let mut i: usize = 0;
    while i < chars.len()
        invariant
            0 <= i <= chars.len(),
            v@.len() == i,
            forall|j: int| 0 <= j < i ==> v@[j] == MatchSymbol::Char(char_at(chars@, j)),
        decreases chars.len() - i,
    {
        let c: char = chars[i];
        proof {
            assert(c == char_at(chars@, i as int));
        }
        v.push(MatchSymbol::Char(c));
        i = i + 1;
    }
    assert(v@ =~= Seq::new(chars@.len(), |j: int| MatchSymbol::Char(char_at(chars@, j))));
    v
}

/// Returns an error when `curr_char` could read `cond_char` while the head moves along
/// `forbidden_dir`.
fn check_ill_directions(
    curr_char: &MatchSymbol,
    cond_char: char,
    curr_dir: &TuringDirection,
    forbidden_dir: &TuringDirection,
) -> (res: Result<(), TuringTransitionError>)
    ensures
        res is Err <==> ill_direction(*curr_char, cond_char, *curr_dir, *forbidden_dir),
        res is Err ==> res matches Err(TuringTransitionError::IllegalActionError(_)),
        res matches Err(e) ==> transition_error_message(e) == ill_direction_text(*curr_char, *curr_dir),
{
    if curr_char.matches(cond_char) && *curr_dir == *forbidden_dir {
        let mut msg = String::new();
        push_text(&mut msg, "Detected the couple : (\"");
        curr_char.push_text_to(&mut msg);
        push_text(&mut msg, "\", \"");
        push_char(&mut msg, curr_dir.to_letter());
        push_text(
            &mut msg,
            "\"), this could result in going out of bounds of the tape. Change the given direction to N for example.",
        );
        assert(msg@ =~= ill_direction_text(*curr_char, *curr_dir));
        Err(TuringTransitionError::IllegalActionError(msg))
    } else {
        Ok(())
    }
}

/// Returns an error when writing `char_replacement` where `curr_char` was read on tape
/// `tape_id` could overwrite `INIT_CHAR` or place it over a normal character.
fn check_ill_replacement(curr_char: &MatchSymbol, char_replacement: char, tape_id: usize) -> (res:
    Result<(), TuringTransitionError>)
    ensures
        res is Err <==> ill_replacement(*curr_char, char_replacement),
        res is Err ==> res matches Err(TuringTransitionError::IllegalActionError(_)),
        res matches Err(e) ==> transition_error_message(e) == ill_replacement_text(
            *curr_char,
            char_replacement,
            tape_id as nat,
        ),
{
    if curr_char.matches(INIT_CHAR) {
        if !curr_char.matches(char_replacement) {
            let mut msg = String::new();
            push_text(&mut msg, "Tried to replace a special character ('");
            curr_char.push_text_to(&mut msg);
            push_text(&mut msg, "') with another character ('");
            push_char(&mut msg, char_replacement);
            push_text(&mut msg, "') for the tape ");
            push_decimal(&mut msg, tape_id);
            assert(msg@ =~= ill_replacement_text(*curr_char, char_replacement, tape_id as nat));
            return Err(TuringTransitionError::IllegalActionError(msg));
        }
    } else if char_replacement == INIT_CHAR {
        let mut msg = String::new();
        push_text(&mut msg, "Tried to replace a normal character ('");
        curr_char.push_text_to(&mut msg);
        push_text(&mut msg, "') with a special character ('");
        push_char(&mut msg, char_replacement);
        push_text(&mut msg, "') for the tape ");
        push_decimal(&mut msg, tape_id);
        assert(msg@ =~= ill_replacement_text(*curr_char, char_replacement, tape_id as nat));
        return Err(TuringTransitionError::IllegalActionError(msg));
    }
    Ok(())
}

fn args_error(msg: &str) -> (e: TuringTransitionError)
    ensures
        e matches TuringTransitionError::TransitionArgsError(m) && m@ == msg@,
{
    let mut s = String::new();
    push_text(&mut s, msg);
    assert(s@ =~= msg@);
    TuringTransitionError::TransitionArgsError(s)
}

impl TransitionOneRibbonInfo {
    /// Creates a transition for a machine with one tape, refusing one that could move the head
    /// before the start of the tape or misuse `INIT_CHAR`.
    pub fn new(match_symbol: MatchSymbol, move_pointer: TuringDirection, replace_with: char) -> (res:
        Result<Self, TuringTransitionError>)
        ensures
            res is Ok <==> !ill_direction(
                match_symbol,
                INIT_CHAR,
                move_pointer,
                TuringDirection::Left,
            ) && !ill_replacement(match_symbol, replace_with),
            res matches Ok(t) ==> t == (TransitionOneRibbonInfo {
                chars_read: match_symbol,
                move_pointer,
                replace_with,
            }),
            res is Err ==> res matches Err(TuringTransitionError::IllegalActionError(_)),
            res matches Err(e) ==> transition_error_message(e) == if ill_direction(
                match_symbol,
                INIT_CHAR,
                move_pointer,
                TuringDirection::Left,
            ) {
                ill_direction_text(match_symbol, move_pointer)
            } else {
                ill_replacement_text(match_symbol, replace_with, 0)
            },
    {
        check_ill_directions(&match_symbol, INIT_CHAR, &move_pointer, &TuringDirection::Left)?;
        check_ill_replacement(&match_symbol, replace_with, 0)?;
        Ok(Self { chars_read: match_symbol, replace_with, move_pointer })
    }

    /// The transition `ç -> ç, N`.
    pub fn default_transition() -> (t: Self)
        ensures
            t == (TransitionOneRibbonInfo {
                chars_read: MatchSymbol::Char(INIT_CHAR),
                move_pointer: TuringDirection::Neutral,
                replace_with: INIT_CHAR,
            }),
    {
        Self {
            chars_read: MatchSymbol::Char(INIT_CHAR),
            replace_with: INIT_CHAR,
            move_pointer: TuringDirection::Neutral,
        }
    }
}

impl TransitionMultRibbonInfo {
    /// Creates a transition from the characters to read, the move of the reading tape and,
    /// for each writing tape, the character to write and the move to make.
    pub fn new(
        symbols_match: Vec<char>,
        move_read: TuringDirection,
        chars_read_write: Vec<(char, TuringDirection)>,
    ) -> (res: Result<Self, TuringTransitionError>)
        requires
            chars_read_write@.len() < usize::MAX,
        ensures
            ({
                let writes = chars_read_write@.map_values(|p: (char, TuringDirection)| p.0);
                let directions = seq![move_read] + chars_read_write@.map_values(
                    |p: (char, TuringDirection)| p.1,
                );
                &&& (res matches Err(TuringTransitionError::TransitionArgsError(_))) <==> mult_args_bad(
                    symbols_match@,
                    writes,
                    directions,
                )
                &&& (res matches Err(TuringTransitionError::IllegalActionError(_))) <==> !mult_args_bad(
                    symbols_match@,
                    writes,
                    directions,
                ) && mult_illegal(symbols_match@, writes, directions)
                &&& res matches Ok(t) ==> t@ == MultModel {
                    chars_read: symbols_match@,
                    move_read,
                    chars_write: chars_read_write@,
                }
                &&& res matches Err(e) ==> transition_error_message(e) == mult_error_text(
                    symbols_match@,
                    writes,
                    directions,
                )
            }),
    {
        let mut directions: Vec<TuringDirection> = Vec::new();
        directions.push(move_read);
        let mut chars_write: Vec<char> = Vec::new();
        let mut i: usize = 0;
        while i < chars_read_write.len()
            invariant
                0 <= i <= chars_read_write.len(),
                chars_write@ == chars_read_write@.take(i as int).map_values(
                    |p: (char, TuringDirection)| p.0,
                ),
                directions@ == seq![move_read] + chars_read_write@.take(i as int).map_values(
                    |p: (char, TuringDirection)| p.1,
                ),
            decreases chars_read_write.len() - i,
        {
            let (c, dir) = chars_read_write[i];
            chars_write.push(c);
            directions.push(dir);
            i = i + 1;
            assert(chars_read_write@.take(i as int) =~= chars_read_write@.take(i - 1).push(
                chars_read_write@[i - 1],
            ));
            assert(chars_write@ =~= chars_read_write@.take(i as int).map_values(
                |p: (char, TuringDirection)| p.0,
            ));
            assert(directions@ =~= seq![move_read] + chars_read_write@.take(i as int).map_values(
                |p: (char, TuringDirection)| p.1,
            ));
        }
        assert(chars_read_write@.take(i as int) =~= chars_read_write@);
        let res = Self::create(symbols_match, chars_write, directions);
        proof {
            if res is Ok {
                let t = res->Ok_0;
                assert(t@.chars_write =~= chars_read_write@);
            }
        }
        res
    }

    /// Creates a transition `a_0, ..., a_k -> D_0, b_1, D_1, ..., b_k, D_k` from the characters
    /// to read (`a_i`), the characters to write (`b_i`) and the directions (`D_i`).
    ///
    /// Refuses parts whose lengths do not fit together, and a transition that could move the
    /// reading head out of its tape, a writing head before the start of its tape, or misuse
    /// `INIT_CHAR`.
    pub fn create(
        symbols_match: Vec<char>,
        chars_write: Vec<char>,
        directions: Vec<TuringDirection>,
    ) -> (res: Result<Self, TuringTransitionError>)
        ensures
            (res matches Err(TuringTransitionError::TransitionArgsError(_))) <==> mult_args_bad(
                symbols_match@,
                chars_write@,
                directions@,
            ),
            (res matches Err(TuringTransitionError::IllegalActionError(_))) <==> !mult_args_bad(
                symbols_match@,
                chars_write@,
                directions@,
            ) && mult_illegal(symbols_match@, chars_write@, directions@),
            res matches Ok(t) ==> t@ == mult_built(symbols_match@, chars_write@, directions@),
            res matches Err(e) ==> transition_error_message(e) == mult_error_text(
                symbols_match@,
                chars_write@,
                directions@,
            ),
    {
        proof {
            reveal_strlit("At least one direction must be given");
            reveal_strlit(
                "The number of character to write must be equal to the number of directions minus one (for the reading tape)",
            );
            reveal_strlit("The number of characters to read must be equal to the number of given directions");
        }
        if directions.len() == 0 {
            return Err(args_error("At least one direction must be given"));
        }
        let move_read = directions[0];
        if chars_write.len() >= directions.len() || chars_write.len() + 1 != directions.len() {
            return Err(
                args_error(
                    "The number of character to write must be equal to the number of directions minus one (for the reading tape)",
                ),
            );
        }
        if symbols_match.len() != directions.len() {
            return Err(
                args_error(
                    "The number of characters to read must be equal to the number of given directions",
                ),
            );
        }
        let ghost expected = mult_built(symbols_match@, chars_write@, directions@);
        let mut chars_write_dir: Vec<(char, TuringDirection)> = Vec::new();
        let mut i: usize = 1;
        while i < directions.len()
            invariant
                1 <= i <= directions.len(),
                directions.len() == chars_write.len() + 1,
                expected == mult_built(symbols_match@, chars_write@, directions@),
                chars_write_dir@ == expected.chars_write.take(i - 1),
            decreases directions.len() - i,
        {
            chars_write_dir.push((chars_write[i - 1], directions[i]));
            i = i + 1;
            assert(chars_write_dir@ =~= expected.chars_write.take(i - 1));
        }
        assert(chars_write_dir@ =~= expected.chars_write);
        // The reading tape can neither leave its end nor its start.
        check_ill_directions(
            &MatchSymbol::Char(symbols_match[0]),
            END_CHAR,
            &move_read,
            &TuringDirection::Right,
        )?;
        check_ill_directions(
            &MatchSymbol::Char(symbols_match[0]),
            INIT_CHAR,
            &move_read,
            &TuringDirection::Left,
        )?;
        // The writing tapes can neither leave their start nor misuse the initial character.
        let mut j: usize = 1;
        while j < symbols_match.len()
            invariant
                1 <= j <= symbols_match.len(),
                symbols_match.len() == directions.len(),
                directions.len() == chars_write.len() + 1,
                chars_write_dir@ == expected.chars_write,
                expected == mult_built(symbols_match@, chars_write@, directions@),
                forall|m: int|
                    1 <= m < j ==> !{
                        ||| ill_direction(
                            MatchSymbol::Char(#[trigger] symbols_match@[m]),
                            INIT_CHAR,
                            directions@[m],
                            TuringDirection::Left,
                        )
                        ||| ill_replacement(MatchSymbol::Char(symbols_match@[m]), chars_write@[m - 1])
                    },
                writing_error_text(symbols_match@, chars_write@, directions@, 1) == writing_error_text(
                    symbols_match@,
                    chars_write@,
                    directions@,
                    j as int,
                ),
                mult_error_text(symbols_match@, chars_write@, directions@) == writing_error_text(
                    symbols_match@,
                    chars_write@,
                    directions@,
                    1,
                ),
            decreases symbols_match.len() - j,
        {
            let char_read = MatchSymbol::Char(symbols_match[j]);
            let (char_replacement, char_dir) = chars_write_dir[j - 1];
            assert(char_dir == directions@[j as int] && char_replacement == chars_write@[j - 1]);
            check_ill_directions(&char_read, INIT_CHAR, &char_dir, &TuringDirection::Left)?;
            check_ill_replacement(&char_read, char_replacement, j)?;
            j = j + 1;
        }
        Ok(Self { chars_read: symbols_match, move_read, chars_write: chars_write_dir })
    }

    /// Creates the transition `ç, ..., ç -> N, ç, N, ..., ç, N` for `nb_working_ribbons`
    /// writing tapes.
    pub fn create_default(nb_working_ribbons: usize) -> (t: Self)
        requires
            nb_working_ribbons < usize::MAX,
        ensures
            t@.chars_read == Seq::new((nb_working_ribbons + 1) as nat, |i: int| INIT_CHAR),
            t@.move_read == TuringDirection::Neutral,
            t@.chars_write == Seq::new(
                nb_working_ribbons as nat,
                |i: int| (INIT_CHAR, TuringDirection::Neutral),
            ),
    {
        let mut chars_read: Vec<char> = Vec::new();
        let mut chars_write: Vec<(char, TuringDirection)> = Vec::new();
        chars_read.push(INIT_CHAR);
        let mut i: usize = 0;
        while i < nb_working_ribbons
            invariant
                0 <= i <= nb_working_ribbons < usize::MAX,
                chars_read@ == Seq::new((i + 1) as nat, |j: int| INIT_CHAR),
                chars_write@ == Seq::new(i as nat, |j: int| (INIT_CHAR, TuringDirection::Neutral)),
            decreases nb_working_ribbons - i,
        {
            chars_read.push(INIT_CHAR);
            chars_write.push((INIT_CHAR, TuringDirection::Neutral));
            i = i + 1;
            assert(chars_read@ =~= Seq::new((i + 1) as nat, |j: int| INIT_CHAR));
            assert(chars_write@ =~= Seq::new(i as nat, |j: int| (INIT_CHAR, TuringDirection::Neutral)));
        }
        Self { chars_read, move_read: TuringDirection::Neutral, chars_write }
    }

    /// The number of tapes this transition acts on (`k + 1`).
    pub fn get_number_of_affected_tapes(&self) -> (n: usize)
        requires
            self.chars_write@.len() < usize::MAX,
        ensures
            n == self@.tapes(),
    {
        self.chars_write.len() + 1
    }
}

impl TransitionMultRibbonInfo {
    /// Whether the tapes reading `chars` read exactly the characters of this transition.
    pub fn reads(&self, chars: &[char]) -> (b: bool)
        ensures
            b == (self@.chars_read == chars@),
    {
        if self.chars_read.len() != chars.len() {
            return false;
        }
        let mut i: usize = 0;
        while i < chars.len()
            invariant
                0 <= i <= chars@.len() == self.chars_read@.len(),
                forall|j: int| 0 <= j < i ==> self.chars_read@[j] == chars@[j],
            decreases chars.len() - i,
        {
            if self.chars_read[i] != chars[i] {
                assert(self.chars_read@[i as int] != chars@[i as int]);
                return false;
            }
            i = i + 1;
        }
        assert(self.chars_read@ =~= chars@);
        true
    }

    /// The symbols this transition reads, one per tape.
    pub fn match_symbols(&self) -> (v: Vec<MatchSymbol>)
        ensures
            v@ == self@.symbols(),
    {
        symbols_of(&self.chars_read)
    }

    /// Whether this transition has the same content as `other`.
    pub fn same_as(&self, other: &Self) -> (b: bool)
        ensures
            b == (self@ == other@),
    {
        if self.move_read != other.move_read || self.chars_read.len() != other.chars_read.len()
            || self.chars_write.len() != other.chars_write.len() {
            return false;
        }
        let mut i: usize = 0;
        while i < self.chars_read.len()
            invariant
                0 <= i <= self.chars_read.len() == other.chars_read.len(),
                forall|j: int| 0 <= j < i ==> self.chars_read@[j] == other.chars_read@[j],
            decreases self.chars_read.len() - i,
        {
            if self.chars_read[i] != other.chars_read[i] {
                return false;
            }
            i = i + 1;
        }
        assert(self.chars_read@ =~= other.chars_read@);
        let mut i: usize = 0;
        while i < self.chars_write.len()
            invariant
                0 <= i <= self.chars_write.len() == other.chars_write.len(),
                forall|j: int| 0 <= j < i ==> self.chars_write@[j] == other.chars_write@[j],
            decreases self.chars_write.len() - i,
        {
            let (a, d) = self.chars_write[i];
            let (b, e) = other.chars_write[i];
            if a != b || d != e {
                return false;
            }
            i = i + 1;
        }
        assert(self.chars_write@ =~= other.chars_write@);
        true
    }

    /// A copy of this transition.
    pub fn duplicate(&self) -> (t: Self)
        ensures
            t@ == self@,
    {
        let mut chars_read: Vec<char> = Vec::new();
        let mut i: usize = 0;
        while i < self.chars_read.len()
            invariant
                0 <= i <= self.chars_read.len(),
                chars_read@ == self.chars_read@.take(i as int),
            decreases self.chars_read.len() - i,
        {
            chars_read.push(self.chars_read[i]);
            i = i + 1;
            assert(chars_read@ =~= self.chars_read@.take(i as int));
        }
        let mut chars_write: Vec<(char, TuringDirection)> = Vec::new();
        let mut i: usize = 0;
        while i < self.chars_write.len()
            invariant
                0 <= i <= self.chars_write.len(),
                chars_write@ == self.chars_write@.take(i as int),
            decreases self.chars_write.len() - i,
        {
            chars_write.push(self.chars_write[i]);
            i = i + 1;
            assert(chars_write@ =~= self.chars_write@.take(i as int));
        }
        assert(chars_read@ =~= self.chars_read@);
        assert(chars_write@ =~= self.chars_write@);
        Self { chars_read, move_read: self.move_read, chars_write }
    }
}

impl TransitionsInfo {
    /// Whether this is a transition for a single tape.
    pub fn has_one_ribbon(&self) -> (b: bool)
        ensures
            b == (self@ is OneTape),
    {
        match self {
            TransitionsInfo::OneTape(_) => true,
            TransitionsInfo::MultipleTapes(_) => false,
        }
    }

    /// The number of tapes this transition acts on.
    pub fn get_nb_ribbons(&self) -> (n: usize)
        requires
            self@ is MultipleTapes ==> self@->MultipleTapes_0.chars_write.len() < usize::MAX,
        ensures
            n == self@.tapes(),
    {
        match self {
            TransitionsInfo::OneTape(_) => 1,
            TransitionsInfo::MultipleTapes(t) => t.get_number_of_affected_tapes(),
        }
    }

    /// Whether the transition applies when the tapes read `chars_to_read`.
    pub fn is_valid(&self, chars_to_read: &[char]) -> (b: bool)
        ensures
            b == self@.accepts(chars_to_read@),
    {
        match self {
            TransitionsInfo::OneTape(t) => chars_to_read.len() == 1 && t.chars_read.matches(
                chars_to_read[0],
            ),
            TransitionsInfo::MultipleTapes(t) => t.reads(chars_to_read),
        }
    }

    /// The symbols to be read, one per tape.
    pub fn get_match_symbols(&self) -> (v: Vec<MatchSymbol>)
        ensures
            v@ == self@.symbols(),
    {
        match self {
            TransitionsInfo::OneTape(t) => {
                let mut v = Vec::new();
                v.push(t.chars_read);
                assert(v@ =~= self@.symbols());
                v
            },
            TransitionsInfo::MultipleTapes(t) => t.match_symbols(),
        }
    }

    /// The move of the first tape.
    pub fn get_move_read(&self) -> (d: TuringDirection)
        ensures
            d == self@.move_read(),
    {
        match self {
            TransitionsInfo::OneTape(t) => t.move_pointer,
            TransitionsInfo::MultipleTapes(t) => t.move_read,
        }
    }

    /// Whether this transition has the same content as `other`.
    pub fn same_as(&self, other: &Self) -> (b: bool)
        ensures
            b == (self@ == other@),
    {
        match (self, other) {
            (TransitionsInfo::OneTape(a), TransitionsInfo::OneTape(b)) => *a == *b,
            (TransitionsInfo::MultipleTapes(a), TransitionsInfo::MultipleTapes(b)) => a.same_as(b),
            _ => false,
        }
    }

    /// A copy of this transition.
    pub fn duplicate(&self) -> (t: Self)
        ensures
            t@ == self@,
    {
        match self {
            TransitionsInfo::OneTape(a) => TransitionsInfo::OneTape(*a),
            TransitionsInfo::MultipleTapes(a) => TransitionsInfo::MultipleTapes(a.duplicate()),
        }
    }
}

impl From<TransitionMultRibbonInfo> for TransitionsInfo {
    fn from(value: TransitionMultRibbonInfo) -> (r: Self) {
        TransitionsInfo::MultipleTapes(value)
    }
}

impl vstd::std_specs::convert::FromSpecImpl<TransitionMultRibbonInfo> for TransitionsInfo {
    open spec fn obeys_from_spec() -> bool {
        true
    }

    open spec fn from_spec(v: TransitionMultRibbonInfo) -> Self {
        TransitionsInfo::MultipleTapes(v)
    }
}

impl From<TransitionOneRibbonInfo> for TransitionsInfo {
    fn from(value: TransitionOneRibbonInfo) -> (r: Self) {
        TransitionsInfo::OneTape(value)
    }
}

impl vstd::std_specs::convert::FromSpecImpl<TransitionOneRibbonInfo> for TransitionsInfo {
    open spec fn obeys_from_spec() -> bool {
        true
    }

    open spec fn from_spec(v: TransitionOneRibbonInfo) -> Self {
        TransitionsInfo::OneTape(v)
    }
}

/// A transition of a graph: the information the machine acts on and data of the user's own.
#[derive(Debug, Clone, PartialEq)]
pub struct TuringTransitionWrapper<T: TuringTransition> {
    pub inner_transition: T,
    pub info: TransitionsInfo,
}

impl<T: TuringTransition> TuringTransitionWrapper<T> {
    /// Creates a multi-tape transition, with default user data, as
    /// [`TransitionMultRibbonInfo::create`] does.
    pub fn create(symbols_match: Vec<char>, chars_write: Vec<char>, directions: Vec<TuringDirection>) -> (res:
        Result<Self, TuringTransitionError>)
        ensures
            (res matches Err(TuringTransitionError::TransitionArgsError(_))) <==> mult_args_bad(
                symbols_match@,
                chars_write@,
                directions@,
            ),
            (res matches Err(TuringTransitionError::IllegalActionError(_))) <==> !mult_args_bad(
                symbols_match@,
                chars_write@,
                directions@,
            ) && mult_illegal(symbols_match@, chars_write@, directions@),
            res matches Ok(t) ==> t.info@ == InfoModel::MultipleTapes(
                mult_built(symbols_match@, chars_write@, directions@),
            ),
            res matches Err(e) ==> transition_error_message(e) == mult_error_text(
                symbols_match@,
                chars_write@,
                directions@,
            ),
    {
        let info = TransitionMultRibbonInfo::create(symbols_match, chars_write, directions)?;
        Ok(Self { inner_transition: T::default(), info: TransitionsInfo::MultipleTapes(info) })
    }

    /// The number of tapes this transition acts on.
    pub fn get_number_of_affected_tapes(&self) -> (n: usize)
        requires
            self.info@ is MultipleTapes ==> self.info@->MultipleTapes_0.chars_write.len() < usize::MAX,
        ensures
            n == self.info@.tapes(),
    {
        self.info.get_nb_ribbons()
    }
}

/// What can be turned into a transition of a graph: a transition, or the information of one,
/// which then gets default user data.
pub trait IntoTransition<T: TuringTransition> {
    /// The information of the transition this value turns into.
    spec fn info_model(&self) -> InfoModel;

    /// Whether `d` is the data of the user's own that the transition this value turns into
    /// carries: that of a transition, or what `T::default` gives.
    spec fn data_ok(&self, d: T) -> bool;

    fn into_transition(self) -> (t: TuringTransitionWrapper<T>)
        ensures
            t.info@ == self.info_model(),
            self.data_ok(t.inner_transition),
    ;
}

impl<T: TuringTransition> IntoTransition<T> for TuringTransitionWrapper<T> {
    open spec fn info_model(&self) -> InfoModel {
        self.info@
    }

    open spec fn data_ok(&self, d: T) -> bool {
        d == self.inner_transition
    }

    fn into_transition(self) -> (t: TuringTransitionWrapper<T>) {
        self
    }
}

impl<T: TuringTransition> IntoTransition<T> for TransitionsInfo {
    open spec fn info_model(&self) -> InfoModel {
        self@
    }

    open spec fn data_ok(&self, d: T) -> bool {
        call_ensures(T::default, (), d)
    }

    fn into_transition(self) -> (t: TuringTransitionWrapper<T>) {
        let d = T::default();
        TuringTransitionWrapper { inner_transition: d, info: self }
    }
}

impl<T: TuringTransition> IntoTransition<T> for TransitionMultRibbonInfo {
    open spec fn info_model(&self) -> InfoModel {
        InfoModel::MultipleTapes(self@)
    }

    open spec fn data_ok(&self, d: T) -> bool {
        call_ensures(T::default, (), d)
    }

    fn into_transition(self) -> (t: TuringTransitionWrapper<T>) {
        let d = T::default();
        TuringTransitionWrapper { inner_transition: d, info: TransitionsInfo::MultipleTapes(self) }
    }
}

impl<T: TuringTransition> IntoTransition<T> for TransitionOneRibbonInfo {
    open spec fn info_model(&self) -> InfoModel {
        InfoModel::OneTape(*self)
    }

    open spec fn data_ok(&self, d: T) -> bool {
        call_ensures(T::default, (), d)
    }

    fn into_transition(self) -> (t: TuringTransitionWrapper<T>) {
        let d = T::default();
        TuringTransitionWrapper { inner_transition: d, info: TransitionsInfo::OneTape(self) }
    }
}

/// The characters `cs` separated by `, `.
pub open spec fn reads_text(cs: Seq<char>) -> Seq<char>
    decreases cs.len(),
{
    if cs.len() == 0 {
        Seq::empty()
    } else if cs.len() == 1 {
        seq![char_at(cs, 0)]
    } else {
        reads_text(cs.drop_last()) + seq![',', ' ', char_at(cs, cs.len() - 1)]
    }
}

/// The pairs `, b, D` of the writing tapes.
pub open spec fn pairs_text(ps: Seq<(char, TuringDirection)>) -> Seq<char>
    decreases ps.len(),
{
    if ps.len() == 0 {
        Seq::empty()
    } else {
        pairs_text(ps.drop_last()) + seq![',', ' ', ps.last().0, ',', ' ', ps.last().1.letter()]
    }
}

/// The text of a multi-tape transition: `a_0, ..., a_k -> D_0, b_1, D_1, ..., b_k, D_k`.
pub open spec fn mult_text(t: MultModel) -> Seq<char> {
    reads_text(t.chars_read) + seq![' ', '-', '>', ' ', t.move_read.letter()] + pairs_text(t.chars_write)
}

/// The text of a transition; a single-tape one is written `a -> b, D`.
pub open spec fn info_text(i: InfoModel) -> Seq<char> {
    match i {
        InfoModel::MultipleTapes(t) => mult_text(t),
        InfoModel::OneTape(t) => t.chars_read.text() + seq![' ', '-', '>', ' ', t.replace_with, ',', ' ', t.move_pointer.letter()],
    }
}

impl TransitionOneRibbonInfo {
    /// Appends the text of this transition, `a -> b, D`, to `s`.
    pub fn push_text_to(&self, s: &mut String)
        ensures
            final(s)@ == old(s)@ + info_text(InfoModel::OneTape(*self)),
    {
        let ghost s0 = s@;
        self.chars_read.push_text_to(s);
        push_char(s, ' ');
        push_char(s, '-');
        push_char(s, '>');
        push_char(s, ' ');
        push_char(s, self.replace_with);
        push_char(s, ',');
        push_char(s, ' ');
        push_char(s, self.move_pointer.to_letter());
        assert(s@ =~= s0 + info_text(InfoModel::OneTape(*self)));
    }
}

impl TransitionMultRibbonInfo {
    /// Appends the text of this transition, `a_0, ..., a_k -> D_0, b_1, D_1, ..., b_k, D_k`,
    /// to `s`.
    pub fn push_text_to(&self, s: &mut String)
        ensures
            final(s)@ == old(s)@ + mult_text(self@),
    {
        let ghost s0 = s@;
        let mut i: usize = 0;
        while i < self.chars_read.len()
            invariant
                0 <= i <= self.chars_read@.len(),
                s@ == s0 + reads_text(self.chars_read@.take(i as int)),
            decreases self.chars_read.len() - i,
        {
            let ghost before = s@;
            if i > 0 {
                push_char(s, ',');
                push_char(s, ' ');
            }
            push_char(s, self.chars_read[i]);
            i = i + 1;
            proof {
                let t = self.chars_read@.take(i as int);
                assert(t.drop_last() =~= self.chars_read@.take(i - 1));
                if i == 1 {
                    assert(reads_text(t) =~= seq![char_at(t, 0)]);
                    assert(reads_text(self.chars_read@.take(0)) =~= Seq::<char>::empty());
                }
                assert(s@ =~= s0 + reads_text(t));
            }
        }
        assert(self.chars_read@.take(i as int) =~= self.chars_read@);
        let ghost mid = s@;
        push_char(s, ' ');
        push_char(s, '-');
        push_char(s, '>');
        push_char(s, ' ');
        push_char(s, self.move_read.to_letter());
        let ghost mid2 = s@;
        assert(mid2 =~= mid + seq![' ', '-', '>', ' ', self.move_read.letter()]);
        let mut j: usize = 0;
        while j < self.chars_write.len()
            invariant
                0 <= j <= self.chars_write@.len(),
                s@ == mid2 + pairs_text(self.chars_write@.take(j as int)),
            decreases self.chars_write.len() - j,
        {
            let (c, d) = self.chars_write[j];
            push_char(s, ',');
            push_char(s, ' ');
            push_char(s, c);
            push_char(s, ',');
            push_char(s, ' ');
            push_char(s, d.to_letter());
            j = j + 1;
            proof {
                let t = self.chars_write@.take(j as int);
                assert(t.drop_last() =~= self.chars_write@.take(j - 1));
                assert(s@ =~= mid2 + pairs_text(t));
            }
        }
        assert(self.chars_write@.take(j as int) =~= self.chars_write@);
        assert(s@ =~= s0 + mult_text(self@));
    }
}

impl TransitionsInfo {
    /// Appends the text of this transition to `s`.
    pub fn push_text_to(&self, s: &mut String)
        ensures
            final(s)@ == old(s)@ + info_text(self@),
    {
        match self {
            TransitionsInfo::OneTape(t) => t.push_text_to(s),
            TransitionsInfo::MultipleTapes(t) => t.push_text_to(s),
        }
    }

    /// The text of this transition.
    pub fn to_text(&self) -> (s: String)
        ensures
            s@ == info_text(self@),
    {
        let mut s = String::new();
        self.push_text_to(&mut s);
        assert(s@ =~= info_text(self@));
        s
    }
}

} // verus!
