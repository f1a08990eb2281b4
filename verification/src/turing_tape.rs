//! The tapes of a Turing machine: a reading tape, closed by [`END_CHAR`], and writing tapes,
//! which grow with blanks on demand.
use vstd::prelude::*;

use crate::text::{chars_of, push_char};
use crate::turing_transition::{MatchSymbol, TuringDirection};

verus! {

/// The character stored at the start of every tape.
pub const INIT_CHAR: char = 'ç';

/// The blank character of a tape.
pub const BLANK_CHAR: char = '_';

/// The character placed after the content of a reading tape.
pub const END_CHAR: char = '$';

#[derive(Debug)]
pub enum TuringTapeError {
    /// A special character (`INIT_CHAR` or `END_CHAR`) was to be overwritten.
    SpecialCharReplacementError { special_char: char, replacement_char: char },
    /// A special character (`INIT_CHAR` or `END_CHAR`) was to be written over a normal one.
    SpecialCharPlacementError { og_char: char, special_char: char },
    /// The input word holds a special character.
    IllegalInputError { word: String, illegal_char: char },
    /// A move would take the head out of the tape.
    OutofRangeError { accessed_index: usize, tape_size: usize },
}

/// The abstract content of a tape: its cells and the position of its head.
pub struct TapeModel {
    pub cells: Seq<char>,
    pub head: nat,
}

#[derive(Debug, Clone)]
pub struct TuringTape {
    chars_vec: Vec<char>,
    pointer: usize,
}

impl View for TuringTape {
    type V = TapeModel;

    closed spec fn view(&self) -> TapeModel {
        TapeModel { cells: self.chars_vec@, head: self.pointer as nat }
    }
}

/// The result of checking that `og_char` may be replaced by `new_char`.
pub open spec fn replacement_check(og_char: char, new_char: char) -> Result<(), TuringTapeError> {
    if og_char == new_char {
        Ok(())
    } else if new_char == INIT_CHAR || new_char == END_CHAR {
        Err(TuringTapeError::SpecialCharPlacementError { og_char, special_char: new_char })
    } else if og_char == INIT_CHAR || og_char == END_CHAR {
        Err(TuringTapeError::SpecialCharReplacementError {
            special_char: og_char,
            replacement_char: new_char,
        })
    } else {
        Ok(())
    }
}

/// The first of `INIT_CHAR`, `BLANK_CHAR` and `END_CHAR`, in this order, that `word` holds.
pub open spec fn first_illegal_char(word: Seq<char>) -> Option<char> {
    if word.contains(INIT_CHAR) {
        Some(INIT_CHAR)
    } else if word.contains(BLANK_CHAR) {
        Some(BLANK_CHAR)
    } else if word.contains(END_CHAR) {
        Some(END_CHAR)
    } else {
        None
    }
}

/// The cells of a tape that was fed `word`.
pub open spec fn fed_cells(word: Seq<char>, add_end_char: bool) -> Seq<char> {
    seq![INIT_CHAR] + word + seq![if add_end_char { END_CHAR } else { BLANK_CHAR }]
}

impl TapeModel {
    pub open spec fn wf(self) -> bool {
        self.head < self.cells.len()
    }

    /// The character under the head.
    pub open spec fn current(self) -> char {
        self.cells[self.head as int]
    }

    /// The cells once the head has left for `new_head`: a writing tape (one that does not end
    /// with `END_CHAR`) gets a blank appended when the head reaches its last cell.
    pub open spec fn grown(self, new_head: int) -> Seq<char> {
        if new_head + 1 >= self.cells.len() && self.cells.last() != END_CHAR {
            self.cells.push(BLANK_CHAR)
        } else {
            self.cells
        }
    }

    /// The cells once two trailing blanks have been merged, unless the head stands on the last.
    pub open spec fn trimmed(cells: Seq<char>, new_head: int) -> Seq<char> {
        if cells.len() >= 2 && cells.last() == BLANK_CHAR && cells[cells.len() - 2] == BLANK_CHAR
            && new_head + 1 < cells.len() {
            cells.drop_last()
        } else {
            cells
        }
    }

    /// The result of trying a transition on this tape, and the tape it leaves.
    pub open spec fn apply(self, symbol: MatchSymbol, replace_by: char, move_to: TuringDirection) -> (
        Result<bool, TuringTapeError>,
        TapeModel,
    ) {
        if !symbol.matches_spec(self.current()) {
            (Ok(false), self)
        } else {
            let new_head = self.head + move_to.value_spec();
            if new_head < 0 {
                (
                    Err(
                        TuringTapeError::OutofRangeError {
                            accessed_index: usize::MAX,
                            tape_size: self.cells.len() as usize,
                        },
                    ),
                    self,
                )
            } else {
                let grown = self.grown(new_head);
                match replacement_check(self.current(), replace_by) {
                    Err(e) => (Err(e), TapeModel { cells: grown, head: self.head }),
                    Ok(_) => if new_head >= self.cells.len() && self.cells.last() == END_CHAR {
                        (
                            Err(
                                TuringTapeError::OutofRangeError {
                                    accessed_index: new_head as usize,
                                    tape_size: self.cells.len() as usize,
                                },
                            ),
                            self,
                        )
                    } else {
                        (
                            Ok(true),
                            TapeModel {
                                cells: Self::trimmed(
                                    grown.update(self.head as int, replace_by),
                                    new_head,
                                ),
                                head: new_head as nat,
                            },
                        )
                    },
                }
            }
        }
    }
}

impl TuringTape {
    pub open spec fn wf(&self) -> bool {
        self@.wf()
    }

    /// Creates a tape holding `INIT_CHAR` followed by `END_CHAR` (reading tape) or by a blank.
    pub fn new(is_reading_tape: bool) -> (tape: Self)
        ensures
            tape.wf(),
            tape@.head == 0,
            tape@.cells == seq![INIT_CHAR, if is_reading_tape { END_CHAR } else { BLANK_CHAR }],
    {
        let last_char = if is_reading_tape {
            END_CHAR
        } else {
            BLANK_CHAR
        };
        let mut chars_vec = Vec::new();
        chars_vec.push(INIT_CHAR);
        chars_vec.push(last_char);
        let tape = Self { chars_vec, pointer: 0 };
        assert(tape@.cells =~= seq![INIT_CHAR, last_char]);
        tape
    }

    /// A copy of this tape.
    pub fn snapshot(&self) -> (tape: Self)
        ensures
            tape@ == self@,
    {
        let chars_vec = self.chars_vec.clone();
        assert(chars_vec@ =~= self.chars_vec@);
        Self { chars_vec, pointer: self.pointer }
    }

    /// Tries to apply a transition to this tape: when the character under the head matches
    /// `symbol_match`, it is replaced by `replace_by` and the head moves along `move_to`.
    ///
    /// Returns `Ok(true)` when the transition was taken, `Ok(false)` when the character did not
    /// match, and an error when the move leaves the tape or a special character would be
    /// overwritten or written.
    pub fn try_apply_transition(
        &mut self,
        symbol_match: &MatchSymbol,
        replace_by: char,
        move_to: &TuringDirection,
    ) -> (res: Result<bool, TuringTapeError>)
        requires
            old(self).wf(),
        ensures
            final(self).wf(),
            (res, final(self)@) == old(self)@.apply(*symbol_match, replace_by, *move_to),
    {
        let ghost t = self@;
        let current = self.chars_vec[self.pointer];
        if !symbol_match.matches(current) {
            return Ok(false);
        }
        let len = self.chars_vec.len();
        let new_pointer: usize = match move_to {
            TuringDirection::Left => {
                if self.pointer == 0 {
                    return Err(
                        TuringTapeError::OutofRangeError { accessed_index: usize::MAX, tape_size: len },
                    );
                }
                self.pointer - 1
            },
            TuringDirection::Right => self.pointer + 1,
            TuringDirection::Neutral => self.pointer,
        };
        let last = self.chars_vec[len - 1];
        // A writing tape is unbounded: a blank is added when the head reaches its end.
        if new_pointer >= len - 1 && last != END_CHAR {
            self.chars_vec.push(BLANK_CHAR);
        }
        assert(self.chars_vec@ == t.grown(new_pointer as int));
        match check_replacement_validity(current, replace_by) {
            Err(e) => {
                return Err(e);
            },
            Ok(_) => {},
        }
        // A reading tape ends with its last cell.
        if new_pointer >= len && last == END_CHAR {
            return Err(TuringTapeError::OutofRangeError { accessed_index: new_pointer, tape_size: len });
        }
        self.chars_vec.set(self.pointer, replace_by);
        let n = self.chars_vec.len();
        if n >= 2 && self.chars_vec[n - 1] == BLANK_CHAR && self.chars_vec[n - 2] == BLANK_CHAR
            && new_pointer < n - 1 {
            self.chars_vec.pop();
        }
        self.pointer = new_pointer;
        Ok(true)
    }

    /// The character under the head.
    pub fn read_curr_char(&self) -> (c: char)
        requires
            self.wf(),
        ensures
            c == self@.current(),
    {
        self.chars_vec[self.pointer]
    }

    /// The cells of the tape.
    pub fn get_contents(&self) -> (v: &Vec<char>)
        ensures
            v@ == self@.cells,
    {
        &self.chars_vec
    }

    /// The index of the cell under the head.
    pub fn get_pointer(&self) -> (p: usize)
        ensures
            p == self@.head,
    {
        self.pointer
    }

    /// Replaces the content of the tape by `word`, followed by `END_CHAR` when `add_end_char`
    /// holds and by a blank otherwise, and brings the head back to the start.
    ///
    /// A word holding a special character is refused and leaves the tape unchanged.
    pub fn feed_word(&mut self, word: String, add_end_char: bool) -> (res: Result<(), TuringTapeError>)
        ensures
            match first_illegal_char(word@) {
                Some(c) => {
                    &&& res matches Err(TuringTapeError::IllegalInputError { word: w, illegal_char })
                    &&& w@ == word@
                    &&& illegal_char == c
                    &&& final(self)@ == old(self)@
                },
                None => {
                    &&& res is Ok
                    &&& final(self).wf()
                    &&& final(self)@.head == 0
                    &&& final(self)@.cells == fed_cells(word@, add_end_char)
                },
            },
    {
        check_word_validity(&word)?;
        let chars = chars_of(word.as_str());
        let mut cells: Vec<char> = Vec::new();
        cells.push(INIT_CHAR);
        let mut i: usize = 0;
        while i < chars.len()
            invariant
                0 <= i <= chars.len(),
                chars@ == word@,
                cells@ == seq![INIT_CHAR] + chars@.take(i as int),
            decreases chars.len() - i,
        {
            cells.push(chars[i]);
            i = i + 1;
            assert(chars@.take(i as int) =~= chars@.take(i - 1).push(chars@[i - 1]));
        }
        assert(chars@.take(i as int) =~= chars@);
        if add_end_char {
            cells.push(END_CHAR);
        } else if cells[cells.len() - 1] != BLANK_CHAR {
            cells.push(BLANK_CHAR);
        } else {
            assert(cells@.last() == word@.last());
            assert(word@.contains(BLANK_CHAR));
        }
        assert(cells@ =~= fed_cells(word@, add_end_char));
        self.chars_vec = cells;
        self.pointer = 0;
        Ok(())
    }
}

/// Checks that `og_char` may be replaced by `new_char`: a special character is never written
/// over a normal one, and `INIT_CHAR` or `END_CHAR` are never overwritten.
fn check_replacement_validity(og_char: char, new_char: char) -> (res: Result<(), TuringTapeError>)
    ensures
        res == replacement_check(og_char, new_char),
{
    if og_char == new_char {
        return Ok(());
    }
    if new_char == INIT_CHAR || new_char == END_CHAR {
        return Err(TuringTapeError::SpecialCharPlacementError { og_char, special_char: new_char });
    }
    if og_char == INIT_CHAR || og_char == END_CHAR {
        return Err(
            TuringTapeError::SpecialCharReplacementError {
                special_char: og_char,
                replacement_char: new_char,
            },
        );
    }
    Ok(())
}

/// Whether `c` occurs in `chars`.
fn holds_char(chars: &Vec<char>, c: char) -> (b: bool)
    ensures
        b == chars@.contains(c),
{
    let mut i: usize = 0;
    while i < chars.len()
        invariant
            0 <= i <= chars.len(),
            forall|j: int| 0 <= j < i ==> chars@[j] != c,
        decreases chars.len() - i,
    {
        if chars[i] == c {
            assert(chars@[i as int] == c);
            return true;
        }
        i = i + 1;
    }
    false
}

/// Checks that `word` holds no special character.
fn check_word_validity(word: &String) -> (res: Result<(), TuringTapeError>)
    ensures
        match first_illegal_char(word@) {
            Some(c) => res matches Err(TuringTapeError::IllegalInputError { word: w, illegal_char })
                && w@ == word@ && illegal_char == c,
            None => res is Ok,
        },
{
    let chars = chars_of(word.as_str());
    let forbidden = [INIT_CHAR, BLANK_CHAR, END_CHAR];
    let mut k: usize = 0;
    while k < 3
        invariant
            0 <= k <= 3,
            chars@ == word@,
            forbidden@ == seq![INIT_CHAR, BLANK_CHAR, END_CHAR],
            forall|j: int| 0 <= j < k ==> !word@.contains(#[trigger] forbidden@[j]),
        decreases 3 - k,
    {
        let c = forbidden[k];
        if holds_char(&chars, c) {
            return Err(TuringTapeError::IllegalInputError { word: word.clone(), illegal_char: c });
        }
        k = k + 1;
    }
    assert(!word@.contains(forbidden@[0]));
    assert(!word@.contains(forbidden@[1]));
    assert(!word@.contains(forbidden@[2]));
    Ok(())
}


impl TapeModel {
    /// A reading tape that was fed `word`: its cells never change, only its head moves.
    pub open spec fn reading_ok(self, word: Seq<char>) -> bool {
        &&& self.cells == fed_cells(word, true)
        &&& self.head < self.cells.len()
    }

    /// A writing tape: it starts with `INIT_CHAR`, holds it nowhere else, never holds
    /// `END_CHAR`, and its head is on one of its cells.
    pub open spec fn writing_ok(self) -> bool {
        &&& self.head < self.cells.len()
        &&& self.cells.len() >= 2
        &&& self.cells[0] == INIT_CHAR
        &&& forall|j: int| 1 <= j < self.cells.len() ==> #[trigger] self.cells[j] != INIT_CHAR && self.cells[j] != END_CHAR
    }
}

/// A word without special characters yields a reading tape whose only `INIT_CHAR` is the
/// first cell and whose only `END_CHAR` is the last.
pub proof fn lemma_fed_cells(word: Seq<char>)
    requires
        first_illegal_char(word) is None,
    ensures
        fed_cells(word, true).len() == word.len() + 2,
        fed_cells(word, true)[0] == INIT_CHAR,
        fed_cells(word, true).last() == END_CHAR,
        forall|j: int| 1 <= j < fed_cells(word, true).len() ==> #[trigger] fed_cells(word, true)[j] != INIT_CHAR,
        forall|j: int| 0 <= j < fed_cells(word, true).len() - 1 ==> #[trigger] fed_cells(word, true)[j] != END_CHAR,
{
    let c = fed_cells(word, true);
    assert forall|j: int| 1 <= j < c.len() implies #[trigger] c[j] != INIT_CHAR by {
        if j < c.len() - 1 {
            assert(c[j] == word[j - 1]);
            assert(!word.contains(INIT_CHAR));
            if word[j - 1] == INIT_CHAR {
                assert(word.contains(INIT_CHAR));
            }
        }
    }
    assert forall|j: int| 0 <= j < c.len() - 1 implies #[trigger] c[j] != END_CHAR by {
        if j > 0 {
            assert(c[j] == word[j - 1]);
            if word[j - 1] == END_CHAR {
                assert(word.contains(END_CHAR));
            }
        }
    }
}

/// On a reading tape, a transition that reads the character under the head, writes it back,
/// and neither leaves the end nor the start of the tape, is taken and only moves the head.
pub proof fn lemma_reading_apply(t: TapeModel, word: Seq<char>, d: TuringDirection)
    requires
        first_illegal_char(word) is None,
        t.reading_ok(word),
        !(t.current() == END_CHAR && d == TuringDirection::Right),
        !(t.current() == INIT_CHAR && d == TuringDirection::Left),
    ensures
        t.apply(MatchSymbol::Char(t.current()), t.current(), d).0 == Ok::<bool, TuringTapeError>(true),
        t.apply(MatchSymbol::Char(t.current()), t.current(), d).1.reading_ok(word),
        t.apply(MatchSymbol::Char(t.current()), t.current(), d).1.head == t.head + d.value_spec(),
{
    lemma_fed_cells(word);
    let c = t.current();
    let n = t.head + d.value_spec();
    if t.head == 0 {
        assert(c == INIT_CHAR);
    }
    if t.head == t.cells.len() - 1 {
        assert(c == END_CHAR);
    }
    assert(n >= 0);
    assert(t.grown(n) == t.cells);
    assert(t.cells.update(t.head as int, c) =~= t.cells);
    assert(TapeModel::trimmed(t.cells, n) == t.cells);
}

/// On a writing tape, a transition that reads the character under the head, does not move
/// the head before the start, writes `INIT_CHAR` only over itself and never writes `END_CHAR`,
/// is taken and leaves a writing tape.
pub proof fn lemma_writing_apply(t: TapeModel, r: char, d: TuringDirection)
    requires
        t.writing_ok(),
        !(t.current() == INIT_CHAR && d == TuringDirection::Left),
        t.current() == INIT_CHAR ==> r == INIT_CHAR,
        t.current() != INIT_CHAR ==> r != INIT_CHAR,
        r != END_CHAR,
    ensures
        t.apply(MatchSymbol::Char(t.current()), r, d).0 == Ok::<bool, TuringTapeError>(true),
        t.apply(MatchSymbol::Char(t.current()), r, d).1.writing_ok(),
        t.apply(MatchSymbol::Char(t.current()), r, d).1.head == t.head + d.value_spec(),
{
    let c = t.current();
    let n = t.head + d.value_spec();
    if t.head == 0 {
        assert(c == INIT_CHAR);
    } else {
        assert(t.cells[t.head as int] != INIT_CHAR);
    }
    assert(n >= 0);
    assert(t.cells.last() != END_CHAR) by {
        assert(t.cells[t.cells.len() - 1] != END_CHAR);
    }
    assert(c != END_CHAR) by {
        if t.head > 0 {
            assert(t.cells[t.head as int] != END_CHAR);
        }
    }
    assert(replacement_check(c, r) == Ok::<(), TuringTapeError>(()));
    let g = t.grown(n);
    let u = g.update(t.head as int, r);
    let f = TapeModel::trimmed(u, n);
    assert(f.len() >= 2);
    assert forall|j: int| 1 <= j < f.len() implies #[trigger] f[j] != INIT_CHAR && f[j] != END_CHAR by {
        assert(f[j] == u[j]);
        if j != t.head {
            if j < t.cells.len() {
                assert(u[j] == t.cells[j]);
            } else {
                assert(u[j] == BLANK_CHAR);
            }
        } else {
            assert(t.head > 0);
        }
    }
}

/// The characters `cs` separated by commas.
pub open spec fn cells_joined(cs: Seq<char>) -> Seq<char>
    decreases cs.len(),
{
    if cs.len() == 0 {
        Seq::empty()
    } else if cs.len() == 1 {
        seq![cs[0]]
    } else {
        cells_joined(cs.drop_last()) + seq![',', cs.last()]
    }
}

/// The line under the cells: `↑ ` under the cell at `pointer`, two blanks under the others.
pub open spec fn head_marks(n: nat, pointer: usize) -> Seq<char>
    decreases n,
{
    if n == 0 {
        Seq::empty()
    } else {
        head_marks((n - 1) as nat, pointer) + if n - 1 == pointer {
            seq!['↑', ' ']
        } else {
            seq![' ', ' ']
        }
    }
}

/// The text of a tape for a human reader: `[c_0,...,c_n]` (with `,...` before the bracket
/// when the tape goes on), then a line that marks the cell under the head with an arrow.
pub open spec fn tape_text(cells: Seq<char>, pointer: usize, is_inf: bool) -> Seq<char> {
    (if cells.len() == 0 {
        Seq::empty()
    } else {
        seq!['['] + cells_joined(cells)
    }) + (if is_inf {
        seq![',', '.', '.', '.']
    } else {
        Seq::empty()
    }) + seq![']', '\n', ' '] + head_marks(cells.len(), pointer)
}

/// The text of a tape for a human reader (see [`tape_text`]).
fn tape_to_string(chars_vec: &[char], pointer: usize, is_inf: bool) -> (res: String)
    ensures
        res@ == tape_text(chars_vec@, pointer, is_inf),
{
    let mut res = String::new();
    let mut marks: Vec<char> = Vec::new();
    let mut i: usize = 0;
    while i < chars_vec.len()
        invariant
            0 <= i <= chars_vec@.len(),
            res@ == (if i == 0 {
                Seq::empty()
            } else {
                seq!['['] + cells_joined(chars_vec@.take(i as int))
            }),
            marks@ == head_marks(i as nat, pointer),
        decreases chars_vec.len() - i,
    {
        let ghost before = res@;
        if i == 0 {
            push_char(&mut res, '[');
        } else {
            push_char(&mut res, ',');
        }
        push_char(&mut res, chars_vec[i]);
        if i == pointer {
            marks.push('↑');
        } else {
            marks.push(' ');
        }
        marks.push(' ');
        i = i + 1;
        proof {
            let t = chars_vec@.take(i as int);
            assert(t.drop_last() =~= chars_vec@.take(i - 1));
            assert(res@ =~= seq!['['] + cells_joined(t));
            assert(marks@ =~= head_marks(i as nat, pointer));
        }
    }
    assert(chars_vec@.take(i as int) =~= chars_vec@);
    let ghost body = res@;
    if is_inf {
        push_char(&mut res, ',');
        push_char(&mut res, '.');
        push_char(&mut res, '.');
        push_char(&mut res, '.');
    }
    push_char(&mut res, ']');
    push_char(&mut res, '\n');
    push_char(&mut res, ' ');
    let ghost head = res@;
    let mut j: usize = 0;
    while j < marks.len()
        invariant
            0 <= j <= marks@.len(),
            res@ == head + marks@.take(j as int),
        decreases marks.len() - j,
    {
        push_char(&mut res, marks[j]);
        j = j + 1;
        assert(res@ =~= head + marks@.take(j as int));
    }
    assert(marks@.take(j as int) =~= marks@);
    assert(res@ =~= tape_text(chars_vec@, pointer, is_inf));
    res
}

impl TuringTape {
    /// The text of this tape for a human reader (see [`tape_text`]).
    pub fn to_text(&self) -> (s: String)
        ensures
            s@ == tape_text(self@.cells, self@.head as usize, false),
    {
        tape_to_string(self.chars_vec.as_slice(), self.pointer, false)
    }
}

} // verus!
