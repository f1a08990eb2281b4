//! Editing a transition of a graph as text: a copy of it whose symbols are strings, which the
//! user changes field by field and which is turned back into a transition once each string
//! holds at least one character.
use vstd::prelude::*;

use crate::text::{chars_of, push_text, string_of};
use crate::turing_transition::{
    InfoModel, MultModel, TransitionMultRibbonInfo, TransitionsInfo, TuringDirection,
    TuringTransition, TuringTransitionError, TuringTransitionWrapper, mult_args_bad, mult_error_text,
    mult_illegal,
};

verus! {

/// Errors of the editing layer.
#[derive(Debug, PartialEq)]
pub enum GuiError {
    InvalidState,
    GraphError(String),
    CodeError(String),
    NoTransitionSelected,
    NoStateSelected,
    InvalidTransition { reason: String },
    TransitionAlreadyExist,
    StateAlreadyExist,
    SyntaxError(String),
    NoTransitionEditing,
    NoStateEditing,
    FileError(String),
    InvalidInput(String),
}

/// An error of the editing layer, or one of the library underneath, given by its text.
#[derive(Debug, PartialEq)]
pub enum RitmError {
    GuiError(GuiError),
    CoreError(String),
}

/// The text of an error of the editing layer, ending with a line end.
pub open spec fn gui_error_text(e: GuiError) -> Seq<char> {
    (match e {
        GuiError::InvalidState => "Application state invalid !"@,
        GuiError::GraphError(m) => "Error in the graph : "@ + m@,
        GuiError::CodeError(m) => "Error in code : "@ + m@,
        GuiError::NoTransitionSelected => "No transition selected"@,
        GuiError::NoStateSelected => "No state selected"@,
        GuiError::InvalidTransition { reason } => "Invalid transition : "@ + reason@,
        GuiError::TransitionAlreadyExist => "Transition already exist"@,
        GuiError::StateAlreadyExist => "State already exist"@,
        GuiError::SyntaxError(m) => "Syntax error : "@ + m@,
        GuiError::NoTransitionEditing => "No transition are being edited"@,
        GuiError::NoStateEditing => "No state are being edited"@,
        GuiError::FileError(m) => "File error : "@ + m@,
        GuiError::InvalidInput(m) => "Invalid input detected : "@ + m@,
    }) + "\n"@
}

/// The text of an error, followed by a line end: the text of the editing error (which ends
/// with its own), or the message of the library underneath.
pub open spec fn ritm_error_text(e: RitmError) -> Seq<char> {
    match e {
        RitmError::GuiError(g) => gui_error_text(g) + "\n"@,
        RitmError::CoreError(m) => m@ + "\n"@,
    }
}

impl GuiError {
    /// Appends the text of this error, without its line end, to `s`.
    fn push_message_to(&self, s: &mut String)
        ensures
            final(s)@ + "\n"@ == old(s)@ + gui_error_text(*self),
    {
        let ghost s0 = s@;
        match self {
            GuiError::InvalidState => push_text(s, "Application state invalid !"),
            GuiError::GraphError(m) => {
                push_text(s, "Error in the graph : ");
                push_text(s, m.as_str());
            },
            GuiError::CodeError(m) => {
                push_text(s, "Error in code : ");
                push_text(s, m.as_str());
            },
            GuiError::NoTransitionSelected => push_text(s, "No transition selected"),
            GuiError::NoStateSelected => push_text(s, "No state selected"),
            GuiError::InvalidTransition { reason } => {
                push_text(s, "Invalid transition : ");
                push_text(s, reason.as_str());
            },
            GuiError::TransitionAlreadyExist => push_text(s, "Transition already exist"),
            GuiError::StateAlreadyExist => push_text(s, "State already exist"),
            GuiError::SyntaxError(m) => {
                push_text(s, "Syntax error : ");
                push_text(s, m.as_str());
            },
            GuiError::NoTransitionEditing => push_text(s, "No transition are being edited"),
            GuiError::NoStateEditing => push_text(s, "No state are being edited"),
            GuiError::FileError(m) => {
                push_text(s, "File error : ");
                push_text(s, m.as_str());
            },
            GuiError::InvalidInput(m) => {
                push_text(s, "Invalid input detected : ");
                push_text(s, m.as_str());
            },
        }
        assert(s@ + "\n"@ =~= s0 + gui_error_text(*self));
    }

    /// The text of this error, ending with a line end.
    pub fn to_text(&self) -> (s: String)
        ensures
            s@ == gui_error_text(*self),
    {
        let mut s = String::new();
        self.push_message_to(&mut s);
        push_text(&mut s, "\n");
        s
    }
}

impl RitmError {
    /// The text of this error, ending with a line end.
    pub fn to_text(&self) -> (s: String)
        ensures
            s@ == ritm_error_text(*self),
    {
        let mut s = String::new();
        match self {
            RitmError::GuiError(g) => {
                let t = g.to_text();
                push_text(&mut s, t.as_str());
            },
            RitmError::CoreError(m) => push_text(&mut s, m.as_str()),
        }
        push_text(&mut s, "\n");
        s
    }
}

/// Transition data that carries nothing, for graphs built by editing.
#[derive(Default, PartialEq, Debug, Clone)]
pub struct Transition {}

impl TuringTransition for Transition {}

impl Transition {
    pub fn new() -> (t: Self) {
        Transition {}
    }
}

/// A transition of a graph built by editing.
pub type TransitionWrapper = TuringTransitionWrapper<Transition>;

/// The reason given when a symbol of an edited transition is left empty.
pub open spec fn empty_char_reason() -> Seq<char> {
    "Empty char present in the transition"@
}

/// The text of an error of the library underneath, as it is reported.
pub open spec fn transition_error_text(e: TuringTransitionError) -> Seq<char> {
    match e {
        TuringTransitionError::TransitionArgsError(m) =>
            "Trying to construct a transition with an incorrect number of arguments: \""@ + m@
                + "\""@,
        TuringTransitionError::IllegalActionError(m) => "Tried to create an illegal transition: \""@
            + m@ + "\""@,
    }
}

/// The text of the error that building a transition from `reads`, `writes` and `directions`
/// gives (see [`TransitionMultRibbonInfo::create`]), as it is reported.
pub open spec fn core_error_text(reads: Seq<char>, writes: Seq<char>, directions: Seq<TuringDirection>) -> Seq<
    char,
> {
    if mult_args_bad(reads, writes, directions) {
        "Trying to construct a transition with an incorrect number of arguments: \""@ + mult_error_text(
            reads,
            writes,
            directions,
        ) + "\""@
    } else {
        "Tried to create an illegal transition: \""@ + mult_error_text(reads, writes, directions) + "\""@
    }
}

/// The text of `e`, as it is reported.
fn transition_error_to_text(e: &TuringTransitionError) -> (s: String)
    ensures
        s@ == transition_error_text(*e),
{
    let mut s = String::new();
    match e {
        TuringTransitionError::TransitionArgsError(m) => {
            push_text(&mut s, "Trying to construct a transition with an incorrect number of arguments: \"");
            push_text(&mut s, m.as_str());
        },
        TuringTransitionError::IllegalActionError(m) => {
            push_text(&mut s, "Tried to create an illegal transition: \"");
            push_text(&mut s, m.as_str());
        },
    }
    push_text(&mut s, "\"");
    s
}

/// The text of one symbol.
fn char_text(c: char) -> (s: String)
    ensures
        s@ == seq![c],
{
    let v: Vec<char> = vec![c];
    let s = string_of(&v);
    assert(v@ =~= seq![c]);
    s
}

/// A copy of a transition whose symbols are strings, to be edited.
#[derive(Debug)]
pub struct TransitionWrapperCopy {
    pub inner_transition: Transition,
    /// The characters to read, `a_0, ..., a_{n-1}`.
    pub chars_read: Vec<String>,
    /// The move of the reading tape, `D_0`.
    pub move_read: TuringDirection,
    /// The characters to write and the moves, `(b_1, D_1), ..., (b_{n-1}, D_{n-1})`.
    pub chars_write: Vec<(String, TuringDirection)>,
}

/// The abstract content of a [`TransitionWrapperCopy`].
pub struct CopyModel {
    pub chars_read: Seq<Seq<char>>,
    pub move_read: TuringDirection,
    pub chars_write: Seq<(Seq<char>, TuringDirection)>,
}

impl View for TransitionWrapperCopy {
    type V = CopyModel;

    open spec fn view(&self) -> CopyModel {
        CopyModel {
            chars_read: self.chars_read@.map_values(|s: String| s@),
            move_read: self.move_read,
            chars_write: self.chars_write@.map_values(|p: (String, TuringDirection)| (p.0@, p.1)),
        }
    }
}

/// The copy of the transition `t`: each symbol becomes a string of one character. A transition
/// for one tape reads its symbol's text and writes its replacement, both with its one move.
pub open spec fn copy_of(t: InfoModel) -> CopyModel {
    match t {
        InfoModel::MultipleTapes(m) => CopyModel {
            chars_read: m.chars_read.map_values(|c: char| seq![c]),
            move_read: m.move_read,
            chars_write: m.chars_write.map_values(|p: (char, TuringDirection)| (seq![p.0], p.1)),
        },
        InfoModel::OneTape(o) => CopyModel {
            chars_read: seq![o.chars_read.text()],
            move_read: o.move_pointer,
            chars_write: seq![(seq![o.replace_with], o.move_pointer)],
        },
    }
}

/// Whether every symbol of an edited transition holds at least one character.
pub open spec fn copy_filled(c: CopyModel) -> bool {
    &&& forall|i: int| 0 <= i < c.chars_read.len() ==> (#[trigger] c.chars_read[i]).len() > 0
    &&& forall|i: int| 0 <= i < c.chars_write.len() ==> (#[trigger] c.chars_write[i]).0.len() > 0
}

/// The characters to read of an edited transition: the first character of each symbol.
pub open spec fn copy_reads(c: CopyModel) -> Seq<char> {
    c.chars_read.map_values(|s: Seq<char>| s[0])
}

/// The characters to write of an edited transition, each with its move.
pub open spec fn copy_pairs(c: CopyModel) -> Seq<(char, TuringDirection)> {
    c.chars_write.map_values(|p: (Seq<char>, TuringDirection)| (p.0[0], p.1))
}

/// The characters to write of an edited transition.
pub open spec fn copy_writes(c: CopyModel) -> Seq<char> {
    copy_pairs(c).map_values(|p: (char, TuringDirection)| p.0)
}

/// The moves of all tapes of an edited transition: the reading tape's, then each writing tape's.
pub open spec fn copy_directions(c: CopyModel) -> Seq<TuringDirection> {
    seq![c.move_read] + copy_pairs(c).map_values(|p: (char, TuringDirection)| p.1)
}

/// Whether two edited transitions have the same symbols and moves.
fn same_copy(a: &TransitionWrapperCopy, b: &TransitionWrapperCopy) -> (r: bool)
    ensures
        r == (a@ == b@),
{
    if a.move_read != b.move_read || a.chars_read.len() != b.chars_read.len()
        || a.chars_write.len() != b.chars_write.len() {
        proof {
            if a@ == b@ {
                assert(a@.chars_read.len() == a.chars_read@.len());
                assert(a@.chars_write.len() == a.chars_write@.len());
            }
        }
        return false;
    }
    let mut i: usize = 0;
    while i < a.chars_read.len()
        invariant
            a.chars_read@.len() == b.chars_read@.len(),
            0 <= i <= a.chars_read@.len(),
            forall|j: int| 0 <= j < i ==> a.chars_read@[j]@ == b.chars_read@[j]@,
        decreases a.chars_read.len() - i,
    {
        if a.chars_read[i] != b.chars_read[i] {
            assert(a@.chars_read[i as int] != b@.chars_read[i as int]);
            return false;
        }
        i = i + 1;
    }
    let mut j: usize = 0;
    while j < a.chars_write.len()
        invariant
            a.chars_write@.len() == b.chars_write@.len(),
            0 <= j <= a.chars_write@.len(),
            forall|k: int|
                0 <= k < j ==> a.chars_write@[k].0@ == b.chars_write@[k].0@ && a.chars_write@[k].1
                    == b.chars_write@[k].1,
        decreases a.chars_write.len() - j,
    {
        if a.chars_write[j].0 != b.chars_write[j].0 || a.chars_write[j].1 != b.chars_write[j].1 {
            assert(a@.chars_write[j as int] != b@.chars_write[j as int]);
            return false;
        }
        j = j + 1;
    }
    assert(a@.chars_read =~= b@.chars_read);
    assert(a@.chars_write =~= b@.chars_write);
    true
}

impl TransitionWrapperCopy {
    /// The copy of a transition of a graph.
    pub fn from(value: &TransitionWrapper) -> (c: Self)
        ensures
            c@ == copy_of(value.info@),
    {
        match &value.info {
            TransitionsInfo::MultipleTapes(m) => {
                let mut chars_read: Vec<String> = Vec::new();
                let mut i: usize = 0;
                while i < m.chars_read.len()
                    invariant
                        0 <= i <= m.chars_read@.len(),
                        chars_read@.len() == i,
                        forall|k: int| 0 <= k < i ==> (#[trigger] chars_read@[k])@ == seq![m.chars_read@[k]],
                    decreases m.chars_read.len() - i,
                {
                    chars_read.push(char_text(m.chars_read[i]));
                    i = i + 1;
                }
                let mut chars_write: Vec<(String, TuringDirection)> = Vec::new();
                let mut j: usize = 0;
                while j < m.chars_write.len()
                    invariant
                        0 <= j <= m.chars_write@.len(),
                        chars_write@.len() == j,
                        forall|k: int|
                            0 <= k < j ==> (#[trigger] chars_write@[k]).0@ == seq![m.chars_write@[k].0]
                                && chars_write@[k].1 == m.chars_write@[k].1,
                    decreases m.chars_write.len() - j,
                {
                    let (c, d) = m.chars_write[j];
                    chars_write.push((char_text(c), d));
                    j = j + 1;
                }
                let c = TransitionWrapperCopy {
                    inner_transition: Transition {},
                    chars_read,
                    move_read: m.move_read,
                    chars_write,
                };
                assert(c@.chars_read =~= m@.chars_read.map_values(|c: char| seq![c]));
                assert(c@.chars_write =~= m@.chars_write.map_values(
                    |p: (char, TuringDirection)| (seq![p.0], p.1),
                ));
                c
            },
            TransitionsInfo::OneTape(o) => {
                let mut read = String::new();
                o.chars_read.push_text_to(&mut read);
                let chars_read: Vec<String> = vec![read];
                let chars_write: Vec<(String, TuringDirection)> = vec![
                    (char_text(o.replace_with), o.move_pointer),
                ];
                let c = TransitionWrapperCopy {
                    inner_transition: Transition {},
                    chars_read,
                    move_read: o.move_pointer,
                    chars_write,
                };
                assert(c@.chars_read =~= seq![o.chars_read.text()]);
                assert(c@.chars_write =~= seq![(seq![o.replace_with], o.move_pointer)]);
                c
            },
        }
    }

    /// A copy of this edited transition.
    pub fn duplicate(&self) -> (c: Self)
        ensures
            c@ == self@,
    {
        let mut chars_read: Vec<String> = Vec::new();
        let mut i: usize = 0;
        while i < self.chars_read.len()
            invariant
                0 <= i <= self.chars_read@.len(),
                chars_read@.len() == i,
                forall|k: int| 0 <= k < i ==> (#[trigger] chars_read@[k])@ == self.chars_read@[k]@,
            decreases self.chars_read.len() - i,
        {
            chars_read.push(self.chars_read[i].clone());
            i = i + 1;
        }
        let mut chars_write: Vec<(String, TuringDirection)> = Vec::new();
        let mut j: usize = 0;
        while j < self.chars_write.len()
            invariant
                0 <= j <= self.chars_write@.len(),
                chars_write@.len() == j,
                forall|k: int|
                    0 <= k < j ==> (#[trigger] chars_write@[k]).0@ == self.chars_write@[k].0@
                        && chars_write@[k].1 == self.chars_write@[k].1,
            decreases self.chars_write.len() - j,
        {
            chars_write.push((self.chars_write[j].0.clone(), self.chars_write[j].1));
            j = j + 1;
        }
        let c = TransitionWrapperCopy {
            inner_transition: Transition {},
            chars_read,
            move_read: self.move_read,
            chars_write,
        };
        assert(c@.chars_read =~= self@.chars_read);
        assert(c@.chars_write =~= self@.chars_write);
        c
    }

    /// Turns the edited transition back into a transition of a graph: fails when a symbol is
    /// empty, and otherwise builds the transition from the first character of each symbol as
    /// [`TransitionMultRibbonInfo::new`] does, reporting its error by text.
    pub fn try_to(&self) -> (res: Result<TransitionWrapper, RitmError>)
        requires
            self.chars_write@.len() < usize::MAX,
        ensures
            !copy_filled(self@) ==> (res matches Err(
                RitmError::GuiError(GuiError::InvalidTransition { reason }),
            ) && reason@ == empty_char_reason()),
            copy_filled(self@) ==> {
                let (reads, writes, dirs) = (copy_reads(self@), copy_writes(self@), copy_directions(self@));
                &&& (res is Ok) <==> !mult_args_bad(reads, writes, dirs) && !mult_illegal(reads, writes, dirs)
                &&& res matches Ok(t) ==> t.info@ == InfoModel::MultipleTapes(
                    MultModel { chars_read: reads, move_read: self.move_read, chars_write: copy_pairs(self@) },
                )
                &&& res is Err ==> (res matches Err(RitmError::CoreError(m)) && m@ == core_error_text(
                    reads,
                    writes,
                    dirs,
                ))
            },
    {
        let mut reads: Vec<char> = Vec::new();
        let mut filled = true;
        let mut i: usize = 0;
        while i < self.chars_read.len()
            invariant
                0 <= i <= self.chars_read@.len(),
                filled ==> reads@ == copy_reads(self@).take(i as int),
                filled ==> forall|j: int| 0 <= j < i ==> (#[trigger] self@.chars_read[j]).len() > 0,
                !filled ==> !copy_filled(self@),
            decreases self.chars_read.len() - i,
        {
            let cs = chars_of(self.chars_read[i].as_str());
            if cs.len() == 0 {
                assert(self@.chars_read[i as int].len() == 0);
                filled = false;
            } else if filled {
                reads.push(cs[0]);
                assert(reads@ =~= copy_reads(self@).take(i + 1));
            }
            i = i + 1;
        }
        let mut pairs: Vec<(char, TuringDirection)> = Vec::new();
        let mut j: usize = 0;
        while j < self.chars_write.len()
            invariant
                0 <= j <= self.chars_write@.len(),
                filled ==> pairs@ == copy_pairs(self@).take(j as int),
                filled ==> forall|k: int| 0 <= k < j ==> (#[trigger] self@.chars_write[k]).0.len() > 0,
                filled ==> forall|k: int| 0 <= k < self@.chars_read.len() ==> (#[trigger] self@.chars_read[k]).len() > 0,
                filled ==> reads@ == copy_reads(self@),
                !filled ==> !copy_filled(self@),
                i == self.chars_read@.len(),
            decreases self.chars_write.len() - j,
        {
            let cs = chars_of(self.chars_write[j].0.as_str());
            if cs.len() == 0 {
                assert(self@.chars_write[j as int].0.len() == 0);
                filled = false;
            } else if filled {
                pairs.push((cs[0], self.chars_write[j].1));
                assert(pairs@ =~= copy_pairs(self@).take(j + 1));
            }
            j = j + 1;
            assert(filled ==> reads@ =~= copy_reads(self@).take(i as int));
        }
        if !filled {
            let mut reason = String::new();
            push_text(&mut reason, "Empty char present in the transition");
            return Err(RitmError::GuiError(GuiError::InvalidTransition { reason }));
        }
        assert(reads@ =~= copy_reads(self@));
        assert(pairs@ =~= copy_pairs(self@));
        assert(copy_pairs(self@).len() == self.chars_write@.len());
        assert(pairs@.map_values(|p: (char, TuringDirection)| p.0) =~= copy_writes(self@));
        assert(seq![self.move_read] + pairs@.map_values(|p: (char, TuringDirection)| p.1)
            =~= copy_directions(self@));
        match TransitionMultRibbonInfo::new(reads, self.move_read, pairs) {
            Ok(t) => Ok(TuringTransitionWrapper {
                inner_transition: Transition {},
                info: TransitionsInfo::MultipleTapes(t),
            }),
            Err(e) => Err(RitmError::CoreError(transition_error_to_text(&e))),
        }
    }
}

/// A transition being edited: the copy it started from and the copy being changed.
#[derive(Debug)]
pub struct TransitionEdit {
    base: TransitionWrapperCopy,
    edit: TransitionWrapperCopy,
    has_changed: bool,
}

/// The abstract content of a [`TransitionEdit`].
pub struct EditModel {
    pub base: CopyModel,
    pub edit: CopyModel,
}

impl View for TransitionEdit {
    type V = EditModel;

    closed spec fn view(&self) -> EditModel {
        EditModel { base: self.base@, edit: self.edit@ }
    }
}

impl TransitionEdit {
    /// Starts editing the transition `ttmr`: both copies are its copy.
    pub fn from(ttmr: &TransitionWrapper) -> (e: Self)
        ensures
            e@.base == copy_of(ttmr.info@),
            e@.edit == copy_of(ttmr.info@),
    {
        TransitionEdit {
            base: TransitionWrapperCopy::from(ttmr),
            edit: TransitionWrapperCopy::from(ttmr),
            has_changed: false,
        }
    }

    /// The edited transition, turned back into a transition of a graph as
    /// [`TransitionWrapperCopy::try_to`] does.
    pub fn to(&self) -> (res: Result<TransitionWrapper, RitmError>)
        requires
            self@.edit.chars_write.len() < usize::MAX,
        ensures
            !copy_filled(self@.edit) ==> (res matches Err(
                RitmError::GuiError(GuiError::InvalidTransition { reason }),
            ) && reason@ == empty_char_reason()),
            copy_filled(self@.edit) ==> {
                let (reads, writes, dirs) = (
                    copy_reads(self@.edit),
                    copy_writes(self@.edit),
                    copy_directions(self@.edit),
                );
                &&& (res is Ok) <==> !mult_args_bad(reads, writes, dirs) && !mult_illegal(reads, writes, dirs)
                &&& res matches Ok(t) ==> t.info@ == InfoModel::MultipleTapes(
                    MultModel {
                        chars_read: reads,
                        move_read: self@.edit.move_read,
                        chars_write: copy_pairs(self@.edit),
                    },
                )
                &&& res is Err ==> (res matches Err(RitmError::CoreError(m)) && m@ == core_error_text(
                    reads,
                    writes,
                    dirs,
                ))
            },
    {
        self.edit.try_to()
    }

    /// The edited copy, to be changed in place.
    pub fn get_edit(&mut self) -> (r: &mut TransitionWrapperCopy)
        ensures
            r@ == old(self)@.edit,
            final(self)@ == (EditModel { edit: final(r)@, ..old(self)@ }),
    {
        &mut self.edit
    }

    /// Whether the edited copy differs from the copy it started from.
    pub fn has_changed(&self) -> (b: bool)
        ensures
            b == (self@.edit != self@.base),
    {
        !same_copy(&self.edit, &self.base)
    }

    /// Drops the changes: the edited copy is again the copy it started from.
    pub fn undo(&mut self)
        ensures
            final(self)@ == (EditModel { edit: old(self)@.base, ..old(self)@ }),
    {
        self.edit = self.base.duplicate();
        self.has_changed = false;
    }
}

} // verus!
