//! Ways to designate a state, a transition, and a transition between two states.
use vstd::prelude::*;

use crate::text::{decimal, push_char, push_decimal, push_text};
use crate::turing_graph::{index_text, IndexModel};
use crate::turing_transition::{
    info_text, InfoModel, TransitionMultRibbonInfo, TransitionOneRibbonInfo, TransitionsInfo,
};

verus! {

/// A state designated by its id or by its name.
#[derive(Debug, Clone, PartialEq)]
pub enum TuringStateIndex {
    /// The id of the state.
    ID(usize),
    /// The name of the state.
    Value(String),
}

impl View for TuringStateIndex {
    type V = IndexModel;

    open spec fn view(&self) -> IndexModel {
        match self {
            TuringStateIndex::ID(id) => IndexModel::ID(*id),
            TuringStateIndex::Value(n) => IndexModel::Name(n@),
        }
    }
}

/// What can designate a state: an id or a name.
pub trait IntoStateIndex {
    /// The designation this value stands for.
    spec fn state_index_model(&self) -> IndexModel;

    fn into_state_index(self) -> (i: TuringStateIndex)
        ensures
            i@ == self.state_index_model(),
    ;
}

impl IntoStateIndex for TuringStateIndex {
    open spec fn state_index_model(&self) -> IndexModel {
        self@
    }

    fn into_state_index(self) -> (i: TuringStateIndex) {
        self
    }
}

impl IntoStateIndex for usize {
    open spec fn state_index_model(&self) -> IndexModel {
        IndexModel::ID(*self)
    }

    fn into_state_index(self) -> (i: TuringStateIndex) {
        TuringStateIndex::ID(self)
    }
}

impl IntoStateIndex for &usize {
    open spec fn state_index_model(&self) -> IndexModel {
        IndexModel::ID(**self)
    }

    fn into_state_index(self) -> (i: TuringStateIndex) {
        TuringStateIndex::ID(*self)
    }
}

impl IntoStateIndex for String {
    open spec fn state_index_model(&self) -> IndexModel {
        IndexModel::Name(self@)
    }

    fn into_state_index(self) -> (i: TuringStateIndex) {
        TuringStateIndex::Value(self)
    }
}

impl IntoStateIndex for &String {
    open spec fn state_index_model(&self) -> IndexModel {
        IndexModel::Name((*self)@)
    }

    fn into_state_index(self) -> (i: TuringStateIndex) {
        TuringStateIndex::Value(self.clone())
    }
}

impl IntoStateIndex for &str {
    open spec fn state_index_model(&self) -> IndexModel {
        IndexModel::Name((*self)@)
    }

    fn into_state_index(self) -> (i: TuringStateIndex) {
        TuringStateIndex::Value(self.to_owned())
    }
}

impl TuringStateIndex {
    /// The designation of a state by an id or a name.
    pub fn from<I: IntoStateIndex>(index: I) -> (i: Self)
        ensures
            i@ == index.state_index_model(),
    {
        index.into_state_index()
    }

    /// Appends the text of this designation to `s`.
    pub fn push_text_to(&self, s: &mut String)
        ensures
            final(s)@ == old(s)@ + index_text(self@),
    {
        match self {
            TuringStateIndex::ID(id) => push_decimal(s, *id),
            TuringStateIndex::Value(n) => push_text(s, n.as_str()),
        }
    }

    /// The text of this designation: the id in decimal, or the name.
    pub fn to_text(&self) -> (s: String)
        ensures
            s@ == index_text(self@),
    {
        let mut s = String::new();
        self.push_text_to(&mut s);
        assert(s@ =~= index_text(self@));
        s
    }
}

/// A transition designated by its position among those between two states, or by its
/// information.
#[derive(Debug, Clone, PartialEq)]
pub enum TransitionId {
    /// The position of the transition.
    ID(usize),
    /// The information of the transition.
    Value(TransitionsInfo),
}

/// The abstract value of a [`TransitionId`].
pub enum TransitionIdModel {
    ID(usize),
    Value(InfoModel),
}

impl View for TransitionId {
    type V = TransitionIdModel;

    open spec fn view(&self) -> TransitionIdModel {
        match self {
            TransitionId::ID(p) => TransitionIdModel::ID(*p),
            TransitionId::Value(t) => TransitionIdModel::Value(t@),
        }
    }
}

/// What can designate a transition: a position, or the information of a transition.
pub trait IntoTransitionId {
    /// The designation this value stands for.
    spec fn transition_id_model(&self) -> TransitionIdModel;

    fn into_transition_id(self) -> (i: TransitionId)
        ensures
            i@ == self.transition_id_model(),
    ;
}

impl IntoTransitionId for usize {
    open spec fn transition_id_model(&self) -> TransitionIdModel {
        TransitionIdModel::ID(*self)
    }

    fn into_transition_id(self) -> (i: TransitionId) {
        TransitionId::ID(self)
    }
}

impl IntoTransitionId for &usize {
    open spec fn transition_id_model(&self) -> TransitionIdModel {
        TransitionIdModel::ID(**self)
    }

    fn into_transition_id(self) -> (i: TransitionId) {
        TransitionId::ID(*self)
    }
}

impl IntoTransitionId for &TransitionId {
    open spec fn transition_id_model(&self) -> TransitionIdModel {
        (*self)@
    }

    fn into_transition_id(self) -> (i: TransitionId) {
        match self {
            TransitionId::ID(p) => TransitionId::ID(*p),
            TransitionId::Value(t) => TransitionId::Value(t.duplicate()),
        }
    }
}

impl IntoTransitionId for TransitionsInfo {
    open spec fn transition_id_model(&self) -> TransitionIdModel {
        TransitionIdModel::Value(self@)
    }

    fn into_transition_id(self) -> (i: TransitionId) {
        TransitionId::Value(self)
    }
}

impl IntoTransitionId for TransitionMultRibbonInfo {
    open spec fn transition_id_model(&self) -> TransitionIdModel {
        TransitionIdModel::Value(InfoModel::MultipleTapes(self@))
    }

    fn into_transition_id(self) -> (i: TransitionId) {
        TransitionId::Value(TransitionsInfo::MultipleTapes(self))
    }
}

impl IntoTransitionId for TransitionOneRibbonInfo {
    open spec fn transition_id_model(&self) -> TransitionIdModel {
        TransitionIdModel::Value(InfoModel::OneTape(*self))
    }

    fn into_transition_id(self) -> (i: TransitionId) {
        TransitionId::Value(TransitionsInfo::OneTape(self))
    }
}

impl TransitionId {
    /// The designation of a transition by a position or by its information.
    pub fn from<I: IntoTransitionId>(index: I) -> (i: Self)
        ensures
            i@ == index.transition_id_model(),
    {
        index.into_transition_id()
    }

    /// Appends the text of this designation to `s`.
    pub fn push_text_to(&self, s: &mut String)
        ensures
            final(s)@ == old(s)@ + transition_id_text(self@),
    {
        match self {
            TransitionId::ID(p) => push_decimal(s, *p),
            TransitionId::Value(t) => t.push_text_to(s),
        }
    }

    /// The text of this designation: the position in decimal, or the text of the transition.
    pub fn to_text(&self) -> (s: String)
        ensures
            s@ == transition_id_text(self@),
    {
        let mut s = String::new();
        self.push_text_to(&mut s);
        assert(s@ =~= transition_id_text(self@));
        s
    }
}

/// The text of a designation of a transition: its position in decimal, or its text.
pub open spec fn transition_id_text(t: TransitionIdModel) -> Seq<char> {
    match t {
        TransitionIdModel::ID(p) => decimal(p as nat),
        TransitionIdModel::Value(i) => info_text(i),
    }
}

/// A transition designated by its source state, its designation among the transitions
/// between the two states, and its target state.
#[derive(Debug, Clone, PartialEq)]
pub struct TuringTransitionIndex {
    pub source_id: TuringStateIndex,
    pub transition_id: TransitionId,
    pub target_id: TuringStateIndex,
}

impl TuringTransitionIndex {
    /// The designation of a transition by its source, its own designation and its target.
    pub fn from<S: IntoStateIndex, F: IntoTransitionId, T: IntoStateIndex>(value: (S, F, T)) -> (i: Self)
        ensures
            i.source_id@ == value.0.state_index_model(),
            i.transition_id@ == value.1.transition_id_model(),
            i.target_id@ == value.2.state_index_model(),
    {
        let (s, f, t) = value;
        TuringTransitionIndex {
            source_id: s.into_state_index(),
            transition_id: f.into_transition_id(),
            target_id: t.into_state_index(),
        }
    }

    /// The text of this designation: `(source -> transition -> target)`.
    pub fn to_text(&self) -> (s: String)
        ensures
            s@ == seq!['('] + index_text(self.source_id@) + " -> "@ + transition_id_text(
                self.transition_id@,
            ) + " -> "@ + index_text(self.target_id@) + seq![')'],
    {
        let mut s = String::new();
        push_char(&mut s, '(');
        self.source_id.push_text_to(&mut s);
        push_text(&mut s, " -> ");
        self.transition_id.push_text_to(&mut s);
        push_text(&mut s, " -> ");
        self.target_id.push_text_to(&mut s);
        push_char(&mut s, ')');
        proof {
            reveal_strlit(" -> ");
        }
        assert(s@ =~= seq!['('] + index_text(self.source_id@) + " -> "@ + transition_id_text(
            self.transition_id@,
        ) + " -> "@ + index_text(self.target_id@) + seq![')']);
        s
    }
}

} // verus!
