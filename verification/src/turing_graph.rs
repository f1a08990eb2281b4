//! The graph of a Turing machine: its states (nodes) and the transitions between them (edges).
use vstd::prelude::*;

use std::collections::HashMap;

use crate::text::{decimal, push_decimal, push_text};
use crate::turing_tape::TuringTapeError;
use crate::turing_transition::{
    InfoModel, IntoTransition, TransitionsInfo, TuringTransition, TuringTransitionWrapper,
};

verus! {

broadcast use vstd::std_specs::hash::group_hash_axioms;

#[derive(Debug)]
pub enum TuringGraphError {
    /// A graph was to be made with no writing tape.
    NotEnoughTapesError,
    /// The initial state was to be removed.
    ImmutableStateError { state: TuringStateInfo },
    /// A state was to be given a name that another state already has.
    AlreadyPresentNameError { name: String, state: TuringStateInfo },
    /// The transition was already present between the two states.
    AlreadyPresentTransitionError {
        from: TuringGraphIndex,
        to: TuringGraphIndex,
        transition: TransitionsInfo,
    },
    /// No state of the graph answers to the index.
    UnknownStateIndex { accessed_index: TuringGraphIndex },
    /// An error of a tape.
    TuringTapeError(TuringTapeError),
    /// The transition acts on a number of writing tapes other than the graph's.
    IncompatibleTransitionError { expected: usize, received: usize },
}

/// How a state of a graph is designated: by its id or by its name.
#[derive(Debug, Clone, PartialEq)]
pub enum TuringGraphIndex {
    ID(usize),
    Name(String),
}

/// The abstract value of a [`TuringGraphIndex`].
pub enum IndexModel {
    ID(usize),
    Name(Seq<char>),
}

impl View for TuringGraphIndex {
    type V = IndexModel;

    open spec fn view(&self) -> IndexModel {
        match self {
            TuringGraphIndex::ID(id) => IndexModel::ID(*id),
            TuringGraphIndex::Name(n) => IndexModel::Name(n@),
        }
    }
}

/// What can designate a state of a graph: an id, a name or an index.
pub trait IntoGraphIndex {
    /// The index this value stands for.
    spec fn index_model(&self) -> IndexModel;

    fn into_graph_index(self) -> (i: TuringGraphIndex)
        ensures
            i@ == self.index_model(),
    ;
}

impl IntoGraphIndex for TuringGraphIndex {
    open spec fn index_model(&self) -> IndexModel {
        self@
    }

    fn into_graph_index(self) -> (i: TuringGraphIndex) {
        self
    }
}

impl IntoGraphIndex for &TuringGraphIndex {
    open spec fn index_model(&self) -> IndexModel {
        (*self)@
    }

    fn into_graph_index(self) -> (i: TuringGraphIndex) {
        self.duplicate()
    }
}

impl IntoGraphIndex for usize {
    open spec fn index_model(&self) -> IndexModel {
        IndexModel::ID(*self)
    }

    fn into_graph_index(self) -> (i: TuringGraphIndex) {
        TuringGraphIndex::ID(self)
    }
}

impl IntoGraphIndex for &usize {
    open spec fn index_model(&self) -> IndexModel {
        IndexModel::ID(**self)
    }

    fn into_graph_index(self) -> (i: TuringGraphIndex) {
        TuringGraphIndex::ID(*self)
    }
}

impl IntoGraphIndex for &str {
    open spec fn index_model(&self) -> IndexModel {
        IndexModel::Name((*self)@)
    }

    fn into_graph_index(self) -> (i: TuringGraphIndex) {
        TuringGraphIndex::Name(self.to_owned())
    }
}

impl IntoGraphIndex for String {
    open spec fn index_model(&self) -> IndexModel {
        IndexModel::Name(self@)
    }

    fn into_graph_index(self) -> (i: TuringGraphIndex) {
        TuringGraphIndex::Name(self)
    }
}

impl IntoGraphIndex for &String {
    open spec fn index_model(&self) -> IndexModel {
        IndexModel::Name((*self)@)
    }

    fn into_graph_index(self) -> (i: TuringGraphIndex) {
        TuringGraphIndex::Name(self.clone())
    }
}

impl TuringGraphIndex {
    /// Builds an index from an id, a name or another index.
    pub fn from<I: IntoGraphIndex>(index: I) -> (i: Self)
        ensures
            i@ == index.index_model(),
    {
        index.into_graph_index()
    }

    /// A copy of this index.
    pub fn duplicate(&self) -> (i: Self)
        ensures
            i@ == self@,
    {
        match self {
            TuringGraphIndex::ID(id) => TuringGraphIndex::ID(*id),
            TuringGraphIndex::Name(n) => TuringGraphIndex::Name(n.clone()),
        }
    }

    /// Appends the text of this index to `s`.
    pub fn push_text_to(&self, s: &mut String)
        ensures
            final(s)@ == old(s)@ + index_text(self@),
    {
        match self {
            TuringGraphIndex::ID(id) => push_decimal(s, *id),
            TuringGraphIndex::Name(n) => push_text(s, n.as_str()),
        }
    }

    /// The text of this index: the id in decimal, or the name.
    pub fn to_text(&self) -> (s: String)
        ensures
            s@ == index_text(self@),
    {
        let mut s = String::new();
        self.push_text_to(&mut s);
        assert(s@ =~= index_text(self@));
        s
    }
}

/// The text of a designation of a state: its id in decimal, or its name.
pub open spec fn index_text(i: IndexModel) -> Seq<char> {
    match i {
        IndexModel::ID(id) => decimal(id as nat),
        IndexModel::Name(n) => n,
    }
}

/// What can name a state: a string or a string slice.
pub trait StateName {
    /// The characters of the name.
    spec fn name_model(&self) -> Seq<char>;

    fn into_name(self) -> (s: String)
        ensures
            s@ == self.name_model(),
    ;
}

impl StateName for &str {
    open spec fn name_model(&self) -> Seq<char> {
        (*self)@
    }

    fn into_name(self) -> (s: String) {
        self.to_owned()
    }
}

impl StateName for String {
    open spec fn name_model(&self) -> Seq<char> {
        self@
    }

    fn into_name(self) -> (s: String) {
        self
    }
}

impl StateName for &String {
    open spec fn name_model(&self) -> Seq<char> {
        (*self)@
    }

    fn into_name(self) -> (s: String) {
        self.clone()
    }
}

/// The kinds of states of a graph.
#[derive(Debug, Clone, Copy, PartialEq, Eq, Structural)]
pub enum TuringStateType {
    /// A normal state, with no special effect.
    Normal,
    /// A state that accepts the input.
    Accepting,
    /// A state that rejects the input.
    Rejecting,
}

/// The data that users attach to the states of a graph.
pub trait TuringState: Clone + Default + std::fmt::Debug {
    /// The data of the initial state of a new graph.
    fn new_init() -> Self;

    /// The data of the default accepting state of a new graph.
    fn new_accepting() -> Self;
}

/// The abstract content of a state: its name, its kind and its id.
pub struct StateModel {
    pub name: Seq<char>,
    pub state_type: TuringStateType,
    pub id: usize,
}

/// The name, kind and id of a state.
#[derive(Debug, PartialEq, Eq, Clone)]
pub struct TuringStateInfo {
    name: String,
    state_type: TuringStateType,
    id: usize,
}

impl View for TuringStateInfo {
    type V = StateModel;

    closed spec fn view(&self) -> StateModel {
        StateModel { name: self.name@, state_type: self.state_type, id: self.id }
    }
}

impl TuringStateInfo {
    pub fn get_type(&self) -> (t: TuringStateType)
        ensures
            t == self@.state_type,
    {
        self.state_type
    }

    pub fn get_id(&self) -> (id: usize)
        ensures
            id == self@.id,
    {
        self.id
    }

    pub fn get_name(&self) -> (n: String)
        ensures
            n@ == self@.name,
    {
        self.name.clone()
    }

    /// A copy of this information.
    pub fn duplicate(&self) -> (i: Self)
        ensures
            i@ == self@,
    {
        TuringStateInfo { name: self.name.clone(), state_type: self.state_type, id: self.id }
    }
}

/// A state of a graph: its information and data of the user's own.
#[derive(Debug, PartialEq, Eq, Clone)]
pub struct TuringStateWrapper<S: TuringState> {
    inner_state: S,
    info: TuringStateInfo,
}

impl<S: TuringState> View for TuringStateWrapper<S> {
    type V = StateModel;

    closed spec fn view(&self) -> StateModel {
        self.info@
    }
}

impl<S: TuringState> TuringStateWrapper<S> {
    /// The data of the user's own that the state carries.
    pub closed spec fn data(&self) -> S {
        self.inner_state
    }

    pub fn get_info(&self) -> (i: &TuringStateInfo)
        ensures
            i@ == self@,
    {
        &self.info
    }

    pub fn get_name(&self) -> (n: &String)
        ensures
            n@ == self@.name,
    {
        &self.info.name
    }

    pub fn get_type(&self) -> (t: &TuringStateType)
        ensures
            *t == self@.state_type,
    {
        &self.info.state_type
    }

    pub fn get_id(&self) -> (id: usize)
        ensures
            id == self@.id,
    {
        self.info.id
    }

    fn new_normal(inner_state: S, name: String, index: usize) -> (w: Self)
        ensures
            w@ == (StateModel { name: name@, state_type: TuringStateType::Normal, id: index }),
            w.data() == inner_state,
    {
        Self::new_type(inner_state, name, index, TuringStateType::Normal)
    }

    fn new_accepting(inner_state: S, name: String, index: usize) -> (w: Self)
        ensures
            w@ == (StateModel { name: name@, state_type: TuringStateType::Accepting, id: index }),
            w.data() == inner_state,
    {
        Self::new_type(inner_state, name, index, TuringStateType::Accepting)
    }

    fn new_type(inner_state: S, name: String, index: usize, state_type: TuringStateType) -> (w: Self)
        ensures
            w@ == (StateModel { name: name@, state_type, id: index }),
            w.data() == inner_state,
    {
        Self { inner_state, info: TuringStateInfo { name, state_type, id: index } }
    }
}


/// The transitions going from one state to another, in the order they were added.
#[derive(Debug, Clone, PartialEq)]
pub struct TransitionEdge<T: TuringTransition> {
    from: usize,
    to: usize,
    transitions: Vec<TuringTransitionWrapper<T>>,
}

/// The abstract content of the transitions between two states.
pub struct EdgeModel {
    pub from: usize,
    pub to: usize,
    pub infos: Seq<InfoModel>,
}

impl<T: TuringTransition> View for TransitionEdge<T> {
    type V = EdgeModel;

    closed spec fn view(&self) -> EdgeModel {
        EdgeModel {
            from: self.from,
            to: self.to,
            infos: self.transitions@.map_values(|t: TuringTransitionWrapper<T>| t.info@),
        }
    }
}

impl<T: TuringTransition> TransitionEdge<T> {
    pub fn get_from(&self) -> (f: usize)
        ensures
            f == self@.from,
    {
        self.from
    }

    pub fn get_to(&self) -> (t: usize)
        ensures
            t == self@.to,
    {
        self.to
    }

    /// The transitions between the two states.
    pub fn get_transitions(&self) -> (v: &Vec<TuringTransitionWrapper<T>>)
        ensures
            v@.map_values(|t: TuringTransitionWrapper<T>| t.info@) == self@.infos,
    {
        &self.transitions
    }
}

/// The abstract content of a graph: its states by id, the transitions between pairs of
/// states in the order the pairs were first linked, the id the next new state gets, and the
/// number of writing tapes.
pub struct GraphModel {
    pub states: Map<usize, StateModel>,
    pub edges: Seq<EdgeModel>,
    pub next_index: usize,
    pub k: usize,
}

/// The graph of a Turing machine with `k >= 1` writing tapes.
#[derive(Debug, Clone, PartialEq)]
pub struct TuringMachineGraph<S: TuringState, T: TuringTransition> {
    state_hashmap: HashMap<usize, TuringStateWrapper<S>>,
    transition_hasmap: Vec<TransitionEdge<T>>,
    next_state_index: usize,
    /// The number of writing tapes this graph was made for.
    k: usize,
}

/// The name the graph is also known by.
pub type TuringGraph<S, T> = TuringMachineGraph<S, T>;

/// The characters of the name of the initial state of a new graph.
pub open spec fn init_state_name() -> Seq<char> {
    seq!['i']
}

/// The characters of the name of the default accepting state of a new graph.
pub open spec fn accepting_state_name() -> Seq<char> {
    seq!['a']
}

impl GraphModel {
    /// The validity of a graph: the initial state is there, the ids are below `next_index`,
    /// the names are unique, each transition links two states, acts on `k + 1` tapes and
    /// appears once, and each pair of states has at most one (non-empty) list of transitions.
    pub open spec fn wf(self) -> bool {
        &&& 1 <= self.k < usize::MAX
        &&& self.states.dom().finite()
        &&& self.states.contains_key(0)
        &&& forall|id: usize| #[trigger]
            self.states.contains_key(id) ==> self.states[id].id == id && id < self.next_index
        &&& forall|a: usize, b: usize|
            #![trigger self.states[a], self.states[b]]
            self.states.contains_key(a) && self.states.contains_key(b) && a != b
                ==> self.states[a].name != self.states[b].name
        &&& forall|i: int| 0 <= i < self.edges.len() ==> self.edge_wf(#[trigger] self.edges[i])
        &&& forall|i: int, j: int|
            #![trigger self.edges[i], self.edges[j]]
            0 <= i < j < self.edges.len() ==> !(self.edges[i].from == self.edges[j].from
                && self.edges[i].to == self.edges[j].to)
    }

    pub open spec fn edge_wf(self, e: EdgeModel) -> bool {
        &&& self.states.contains_key(e.from)
        &&& self.states.contains_key(e.to)
        &&& 0 < e.infos.len() <= usize::MAX
        &&& forall|j: int|
            0 <= j < e.infos.len() ==> (#[trigger] e.infos[j]) is MultipleTapes && e.infos[j].tapes()
                == self.k + 1
        &&& forall|a: int, b: int|
            #![trigger e.infos[a], e.infos[b]]
            0 <= a < b < e.infos.len() ==> e.infos[a] != e.infos[b]
    }

    /// Whether some state is named `name`.
    pub open spec fn has_name(self, name: Seq<char>) -> bool {
        exists|id: usize| #[trigger] self.states.contains_key(id) && self.states[id].name == name
    }

    /// The id of the state named `name`.
    pub open spec fn id_of_name(self, name: Seq<char>) -> Option<usize> {
        if self.has_name(name) {
            Some(choose|id: usize| #[trigger] self.states.contains_key(id) && self.states[id].name == name)
        } else {
            None
        }
    }

    /// The id of the state that `index` designates, if there is one.
    pub open spec fn resolve(self, index: IndexModel) -> Option<usize> {
        match index {
            IndexModel::ID(id) => if self.states.contains_key(id) {
                Some(id)
            } else {
                None
            },
            IndexModel::Name(n) => self.id_of_name(n),
        }
    }

    /// Whether there are transitions from `from` to `to`.
    pub open spec fn has_edge(self, from: usize, to: usize) -> bool {
        exists|i: int| 0 <= i < self.edges.len() && #[trigger] self.edges[i].from == from && self.edges[i].to == to
    }

    /// The position of the transitions from `from` to `to` among the edges.
    pub open spec fn edge_position(self, from: usize, to: usize) -> int {
        choose|i: int| 0 <= i < self.edges.len() && #[trigger] self.edges[i].from == from && self.edges[i].to == to
    }

    /// The transitions from `from` to `to`, in the order they were added.
    pub open spec fn transitions_between(self, from: usize, to: usize) -> Seq<InfoModel> {
        if self.has_edge(from, to) {
            self.edges[self.edge_position(from, to)].infos
        } else {
            Seq::empty()
        }
    }
}

impl<S: TuringState, T: TuringTransition> View for TuringMachineGraph<S, T> {
    type V = GraphModel;

    closed spec fn view(&self) -> GraphModel {
        GraphModel {
            states: Map::new(
                |id: usize| self.state_hashmap@.contains_key(id),
                |id: usize| self.state_hashmap@[id]@,
            ),
            edges: self.transition_hasmap@.map_values(|e: TransitionEdge<T>| e@),
            next_index: self.next_state_index,
            k: self.k,
        }
    }
}

impl<S: TuringState, T: TuringTransition> TuringMachineGraph<S, T> {
    pub open spec fn wf(&self) -> bool {
        self@.wf()
    }

    /// The data of the user's own that each state carries, by id.
    pub closed spec fn state_data(&self) -> Map<usize, S> {
        Map::new(
            |id: usize| self.state_hashmap@.contains_key(id),
            |id: usize| self.state_hashmap@[id].data(),
        )
    }

    /// The transitions from `from` to `to` as they are stored, data of the user's own
    /// included, in the order they were added.
    pub closed spec fn stored(&self, from: usize, to: usize) -> Seq<TuringTransitionWrapper<T>> {
        if self@.has_edge(from, to) {
            self.transition_hasmap@[self@.edge_position(from, to)].transitions@
        } else {
            Seq::empty()
        }
    }

    /// The information of the stored transitions between two states is what the graph's
    /// view holds for them.
    pub proof fn lemma_stored_infos(&self, from: usize, to: usize)
        requires
            self.wf(),
        ensures
            self.stored(from, to).map_values(|t: TuringTransitionWrapper<T>| t.info@)
                == self@.transitions_between(from, to),
    {
        if self@.has_edge(from, to) {
            let p = self@.edge_position(from, to);
            assert(self@.edges[p] == self.transition_hasmap@[p]@);
        } else {
            assert(self.stored(from, to).map_values(|t: TuringTransitionWrapper<T>| t.info@)
                =~= Seq::<InfoModel>::empty());
        }
    }

    /// The states that carry data are the states of the graph.
    pub proof fn lemma_state_data_dom(&self)
        ensures
            self.state_data().dom() == self@.states.dom(),
    {
        assert(self.state_data().dom() =~= self@.states.dom());
    }

    /// The data of the states of a new graph: the initial state carries what
    /// `S::new_init` gave and, when there is one, the accepting state what `S::new_accepting`
    /// gave.
    pub open spec fn fresh_data(&self, default_acc_state: bool) -> bool {
        &&& call_ensures(S::new_init, (), self.state_data()[0])
        &&& default_acc_state ==> call_ensures(S::new_accepting, (), self.state_data()[1])
    }

    /// Creates a graph for `k` writing tapes (`k >= 1`), with an initial state `i` (id 0)
    /// and, when `default_acc_state` holds, an accepting state `a` (id 1).
    pub fn new(k: usize, default_acc_state: bool) -> (res: Result<Self, TuringGraphError>)
        requires
            k < usize::MAX,
        ensures
            k == 0 <==> res matches Err(TuringGraphError::NotEnoughTapesError),
            k != 0 ==> res is Ok,
            res matches Ok(g) ==> {
                &&& g.wf()
                &&& g.fresh_data(default_acc_state)
                &&& g@.k == k
                &&& g@.edges == Seq::<EdgeModel>::empty()
                &&& g@.next_index == if default_acc_state { 2usize } else { 1usize }
                &&& g@.states == if default_acc_state {
                    map![
                        0usize => StateModel { name: init_state_name(), state_type: TuringStateType::Normal, id: 0 },
                        1usize => StateModel { name: accepting_state_name(), state_type: TuringStateType::Accepting, id: 1 },
                    ]
                } else {
                    map![0usize => StateModel { name: init_state_name(), state_type: TuringStateType::Normal, id: 0 }]
                }
            },
    {
        if k == 0 {
            return Err(TuringGraphError::NotEnoughTapesError);
        }
        Ok(Self::fresh(k, default_acc_state))
    }

    /// A graph for `k` writing tapes holding only its default states.
    fn fresh(k: usize, default_acc_state: bool) -> (g: Self)
        requires
            1 <= k < usize::MAX,
        ensures
            g.wf(),
            g.fresh_data(default_acc_state),
            g@.k == k,
            g@.edges == Seq::<EdgeModel>::empty(),
            g@.next_index == if default_acc_state { 2usize } else { 1usize },
            g@.states == if default_acc_state {
                map![
                    0usize => StateModel { name: init_state_name(), state_type: TuringStateType::Normal, id: 0 },
                    1usize => StateModel { name: accepting_state_name(), state_type: TuringStateType::Accepting, id: 1 },
                ]
            } else {
                map![0usize => StateModel { name: init_state_name(), state_type: TuringStateType::Normal, id: 0 }]
            },
    {
        let mut state_hashmap: HashMap<usize, TuringStateWrapper<S>> = HashMap::new();
        let mut init_name = String::new();
        crate::text::push_char(&mut init_name, 'i');
        assert(init_name@ =~= init_state_name());
        let init_data = S::new_init();
        state_hashmap.insert(0, TuringStateWrapper::new_normal(init_data, init_name, 0));
        let mut next_state_index: usize = 1;
        if default_acc_state {
            let mut acc_name = String::new();
            crate::text::push_char(&mut acc_name, 'a');
            assert(acc_name@ =~= accepting_state_name());
            let acc_data = S::new_accepting();
            state_hashmap.insert(1, TuringStateWrapper::new_accepting(acc_data, acc_name, 1));
            next_state_index = 2;
        }
        let g = Self { state_hashmap, transition_hasmap: Vec::new(), next_state_index, k };
        assert(g@.edges =~= Seq::<EdgeModel>::empty());
        if default_acc_state {
            assert(g@.states =~= map![
                0usize => StateModel { name: init_state_name(), state_type: TuringStateType::Normal, id: 0 },
                1usize => StateModel { name: accepting_state_name(), state_type: TuringStateType::Accepting, id: 1 },
            ]);
        } else {
            assert(g@.states =~= map![0usize => StateModel { name: init_state_name(), state_type: TuringStateType::Normal, id: 0 }]);
        }
        assert(g@.states.dom().finite());
        assert(g@.states.contains_key(0));
        assert(forall|id: usize| #[trigger] g@.states.contains_key(id) ==> g@.states[id].id == id && id < g@.next_index);
        assert(init_state_name() != accepting_state_name()) by {
            assert(init_state_name()[0] != accepting_state_name()[0]);
        }
        assert(g.wf());
        g
    }

    /// The id of the state named `state_name`, if there is one.
    fn get_state_index(&self, state_name: &String) -> (r: Option<usize>)
        requires
            self.wf(),
        ensures
            r == self@.id_of_name(state_name@),
    {
        let mut id: usize = 0;
        while id < self.next_state_index
            invariant
                self.wf(),
                0 <= id <= self.next_state_index,
                forall|j: usize| j < id && #[trigger] self@.states.contains_key(j) ==> self@.states[j].name != state_name@,
            decreases self.next_state_index - id,
        {
            match self.state_hashmap.get(&id) {
                Some(w) => {
                    if w.info.name == *state_name {
                        assert(self@.states.contains_key(id) && self@.states[id].name == state_name@);
                        return Some(id);
                    }
                },
                None => {},
            }
            id = id + 1;
        }
        None
    }

    /// The id that `index` designates, if a state answers to it.
    fn resolve_index(&self, index: &TuringGraphIndex) -> (r: Option<usize>)
        requires
            self.wf(),
        ensures
            r == self@.resolve(index@),
    {
        match index {
            TuringGraphIndex::ID(id) => {
                if self.state_hashmap.contains_key(id) {
                    Some(*id)
                } else {
                    None
                }
            },
            TuringGraphIndex::Name(n) => self.get_state_index(n),
        }
    }

    /// The state that `index` designates, or the error `UnknownStateIndex`.
    fn state_at(&self, index: TuringGraphIndex) -> (res: Result<&TuringStateWrapper<S>, TuringGraphError>)
        requires
            self.wf(),
        ensures
            match self@.resolve(index@) {
                Some(id) => res matches Ok(w) && w@ == self@.states[id] && w.data() == self.state_data()[id],
                None => res matches Err(TuringGraphError::UnknownStateIndex { accessed_index })
                    && accessed_index@ == index@,
            },
    {
        match self.resolve_index(&index) {
            Some(id) => match self.state_hashmap.get(&id) {
                Some(w) => Ok(w),
                None => Err(TuringGraphError::UnknownStateIndex { accessed_index: index }),
            },
            None => Err(TuringGraphError::UnknownStateIndex { accessed_index: index }),
        }
    }

    /// Returns the state (node) that `index` designates, by id or by name.
    pub fn get_state<I: IntoGraphIndex>(&self, index: I) -> (res: Result<&TuringStateWrapper<S>, TuringGraphError>)
        requires
            self.wf(),
        ensures
            match self@.resolve(index.index_model()) {
                Some(id) => res matches Ok(w) && w@ == self@.states[id] && w.data() == self.state_data()[id],
                None => res matches Err(TuringGraphError::UnknownStateIndex { accessed_index })
                    && accessed_index@ == index.index_model(),
            },
    {
        self.state_at(index.into_graph_index())
    }

    /// Adds a state named `name` of kind `state_type` and returns its id. When a state of that
    /// name is already there, its id is returned and nothing changes (its kind stays).
    pub fn add_state<N: StateName>(&mut self, name: N, state_type: TuringStateType) -> (id: usize)
        requires
            old(self).wf(),
            !old(self)@.has_name(name.name_model()) ==> old(self)@.next_index < usize::MAX,
        ensures
            final(self).wf(),
            forall|a: usize, b: usize| #[trigger] final(self).stored(a, b) == old(self).stored(a, b),
            match old(self)@.id_of_name(name.name_model()) {
                Some(existing) => id == existing && final(self)@ == old(self)@ && final(self).state_data()
                    == old(self).state_data(),
                None => {
                    &&& id == old(self)@.next_index
                    &&& final(self).state_data() == old(self).state_data().insert(id, final(self).state_data()[id])
                    &&& call_ensures(S::default, (), final(self).state_data()[id])
                    &&& final(self)@ == GraphModel {
                        states: old(self)@.states.insert(
                            id,
                            StateModel { name: name.name_model(), state_type, id },
                        ),
                        next_index: (id + 1) as usize,
                        ..old(self)@
                    }
                },
            },
    {
        let name = name.into_name();
        match self.get_state_index(&name) {
            Some(index) => index,
            None => {
                let ghost old_g = self@;
                let index = self.next_state_index;
                let data = S::default();
                let w = TuringStateWrapper::new_type(data, name, index, state_type);
                self.state_hashmap.insert(index, w);
                assert(self.state_data() =~= old(self).state_data().insert(index, data));
                self.next_state_index = index + 1;
                let ghost new_states = old_g.states.insert(index, w@);
                assert(self@.states =~= new_states);
                assert(self@.edges =~= old_g.edges);
                assert forall|a: usize, b: usize|
                    #![trigger self@.states[a], self@.states[b]]
                    self@.states.contains_key(a) && self@.states.contains_key(b) && a != b
                        implies self@.states[a].name != self@.states[b].name by {
                    if a == index {
                        assert(!old_g.has_name(w@.name));
                        assert(old_g.states.contains_key(b));
                    } else if b == index {
                        assert(!old_g.has_name(w@.name));
                        assert(old_g.states.contains_key(a));
                    }
                }
                assert forall|i: int| 0 <= i < self@.edges.len() implies self@.edge_wf(
                    #[trigger] self@.edges[i],
                ) by {
                    assert(old_g.edge_wf(old_g.edges[i]));
                }
                index
            },
        }
    }

    /// The position of the transitions from `from` to `to`, if there are any.
    fn find_edge(&self, from: usize, to: usize) -> (r: Option<usize>)
        requires
            self.wf(),
        ensures
            match r {
                Some(i) => self@.has_edge(from, to) && i == self@.edge_position(from, to) && i
                    < self@.edges.len(),
                None => !self@.has_edge(from, to),
            },
    {
        let mut i: usize = 0;
        while i < self.transition_hasmap.len()
            invariant
                self.wf(),
                0 <= i <= self.transition_hasmap@.len(),
                forall|j: int| 0 <= j < i ==> !(#[trigger] self@.edges[j].from == from && self@.edges[j].to == to),
            decreases self.transition_hasmap.len() - i,
        {
            let e = &self.transition_hasmap[i];
            if e.from == from && e.to == to {
                assert(self@.edges[i as int] == e@);
                assert(self@.edges[i as int].from == from && self@.edges[i as int].to == to);
                let ghost p = self@.edge_position(from, to);
                assert(p == i) by {
                    if p != i {
                        if p < i {
                            assert(self@.edges[p].from == from);
                        } else {
                            assert(!(self@.edges[i as int].from == self@.edges[p].from && self@.edges[i as int].to == self@.edges[p].to));
                        }
                    }
                }
                return Some(i);
            }
            assert(self@.edges[i as int] == e@);
            i = i + 1;
        }
        None
    }

    /// The transitions from `from` to `to`, when there are any.
    fn edge_transitions(&self, from: usize, to: usize) -> (r: Option<&Vec<TuringTransitionWrapper<T>>>)
        requires
            self.wf(),
        ensures
            match r {
                Some(v) => self@.has_edge(from, to) && v@.map_values(
                    |t: TuringTransitionWrapper<T>| t.info@,
                ) == self@.transitions_between(from, to) && v@ == self.stored(from, to),
                None => !self@.has_edge(from, to),
            },
    {
        match self.find_edge(from, to) {
            Some(i) => {
                assert(self@.edges[i as int] == self.transition_hasmap@[i as int]@);
                Some(&self.transition_hasmap[i].transitions)
            },
            None => None,
        }
    }

    /// The transition at position `index` among those from `from` to `to`.
    pub fn get_transition_at(&self, from: usize, to: usize, index: usize) -> (t: &TuringTransitionWrapper<T>)
        requires
            self.wf(),
            self@.has_edge(from, to),
            index < self@.transitions_between(from, to).len(),
        ensures
            t.info@ == self@.transitions_between(from, to)[index as int],
            *t == self.stored(from, to)[index as int],
    {
        match self.edge_transitions(from, to) {
            Some(v) => &v[index],
            None => {
                assert(false);
                &self.transition_hasmap[0].transitions[0]
            },
        }
    }

    /// Whether `info` is among `transitions`.
    fn holds_transition(transitions: &Vec<TuringTransitionWrapper<T>>, info: &TransitionsInfo) -> (b: bool)
        ensures
            b == transitions@.map_values(|t: TuringTransitionWrapper<T>| t.info@).contains(info@),
    {
        let ghost infos = transitions@.map_values(|t: TuringTransitionWrapper<T>| t.info@);
        let mut i: usize = 0;
        while i < transitions.len()
            invariant
                0 <= i <= transitions@.len(),
                infos == transitions@.map_values(|t: TuringTransitionWrapper<T>| t.info@),
                forall|j: int| 0 <= j < i ==> #[trigger] infos[j] != info@,
            decreases transitions.len() - i,
        {
            if transitions[i].info.same_as(info) {
                assert(infos[i as int] == info@);
                return true;
            }
            i = i + 1;
        }
        false
    }

    /// Adds a transition (an edge) `from {transition} to` to the graph.
    ///
    /// Fails when the transition does not act on `k + 1` tapes, when a state is unknown, or
    /// when the same transition already links the two states.
    pub fn append_transition<F: IntoGraphIndex, Tr: IntoTransition<T>, To: IntoGraphIndex>(
        &mut self,
        from: F,
        transition: Tr,
        to: To,
    ) -> (res: Result<(), TuringGraphError>)
        requires
            old(self).wf(),
        ensures
            final(self).wf(),
            res is Err ==> *final(self) == *old(self),
            final(self).state_data() == old(self).state_data(),
            ({
                let g = old(self)@;
                let info = transition.info_model();
                if info.tapes() != g.k + 1 {
                    &&& res matches Err(TuringGraphError::IncompatibleTransitionError { expected, received })
                    &&& expected == g.k && received == info.tapes() - 1
                    &&& final(self)@ == g
                } else if g.resolve(from.index_model()) is None {
                    &&& res matches Err(TuringGraphError::UnknownStateIndex { accessed_index })
                    &&& accessed_index@ == from.index_model()
                    &&& final(self)@ == g
                } else if g.resolve(to.index_model()) is None {
                    &&& res matches Err(TuringGraphError::UnknownStateIndex { accessed_index })
                    &&& accessed_index@ == to.index_model()
                    &&& final(self)@ == g
                } else {
                    let f = g.resolve(from.index_model())->Some_0;
                    let t = g.resolve(to.index_model())->Some_0;
                    if g.transitions_between(f, t).contains(info) {
                        &&& res matches Err(
                            TuringGraphError::AlreadyPresentTransitionError { from: ef, to: et, transition: tr },
                        )
                        &&& ef@ == from.index_model() && et@ == to.index_model() && tr@ == info
                        &&& final(self)@ == g
                    } else {
                        &&& res is Ok
                        &&& final(self)@ == g.with_transition(f, t, info)
                        &&& final(self).stored(f, t).drop_last() == old(self).stored(f, t)
                        &&& final(self).stored(f, t).last().info@ == info
                        &&& transition.data_ok(final(self).stored(f, t).last().inner_transition)
                        &&& forall|a: usize, b: usize|
                            !(a == f && b == t) ==> #[trigger] final(self).stored(a, b) == old(self).stored(a, b)
                    }
                }
            }),
    {
        let ghost g = self@;
        let transition = transition.into_transition();
        let received: usize = match &transition.info {
            TransitionsInfo::OneTape(_) => 0,
            TransitionsInfo::MultipleTapes(m) => m.chars_write.len(),
        };
        if received != self.k {
            return Err(TuringGraphError::IncompatibleTransitionError { expected: self.k, received });
        }
        let from = from.into_graph_index();
        let to = to.into_graph_index();
        let state_from = match self.resolve_index(&from) {
            Some(id) => id,
            None => {
                return Err(TuringGraphError::UnknownStateIndex { accessed_index: from });
            },
        };
        let state_to = match self.resolve_index(&to) {
            Some(id) => id,
            None => {
                return Err(TuringGraphError::UnknownStateIndex { accessed_index: to });
            },
        };
        let ghost old_stored = self.stored(state_from, state_to);
        let ghost old_self = *self;
        let ghost tw = transition;
        match self.find_edge(state_from, state_to) {
            Some(pos) => {
                assert(g.edges[pos as int] == self.transition_hasmap@[pos as int]@);
                if Self::holds_transition(&self.transition_hasmap[pos].transitions, &transition.info) {
                    return Err(
                        TuringGraphError::AlreadyPresentTransitionError {
                            from,
                            to,
                            transition: transition.info,
                        },
                    );
                }
                let mut edge = self.transition_hasmap.remove(pos);
                edge.transitions.push(transition);
                assert(edge.transitions@.len() == edge.transitions.len());
                self.transition_hasmap.insert(pos, edge);
                proof {
                    let ne = EdgeModel { infos: g.edges[pos as int].infos.push(transition.info@), ..g.edges[pos as int] };
                    assert(edge@.infos =~= ne.infos);
                    assert(self@.edges =~= g.edges.update(pos as int, ne));
                    assert(self@.states =~= g.states);
                    lemma_with_transition_wf(g, state_from, state_to, transition.info@);
                    assert(self@.edges[pos as int].from == state_from && self@.edges[pos as int].to == state_to);
                    let np = self@.edge_position(state_from, state_to);
                    assert(np == pos) by {
                        if np != pos {
                            assert(self@.edges[np].from == state_from);
                        }
                    }
                    assert(self.transition_hasmap@[pos as int] == edge);
                    assert(self.stored(state_from, state_to) =~= old_stored.push(tw));
                    assert forall|a: usize, b: usize| !(a == state_from && b == state_to) implies #[trigger] self.stored(a, b) == old_self.stored(a, b) by {
                        if g.has_edge(a, b) {
                            let q = g.edge_position(a, b);
                            assert(self@.edges[q].from == a && self@.edges[q].to == b);
                            let nq = self@.edge_position(a, b);
                            assert(nq == q) by {
                                if nq != q {
                                    assert(self@.edges[nq].from == a);
                                }
                            }
                            assert(self.transition_hasmap@[q] == old_self.transition_hasmap@[q]);
                        } else {
                            assert(!self@.has_edge(a, b)) by {
                                if self@.has_edge(a, b) {
                                    let nq = self@.edge_position(a, b);
                                    assert(g.edges[nq].from == a && g.edges[nq].to == b);
                                }
                            }
                        }
                    }
                }
            },
            None => {
                let mut transitions = Vec::new();
                transitions.push(transition);
                let edge = TransitionEdge { from: state_from, to: state_to, transitions };
                self.transition_hasmap.push(edge);
                proof {
                    assert(edge@.infos =~= seq![transition.info@]);
                    assert(self@.edges =~= g.edges.push(EdgeModel { from: state_from, to: state_to, infos: seq![transition.info@] }));
                    assert(self@.states =~= g.states);
                    lemma_with_transition_wf(g, state_from, state_to, transition.info@);
                    let last = self.transition_hasmap@.len() - 1;
                    assert(self@.edges[last].from == state_from && self@.edges[last].to == state_to);
                    let np = self@.edge_position(state_from, state_to);
                    assert(np == last) by {
                        if np != last {
                            assert(self@.edges[np].from == state_from);
                        }
                    }
                    assert(self.transition_hasmap@[last] == edge);
                    assert(self.stored(state_from, state_to) =~= old_stored.push(tw));
                    assert forall|a: usize, b: usize| !(a == state_from && b == state_to) implies #[trigger] self.stored(a, b) == old_self.stored(a, b) by {
                        if g.has_edge(a, b) {
                            let q = g.edge_position(a, b);
                            assert(self@.edges[q].from == a && self@.edges[q].to == b);
                            let nq = self@.edge_position(a, b);
                            assert(nq == q) by {
                                if nq != q {
                                    assert(self@.edges[nq].from == a);
                                }
                            }
                            assert(self.transition_hasmap@[q] == old_self.transition_hasmap@[q]);
                        } else {
                            assert(!self@.has_edge(a, b)) by {
                                if self@.has_edge(a, b) {
                                    let nq = self@.edge_position(a, b);
                                    if nq < g.edges.len() {
                                        assert(g.edges[nq].from == a && g.edges[nq].to == b);
                                    }
                                }
                            }
                        }
                    }
                }
            },
        }
        Ok(())
    }

    /// The transitions between two states, when there are any.
    pub fn get_transitions<F: IntoGraphIndex, To: IntoGraphIndex>(&self, from: F, to: To) -> (res: Result<
        Option<&Vec<TuringTransitionWrapper<T>>>,
        TuringGraphError,
    >)
        requires
            self.wf(),
        ensures
            ({
                let g = self@;
                if g.resolve(from.index_model()) is None {
                    res matches Err(TuringGraphError::UnknownStateIndex { accessed_index })
                        && accessed_index@ == from.index_model()
                } else if g.resolve(to.index_model()) is None {
                    res matches Err(TuringGraphError::UnknownStateIndex { accessed_index })
                        && accessed_index@ == to.index_model()
                } else {
                    let f = g.resolve(from.index_model())->Some_0;
                    let t = g.resolve(to.index_model())->Some_0;
                    &&& res is Ok
                    &&& (res->Ok_0 is Some <==> g.has_edge(f, t))
                    &&& res matches Ok(Some(v)) ==> v@.map_values(
                        |tr: TuringTransitionWrapper<T>| tr.info@,
                    ) == g.transitions_between(f, t) && v@ == self.stored(f, t)
                }
            }),
    {
        let from = from.into_graph_index();
        let to = to.into_graph_index();
        let state_from = match self.resolve_index(&from) {
            Some(id) => id,
            None => {
                return Err(TuringGraphError::UnknownStateIndex { accessed_index: from });
            },
        };
        let state_to = match self.resolve_index(&to) {
            Some(id) => id,
            None => {
                return Err(TuringGraphError::UnknownStateIndex { accessed_index: to });
            },
        };
        Ok(self.edge_transitions(state_from, state_to))
    }

    /// Returns the state (node) that `index` designates, to be changed in place.
    pub fn get_state_mut<I: IntoGraphIndex>(&mut self, index: I) -> (res: Result<
        &mut TuringStateWrapper<S>,
        TuringGraphError,
    >)
        requires
            old(self).wf(),
        ensures
            match old(self)@.resolve(index.index_model()) {
                Some(id) => {
                    &&& res matches Ok(w)
                    &&& w@ == old(self)@.states[id]
                    &&& w.data() == old(self).state_data()[id]
                    &&& final(self)@.states == old(self)@.states.insert(id, final(w)@)
                    &&& final(self).state_data() == old(self).state_data().insert(id, final(w).data())
                    &&& final(self)@.edges == old(self)@.edges
                    &&& forall|a: usize, b: usize| #[trigger] final(self).stored(a, b) == old(self).stored(a, b)
                    &&& final(self)@.next_index == old(self)@.next_index
                    &&& final(self)@.k == old(self)@.k
                },
                None => {
                    &&& res matches Err(TuringGraphError::UnknownStateIndex { accessed_index })
                    &&& accessed_index@ == index.index_model()
                    &&& final(self)@ == old(self)@
                    &&& final(self).state_data() == old(self).state_data()
                },
            },
    {
        let index = index.into_graph_index();
        match self.resolve_index(&index) {
            Some(id) => {
                let ghost old_g = self@;
                match self.state_hashmap.entry(id) {
                    std::collections::hash_map::Entry::Occupied(o) => {
                        let w = o.into_mut();
                        Ok(w)
                    },
                    std::collections::hash_map::Entry::Vacant(_) => {
                        Err(TuringGraphError::UnknownStateIndex { accessed_index: index })
                    },
                }
            },
            None => Err(TuringGraphError::UnknownStateIndex { accessed_index: index }),
        }
    }

    /// Removes all the transitions from `from` to `to`.
    pub fn remove_transitions<F: IntoGraphIndex, To: IntoGraphIndex>(&mut self, from: F, to: To) -> (res:
        Result<(), TuringGraphError>)
        requires
            old(self).wf(),
        ensures
            final(self).wf(),
            res is Err ==> *final(self) == *old(self),
            final(self).state_data() == old(self).state_data(),
            ({
                let g = old(self)@;
                if g.resolve(from.index_model()) is None {
                    &&& res matches Err(TuringGraphError::UnknownStateIndex { accessed_index })
                    &&& accessed_index@ == from.index_model()
                    &&& final(self)@ == g
                } else if g.resolve(to.index_model()) is None {
                    &&& res matches Err(TuringGraphError::UnknownStateIndex { accessed_index })
                    &&& accessed_index@ == to.index_model()
                    &&& final(self)@ == g
                } else {
                    let f = g.resolve(from.index_model())->Some_0;
                    let t = g.resolve(to.index_model())->Some_0;
                    &&& res is Ok
                    &&& final(self)@ == g.without_edge(f, t)
                    &&& final(self).stored(f, t) == Seq::<TuringTransitionWrapper<T>>::empty()
                    &&& forall|a: usize, b: usize|
                        !(a == f && b == t) ==> #[trigger] final(self).stored(a, b) == old(self).stored(a, b)
                }
            }),
    {
        let from = from.into_graph_index();
        let to = to.into_graph_index();
        let state_from = match self.resolve_index(&from) {
            Some(id) => id,
            None => {
                return Err(TuringGraphError::UnknownStateIndex { accessed_index: from });
            },
        };
        let state_to = match self.resolve_index(&to) {
            Some(id) => id,
            None => {
                return Err(TuringGraphError::UnknownStateIndex { accessed_index: to });
            },
        };
        let ghost g = self@;
        let ghost old_self = *self;
        match self.find_edge(state_from, state_to) {
            Some(pos) => {
                self.transition_hasmap.remove(pos);
                proof {
                    assert(self@.edges =~= g.edges.remove(pos as int));
                    assert(self@.states =~= g.states);
                    lemma_without_edge_wf(g, state_from, state_to);
                    assert(!self@.has_edge(state_from, state_to)) by {
                        if self@.has_edge(state_from, state_to) {
                            let nq = self@.edge_position(state_from, state_to);
                            if nq < pos {
                                assert(g.edges[nq].from == state_from && g.edges[nq].to == state_to);
                            } else {
                                assert(g.edges[nq + 1].from == state_from && g.edges[nq + 1].to == state_to);
                            }
                        }
                    }
                    assert forall|a: usize, b: usize| !(a == state_from && b == state_to) implies #[trigger] self.stored(a, b) == old_self.stored(a, b) by {
                        if g.has_edge(a, b) {
                            let q = g.edge_position(a, b);
                            assert(q != pos);
                            let nq = if q < pos { q } else { q - 1 };
                            assert(self@.edges[nq].from == a && self@.edges[nq].to == b);
                            let r = self@.edge_position(a, b);
                            assert(r == nq) by {
                                if r != nq {
                                    assert(self@.edges[r].from == a);
                                }
                            }
                            assert(self.transition_hasmap@[nq] == old_self.transition_hasmap@[q]);
                        } else {
                            assert(!self@.has_edge(a, b)) by {
                                if self@.has_edge(a, b) {
                                    let r = self@.edge_position(a, b);
                                    if r < pos {
                                        assert(g.edges[r].from == a && g.edges[r].to == b);
                                    } else {
                                        assert(g.edges[r + 1].from == a && g.edges[r + 1].to == b);
                                    }
                                }
                            }
                        }
                    }
                }
            },
            None => {},
        }
        Ok(())
    }

    /// Removes, from the transitions from `from` to `to`, the one with the same information
    /// as `transition` (only the information is compared).
    pub fn remove_transition<F: IntoGraphIndex, To: IntoGraphIndex>(
        &mut self,
        from: F,
        transition: &TuringTransitionWrapper<T>,
        to: To,
    ) -> (res: Result<(), TuringGraphError>)
        requires
            old(self).wf(),
        ensures
            final(self).wf(),
            res is Err ==> *final(self) == *old(self),
            final(self).state_data() == old(self).state_data(),
            ({
                let g = old(self)@;
                if g.resolve(from.index_model()) is None {
                    &&& res matches Err(TuringGraphError::UnknownStateIndex { accessed_index })
                    &&& accessed_index@ == from.index_model()
                    &&& final(self)@ == g
                } else if g.resolve(to.index_model()) is None {
                    &&& res matches Err(TuringGraphError::UnknownStateIndex { accessed_index })
                    &&& accessed_index@ == to.index_model()
                    &&& final(self)@ == g
                } else {
                    let f = g.resolve(from.index_model())->Some_0;
                    let t = g.resolve(to.index_model())->Some_0;
                    &&& res is Ok
                    &&& final(self)@ == g.without_transition(f, t, transition.info@)
                    &&& final(self).stored(f, t) == remove_stored(old(self).stored(f, t), transition.info@)
                    &&& forall|a: usize, b: usize|
                        !(a == f && b == t) ==> #[trigger] final(self).stored(a, b) == old(self).stored(a, b)
                }
            }),
    {
        let from = from.into_graph_index();
        let to = to.into_graph_index();
        let state_from = match self.resolve_index(&from) {
            Some(id) => id,
            None => {
                return Err(TuringGraphError::UnknownStateIndex { accessed_index: from });
            },
        };
        let state_to = match self.resolve_index(&to) {
            Some(id) => id,
            None => {
                return Err(TuringGraphError::UnknownStateIndex { accessed_index: to });
            },
        };
        let ghost g = self@;
        let ghost old_self = *self;
        match self.find_edge(state_from, state_to) {
            Some(pos) => {
                let edge = self.transition_hasmap.remove(pos);
                let ghost infos = edge@.infos;
                assert(infos == g.edges[pos as int].infos);
                let TransitionEdge { from: ef, to: et, transitions: mut rest } = edge;
                let ghost orig = rest@;
                let mut kept: Vec<TuringTransitionWrapper<T>> = Vec::new();
                let mut i: usize = 0;
                let n = rest.len();
                while rest.len() > 0
                    invariant
                        i + rest@.len() == n,
                        n == orig.len(),
                        rest@ == orig.skip(i as int),
                        infos == orig.map_values(|t: TuringTransitionWrapper<T>| t.info@),
                        kept@.map_values(|t: TuringTransitionWrapper<T>| t.info@) == remove_info(
                            infos.take(i as int),
                            transition.info@,
                        ),
                        kept@ == remove_stored(orig.take(i as int), transition.info@),
                    decreases rest.len(),
                {
                    let t = rest.remove(0);
                    let same = t.info.same_as(&transition.info);
                    proof {
                        assert(t == orig[i as int]);
                        assert(infos.take(i + 1).drop_last() =~= infos.take(i as int));
                        assert(infos.take(i + 1).last() == t.info@);
                        assert(orig.take(i + 1).drop_last() =~= orig.take(i as int));
                        assert(orig.take(i + 1).last() == t);
                    }
                    if !same {
                        let ghost before = kept@;
                        kept.push(t);
                        assert(kept@.map_values(|t: TuringTransitionWrapper<T>| t.info@) =~= before.map_values(
                            |t: TuringTransitionWrapper<T>| t.info@,
                        ).push(t.info@));
                    }
                    i = i + 1;
                    assert(rest@ =~= orig.skip(i as int));
                }
                assert(infos.take(i as int) =~= infos);
                assert(orig.take(i as int) =~= orig);
                assert(old_self.transition_hasmap@[pos as int].transitions@ == orig);
                assert(old_self.stored(state_from, state_to) == orig);
                if kept.len() > 0 {
                    assert(kept@.len() == kept.len());
                    let new_edge = TransitionEdge { from: ef, to: et, transitions: kept };
                    self.transition_hasmap.insert(pos, new_edge);
                    proof {
                        let ne = EdgeModel { infos: remove_info(infos, transition.info@), ..g.edges[pos as int] };
                        assert(new_edge@ == ne);
                        assert(self@.edges =~= g.edges.update(pos as int, ne));
                        assert(self@.states =~= g.states);
                        lemma_without_transition_wf(g, state_from, state_to, transition.info@);
                        assert(self@.edges[pos as int].from == state_from && self@.edges[pos as int].to == state_to);
                        let np = self@.edge_position(state_from, state_to);
                        assert(np == pos) by {
                            if np != pos {
                                assert(self@.edges[np].from == state_from);
                            }
                        }
                        assert(self.transition_hasmap@[pos as int] == new_edge);
                        assert forall|a: usize, b: usize| !(a == state_from && b == state_to) implies #[trigger] self.stored(a, b) == old_self.stored(a, b) by {
                            if g.has_edge(a, b) {
                                let q = g.edge_position(a, b);
                                assert(self@.edges[q].from == a && self@.edges[q].to == b);
                                let nq = self@.edge_position(a, b);
                                assert(nq == q) by {
                                    if nq != q {
                                        assert(self@.edges[nq].from == a);
                                    }
                                }
                                assert(self.transition_hasmap@[q] == old_self.transition_hasmap@[q]);
                            } else {
                                assert(!self@.has_edge(a, b)) by {
                                    if self@.has_edge(a, b) {
                                        let nq = self@.edge_position(a, b);
                                        assert(g.edges[nq].from == a && g.edges[nq].to == b);
                                    }
                                }
                            }
                        }
                    }
                } else {
                    proof {
                        assert(self@.edges =~= g.edges.remove(pos as int));
                        assert(self@.states =~= g.states);
                        lemma_without_transition_wf(g, state_from, state_to, transition.info@);
                        assert(!self@.has_edge(state_from, state_to)) by {
                            if self@.has_edge(state_from, state_to) {
                                let nq = self@.edge_position(state_from, state_to);
                                if nq < pos {
                                    assert(g.edges[nq].from == state_from && g.edges[nq].to == state_to);
                                } else {
                                    assert(g.edges[nq + 1].from == state_from && g.edges[nq + 1].to == state_to);
                                }
                            }
                        }
                        assert forall|a: usize, b: usize| !(a == state_from && b == state_to) implies #[trigger] self.stored(a, b) == old_self.stored(a, b) by {
                            if g.has_edge(a, b) {
                                let q = g.edge_position(a, b);
                                assert(q != pos);
                                let nq = if q < pos { q } else { q - 1 };
                                assert(self@.edges[nq].from == a && self@.edges[nq].to == b);
                                let r = self@.edge_position(a, b);
                                assert(r == nq) by {
                                    if r != nq {
                                        assert(self@.edges[r].from == a);
                                    }
                                }
                                assert(self.transition_hasmap@[nq] == old_self.transition_hasmap@[q]);
                            } else {
                                assert(!self@.has_edge(a, b)) by {
                                    if self@.has_edge(a, b) {
                                        let r = self@.edge_position(a, b);
                                        if r < pos {
                                            assert(g.edges[r].from == a && g.edges[r].to == b);
                                        } else {
                                            assert(g.edges[r + 1].from == a && g.edges[r + 1].to == b);
                                        }
                                    }
                                }
                            }
                        }
                    }
                }
            },
            None => {},
        }
        Ok(())
    }

    /// Removes a state and every transition that leaves it or reaches it.
    /// The initial state (id 0) cannot be removed.
    pub fn remove_state<I: IntoGraphIndex>(&mut self, index: I) -> (res: Result<(), TuringGraphError>)
        requires
            old(self).wf(),
        ensures
            final(self).wf(),
            res is Err ==> *final(self) == *old(self),
            res is Ok ==> final(self).state_data() == old(self).state_data().remove(
                old(self)@.resolve(index.index_model())->Some_0,
            ),
            res is Err ==> final(self).state_data() == old(self).state_data(),
            ({
                let g = old(self)@;
                match g.resolve(index.index_model()) {
                    None => {
                        &&& res matches Err(TuringGraphError::UnknownStateIndex { accessed_index })
                        &&& accessed_index@ == index.index_model()
                        &&& final(self)@ == g
                    },
                    Some(id) => if id == 0 {
                        &&& res matches Err(TuringGraphError::ImmutableStateError { state })
                        &&& state@ == g.states[0]
                        &&& final(self)@ == g
                    } else {
                        &&& res is Ok
                        &&& final(self)@ == g.without_state(id)
                        &&& forall|a: usize, b: usize|
                            a != id && b != id ==> #[trigger] final(self).stored(a, b) == old(self).stored(a, b)
                    },
                }
            }),
    {
        let index = index.into_graph_index();
        let state_id = match self.resolve_index(&index) {
            Some(id) => id,
            None => {
                return Err(TuringGraphError::UnknownStateIndex { accessed_index: index });
            },
        };
        let ghost g = self@;
        if state_id == 0 {
            let info = match self.state_hashmap.get(&0) {
                Some(w) => w.info.duplicate(),
                None => {
                    assert(false);
                    return Ok(());
                },
            };
            return Err(TuringGraphError::ImmutableStateError { state: info });
        }
        let ghost old_self = *self;
        let mut rest: Vec<TransitionEdge<T>> = Vec::new();
        std::mem::swap(&mut rest, &mut self.transition_hasmap);
        let ghost orig = rest@;
        let ghost hm = self.state_hashmap@;
        let n = rest.len();
        let mut i: usize = 0;
        while rest.len() > 0
            invariant
                self.state_hashmap@ == hm,
                self.next_state_index == g.next_index,
                self.k == g.k,
                i + rest@.len() == n,
                n == orig.len(),
                rest@ == orig.skip(i as int),
                g.edges == orig.map_values(|e: TransitionEdge<T>| e@),
                self.transition_hasmap@.map_values(|e: TransitionEdge<T>| e@) == edges_avoiding(
                    g.edges.take(i as int),
                    state_id,
                ),
                self.transition_hasmap@ == edges_kept(orig.take(i as int), state_id),
            decreases rest.len(),
        {
            let e = rest.remove(0);
            proof {
                assert(e == orig[i as int]);
                assert(g.edges.take(i + 1).drop_last() =~= g.edges.take(i as int));
                assert(g.edges.take(i + 1).last() == e@);
                assert(orig.take(i + 1).drop_last() =~= orig.take(i as int));
                assert(orig.take(i + 1).last() == e);
            }
            if e.from != state_id && e.to != state_id {
                let ghost before = self.transition_hasmap@;
                self.transition_hasmap.push(e);
                assert(self.transition_hasmap@.map_values(|e: TransitionEdge<T>| e@) =~= before.map_values(
                    |e: TransitionEdge<T>| e@,
                ).push(e@));
            }
            i = i + 1;
            assert(rest@ =~= orig.skip(i as int));
        }
        assert(g.edges.take(i as int) =~= g.edges);
        assert(orig.take(i as int) =~= orig);
        self.state_hashmap.remove(&state_id);
        proof {
            assert(self@.edges =~= edges_avoiding(g.edges, state_id));
            assert(self@.states =~= g.states.remove(state_id));
            lemma_without_state_wf(g, state_id);
            lemma_edges_kept(orig, state_id);
            let kept = self.transition_hasmap@;
            assert forall|a: usize, b: usize| a != state_id && b != state_id implies #[trigger] self.stored(a, b)
                == old_self.stored(a, b) by {
                if g.has_edge(a, b) {
                    let q = g.edge_position(a, b);
                    assert(orig[q]@ == g.edges[q]);
                    let r = choose|r: int| 0 <= r < kept.len() && kept[r] == orig[q];
                    assert(self@.edges[r] == kept[r]@);
                    assert(self@.edges[r].from == a && self@.edges[r].to == b);
                    let nr = self@.edge_position(a, b);
                    assert(nr == r) by {
                        if nr != r {
                            assert(self@.edges[nr].from == a);
                        }
                    }
                } else {
                    assert(!self@.has_edge(a, b)) by {
                        if self@.has_edge(a, b) {
                            let r = self@.edge_position(a, b);
                            assert(self@.edges[r] == kept[r]@);
                            let q = choose|q: int| 0 <= q < orig.len() && orig[q] == #[trigger] kept[r];
                            assert(g.edges[q] == orig[q]@);
                            assert(g.edges[q].from == a && g.edges[q].to == b);
                        }
                    }
                }
            }
        }
        Ok(())
    }

    /// Gives the state that `index` designates the name `new_name`.
    ///
    /// Fails when a state (the same one included) already has that name, or when no state
    /// answers to `index`.
    pub fn rename_state<I: IntoGraphIndex, N: StateName>(&mut self, index: I, new_name: N) -> (res: Result<
        (),
        TuringGraphError,
    >)
        requires
            old(self).wf(),
        ensures
            final(self).wf(),
            forall|a: usize, b: usize| #[trigger] final(self).stored(a, b) == old(self).stored(a, b),
            res is Err ==> *final(self) == *old(self),
            final(self).state_data() == old(self).state_data(),
            ({
                let g = old(self)@;
                let name = new_name.name_model();
                if g.has_name(name) {
                    &&& res matches Err(TuringGraphError::AlreadyPresentNameError { name: n, state })
                    &&& n@ == name
                    &&& state@ == g.states[g.id_of_name(name)->Some_0]
                    &&& final(self)@ == g
                } else {
                    match g.resolve(index.index_model()) {
                        None => {
                            &&& res matches Err(TuringGraphError::UnknownStateIndex { accessed_index })
                            &&& accessed_index@ == index.index_model()
                            &&& final(self)@ == g
                        },
                        Some(id) => {
                            &&& res is Ok
                            &&& final(self)@ == g.renamed(id, name)
                        },
                    }
                }
            }),
    {
        let index = index.into_graph_index();
        let new_name = new_name.into_name();
        match self.get_state_index(&new_name) {
            Some(other) => {
                let info = match self.state_hashmap.get(&other) {
                    Some(w) => w.info.duplicate(),
                    None => {
                        assert(false);
                        return Ok(());
                    },
                };
                return Err(TuringGraphError::AlreadyPresentNameError { name: new_name, state: info });
            },
            None => {},
        }
        let id = match self.resolve_index(&index) {
            Some(id) => id,
            None => {
                return Err(TuringGraphError::UnknownStateIndex { accessed_index: index });
            },
        };
        let ghost g = self@;
        match self.state_hashmap.remove(&id) {
            Some(mut w) => {
                w.info.name = new_name;
                let ghost nw = w@;
                self.state_hashmap.insert(id, w);
                proof {
                    assert(self@.states =~= g.states.insert(id, nw));
                    assert(self@.edges =~= g.edges);
                    lemma_renamed_wf(g, id, nw.name);
                }
            },
            None => {
                assert(false);
            },
        }
        Ok(())
    }

    /// The states of the graph, by increasing id.
    pub fn get_states(&self) -> (v: Vec<&TuringStateWrapper<S>>)
        requires
            self.wf(),
        ensures
            forall|i: int, j: int| 0 <= i < j < v@.len() ==> v@[i]@.id < v@[j]@.id,
            forall|i: int| 0 <= i < v@.len() ==> self@.states.contains_key(#[trigger] v@[i]@.id)
                && self@.states[v@[i]@.id] == v@[i]@ && v@[i].data() == self.state_data()[v@[i]@.id],
            forall|id: usize| #[trigger] self@.states.contains_key(id) ==> exists|i: int|
                0 <= i < v@.len() && v@[i]@.id == id,
    {
        let mut v: Vec<&TuringStateWrapper<S>> = Vec::new();
        let mut id: usize = 0;
        while id < self.next_state_index
            invariant
                self.wf(),
                0 <= id <= self.next_state_index,
                forall|i: int, j: int| 0 <= i < j < v@.len() ==> v@[i]@.id < v@[j]@.id,
                forall|i: int| 0 <= i < v@.len() ==> v@[i]@.id < id,
                forall|i: int| 0 <= i < v@.len() ==> self@.states.contains_key(#[trigger] v@[i]@.id)
                    && self@.states[v@[i]@.id] == v@[i]@ && v@[i].data() == self.state_data()[v@[i]@.id],
                forall|j: usize| j < id && #[trigger] self@.states.contains_key(j) ==> exists|i: int|
                    0 <= i < v@.len() && v@[i]@.id == j,
            decreases self.next_state_index - id,
        {
            match self.state_hashmap.get(&id) {
                Some(w) => {
                    assert(self@.states.contains_key(id));
                    let ghost before = v@;
                    v.push(w);
                    assert(v@[v@.len() - 1]@.id == id);
                    assert forall|j: usize| j < id + 1 && #[trigger] self@.states.contains_key(j) implies exists|i: int|
                        0 <= i < v@.len() && v@[i]@.id == j by {
                        if j < id {
                            let i = choose|i: int| 0 <= i < before.len() && before[i]@.id == j;
                            assert(v@[i] == before[i]);
                        } else {
                            assert(v@[v@.len() - 1]@.id == j);
                        }
                    }
                },
                None => {},
            }
            id = id + 1;
        }
        v
    }

    /// The states of the graph, by id.
    pub fn get_state_hashmap(&self) -> (m: &HashMap<usize, TuringStateWrapper<S>>)
        ensures
            forall|id: usize| #[trigger] m@.contains_key(id) <==> self@.states.contains_key(id),
            forall|id: usize| #[trigger] m@.contains_key(id) ==> m@[id]@ == self@.states[id]
                && m@[id].data() == self.state_data()[id],
    {
        &self.state_hashmap
    }

    /// The transitions that leave the state `from` and apply when the tapes read `chars`,
    /// as pairs of the target state and the position of the transition among those between
    /// the two states; in the order of the edges, then of the transitions.
    pub fn get_valid_transitions_indexes(&self, from: usize, chars: &Vec<char>) -> (v: Vec<(usize, usize)>)
        requires
            self.wf(),
        ensures
            v@ == moves(self@.edges, from, chars@),
            forall|to: usize, j: int|
                self@.has_edge(from, to) && 0 <= j < self@.transitions_between(from, to).len()
                    && #[trigger] self@.transitions_between(from, to)[j].accepts(chars@) ==> v@.contains(
                    (to, j as usize),
                ),
    {
        let mut v: Vec<(usize, usize)> = Vec::new();
        let mut i: usize = 0;
        while i < self.transition_hasmap.len()
            invariant
                0 <= i <= self.transition_hasmap@.len(),
                self@.edges.len() == self.transition_hasmap@.len(),
                v@ == moves(self@.edges.take(i as int), from, chars@),
            decreases self.transition_hasmap.len() - i,
        {
            let e = &self.transition_hasmap[i];
            assert(self@.edges[i as int] == e@);
            assert(self@.edges.take(i + 1).drop_last() =~= self@.edges.take(i as int));
            assert(self@.edges.take(i + 1).last() == e@);
            if e.from == from {
                let mut j: usize = 0;
                while j < e.transitions.len()
                    invariant
                        0 <= j <= e.transitions@.len(),
                        e@.infos == e.transitions@.map_values(|t: TuringTransitionWrapper<T>| t.info@),
                        v@ == moves(self@.edges.take(i as int), from, chars@) + edge_moves(e@, chars@, j as nat),
                    decreases e.transitions.len() - j,
                {
                    assert(e@.infos[j as int] == e.transitions@[j as int].info@);
                    if e.transitions[j].info.is_valid(chars.as_slice()) {
                        v.push((e.to, j));
                    }
                    j = j + 1;
                    assert(v@ =~= moves(self@.edges.take(i as int), from, chars@) + edge_moves(e@, chars@, j as nat));
                }
                assert(v@ =~= moves(self@.edges.take(i + 1), from, chars@));
            } else {
                assert(v@ =~= moves(self@.edges.take(i + 1), from, chars@));
            }
            i = i + 1;
        }
        assert(self@.edges.take(i as int) =~= self@.edges);
        proof {
            lemma_moves_complete(self@, from, chars@);
        }
        v
    }

    /// The transitions that leave the state `index` designates and apply when the tapes read
    /// `chars_read`, each with the id of the state it reaches.
    pub fn get_valid_transitions<I: IntoGraphIndex>(&self, index: I, chars_read: Vec<char>) -> (res: Result<
        Vec<(&TuringTransitionWrapper<T>, usize)>,
        TuringGraphError,
    >)
        requires
            self.wf(),
        ensures
            match self@.resolve(index.index_model()) {
                None => res matches Err(TuringGraphError::UnknownStateIndex { accessed_index })
                    && accessed_index@ == index.index_model(),
                Some(id) => res matches Ok(v) && {
                    let ms = moves(self@.edges, id, chars_read@);
                    &&& v@.len() == ms.len()
                    &&& forall|k: int|
                        0 <= k < ms.len() ==> #[trigger] v@[k].1 == ms[k].0 && v@[k].0.info@
                            == self@.transitions_between(id, ms[k].0)[ms[k].1 as int]
                            && *v@[k].0 == self.stored(id, ms[k].0)[ms[k].1 as int]
                },
            },
    {
        let index = index.into_graph_index();
        let id = match self.resolve_index(&index) {
            Some(id) => id,
            None => {
                return Err(TuringGraphError::UnknownStateIndex { accessed_index: index });
            },
        };
        let ms = self.get_valid_transitions_indexes(id, &chars_read);
        proof {
            lemma_moves_sound(self@, id, chars_read@);
        }
        let mut v: Vec<(&TuringTransitionWrapper<T>, usize)> = Vec::new();
        let mut k: usize = 0;
        while k < ms.len()
            invariant
                self.wf(),
                0 <= k <= ms@.len(),
                ms@ == moves(self@.edges, id, chars_read@),
                forall|m: int| 0 <= m < ms@.len() ==> {
                    &&& self@.has_edge(id, (#[trigger] ms@[m]).0)
                    &&& ms@[m].1 < self@.transitions_between(id, ms@[m].0).len()
                },
                v@.len() == k,
                forall|m: int|
                    0 <= m < k ==> #[trigger] v@[m].1 == ms@[m].0 && v@[m].0.info@
                        == self@.transitions_between(id, ms@[m].0)[ms@[m].1 as int]
                        && *v@[m].0 == self.stored(id, ms@[m].0)[ms@[m].1 as int],
            decreases ms.len() - k,
        {
            let (to, j) = ms[k];
            assert(ms@[k as int] == (to, j));
            let t = self.get_transition_at(id, to, j);
            v.push((t, to));
            k = k + 1;
        }
        Ok(v)
    }

    /// The transitions of the graph, grouped by pair of states, in the order the pairs were
    /// first linked.
    pub fn get_edges(&self) -> (v: &Vec<TransitionEdge<T>>)
        ensures
            v@.map_values(|e: TransitionEdge<T>| e@) == self@.edges,
    {
        &self.transition_hasmap
    }

    /// The number of writing tapes of the graph.
    pub fn get_k(&self) -> (k: usize)
        ensures
            k == self@.k,
    {
        self.k
    }
}


impl GraphModel {
    /// The graph once `info` has been added to the transitions from `from` to `to`.
    pub open spec fn with_transition(self, from: usize, to: usize, info: InfoModel) -> GraphModel {
        if self.has_edge(from, to) {
            let p = self.edge_position(from, to);
            GraphModel {
                edges: self.edges.update(p, EdgeModel { infos: self.edges[p].infos.push(info), ..self.edges[p] }),
                ..self
            }
        } else {
            GraphModel {
                edges: self.edges.push(EdgeModel { from, to, infos: seq![info] }),
                ..self
            }
        }
    }
}

/// Adding a transition that acts on `k + 1` tapes, between two states, and that was not
/// already there, keeps a graph valid.
proof fn lemma_with_transition_wf(g: GraphModel, from: usize, to: usize, info: InfoModel)
    requires
        g.wf(),
        g.states.contains_key(from),
        g.states.contains_key(to),
        info is MultipleTapes,
        info.tapes() == g.k + 1,
        !g.transitions_between(from, to).contains(info),
        g.transitions_between(from, to).len() < usize::MAX,
    ensures
        g.with_transition(from, to, info).wf(),
{
    let h = g.with_transition(from, to, info);
    if g.has_edge(from, to) {
        let p = g.edge_position(from, to);
        let e = g.edges[p];
        let ne = EdgeModel { infos: e.infos.push(info), ..e };
        assert(g.edge_wf(e));
        assert forall|a: int, b: int|
            #![trigger ne.infos[a], ne.infos[b]]
            0 <= a < b < ne.infos.len() implies ne.infos[a] != ne.infos[b] by {
            if b == e.infos.len() {
                assert(e.infos.contains(e.infos[a]));
            }
        }
        assert(h.edge_wf(ne));
        assert forall|i: int| 0 <= i < h.edges.len() implies h.edge_wf(#[trigger] h.edges[i]) by {
            if i != p {
                assert(g.edge_wf(g.edges[i]));
            }
        }
        assert forall|i: int, j: int|
            #![trigger h.edges[i], h.edges[j]]
            0 <= i < j < h.edges.len() implies !(h.edges[i].from == h.edges[j].from
                && h.edges[i].to == h.edges[j].to) by {
            assert(!(g.edges[i].from == g.edges[j].from && g.edges[i].to == g.edges[j].to));
        }
    } else {
        let ne = EdgeModel { from, to, infos: seq![info] };
        assert(h.edge_wf(ne));
        assert forall|i: int| 0 <= i < h.edges.len() implies h.edge_wf(#[trigger] h.edges[i]) by {
            if i < g.edges.len() {
                assert(g.edge_wf(g.edges[i]));
            }
        }
        assert forall|i: int, j: int|
            #![trigger h.edges[i], h.edges[j]]
            0 <= i < j < h.edges.len() implies !(h.edges[i].from == h.edges[j].from
                && h.edges[i].to == h.edges[j].to) by {
            if j == g.edges.len() {
                if h.edges[i].from == from && h.edges[i].to == to {
                    assert(g.edges[i].from == from && g.edges[i].to == to);
                }
            } else {
                assert(!(g.edges[i].from == g.edges[j].from && g.edges[i].to == g.edges[j].to));
            }
        }
    }
}


/// `infos` without the occurrences of `info`, in the same order.
pub open spec fn remove_info(infos: Seq<InfoModel>, info: InfoModel) -> Seq<InfoModel>
    decreases infos.len(),
{
    if infos.len() == 0 {
        Seq::empty()
    } else {
        let rest = remove_info(infos.drop_last(), info);
        if infos.last() == info {
            rest
        } else {
            rest.push(infos.last())
        }
    }
}

/// The stored transitions `ws` without those whose information is `info`, in the same order.
pub open spec fn remove_stored<T: TuringTransition>(
    ws: Seq<TuringTransitionWrapper<T>>,
    info: InfoModel,
) -> Seq<TuringTransitionWrapper<T>>
    decreases ws.len(),
{
    if ws.len() == 0 {
        Seq::empty()
    } else {
        let rest = remove_stored(ws.drop_last(), info);
        if ws.last().info@ == info {
            rest
        } else {
            rest.push(ws.last())
        }
    }
}

/// The stored edges that neither leave nor reach the state `id`, in the same order.
spec fn edges_kept<T: TuringTransition>(es: Seq<TransitionEdge<T>>, id: usize) -> Seq<TransitionEdge<T>>
    decreases es.len(),
{
    if es.len() == 0 {
        Seq::empty()
    } else {
        let rest = edges_kept(es.drop_last(), id);
        if es.last().from != id && es.last().to != id {
            rest.push(es.last())
        } else {
            rest
        }
    }
}

/// An edge kept is one of the edges, and each edge that avoids `id` is kept.
proof fn lemma_edges_kept<T: TuringTransition>(es: Seq<TransitionEdge<T>>, id: usize)
    ensures
        forall|r: int| 0 <= r < edges_kept(es, id).len() ==> exists|q: int|
            0 <= q < es.len() && es[q] == #[trigger] edges_kept(es, id)[r],
        forall|q: int| 0 <= q < es.len() && (#[trigger] es[q]).from != id && es[q].to != id ==> exists|r: int|
            0 <= r < edges_kept(es, id).len() && edges_kept(es, id)[r] == es[q],
    decreases es.len(),
{
    if es.len() > 0 {
        let init = es.drop_last();
        lemma_edges_kept(init, id);
        let k = edges_kept(es, id);
        let ki = edges_kept(init, id);
        assert forall|r: int| 0 <= r < k.len() implies exists|q: int| 0 <= q < es.len() && es[q] == #[trigger] k[r] by {
            if r < ki.len() {
                assert(k[r] == ki[r]);
                let q = choose|q: int| 0 <= q < init.len() && init[q] == #[trigger] ki[r];
                assert(es[q] == init[q]);
            } else {
                assert(k[r] == es.last());
                assert(es[es.len() - 1] == es.last());
            }
        }
        assert forall|q: int| 0 <= q < es.len() && (#[trigger] es[q]).from != id && es[q].to != id implies exists|r: int|
            0 <= r < k.len() && k[r] == es[q] by {
            if q < init.len() {
                assert(init[q] == es[q]);
                let r = choose|r: int| 0 <= r < ki.len() && ki[r] == init[q];
                assert(k[r] == ki[r]);
            } else {
                assert(k[k.len() - 1] == es[q]);
            }
        }
    }
}

/// The edges that neither leave nor reach the state `id`, in the same order.
pub open spec fn edges_avoiding(edges: Seq<EdgeModel>, id: usize) -> Seq<EdgeModel>
    decreases edges.len(),
{
    if edges.len() == 0 {
        Seq::empty()
    } else {
        let rest = edges_avoiding(edges.drop_last(), id);
        if edges.last().from != id && edges.last().to != id {
            rest.push(edges.last())
        } else {
            rest
        }
    }
}

impl GraphModel {
    /// The graph without the transitions from `from` to `to`.
    pub open spec fn without_edge(self, from: usize, to: usize) -> GraphModel {
        if self.has_edge(from, to) {
            GraphModel { edges: self.edges.remove(self.edge_position(from, to)), ..self }
        } else {
            self
        }
    }

    /// The graph without the transition `info` from `from` to `to`; the pair loses its list of
    /// transitions when none is left.
    pub open spec fn without_transition(self, from: usize, to: usize, info: InfoModel) -> GraphModel {
        if self.has_edge(from, to) {
            let p = self.edge_position(from, to);
            let rest = remove_info(self.edges[p].infos, info);
            if rest.len() == 0 {
                GraphModel { edges: self.edges.remove(p), ..self }
            } else {
                GraphModel { edges: self.edges.update(p, EdgeModel { infos: rest, ..self.edges[p] }), ..self }
            }
        } else {
            self
        }
    }

    /// The graph without the state `id` and the transitions that leave it or reach it.
    pub open spec fn without_state(self, id: usize) -> GraphModel {
        GraphModel { states: self.states.remove(id), edges: edges_avoiding(self.edges, id), ..self }
    }

    /// The graph where the state `id` is named `name`.
    pub open spec fn renamed(self, id: usize, name: Seq<char>) -> GraphModel {
        GraphModel { states: self.states.insert(id, StateModel { name, ..self.states[id] }), ..self }
    }
}

proof fn lemma_remove_info(infos: Seq<InfoModel>, info: InfoModel)
    ensures
        forall|x: InfoModel| #[trigger] remove_info(infos, info).contains(x) ==> infos.contains(x) && x != info,
        remove_info(infos, info).len() <= infos.len(),
        (forall|a: int, b: int| #![trigger infos[a], infos[b]] 0 <= a < b < infos.len() ==> infos[a] != infos[b])
            ==> (forall|a: int, b: int|
            #![trigger remove_info(infos, info)[a], remove_info(infos, info)[b]]
            0 <= a < b < remove_info(infos, info).len() ==> remove_info(infos, info)[a] != remove_info(
                infos,
                info,
            )[b]),
    decreases infos.len(),
{
    if infos.len() > 0 {
        let init = infos.drop_last();
        lemma_remove_info(init, info);
        let rest = remove_info(init, info);
        assert forall|x: InfoModel| remove_info(infos, info).contains(x) implies infos.contains(x) && x != info by {
            if rest.contains(x) {
                assert(init.contains(x));
                let i = choose|i: int| 0 <= i < init.len() && init[i] == x;
                assert(infos[i] == x);
            } else {
                assert(x == infos.last());
            }
        }
        if forall|a: int, b: int| #![trigger infos[a], infos[b]] 0 <= a < b < infos.len() ==> infos[a] != infos[b] {
            assert forall|a: int, b: int| #![trigger init[a], init[b]] 0 <= a < b < init.len() implies init[a] != init[b] by {
                assert(infos[a] != infos[b]);
            }
            let r = remove_info(infos, info);
            if infos.last() != info {
                assert forall|a: int, b: int| #![trigger r[a], r[b]] 0 <= a < b < r.len() implies r[a] != r[b] by {
                    if b == rest.len() {
                        assert(rest[a] == r[a]);
                        assert(rest.contains(r[a]));
                        if r[a] == infos.last() {
                            assert(init.contains(r[a]));
                            let i = choose|i: int| 0 <= i < init.len() && init[i] == r[a];
                            assert(infos[i] != infos[infos.len() - 1]);
                        }
                    }
                }
            }
        }
    }
}

proof fn lemma_edges_avoiding(edges: Seq<EdgeModel>, id: usize)
    ensures
        forall|i: int| #![trigger edges_avoiding(edges, id)[i]] 0 <= i < edges_avoiding(edges, id).len() ==> {
            &&& edges_avoiding(edges, id)[i].from != id
            &&& edges_avoiding(edges, id)[i].to != id
            &&& edges.contains(edges_avoiding(edges, id)[i])
        },
        (forall|i: int, j: int|
            #![trigger edges[i], edges[j]]
            0 <= i < j < edges.len() ==> !(edges[i].from == edges[j].from && edges[i].to == edges[j].to))
            ==> (forall|i: int, j: int|
            #![trigger edges_avoiding(edges, id)[i], edges_avoiding(edges, id)[j]]
            0 <= i < j < edges_avoiding(edges, id).len() ==> !(edges_avoiding(edges, id)[i].from
                == edges_avoiding(edges, id)[j].from && edges_avoiding(edges, id)[i].to == edges_avoiding(
                edges,
                id,
            )[j].to)),
    decreases edges.len(),
{
    if edges.len() > 0 {
        let init = edges.drop_last();
        lemma_edges_avoiding(init, id);
        let rest = edges_avoiding(init, id);
        let r = edges_avoiding(edges, id);
        assert forall|i: int| #![trigger r[i]] 0 <= i < r.len() implies {
            &&& r[i].from != id
            &&& r[i].to != id
            &&& edges.contains(r[i])
        } by {
            if i < rest.len() {
                assert(r[i] == rest[i]);
                assert(init.contains(rest[i]));
                let k = choose|k: int| 0 <= k < init.len() && init[k] == rest[i];
                assert(edges[k] == r[i]);
            } else {
                assert(r[i] == edges[edges.len() - 1]);
            }
        }
        if forall|i: int, j: int|
            #![trigger edges[i], edges[j]]
            0 <= i < j < edges.len() ==> !(edges[i].from == edges[j].from && edges[i].to == edges[j].to) {
            assert forall|i: int, j: int| #![trigger init[i], init[j]] 0 <= i < j < init.len() implies !(init[i].from
                == init[j].from && init[i].to == init[j].to) by {
                assert(!(edges[i].from == edges[j].from && edges[i].to == edges[j].to));
            }
            assert forall|i: int, j: int| #![trigger r[i], r[j]] 0 <= i < j < r.len() implies !(r[i].from
                == r[j].from && r[i].to == r[j].to) by {
                if j == rest.len() && r.len() > rest.len() {
                    assert(r[i] == rest[i]);
                    assert(init.contains(rest[i]));
                    let k = choose|k: int| 0 <= k < init.len() && init[k] == rest[i];
                    assert(!(edges[k].from == edges[edges.len() - 1].from && edges[k].to == edges[edges.len() - 1].to));
                }
            }
        }
    }
}

proof fn lemma_without_edge_wf(g: GraphModel, from: usize, to: usize)
    requires
        g.wf(),
    ensures
        g.without_edge(from, to).wf(),
{
    let h = g.without_edge(from, to);
    if g.has_edge(from, to) {
        let p = g.edge_position(from, to);
        assert forall|i: int| 0 <= i < h.edges.len() implies h.edge_wf(#[trigger] h.edges[i]) by {
            if i < p {
                assert(g.edge_wf(g.edges[i]));
            } else {
                assert(g.edge_wf(g.edges[i + 1]));
            }
        }
        assert forall|i: int, j: int|
            #![trigger h.edges[i], h.edges[j]]
            0 <= i < j < h.edges.len() implies !(h.edges[i].from == h.edges[j].from && h.edges[i].to == h.edges[j].to) by {
            let a = if i < p { i } else { i + 1 };
            let b = if j < p { j } else { j + 1 };
            assert(!(g.edges[a].from == g.edges[b].from && g.edges[a].to == g.edges[b].to));
        }
    }
}

proof fn lemma_without_transition_wf(g: GraphModel, from: usize, to: usize, info: InfoModel)
    requires
        g.wf(),
    ensures
        g.without_transition(from, to, info).wf(),
{
    let h = g.without_transition(from, to, info);
    if g.has_edge(from, to) {
        let p = g.edge_position(from, to);
        let e = g.edges[p];
        let rest = remove_info(e.infos, info);
        assert(g.edge_wf(e));
        lemma_remove_info(e.infos, info);
        if rest.len() == 0 {
            lemma_without_edge_wf(g, from, to);
            assert(h == g.without_edge(from, to));
        } else {
            let ne = EdgeModel { infos: rest, ..e };
            assert forall|j: int| 0 <= j < ne.infos.len() implies (#[trigger] ne.infos[j]) is MultipleTapes
                && ne.infos[j].tapes() == g.k + 1 by {
                assert(rest.contains(rest[j]));
                assert(e.infos.contains(rest[j]));
                let k = choose|k: int| 0 <= k < e.infos.len() && e.infos[k] == rest[j];
                assert(g.edge_wf(e));
            }
            assert(h.edge_wf(ne));
            assert forall|i: int| 0 <= i < h.edges.len() implies h.edge_wf(#[trigger] h.edges[i]) by {
                if i != p {
                    assert(g.edge_wf(g.edges[i]));
                }
            }
            assert forall|i: int, j: int|
                #![trigger h.edges[i], h.edges[j]]
                0 <= i < j < h.edges.len() implies !(h.edges[i].from == h.edges[j].from && h.edges[i].to == h.edges[j].to) by {
                assert(!(g.edges[i].from == g.edges[j].from && g.edges[i].to == g.edges[j].to));
            }
        }
    }
}

proof fn lemma_without_state_wf(g: GraphModel, id: usize)
    requires
        g.wf(),
        id != 0,
    ensures
        g.without_state(id).wf(),
{
    let h = g.without_state(id);
    lemma_edges_avoiding(g.edges, id);
    assert(h.states.dom().finite());
    assert forall|a: usize, b: usize|
        #![trigger h.states[a], h.states[b]]
        h.states.contains_key(a) && h.states.contains_key(b) && a != b implies h.states[a].name != h.states[b].name by {
        assert(g.states[a].name != g.states[b].name);
    }
    assert forall|i: int| 0 <= i < h.edges.len() implies h.edge_wf(#[trigger] h.edges[i]) by {
        assert(h.edges[i] == edges_avoiding(g.edges, id)[i]);
        assert(g.edges.contains(h.edges[i]));
        let k = choose|k: int| 0 <= k < g.edges.len() && g.edges[k] == h.edges[i];
        assert(g.edge_wf(g.edges[k]));
    }
}

proof fn lemma_renamed_wf(g: GraphModel, id: usize, name: Seq<char>)
    requires
        g.wf(),
        g.states.contains_key(id),
        !g.has_name(name),
    ensures
        g.renamed(id, name).wf(),
{
    let h = g.renamed(id, name);
    assert forall|a: usize, b: usize|
        #![trigger h.states[a], h.states[b]]
        h.states.contains_key(a) && h.states.contains_key(b) && a != b implies h.states[a].name != h.states[b].name by {
        if a == id {
            assert(g.states.contains_key(b));
        } else if b == id {
            assert(g.states.contains_key(a));
        } else {
            assert(g.states[a].name != g.states[b].name);
        }
    }
    assert forall|i: int| 0 <= i < h.edges.len() implies h.edge_wf(#[trigger] h.edges[i]) by {
        assert(g.edge_wf(g.edges[i]));
    }
}


/// The moves that the transitions of `e` offer when the tapes read `chars`, among its first
/// `n` transitions: the target state and the position of each transition that applies.
pub open spec fn edge_moves(e: EdgeModel, chars: Seq<char>, n: nat) -> Seq<(usize, usize)>
    decreases n,
{
    if n == 0 {
        Seq::empty()
    } else {
        let rest = edge_moves(e, chars, (n - 1) as nat);
        if e.infos[n - 1].accepts(chars) {
            rest.push((e.to, (n - 1) as usize))
        } else {
            rest
        }
    }
}

/// The moves from the state `from` when the tapes read `chars`, in the order of the edges
/// and then of the transitions of each edge.
pub open spec fn moves(edges: Seq<EdgeModel>, from: usize, chars: Seq<char>) -> Seq<(usize, usize)>
    decreases edges.len(),
{
    if edges.len() == 0 {
        Seq::empty()
    } else {
        let rest = moves(edges.drop_last(), from, chars);
        if edges.last().from == from {
            rest + edge_moves(edges.last(), chars, edges.last().infos.len())
        } else {
            rest
        }
    }
}

proof fn lemma_edge_moves(e: EdgeModel, chars: Seq<char>, n: nat)
    requires
        n <= e.infos.len() <= usize::MAX,
    ensures
        forall|m: int| 0 <= m < edge_moves(e, chars, n).len() ==> {
            &&& (#[trigger] edge_moves(e, chars, n)[m]).0 == e.to
            &&& edge_moves(e, chars, n)[m].1 < n
            &&& e.infos[edge_moves(e, chars, n)[m].1 as int].accepts(chars)
        },
    decreases n,
{
    if n > 0 {
        lemma_edge_moves(e, chars, (n - 1) as nat);
        let rest = edge_moves(e, chars, (n - 1) as nat);
        let r = edge_moves(e, chars, n);
        assert forall|m: int| 0 <= m < r.len() implies {
            &&& (#[trigger] r[m]).0 == e.to
            &&& r[m].1 < n
            &&& e.infos[r[m].1 as int].accepts(chars)
        } by {
            if m < rest.len() {
                assert(r[m] == rest[m]);
            }
        }
    }
}

/// The position of the edge that the move at position `m` comes from.
pub open spec fn move_source(edges: Seq<EdgeModel>, from: usize, chars: Seq<char>, m: int) -> int
    decreases edges.len(),
{
    if edges.len() == 0 {
        0
    } else if m < moves(edges.drop_last(), from, chars).len() {
        move_source(edges.drop_last(), from, chars, m)
    } else {
        edges.len() - 1
    }
}

/// The move at position `m` comes from an edge that leaves `from`, through a transition that
/// applies.
proof fn lemma_move_source(edges: Seq<EdgeModel>, from: usize, chars: Seq<char>, m: int)
    requires
        forall|i: int| 0 <= i < edges.len() ==> (#[trigger] edges[i]).infos.len() <= usize::MAX,
        0 <= m < moves(edges, from, chars).len(),
    ensures
        ({
            let p = move_source(edges, from, chars, m);
            &&& 0 <= p < edges.len()
            &&& edges[p].from == from
            &&& edges[p].to == moves(edges, from, chars)[m].0
            &&& moves(edges, from, chars)[m].1 < edges[p].infos.len()
            &&& edges[p].infos[moves(edges, from, chars)[m].1 as int].accepts(chars)
        }),
    decreases edges.len(),
{
    if edges.len() > 0 {
        let init = edges.drop_last();
        assert forall|i: int| 0 <= i < init.len() implies (#[trigger] init[i]).infos.len() <= usize::MAX by {
            assert(init[i] == edges[i]);
        }
        let rest = moves(init, from, chars);
        let last = edges.last();
        assert(last == edges[edges.len() - 1]);
        if m < rest.len() {
            lemma_move_source(init, from, chars, m);
            assert(moves(edges, from, chars)[m] == rest[m]);
            let p = move_source(init, from, chars, m);
            assert(edges[p] == init[p]);
        } else {
            lemma_edge_moves(last, chars, last.infos.len());
            let em = edge_moves(last, chars, last.infos.len());
            assert(moves(edges, from, chars)[m] == em[m - rest.len()]);
        }
    }
}

/// Each transition among the first `n` of an edge that applies gives a move of the edge.
proof fn lemma_edge_moves_complete(e: EdgeModel, chars: Seq<char>, n: nat)
    requires
        n <= e.infos.len() <= usize::MAX,
    ensures
        forall|j: int|
            0 <= j < n && #[trigger] e.infos[j].accepts(chars) ==> edge_moves(e, chars, n).contains(
                (e.to, j as usize),
            ),
    decreases n,
{
    if n > 0 {
        lemma_edge_moves_complete(e, chars, (n - 1) as nat);
        let rest = edge_moves(e, chars, (n - 1) as nat);
        let r = edge_moves(e, chars, n);
        assert forall|j: int| 0 <= j < n && #[trigger] e.infos[j].accepts(chars) implies r.contains(
            (e.to, j as usize),
        ) by {
            if j < n - 1 {
                let k = choose|k: int| 0 <= k < rest.len() && rest[k] == (e.to, j as usize);
                assert(r[k] == rest[k]);
            } else {
                assert(r[r.len() - 1] == (e.to, j as usize));
            }
        }
    }
}

/// Each transition of an edge leaving `from` that applies gives a move from `from`.
proof fn lemma_moves_complete_edges(edges: Seq<EdgeModel>, from: usize, chars: Seq<char>)
    requires
        forall|i: int| 0 <= i < edges.len() ==> (#[trigger] edges[i]).infos.len() <= usize::MAX,
    ensures
        forall|i: int, j: int|
            0 <= i < edges.len() && edges[i].from == from && 0 <= j < edges[i].infos.len()
                && #[trigger] edges[i].infos[j].accepts(chars) ==> moves(edges, from, chars).contains(
                (edges[i].to, j as usize),
            ),
    decreases edges.len(),
{
    if edges.len() > 0 {
        let init = edges.drop_last();
        assert forall|i: int| 0 <= i < init.len() implies (#[trigger] init[i]).infos.len() <= usize::MAX by {
            assert(init[i] == edges[i]);
        }
        lemma_moves_complete_edges(init, from, chars);
        let last = edges.last();
        assert(last == edges[edges.len() - 1]);
        lemma_edge_moves_complete(last, chars, last.infos.len());
        let rest = moves(init, from, chars);
        let ms = moves(edges, from, chars);
        assert forall|i: int, j: int|
            0 <= i < edges.len() && edges[i].from == from && 0 <= j < edges[i].infos.len()
                && #[trigger] edges[i].infos[j].accepts(chars) implies ms.contains((edges[i].to, j as usize)) by {
            if i < init.len() {
                assert(init[i] == edges[i]);
                assert(init[i].infos[j].accepts(chars));
                let k = choose|k: int| 0 <= k < rest.len() && rest[k] == (init[i].to, j as usize);
                assert(ms[k] == rest[k]);
            } else {
                assert(last.infos[j].accepts(chars));
                let em = edge_moves(last, chars, last.infos.len());
                let k = choose|k: int| 0 <= k < em.len() && em[k] == (last.to, j as usize);
                assert(ms[rest.len() + k] == em[k]);
            }
        }
    }
}

/// Every transition that leaves `from` and applies when the tapes read `chars` is a move from
/// `from`: the moves hold all the applicable transitions, each non-deterministic choice
/// between the same two states included.
pub proof fn lemma_moves_complete(g: GraphModel, from: usize, chars: Seq<char>)
    requires
        g.wf(),
    ensures
        forall|to: usize, j: int|
            g.has_edge(from, to) && 0 <= j < g.transitions_between(from, to).len()
                && #[trigger] g.transitions_between(from, to)[j].accepts(chars) ==> moves(
                g.edges,
                from,
                chars,
            ).contains((to, j as usize)),
{
    assert forall|i: int| 0 <= i < g.edges.len() implies (#[trigger] g.edges[i]).infos.len() <= usize::MAX by {
        assert(g.edge_wf(g.edges[i]));
    }
    lemma_moves_complete_edges(g.edges, from, chars);
    assert forall|to: usize, j: int|
        g.has_edge(from, to) && 0 <= j < g.transitions_between(from, to).len()
            && #[trigger] g.transitions_between(from, to)[j].accepts(chars) implies moves(
            g.edges,
            from,
            chars,
        ).contains((to, j as usize)) by {
        let p = g.edge_position(from, to);
        assert(g.edges[p].infos[j].accepts(chars));
    }
}

/// Each move from a state leads, through a transition that applies, to a state it is linked to.
pub proof fn lemma_moves_sound(g: GraphModel, from: usize, chars: Seq<char>)
    requires
        g.wf(),
    ensures
        forall|m: int| 0 <= m < moves(g.edges, from, chars).len() ==> {
            &&& g.has_edge(from, (#[trigger] moves(g.edges, from, chars)[m]).0)
            &&& moves(g.edges, from, chars)[m].1 < g.transitions_between(from, moves(g.edges, from, chars)[m].0).len()
            &&& g.transitions_between(from, moves(g.edges, from, chars)[m].0)[moves(g.edges, from, chars)[m].1 as int].accepts(chars)
        },
{
    assert forall|i: int| 0 <= i < g.edges.len() implies (#[trigger] g.edges[i]).infos.len() <= usize::MAX by {
        assert(g.edge_wf(g.edges[i]));
    }
    let ms = moves(g.edges, from, chars);
    assert forall|m: int| 0 <= m < ms.len() implies {
        &&& g.has_edge(from, (#[trigger] ms[m]).0)
        &&& ms[m].1 < g.transitions_between(from, ms[m].0).len()
        &&& g.transitions_between(from, ms[m].0)[ms[m].1 as int].accepts(chars)
    } by {
        lemma_move_source(g.edges, from, chars, m);
        let p = move_source(g.edges, from, chars, m);
        assert(g.edges[p].from == from && g.edges[p].to == ms[m].0);
        assert(g.has_edge(from, ms[m].0));
        let q = g.edge_position(from, ms[m].0);
        if q != p {
            if q < p {
                assert(!(g.edges[q].from == g.edges[p].from && g.edges[q].to == g.edges[p].to));
            } else {
                assert(!(g.edges[p].from == g.edges[q].from && g.edges[p].to == g.edges[q].to));
            }
        }
    }
}


impl<S: TuringState, T: TuringTransition> Default for TuringMachineGraph<S, T> {
    /// A graph for one writing tape, holding only the initial state `i`.
    fn default() -> (g: Self)
        ensures
            g.wf(),
            g.fresh_data(false),
            g@.k == 1,
            g@.edges == Seq::<EdgeModel>::empty(),
            g@.next_index == 1,
            g@.states == map![0usize => StateModel { name: init_state_name(), state_type: TuringStateType::Normal, id: 0 }],
    {
        Self::fresh(1, false)
    }
}

/// The name of a kind of state.
pub open spec fn state_type_text(t: TuringStateType) -> Seq<char> {
    match t {
        TuringStateType::Normal => "Normal"@,
        TuringStateType::Accepting => "Accepting"@,
        TuringStateType::Rejecting => "Rejecting"@,
    }
}

/// The text of a state: `(id: name, kind)`.
pub open spec fn state_info_text(s: StateModel) -> Seq<char> {
    "("@ + decimal(s.id as nat) + ": "@ + s.name + ", "@ + state_type_text(s.state_type) + ")"@
}

impl TuringStateType {
    /// Appends the name of this kind to `s`.
    pub fn push_text_to(&self, s: &mut String)
        ensures
            final(s)@ == old(s)@ + state_type_text(*self),
    {
        match self {
            TuringStateType::Normal => push_text(s, "Normal"),
            TuringStateType::Accepting => push_text(s, "Accepting"),
            TuringStateType::Rejecting => push_text(s, "Rejecting"),
        }
    }
}

impl TuringStateInfo {
    /// Appends the text of this state, `(id: name, kind)`, to `s`.
    pub fn push_text_to(&self, s: &mut String)
        ensures
            final(s)@ == old(s)@ + state_info_text(self@),
    {
        let ghost s0 = s@;
        push_text(s, "(");
        push_decimal(s, self.id);
        push_text(s, ": ");
        push_text(s, self.name.as_str());
        push_text(s, ", ");
        self.state_type.push_text_to(s);
        push_text(s, ")");
        assert(s@ =~= s0 + state_info_text(self@));
    }

    /// The text of this state, `(id: name, kind)`.
    pub fn to_text(&self) -> (s: String)
        ensures
            s@ == state_info_text(self@),
    {
        let mut s = String::new();
        self.push_text_to(&mut s);
        assert(s@ =~= state_info_text(self@));
        s
    }
}

/// Removing from `infos` a transition that is not there changes nothing.
proof fn lemma_remove_absent(infos: Seq<InfoModel>, info: InfoModel)
    requires
        !infos.contains(info),
    ensures
        remove_info(infos, info) == infos,
    decreases infos.len(),
{
    if infos.len() > 0 {
        assert(!infos.drop_last().contains(info)) by {
            if infos.drop_last().contains(info) {
                let i = choose|i: int| 0 <= i < infos.drop_last().len() && infos.drop_last()[i] == info;
                assert(infos[i] == info);
            }
        }
        lemma_remove_absent(infos.drop_last(), info);
        assert(infos.drop_last().push(infos.last()) =~= infos);
    }
}

/// Once a transition is added between two states, the transitions between them are those
/// that were there followed by the new one.
pub proof fn lemma_append_then_get(g: GraphModel, from: usize, to: usize, info: InfoModel)
    requires
        g.wf(),
    ensures
        g.with_transition(from, to, info).transitions_between(from, to) == g.transitions_between(from, to).push(
            info,
        ),
{
    let h = g.with_transition(from, to, info);
    if g.has_edge(from, to) {
        let p = g.edge_position(from, to);
        assert(h.edges[p].from == from && h.edges[p].to == to);
        let q = h.edge_position(from, to);
        if q != p {
            assert(g.edges[q].from == from && g.edges[q].to == to);
            if q < p {
                assert(!(g.edges[q].from == g.edges[p].from && g.edges[q].to == g.edges[p].to));
            } else {
                assert(!(g.edges[p].from == g.edges[q].from && g.edges[p].to == g.edges[q].to));
            }
        }
    } else {
        let n = g.edges.len() as int;
        assert(h.edges[n].from == from && h.edges[n].to == to);
        let q = h.edge_position(from, to);
        if q != n {
            assert(g.edges[q].from == from && g.edges[q].to == to);
        }
        assert(seq![info] =~= Seq::<InfoModel>::empty().push(info));
    }
}

/// Removing a transition that was just added between two states, and that was not there
/// before, gives back the graph.
pub proof fn lemma_remove_undoes_append(g: GraphModel, from: usize, to: usize, info: InfoModel)
    requires
        g.wf(),
        !g.transitions_between(from, to).contains(info),
    ensures
        g.with_transition(from, to, info).without_transition(from, to, info) == g,
{
    let h = g.with_transition(from, to, info);
    lemma_append_then_get(g, from, to, info);
    if g.has_edge(from, to) {
        let p = g.edge_position(from, to);
        let e = g.edges[p];
        assert(g.edge_wf(e));
        assert(h.edges[p].from == from && h.edges[p].to == to);
        let q = h.edge_position(from, to);
        assert(q == p) by {
            if q != p {
                assert(g.edges[q].from == from && g.edges[q].to == to);
                if q < p {
                    assert(!(g.edges[q].from == g.edges[p].from && g.edges[q].to == g.edges[p].to));
                } else {
                    assert(!(g.edges[p].from == g.edges[q].from && g.edges[p].to == g.edges[q].to));
                }
            }
        }
        lemma_remove_absent(e.infos, info);
        assert(e.infos.push(info).drop_last() =~= e.infos);
        assert(remove_info(e.infos.push(info), info) == e.infos);
        assert(h.without_transition(from, to, info).edges =~= g.edges);
    } else {
        let n = g.edges.len() as int;
        assert(h.edges[n].from == from && h.edges[n].to == to);
        let q = h.edge_position(from, to);
        assert(q == n) by {
            if q != n {
                assert(g.edges[q].from == from && g.edges[q].to == to);
            }
        }
        assert(seq![info].drop_last() =~= Seq::<InfoModel>::empty());
        assert(remove_info(Seq::<InfoModel>::empty(), info) =~= Seq::<InfoModel>::empty());
        assert(seq![info].last() == info);
        assert(remove_info(seq![info], info) =~= Seq::<InfoModel>::empty());
        assert(h.without_transition(from, to, info).edges =~= g.edges);
    }
}

/// Once a state is renamed, its new name designates it.
pub proof fn lemma_rename_then_get(g: GraphModel, id: usize, name: Seq<char>)
    requires
        g.wf(),
        g.states.contains_key(id),
        !g.has_name(name),
    ensures
        g.renamed(id, name).resolve(IndexModel::Name(name)) == Some(id),
{
    let h = g.renamed(id, name);
    assert(h.states.contains_key(id) && h.states[id].name == name);
    let c = choose|c: usize| #[trigger] h.states.contains_key(c) && h.states[c].name == name;
    if c != id {
        assert(g.states.contains_key(c) && g.states[c].name == name);
    }
}

/// Once a state is removed, no transition leaves it or reaches it.
pub proof fn lemma_removed_state_unlinked(g: GraphModel, id: usize)
    ensures
        forall|i: int|
            0 <= i < g.without_state(id).edges.len() ==> (#[trigger] g.without_state(id).edges[i]).from != id
                && g.without_state(id).edges[i].to != id,
        !g.without_state(id).states.contains_key(id),
{
    lemma_edges_avoiding(g.edges, id);
}

} // verus!
