//! Step-by-step execution of a Turing machine graph on a word, exploring the choices of a
//! non-deterministic machine by backtracking.
use vstd::prelude::*;

use std::collections::VecDeque;

use crate::text::{char_at, decimal, push_decimal, push_text};
use crate::turing_graph::{
    state_info_text, GraphModel, StateModel, TuringGraph, TuringGraphError, TuringState, TuringStateInfo,
    TuringStateType, moves, lemma_moves_sound,
};
use crate::turing_tape::{
    END_CHAR, INIT_CHAR, TapeModel, tape_text, TuringTape, TuringTapeError, fed_cells, first_illegal_char,
    lemma_fed_cells, lemma_reading_apply, lemma_writing_apply,
};
use crate::turing_transition::{
    info_text, mult_valid, InfoModel, MatchSymbol, MultModel, TransitionMultRibbonInfo, TransitionOneRibbonInfo, TransitionsInfo, TuringDirection,
    TuringTransition, TuringTransitionError,
};

verus! {

#[derive(Debug)]
pub enum TuringMachineError {
    /// An error of the graph.
    GraphError(TuringGraphError),
    /// An error of a transition.
    TransitionError(TuringTransitionError),
    /// An error of a tape.
    TapeError(TuringTapeError),
}

/// How the execution of a machine goes on.
#[derive(Debug, Clone, Copy, PartialEq, Eq, Structural)]
pub enum Mode {
    /// Explores every path, backtracking, until an accepting state is reached or no path is
    /// left to take.
    SaveAll,
    /// Stops once the given number of iterations is reached, even if the execution is not over.
    StopAfter(usize),
    /// Stops after meeting the first rejecting state or when the execution is blocked, even if
    /// backtracking is possible.
    StopFirstReject,
}

/// A point of the execution where several transitions applied, kept to come back to.
#[derive(Debug, Clone)]
pub struct SavedState {
    /// The id of the state.
    pub saved_state_index: usize,
    /// The transitions left to take, as pairs of target state and position.
    pub next_transitions: VecDeque<(usize, usize)>,
    /// The tapes as they were.
    pub saved_tapes: Vec<TuringTape>,
    /// The iteration of the step that reached the state.
    pub iteration: usize,
}

/// The abstract content of a [`SavedState`].
pub struct SavedModel {
    pub state: usize,
    pub next: Seq<(usize, usize)>,
    pub tapes: Seq<TapeModel>,
    pub iteration: usize,
}

/// The abstract content of a sequence of tapes.
pub open spec fn tapes_view(v: Seq<TuringTape>) -> Seq<TapeModel> {
    v.map_values(|t: TuringTape| t@)
}

impl View for SavedState {
    type V = SavedModel;

    open spec fn view(&self) -> SavedModel {
        SavedModel {
            state: self.saved_state_index,
            next: self.next_transitions@,
            tapes: tapes_view(self.saved_tapes@),
            iteration: self.iteration,
        }
    }
}

/// What one step of an execution did.
#[derive(Debug)]
pub enum TuringExecutionSteps {
    /// The start of the execution.
    FirstIteration {
        /// The initial state.
        init_state: TuringStateInfo,
        /// The tapes at the start.
        init_tapes: Vec<TuringTape>,
    },
    /// A transition was taken.
    TransitionTaken {
        /// The state that was left.
        previous_state: TuringStateInfo,
        /// The source state, the position of the transition, and the target state.
        transition_index: (usize, usize, usize),
        /// The state that was reached.
        reached_state: TuringStateInfo,
        /// The id of the state that was reached.
        state_pointer: usize,
        /// The transition that was taken.
        transition_taken: TransitionsInfo,
        /// The tapes after the transition.
        tapes: Vec<TuringTape>,
        /// The number of iterations done before this step.
        iteration: usize,
    },
    /// The execution went back to a saved point.
    Backtracked {
        /// The state that was left.
        previous_state: TuringStateInfo,
        /// The state that was gone back to.
        reached_state: TuringStateInfo,
        /// The id of the state that was gone back to.
        state_pointer: usize,
        /// The tapes after going back.
        tapes: Vec<TuringTape>,
        /// The number of iterations done before this step.
        iteration: usize,
        /// The iteration of the step that had reached the saved point.
        backtracked_iteration: usize,
    },
}

/// The abstract content of a step.
pub enum StepModel {
    FirstIteration { init_state: StateModel, init_tapes: Seq<TapeModel> },
    TransitionTaken {
        previous_state: StateModel,
        transition_index: (usize, usize, usize),
        reached_state: StateModel,
        state_pointer: usize,
        transition_taken: InfoModel,
        tapes: Seq<TapeModel>,
        iteration: usize,
    },
    Backtracked {
        previous_state: StateModel,
        reached_state: StateModel,
        state_pointer: usize,
        tapes: Seq<TapeModel>,
        iteration: usize,
        backtracked_iteration: usize,
    },
}

impl View for TuringExecutionSteps {
    type V = StepModel;

    open spec fn view(&self) -> StepModel {
        match self {
            TuringExecutionSteps::FirstIteration { init_state, init_tapes } => StepModel::FirstIteration {
                init_state: init_state@,
                init_tapes: tapes_view(init_tapes@),
            },
            TuringExecutionSteps::TransitionTaken {
                previous_state,
                transition_index,
                reached_state,
                state_pointer,
                transition_taken,
                tapes,
                iteration,
            } => StepModel::TransitionTaken {
                previous_state: previous_state@,
                transition_index: *transition_index,
                reached_state: reached_state@,
                state_pointer: *state_pointer,
                transition_taken: transition_taken@,
                tapes: tapes_view(tapes@),
                iteration: *iteration,
            },
            TuringExecutionSteps::Backtracked {
                previous_state,
                reached_state,
                state_pointer,
                tapes,
                iteration,
                backtracked_iteration,
            } => StepModel::Backtracked {
                previous_state: previous_state@,
                reached_state: reached_state@,
                state_pointer: *state_pointer,
                tapes: tapes_view(tapes@),
                iteration: *iteration,
                backtracked_iteration: *backtracked_iteration,
            },
        }
    }
}

impl StepModel {
    /// The state the step ends in.
    pub open spec fn current_state(self) -> StateModel {
        match self {
            StepModel::FirstIteration { init_state, .. } => init_state,
            StepModel::TransitionTaken { reached_state, .. } => reached_state,
            StepModel::Backtracked { reached_state, .. } => reached_state,
        }
    }

    /// The id of the state the step ends in (0 for the first step).
    pub open spec fn state_pointer(self) -> usize {
        match self {
            StepModel::FirstIteration { .. } => 0,
            StepModel::TransitionTaken { state_pointer, .. } => state_pointer,
            StepModel::Backtracked { state_pointer, .. } => state_pointer,
        }
    }

    /// The number of iterations the step reports.
    pub open spec fn nb_iterations(self) -> usize {
        match self {
            StepModel::FirstIteration { .. } => 0,
            StepModel::TransitionTaken { iteration, .. } => iteration,
            StepModel::Backtracked { iteration, .. } => iteration,
        }
    }
}

/// The data of an execution in progress.
#[derive(Debug)]
pub struct IterationData {
    /// The reading tape followed by the `k` writing tapes.
    tapes: Vec<TuringTape>,
    /// The word being read.
    word: String,
    /// The id of the current state.
    state_pointer: usize,
    /// Whether the execution has not made its first step yet.
    is_first_state: bool,
    /// The saved points of the exploration, the most recent first.
    memory: VecDeque<SavedState>,
    /// How the execution goes on.
    mode: Mode,
    /// The transition to take at the next step after going back to a saved point: the target
    /// state and the position of the transition.
    backtracked_info: Option<(usize, usize)>,
}

/// A Turing machine graph executing a word.
#[derive(Debug)]
pub struct TuringMachine<S: TuringState, T: TuringTransition> {
    graph: TuringGraph<S, T>,
    data: IterationData,
    /// The number of iterations already done.
    iteration: usize,
    /// A copy of the last step returned.
    last_iteration: Option<TuringExecutionSteps>,
    /// Whether the execution is over.
    is_over: bool,
}

/// The abstract content of a machine.
pub struct MachineModel {
    pub graph: GraphModel,
    pub tapes: Seq<TapeModel>,
    pub word: Seq<char>,
    pub state: usize,
    pub first: bool,
    pub memory: Seq<SavedModel>,
    pub mode: Mode,
    pub backtrack: Option<(usize, usize)>,
    pub iteration: usize,
    pub last_step: Option<StepModel>,
    pub over: bool,
}

impl<S: TuringState, T: TuringTransition> View for TuringMachine<S, T> {
    type V = MachineModel;

    closed spec fn view(&self) -> MachineModel {
        MachineModel {
            graph: self.graph@,
            tapes: tapes_view(self.data.tapes@),
            word: self.data.word@,
            state: self.data.state_pointer,
            first: self.data.is_first_state,
            memory: self.data.memory@.map_values(|s: SavedState| s@),
            mode: self.data.mode,
            backtrack: self.data.backtracked_info,
            iteration: self.iteration,
            last_step: match self.last_iteration {
                Some(s) => Some(s@),
                None => None,
            },
            over: self.is_over,
        }
    }
}

/// The characters under the heads of `tapes`.
pub open spec fn chars_under(tapes: Seq<TapeModel>) -> Seq<char> {
    Seq::new(tapes.len(), |i: int| tapes[i].current())
}

/// The tapes once a multi-tape transition is applied: the reading tape writes back what it
/// read and moves along `D_0`; writing tape `i` writes `b_i` and moves along `D_i`.
pub open spec fn apply_mult(tapes: Seq<TapeModel>, t: MultModel) -> Seq<TapeModel> {
    Seq::new(
        tapes.len(),
        |i: int|
            if i == 0 {
                tapes[0].apply(
                    MatchSymbol::Char(char_at(t.chars_read, 0)),
                    char_at(t.chars_read, 0),
                    t.move_read,
                ).1
            } else {
                tapes[i].apply(
                    MatchSymbol::Char(char_at(t.chars_read, i)),
                    t.chars_write[i - 1].0,
                    t.chars_write[i - 1].1,
                ).1
            },
    )
}

/// The tapes once a single-tape transition is applied to the first tape.
pub open spec fn apply_one(tapes: Seq<TapeModel>, t: TransitionOneRibbonInfo) -> Seq<TapeModel> {
    tapes.update(0, tapes[0].apply(t.chars_read, t.replace_with, t.move_pointer).1)
}

/// The tapes of a machine for `word` with `k` writing tapes: a reading tape holding the word
/// and `k` writing tapes that all hold a blank after the initial character.
pub open spec fn tapes_ok(tapes: Seq<TapeModel>, word: Seq<char>, k: usize) -> bool {
    &&& tapes.len() == k + 1
    &&& tapes[0].reading_ok(word)
    &&& forall|i: int| 1 <= i < tapes.len() ==> (#[trigger] tapes[i]).writing_ok()
}

/// A multi-tape transition that cannot make a tape fail: the reading head neither leaves the
/// end nor the start of its tape, and each writing head does not leave the start of its tape,
/// writes `INIT_CHAR` exactly over itself, and never writes `END_CHAR`.
pub open spec fn safe_mult(t: MultModel) -> bool {
    &&& t.chars_read.len() == t.chars_write.len() + 1
    &&& !(char_at(t.chars_read, 0) == END_CHAR && t.move_read == TuringDirection::Right)
    &&& !(char_at(t.chars_read, 0) == INIT_CHAR && t.move_read == TuringDirection::Left)
    &&& forall|i: int|
        1 <= i < t.chars_read.len() ==> {
            &&& !(#[trigger] char_at(t.chars_read, i) == INIT_CHAR && t.chars_write[i - 1].1
                == TuringDirection::Left)
            &&& (char_at(t.chars_read, i) == INIT_CHAR ==> t.chars_write[i - 1].0 == INIT_CHAR)
            &&& (char_at(t.chars_read, i) != INIT_CHAR ==> t.chars_write[i - 1].0 != INIT_CHAR)
            &&& t.chars_write[i - 1].0 != END_CHAR
        }
}

/// Whether every transition of the graph cannot make a tape fail.
pub open spec fn runnable(g: GraphModel) -> bool {
    forall|i: int, j: int|
        0 <= i < g.edges.len() && 0 <= j < g.edges[i].infos.len() ==> safe_mult(
            (#[trigger] g.edges[i].infos[j])->MultipleTapes_0,
        )
}

/// Whether the transition at position `idx` from `from` to `to` exists and applies when the
/// tapes read `chars`.
pub open spec fn valid_move(g: GraphModel, from: usize, to: usize, idx: usize, chars: Seq<char>) -> bool {
    &&& g.has_edge(from, to)
    &&& idx < g.transitions_between(from, to).len()
    &&& g.transitions_between(from, to)[idx as int].accepts(chars)
}

impl MachineModel {
    /// A saved point that can be gone back to.
    pub open spec fn saved_ok(self, s: SavedModel) -> bool {
        &&& self.graph.states.contains_key(s.state)
        &&& s.next.len() > 0
        &&& tapes_ok(s.tapes, self.word, self.graph.k)
        &&& forall|j: int|
            0 <= j < s.next.len() ==> valid_move(
                self.graph,
                s.state,
                (#[trigger] s.next[j]).0,
                s.next[j].1,
                chars_under(s.tapes),
            )
    }

    /// The validity of a machine.
    pub open spec fn wf(self) -> bool {
        &&& self.graph.wf()
        &&& first_illegal_char(self.word) is None
        &&& tapes_ok(self.tapes, self.word, self.graph.k)
        &&& self.graph.states.contains_key(self.state)
        &&& (!self.first ==> self.iteration >= 1)
        &&& (self.first ==> self.state == 0 && self.backtrack is None && self.memory.len() == 0)
        &&& (self.backtrack matches Some(b) ==> valid_move(
            self.graph,
            self.state,
            b.0,
            b.1,
            chars_under(self.tapes),
        ))
        &&& forall|i: int| 0 <= i < self.memory.len() ==> self.saved_ok(#[trigger] self.memory[i])
    }

    /// The machine, and the step reported, once the transition at position `idx` from the
    /// current state `cur` to `to` is taken; `prev` is the number of iterations done before.
    pub open spec fn take(self, cur: StateModel, to: usize, idx: usize, prev: usize) -> (MachineModel, Option<StepModel>) {
        let info = self.graph.transitions_between(cur.id, to)[idx as int];
        let tapes = match info {
            InfoModel::MultipleTapes(t) => apply_mult(self.tapes, t),
            InfoModel::OneTape(t) => apply_one(self.tapes, t),
        };
        (
            MachineModel { tapes, state: to, ..self },
            Some(
                StepModel::TransitionTaken {
                    previous_state: cur,
                    transition_index: (cur.id, idx, to),
                    reached_state: self.graph.states[to],
                    state_pointer: to,
                    transition_taken: info,
                    tapes,
                    iteration: prev,
                },
            ),
        )
    }

    /// The machine, and the step reported, once the execution goes back to the most recent
    /// saved point and picks the next transition left there.
    pub open spec fn go_back(self, cur: StateModel, prev: usize) -> (MachineModel, Option<StepModel>) {
        let saved = self.memory[0];
        let rest = saved.next.drop_first();
        let memory = if rest.len() == 0 {
            self.memory.drop_first()
        } else {
            self.memory.update(0, SavedModel { next: rest, ..saved })
        };
        (
            MachineModel {
                state: saved.state,
                tapes: saved.tapes,
                backtrack: Some(saved.next[0]),
                memory,
                ..self
            },
            Some(
                StepModel::Backtracked {
                    previous_state: cur,
                    reached_state: self.graph.states[saved.state],
                    state_pointer: saved.state,
                    tapes: saved.tapes,
                    iteration: prev,
                    backtracked_iteration: saved.iteration,
                },
            ),
        )
    }

    /// One step of the execution: the machine it leaves and the step it reports, if any.
    ///
    /// A step pending after going back takes its transition. Otherwise the first step reports
    /// the start; an accepting state ends the execution; in a rejecting state, or when no
    /// transition applies, the execution goes back to the most recent saved point (unless the
    /// mode stops at the first reject, or there is none); when several apply, the first is taken
    /// and the others are saved; when one applies, it is taken.
    pub open spec fn step(self) -> (MachineModel, Option<StepModel>) {
        let prev = self.iteration;
        if (self.mode matches Mode::StopAfter(nb) && nb == prev) || prev == usize::MAX {
            (self, None)
        } else {
            let m1 = MachineModel { iteration: (prev + 1) as usize, ..self };
            let cur = self.graph.states[self.state];
            match self.backtrack {
                Some(b) => MachineModel { backtrack: None, ..m1 }.take(cur, b.0, b.1, prev),
                None => if self.first {
                    (
                        MachineModel { first: false, ..m1 },
                        Some(StepModel::FirstIteration { init_state: cur, init_tapes: self.tapes }),
                    )
                } else if cur.state_type == TuringStateType::Accepting {
                    (m1, None)
                } else {
                    let nexts = moves(self.graph.edges, cur.id, chars_under(self.tapes));
                    if nexts.len() == 0 || cur.state_type == TuringStateType::Rejecting {
                        if self.mode == Mode::StopFirstReject || self.memory.len() == 0 {
                            (m1, None)
                        } else {
                            m1.go_back(cur, prev)
                        }
                    } else if nexts.len() >= 2 {
                        MachineModel {
                            memory: seq![
                                SavedModel {
                                    state: self.state,
                                    next: nexts.drop_first(),
                                    tapes: self.tapes,
                                    iteration: (prev - 1) as usize,
                                },
                            ] + self.memory,
                            ..m1
                        }.take(cur, nexts[0].0, nexts[0].1, prev)
                    } else {
                        m1.take(cur, nexts[0].0, nexts[0].1, prev)
                    }
                },
            }
        }
    }

    /// One call of [`TuringMachine::next`]: the step, recorded as the last one, or the end of
    /// the execution.
    pub open spec fn advance(self) -> (MachineModel, Option<StepModel>) {
        let (m, r) = self.step();
        match r {
            Some(st) => (MachineModel { last_step: Some(st), ..m }, r),
            None => (MachineModel { over: true, ..m }, None),
        }
    }

    /// The transition (target state and position) the next step takes, if it takes one.
    pub open spec fn chosen(self) -> Option<(usize, usize)> {
        let prev = self.iteration;
        if (self.mode matches Mode::StopAfter(nb) && nb == prev) || prev == usize::MAX {
            None
        } else {
            match self.backtrack {
                Some(b) => Some(b),
                None => {
                    let cur = self.graph.states[self.state];
                    let nexts = moves(self.graph.edges, cur.id, chars_under(self.tapes));
                    if self.first || cur.state_type == TuringStateType::Accepting
                        || cur.state_type == TuringStateType::Rejecting || nexts.len() == 0 {
                        None
                    } else {
                        Some(nexts[0])
                    }
                },
            }
        }
    }

    /// Whether the next step cannot make a tape fail: the transition it takes, if any, is
    /// safe on the tapes.
    pub open spec fn step_safe(self) -> bool {
        self.chosen() matches Some(c) ==> safe_mult(
            self.graph.transitions_between(self.state, c.0)[c.1 as int]->MultipleTapes_0,
        )
    }

    /// The machine for `word` at the start of an execution.
    pub open spec fn started(graph: GraphModel, word: Seq<char>, mode: Mode) -> MachineModel {
        MachineModel {
            graph,
            tapes: seq![TapeModel { cells: fed_cells(word, true), head: 0 }] + Seq::new(
                graph.k as nat,
                |i: int| TapeModel { cells: seq![INIT_CHAR, crate::turing_tape::BLANK_CHAR], head: 0 },
            ),
            word,
            state: 0,
            first: true,
            memory: Seq::empty(),
            mode,
            backtrack: None,
            iteration: 0,
            last_step: None,
            over: false,
        }
    }
}


/// A copy of a sequence of tapes.
fn copy_tapes(tapes: &Vec<TuringTape>) -> (v: Vec<TuringTape>)
    ensures
        tapes_view(v@) == tapes_view(tapes@),
{
    let mut v: Vec<TuringTape> = Vec::new();
    let mut i: usize = 0;
    while i < tapes.len()
        invariant
            0 <= i <= tapes@.len(),
            tapes_view(v@) == tapes_view(tapes@.take(i as int)),
        decreases tapes.len() - i,
    {
        let ghost old_v = v@;
        let t = tapes[i].snapshot();
        v.push(t);
        assert(tapes_view(v@) =~= tapes_view(old_v).push(t@));
        assert(tapes@.take(i + 1) =~= tapes@.take(i as int).push(tapes@[i as int]));
        assert(tapes_view(tapes@.take(i + 1)) =~= tapes_view(tapes@.take(i as int)).push(tapes@[i as int]@));
        i = i + 1;
    }
    assert(tapes@.take(i as int) =~= tapes@);
    v
}

impl TuringExecutionSteps {
    /// A copy of this step.
    pub fn duplicate(&self) -> (s: Self)
        ensures
            s@ == self@,
    {
        match self {
            TuringExecutionSteps::FirstIteration { init_state, init_tapes } => TuringExecutionSteps::FirstIteration {
                init_state: init_state.duplicate(),
                init_tapes: copy_tapes(init_tapes),
            },
            TuringExecutionSteps::TransitionTaken {
                previous_state,
                transition_index,
                reached_state,
                state_pointer,
                transition_taken,
                tapes,
                iteration,
            } => TuringExecutionSteps::TransitionTaken {
                previous_state: previous_state.duplicate(),
                transition_index: *transition_index,
                reached_state: reached_state.duplicate(),
                state_pointer: *state_pointer,
                transition_taken: transition_taken.duplicate(),
                tapes: copy_tapes(tapes),
                iteration: *iteration,
            },
            TuringExecutionSteps::Backtracked {
                previous_state,
                reached_state,
                state_pointer,
                tapes,
                iteration,
                backtracked_iteration,
            } => TuringExecutionSteps::Backtracked {
                previous_state: previous_state.duplicate(),
                reached_state: reached_state.duplicate(),
                state_pointer: *state_pointer,
                tapes: copy_tapes(tapes),
                iteration: *iteration,
                backtracked_iteration: *backtracked_iteration,
            },
        }
    }
}

impl Clone for TuringExecutionSteps {
    fn clone(&self) -> (s: Self)
        ensures
            s@ == self@,
    {
        self.duplicate()
    }
}


/// Applying a transition that applies and cannot make a tape fail keeps the tapes of a
/// machine valid.
proof fn lemma_apply_mult_ok(tapes: Seq<TapeModel>, word: Seq<char>, k: usize, t: MultModel)
    requires
        first_illegal_char(word) is None,
        tapes_ok(tapes, word, k),
        safe_mult(t),
        t.chars_read == chars_under(tapes),
    ensures
        tapes_ok(apply_mult(tapes, t), word, k),
{
    let r = apply_mult(tapes, t);
    assert(char_at(t.chars_read, 0) == tapes[0].current());
    lemma_reading_apply(tapes[0], word, t.move_read);
    assert forall|i: int| 1 <= i < r.len() implies (#[trigger] r[i]).writing_ok() by {
        assert(char_at(t.chars_read, i) == tapes[i].current());
        assert(tapes[i].writing_ok());
        lemma_writing_apply(tapes[i], t.chars_write[i - 1].0, t.chars_write[i - 1].1);
    }
}

/// Taking a transition that applies keeps a machine valid.
proof fn lemma_take_wf(m: MachineModel, cur: StateModel, to: usize, idx: usize, prev: usize)
    requires
        m.wf(),
        !m.first,
        safe_mult(m.graph.transitions_between(m.state, to)[idx as int]->MultipleTapes_0),
        m.backtrack is None,
        cur == m.graph.states[m.state],
        valid_move(m.graph, m.state, to, idx, chars_under(m.tapes)),
    ensures
        m.take(cur, to, idx, prev).0.wf(),
        m.take(cur, to, idx, prev).0.memory == m.memory,
{
    let g = m.graph;
    let p = g.edge_position(m.state, to);
    assert(g.edge_wf(g.edges[p]));
    assert(cur.id == m.state);
    let info = g.transitions_between(m.state, to)[idx as int];
    assert(info == g.edges[p].infos[idx as int]);
    assert(info is MultipleTapes);
    let t = info->MultipleTapes_0;
    lemma_apply_mult_ok(m.tapes, m.word, g.k, t);
}

/// Going back to the most recent saved point keeps a machine valid.
proof fn lemma_go_back_wf(m: MachineModel, cur: StateModel, prev: usize)
    requires
        m.wf(),
        m.memory.len() > 0,
    ensures
        m.go_back(cur, prev).0.wf(),
{
    let n = m.go_back(cur, prev).0;
    let saved = m.memory[0];
    assert(m.saved_ok(saved));
    assert(valid_move(m.graph, saved.state, saved.next[0].0, saved.next[0].1, chars_under(saved.tapes)));
    let rest = saved.next.drop_first();
    if rest.len() > 0 {
        let ns = SavedModel { next: rest, ..saved };
        assert forall|j: int| 0 <= j < ns.next.len() implies valid_move(
            m.graph,
            ns.state,
            (#[trigger] ns.next[j]).0,
            ns.next[j].1,
            chars_under(ns.tapes),
        ) by {
            assert(ns.next[j] == saved.next[j + 1]);
        }
        assert(n.saved_ok(ns));
        assert forall|i: int| 0 <= i < n.memory.len() implies n.saved_ok(#[trigger] n.memory[i]) by {
            if i > 0 {
                assert(m.saved_ok(m.memory[i]));
            }
        }
    } else {
        assert forall|i: int| 0 <= i < n.memory.len() implies n.saved_ok(#[trigger] n.memory[i]) by {
            assert(n.memory[i] == m.memory[i + 1]);
            assert(m.saved_ok(m.memory[i + 1]));
        }
    }
}

/// In a graph whose transitions all are safe, every step of a valid machine is safe.
pub proof fn lemma_runnable_step_safe(m: MachineModel)
    requires
        m.wf(),
        runnable(m.graph),
    ensures
        m.step_safe(),
{
    if let Some(c) = m.chosen() {
        let g = m.graph;
        if m.backtrack is None {
            let cur = g.states[m.state];
            assert(cur.id == m.state);
            lemma_moves_sound(g, cur.id, chars_under(m.tapes));
        }
        assert(valid_move(g, m.state, c.0, c.1, chars_under(m.tapes)));
        let p = g.edge_position(m.state, c.0);
        assert(g.transitions_between(m.state, c.0) == g.edges[p].infos);
        assert(g.edges[p].infos[c.1 as int] == g.transitions_between(m.state, c.0)[c.1 as int]);
    }
}

/// A step keeps a machine valid.
pub proof fn lemma_step_wf(m: MachineModel)
    requires
        m.wf(),
        m.step_safe(),
    ensures
        m.step().0.wf(),
        m.advance().0.wf(),
        m.step().0.graph == m.graph,
        m.step().0.word == m.word,
        m.step().0.mode == m.mode,
{
    let prev = m.iteration;
    if (m.mode matches Mode::StopAfter(nb) && nb == prev) || prev == usize::MAX {
    } else {
        let m1 = MachineModel { iteration: (prev + 1) as usize, ..m };
        let cur = m.graph.states[m.state];
        match m.backtrack {
            Some(b) => {
                lemma_take_wf(MachineModel { backtrack: None, ..m1 }, cur, b.0, b.1, prev);
            },
            None => if m.first {
            } else if cur.state_type == TuringStateType::Accepting {
            } else {
                assert(cur.id == m.state);
                let chars = chars_under(m.tapes);
                let nexts = moves(m.graph.edges, cur.id, chars);
                lemma_moves_sound(m.graph, cur.id, chars);
                if nexts.len() == 0 || cur.state_type == TuringStateType::Rejecting {
                    if m.mode == Mode::StopFirstReject || m.memory.len() == 0 {
                    } else {
                        lemma_go_back_wf(m1, cur, prev);
                    }
                } else if nexts.len() >= 2 {
                    let saved = SavedModel {
                        state: m.state,
                        next: nexts.drop_first(),
                        tapes: m.tapes,
                        iteration: (prev - 1) as usize,
                    };
                    let m2 = MachineModel { memory: seq![saved] + m.memory, ..m1 };
                    assert forall|j: int| 0 <= j < saved.next.len() implies valid_move(
                        m.graph,
                        saved.state,
                        (#[trigger] saved.next[j]).0,
                        saved.next[j].1,
                        chars_under(saved.tapes),
                    ) by {
                        assert(saved.next[j] == nexts[j + 1]);
                    }
                    assert(m2.saved_ok(saved));
                    assert forall|i: int| 0 <= i < m2.memory.len() implies m2.saved_ok(#[trigger] m2.memory[i]) by {
                        if i > 0 {
                            assert(m2.memory[i] == m.memory[i - 1]);
                            assert(m.saved_ok(m.memory[i - 1]));
                        }
                    }
                    assert(valid_move(m.graph, m.state, nexts[0].0, nexts[0].1, chars));
                    lemma_take_wf(m2, cur, nexts[0].0, nexts[0].1, prev);
                } else {
                    assert(valid_move(m.graph, m.state, nexts[0].0, nexts[0].1, chars));
                    lemma_take_wf(m1, cur, nexts[0].0, nexts[0].1, prev);
                }
            },
        }
    }
}

impl<S: TuringState, T: TuringTransition> TuringMachine<S, T> {
    pub open spec fn wf(&self) -> bool {
        self@.wf()
    }

    /// The graph being executed, data of the user's own included.
    pub closed spec fn graph_value(&self) -> TuringGraph<S, T> {
        self.graph
    }

    /// Creates a machine that executes the graph `mt` on `word`, in the given mode.
    ///
    /// Fails when the word holds a special character.
    pub fn new(mt: TuringGraph<S, T>, word: String, mode: Mode) -> (res: Result<Self, TuringMachineError>)
        requires
            mt.wf(),
        ensures
            match first_illegal_char(word@) {
                Some(c) => {
                    &&& res matches Err(
                        TuringMachineError::TapeError(TuringTapeError::IllegalInputError { word: w, illegal_char }),
                    )
                    &&& w@ == word@
                    &&& illegal_char == c
                },
                None => res matches Ok(m) && m@ == MachineModel::started(mt@, word@, mode) && m.wf()
                    && m.graph_value() == mt,
            },
    {
        let k = mt.get_k();
        let stored_word = word.clone();
        let mut reading = TuringTape::new(k != 0);
        match reading.feed_word(word, k != 0) {
            Ok(()) => {},
            Err(e) => {
                return Err(TuringMachineError::TapeError(e));
            },
        }
        let mut tapes: Vec<TuringTape> = Vec::new();
        tapes.push(reading);
        let mut i: usize = 0;
        while i < k
            invariant
                0 <= i <= k,
                tapes@.len() == i + 1,
                tapes@[0]@ == (TapeModel { cells: fed_cells(stored_word@, true), head: 0 }),
                forall|j: int| 1 <= j < tapes@.len() ==> #[trigger] tapes@[j]@ == (TapeModel {
                    cells: seq![INIT_CHAR, crate::turing_tape::BLANK_CHAR],
                    head: 0,
                }),
            decreases k - i,
        {
            tapes.push(TuringTape::new(false));
            i = i + 1;
        }
        let m = TuringMachine {
            data: IterationData {
                state_pointer: 0,
                tapes,
                word: stored_word,
                is_first_state: true,
                memory: VecDeque::new(),
                mode,
                backtracked_info: None,
            },
            graph: mt,
            iteration: 0,
            last_iteration: None,
            is_over: false,
        };
        proof {
            let st = MachineModel::started(mt@, word@, mode);
            assert(m@.tapes =~= st.tapes);
            assert(m@.memory =~= st.memory);
            lemma_fed_cells(word@);
            assert forall|j: int| 1 <= j < m@.tapes.len() implies (#[trigger] m@.tapes[j]).writing_ok() by {
                let t = m@.tapes[j];
                assert(t.cells.len() == 2);
            }
        }
        Ok(m)
    }

    /// Brings the machine back to the start of an execution on its word.
    pub fn reset(&mut self)
        requires
            old(self).wf(),
        ensures
            final(self).graph_value() == old(self).graph_value(),
            final(self).wf(),
            final(self)@ == MachineModel::started(old(self)@.graph, old(self)@.word, old(self)@.mode),
    {
        let word = self.data.word.clone();
        match self.reset_word(&word) {
            Ok(()) => {},
            Err(_) => {},
        }
    }

    /// Brings the machine back to the start of an execution on `word`.
    ///
    /// Fails, leaving the machine unchanged, when the word holds a special character.
    pub fn reset_word(&mut self, word: &String) -> (res: Result<(), TuringMachineError>)
        requires
            old(self).wf(),
        ensures
            final(self).graph_value() == old(self).graph_value(),
            match first_illegal_char(word@) {
                Some(c) => {
                    &&& res matches Err(
                        TuringMachineError::TapeError(TuringTapeError::IllegalInputError { word: w, illegal_char }),
                    )
                    &&& w@ == word@
                    &&& illegal_char == c
                    &&& final(self)@ == old(self)@
                },
                None => {
                    &&& res is Ok
                    &&& final(self).wf()
                    &&& final(self)@ == MachineModel::started(old(self)@.graph, word@, old(self)@.mode)
                },
            },
    {
        let k = self.graph.get_k();
        let mut reading = TuringTape::new(k != 0);
        match reading.feed_word(word.clone(), k != 0) {
            Ok(()) => {},
            Err(e) => {
                return Err(TuringMachineError::TapeError(e));
            },
        }
        let mut tapes: Vec<TuringTape> = Vec::new();
        tapes.push(reading);
        let mut i: usize = 0;
        while i < k
            invariant
                0 <= i <= k,
                tapes@.len() == i + 1,
                tapes@[0]@ == (TapeModel { cells: fed_cells(word@, true), head: 0 }),
                forall|j: int| 1 <= j < tapes@.len() ==> #[trigger] tapes@[j]@ == (TapeModel {
                    cells: seq![INIT_CHAR, crate::turing_tape::BLANK_CHAR],
                    head: 0,
                }),
            decreases k - i,
        {
            tapes.push(TuringTape::new(false));
            i = i + 1;
        }
        let ghost g = self@.graph;
        self.data.tapes = tapes;
        self.set_word(word);
        self.set_state_pointer(0);
        self.set_first_iteration(true);
        self.set_iteration(0);
        self.set_backtracking_info(None);
        self.set_last_step(None);
        self.set_is_over(false);
        self.data.memory = VecDeque::new();
        proof {
            let st = MachineModel::started(g, word@, self@.mode);
            assert(self@.tapes =~= st.tapes);
            assert(self@.memory =~= st.memory);
            lemma_fed_cells(word@);
            assert forall|j: int| 1 <= j < self@.tapes.len() implies (#[trigger] self@.tapes[j]).writing_ok() by {
                let t = self@.tapes[j];
                assert(t.cells.len() == 2);
            }
        }
        Ok(())
    }

    /// Changes how the execution goes on.
    pub fn set_mode(&mut self, mode: &Mode)
        ensures
            final(self).graph_value() == old(self).graph_value(),
            final(self)@ == (MachineModel { mode: *mode, ..old(self)@ }),
    {
        self.data.mode = *mode;
    }

    /// The graph being executed.
    pub fn graph_ref(&self) -> (g: &TuringGraph<S, T>)
        ensures
            g@ == self@.graph,
            *g == self.graph_value(),
    {
        &self.graph
    }

    /// The graph being executed, to be changed in place.
    pub fn graph_mut(&mut self) -> (g: &mut TuringGraph<S, T>)
        ensures
            g@ == old(self)@.graph,
            *g == old(self).graph_value(),
            final(self)@ == (MachineModel { graph: final(g)@, ..old(self)@ }),
            final(self).graph_value() == *final(g),
    {
        &mut self.graph
    }

    /// Gives the graph back, ending the machine.
    pub fn graph(self) -> (g: TuringGraph<S, T>)
        ensures
            g@ == self@.graph,
            g == self.graph_value(),
    {
        self.graph
    }

    /// The id of the current state.
    pub fn get_state_pointer(&self) -> (id: usize)
        ensures
            id == self@.state,
    {
        self.data.state_pointer
    }

    fn set_state_pointer(&mut self, new_val: usize)
        ensures
            final(self).graph_value() == old(self).graph_value(),
            final(self)@ == (MachineModel { state: new_val, ..old(self)@ }),
    {
        self.data.state_pointer = new_val;
    }

    /// The word the machine reads.
    pub fn get_word(&self) -> (w: &String)
        ensures
            w@ == self@.word,
    {
        &self.data.word
    }

    fn set_word(&mut self, word: &String)
        ensures
            final(self).graph_value() == old(self).graph_value(),
            final(self)@ == (MachineModel { word: word@, ..old(self)@ }),
    {
        self.data.word = word.clone();
    }

    fn is_first_iteration(&self) -> (b: bool)
        ensures
            b == self@.first,
    {
        self.data.is_first_state
    }

    fn set_first_iteration(&mut self, set: bool)
        ensures
            final(self).graph_value() == old(self).graph_value(),
            final(self)@ == (MachineModel { first: set, ..old(self)@ }),
    {
        self.data.is_first_state = set;
    }

    /// How the execution goes on.
    pub fn get_mode(&self) -> (m: &Mode)
        ensures
            *m == self@.mode,
    {
        &self.data.mode
    }

    /// The saved points of the exploration, the most recent first.
    pub fn get_memory(&self) -> (mem: &VecDeque<SavedState>)
        ensures
            mem@.map_values(|s: SavedState| s@) == self@.memory,
    {
        &self.data.memory
    }

    fn get_backtracking_info(&self) -> (b: Option<(usize, usize)>)
        ensures
            b == self@.backtrack,
    {
        self.data.backtracked_info
    }

    fn set_backtracking_info(&mut self, val: Option<(usize, usize)>)
        ensures
            final(self).graph_value() == old(self).graph_value(),
            final(self)@ == (MachineModel { backtrack: val, ..old(self)@ }),
    {
        self.data.backtracked_info = val;
    }

    fn set_iteration(&mut self, val: usize)
        ensures
            final(self).graph_value() == old(self).graph_value(),
            final(self)@ == (MachineModel { iteration: val, ..old(self)@ }),
    {
        self.iteration = val;
    }

    /// The number of iterations done.
    pub fn get_iteration(&self) -> (n: usize)
        ensures
            n == self@.iteration,
    {
        self.iteration
    }

    /// The last step returned, if any.
    pub fn get_last_step(&self) -> (s: &Option<TuringExecutionSteps>)
        ensures
            match *s {
                Some(st) => self@.last_step == Some(st@),
                None => self@.last_step is None,
            },
    {
        &self.last_iteration
    }

    fn set_last_step(&mut self, step: Option<TuringExecutionSteps>)
        ensures
            final(self).graph_value() == old(self).graph_value(),
            final(self)@ == (MachineModel {
                last_step: match step {
                    Some(s) => Some(s@),
                    None => None,
                },
                ..old(self)@
            }),
    {
        self.last_iteration = step;
    }

    /// Whether the execution is over.
    pub fn is_over(&self) -> (b: bool)
        ensures
            b == self@.over,
    {
        self.is_over
    }

    fn set_is_over(&mut self, val: bool)
        ensures
            final(self).graph_value() == old(self).graph_value(),
            final(self)@ == (MachineModel { over: val, ..old(self)@ }),
    {
        self.is_over = val;
    }
}


/// The abstract content of an optional step.
pub open spec fn step_view(o: Option<TuringExecutionSteps>) -> Option<StepModel> {
    match o {
        Some(s) => Some(s@),
        None => None,
    }
}

impl<S: TuringState, T: TuringTransition> TuringMachine<S, T> {
    /// The characters under the heads of the tapes.
    fn current_chars(&self) -> (v: Vec<char>)
        requires
            self.wf(),
        ensures
            v@ == chars_under(self@.tapes),
    {
        let mut v: Vec<char> = Vec::new();
        let mut i: usize = 0;
        while i < self.data.tapes.len()
            invariant
                self.wf(),
                0 <= i <= self.data.tapes@.len(),
                v@.len() == i,
                forall|j: int| 0 <= j < i ==> v@[j] == self@.tapes[j].current(),
            decreases self.data.tapes.len() - i,
        {
            assert(self@.tapes[i as int] == self.data.tapes@[i as int]@);
            if i == 0 {
                assert(self@.tapes[0].reading_ok(self@.word));
            } else {
                assert(self@.tapes[i as int].writing_ok());
            }
            v.push(self.data.tapes[i].read_curr_char());
            i = i + 1;
        }
        assert(v@ =~= chars_under(self@.tapes));
        v
    }

    /// The information of the state `id`.
    fn state_info(&self, id: usize) -> (i: TuringStateInfo)
        requires
            self@.graph.wf(),
            self@.graph.states.contains_key(id),
        ensures
            i@ == self@.graph.states[id],
    {
        match self.graph.get_state(id) {
            Ok(w) => w.get_info().duplicate(),
            Err(_) => vstd::pervasive::unreached(),
        }
    }
}


/// Applies a multi-tape transition to the tapes: the reading tape writes back what it reads
/// and writing tape `i` writes `b_i`, each head moving as the transition says.
fn apply_mult_to(tapes: &mut Vec<TuringTape>, t: &TransitionMultRibbonInfo)
    requires
        t@.chars_read.len() == old(tapes)@.len(),
        t@.chars_write.len() + 1 == old(tapes)@.len(),
        forall|j: int| 0 <= j < old(tapes)@.len() ==> (#[trigger] old(tapes)@[j]).wf(),
    ensures
        tapes_view(final(tapes)@) == apply_mult(tapes_view(old(tapes)@), t@),
{
    let ghost t0 = tapes_view(tapes@);
    let ghost goal = apply_mult(t0, t@);
    let n = tapes.len();
    let mut i: usize = 0;
    while i < n
        invariant
            n == tapes@.len(),
            t0.len() == n,
            goal == apply_mult(t0, t@),
            t@.chars_read.len() == n,
            t@.chars_write.len() + 1 == n,
            0 <= i <= n,
            forall|j: int| 0 <= j < n ==> (#[trigger] t0[j]).wf(),
            forall|j: int| 0 <= j < n ==> (#[trigger] tapes@[j])@ == (if j < i { goal[j] } else { t0[j] }),
        decreases n - i,
    {
        let mut tape = tapes[i].snapshot();
        assert(tape@ == t0[i as int]);
        let c = t.chars_read[i];
        assert(c == char_at(t@.chars_read, i as int));
        if i == 0 {
            let _ = tape.try_apply_transition(&MatchSymbol::Char(c), c, &t.move_read);
        } else {
            let (w, d) = t.chars_write[i - 1];
            let _ = tape.try_apply_transition(&MatchSymbol::Char(c), w, &d);
        }
        assert(tape@ == goal[i as int]);
        tapes.set(i, tape);
        i = i + 1;
    }
    assert(tapes_view(tapes@) =~= goal);
}

impl<S: TuringState, T: TuringTransition> TuringMachine<S, T> {
    /// Takes the transition at position `idx` from the current state `cur` to `to`: applies
    /// it to the tapes and moves to `to`; `prev` is the number of iterations done before.
    fn take_transition(&mut self, cur: TuringStateInfo, to: usize, idx: usize, prev: usize) -> (step:
        TuringExecutionSteps)
        requires
            old(self)@.graph.wf(),
            old(self)@.graph.states.contains_key(old(self)@.state),
            cur@ == old(self)@.graph.states[old(self)@.state],
            valid_move(old(self)@.graph, old(self)@.state, to, idx, chars_under(old(self)@.tapes)),
            old(self)@.tapes.len() == old(self)@.graph.k + 1,
            forall|j: int| 0 <= j < old(self)@.tapes.len() ==> (#[trigger] old(self)@.tapes[j]).wf(),
        ensures
            final(self).graph_value() == old(self).graph_value(),
            final(self)@ == old(self)@.take(cur@, to, idx, prev).0,
            Some(step@) == old(self)@.take(cur@, to, idx, prev).1,
    {
        let ghost m = self@;
        let from = cur.get_id();
        assert(from == m.state);
        let info = self.graph.get_transition_at(from, to, idx).info.duplicate();
        let ghost tv = tapes_view(self.data.tapes@);
        assert forall|j: int| 0 <= j < self.data.tapes@.len() implies (#[trigger] self.data.tapes@[j]).wf() by {
            assert(tv[j] == self.data.tapes@[j]@);
        }
        match &info {
            TransitionsInfo::MultipleTapes(t) => {
                assert(t@.chars_read == chars_under(m.tapes));
                assert(m.graph.edge_wf(m.graph.edges[m.graph.edge_position(from, to)]));
                assert(info@ == m.graph.edges[m.graph.edge_position(from, to)].infos[idx as int]);
                assert(info@.tapes() == m.graph.k + 1);
                apply_mult_to(&mut self.data.tapes, t);
            },
            TransitionsInfo::OneTape(t) => {
                assert(m.tapes.len() == 1);
                let mut tape = self.data.tapes[0].snapshot();
                let _ = tape.try_apply_transition(&t.chars_read, t.replace_with, &t.move_pointer);
                self.data.tapes.set(0, tape);
                assert(tapes_view(self.data.tapes@) =~= apply_one(m.tapes, *t));
            },
        }
        self.data.state_pointer = to;
        assert(m.graph.edge_wf(m.graph.edges[m.graph.edge_position(from, to)]));
        let reached = self.state_info(to);
        let tapes = copy_tapes(&self.data.tapes);
        TuringExecutionSteps::TransitionTaken {
            previous_state: cur,
            transition_index: (from, idx, to),
            reached_state: reached,
            state_pointer: to,
            transition_taken: info,
            tapes,
            iteration: prev,
        }
    }

    /// Goes back to the most recent saved point and picks the next transition left there;
    /// `cur` is the state being left and `prev` the number of iterations done before.
    fn go_back(&mut self, cur: TuringStateInfo, prev: usize) -> (step: TuringExecutionSteps)
        requires
            old(self)@.graph.wf(),
            old(self)@.memory.len() > 0,
            old(self)@.saved_ok(old(self)@.memory[0]),
        ensures
            final(self).graph_value() == old(self).graph_value(),
            final(self)@ == old(self)@.go_back(cur@, prev).0,
            Some(step@) == old(self)@.go_back(cur@, prev).1,
    {
        let ghost m = self@;
        let ghost mem = self.data.memory@;
        let mut saved = match self.data.memory.pop_front() {
            Some(s) => s,
            None => vstd::pervasive::unreached(),
        };
        assert(saved@ == m.memory[0]);
        let next = match saved.next_transitions.pop_front() {
            Some(n) => n,
            None => vstd::pervasive::unreached(),
        };
        let st = saved.saved_state_index;
        let back = saved.iteration;
        self.data.state_pointer = st;
        self.data.tapes = copy_tapes(&saved.saved_tapes);
        self.data.backtracked_info = Some(next);
        let reached = self.state_info(st);
        let tapes = copy_tapes(&self.data.tapes);
        if saved.next_transitions.len() > 0 {
            self.data.memory.push_front(saved);
            assert(self.data.memory@.map_values(|s: SavedState| s@) =~= m.memory.update(
                0,
                SavedModel { next: m.memory[0].next.drop_first(), ..m.memory[0] },
            ));
        } else {
            assert(self.data.memory@.map_values(|s: SavedState| s@) =~= m.memory.drop_first());
        }
        TuringExecutionSteps::Backtracked {
            previous_state: cur,
            reached_state: reached,
            state_pointer: st,
            tapes,
            iteration: prev,
            backtracked_iteration: back,
        }
    }
}

impl<S: TuringState, T: TuringTransition> TuringMachine<S, T> {
    /// Adds a saved point at the front of the memory.
    fn push_to_memory_stack(&mut self, to_save: SavedState)
        ensures
            final(self).graph_value() == old(self).graph_value(),
            final(self)@ == (MachineModel { memory: seq![to_save@] + old(self)@.memory, ..old(self)@ }),
    {
        let ghost m = self@;
        self.data.memory.push_front(to_save);
        assert(self.data.memory@.map_values(|s: SavedState| s@) =~= seq![to_save@] + m.memory);
    }

    /// Makes one step of the execution, as [`MachineModel::step`] describes.
    fn next_iteration(&mut self) -> (r: Option<TuringExecutionSteps>)
        requires
            old(self).wf(),
        ensures
            final(self).graph_value() == old(self).graph_value(),
            (final(self)@, step_view(r)) == old(self)@.step(),
    {
        let ghost m = self@;
        let prev = self.iteration;
        let stop = match self.data.mode {
            Mode::StopAfter(nb) => nb == prev,
            _ => false,
        };
        if stop || prev == usize::MAX {
            return None;
        }
        self.set_iteration(prev + 1);
        let cur = self.state_info(self.data.state_pointer);
        if let Some(b) = self.get_backtracking_info() {
            self.set_backtracking_info(None);
            proof {
                assert(self@.tapes == m.tapes);
                assert forall|j: int| 0 <= j < self@.tapes.len() implies (#[trigger] self@.tapes[j]).wf() by {
                    if j == 0 {
                        assert(m.tapes[0].reading_ok(m.word));
                    } else {
                        assert(m.tapes[j].writing_ok());
                    }
                }
            }
            return Some(self.take_transition(cur, b.0, b.1, prev));
        }
        if self.is_first_iteration() {
            self.set_first_iteration(false);
            let tapes = copy_tapes(&self.data.tapes);
            return Some(TuringExecutionSteps::FirstIteration { init_state: cur, init_tapes: tapes });
        }
        if cur.get_type() == TuringStateType::Accepting {
            return None;
        }
        assert(self.wf());
        let chars = self.current_chars();
        let nexts = self.graph.get_valid_transitions_indexes(cur.get_id(), &chars);
        proof {
            assert(cur@.id == m.state);
            lemma_moves_sound(m.graph, m.state, chars@);
            assert forall|j: int| 0 <= j < self@.tapes.len() implies (#[trigger] self@.tapes[j]).wf() by {
                if j == 0 {
                    assert(m.tapes[0].reading_ok(m.word));
                } else {
                    assert(m.tapes[j].writing_ok());
                }
            }
        }
        if nexts.len() == 0 || cur.get_type() == TuringStateType::Rejecting {
            if self.data.mode == Mode::StopFirstReject || self.data.memory.len() == 0 {
                return None;
            }
            assert(m.saved_ok(m.memory[0]));
            return Some(self.go_back(cur, prev));
        }
        let first = nexts[0];
        if nexts.len() >= 2 {
            let mut rest: VecDeque<(usize, usize)> = VecDeque::new();
            let mut j: usize = 1;
            while j < nexts.len()
                invariant
                    1 <= j <= nexts@.len(),
                    rest@ == nexts@.subrange(1, j as int),
                decreases nexts.len() - j,
            {
                rest.push_back(nexts[j]);
                j = j + 1;
                assert(rest@ =~= nexts@.subrange(1, j as int));
            }
            assert(rest@ =~= nexts@.drop_first());
            let to_save = SavedState {
                saved_state_index: self.data.state_pointer,
                next_transitions: rest,
                saved_tapes: copy_tapes(&self.data.tapes),
                iteration: prev - 1,
            };
            self.push_to_memory_stack(to_save);
        }
        Some(self.take_transition(cur, first.0, first.1, prev))
    }

    /// Makes one step of the execution and returns it, recording it as the last step; or,
    /// when the execution is over, records that and returns `None`.
    ///
    /// The step taken must not make a tape fail (see [`MachineModel::step_safe`]): every step
    /// of a graph whose transitions all are safe is (see [`lemma_runnable_step_safe`]).
    pub fn next(&mut self) -> (r: Option<TuringExecutionSteps>)
        requires
            old(self).wf(),
            old(self)@.step_safe(),
        ensures
            final(self).graph_value() == old(self).graph_value(),
            final(self).wf(),
            (final(self)@, step_view(r)) == old(self)@.advance(),
            !old(self)@.first && old(self)@.backtrack is None && old(self)@.graph.states[old(
                self,
            )@.state].state_type == TuringStateType::Accepting ==> {
                &&& r is None
                &&& final(self)@.state == old(self)@.state
                &&& final(self)@.tapes == old(self)@.tapes
                &&& final(self)@.memory == old(self)@.memory
            },
            r matches Some(st) ==> {
                &&& st@.state_pointer() == final(self)@.state
                &&& st@.current_state() == final(self)@.graph.states[final(self)@.state]
                &&& (st@ is FirstIteration ==> final(self)@.state == 0)
            },
    {
        proof {
            lemma_step_wf(self@);
            if self@.step().1 is Some {
                lemma_step_pointer(self@);
            }
        }
        match self.next_iteration() {
            Some(step) => {
                self.set_last_step(Some(step.duplicate()));
                Some(step)
            },
            None => {
                self.set_is_over(true);
                None
            },
        }
    }
}

impl TuringExecutionSteps {
    /// The state the step ends in.
    pub fn get_current_state(&self) -> (st: &TuringStateInfo)
        ensures
            st@ == self@.current_state(),
    {
        match self {
            TuringExecutionSteps::FirstIteration { init_state, .. } => init_state,
            TuringExecutionSteps::TransitionTaken { reached_state, .. } => reached_state,
            TuringExecutionSteps::Backtracked { reached_state, .. } => reached_state,
        }
    }

    /// The state the step left, if it left one.
    pub fn get_previous_state(&self) -> (st: Option<&TuringStateInfo>)
        ensures
            match self@ {
                StepModel::FirstIteration { .. } => st is None,
                StepModel::TransitionTaken { previous_state, .. } => st matches Some(p) && p@ == previous_state,
                StepModel::Backtracked { previous_state, .. } => st matches Some(p) && p@ == previous_state,
            },
    {
        match self {
            TuringExecutionSteps::FirstIteration { .. } => None,
            TuringExecutionSteps::TransitionTaken { previous_state, .. } => Some(previous_state),
            TuringExecutionSteps::Backtracked { previous_state, .. } => Some(previous_state),
        }
    }

    /// The number of iterations done before the step (0 for the first one).
    pub fn get_nb_iterations(&self) -> (n: usize)
        ensures
            n == self@.nb_iterations(),
    {
        match self {
            TuringExecutionSteps::FirstIteration { .. } => 0,
            TuringExecutionSteps::TransitionTaken { iteration, .. } => *iteration,
            TuringExecutionSteps::Backtracked { iteration, .. } => *iteration,
        }
    }

    /// The id of the state the step ends in (0 for the first one).
    pub fn get_state_pointer(&self) -> (id: usize)
        ensures
            id == self@.state_pointer(),
    {
        match self {
            TuringExecutionSteps::FirstIteration { .. } => 0,
            TuringExecutionSteps::TransitionTaken { state_pointer, .. } => *state_pointer,
            TuringExecutionSteps::Backtracked { state_pointer, .. } => *state_pointer,
        }
    }

    /// The tapes once the step is made.
    pub fn get_tapes(&self) -> (t: &Vec<TuringTape>)
        ensures
            tapes_view(t@) == match self@ {
                StepModel::FirstIteration { init_tapes, .. } => init_tapes,
                StepModel::TransitionTaken { tapes, .. } => tapes,
                StepModel::Backtracked { tapes, .. } => tapes,
            },
    {
        match self {
            TuringExecutionSteps::FirstIteration { init_tapes, .. } => init_tapes,
            TuringExecutionSteps::TransitionTaken { tapes, .. } => tapes,
            TuringExecutionSteps::Backtracked { tapes, .. } => tapes,
        }
    }
}

/// The abstract content of a sequence of steps.
pub open spec fn steps_view(v: Seq<TuringExecutionSteps>) -> Seq<StepModel> {
    v.map_values(|s: TuringExecutionSteps| s@)
}

/// The steps of an execution from `m` on, until it ends.
pub open spec fn run_steps(m: MachineModel) -> Seq<StepModel>
    decreases usize::MAX - m.iteration,
{
    let (n, r) = m.advance();
    match r {
        Some(s) => if n.iteration > m.iteration {
            seq![s] + run_steps(n)
        } else {
            seq![s]
        },
        None => Seq::empty(),
    }
}

/// `path` once its last steps are dropped until one reports `n` iterations (or none is left).
pub open spec fn pop_to(path: Seq<StepModel>, n: usize) -> Seq<StepModel>
    decreases path.len(),
{
    if path.len() == 0 || path.last().nb_iterations() == n {
        path
    } else {
        pop_to(path.drop_last(), n)
    }
}

/// The steps of `steps` that lead to where the execution stands: each step is added to the
/// path, but going back drops the path down to the step that had reached the saved point.
pub open spec fn path_after(steps: Seq<StepModel>) -> Seq<StepModel>
    decreases steps.len(),
{
    if steps.len() == 0 {
        Seq::empty()
    } else {
        let p = path_after(steps.drop_last());
        match steps.last() {
            StepModel::Backtracked { backtracked_iteration, .. } => pop_to(p, backtracked_iteration),
            _ => p.push(steps.last()),
        }
    }
}

/// Whether a complete execution made of `steps` made a step and ended in an accepting state.
pub open spec fn ends_accepting(steps: Seq<StepModel>) -> bool {
    steps.len() > 0 && steps.last().current_state().state_type == TuringStateType::Accepting
}

/// Whether no step of the execution from `m` on can make a tape fail.
pub open spec fn run_safe(m: MachineModel) -> bool
    decreases usize::MAX - m.iteration,
{
    &&& m.step_safe()
    &&& {
        let (n, r) = m.advance();
        r is Some && n.iteration > m.iteration ==> run_safe(n)
    }
}

/// In a graph whose transitions all are safe, no step of a valid machine can make a tape fail.
pub proof fn lemma_runnable_run_safe(m: MachineModel)
    requires
        m.wf(),
        runnable(m.graph),
    ensures
        run_safe(m),
    decreases usize::MAX - m.iteration,
{
    lemma_runnable_step_safe(m);
    lemma_step_wf(m);
    let (n, r) = m.advance();
    if r is Some && n.iteration > m.iteration {
        lemma_runnable_run_safe(n);
    }
}

/// A step that is reported names the state the machine is in once it is made: the step's
/// state pointer is the machine's, and its current state is that state (the initial state,
/// id 0, for the first step).
pub proof fn lemma_step_pointer(m: MachineModel)
    requires
        m.wf(),
        m.step().1 is Some,
    ensures
        m.step().1->0.state_pointer() == m.step().0.state,
        m.step().1->0.current_state() == m.graph.states[m.step().0.state],
        m.step().1->0 is FirstIteration ==> m.step().0.state == 0,
{
}

/// An accepting state ends the execution: once past the first step, with no transition
/// pending after going back, a step from an accepting state reports nothing and leaves the
/// state, the tapes and the saved points as they are, whatever the mode and whatever choices
/// are left to explore.
pub proof fn lemma_accepting_stops(m: MachineModel)
    requires
        m.wf(),
        !m.first,
        m.backtrack is None,
        m.graph.states[m.state].state_type == TuringStateType::Accepting,
    ensures
        m.step().1 is None,
        m.step().0.state == m.state,
        m.step().0.tapes == m.tapes,
        m.step().0.memory == m.memory,
        m.advance().1 is None,
        m.advance().0.over,
{
}

/// A rejecting state rejects at once: no transition is taken from it. The execution goes back
/// to the most recent saved point or ends; under [`Mode::StopFirstReject`] it ends there, with
/// the state, the tapes and the memory unchanged.
pub proof fn lemma_rejecting_stops(m: MachineModel)
    requires
        m.wf(),
        !m.first,
        m.backtrack is None,
        m.graph.states[m.state].state_type == TuringStateType::Rejecting,
    ensures
        !(m.step().1 matches Some(StepModel::TransitionTaken { .. })),
        m.mode == Mode::StopFirstReject ==> {
            &&& m.step().1 is None
            &&& m.step().0.state == m.state
            &&& m.step().0.tapes == m.tapes
            &&& m.step().0.memory == m.memory
        },
{
}

/// A step that is reported counts one more iteration.
pub proof fn lemma_step_counts(m: MachineModel)
    requires
        m.step().1 is Some,
    ensures
        m.step().0.iteration == m.iteration + 1,
        m.advance().0.iteration == m.iteration + 1,
{
}

impl<S: TuringState, T: TuringTransition> TuringMachine<S, T> {
    /// Runs the execution from its start and returns the steps of a path to an accepting
    /// state: the steps undone by going back are left out. Returns `None` when no path to an
    /// accepting state is found: the execution makes no step, or ends elsewhere than in an
    /// accepting state.
    ///
    /// `exit_condition` is asked before each step is kept; the run stops, returning `None`, as
    /// soon as it answers `false`.
    pub fn get_path_to_accept<F: FnMut() -> bool>(&mut self, exit_condition: F) -> (r: Option<
        Vec<TuringExecutionSteps>,
    >)
        requires
            old(self).wf(),
            run_safe(MachineModel::started(old(self)@.graph, old(self)@.word, old(self)@.mode)),
            call_requires(exit_condition, ()),
        ensures
            final(self).graph_value() == old(self).graph_value(),
            final(self).wf(),
            final(self)@.graph == old(self)@.graph,
            final(self)@.word == old(self)@.word,
            final(self)@.mode == old(self)@.mode,
            ({
                let steps = run_steps(MachineModel::started(old(self)@.graph, old(self)@.word, old(self)@.mode));
                match r {
                    Some(p) => ends_accepting(steps) && steps_view(p@) == path_after(steps),
                    None => true,
                }
            }),
            (forall|b: bool| call_ensures(exit_condition, (), b) ==> b) ==> (r is None <==> !ends_accepting(
                run_steps(MachineModel::started(old(self)@.graph, old(self)@.word, old(self)@.mode)),
            )),
            (forall|b: bool| call_ensures(exit_condition, (), b) ==> !b) ==> r is None,
    {
        let ghost f0 = exit_condition;
        let mut ask = exit_condition;
        self.reset();
        let ghost start = self@;
        let ghost mut done: Seq<StepModel> = Seq::empty();
        let mut path: Vec<TuringExecutionSteps> = Vec::new();
        let mut last_type: Option<TuringStateType> = None;
        loop
            invariant
                self.wf(),
                run_safe(self@),
                start == MachineModel::started(old(self)@.graph, old(self)@.word, old(self)@.mode),
                self@.graph == start.graph,
                self.graph_value() == old(self).graph_value(),
                self@.word == start.word,
                self@.mode == start.mode,
                ask == f0,
                f0 == exit_condition,
                call_requires(f0, ()),
                (forall|b: bool| call_ensures(f0, (), b) ==> !b) ==> done.len() == 0,
                run_steps(start) == done + run_steps(self@),
                steps_view(path@) == path_after(done),
                last_type == (if done.len() == 0 {
                    None
                } else {
                    Some(done.last().current_state().state_type)
                }),
            ensures
                run_steps(start) == done,
            decreases usize::MAX - self@.iteration,
        {
            let ghost m = self@;
            proof {
                lemma_step_wf(m);
            }
            let step = match self.next() {
                Some(s) => s,
                None => {
                    proof {
                        assert(m.step().1 is None);
                        assert(self@.step().1 is None);
                        assert(run_steps(self@) =~= Seq::<StepModel>::empty());
                        assert(done + run_steps(self@) =~= done);
                    }
                    break;
                },
            };
            proof {
                assert(self@.graph == m.graph && self@.word == m.word && self@.mode == m.mode);
                lemma_step_counts(m);
                assert(run_steps(m) == seq![step@] + run_steps(self@));
                assert(done + run_steps(m) =~= done.push(step@) + run_steps(self@));
            }
            let go_on = ask();
            if !go_on {
                assert(call_ensures(exit_condition, (), false));
                return None;
            }
            last_type = Some(step.get_current_state().get_type());
            let back = match &step {
                TuringExecutionSteps::Backtracked { backtracked_iteration, .. } => Some(*backtracked_iteration),
                _ => None,
            };
            let ghost before = steps_view(path@);
            match back {
                Some(b) => {
                    while path.len() > 0 && path[path.len() - 1].get_nb_iterations() != b
                        invariant
                            pop_to(steps_view(path@), b) == pop_to(before, b),
                        decreases path.len(),
                    {
                        let ghost pv = steps_view(path@);
                        path.pop();
                        assert(steps_view(path@) =~= pv.drop_last());
                    }
                    assert(pop_to(steps_view(path@), b) == steps_view(path@));
                },
                None => {
                    path.push(step);
                    assert(steps_view(path@) =~= before.push(steps_view(path@).last()));
                },
            }
            proof {
                let nd = done.push(self@.last_step->Some_0);
                assert(nd.drop_last() =~= done);
                done = nd;
            }
        }
        match last_type {
            Some(t) => {
                if t != TuringStateType::Accepting {
                    return None;
                }
            },
            None => {
                return None;
            },
        }
        Some(path)
    }
}

/// The texts of tapes, one after the other, separated by line ends.
pub open spec fn tapes_text(ts: Seq<TapeModel>) -> Seq<char>
    decreases ts.len(),
{
    if ts.len() == 0 {
        Seq::empty()
    } else if ts.len() == 1 {
        tape_text(ts[0].cells, ts[0].head as usize, false)
    } else {
        tapes_text(ts.drop_last()) + "\n"@ + tape_text(ts.last().cells, ts.last().head as usize, false)
    }
}

/// The text of a step for a human reader: the states it went between (and the transition or
/// the iteration it went back to), then its tapes.
pub open spec fn step_text(st: StepModel) -> Seq<char> {
    match st {
        StepModel::FirstIteration { init_state, init_tapes } => "* Initial state : "@ + state_info_text(
            init_state,
        ) + "\n* Tapes:\n"@ + tapes_text(init_tapes),
        StepModel::TransitionTaken { previous_state, reached_state, transition_taken, tapes, .. } =>
            "* Left state : "@ + state_info_text(previous_state) + "\n* Current state : "@
                + state_info_text(reached_state) + "\n* Took the following transition : "@ + info_text(
            transition_taken,
        ) + "\n* Tapes:\n"@ + tapes_text(tapes),
        StepModel::Backtracked { previous_state, reached_state, tapes, backtracked_iteration, .. } =>
            "* Backtracked from : "@ + state_info_text(previous_state) + "\n* To  : "@ + state_info_text(
            reached_state,
        ) + "(back to iteration: "@ + decimal(backtracked_iteration as nat) + ")\n* Tapes:\n"@
            + tapes_text(tapes),
    }
}

/// Appends the texts of `tapes`, separated by line ends, to `s`.
fn push_tapes(s: &mut String, tapes: &Vec<TuringTape>)
    ensures
        final(s)@ == old(s)@ + tapes_text(tapes_view(tapes@)),
{
    let ghost s0 = s@;
    let ghost tv = tapes_view(tapes@);
    let mut i: usize = 0;
    while i < tapes.len()
        invariant
            0 <= i <= tapes@.len(),
            tv == tapes_view(tapes@),
            s@ == s0 + tapes_text(tv.take(i as int)),
        decreases tapes.len() - i,
    {
        if i > 0 {
            push_text(s, "\n");
        }
        let t = tapes[i].to_text();
        push_text(s, t.as_str());
        i = i + 1;
        proof {
            let p = tv.take(i as int);
            assert(p.drop_last() =~= tv.take(i - 1));
            assert(p.last() == tapes@[i - 1]@);
            if i == 1 {
                assert(tv.take(0) =~= Seq::<TapeModel>::empty());
            }
            assert(s@ =~= s0 + tapes_text(p));
        }
    }
    assert(tv.take(i as int) =~= tv);
}

impl TuringExecutionSteps {
    /// The text of this step for a human reader (see [`step_text`]).
    pub fn to_text(&self) -> (s: String)
        ensures
            s@ == step_text(self@),
    {
        let mut s = String::new();
        match self {
            TuringExecutionSteps::FirstIteration { init_state, init_tapes } => {
                push_text(&mut s, "* Initial state : ");
                init_state.push_text_to(&mut s);
                push_text(&mut s, "\n* Tapes:\n");
                push_tapes(&mut s, init_tapes);
            },
            TuringExecutionSteps::TransitionTaken { previous_state, reached_state, transition_taken, tapes, .. } => {
                push_text(&mut s, "* Left state : ");
                previous_state.push_text_to(&mut s);
                push_text(&mut s, "\n* Current state : ");
                reached_state.push_text_to(&mut s);
                push_text(&mut s, "\n* Took the following transition : ");
                transition_taken.push_text_to(&mut s);
                push_text(&mut s, "\n* Tapes:\n");
                push_tapes(&mut s, tapes);
            },
            TuringExecutionSteps::Backtracked { previous_state, reached_state, tapes, backtracked_iteration, .. } => {
                push_text(&mut s, "* Backtracked from : ");
                previous_state.push_text_to(&mut s);
                push_text(&mut s, "\n* To  : ");
                reached_state.push_text_to(&mut s);
                push_text(&mut s, "(back to iteration: ");
                push_decimal(&mut s, *backtracked_iteration);
                push_text(&mut s, ")\n* Tapes:\n");
                push_tapes(&mut s, tapes);
            },
        }
        assert(s@ =~= step_text(self@));
        s
    }
}

/// The description of a mode.
pub open spec fn mode_text(m: Mode) -> Seq<char> {
    match m {
        Mode::SaveAll => "Saves All and does a full exploration"@,
        Mode::StopAfter(n) => "Stops After "@ + decimal(n as nat) + " iterations"@,
        Mode::StopFirstReject => "Stops after the First Reject"@,
    }
}

impl Mode {
    /// The description of this mode.
    pub fn to_text(&self) -> (s: String)
        ensures
            s@ == mode_text(*self),
    {
        let mut s = String::new();
        match self {
            Mode::SaveAll => push_text(&mut s, "Saves All and does a full exploration"),
            Mode::StopAfter(n) => {
                push_text(&mut s, "Stops After ");
                push_decimal(&mut s, *n);
                push_text(&mut s, " iterations");
            },
            Mode::StopFirstReject => push_text(&mut s, "Stops after the First Reject"),
        }
        assert(s@ =~= mode_text(*self));
        s
    }
}

/// Once the execution is over, it stays over: the step after a step that reports nothing
/// reports nothing either.
pub proof fn lemma_over_stays_over(m: MachineModel)
    requires
        m.advance().1 is None,
    ensures
        m.advance().0.advance().1 is None,
{
    let n = m.advance().0;
    assert(n.step().1 is None);
}

/// A transition that passes the checks of [`TransitionMultRibbonInfo::create`] and writes no
/// `END_CHAR` cannot make a tape fail.
pub proof fn lemma_valid_is_safe(t: MultModel)
    requires
        mult_valid(t),
        forall|i: int| 0 <= i < t.chars_write.len() ==> (#[trigger] t.chars_write[i]).0 != END_CHAR,
    ensures
        safe_mult(t),
{
    let directions = seq![t.move_read] + t.chars_write.map_values(|p: (char, TuringDirection)| p.1);
    let writes = t.chars_write.map_values(|p: (char, TuringDirection)| p.0);
    assert forall|i: int| 1 <= i < t.chars_read.len() implies {
        &&& !(#[trigger] char_at(t.chars_read, i) == INIT_CHAR && t.chars_write[i - 1].1 == TuringDirection::Left)
        &&& (char_at(t.chars_read, i) == INIT_CHAR ==> t.chars_write[i - 1].0 == INIT_CHAR)
        &&& (char_at(t.chars_read, i) != INIT_CHAR ==> t.chars_write[i - 1].0 != INIT_CHAR)
        &&& t.chars_write[i - 1].0 != END_CHAR
    } by {
        assert(directions[i] == t.chars_write[i - 1].1);
        assert(writes[i - 1] == t.chars_write[i - 1].0);
        assert(t.chars_write[i - 1].0 != END_CHAR);
    }
}

} // verus!
