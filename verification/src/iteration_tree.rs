//! The tree of an execution: one node per step, each under the step it went on from, so that
//! going back to a saved point opens a new branch.
use vstd::prelude::*;

use crate::turing_graph::TuringStateType;
use crate::turing_machine::{StepModel, TuringExecutionSteps, tapes_view};
use crate::turing_tape::{TapeModel, TuringTape};

verus! {

/// The kind of a node: a step that reached an accepting state, a step that went back (the
/// branch it ends was rejected), or another step.
#[derive(Debug, Clone, Copy, PartialEq, Eq, Structural)]
pub enum NodeType {
    Normal,
    Rejecting,
    Accepting,
}

/// A node of the tree: the tapes after the step, its kind, the nodes under it (by the
/// iteration of their step) and the node it is under.
#[derive(Debug)]
pub struct TreeNode {
    pub tapes: Vec<TuringTape>,
    pub node_type: NodeType,
    pub children: Vec<usize>,
    pub parent_id: Option<usize>,
}

/// The abstract content of a [`TreeNode`].
pub struct TreeNodeModel {
    pub tapes: Seq<TapeModel>,
    pub node_type: NodeType,
    pub children: Seq<usize>,
    pub parent_id: Option<usize>,
}

impl View for TreeNode {
    type V = TreeNodeModel;

    open spec fn view(&self) -> TreeNodeModel {
        TreeNodeModel {
            tapes: tapes_view(self.tapes@),
            node_type: self.node_type,
            children: self.children@,
            parent_id: self.parent_id,
        }
    }
}

/// The tree of an execution, and the node the next step goes under.
#[derive(Debug)]
pub struct IterationTree {
    nodes: Vec<TreeNode>,
    next_parent: usize,
}

/// The abstract content of an [`IterationTree`].
pub struct TreeModel {
    pub nodes: Seq<TreeNodeModel>,
    pub next_parent: usize,
}

impl View for IterationTree {
    type V = TreeModel;

    closed spec fn view(&self) -> TreeModel {
        TreeModel { nodes: self.nodes@.map_values(|n: TreeNode| n@), next_parent: self.next_parent }
    }
}

impl TreeModel {
    /// The tree once the step `st` is added.
    ///
    /// A first step starts a new tree made of its node alone. Any other step is added under
    /// the node the tree was waiting on, whose children gain the step's iteration; the tree
    /// then waits on the step's iteration, or, after going back, on the iteration gone back
    /// to. A step reaching an accepting state makes an accepting node, a step going back a
    /// rejecting one.
    pub open spec fn added(self, st: StepModel) -> TreeModel {
        match st {
            StepModel::FirstIteration { init_tapes, .. } => TreeModel {
                nodes: seq![
                    TreeNodeModel {
                        tapes: init_tapes,
                        node_type: NodeType::Normal,
                        children: Seq::empty(),
                        parent_id: None,
                    },
                ],
                next_parent: 0,
            },
            _ => {
                let p = self.next_parent;
                let nodes = if p < self.nodes.len() {
                    self.nodes.update(
                        p as int,
                        TreeNodeModel {
                            children: self.nodes[p as int].children.push(st.nb_iterations()),
                            ..self.nodes[p as int]
                        },
                    )
                } else {
                    self.nodes
                };
                let (tapes, node_type, next) = match st {
                    StepModel::TransitionTaken { reached_state, tapes, iteration, .. } => (
                        tapes,
                        if reached_state.state_type == TuringStateType::Accepting {
                            NodeType::Accepting
                        } else {
                            NodeType::Normal
                        },
                        iteration,
                    ),
                    StepModel::Backtracked { tapes, backtracked_iteration, .. } => (
                        tapes,
                        NodeType::Rejecting,
                        backtracked_iteration,
                    ),
                    StepModel::FirstIteration { init_tapes, .. } => (init_tapes, NodeType::Normal, 0),
                };
                TreeModel {
                    nodes: nodes.push(
                        TreeNodeModel { tapes, node_type, children: Seq::empty(), parent_id: Some(p) },
                    ),
                    next_parent: next,
                }
            },
        }
    }
}

impl IterationTree {
    /// An empty tree, waiting on node 0.
    pub fn new() -> (t: Self)
        ensures
            t@.nodes == Seq::<TreeNodeModel>::empty(),
            t@.next_parent == 0,
    {
        let t = IterationTree { nodes: Vec::new(), next_parent: 0 };
        assert(t@.nodes =~= Seq::<TreeNodeModel>::empty());
        t
    }

    /// Adds the node of the step `step` (see [`TreeModel::added`]).
    pub fn add_step(&mut self, step: TuringExecutionSteps)
        ensures
            final(self)@ == old(self)@.added(step@),
    {
        let ghost t0 = self@;
        let ghost st = step@;
        let iteration = step.get_nb_iterations();
        let p = self.next_parent;
        if p < self.nodes.len() {
            let mut node = self.nodes.remove(p);
            node.children.push(iteration);
            self.nodes.insert(p, node);
        }
        let ghost nodes1 = self.nodes@.map_values(|n: TreeNode| n@);
        proof {
            if p < t0.nodes.len() {
                assert(nodes1 =~= t0.nodes.update(
                    p as int,
                    TreeNodeModel { children: t0.nodes[p as int].children.push(st.nb_iterations()), ..t0.nodes[p as int] },
                ));
            } else {
                assert(nodes1 =~= t0.nodes);
            }
        }
        match step {
            TuringExecutionSteps::FirstIteration { init_tapes, .. } => {
                let mut nodes: Vec<TreeNode> = Vec::new();
                nodes.push(
                    TreeNode {
                        tapes: init_tapes,
                        node_type: NodeType::Normal,
                        children: Vec::new(),
                        parent_id: None,
                    },
                );
                self.nodes = nodes;
                self.next_parent = 0;
                assert(self@.nodes[0].children =~= Seq::<usize>::empty());
                assert(self@.nodes =~= old(self)@.added(st).nodes);
            },
            TuringExecutionSteps::TransitionTaken { reached_state, tapes, iteration, .. } => {
                let node_type = if reached_state.get_type() == TuringStateType::Accepting {
                    NodeType::Accepting
                } else {
                    NodeType::Normal
                };
                self.nodes.push(TreeNode { tapes, node_type, children: Vec::new(), parent_id: Some(p) });
                self.next_parent = iteration;
                assert(self@.nodes[self@.nodes.len() - 1].children =~= Seq::<usize>::empty());
                assert(self@.nodes =~= old(self)@.added(st).nodes);
            },
            TuringExecutionSteps::Backtracked { tapes, backtracked_iteration, .. } => {
                self.nodes.push(
                    TreeNode { tapes, node_type: NodeType::Rejecting, children: Vec::new(), parent_id: Some(p) },
                );
                self.next_parent = backtracked_iteration;
                assert(self@.nodes[self@.nodes.len() - 1].children =~= Seq::<usize>::empty());
                assert(self@.nodes =~= old(self)@.added(st).nodes);
            },
        }
    }

    /// The number of nodes.
    pub fn len(&self) -> (n: usize)
        ensures
            n == self@.nodes.len(),
    {
        self.nodes.len()
    }

    /// The node `id`.
    pub fn get_node(&self, id: usize) -> (n: &TreeNode)
        requires
            id < self@.nodes.len(),
        ensures
            n@ == self@.nodes[id as int],
    {
        &self.nodes[id]
    }

    /// Whether some node is under the node `id`.
    pub fn has_children(&self, id: usize) -> (b: bool)
        requires
            id < self@.nodes.len(),
        ensures
            b == (self@.nodes[id as int].children.len() > 0),
    {
        self.nodes[id].children.len() > 0
    }

    /// The node the next step goes under.
    pub fn get_next_parent(&self) -> (p: usize)
        ensures
            p == self@.next_parent,
    {
        self.next_parent
    }
}

} // verus!
