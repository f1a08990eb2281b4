# ritm_core

A library for multi-tape Turing machines whose behaviour is stated in Verus
contracts and proved.

- `turing_tape`: the reading tape (read only, delimited by `ç` and `$`) and the
  writing tapes (grow to the right, blank `_`), with the moves of their heads.
- `turing_transition`: transitions (symbols to read, symbols to write, moves)
  and the rules under which one can be built.
- `turing_graph`: states and the transitions between them, addressed by index
  or by name.
- `turing_machine`: a machine that runs a graph on a word step by step, with
  backtracking over non-deterministic choices, and the search for a path to an
  accepting state.
- `turing_parser`: the text format of a graph (`q_i {ç -> R, ç, R} q_1;`,
  `accepting = q_a;`), read into a graph and written back.
- `text_roundtrip`: the proof that writing a graph and reading the text gives
  the same graph back.
- `transition_edit`: editing a transition as text (symbols held as strings) and
  turning the edit back into a transition, with the errors of that layer.
- `iteration_tree`: the tree of an execution, one node per step, branching where
  the execution went back.
- `text`: the few string operations the rest builds on.

The tests under `tests/` run the library on concrete machines.
