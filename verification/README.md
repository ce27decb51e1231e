# whackamux

A dashboard of tmux windows on this machine and on hosts that are reached over SSH. It shows
which panes wait for an answer, forwards keyboard input to the focused pane, and offers buttons
for common answers.

- `src/` is the library: reading what tmux prints, grouping panes into windows, deciding which
  pane needs attention, the state of the dashboard, and what every key, click and poll does to
  it. All of it is verified with Verus. Each module states its functions over models (`PaneModel`,
  `WindowModel`, `AppModel` and others) and ends its topics with proof functions for what holds
  across functions.
- `app/` is the program around it: the window, the tmux processes, the SSH sessions and the
  configuration file `config.yaml`.
- `tests/` runs the library on concrete values.

What is not proved: the contracts of `String::push` and `String::from_utf8_lossy` of std and of
`egui::Color32::from_rgb`, which are stated in `src/text.rs`, `src/tmux.rs` and `src/pane.rs`. The
proofs also rest on what vstd states of std, above all on its maps and sets with string keys
(`StringHashMap` and `StringHashSet`), in which the dashboard keeps its runners, errors and hidden
windows.
