# rescue-shell

A remote rescue shell: one machine, the victim, shares its shell with one or more helpers. All see
the same screen and may type, unless helpers may only watch.

The library in `src/` holds the decisions of such a session, each with a contract that Verus proves:

- `console/` is the local terminal: keyboard input, the status bar, the picture of the remote screen,
  answers to terminal queries, clipboard writes, and the size of the shared screen.
- `victim`, `helper` and `session` say what each end does when something happens.
- `pairing`, `access` and `link` say how helpers find the victim, who may join, and what is done with
  what comes in.
- `osc_filter` and `osc_extractor` read byte streams for terminal sequences.
- `protocol`, `io`, `shell`, `common` and `util` hold the messages, the small commands, and the rest.
- `buffer`, `vt`, `screen`, `ansi`, `time`, `strings` and `text` describe what is used of `bytes`,
  `vte`, `vt100`, `crossterm` and the standard library.

Proof functions whose names begin with `lemma_` and that are public state what holds of the library as
a whole.

`app/` is the program around it: network, child process, terminal and files. `tests/` holds examples.
