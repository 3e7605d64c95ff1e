# sl-up

Pick a commit from a Sapling smartlog with the keyboard, then check it out,
rebase onto it or hide it.

- `src/` is the verified library:
  - `text.rs`: char-indexed string helpers (ANSI stripping, slicing,
    insertion, pattern search, commit-hash extraction, joining lines);
  - `smartlog.rs`: splitting `sl smartlog` output into lines, recognising
    commit lines, walking between them;
  - `args.rs`: splitting the command line at `--`;
  - `terminal.rs`: reading `stty size` output;
  - `state.rs`: the selection state and its updates;
  - `input.rs`: key decoding, one input step, and the `sl` command to run;
  - `render.rs`: the window and markings drawn for the selection;
  - `laws.rs`: properties that span several operations.
- `app/main.rs` runs the terminal, the `sl` and `stty` processes and the
  input loop, asking the library what to do at each step.
