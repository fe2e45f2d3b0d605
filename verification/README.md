# jj_commands

Three commands of the Jujutsu version-control system, with their decisions
verified in Verus:

- `bookmark advance` moves the bookmarks closest to a revision up to it;
- `histedit` shows a stretch of history in the terminal;
- `workspace forget` stops tracking workspaces, and removes their Git worktrees
  where it is asked to.

`src/` is the verified library. A command there takes a state and an event and
gives back the next state and an action, so that nothing in it touches the
disk, the terminal or the repository. The contracts say what each step does;
the proof functions named `law_...` say what holds of whole runs, such as that
no worktree is removed before the transaction is committed.

`app/` holds the arguments on the command line and the loops that carry out the
actions. It is generic over a host, which stands for the rest of the program.

`tests/` runs the library on concrete values.

What is believed without proof stands behind a few functions that call
`renderdag`, `ratatui`, `ansi_to_tui` and the standard library. Each of them
says in its comment what it takes to be true of the function that it calls.
