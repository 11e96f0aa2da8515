# intra_codex

The verified core of a desktop workbench that hands coding tasks to
command-line agents. The library holds the workbench's state (projects,
sessions, messages, runs, providers, skills) and proves what every action does
to it; the program in `app/` reads and writes the disk, spawns the agents and
talks to the user interface.

- `text`: trimming, lines, joining and ordering of text.
- `order`: stable sorting by text keys.
- `paths`: the path operations the workbench relies on.
- `context`: packing selected project files into a message, within the file
  and byte budgets.
- `model`, `workbench`: the state and the user's and agents' actions on it;
  every action keeps project and run ids unique. Each action that stamps a
  time has an `_at` variant that takes the time and states every stamp it
  sets; the plain action reads the local clock and calls it.
- `schedule`: which queued run starts next, under the global and per-provider
  limits.
- `prompt`, `skills`, `files`, `usage`, `snapshot`: what the user interface and
  the agents are shown (`files` also decides which directory entries the file
  tree lists).
- `launch`: how an agent process is started for a prompt (as an argument, on
  standard input or not at all) and how its exit is read.
- `clock`: timestamps, dates and identifiers.
