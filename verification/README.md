# intake

`intake` watches sources of work (mail, issues, pull requests), keeps what they report in a queue,
and has an agent triage each event with a small set of bounded tools.

- `src/` is the library: the queue and the record of runs, the command and read policies, the
  agent's decisions, the configuration, the command line, the dashboard's data and the logs. Every
  function states what it does, and Verus proves it.
- `tests/` runs the library on concrete values.
- `app/` is the program around it: files, processes, SQLite, the network and the terminal.
