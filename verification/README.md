# llaunchpad

The verified core of a launcher for Ollama coding agents: which terminals
can host a CLI agent, what to run to launch an agent with a model, how the
Codex config is cleaned, and how the cloud model catalog is listed.

- `src/` is the library, checked by Verus. It decides from plain values
  (the platform and the files found on `PATH`, the executable paths of the
  running processes, the text of a config file, the ids of a catalog) and
  plans the commands to run; it performs no I/O itself.
- `app/` is the command-line shell around it: it reads the machine, fetches
  the catalog over HTTP, runs the planned commands and prints JSON.
- `tests/` runs the library on concrete values.
