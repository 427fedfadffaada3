# c2_tracker

A recorder for the sessions of a command-line coding assistant: it reads the
assistant's JSONL transcripts incrementally into SQLite, answers the
assistant's HTTP hooks, installs and removes those hooks in the assistant's
settings file, and serves session, event, issue and daily figures to a user
interface.

- `src/` is the verified library (Verus): a transcript's bytes cut into
  complete lines for the whole-file and incremental readers, transcript
  lines and their merged session facts, line statistics, the read cursor
  and the debounce queue of the watcher, hook planning and bearer checks, the runtime file and token,
  the settings document with its install and removal, and the rows sent to
  the interface.  Laws are public `law_*` proof functions.
- `app/` is the `c2-engine` program around it: files, SQLite, the HTTP
  server, the file watcher and the command line.
- `tests/` exercise the library on concrete values.
