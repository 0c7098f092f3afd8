# rescue_codex

A verified library for analysing local Codex usage data: it parses Codex session logs and
other JSON / JSON Lines chat exports into sessions, messages and raw events, decides how an
import run counts its files, and computes the dashboard's statistics (activity over time,
turn latencies, token usage, tools, prompts, projects, transport signals) and its reports.

- `src/` is the library, written in Verus: every public function has a contract, and the
  properties that span functions (a ranking or a top chart is fully determined by its input,
  deduplicating messages twice changes nothing, every imported file is counted once, path
  analysis does not depend on the separator, ...) are proved as lemmas.
- `app/` is a small command-line program around it: the SQLite database, reading files and
  the Codex home directory, local time, floating-point averages and JSON output.
- `tests/` exercises the library on concrete inputs.
