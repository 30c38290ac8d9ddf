# levshell-modules

The modules of a desktop shell: what the bar shows, what the palette finds, and
what the background helpers decide. The library is written in Verus. Every
function states in its contract what it returns or changes, and the laws that
hold across functions stand beside them as public proof functions (`law_...`).

## Layout

- `src/` is the verified library. A module here is a value and functions on it:
  an event goes in; a new state, and what is to be done about it, come out. No
  function reads a file, waits, or talks to anyone.
  - `text`, `utf8`, `order`, `seqs`, `textmap`: texts, their bytes, sorting, lists
    and maps.
  - `stdtext`, `paths`, `time`, `ids`, `json`, `random`: what is taken from the
    standard library and from other crates, each call behind a small function
    whose contract says what is relied on.
  - `escalation`, `focus`, `interruption`, `session_timer`, `signals`,
    `context_engine`: what the user is doing, and what the bar shows of it.
  - `context_snapshot`: saving the windows of a desktop and putting them back.
  - `ideation`, `notifications`, `rubber_duck`: nudges, notices, conversation.
  - `palette`: searching, ranking and choosing, with its providers.
  - `remote`: hosts, their jobs, their graphics cards, their reachability.
  - `arxiv_watch`, `reference_library`, `anki_due`, `anki_review`,
    `latex_status`, `project_pulse`, `clock`, `proc_sniper`, `sway`: the widgets.
- `app/` is the ordinary Rust around it: the event bus, files, processes, the
  network, the compositor, and floating point.
- `tests/` runs the library.

Doubles are carried as their bit patterns; the library orders and clamps them,
and the arithmetic on them is done in `app/numbers.rs`.
