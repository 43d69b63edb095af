# grok_memory

Typed memory for a coding agent: markdown notes are classified into kinds,
queries are decomposed into the kinds they need, search results are composed
into prompt sections, and a small core of active sections is always injected.

The library under `src/` is written in Rust and verified with Verus. Each public
function states what it computes over mathematical models of its data.

| Module | What it holds |
| --- | --- |
| `kind` | memory kinds and the classification of a chunk |
| `sections` | markdown split at its `##` headings |
| `promote` | typed entries, remembered notes, core pins, supersession |
| `compose` | query decomposition, the plan of searches, the composition of their results |
| `memory_context` | memory blocks and reminders, greetings |
| `schema` | the SQL schema of the index and the plan of its migration |
| `text`, `text_facts` | characters, lines, trimming and substrings |
| `laws` | properties that span several of these |

`app/` connects the library to SQLite, an embedding service, the evergreen files
and the clock. `tests/` exercises the compiled library.
