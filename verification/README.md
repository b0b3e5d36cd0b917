# SysTrace

Analysis of Sysmon logs: native event logs (`.evtx`), NDJSON and CSV exports. The
events are indexed, the processes put in a tree, and rules in a subset of the Sigma
language matched against the events.

`src/` is the library, verified with Verus. It holds the logic and does no input or
output. `app/` is a viewer on top of it: it reads files, hands the library readers
for JSON and YAML, and draws the window. `tests/` runs the library on concrete
inputs.

## The library

| Modules | Contents |
| --- | --- |
| `text`, `numbers`, `utf16`, `clock`, `guid` | Text, numbers, instants and GUIDs, and how they are written |
| `fxmap`, `textmap`, `sets`, `order`, `tally`, `interner` | Collections, sorting and counting |
| `types`, `event` | Time stamps, errors and the events of Sysmon |
| `evtx` | Native event logs: chunks, binary XML, templates, records |
| `export`, `parser`, `lenient` | Exported logs, and events made of records and fields |
| `event_store`, `process_tree`, `loading` | The store of events, the process tree, and how both are filled |
| `sigma` | Rules, conditions, and their matches |
| `state`, `tree_view`, `tree_rows`, `overview`, `stats`, `session` | An open log: what is selected, filtered and shown |
| `panels` | The tables of telemetry: their rows, their filters, their order |

Contracts are stated over mathematical models. Most types that hold text are generic
in how they hold it, so that the view of a row or an event is the same type over
sequences of characters. Functions named `law_…` state what holds across functions.

What is taken on trust is marked `external_body` or `assume_specification`, with a
comment that says what is claimed: parts of `chrono`, `csv`, `lasso`, `regex`,
`rustc_hash`, `uuid` and the standard library.
