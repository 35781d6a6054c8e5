# revmc-runtime

The backend of a tiered cache for compiled EVM bytecode. Lookups that miss make a key hotter; a hot
key is loaded from the artifact store if it has an artifact there, and compiled if it has none.
Compiled programs become resident, and are evicted when nobody uses them or when they are over
their budgets.

The decisions are verified with [Verus](https://github.com/verus-lang/verus); carrying them out is
ordinary Rust around them.

## The library (`src/`)

| module | what it decides |
| --- | --- |
| `admission` | which resident AOT programs make room for another one, and how fast demand may load |
| `backend` | the state of the backend, its model and what holds between requests |
| `backend::requests` | from a request for a key to a load, a compilation, or nothing |
| `backend::results` | from the end of a job to the table of resident programs |
| `backend::commands` | start, commands, lookup events, counters |
| `backend::sweep` | eviction of the idle, of the stale, and of JIT code over its budget |
| `backend::laws`, `backend::waiting`, `backend::jobs`, `backend::notices`, `backend::publication` | what holds of the backend as a whole |
| `linker`, `storage` | what linking an object and recording an artifact take |
| `clock`, `config`, `events`, `bytecode`, `keys`, `keymap`, `resident` | the vocabulary and the tables |
| `sums`, `backend::upkeep` | lemmas |

A request or a result may need the outside: the artifact store, a library, a worker, the JIT
linker. The library runs up to such an exchange and says what it needs; the caller does it and hands
back the outcome. What needs no answer (waking a caller, dropping a program, reporting an event) is
queued as an `Effect`, and handed out by `BackendState::take_effects`.

The contracts of `BackendState` speak of `BackendView`, its mathematical model: each method is one
function on the model, and keeps `BackendView::inv`.

What is believed without proof are the calls into other crates. Each stands in a small function
that says what it claims: hash tables of `alloy_primitives` and `dashmap`, byte strings, hex
formatting and Keccak-256 of `alloy_primitives`, the queue of `crossbeam_queue` and the clock of
`quanta`.

## The thread around it (`app/`)

`app/` runs the event loop: it opens libraries, talks to workers and store, links objects, keeps the
programs behind the slots that the library names, and wakes callers.
