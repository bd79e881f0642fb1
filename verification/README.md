# nyanpasu_jobs

Jobs with durable run history: admission, scheduling, journaling, bounded log
capture and wire shapes, as verified Rust. The library in `src/` decides; it
holds no threads, and of the machine it reads the clock and the source of
randomness alone. Its own code never panics; those two calls, into `chrono` and
`uuid`, do where the system clock stands before 1970 or the system gives no
randomness. `app/` runs the library: actors, timers, a redb database and a
tracing layer.

| Module                                     | What it decides                                                          |
| ------------------------------------------ | ------------------------------------------------------------------------ |
| `text`, `ids`, `time`, `sorted`            | text order, decimal numbers, run identifiers, clocks, ordered maps       |
| `model`                                    | records, completions, limits, errors and their texts                     |
| `schedule`                                 | valid schedules, first deadlines, the deadline after a tick              |
| `job`                                      | valid definitions; what becomes of a handler's return                    |
| `encoding`                                 | JSON within a limit                                                      |
| `state`, `admission`, `control`, `inspect` | permits, cancellation, progress, shutdown, inspection                    |
| `reconcile`                                | replacing a scope's registrations by a snapshot, or nothing              |
| `tick`                                     | what is due, what it starts, when to look again                          |
| `service`, `client`                        | the messages of a service, what all of them keep, what callers are told  |
| `runner`, `history`, `maintenance`         | the owner of one run as a machine, and what holds of all its histories   |
| `journal`, `pages`, `retention`            | what each write changes, pages and cursors, which finished runs are kept |
| `logging`                                  | which events are permitted, kept, or counted as dropped                  |
| `dto`                                      | finite wire shapes                                                       |

Functions state what they return or change over mathematical views of their
arguments. What relates several of them stands beside them as public proof
functions: that a handler starts at most once and only after a confirmed
admission, that a result is never rewritten, that every accepted log is written
with it or before it, that capacity is never exceeded, that a page follows the
page before it.

What a decoder, a handler, a clock or the database says is handed in as a value
or a closure, and every contract holds for every value of it. The calls into
`chrono`, `chrono-tz`, `croner` and `uuid` stand in small functions whose
contracts are taken from those crates.
