# pir_bench

The verified core of the Bitcoin PIR benchmark runners, and the runners around it.

- `src/` is the library. It holds what the runners decide and compute: command lines, the choice of
  tables, file layouts, the queries of a trial, hints, the servers' answers, the
  verification of answers and of Merkle paths, the summaries of a trial, and the lines that are
  printed. Each function carries its contract, and Verus proves it. The proof functions whose names
  start with `law_` state what holds of several functions together.
- `tests/` runs the library, with small stand-ins for the keys, permutations and hashes.
- `app/` reads and maps files, takes the time, and calls the protocol crates. Those calls are all
  in `app/protocol.rs`; the library takes them as closures.

The groups of a trial are worked on in parallel. What the library takes for granted of rayon for
that is the contract of one function, in `src/parallel.rs`.

Times are whole nanoseconds in the library. `app/` hands it a clock, which is asked for the start
and the end of each phase by name, and a closure that writes a time in seconds.
