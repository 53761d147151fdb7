# stackpile

A small task-based bytecode virtual machine, verified with Verus.

- `src/op.rs` — instructions: the byte layout, decoding from the top of a
  code stack, and what executing one does to a task. Foreign functions are
  reached through the `ForeignFunctions` trait that a host implements.
- `src/task.rs` — the register stage, the code stack and tasks.
- `src/runtime.rs` — the constant table, the scheduler's bookkeeping of
  workers and tasks, the runtime settings and the runtime.
- `src/worker.rs` — a worker's round-robin decisions; receiving commands and
  sending reports is left to the host loop.
- `src/natives.rs` — sample foreign functions.
- `app/main.rs` — the program: threads, channels, printing, and the sample
  Fibonacci bytecode.
