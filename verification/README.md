# cyphera_kernel

The decision core of a small Unix-like kernel, with machine-checked contracts.

`src/` is the library. Nothing in it touches hardware, user memory or the scheduler: a function
takes the facts that it decides on as plain values, and hands back the answer or the action that
the surrounding kernel has to carry out.

- `vfs/`: descriptors, pipes, paths and their resolution, the mount tables with their peer groups,
  record locks and whole-file locks, and waiting.
- `timeout.rs`: the deadline queues.
- `syscall/`: what each system call checks, answers and asks for, from the number in a register to
  the handler.
- `bytes.rs`, `numeral.rs`, `text.rs`, `keys.rs`, `seqs.rs`: numbers in memory and in digits,
  strings, the keys of maps, and facts on sequences.

One function is trusted and not proved: `text::from_utf8`, which calls `core::str::from_utf8`.

A public proof function whose name begins with `law_` states what holds of several functions
together.

`app/` holds the state that all processors share and the waiting and waking around the library.
`tests/` runs the library on concrete values.
