# turm

A terminal view of Slurm's queue.

`src/` is the library, verified with [Verus](https://github.com/verus-lang/verus): the arguments
that `squeue` is run with, the parser of its output, and the resolution of the patterns that Slurm
allows in the names of output files. Every function states in its `ensures` what it returns;
`src/laws.rs` states and proves what holds of the functions together, above all that rows printed in
the requested format are read back as they are.

`app/` is the program around the library: command line, terminal, threads, and the `squeue` process.

What is believed rather than proved stands in two places. `src/text.rs` holds the contracts of the
functions `String::push`, `str::trim` and `std::str::from_utf8`; `src/filename.rs` holds
`replace_specifiers`, which calls the `regex` crate.

Paths are text with `/` between their components, as on any system that runs Slurm.
