# rant

The core of the Rant templating language as a verified library: a parser from tokens to syntax
trees, the collections and the call stack of the runtime, and the virtual machine that runs
programs.

- `src/compiler` holds the parser. `grammar.rs` says what each construct of the language reads,
  builds and reports; `parser.rs` and `production/` do it.
  `positions.rs` and `spacing.rs` show where positions are recorded and
  that recording them changes nothing else, and `capturing.rs` that functions capture none of their
  own parameters.
- `src/runtime` holds the virtual machine. `machine.rs` says what each step changes; `vm.rs` and the
  modules beside it do it. `halting.rs` shows that every run comes to a stop, and `laws.rs` what
  holds of every run. `assignment.rs` shows that getters read back what setters wrote.
- `src/collections.rs`, `src/value.rs`, `src/engine.rs` and `src/stdlib.rs` hold lists and maps,
  values, the engine with its global variables, and the standard library's table of functions.
- `src/laws.rs` states what holds across the operations of the library.
- `app` wraps the library for hosts: reporters, native functions, random numbers and
  floating-point numbers.

The machine leaves to its host what it cannot do itself. It stops with a request for a random
number, for a native function or for something that was deferred, and goes on once the host has
seen to it.
