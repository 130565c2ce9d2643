# clar2wasm

Translates Clarity smart contracts to WebAssembly, with a proof.

The library takes a contract that was analysed and type checked and builds a `walrus` module
from it. What each step does to the generator and to the function that is being built is
stated as a function from state to state, and Verus proves that the code does just that.

- `src/` is the verified library. `src/laws.rs`, `src/memory_laws.rs`, `src/literal_laws.rs`,
  `src/statement_laws.rs` and `src/execution.rs` hold what is proved of the library as a whole: a value that is written to
  memory is read back, a value that is saved to locals is restored, identifiers and strings are
  stored once, the literals of a contract fill the literal memory without overlap and stay where
  they were put, a function of the contract leaves the stack pointer as it found it on every way
  out, and a list of statements, each of which leaves its own value, leaves the value of the last
  one, whatever the statements call. Each law says under which conditions it holds.
- `src/wasm_module.rs`, `src/builder.rs` and `src/clarity_vm.rs` hold what is believed of
  `walrus` and `clarity`, each item with a word on the function that it calls.
- `app/` takes contracts as `clarity` analyses them.
- `tests/` runs the library; `tests/contracts.rs` parses and type checks whole contracts with
  `clarity`, translates them, and runs the result.

The words of the language are not part of the library: a set of words is a type that implements
`words::Words`. What is proved of a whole contract holds for words that keep to what that trait
asks of them: they only add to what is there, and their instructions write only locals and run
only sequences of their own.
