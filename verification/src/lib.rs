//! Translates Clarity contracts to WebAssembly.
//!
//! The generator visits the expressions of a contract that was analysed and type checked,
//! and builds a module as it goes:
//!
//! - [`generator`] holds the state of the generator and starts it on a contract;
//!   [`traversal`] visits expressions and [`program`] visits statements, function
//!   definitions and the whole contract.
//! - [`literals`] and [`variables`] push values that are written out or named, [`calls`]
//!   calls functions of the contract, and [`memory`] moves values between the stack, locals
//!   and memory, laid out as [`layout`] says.
//! - [`analysis`], [`types`] and [`tuple`] are what the generator reads of a contract.
//! - [`builder`], [`wasm_module`] and [`clarity_vm`] call into `walrus` and `clarity`.
//! - [`ir`] and [`progress`] are the mathematical model of what is built, and [`growth`] says
//!   what is left alone when something is added.
//! - [`machine`] says what instructions do when they run, [`execution`] what functions do, and
//!   [`runs`] what it does that was added to a function.
//! - [`value_laws`], [`word_laws`], [`call_laws`], [`statement_laws`] and [`definition_laws`]
//!   state what the code leaves that is written for names and literals, for words, for calls,
//!   for statements and for functions, and [`memory_laws`], [`layout_laws`], [`literal_laws`]
//!   and [`laws`] what else holds of the generator as a whole.
pub mod analysis;
pub mod arguments;
pub mod builder;
pub mod call_laws;
pub mod calls;
pub mod clarity_vm;
pub mod definition_laws;
pub mod error;
pub mod execution;
pub mod generator;
pub mod growth;
pub mod ir;
pub mod laws;
pub mod layout;
pub mod layout_laws;
pub mod literal_laws;
pub mod literal_table;
pub mod literals;
pub mod machine;
pub mod memory;
pub mod memory_laws;
pub mod program;
pub mod progress;
pub mod runs;
pub mod statement_laws;
pub mod traversal;
pub mod tuple;
pub mod types;
pub mod value_laws;
pub mod variables;
pub mod wasm_module;
pub mod word_laws;
pub mod words;
