//! Sail: the core of a small Lisp dialect that is embedded in a host and
//! driven by an evaluator of the host's.
//!
//! The core is a region of tagged blocks (`region`, `arena`, `field`, `tag`),
//! a symbol table (`stab`, `symbol`, `env`), a reader from source text to
//! values (`grammar`, `parser`, `form`, `number`, `store`) and the canonical
//! printer (`printer`). `roundtrip` proves that printing and reading are
//! inverse on the literal values, `kinds` which errors the reader can give,
//! and `wellformed` that the printed text is well-formed UTF-8.

pub mod error;
pub mod symbol;
pub mod stab;
pub mod tag;
pub mod form;
pub mod ascii;
pub mod number;
pub mod grammar;
pub mod parser;
pub mod region;
pub mod arena;
pub mod field;
pub mod store;
pub mod printer;
pub mod env;
pub mod roundtrip;
pub mod kinds;
pub mod wellformed;
