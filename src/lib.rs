//! An embeddable interpreter for a small Lisp: a reader that turns text into
//! symbolic expressions, the object model those expressions live in, and an
//! evaluator that resolves symbols through a chain of scopes and dispatches
//! calls to native or interpreted functions.

pub mod builtins;
pub mod errors;
pub mod frame;
pub mod lisp;
pub mod object;
pub mod printer;
pub mod reader;
pub mod roundtrip;
pub mod semantics;
