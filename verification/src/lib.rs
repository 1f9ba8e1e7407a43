//! Tracing of function calls by instrumentation.
//!
//! A marker on a function, an implementation block or a module asks for every function it
//! reaches to be instrumented: on entry and on exit the function then emits a trace event,
//! indented by the depth of the calls of instrumented functions around it, and returns what
//! it returned before.
//!
//! - `tokens`: token streams of `proc_macro2`, as far as the library looks into them.
//! - `config`: the arguments of a marker and the configuration they stand for.
//! - `pattern`: parameter patterns and the names they bind.
//! - `syntax`: the syntax tree that is walked, and the instrumented body of a function.
//! - `codegen`: what the instrumented body of one function is made of.
//! - `folder`: the walk over a marked node, which decides what is instrumented.
//! - `depth`: the register of the call depth that instrumented code keeps.

pub mod codegen;
pub mod config;
pub mod depth;
pub mod folder;
pub mod pattern;
pub mod syntax;
pub mod tokens;
