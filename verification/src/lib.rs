//! A small host for a regular-expression engine: a bump arena, a fail-stop
//! fault policy, and a validated boundary with `compile`, `free` and `find`.

pub mod arena;
pub mod engine;
pub mod fault;
pub mod history;
pub mod boundary;

pub use arena::{Allocation, Arena};
pub use boundary::{aifw_regex_compile, aifw_regex_find, aifw_regex_free, AifwRegex};
pub use fault::{panic_handler, Halt, RunState};
