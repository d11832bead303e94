//! Symbolic execution of small, well-behaved machine programs as Boolean
//! circuits.
pub mod a64;
pub mod arm_shift;
pub mod beaver;
pub mod bits;
pub mod compare;
pub mod concrete;
pub mod context;
pub mod callback;
pub mod coroutine;
pub mod explore;
pub mod garble;
pub mod handler;
pub mod memory;
pub mod multiply;
pub mod number;
pub mod recompile;
pub mod runtime;
pub mod rv;
pub mod saved;
pub mod selftest;
pub mod shift;
pub mod storage;
pub mod table;
pub mod thumb;
pub mod vole;
pub mod wide;
pub mod word;
