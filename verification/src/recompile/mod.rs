//! Lowering a prepared trace to AArch64.
//!
//! The emitted function has the shape `void f(void *backend, void *buf)` under
//! AAPCS64: given a pointer to a backend instance and a pointer to a scratch
//! buffer, it performs the recorded trace by calling out to that backend's
//! pinned runtime functions, passing buffer-slot indices as arguments.
//!
//! Every call site loads its pinned function's address into a scratch register
//! rather than emitting a direct PC-relative branch, so the emitted code has no
//! relocations to resolve but those of its own tables.
pub mod emit;
pub mod laws;
pub mod link;
pub mod machine;
pub mod meaning;
pub mod program;
