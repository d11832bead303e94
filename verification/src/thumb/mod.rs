//! Symbolic execution of a deliberately small Armv8-M Thumb-2 subset,
//! including virtual Secure/Non-secure TrustZone-M interworking.
pub mod accesses;
pub mod blocks;
pub mod body;
pub mod control;
pub mod data;
pub mod decode;
pub mod early_exit;
pub mod effects;
pub mod entry;
pub mod exec;
pub mod exits;
pub mod flags;
pub mod generation;
pub mod handler;
pub mod hooks;
pub mod jumps;
pub mod laws;
pub mod logic;
pub mod machine;
pub mod narrow;
pub mod op;
pub mod snapshot;
pub mod stack;
pub mod wide;
pub mod wide_more;
