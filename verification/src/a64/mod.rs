//! A deliberately narrow, fail-closed AArch64 facade.
//!
//! `disarm64` is used only as a classification guard. Every instruction
//! accepted here must also satisfy a raw mask and field extractor of this
//! crate; a successful broad decoder result never expands the supported
//! instruction set by itself.
pub mod body;
pub mod decode;
pub mod generation;
pub mod instructions;
pub mod program;
pub mod reach;
pub mod state;
