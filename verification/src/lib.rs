//! Runtime-patched static keys: the decisions behind rewriting call sites.
//!
//! A static key owns a value and a list of call sites. Each call site is a
//! patchable instruction in the text segment that either falls through to the
//! likely arm or jumps to the label of another arm. This crate holds the
//! verified part of that machinery:
//!
//! * `arch`: the instruction encodings written into call sites.
//! * `text`: a byte-level model of the text segment and of atomic stores.
//! * `patch`: the text guard, page ranges to unprotect, and the store plans
//!   that replace an instruction while other cores may be executing it.
//! * `static_match`: static keys and their call sites.
//! * `arms`: how the arms of a `static_match!` are laid out as a fallthrough
//!   arm and a jump table.

pub mod arch;
pub mod text;
pub mod patch;
pub mod static_match;
pub mod arms;

pub use static_match::{StaticKey, CallSite};
