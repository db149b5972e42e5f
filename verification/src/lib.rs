//! Loader for self-describing WAI package containers.
//!
//! A container bundles executable module bytes ("atoms"), interface-definition
//! text stored in path-addressed volumes, and a manifest naming the package,
//! its commands and its library bindings.  This crate normalizes input into
//! container bytes, parses them, and resolves every manifest reference into a
//! fully owned `Package` value.

use vstd::prelude::*;

pub mod chars;
pub mod codec;
pub mod container;
pub mod errors;
pub mod extract;
pub mod load;
pub mod meta;
pub mod pack;
pub mod package;
pub mod resolve;
pub mod save;
pub mod sniff;
pub mod trusted;

verus! {

/// Runtime-ABI classification of an executable module.
#[derive(Debug, Clone, Copy, PartialEq, Eq, Structural)]
pub enum AbiKind {
    /// The module appears to follow the WASI startup convention.
    Wasi,
    /// No known ABI marker was detected.
    NoneDetected,
}

} // verus!
