//! A debugger service core: the GDB machine-interface output grammar and its
//! parser, the command encoder, the per-session engine that admits one command
//! at a time and matches results to commands by token, the session registry,
//! and decoders from parsed values to breakpoints, frames, variables,
//! registers and memory mappings.
use vstd::prelude::*;

pub mod text;
pub mod value;
pub mod dump;
pub mod output;
pub mod roundtrip;
pub mod commands;
pub mod error;
pub mod engine;
pub mod builder;
pub mod models;
pub mod memory;
pub mod resolve;
pub mod dashboard;
pub mod registry;
pub mod tools;

verus! {

} // verus!
