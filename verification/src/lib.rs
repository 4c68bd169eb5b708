//! Contracts for the methods of a namespace of executables: the language
//! they are written in, the resolution of a dotted method name, and the
//! checks that an invocation passes before the method is run.

pub mod config;
pub mod contract;
pub mod contract_tokens;
pub mod failure;
pub mod handlers;
pub mod listing;
pub mod manifest;
pub mod method;
pub mod text;
