//! Pleroma: an actor-model execution substrate.
//!
//! A small entity-oriented language is compiled to a private bytecode format
//! and executed by a stack-based interpreter running inside "vats" (actor
//! containers) that communicate only through asynchronous messages.

pub mod ast;
pub mod bin_helpers;
pub mod codegen;
pub mod compile;
pub mod fat;
pub mod filesys;
pub mod hosted;
pub mod monad;
pub mod multitasking;
pub mod net;
pub mod node;
pub mod opcodes;
pub mod pbin;
pub mod sem;
pub mod system;
pub mod vm;
pub mod vm_core;
pub mod zeno;
