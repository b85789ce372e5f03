//! A small Lisp: a compiler from value trees to SECD-machine bytecode, and the
//! machine that runs it. Every function here is verified against a
//! mathematical model of values, code and machine states.

pub mod compiler;
pub mod env;
pub mod error;
pub mod insns;
pub mod interp;
pub mod object;
pub mod reader;
pub mod vm;
