//! A compiler from a statement-oriented intermediate representation to
//! instructions for a machine with an allocation pointer and a frame pointer,
//! with the layout of the read-only constant segments that follow the code.
//!
//! The statements of a program are compiled in their order. Each statement
//! has an environment, which binds its variables to memory expressions; an
//! invocation takes its arguments out of the environment, and each of its
//! branches brings the rest, with the outputs of the branch, to the
//! statement that it leads to. The code of an invocation is given by an
//! [`invocations::InvocationCompiler`]. Behind the last statement the
//! constants of the program are laid out in segments, and the constants of
//! instructions that refer to statements or segments are set.
//!
//! - [`compiler`]: the pass over the statements, step by step and as a
//!   whole, with its errors and its result.
//! - [`program`], [`metadata`]: what is compiled. [`sierra`] reads it from a
//!   program of `cairo_lang_sierra` and its registry.
//! - [`references`], [`environment`], [`annotations`]: the environments.
//! - [`casm`]: the instructions. [`relocations`] sets their constants,
//!   [`assembler`] gives their bytecode, [`text`] writes them.
//! - [`consts`]: the constant segments.
//! - [`laws`]: what holds of every compilation. [`determinism`]: what a
//!   compilation is determined by.

pub mod ids;
pub mod bigint;
pub mod casm;
pub mod type_sizes;
pub mod references;
pub mod program;
pub mod metadata;
pub mod environment;

pub mod invocations;
pub mod annotations;
pub mod compiler;
pub mod consts;
pub mod relocations;
pub mod assembler;
pub mod text;
pub mod sierra;
pub mod laws;
pub mod determinism;
