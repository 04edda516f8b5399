//! A small command interpreter: tokenizing an input line, resolving its
//! command against the builtins or an index of executables found along a
//! search path, and deciding what each command does.
pub mod text;
pub mod index;
pub mod command;
pub mod laws;
