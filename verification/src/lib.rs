//! The core of the Rant templating language: a parser from tokens to syntax trees, and the virtual
//! machine that runs programs, with its values, collections and call stack.

pub mod collections;
pub mod compiler;
pub mod engine;
pub mod laws;
pub mod rng;
pub mod runtime;
pub mod stdlib;
pub mod text;
pub mod value;
