//! The virtual machine.

pub mod access;
pub mod assignment;
pub mod builders;
pub mod calls;
pub mod elements;
pub mod error;
pub mod frame;
pub mod halting;
pub mod intent;
pub mod laws;
pub mod locals;
pub mod machine;
pub mod outcomes;
pub mod output;
pub mod picking;
pub mod program;
pub mod run;
pub mod stack;
pub mod variables;
pub mod vm;
