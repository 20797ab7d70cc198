//! From tokens to syntax trees.

pub mod capturing;
pub mod closing;
pub mod grammar;
pub mod lang;
pub mod lexer;
pub mod message;
pub mod parser;
pub mod positions;
pub mod production;
pub mod reader;
pub mod readings;
pub mod reporting;
pub mod rereading;
pub mod scopes;
pub mod spacing;
pub mod unfolding;
pub mod writing;
