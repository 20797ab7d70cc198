//! The parser: reading each construct of the language.

pub mod accessors;
pub mod blocks;
pub mod functions;
pub mod items;
pub mod params;
pub mod parts;
pub mod paths;
pub mod sequences;
