//! A small decision engine: a declarative condition tree is evaluated against
//! a fact source and yields a single boolean.

pub mod conditions;
pub mod evaluation;
pub mod facts;
pub mod text;
