//! The command layer: the decisions each command makes, stated over the
//! library's models. Their surrounding input and output live with the caller.

pub mod driver;
pub mod new;
