//! TABULATE: lowering, formatting, table assembly and HTML rendering.

pub mod parser;
pub mod tabulate;
pub mod text;
