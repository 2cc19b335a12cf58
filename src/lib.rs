//! A small parser-combinator engine whose combinators are proved against a
//! mathematical description of what each one consumes and produces.
pub mod combinator;
pub mod laws;
pub mod parser;
pub mod prelude;
pub mod primitive;
