//! Bundles of Fluent translations.
//!
//! A [`translations::Bundle`] is made out of the source texts of Fluent files. On the way, second
//! definitions, references to what is not there and cyclic references are found. In strict mode
//! they stop the making; otherwise they are kept, and the bundle tells them on demand. A bundle
//! then formats its messages and their attributes, with texts, integers and dates for variables.
//!
//! Parsing and formatting are the work of the `fluent` crates. What the library needs to know of
//! them is stated on the functions that call them, in [`resource`], [`store`], [`date`] and
//! [`text`], and on the types of the syntax tree in [`syntax`]. Everything else is proved, down to
//! the words of every error.
//!
//! - [`position`]: lines and columns.
//! - [`errors`]: the errors that are told, and how they print.
//! - [`duplicates`], [`references`], [`graph`], [`cycles`]: validation.
//! - [`lookup`], [`variables`]: what a translation is asked for.
//! - [`escapes`], [`nesting`], [`expansion`]: the inputs that the parser and the formatter cannot
//!   take.
//! - [`laws`]: what holds of all of these together.

pub mod cycles;
pub mod date;
pub mod duplicates;
pub mod errors;
pub mod escapes;
pub mod expansion;
pub mod graph;
pub mod laws;
pub mod lookup;
pub mod nesting;
pub mod position;
pub mod references;
pub mod resource;
pub mod store;
pub mod syntax;
pub mod text;
pub mod translations;
pub mod variables;
