//! A command-line pipeline: a stream of items — text lines or generated
//! integers — threaded through a chain of transformation, filter and
//! aggregation operators, and written to a sink. The command language, the
//! condition predicates and the streaming engine live here, each with its
//! contract; reading and writing the outside world is the caller's part.

pub mod chars;
pub mod condition;
pub mod config;
pub mod demand;
pub mod driver;
pub mod err;
pub mod input;
pub mod item;
pub mod joinop;
pub mod num;
pub mod op;
pub mod output;
pub mod parse;
pub mod parse_ops;
pub mod rand_ext;
pub mod regex_ext;
pub mod replace;
pub mod sliceop;
pub mod sortop;
pub mod token;
pub mod trim;
pub mod uniq;

pub use driver::{run, Pipeline, RunAction};
