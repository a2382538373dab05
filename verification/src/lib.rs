//! A spell checker's core: a line of text is split into words, each word
//! is looked up in one or more dictionaries, and the words that no
//! dictionary knows are reported in the order of their lines.
//!
//! - [`tokenizer`] splits a line into words.
//! - [`dictionary`] holds the sets of known words and decides whether a
//!   word is misspelt.
//! - [`input`] has the lines of a file and the words found in them.
//! - [`dispatch`] checks the lines in parallel, one unit of work per line.
//! - [`report`] flattens and renders what was found.
//! - [`pipeline`] is all of that in one call.
//! - [`command`] reads the command line.
//! - [`text`] has the properties of characters and strings that the
//!   standard library decides.

pub mod command;
pub mod dictionary;
pub mod dispatch;
pub mod input;
pub mod pipeline;
pub mod report;
pub mod text;
pub mod tokenizer;

pub use command::{Command, Error};
pub use dictionary::{is_error, Dictionary, HashDictionary, SortedDictionary, Sources};
pub use input::{Line, Word};
pub use pipeline::spell_check;
