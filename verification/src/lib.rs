//! Line-oriented text search: the lines of a text that contain a query,
//! compared exactly or without regard to the case of ASCII letters.
//!
//! [`search`] and [`search_case_insensitive`] take a query and a text and
//! return the matching lines as slices of the text, in the order of the
//! text. [`Config`] holds what one run of the command line asks for, and
//! [`run`] picks the search that it selects.
//!
//! The contracts speak of texts as sequences of characters: [`lines`] says
//! what the lines of a text are, [`pattern`] what it is for one sequence to
//! occur in another, [`folding`] how letter case is folded, and [`search`]
//! states what the two searches find and what holds of it. The code works
//! on the UTF-8 bytes of its arguments; [`encoding`] carries what is true of
//! characters over to bytes and back.

pub mod config;
pub mod encoding;
pub mod filtering;
pub mod folding;
pub mod lines;
pub mod pattern;
pub mod search;

pub use config::{run, Config};
pub use search::{search, search_case_insensitive};
