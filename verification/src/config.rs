//! What one run searches for, where, and how.

use vstd::prelude::*;
use crate::search::{
    matching_lines, matching_lines_ignoring_case, search, search_case_insensitive,
};

verus! {

/// The message for a command line without a query.
pub const MISSING_QUERY: &'static str = "Didn't get a query string";

/// The message for a command line with a query and no file name.
pub const MISSING_FILENAME: &'static str = "Didn't get a file name";

/// The query, the name of the file to search, and whether letter case
/// counts.
pub struct Config {
    pub query: String,
    pub filename: String,
    pub case_sensitive: bool,
}

/// A `Config` with its strings as sequences of characters.
pub struct ConfigView {
    pub query: Seq<char>,
    pub filename: Seq<char>,
    pub case_sensitive: bool,
}

impl View for Config {
    type V = ConfigView;

    open spec fn view(&self) -> ConfigView {
        ConfigView {
            query: self.query@,
            filename: self.filename@,
            case_sensitive: self.case_sensitive,
        }
    }
}

/// The lines of `text` that a run with `config` finds: those that contain
/// the query exactly where case counts, else those that contain it when the
/// case of ASCII letters is disregarded.
pub open spec fn lines_found(config: ConfigView, text: Seq<char>) -> Seq<Seq<char>> {
    if config.case_sensitive {
        matching_lines(config.query, text)
    } else {
        matching_lines_ignoring_case(config.query, text)
    }
}

impl Config {
    /// Reads a configuration off a command line. `args[0]` is the program's
    /// name and is passed over; `args[1]` is the query and `args[2]` the file
    /// name; what follows them is ignored. `toggle_set` says whether the case
    /// toggle is set in the environment: where it is, the search is
    /// case-sensitive, and where it is not, case is disregarded.
    pub fn new(args: Vec<String>, toggle_set: bool) -> (result: Result<Config, &'static str>)
        ensures
            args@.len() <= 1 ==> (result matches Err(message) && message@ == MISSING_QUERY@),
            args@.len() == 2 ==> (result matches Err(message) && message@ == MISSING_FILENAME@),
            args@.len() >= 3 ==> (result matches Ok(config) && config@ == (ConfigView {
                query: args@[1]@,
                filename: args@[2]@,
                case_sensitive: toggle_set,
            })),
    {
        let mut args = args;
        if args.len() < 2 {
            return Err(MISSING_QUERY);
        }
        if args.len() < 3 {
            return Err(MISSING_FILENAME);
        }
        args.truncate(3);
        let filename = args.pop().unwrap();
        let query = args.pop().unwrap();
        Ok(Config { query, filename, case_sensitive: toggle_set })
    }
}

/// The lines of `contents` that match the query of `config`, in the order
/// in which they stand in `contents`.
pub fn run<'a>(config: &Config, contents: &'a str) -> (found: Vec<&'a str>)
    ensures
        found.deep_view() == lines_found(config@, contents@),
{
    if config.case_sensitive {
        search(config.query.as_str(), contents)
    } else {
        search_case_insensitive(config.query.as_str(), contents)
    }
}

} // verus!
