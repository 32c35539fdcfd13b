//! From what was read to the sequence of results.
//!
//! Reading is left to the caller. Each file that was named is reported here
//! with its text, or without one if it could not be read; the results keep
//! the order of the reports, and a file that could not be read leaves a
//! message in place of a result.

use crate::counter::{counts_of, parse_input, CountResult};
use vstd::prelude::*;

verus! {

/// The name under which standard input is counted.
pub open spec fn stdin_name() -> Seq<char> {
    seq!['-']
}

/// The message for a file that could not be read.
pub open spec fn read_error_text(path: Seq<char>) -> Seq<char> {
    "Error reading file: "@ + path
}

/// Whether `name` is the name under which standard input is counted.
pub fn is_stdin_name(name: &str) -> (is_stdin: bool)
    ensures
        is_stdin == (name@ == stdin_name()),
{
    let mut chars = name.chars();
    match chars.next() {
        Some(first) => {
            let second = chars.next();
            assert(second is None ==> name@ =~= seq![first]);
            first == '-' && second.is_none()
        },
        None => false,
    }
}

/// Counts the lines, words and bytes of what standard input held.
pub fn parse_stdin(input: &str) -> (result: CountResult)
    ensures
        result@ == counts_of(input@, stdin_name()),
{
    proof {
        reveal_strlit("-");
    }
    assert("-"@ =~= stdin_name());
    parse_input(input, "-")
}

/// The message for the file `path`, which could not be read.
pub fn read_error(path: &str) -> (message: String)
    ensures
        message@ == read_error_text(path@),
{
    let mut message = String::new();
    message.append("Error reading file: ");
    message.append(path);
    assert(message@ =~= read_error_text(path@));
    message
}

/// Takes in the outcome of reading the file `path`: its text, or `None` if
/// it could not be read.
///
/// A text adds its counts, under the name `path`, to the end of `results`. A
/// failure leaves `results` as they are and returns the message to put out.
pub fn record_read(results: &mut Vec<CountResult>, path: &str, content: Option<&str>) -> (diagnostic:
    Option<String>)
    ensures
        match content {
            Some(text) => {
                &&& diagnostic is None
                &&& final(results).deep_view() == old(results).deep_view().push(
                    counts_of(text@, path@),
                )
            },
            None => {
                &&& final(results)@ == old(results)@
                &&& diagnostic matches Some(message) && message@ == read_error_text(path@)
            },
        },
{
    match content {
        Some(text) => {
            let result = parse_input(text, path);
            results.push(result);
            assert(results.deep_view() =~= old(results).deep_view().push(counts_of(text@, path@)));
            None
        },
        None => Some(read_error(path)),
    }
}

} // verus!
