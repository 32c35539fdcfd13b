//! Which of the three counts a report shows.

use vstd::prelude::*;

verus! {

/// The columns asked for on the command line.
///
/// With no flag set, all three columns are shown; the `shows_*` functions
/// apply that rule, so a value with every field `false` behaves as one with
/// every field `true`.
#[derive(Clone, Copy, Debug, PartialEq, Eq, Structural)]
pub struct DisplayFlags {
    pub show_lines: bool,
    pub show_words: bool,
    pub show_bytes: bool,
}

impl DisplayFlags {
    /// No flag was given.
    pub open spec fn none_set(self) -> bool {
        !self.show_lines && !self.show_words && !self.show_bytes
    }

    /// The line count is part of each row.
    pub open spec fn lines_shown(self) -> bool {
        self.show_lines || self.none_set()
    }

    /// The word count is part of each row.
    pub open spec fn words_shown(self) -> bool {
        self.show_words || self.none_set()
    }

    /// The byte count is part of each row.
    pub open spec fn bytes_shown(self) -> bool {
        self.show_bytes || self.none_set()
    }

    /// Whether the line count is part of each row.
    pub fn shows_lines(self) -> (shown: bool)
        ensures
            shown == self.lines_shown(),
    {
        self.show_lines || (!self.show_words && !self.show_bytes)
    }

    /// Whether the word count is part of each row.
    pub fn shows_words(self) -> (shown: bool)
        ensures
            shown == self.words_shown(),
    {
        self.show_words || (!self.show_lines && !self.show_bytes)
    }

    /// Whether the byte count is part of each row.
    pub fn shows_bytes(self) -> (shown: bool)
        ensures
            shown == self.bytes_shown(),
    {
        self.show_bytes || (!self.show_lines && !self.show_words)
    }
}

} // verus!
