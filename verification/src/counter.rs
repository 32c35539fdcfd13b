//! The three counts of a text: lines, words and bytes.
//!
//! A text is modelled by its sequence of characters. The counts are defined
//! on that sequence:
//!
//! * a *line* is a segment that a line feed ends, or a last segment that is
//!   not empty and that no line feed ends;
//! * a *word* is a maximal run of characters that are not whitespace;
//! * the *bytes* are those of the UTF-8 encoding of the text.

use vstd::prelude::*;
use vstd::utf8::encode_utf8;

verus! {

/// Whether `c` separates words: the characters that Unicode classes as
/// `White_Space`.
pub open spec fn is_whitespace(c: char) -> bool {
    let u = c as u32;
    ||| 0x0009 <= u <= 0x000D
    ||| u == 0x0020
    ||| u == 0x0085
    ||| u == 0x00A0
    ||| u == 0x1680
    ||| 0x2000 <= u <= 0x200A
    ||| u == 0x2028
    ||| u == 0x2029
    ||| u == 0x202F
    ||| u == 0x205F
    ||| u == 0x3000
}

/// The number of line feeds in `text`.
pub open spec fn newline_count(text: Seq<char>) -> nat
    decreases text.len(),
{
    if text.len() == 0 {
        0
    } else {
        newline_count(text.drop_last()) + if text.last() == '\n' {
            1nat
        } else {
            0nat
        }
    }
}

/// Whether `text` ends in a segment that is not empty and that no line feed
/// ends.
pub open spec fn ends_in_open_line(text: Seq<char>) -> bool {
    text.len() > 0 && text.last() != '\n'
}

/// The number of lines of `text`: one for each line feed, and one more for
/// an unterminated last segment. The empty text has no line, and `"a\nb"` has
/// as many lines as `"a\nb\n"`.
pub open spec fn line_count(text: Seq<char>) -> nat {
    newline_count(text) + if ends_in_open_line(text) {
        1nat
    } else {
        0nat
    }
}

/// Whether a word begins at position `i` of `text`: the character there is
/// not whitespace, and it is the first of the text or follows whitespace.
pub open spec fn starts_word(text: Seq<char>, i: int) -> bool {
    &&& 0 <= i < text.len()
    &&& !is_whitespace(text[i])
    &&& (i == 0 || is_whitespace(text[i - 1]))
}

/// The number of words of `text`: the number of positions at which a maximal
/// run of characters that are not whitespace begins.
pub open spec fn word_count(text: Seq<char>) -> nat
    decreases text.len(),
{
    if text.len() == 0 {
        0
    } else {
        word_count(text.drop_last()) + if starts_word(text, text.len() - 1) {
            1nat
        } else {
            0nat
        }
    }
}

/// The number of bytes of `text` in UTF-8.
pub open spec fn byte_len(text: Seq<char>) -> nat {
    encode_utf8(text).len()
}

/// Whether `c` separates words.
pub fn char_is_whitespace(c: char) -> (ws: bool)
    ensures
        ws == is_whitespace(c),
{
    let u: u32 = c as u32;
    (0x0009 <= u && u <= 0x000D) || u == 0x0020 || u == 0x0085 || u == 0x00A0 || u == 0x1680 || (
    0x2000 <= u && u <= 0x200A) || u == 0x2028 || u == 0x2029 || u == 0x202F || u == 0x205F || u
        == 0x3000
}

/// A text has at least as many bytes as it has characters.
pub proof fn lemma_byte_len_at_least_char_count(text: Seq<char>)
    ensures
        byte_len(text) >= text.len(),
    decreases text.len(),
{
    if text.len() > 0 {
        lemma_byte_len_at_least_char_count(text.drop_first());
    }
}

/// There are no more line feeds than characters, and no more lines either.
pub proof fn lemma_line_count_at_most_char_count(text: Seq<char>)
    ensures
        newline_count(text) <= text.len(),
        line_count(text) <= text.len(),
    decreases text.len(),
{
    if text.len() > 0 {
        lemma_line_count_at_most_char_count(text.drop_last());
    }
}

/// There are no more words than characters.
pub proof fn lemma_word_count_at_most_char_count(text: Seq<char>)
    ensures
        word_count(text) <= text.len(),
    decreases text.len(),
{
    if text.len() > 0 {
        lemma_word_count_at_most_char_count(text.drop_last());
    }
}

/// The positions of `text` at which a word begins.
pub open spec fn word_starts(text: Seq<char>) -> Set<int> {
    Set::new(|i: int| starts_word(text, i))
}

/// Whether the characters of `text` from `start` up to, but without, `end`
/// form a word: a run of characters that are not whitespace, which can be
/// made longer on neither side.
pub open spec fn is_word(text: Seq<char>, start: int, end: int) -> bool {
    &&& 0 <= start < end <= text.len()
    &&& forall|k: int| start <= k < end ==> !is_whitespace(#[trigger] text[k])
    &&& (start == 0 || is_whitespace(text[start - 1]))
    &&& (end == text.len() || is_whitespace(text[end]))
}

/// The word count is the number of positions at which a word begins.
pub proof fn lemma_word_count_is_number_of_word_starts(text: Seq<char>)
    ensures
        word_starts(text).finite(),
        word_starts(text).len() == word_count(text),
    decreases text.len(),
{
    if text.len() == 0 {
        assert(word_starts(text) =~= Set::<int>::empty());
    } else {
        let prefix = text.drop_last();
        let last = text.len() - 1;
        lemma_word_count_is_number_of_word_starts(prefix);
        assert forall|i: int| starts_word(prefix, i) == (i != last && starts_word(text, i)) by {}
        if starts_word(text, last) {
            assert(word_starts(text) =~= word_starts(prefix).insert(last));
        } else {
            assert(word_starts(text) =~= word_starts(prefix));
        }
    }
}

/// A run of characters that are not whitespace, from `start` up to `from`,
/// reaches an end at which it is a word.
proof fn lemma_run_reaches_an_end(text: Seq<char>, start: int, from: int) -> (end: int)
    requires
        starts_word(text, start),
        start < from <= text.len(),
        forall|k: int| start <= k < from ==> !is_whitespace(#[trigger] text[k]),
    ensures
        is_word(text, start, end),
    decreases text.len() - from,
{
    if from == text.len() || is_whitespace(text[from]) {
        from
    } else {
        lemma_run_reaches_an_end(text, start, from + 1)
    }
}

/// Words and the positions at which a word begins match one to one: a word
/// begins at `start` exactly if some word reaches from `start` to an end, and
/// then there is one such end only.
pub proof fn lemma_word_starts_match_words(text: Seq<char>, start: int)
    ensures
        starts_word(text, start) <==> exists|end: int| is_word(text, start, end),
        forall|end: int, other: int|
            is_word(text, start, end) && is_word(text, start, other) ==> end == other,
{
    if starts_word(text, start) {
        let end = lemma_run_reaches_an_end(text, start, start + 1);
        assert(is_word(text, start, end));
    }
    if exists|end: int| is_word(text, start, end) {
        let end = choose|end: int| is_word(text, start, end);
        assert(!is_whitespace(text[start]));
    }
    assert forall|end: int, other: int|
        is_word(text, start, end) && is_word(text, start, other) implies end == other by {
        if end < other {
            assert(!is_whitespace(text[end]));
        }
        if other < end {
            assert(!is_whitespace(text[other]));
        }
    }
}

/// A line feed at the end of a text closes its last line and opens no other:
/// after it the text has one line for each of its line feeds. So a last line
/// counts the same with and without its line feed.
pub proof fn lemma_final_line_feed_is_optional(text: Seq<char>)
    ensures
        line_count(text.push('\n')) == newline_count(text) + 1,
        ends_in_open_line(text) ==> line_count(text.push('\n')) == line_count(text),
        !ends_in_open_line(text) ==> line_count(text.push('\n')) == line_count(text) + 1,
{
    assert(text.push('\n').drop_last() =~= text);
}

/// The number of bytes of `input`.
pub fn count_bytes(input: &str) -> (bytes: usize)
    ensures
        bytes == byte_len(input@),
{
    input.as_bytes().len()
}

/// The number of lines of `input`.
pub fn count_lines(input: &str) -> (lines: usize)
    ensures
        lines == line_count(input@),
{
    let limit: usize = count_bytes(input);
    let mut newlines: usize = 0;
    let mut open_line: bool = false;
    proof {
        lemma_byte_len_at_least_char_count(input@);
    }
    for c in it: input.chars()
        invariant
            it.seq() == input@,
            input@.len() <= limit,
            newlines == newline_count(input@.take(it.index())),
            open_line == ends_in_open_line(input@.take(it.index())),
    {
        proof {
            let k = it.index();
            assert(input@.take(k + 1).drop_last() =~= input@.take(k));
            lemma_line_count_at_most_char_count(input@.take(k));
        }
        if c == '\n' {
            newlines = newlines + 1;
            open_line = false;
        } else {
            open_line = true;
        }
    }
    proof {
        assert(input@.take(input@.len() as int) =~= input@);
        lemma_line_count_at_most_char_count(input@);
    }
    if open_line {
        newlines + 1
    } else {
        newlines
    }
}

/// The number of words of `input`.
pub fn count_words(input: &str) -> (words: usize)
    ensures
        words == word_count(input@),
{
    let limit: usize = count_bytes(input);
    let mut words: usize = 0;
    let mut after_whitespace: bool = true;
    proof {
        lemma_byte_len_at_least_char_count(input@);
    }
    for c in it: input.chars()
        invariant
            it.seq() == input@,
            input@.len() <= limit,
            words == word_count(input@.take(it.index())),
            after_whitespace == (it.index() == 0 || is_whitespace(input@[it.index() - 1])),
    {
        proof {
            let k = it.index();
            assert(input@.take(k + 1).drop_last() =~= input@.take(k));
            lemma_word_count_at_most_char_count(input@.take(k));
        }
        let ws: bool = char_is_whitespace(c);
        if !ws && after_whitespace {
            words = words + 1;
        }
        after_whitespace = ws;
    }
    proof {
        assert(input@.take(input@.len() as int) =~= input@);
    }
    words
}

/// The counts of one input, under the name it was read by.
#[derive(Clone, Debug, PartialEq, Eq)]
pub struct CountResult {
    pub name: String,
    pub lines: usize,
    pub words: usize,
    pub bytes: usize,
}

/// What a [`CountResult`] stands for: a name and three natural numbers.
pub struct CountResultView {
    pub name: Seq<char>,
    pub lines: nat,
    pub words: nat,
    pub bytes: nat,
}

impl View for CountResult {
    type V = CountResultView;

    open spec fn view(&self) -> CountResultView {
        CountResultView {
            name: self.name@,
            lines: self.lines as nat,
            words: self.words as nat,
            bytes: self.bytes as nat,
        }
    }
}

impl DeepView for CountResult {
    type V = CountResultView;

    open spec fn deep_view(&self) -> CountResultView {
        self@
    }
}

/// The counts of `text`, under `name`.
pub open spec fn counts_of(text: Seq<char>, name: Seq<char>) -> CountResultView {
    CountResultView {
        name,
        lines: line_count(text),
        words: word_count(text),
        bytes: byte_len(text),
    }
}

/// Counts the lines, words and bytes of `input`, which was read under the
/// name `file`.
pub fn parse_input(input: &str, file: &str) -> (result: CountResult)
    ensures
        result@ == counts_of(input@, file@),
{
    CountResult {
        name: file.to_owned(),
        lines: count_lines(input),
        words: count_words(input),
        bytes: count_bytes(input),
    }
}

} // verus!
