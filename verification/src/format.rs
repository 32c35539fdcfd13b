//! The report: one row for each input, and a row of totals when more than one
//! file was named.
//!
//! Every text here is modelled by its sequence of characters, and a report by
//! the sequence of its rows. A row ends where its text ends: the line feed
//! after it is for whoever puts the report out.

use crate::counter::{CountResult, CountResultView};
use crate::decimal::{
    decimal, digit_count, lemma_decimal_len_monotonic, pad_left, push_decimal, spaces,
};
use crate::flags::DisplayFlags;
use crate::input::{is_stdin_name, stdin_name};
use vstd::prelude::*;

verus! {

/// The label of the row of totals.
pub open spec fn total_label() -> Seq<char> {
    seq!['t', 'o', 't', 'a', 'l']
}

/// `parts` in order, with `sep` between each two neighbours.
pub open spec fn join(parts: Seq<Seq<char>>, sep: Seq<char>) -> Seq<char>
    decreases parts.len(),
{
    if parts.len() == 0 {
        Seq::empty()
    } else if parts.len() == 1 {
        parts[0]
    } else {
        join(parts.drop_last(), sep) + sep + parts.last()
    }
}

/// The counts of `result` that `flags` select, in the order lines, words,
/// bytes, each in decimal and right-aligned to `width`.
pub open spec fn shown_fields(result: CountResultView, flags: DisplayFlags, width: nat) -> Seq<
    Seq<char>,
> {
    let lines = if flags.lines_shown() {
        seq![pad_left(decimal(result.lines), width)]
    } else {
        Seq::empty()
    };
    let words = if flags.words_shown() {
        seq![pad_left(decimal(result.words), width)]
    } else {
        Seq::empty()
    };
    let bytes = if flags.bytes_shown() {
        seq![pad_left(decimal(result.bytes), width)]
    } else {
        Seq::empty()
    };
    lines + words + bytes
}

/// The row of one input.
///
/// Standard input gets its selected counts with a tab between them, without
/// padding and without a name. Any other input gets its selected counts
/// right-aligned to `width` and then its name, with a space between each two.
pub open spec fn row_text(result: CountResultView, flags: DisplayFlags, width: nat) -> Seq<char> {
    if result.name == stdin_name() {
        join(shown_fields(result, flags, 0), seq!['\t'])
    } else {
        join(shown_fields(result, flags, width).push(result.name), seq![' '])
    }
}

/// The largest single count among `results`, and 0 where there is none.
pub open spec fn largest_count(results: Seq<CountResultView>) -> nat
    decreases results.len(),
{
    if results.len() == 0 {
        0
    } else {
        let rest = largest_count(results.drop_last());
        let last = results.last();
        let a = if last.lines >= rest {
            last.lines
        } else {
            rest
        };
        let b = if last.words >= a {
            last.words
        } else {
            a
        };
        if last.bytes >= b {
            last.bytes
        } else {
            b
        }
    }
}

/// The width of the columns of a report on `results`: the number of digits of
/// the largest single count, and 0 for no results at all.
pub open spec fn column_width(results: Seq<CountResultView>) -> nat {
    if results.len() == 0 {
        0
    } else {
        decimal(largest_count(results)).len()
    }
}

/// The sums of the three counts over a sequence of results.
pub struct Totals {
    pub lines: u128,
    pub words: u128,
    pub bytes: u128,
}

/// The sum of the line counts of `results`.
pub open spec fn total_lines(results: Seq<CountResultView>) -> nat
    decreases results.len(),
{
    if results.len() == 0 {
        0
    } else {
        total_lines(results.drop_last()) + results.last().lines
    }
}

/// The sum of the word counts of `results`.
pub open spec fn total_words(results: Seq<CountResultView>) -> nat
    decreases results.len(),
{
    if results.len() == 0 {
        0
    } else {
        total_words(results.drop_last()) + results.last().words
    }
}

/// The sum of the byte counts of `results`.
pub open spec fn total_bytes(results: Seq<CountResultView>) -> nat
    decreases results.len(),
{
    if results.len() == 0 {
        0
    } else {
        total_bytes(results.drop_last()) + results.last().bytes
    }
}

/// The row of totals: the three sums, whatever the flags select, each
/// right-aligned to `width`, and then the word `total`, with a space between
/// each two.
pub open spec fn total_text(lines: nat, words: nat, bytes: nat, width: nat) -> Seq<char> {
    join(
        seq![
            pad_left(decimal(lines), width),
            pad_left(decimal(words), width),
            pad_left(decimal(bytes), width),
            total_label(),
        ],
        seq![' '],
    )
}

/// The report on `results` when `file_args` files were named: the rows of the
/// results in their order, all aligned to one column width, and after them a
/// row of totals if more than one file was named.
pub open spec fn report(results: Seq<CountResultView>, flags: DisplayFlags, file_args: nat) -> Seq<
    Seq<char>,
> {
    let width = column_width(results);
    let rows = Seq::new(results.len(), |i: int| row_text(results[i], flags, width));
    if file_args > 1 {
        rows.push(
            total_text(total_lines(results), total_words(results), total_bytes(results), width),
        )
    } else {
        rows
    }
}

/// With no flag set, a row shows all three counts, in the order lines,
/// words, bytes, as it does with every flag set.
pub proof fn lemma_no_flags_show_all_counts(
    result: CountResultView,
    flags: DisplayFlags,
    width: nat,
)
    requires
        flags.none_set(),
    ensures
        shown_fields(result, flags, width) == seq![
            pad_left(decimal(result.lines), width),
            pad_left(decimal(result.words), width),
            pad_left(decimal(result.bytes), width),
        ],
        row_text(result, flags, width) == row_text(
            result,
            (DisplayFlags { show_lines: true, show_words: true, show_bytes: true }),
            width,
        ),
{
    let all = DisplayFlags { show_lines: true, show_words: true, show_bytes: true };
    assert(shown_fields(result, flags, width) =~= seq![
        pad_left(decimal(result.lines), width),
        pad_left(decimal(result.words), width),
        pad_left(decimal(result.bytes), width),
    ]);
    assert(shown_fields(result, flags, width) =~= shown_fields(result, all, width));
    assert(shown_fields(result, flags, 0) =~= shown_fields(result, all, 0));
}

/// No count among `results` is above the largest, and the largest is one of
/// them unless there is no result.
pub proof fn lemma_largest_count_is_largest(results: Seq<CountResultView>)
    ensures
        forall|i: int|
            0 <= i < results.len() ==> {
                &&& (#[trigger] results[i]).lines <= largest_count(results)
                &&& results[i].words <= largest_count(results)
                &&& results[i].bytes <= largest_count(results)
            },
        results.len() > 0 ==> exists|i: int|
            0 <= i < results.len() && {
                ||| (#[trigger] results[i]).lines == largest_count(results)
                ||| results[i].words == largest_count(results)
                ||| results[i].bytes == largest_count(results)
            },
    decreases results.len(),
{
    if results.len() > 0 {
        let rest = results.drop_last();
        let last = results.len() - 1;
        lemma_largest_count_is_largest(rest);
        assert forall|i: int| 0 <= i < results.len() implies {
            &&& (#[trigger] results[i]).lines <= largest_count(results)
            &&& results[i].words <= largest_count(results)
            &&& results[i].bytes <= largest_count(results)
        } by {
            if i < last {
                assert(rest[i] == results[i]);
            }
        }
        if largest_count(results) == largest_count(rest) && rest.len() > 0 {
            let i = choose|i: int|
                0 <= i < rest.len() && {
                    ||| (#[trigger] rest[i]).lines == largest_count(rest)
                    ||| rest[i].words == largest_count(rest)
                    ||| rest[i].bytes == largest_count(rest)
                };
            assert(rest[i] == results[i]);
        } else {
            assert(results[last].lines == largest_count(results) || results[last].words
                == largest_count(results) || results[last].bytes == largest_count(results));
        }
    }
}

/// In a report every count of every result fills its column exactly: padded
/// to the column width it is as wide as the column, so the columns of all
/// rows line up. The column is no wider than needed: some count has as many
/// digits as the column is wide.
pub proof fn lemma_counts_fill_their_column(results: Seq<CountResultView>)
    ensures
        forall|i: int|
            0 <= i < results.len() ==> {
                let width = column_width(results);
                &&& pad_left(decimal((#[trigger] results[i]).lines), width).len() == width
                &&& pad_left(decimal(results[i].words), width).len() == width
                &&& pad_left(decimal(results[i].bytes), width).len() == width
            },
        results.len() > 0 ==> exists|i: int|
            0 <= i < results.len() && {
                ||| decimal((#[trigger] results[i]).lines).len() == column_width(results)
                ||| decimal(results[i].words).len() == column_width(results)
                ||| decimal(results[i].bytes).len() == column_width(results)
            },
{
    lemma_largest_count_is_largest(results);
    let width = column_width(results);
    assert forall|i: int| 0 <= i < results.len() implies {
        &&& pad_left(decimal((#[trigger] results[i]).lines), width).len() == width
        &&& pad_left(decimal(results[i].words), width).len() == width
        &&& pad_left(decimal(results[i].bytes), width).len() == width
    } by {
        lemma_decimal_len_monotonic(results[i].lines, largest_count(results));
        lemma_decimal_len_monotonic(results[i].words, largest_count(results));
        lemma_decimal_len_monotonic(results[i].bytes, largest_count(results));
    }
    if results.len() > 0 {
        let i = choose|i: int|
            0 <= i < results.len() && {
                ||| (#[trigger] results[i]).lines == largest_count(results)
                ||| results[i].words == largest_count(results)
                ||| results[i].bytes == largest_count(results)
            };
        assert(decimal(results[i].lines).len() == width || decimal(results[i].words).len() == width
            || decimal(results[i].bytes).len() == width);
    }
}

/// A report has one row for each result, in the order of the results, and
/// the row of totals, if there is one, comes last.
pub proof fn lemma_report_shape(results: Seq<CountResultView>, flags: DisplayFlags, file_args: nat)
    ensures
        report(results, flags, file_args).len() == results.len() + if file_args > 1 {
            1int
        } else {
            0int
        },
        forall|i: int|
            0 <= i < results.len() ==> #[trigger] report(results, flags, file_args)[i] == row_text(
                results[i],
                flags,
                column_width(results),
            ),
        file_args > 1 ==> report(results, flags, file_args).last() == total_text(
            total_lines(results),
            total_words(results),
            total_bytes(results),
            column_width(results),
        ),
{
}

/// Appends `count` spaces to `out`.
fn push_spaces(out: &mut String, count: usize)
    ensures
        final(out)@ == old(out)@ + spaces(count as nat),
{
    proof {
        reveal_strlit(" ");
    }
    let mut done: usize = 0;
    assert(out@ =~= old(out)@ + spaces(0));
    while done < count
        invariant
            done <= count,
            out@ == old(out)@ + spaces(done as nat),
            " "@ == seq![' '],
        decreases count - done,
    {
        out.append(" ");
        done = done + 1;
        assert(out@ =~= old(out)@ + spaces(done as nat));
    }
}

/// Appends `n` in decimal to `out`, right-aligned to `width`.
fn push_padded(out: &mut String, n: u128, width: usize)
    ensures
        final(out)@ == old(out)@ + pad_left(decimal(n as nat), width as nat),
{
    let len: usize = digit_count(n);
    if len < width {
        push_spaces(out, width - len);
    }
    push_decimal(out, n);
    assert(out@ =~= old(out)@ + pad_left(decimal(n as nat), width as nat));
}

/// Appends one more count to a joined text: `sep` unless the count is the
/// first part, then `n` in decimal, right-aligned to `width`.
fn push_field(
    out: &mut String,
    parts: Ghost<Seq<Seq<char>>>,
    first: bool,
    sep: &str,
    n: u128,
    width: usize,
)
    requires
        old(out)@ == join(parts@, sep@),
        first == (parts@.len() == 0),
    ensures
        final(out)@ == join(parts@.push(pad_left(decimal(n as nat), width as nat)), sep@),
{
    if !first {
        out.append(sep);
    }
    push_padded(out, n, width);
    proof {
        let field = pad_left(decimal(n as nat), width as nat);
        assert(parts@.push(field).drop_last() =~= parts@);
        assert(out@ =~= join(parts@.push(field), sep@));
    }
}

/// The row of one input in a report whose columns are `width` wide.
pub fn format_row(result: &CountResult, flags: DisplayFlags, width: usize) -> (row: String)
    ensures
        row@ == row_text(result@, flags, width as nat),
{
    proof {
        reveal_strlit("\t");
        reveal_strlit(" ");
    }
    let tabbed: bool = is_stdin_name(result.name.as_str());
    let sep: &str = if tabbed {
        "\t"
    } else {
        " "
    };
    let field_width: usize = if tabbed {
        0
    } else {
        width
    };
    assert(sep@ =~= if tabbed {
        seq!['\t']
    } else {
        seq![' ']
    });
    let mut row = String::new();
    let mut first: bool = true;
    let ghost mut parts: Seq<Seq<char>> = Seq::empty();
    if flags.shows_lines() {
        push_field(&mut row, Ghost(parts), first, sep, result.lines as u128, field_width);
        first = false;
        proof {
            parts = parts.push(pad_left(decimal(result.lines as nat), field_width as nat));
        }
    }
    if flags.shows_words() {
        push_field(&mut row, Ghost(parts), first, sep, result.words as u128, field_width);
        first = false;
        proof {
            parts = parts.push(pad_left(decimal(result.words as nat), field_width as nat));
        }
    }
    if flags.shows_bytes() {
        push_field(&mut row, Ghost(parts), first, sep, result.bytes as u128, field_width);
        first = false;
        proof {
            parts = parts.push(pad_left(decimal(result.bytes as nat), field_width as nat));
        }
    }
    assert(parts =~= shown_fields(result@, flags, field_width as nat));
    if !tabbed {
        row.append(sep);
        row.append(result.name.as_str());
        proof {
            assert(parts.push(result.name@).drop_last() =~= parts);
            assert(row@ =~= join(parts.push(result.name@), sep@));
        }
    }
    row
}

/// The row of totals in a report whose columns are `width` wide.
pub fn format_total(totals: &Totals, width: usize) -> (row: String)
    ensures
        row@ == total_text(
            totals.lines as nat,
            totals.words as nat,
            totals.bytes as nat,
            width as nat,
        ),
{
    proof {
        reveal_strlit(" ");
        reveal_strlit("total");
    }
    assert(" "@ =~= seq![' ']);
    let mut row = String::new();
    let ghost mut parts: Seq<Seq<char>> = Seq::empty();
    push_field(&mut row, Ghost(parts), true, " ", totals.lines, width);
    proof {
        parts = parts.push(pad_left(decimal(totals.lines as nat), width as nat));
    }
    push_field(&mut row, Ghost(parts), false, " ", totals.words, width);
    proof {
        parts = parts.push(pad_left(decimal(totals.words as nat), width as nat));
    }
    push_field(&mut row, Ghost(parts), false, " ", totals.bytes, width);
    proof {
        parts = parts.push(pad_left(decimal(totals.bytes as nat), width as nat));
    }
    row.append(" ");
    row.append("total");
    proof {
        assert("total"@ =~= total_label());
        let all = parts.push(total_label());
        assert(all.drop_last() =~= parts);
        assert(row@ =~= join(all, seq![' ']));
        assert(all =~= seq![
            pad_left(decimal(totals.lines as nat), width as nat),
            pad_left(decimal(totals.words as nat), width as nat),
            pad_left(decimal(totals.bytes as nat), width as nat),
            total_label(),
        ]);
    }
    row
}

/// The largest of three counts and a bound found so far.
fn largest_of(bound: usize, result: &CountResult) -> (largest: usize)
    ensures
        largest >= bound,
        largest >= result.lines,
        largest >= result.words,
        largest >= result.bytes,
        largest == bound || largest == result.lines || largest == result.words || largest
            == result.bytes,
{
    let mut largest: usize = bound;
    if result.lines >= largest {
        largest = result.lines;
    }
    if result.words >= largest {
        largest = result.words;
    }
    if result.bytes >= largest {
        largest = result.bytes;
    }
    largest
}

/// The width of the columns of a report on `results`.
pub fn column_width_of(results: &Vec<CountResult>) -> (width: usize)
    ensures
        width == column_width(results.deep_view()),
{
    let ghost views = results.deep_view();
    let mut largest: usize = 0;
    let mut i: usize = 0;
    assert(views.take(0) =~= Seq::empty());
    while i < results.len()
        invariant
            i <= results.len(),
            views == results.deep_view(),
            largest == largest_count(views.take(i as int)),
        decreases results.len() - i,
    {
        proof {
            assert(views.take(i + 1).drop_last() =~= views.take(i as int));
            assert(views.take(i + 1).last() == results[i as int]@);
        }
        largest = largest_of(largest, &results[i]);
        i = i + 1;
    }
    assert(views.take(i as int) =~= views);
    if results.len() == 0 {
        0
    } else {
        digit_count(largest as u128)
    }
}

/// The sums of the three counts over `results`.
pub fn sum_counts(results: &Vec<CountResult>) -> (totals: Totals)
    ensures
        totals.lines == total_lines(results.deep_view()),
        totals.words == total_words(results.deep_view()),
        totals.bytes == total_bytes(results.deep_view()),
{
    let ghost views = results.deep_view();
    let mut totals = Totals { lines: 0, words: 0, bytes: 0 };
    let mut i: usize = 0;
    assert(views.take(0) =~= Seq::empty());
    while i < results.len()
        invariant
            i <= results.len(),
            views == results.deep_view(),
            totals.lines == total_lines(views.take(i as int)),
            totals.words == total_words(views.take(i as int)),
            totals.bytes == total_bytes(views.take(i as int)),
            totals.lines <= i * usize::MAX,
            totals.words <= i * usize::MAX,
            totals.bytes <= i * usize::MAX,
        decreases results.len() - i,
    {
        proof {
            assert(views.take(i + 1).drop_last() =~= views.take(i as int));
            assert(views.take(i + 1).last() == results[i as int]@);
            assert((i + 1) * usize::MAX == i * usize::MAX + usize::MAX) by (nonlinear_arith);
            assert((i + 1) * usize::MAX <= u128::MAX) by (nonlinear_arith)
                requires
                    i + 1 <= 0xffff_ffff_ffff_ffff,
                    usize::MAX <= 0xffff_ffff_ffff_ffff,
            ;
        }
        let result = &results[i];
        totals.lines = totals.lines + result.lines as u128;
        totals.words = totals.words + result.words as u128;
        totals.bytes = totals.bytes + result.bytes as u128;
        i = i + 1;
    }
    assert(views.take(i as int) =~= views);
    totals
}

/// The report on `results` when `file_args` files were named on the command
/// line, one row to a string and none with a line feed.
pub fn render_report(results: &Vec<CountResult>, flags: DisplayFlags, file_args: usize) -> (rows:
    Vec<String>)
    ensures
        rows.deep_view() == report(results.deep_view(), flags, file_args as nat),
{
    let ghost views = results.deep_view();
    let width: usize = column_width_of(results);
    let mut rows: Vec<String> = Vec::new();
    let mut i: usize = 0;
    while i < results.len()
        invariant
            i <= results.len(),
            views == results.deep_view(),
            width == column_width(views),
            rows.len() == i,
            forall|j: int| 0 <= j < i ==> #[trigger] rows[j]@ == row_text(views[j], flags, width as nat),
        decreases results.len() - i,
    {
        let row = format_row(&results[i], flags, width);
        rows.push(row);
        i = i + 1;
    }
    if file_args > 1 {
        let totals = sum_counts(results);
        rows.push(format_total(&totals, width));
    }
    assert(rows.deep_view() =~= report(views, flags, file_args as nat));
    rows
}

} // verus!
