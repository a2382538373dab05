//! The whole check: from the physical lines of a file and the sources to
//! the lines of the report.

use crate::dictionary::{known, misspelt, Dictionary, Sources};
use crate::dispatch::{all_errors, check_lines, line_errors, unknown_to};
use crate::input::{input_lines, is_blank, read_lines, LineView, WordView};
use crate::report::{report, report_lines};
use vstd::prelude::*;

verus! {

/// The report on the physical lines `raw` of a file, checked against `sources`.
pub open spec fn output_of<S: Dictionary>(raw: Seq<Seq<char>>, sources: Seq<S>, with_lines: bool) -> Seq<
    Seq<char>,
> {
    report_lines(all_errors(input_lines(raw), sources).flatten(), with_lines)
}

/// Checks the physical lines `raw` of a file against `sources` and
/// returns the lines of the report: the misspelt words in the order of
/// their lines, and within a line from left to right.
pub fn spell_check<S: Dictionary>(raw: Vec<String>, sources: &Sources<S>, with_lines: bool) -> (output:
    Vec<String>)
    ensures
        output.deep_view() == output_of(raw.deep_view(), sources@, with_lines),
{
    let lines = read_lines(raw);
    let reports = check_lines(&lines, sources);
    report(&reports, with_lines)
}

/// Whether the line numbers never fall from one word to the next.
pub open spec fn in_line_order(errors: Seq<WordView>) -> bool {
    forall|a: int, b: int| 0 <= a <= b < errors.len() ==> errors[a].number <= errors[b].number
}

/// Whether the line numbers rise from each line to the next.
pub open spec fn rising(lines: Seq<LineView>) -> bool {
    forall|i: int, j: int| 0 <= i < j < lines.len() ==> lines[i].number < lines[j].number
}

/// The lines to check are numbered from 1 by their place in the file,
/// none of them is blank, and their numbers rise.
pub proof fn lemma_input_lines_numbered(raw: Seq<Seq<char>>)
    ensures
        rising(input_lines(raw)),
        forall|k: int|
            0 <= k < input_lines(raw).len() ==> {
                let line = #[trigger] input_lines(raw)[k];
                &&& 1 <= line.number <= raw.len()
                &&& line.content == raw[line.number - 1]
                &&& !is_blank(line.content)
            },
    decreases raw.len(),
{
    if raw.len() > 0 {
        lemma_input_lines_numbered(raw.drop_last());
        let before = input_lines(raw.drop_last());
        assert forall|k: int| 0 <= k < before.len() implies (#[trigger] before[k]).content
            == raw[before[k].number - 1] by {
            assert(raw.drop_last()[before[k].number - 1] == raw[before[k].number - 1]);
        }
    }
}

/// Every misspelt word that is reported carries the number of one of the lines.
pub proof fn lemma_error_source<S: Dictionary>(lines: Seq<LineView>, sources: Seq<S>, a: int) -> (at:
    int)
    requires
        0 <= a < all_errors(lines, sources).flatten().len(),
    ensures
        0 <= at < lines.len(),
        all_errors(lines, sources).flatten()[a].number == lines[at].number,
        a < all_errors(lines.take(at + 1), sources).flatten().len(),
        all_errors(lines.take(at), sources).flatten().len() <= a,
    decreases lines.len(),
{
    let all = all_errors(lines, sources);
    if lines.len() == 0 {
        0
    } else {
        let rest = lines.drop_last();
        let before = all_errors(rest, sources);
        assert(all =~= before.push(line_errors(lines.last(), sources)));
        before.lemma_flatten_push(line_errors(lines.last(), sources));
        assert(lines.take(lines.len() as int) =~= lines);
        if a < before.flatten().len() {
            let at = lemma_error_source(rest, sources, a);
            assert(rest.take(at + 1) =~= lines.take(at + 1));
            assert(rest.take(at) =~= lines.take(at));
            at
        } else {
            lines.len() - 1
        }
    }
}

/// The misspelt words of lines whose numbers rise are reported in the
/// order of the lines: the line numbers in the report never fall.
pub proof fn lemma_errors_in_line_order<S: Dictionary>(lines: Seq<LineView>, sources: Seq<S>)
    requires
        rising(lines),
    ensures
        in_line_order(all_errors(lines, sources).flatten()),
{
    let flat = all_errors(lines, sources).flatten();
    assert forall|a: int, b: int| 0 <= a <= b < flat.len() implies flat[a].number
        <= flat[b].number by {
        let i = lemma_error_source(lines, sources, a);
        let j = lemma_error_source(lines, sources, b);
        if j < i {
            lemma_errors_grow(lines, sources, j + 1, i);
        }
    }
}

/// More lines give no fewer misspelt words.
pub proof fn lemma_errors_grow<S: Dictionary>(lines: Seq<LineView>, sources: Seq<S>, m: int, n: int)
    requires
        0 <= m <= n <= lines.len(),
    ensures
        all_errors(lines.take(m), sources).flatten().len() <= all_errors(
            lines.take(n),
            sources,
        ).flatten().len(),
    decreases n - m,
{
    if m < n {
        lemma_errors_grow(lines, sources, m, n - 1);
        let before = all_errors(lines.take(n - 1), sources);
        assert(all_errors(lines.take(n), sources) =~= before.push(line_errors(lines[n - 1], sources)));
        before.lemma_flatten_push(line_errors(lines[n - 1], sources));
    }
}

/// Whatever the workers did and in whatever order they finished, the
/// misspelt words of a file are reported in the order of its lines.
pub proof fn lemma_report_in_line_order<S: Dictionary>(raw: Seq<Seq<char>>, sources: Seq<S>)
    ensures
        in_line_order(all_errors(input_lines(raw), sources).flatten()),
{
    lemma_input_lines_numbered(raw);
    lemma_errors_in_line_order(input_lines(raw), sources);
}

/// Sources that know the same words, whatever holds them, find the same
/// words misspelt.
pub proof fn lemma_same_words_same_verdict<S: Dictionary, T: Dictionary>(
    a: Seq<S>,
    b: Seq<T>,
    word: Seq<char>,
)
    requires
        a.len() == b.len(),
        forall|i: int| 0 <= i < a.len() ==> (#[trigger] a[i]).words() == b[i].words(),
    ensures
        known(a, word) == known(b, word),
        misspelt(a, word) == misspelt(b, word),
{
    assert forall|word: Seq<char>| #[trigger] known(a, word) == known(b, word) by {
        if known(a, word) {
            let i = choose|i: int| 0 <= i < a.len() && (#[trigger] a[i]).words().contains(word);
            assert(b[i].words().contains(word));
        }
        if known(b, word) {
            let i = choose|i: int| 0 <= i < b.len() && (#[trigger] b[i]).words().contains(word);
            assert(a[i].words().contains(word));
        }
    }
}

/// The report is decided by the lines, by the words that the sources
/// know, and by the choice of line numbers: two runs over the same lines
/// against sources that know the same words, whatever holds them, give
/// the same output, character for character.
pub proof fn lemma_same_words_same_output<S: Dictionary, T: Dictionary>(
    raw: Seq<Seq<char>>,
    a: Seq<S>,
    b: Seq<T>,
    with_lines: bool,
)
    requires
        a.len() == b.len(),
        forall|i: int| 0 <= i < a.len() ==> (#[trigger] a[i]).words() == b[i].words(),
    ensures
        output_of(raw, a, with_lines) == output_of(raw, b, with_lines),
{
    assert forall|word: Seq<char>| #[trigger] misspelt(a, word) == misspelt(b, word) by {
        lemma_same_words_same_verdict(a, b, word);
    }
    assert(unknown_to(a) =~= unknown_to(b));
    assert(all_errors(input_lines(raw), a) =~= all_errors(input_lines(raw), b));
}

} // verus!
