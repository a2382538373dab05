//! Checking the lines of a text, one unit of work per line, on a pool of
//! worker threads, and handing the results back in the order of the lines.

use crate::dictionary::{is_error, misspelt, Dictionary, Sources};
use crate::input::{answers, lemma_selected_is_filter, numbered, selected, Line, LineView, Word, WordView};
use crate::tokenizer::words;
use rayon::iter::{IndexedParallelIterator, IntoParallelRefIterator, ParallelIterator};
use vstd::prelude::*;

verus! {

/// The class of the words that none of `sources` knows.
pub open spec fn unknown_to<S: Dictionary>(sources: Seq<S>) -> spec_fn(Seq<char>) -> bool {
    |word: Seq<char>| misspelt(sources, word)
}

/// The misspelt words of a line, from left to right, each with the number of the line.
pub open spec fn line_errors<S: Dictionary>(line: LineView, sources: Seq<S>) -> Seq<WordView> {
    numbered(line.number, words(line.content).filter(unknown_to(sources)))
}

/// The misspelt words of each of the lines, line by line.
pub open spec fn all_errors<S: Dictionary>(lines: Seq<LineView>, sources: Seq<S>) -> Seq<
    Seq<WordView>,
> {
    Seq::new(lines.len(), |i: int| line_errors(lines[i], sources))
}

/// One unit of work: the misspelt words of one line.
pub fn check_line<S: Dictionary>(line: &Line, sources: &Sources<S>) -> (found: Vec<Word>)
    ensures
        found.deep_view() == line_errors(line@, sources@),
{
    let is_misspelt = |word: &str| -> (error: bool)
        ensures
            error == misspelt(sources@, word@),
        { is_error(word, sources) };
    let found = line.errors(is_misspelt);
    proof {
        let texts = words(line@.content);
        let flags = choose|flags: Seq<bool>|
            {
                &&& flags.len() == texts.len()
                &&& forall|i: int| 0 <= i < flags.len() ==> answers(is_misspelt, #[trigger] texts[i], flags[i])
                &&& found.deep_view() == numbered(line@.number, selected(texts, flags))
            };
        lemma_selected_is_filter(texts, flags, unknown_to(sources@));
    }
    found
}

/// Maps `unit` over `lines` with rayon: `par_iter`, `map` and
/// `collect_into_vec`. Trusted: the result holds, for each line and in the
/// order of the lines, what `unit` returned for that line, whichever worker
/// ran it and whenever it finished. rayon panics where it cannot start its
/// worker threads.
#[verifier::external_body]
fn par_map<F: Fn(&Line) -> Vec<Word> + Sync + Send>(lines: &Vec<Line>, unit: F) -> (results: Vec<
    Vec<Word>,
>)
    requires
        forall|i: int| 0 <= i < lines.len() ==> call_requires(unit, (&#[trigger] lines[i],)),
    ensures
        results.len() == lines.len(),
        forall|i: int| 0 <= i < lines.len() ==> call_ensures(unit, (&lines[i],), #[trigger] results[i]),
{
    let mut results = Vec::new();
    lines.par_iter().map(unit).collect_into_vec(&mut results);
    results
}

/// The misspelt words of each line, in the order of the lines. The lines
/// are checked in parallel, one unit of work per line.
pub fn check_lines<S: Dictionary>(lines: &Vec<Line>, sources: &Sources<S>) -> (reports: Vec<
    Vec<Word>,
>)
    ensures
        reports.deep_view() == all_errors(lines.deep_view(), sources@),
{
    let unit = |line: &Line| -> (found: Vec<Word>)
        ensures
            found.deep_view() == line_errors(line@, sources@),
        { check_line(line, sources) };
    par_map(lines, unit)
}

} // verus!
