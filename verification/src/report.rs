//! The report: the misspelt words of all lines, flattened in the order of
//! the lines, one line of output for each, or one message where there are none.

use crate::input::{Word, WordView};
use vstd::prelude::*;
use vstd::string::StringExecFns;

verus! {

/// The message that stands for an empty report.
pub const NO_PROBLEMS: &'static str = "No problems found.";

/// The character of the decimal digit `d`.
pub open spec fn digit(d: nat) -> char
    recommends
        d < 10,
{
    (48 + d) as char
}

/// The decimal numeral of `n`, without leading zeros.
pub open spec fn decimal(n: nat) -> Seq<char>
    decreases n,
{
    if n < 10 {
        seq![digit(n)]
    } else {
        decimal(n / 10).push(digit(n % 10))
    }
}

/// One line of the report: the word alone, or after the number of its
/// line, a colon and a space.
pub open spec fn rendered(word: WordView, with_lines: bool) -> Seq<char> {
    if with_lines {
        decimal(word.number) + seq![':', ' '] + word.content
    } else {
        word.content
    }
}

/// The lines of the report on `errors`: one line for each of them, in
/// order, or the message `NO_PROBLEMS` alone where there are none.
pub open spec fn report_lines(errors: Seq<WordView>, with_lines: bool) -> Seq<Seq<char>> {
    if errors.len() == 0 {
        seq![NO_PROBLEMS@]
    } else {
        Seq::new(errors.len(), |i: int| rendered(errors[i], with_lines))
    }
}

/// Appends the decimal numeral of `n` to `s`.
fn push_decimal(n: usize, s: &mut String)
    ensures
        final(s)@ == old(s)@ + decimal(n as nat),
    decreases n,
{
    if n >= 10 {
        push_decimal(n / 10, s);
    }
    let d: u8 = (n % 10) as u8;
    s.push((48u8 + d) as char);
}

impl Word {
    /// The word as a line of the report: alone, or after the number of its
    /// line, a colon and a space.
    pub fn render(&self, with_lines: bool) -> (line: String)
        ensures
            line@ == rendered(self@, with_lines),
    {
        let mut line = String::new();
        if with_lines {
            push_decimal(self.number, &mut line);
            line.push(':');
            line.push(' ');
        }
        line.append(self.content.as_str());
        line
    }

    /// The word after the number of its line, a colon and a space.
    pub fn to_string(&self) -> (line: String)
        ensures
            line@ == rendered(self@, true),
    {
        self.render(true)
    }
}

/// The report on the misspelt words found line by line: they are
/// flattened in the order given and rendered one by one; where there are
/// none, the report is the message `NO_PROBLEMS` alone.
pub fn report(reports: &Vec<Vec<Word>>, with_lines: bool) -> (output: Vec<String>)
    ensures
        output.deep_view() == report_lines(reports.deep_view().flatten(), with_lines),
{
    let ghost all = reports.deep_view();
    let mut output: Vec<String> = Vec::new();
    let mut i: usize = 0;
    while i < reports.len()
        invariant
            i <= reports.len(),
            all == reports.deep_view(),
            output.len() == all.take(i as int).flatten().len(),
            forall|k: int| 0 <= k < output.len() ==> (#[trigger] output[k])@ == rendered(
                all.take(i as int).flatten()[k],
                with_lines,
            ),
        decreases reports.len() - i,
    {
        let found = &reports[i];
        let ghost before = all.take(i as int).flatten();
        let mut j: usize = 0;
        while j < found.len()
            invariant
                j <= found.len(),
                output.len() == before.len() + j,
                forall|k: int| 0 <= k < before.len() ==> (#[trigger] output[k])@ == rendered(before[k], with_lines),
                forall|k: int| before.len() <= k < output.len() ==> (#[trigger] output[k])@ == rendered(
                    found.deep_view()[k - before.len()],
                    with_lines,
                ),
            decreases found.len() - j,
        {
            let line = found[j].render(with_lines);
            output.push(line);
            j += 1;
        }
        proof {
            assert(all.take(i + 1) =~= all.take(i as int).push(all[i as int]));
            all.take(i as int).lemma_flatten_push(all[i as int]);
        }
        i += 1;
    }
    assert(all.take(i as int) =~= all);
    if output.len() == 0 {
        output.push(String::from_str(NO_PROBLEMS));
    }
    output
}

} // verus!
