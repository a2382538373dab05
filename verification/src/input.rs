//! Lines of input and the words found in them.

use crate::text::{computes, is_whitespace, spaces, whitespace};
use crate::tokenizer::{tokenize, words};
use vstd::prelude::*;

verus! {

/// One line of the input, with its number in the file, counted from 1.
pub struct Line {
    pub number: usize,
    pub content: String,
}

/// A line as a number and a sequence of characters.
pub struct LineView {
    pub number: nat,
    pub content: Seq<char>,
}

impl View for Line {
    type V = LineView;

    open spec fn view(&self) -> LineView {
        LineView { number: self.number as nat, content: self.content@ }
    }
}

impl DeepView for Line {
    type V = LineView;

    open spec fn deep_view(&self) -> LineView {
        self@
    }
}

/// A word of a line, as it was written, with the number of its line.
#[derive(Debug)]
pub struct Word {
    pub number: usize,
    pub content: String,
}

/// A word as a line number and a sequence of characters.
pub struct WordView {
    pub number: nat,
    pub content: Seq<char>,
}

impl View for Word {
    type V = WordView;

    open spec fn view(&self) -> WordView {
        WordView { number: self.number as nat, content: self.content@ }
    }
}

impl DeepView for Word {
    type V = WordView;

    open spec fn deep_view(&self) -> WordView {
        self@
    }
}

/// The given texts as words of line `number`.
pub open spec fn numbered(number: nat, texts: Seq<Seq<char>>) -> Seq<WordView> {
    Seq::new(texts.len(), |i: int| WordView { number, content: texts[i] })
}

/// The texts among `texts` whose flag in `flags` is set, in order.
pub open spec fn selected(texts: Seq<Seq<char>>, flags: Seq<bool>) -> Seq<Seq<char>>
    decreases texts.len(),
{
    if texts.len() == 0 || flags.len() != texts.len() {
        Seq::<Seq<char>>::empty()
    } else {
        let before = selected(texts.drop_last(), flags.drop_last());
        if flags.last() {
            before.push(texts.last())
        } else {
            before
        }
    }
}

/// Whether `answer` is something that `f` may return when it is asked about `text`.
pub open spec fn answers<F: Fn(&str) -> bool>(f: F, text: Seq<char>, answer: bool) -> bool {
    exists|asked: &str| asked@ == text && call_ensures(f, (asked,), answer)
}

/// Selecting by flags that a predicate dictates is filtering by the predicate.
pub proof fn lemma_selected_is_filter(
    texts: Seq<Seq<char>>,
    flags: Seq<bool>,
    pred: spec_fn(Seq<char>) -> bool,
)
    requires
        flags.len() == texts.len(),
        forall|i: int| 0 <= i < texts.len() ==> flags[i] == pred(#[trigger] texts[i]),
    ensures
        selected(texts, flags) == texts.filter(pred),
    decreases texts.len(),
{
    reveal(Seq::filter);
    if texts.len() > 0 {
        lemma_selected_is_filter(texts.drop_last(), flags.drop_last(), pred);
    }
}

/// Whether a text holds nothing but characters of `space`.
pub open spec fn is_blank_by(text: Seq<char>, space: spec_fn(char) -> bool) -> bool {
    forall|i: int| 0 <= i < text.len() ==> space(#[trigger] text[i])
}

/// Whether a text holds nothing but whitespace.
pub open spec fn is_blank(text: Seq<char>) -> bool {
    is_blank_by(text, spaces())
}

/// The lines to check among the physical lines `raw` of a file, where
/// `space` is the class of whitespace: those that are not blank, in order,
/// each with its position in the file, counted from 1.
pub open spec fn input_lines_by(raw: Seq<Seq<char>>, space: spec_fn(char) -> bool) -> Seq<LineView>
    decreases raw.len(),
{
    if raw.len() == 0 {
        Seq::<LineView>::empty()
    } else {
        let before = input_lines_by(raw.drop_last(), space);
        if is_blank_by(raw.last(), space) {
            before
        } else {
            before.push(LineView { number: raw.len(), content: raw.last() })
        }
    }
}

/// The lines to check among the physical lines `raw` of a file: those that
/// are not blank, in order, each with its position in the file, counted from 1.
pub open spec fn input_lines(raw: Seq<Seq<char>>) -> Seq<LineView> {
    input_lines_by(raw, spaces())
}

/// Whether `text` holds nothing but characters that `is_space` accepts.
/// `space` is the class that `is_space` computes.
pub fn blank_with<W: Fn(char) -> bool>(
    text: &str,
    is_space: &W,
    Ghost(space): Ghost<spec_fn(char) -> bool>,
) -> (b: bool)
    requires
        computes(*is_space, space),
    ensures
        b == is_blank_by(text@, space),
{
    broadcast use vstd::string::group_string_axioms;

    for c in it: text.chars()
        invariant
            it.seq() == text@,
            computes(*is_space, space),
            forall|k: int| 0 <= k < it.index() ==> space(#[trigger] text@[k]),
    {
        if !is_space(c) {
            return false;
        }
    }
    true
}

/// Whether `text` holds nothing but whitespace.
pub fn blank(text: &str) -> (b: bool)
    ensures
        b == is_blank(text@),
{
    let is_space = |c: char| -> (b: bool)
        ensures
            b == whitespace(c),
        { is_whitespace(c) };
    blank_with(text, &is_space, Ghost(spaces()))
}

/// The lines to check among the physical lines `raw` of a file, where
/// `is_space` says which characters are whitespace: blank lines are left
/// out, and each line keeps its position in the file, counted from 1, as
/// its number. `space` is the class that `is_space` computes.
pub fn read_lines_with<W: Fn(char) -> bool>(
    raw: Vec<String>,
    is_space: W,
    Ghost(space): Ghost<spec_fn(char) -> bool>,
) -> (lines: Vec<Line>)
    requires
        computes(is_space, space),
    ensures
        lines.deep_view() == input_lines_by(raw.deep_view(), space),
{
    let ghost texts = raw.deep_view();
    let ghost all = raw@;
    let count = raw.len();
    let mut lines: Vec<Line> = Vec::new();
    let mut i: usize = 0;
    for text in it: raw
        invariant
            it.seq() == all,
            all.len() == count,
            computes(is_space, space),
            texts == Seq::new(all.len(), |k: int| all[k]@),
            i == it.index(),
            lines.deep_view() == input_lines_by(texts.take(i as int), space),
    {
        assert(texts.take(i + 1).drop_last() =~= texts.take(i as int));
        if !blank_with(text.as_str(), &is_space, Ghost(space)) {
            lines.push(Line::from_source((i, text)));
        }
        i += 1;
    }
    assert(texts.take(i as int) =~= texts);
    lines
}

/// The lines to check among the physical lines `raw` of a file: blank
/// lines are left out, and each line keeps its position in the file,
/// counted from 1, as its number.
pub fn read_lines(raw: Vec<String>) -> (lines: Vec<Line>)
    ensures
        lines.deep_view() == input_lines(raw.deep_view()),
{
    let is_space = |c: char| -> (b: bool)
        ensures
            b == whitespace(c),
        { is_whitespace(c) };
    read_lines_with(raw, is_space, Ghost(spaces()))
}

/// The words of line `number` among `tokens` that `f` accepts, in order.
/// `f` is asked once about each token, in order.
pub fn select<F: Fn(&str) -> bool>(number: usize, tokens: Vec<String>, f: F) -> (found: Vec<Word>)
    requires
        forall|asked: &str| tokens.deep_view().contains(asked@) ==> call_requires(f, (asked,)),
    ensures
        exists|flags: Seq<bool>|
            {
                &&& flags.len() == tokens.len()
                &&& forall|i: int|
                    0 <= i < flags.len() ==> answers(f, #[trigger] tokens.deep_view()[i], flags[i])
                &&& found.deep_view() == numbered(number as nat, selected(tokens.deep_view(), flags))
            },
{
    let ghost all = tokens@;
    let ghost texts = tokens.deep_view();
    let mut found: Vec<Word> = Vec::new();
    let ghost mut flags: Seq<bool> = Seq::empty();
    for token in it: tokens
        invariant
            it.seq() == all,
            texts == Seq::new(all.len(), |k: int| all[k]@),
            forall|asked: &str| texts.contains(asked@) ==> call_requires(f, (asked,)),
            flags.len() == it.index(),
            forall|k: int| 0 <= k < it.index() ==> answers(f, #[trigger] texts[k], flags[k]),
            found.deep_view() == numbered(number as nat, selected(texts.take(it.index()), flags)),
    {
        assert(texts[it.index()] == token@);
        let accepted = f(token.as_str());
        proof {
            assert(texts.take(it.index() + 1).drop_last() =~= texts.take(it.index()));
            assert(flags.push(accepted).drop_last() =~= flags);
            flags = flags.push(accepted);
        }
        if accepted {
            let ghost before = found.deep_view();
            let word = Word { number, content: token };
            found.push(word);
            assert(found.deep_view() =~= before.push(word@));
        }
    }
    assert(texts.take(texts.len() as int) =~= texts);
    found
}

impl Line {
    /// The line made of a position in the file, counted from 0, and the text there.
    pub fn from_source(source: (usize, String)) -> (line: Line)
        requires
            source.0 < usize::MAX,
        ensures
            line.number == source.0 + 1,
            line.content == source.1,
    {
        Line { number: source.0 + 1, content: source.1 }
    }

    /// The words of the line, from left to right.
    pub fn words(&self) -> (found: Vec<Word>)
        ensures
            found.deep_view() == numbered(self@.number, words(self@.content)),
    {
        let tokens = tokenize(self.content.as_str());
        let ghost all = tokens@;
        let ghost texts = tokens.deep_view();
        let mut found: Vec<Word> = Vec::new();
        for token in it: tokens
            invariant
                it.seq() == all,
                texts == Seq::new(all.len(), |k: int| all[k]@),
                found.deep_view() == numbered(self@.number, texts.take(it.index())),
        {
            let ghost before = found.deep_view();
            let word = Word { number: self.number, content: token };
            found.push(word);
            assert(found.deep_view() =~= before.push(word@));
        }
        found
    }

    /// The words of the line that `f` accepts, from left to right. `f` is
    /// asked once about each word of the line, in order.
    pub fn errors<F: Fn(&str) -> bool>(&self, f: F) -> (found: Vec<Word>)
        requires
            forall|asked: &str| words(self@.content).contains(asked@) ==> call_requires(f, (asked,)),
        ensures
            exists|flags: Seq<bool>|
                {
                    &&& flags.len() == words(self@.content).len()
                    &&& forall|i: int|
                        0 <= i < flags.len() ==> answers(f, #[trigger] words(self@.content)[i], flags[i])
                    &&& found.deep_view() == numbered(
                        self@.number,
                        selected(words(self@.content), flags),
                    )
                },
    {
        select(self.number, tokenize(self.content.as_str()), f)
    }
}

impl Word {
    /// The word as it was written.
    pub fn content(&self) -> (text: &str)
        ensures
            text@ == self@.content,
    {
        self.content.as_str()
    }
}

} // verus!
