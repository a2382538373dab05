//! Splitting a line of text into words.
//!
//! A line is split at whitespace; each of the tokens between is split
//! again at hyphens; each fragment then loses the characters at either end
//! that are no letters; and what is left of a fragment, unless it is empty,
//! is a word.
//!
//! Which characters are whitespace and which are letters is for the
//! standard library to say. The rule itself is stated, and proved, for any
//! two classes of characters.

use crate::text::{
    alphabetic, chars_of, computes, is_alphabetic, is_whitespace, letters, outside, spaces,
    string_of, strip, strip_back, strip_bounds, strip_front, whitespace,
};
use vstd::prelude::*;

verus! {

/// The pieces of `s` between the characters that `sep` holds of, in order.
/// A piece may be empty: `n` separators give `n + 1` pieces.
pub open spec fn pieces(s: Seq<char>, sep: spec_fn(char) -> bool) -> Seq<Seq<char>>
    decreases s.len(),
{
    if s.len() == 0 {
        seq![Seq::<char>::empty()]
    } else {
        let before = pieces(s.drop_last(), sep);
        if sep(s.last()) {
            before.push(Seq::<char>::empty())
        } else {
            before.drop_last().push(before.last().push(s.last()))
        }
    }
}

/// The class that holds the hyphen alone.
pub open spec fn hyphen() -> spec_fn(char) -> bool {
    |c: char| c == '-'
}

/// The class of the characters that end a fragment: those of `space`, and the hyphen.
pub open spec fn separator(space: spec_fn(char) -> bool) -> spec_fn(char) -> bool {
    |c: char| space(c) || c == '-'
}

/// The pieces of a token between its hyphens.
pub open spec fn split_at_hyphens() -> spec_fn(Seq<char>) -> Seq<Seq<char>> {
    |token: Seq<char>| pieces(token, hyphen())
}

/// The fragments of a line: it is split at the characters of `space`, and
/// each token between is split at hyphens.
pub open spec fn fragments(line: Seq<char>, space: spec_fn(char) -> bool) -> Seq<Seq<char>> {
    pieces(line, space).map_values(split_at_hyphens()).flatten()
}

/// The word in a fragment: the fragment without the characters at either
/// end that are not of `letter`. It is empty where the fragment holds none
/// of that class.
pub open spec fn word_of(fragment: Seq<char>, letter: spec_fn(char) -> bool) -> Seq<char> {
    strip(fragment, outside(letter))
}

/// The words of the given fragments, in order: the fragments that hold no
/// letter give none.
pub open spec fn words_in(fragments: Seq<Seq<char>>, letter: spec_fn(char) -> bool) -> Seq<
    Seq<char>,
>
    decreases fragments.len(),
{
    if fragments.len() == 0 {
        Seq::<Seq<char>>::empty()
    } else {
        words_with(words_in(fragments.drop_last(), letter), fragments.last(), letter)
    }
}

/// The words `found` so far and that of one fragment more, if it holds one.
pub open spec fn words_with(
    found: Seq<Seq<char>>,
    fragment: Seq<char>,
    letter: spec_fn(char) -> bool,
) -> Seq<Seq<char>> {
    if word_of(fragment, letter).len() > 0 {
        found.push(word_of(fragment, letter))
    } else {
        found
    }
}

/// The words of a line, from left to right, where `space` is the class of
/// whitespace and `letter` that of letters.
pub open spec fn words_by(
    line: Seq<char>,
    space: spec_fn(char) -> bool,
    letter: spec_fn(char) -> bool,
) -> Seq<Seq<char>> {
    words_in(fragments(line, space), letter)
}

/// The words of a line, from left to right.
pub open spec fn words(line: Seq<char>) -> Seq<Seq<char>> {
    words_by(line, spaces(), letters())
}

/// Splitting never gives an empty list of pieces.
pub proof fn lemma_pieces_nonempty(s: Seq<char>, sep: spec_fn(char) -> bool)
    ensures
        pieces(s, sep).len() >= 1,
    decreases s.len(),
{
    if s.len() > 0 {
        lemma_pieces_nonempty(s.drop_last(), sep);
    }
}

/// Splitting at the characters of `space` and then at hyphens gives the
/// pieces between the characters that are of `space` or a hyphen.
pub proof fn lemma_fragments_are_pieces(line: Seq<char>, space: spec_fn(char) -> bool)
    ensures
        fragments(line, space) == pieces(line, separator(space)),
    decreases line.len(),
{
    broadcast use {Seq::lemma_flatten_push, Seq::lemma_push_map_commute};

    if line.len() > 0 {
        let rest = line.drop_last();
        let c = line.last();
        lemma_fragments_are_pieces(rest, space);
        lemma_pieces_nonempty(rest, space);
        lemma_pieces_nonempty(rest, separator(space));
        // The last token of `rest` is the one that `c` ends or lengthens,
        // and so is the last of its pieces.
        let tokens = pieces(rest, space);
        lemma_pieces_nonempty(tokens.last(), hyphen());
        assert(tokens =~= tokens.drop_last().push(tokens.last()));
        if !space(c) {
            assert(tokens.last().push(c).drop_last() =~= tokens.last());
            if c != '-' {
                assert(fragments(line, space) =~= fragments(rest, space).drop_last().push(
                    fragments(rest, space).last().push(c),
                ));
            }
        }
    }
}

/// No piece holds a separator, and every character of a piece is one of
/// the text that was split.
pub proof fn lemma_pieces_hold_no_separator(s: Seq<char>, sep: spec_fn(char) -> bool, p: int, k: int)
    requires
        0 <= p < pieces(s, sep).len(),
        0 <= k < pieces(s, sep)[p].len(),
    ensures
        !sep(pieces(s, sep)[p][k]),
        s.contains(pieces(s, sep)[p][k]),
    decreases s.len(),
{
    if s.len() > 0 {
        let rest = s.drop_last();
        let before = pieces(rest, sep);
        lemma_pieces_nonempty(rest, sep);
        if p < before.len() && k < before[p].len() {
            lemma_pieces_hold_no_separator(rest, sep, p, k);
            let at = choose|at: int| 0 <= at < rest.len() && rest[at] == before[p][k];
            assert(s[at] == before[p][k]);
        }
    }
}

/// Stripping leaves nothing of a text whose characters are all of the
/// class that is stripped.
pub proof fn lemma_strip_all(s: Seq<char>, drop: spec_fn(char) -> bool)
    requires
        forall|k: int| 0 <= k < s.len() ==> drop(#[trigger] s[k]),
    ensures
        strip(s, drop).len() == 0,
    decreases s.len(),
{
    if s.len() > 0 {
        lemma_strip_all(s.skip(1), drop);
    }
}

/// What is left after the front is stripped is a suffix of the text that
/// does not begin with a character of the class that is stripped.
pub proof fn lemma_strip_front_shape(s: Seq<char>, drop: spec_fn(char) -> bool) -> (from: int)
    ensures
        0 <= from <= s.len(),
        strip_front(s, drop) == s.subrange(from, s.len() as int),
        strip_front(s, drop).len() > 0 ==> !drop(strip_front(s, drop).first()),
    decreases s.len(),
{
    if s.len() > 0 && drop(s[0]) {
        lemma_strip_front_shape(s.skip(1), drop) + 1
    } else {
        0
    }
}

/// What is left after the back is stripped is a prefix of the text that
/// does not end with a character of the class that is stripped; a first
/// character outside the class stays.
pub proof fn lemma_strip_back_shape(s: Seq<char>, drop: spec_fn(char) -> bool) -> (kept: int)
    ensures
        0 <= kept <= s.len(),
        strip_back(s, drop) == s.subrange(0, kept),
        strip_back(s, drop).len() > 0 ==> !drop(strip_back(s, drop).last()),
        s.len() > 0 && !drop(s.first()) ==> kept > 0,
    decreases s.len(),
{
    if s.len() > 0 && drop(s.last()) {
        lemma_strip_back_shape(s.drop_last(), drop)
    } else {
        s.len() as int
    }
}

/// What stripping leaves is a part of the text that neither begins nor
/// ends with a character of the class that is stripped.
pub proof fn lemma_strip_shape(s: Seq<char>, drop: spec_fn(char) -> bool) -> (bounds: (int, int))
    ensures
        0 <= bounds.0 <= bounds.1 <= s.len(),
        strip(s, drop) == s.subrange(bounds.0, bounds.1),
        strip(s, drop).len() > 0 ==> !drop(strip(s, drop).first()) && !drop(strip(s, drop).last()),
{
    let from = lemma_strip_front_shape(s, drop);
    let front = strip_front(s, drop);
    let kept = lemma_strip_back_shape(front, drop);
    (from, from + kept)
}

/// Every word found in the given fragments is what is left of one of
/// them, and is not empty.
pub proof fn lemma_word_source(fragments: Seq<Seq<char>>, letter: spec_fn(char) -> bool, i: int) -> (at:
    int)
    requires
        0 <= i < words_in(fragments, letter).len(),
    ensures
        0 <= at < fragments.len(),
        words_in(fragments, letter)[i] == word_of(fragments[at], letter),
        words_in(fragments, letter)[i].len() > 0,
    decreases fragments.len(),
{
    let before = words_in(fragments.drop_last(), letter);
    if i < before.len() {
        lemma_word_source(fragments.drop_last(), letter, i)
    } else {
        fragments.len() - 1
    }
}

/// Fragments that hold no word give no words.
pub proof fn lemma_no_words_in(fragments: Seq<Seq<char>>, letter: spec_fn(char) -> bool)
    requires
        forall|j: int| 0 <= j < fragments.len() ==> word_of(#[trigger] fragments[j], letter).len() == 0,
    ensures
        words_in(fragments, letter).len() == 0,
    decreases fragments.len(),
{
    if fragments.len() > 0 {
        lemma_no_words_in(fragments.drop_last(), letter);
    }
}

/// A line in which every letter is whitespace or a hyphen has no words.
pub proof fn lemma_no_free_letter_no_words(
    line: Seq<char>,
    space: spec_fn(char) -> bool,
    letter: spec_fn(char) -> bool,
)
    requires
        forall|i: int| 0 <= i < line.len() && letter(#[trigger] line[i]) ==> space(line[i]) || line[i] == '-',
    ensures
        words_by(line, space, letter).len() == 0,
{
    lemma_fragments_are_pieces(line, space);
    let found = pieces(line, separator(space));
    assert forall|j: int| 0 <= j < found.len() implies word_of(#[trigger] found[j], letter).len()
        == 0 by {
        assert forall|k: int| 0 <= k < found[j].len() implies outside(letter)(#[trigger] found[j][k]) by {
            lemma_pieces_hold_no_separator(line, separator(space), j, k);
        }
        lemma_strip_all(found[j], outside(letter));
    }
    lemma_no_words_in(found, letter);
}

/// A line that holds nothing but whitespace has no words.
pub proof fn lemma_blank_line_has_no_words(line: Seq<char>)
    requires
        forall|i: int| 0 <= i < line.len() ==> whitespace(#[trigger] line[i]),
    ensures
        words(line).len() == 0,
{
    lemma_no_free_letter_no_words(line, spaces(), letters());
}

/// A line that holds no letter, such as one of dashes and dots, has no words.
pub proof fn lemma_line_without_letters_has_no_words(line: Seq<char>)
    requires
        forall|i: int| 0 <= i < line.len() ==> !alphabetic(#[trigger] line[i]),
    ensures
        words(line).len() == 0,
{
    lemma_no_free_letter_no_words(line, spaces(), letters());
}

/// Every word of a line is not empty, begins and ends with a letter, and
/// holds neither whitespace nor a hyphen.
pub proof fn lemma_word_shape(line: Seq<char>, i: int)
    requires
        0 <= i < words(line).len(),
    ensures
        words(line)[i].len() > 0,
        alphabetic(words(line)[i].first()),
        alphabetic(words(line)[i].last()),
        forall|k: int|
            0 <= k < words(line)[i].len() ==> !whitespace(#[trigger] words(line)[i][k])
                && words(line)[i][k] != '-',
{
    lemma_fragments_are_pieces(line, spaces());
    let found = pieces(line, separator(spaces()));
    let at = lemma_word_source(found, letters(), i);
    let word = words(line)[i];
    let bounds = lemma_strip_shape(found[at], outside(letters()));
    assert forall|k: int| 0 <= k < word.len() implies !whitespace(#[trigger] word[k]) && word[k]
        != '-' by {
        lemma_pieces_hold_no_separator(line, separator(spaces()), at, bounds.0 + k);
    }
}

/// Appends to `tokens` the word in the fragment `cs[start..end]`, if it holds one.
fn push_word<L: Fn(char) -> bool>(
    cs: &Vec<char>,
    start: usize,
    end: usize,
    is_letter: &L,
    tokens: &mut Vec<String>,
    Ghost(letter): Ghost<spec_fn(char) -> bool>,
)
    requires
        start <= end <= cs.len(),
        computes(*is_letter, letter),
    ensures
        final(tokens).deep_view() == words_with(
            old(tokens).deep_view(),
            cs@.subrange(start as int, end as int),
            letter,
        ),
{
    let no_letter = |c: char| -> (b: bool)
        ensures
            b == !letter(c),
        { !is_letter(c) };
    let (from, to) = strip_bounds(cs, start, end, no_letter, Ghost(outside(letter)));
    if from < to {
        tokens.push(string_of(cs, from, to));
    }
}

/// The words of a line of text, from left to right, where `is_space`
/// says which characters are whitespace and `is_letter` which are
/// letters. `space` and `letter` are the classes that the two compute.
pub fn tokenize_with<W: Fn(char) -> bool, L: Fn(char) -> bool>(
    content: &str,
    is_space: W,
    is_letter: L,
    Ghost(space): Ghost<spec_fn(char) -> bool>,
    Ghost(letter): Ghost<spec_fn(char) -> bool>,
) -> (tokens: Vec<String>)
    requires
        computes(is_space, space),
        computes(is_letter, letter),
    ensures
        tokens.deep_view() == words_by(content@, space, letter),
{
    let cs = chars_of(content);
    let n = cs.len();
    let mut tokens: Vec<String> = Vec::new();
    let mut start: usize = 0;
    let mut i: usize = 0;
    let ghost mut closed: Seq<Seq<char>> = Seq::empty();
    assert(cs@.take(0) =~= Seq::<char>::empty());
    while i < n
        invariant
            start <= i <= n,
            n == cs.len(),
            computes(is_space, space),
            computes(is_letter, letter),
            pieces(cs@.take(i as int), separator(space)) == closed.push(
                cs@.subrange(start as int, i as int),
            ),
            tokens.deep_view() == words_in(closed, letter),
        decreases n - i,
    {
        let c = cs[i];
        proof {
            assert(cs@.take(i + 1).drop_last() =~= cs@.take(i as int));
            assert(closed.push(cs@.subrange(start as int, i as int)).drop_last() =~= closed);
        }
        if is_space(c) || c == '-' {
            push_word(&cs, start, i, &is_letter, &mut tokens, Ghost(letter));
            proof {
                closed = closed.push(cs@.subrange(start as int, i as int));
                assert(cs@.subrange(i + 1, i + 1) =~= Seq::<char>::empty());
            }
            start = i + 1;
        } else {
            assert(cs@.subrange(start as int, i + 1) =~= cs@.subrange(start as int, i as int).push(c));
        }
        i += 1;
    }
    push_word(&cs, start, n, &is_letter, &mut tokens, Ghost(letter));
    proof {
        assert(cs@.take(n as int) =~= cs@);
        let all = closed.push(cs@.subrange(start as int, n as int));
        assert(all.drop_last() =~= closed);
        lemma_fragments_are_pieces(content@, space);
    }
    tokens
}

/// The words of a line of text, from left to right.
pub fn tokenize(content: &str) -> (tokens: Vec<String>)
    ensures
        tokens.deep_view() == words(content@),
{
    let is_space = |c: char| -> (b: bool)
        ensures
            b == whitespace(c),
        { is_whitespace(c) };
    let is_letter = |c: char| -> (b: bool)
        ensures
            b == alphabetic(c),
        { is_alphabetic(c) };
    tokenize_with(content, is_space, is_letter, Ghost(spaces()), Ghost(letters()))
}

} // verus!
