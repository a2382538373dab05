//! Dictionaries: sets of known words, held either as a sorted sequence that
//! is searched by bisection or as a hash set, and the rule that a word is
//! misspelt when no dictionary knows it.
//!
//! A dictionary holds normalised words, that is words in lowercase, and is
//! asked about the lowercase form of a word. A dictionary that is loaded
//! from the lines of a file holds the lowercase form of each trimmed line.

use crate::text::{
    ascending, chars_of, is_whitespace, lemma_precedes_connected, lemma_precedes_cotransitive,
    lemma_precedes_irreflexive, lowercase, precedes, str_lt, string_of, strip_bounds, to_lowercase,
    spaces, trimmed, whitespace,
};
use vstd::hash_set::StringHashSet;
use vstd::prelude::*;

verus! {

/// A read-only set of normalised words that answers membership queries.
/// It is asked about words in lowercase.
pub trait Dictionary: Sync {
    /// The words that the dictionary knows.
    spec fn words(&self) -> Set<Seq<char>>;

    /// Whether the dictionary knows `word`.
    fn is_valid(&self, word: &String) -> (known: bool)
        ensures
            known == self.words().contains(word@),
    ;
}

/// Sorts a vector of strings with `sort` of the standard library. Trusted:
/// afterwards the strings are in ascending order, which for strings is
/// lexicographic by bytes and so, for UTF-8, by code points; and they are
/// the strings that were there before, each as often as before.
#[verifier::external_body]
fn sort_strings(v: &mut Vec<String>)
    ensures
        ascending(final(v).deep_view()),
        final(v).deep_view().to_multiset() == old(v).deep_view().to_multiset(),
{
    v.sort()
}

/// Sequences with the same elements, each as often, have the same set of elements.
pub proof fn lemma_same_multiset_same_set(a: Seq<Seq<char>>, b: Seq<Seq<char>>)
    requires
        a.to_multiset() == b.to_multiset(),
    ensures
        a.to_set() == b.to_set(),
{
    broadcast use vstd::seq_lib::to_multiset_contains;

    assert forall|w: Seq<char>| a.to_set().contains(w) == b.to_set().contains(w) by {
        assert(a.contains(w) <==> a.to_multiset().count(w) > 0);
        assert(b.contains(w) <==> b.to_multiset().count(w) > 0);
    }
}

/// The first position in `entries` whose string does not precede `word`.
fn lower_bound(entries: &Vec<String>, word: &str) -> (at: usize)
    requires
        ascending(entries.deep_view()),
    ensures
        at <= entries.len(),
        forall|k: int| 0 <= k < at ==> precedes(#[trigger] entries.deep_view()[k], word@),
        forall|k: int| at <= k < entries.len() ==> !precedes(#[trigger] entries.deep_view()[k], word@),
{
    let ghost sorted = entries.deep_view();
    let mut lo: usize = 0;
    let mut hi: usize = entries.len();
    while lo < hi
        invariant
            lo <= hi <= entries.len(),
            sorted == entries.deep_view(),
            ascending(sorted),
            forall|k: int| 0 <= k < lo ==> precedes(#[trigger] sorted[k], word@),
            forall|k: int| hi <= k < sorted.len() ==> !precedes(#[trigger] sorted[k], word@),
        decreases hi - lo,
    {
        let mid = lo + (hi - lo) / 2;
        if str_lt(entries[mid].as_str(), word) {
            assert forall|k: int| 0 <= k < mid + 1 implies precedes(#[trigger] sorted[k], word@) by {
                if k < mid {
                    lemma_precedes_cotransitive(sorted[mid as int], sorted[k], word@);
                }
            }
            lo = mid + 1;
        } else {
            assert forall|k: int| mid <= k < sorted.len() implies !precedes(
                #[trigger] sorted[k],
                word@,
            ) by {
                if mid < k && precedes(sorted[k], word@) {
                    lemma_precedes_cotransitive(sorted[k], sorted[mid as int], word@);
                }
            }
            hi = mid;
        }
    }
    lo
}

/// A dictionary held as a sequence of words in ascending order.
pub struct SortedDictionary {
    entries: Vec<String>,
}

impl View for SortedDictionary {
    type V = Seq<Seq<char>>;

    /// The words in the order in which they are held.
    closed spec fn view(&self) -> Seq<Seq<char>> {
        self.entries.deep_view()
    }
}

impl SortedDictionary {
    #[verifier::type_invariant]
    spec fn well_formed(self) -> bool {
        ascending(self.entries.deep_view())
    }

    /// The dictionary of the given words, sorted here. The words are held
    /// as they are given: they are meant to be normalised already, and one
    /// that is not in lowercase is known by that spelling alone, which
    /// `is_error` never asks about.
    pub fn from_words(words: Vec<String>) -> (dictionary: SortedDictionary)
        ensures
            ascending(dictionary@),
            dictionary@.to_multiset() == words.deep_view().to_multiset(),
            dictionary.words() == words.deep_view().to_set(),
    {
        let mut entries = words;
        sort_strings(&mut entries);
        proof {
            lemma_same_multiset_same_set(entries.deep_view(), words.deep_view());
        }
        SortedDictionary { entries }
    }

    /// The dictionary of a file with the given lines: each line, trimmed
    /// and in lowercase, is one word, and the words are sorted here.
    pub fn from_lines(lines: &Vec<String>) -> (dictionary: SortedDictionary)
        ensures
            ascending(dictionary@),
            dictionary@.to_multiset() == entries_of(lines.deep_view()).to_multiset(),
            dictionary.words() == entries_of(lines.deep_view()).to_set(),
    {
        SortedDictionary::from_words(entries(lines))
    }

    /// The number of words held, counting repetitions.
    pub fn len(&self) -> (n: usize)
        ensures
            n == self@.len(),
    {
        self.entries.len()
    }
}

impl Dictionary for SortedDictionary {
    open spec fn words(&self) -> Set<Seq<char>> {
        self@.to_set()
    }

    /// Bisects the sorted sequence for `word`.
    fn is_valid(&self, word: &String) -> (known: bool) {
        proof {
            use_type_invariant(self);
        }
        let at = lower_bound(&self.entries, word.as_str());
        let ghost sorted = self.entries.deep_view();
        if at < self.entries.len() && self.entries[at] == *word {
            assert(sorted[at as int] == word@);
            true
        } else {
            assert forall|k: int| 0 <= k < sorted.len() implies sorted[k] != word@ by {
                if k < at {
                    lemma_precedes_irreflexive(word@);
                } else if k > at && sorted[k] == word@ {
                    lemma_precedes_connected(sorted[at as int], word@);
                }
            }
            false
        }
    }
}

/// A dictionary held as a hash set of words.
pub struct HashDictionary {
    entries: StringHashSet,
}

impl View for HashDictionary {
    type V = Set<Seq<char>>;

    /// The words held.
    closed spec fn view(&self) -> Set<Seq<char>> {
        self.entries@
    }
}

impl HashDictionary {
    /// The dictionary of the given words. The words are held as they are
    /// given: they are meant to be normalised already, and one that is not
    /// in lowercase is known by that spelling alone, which `is_error`
    /// never asks about.
    pub fn from_words(words: Vec<String>) -> (dictionary: HashDictionary)
        ensures
            dictionary@ == words.deep_view().to_set(),
            dictionary.words() == words.deep_view().to_set(),
    {
        let ghost texts = words.deep_view();
        let ghost all = words@;
        let mut entries = StringHashSet::new();
        for word in it: words
            invariant
                it.seq() == all,
                texts == Seq::new(all.len(), |k: int| all[k]@),
                entries@ == texts.take(it.index()).to_set(),
        {
            proof {
                assert(texts.take(it.index() + 1) =~= texts.take(it.index()).push(word@));
                texts.take(it.index()).lemma_push_to_set_commute(word@);
            }
            entries.insert(word);
        }
        assert(texts.take(texts.len() as int) =~= texts);
        HashDictionary { entries }
    }

    /// The dictionary of a file with the given lines: each line, trimmed
    /// and in lowercase, is one word.
    pub fn from_lines(lines: &Vec<String>) -> (dictionary: HashDictionary)
        ensures
            dictionary@ == entries_of(lines.deep_view()).to_set(),
            dictionary.words() == entries_of(lines.deep_view()).to_set(),
    {
        HashDictionary::from_words(entries(lines))
    }

    /// The number of different words held.
    pub fn len(&self) -> (n: usize)
        ensures
            n == self@.len(),
    {
        self.entries.len()
    }
}

impl Dictionary for HashDictionary {
    open spec fn words(&self) -> Set<Seq<char>> {
        self@
    }

    /// Asks the hash set for `word`.
    fn is_valid(&self, word: &String) -> (known: bool) {
        self.entries.contains(word.as_str())
    }
}

/// `text` without leading and trailing whitespace.
pub fn trim(text: &str) -> (t: String)
    ensures
        t@ == trimmed(text@),
{
    let cs = chars_of(text);
    let is_space = |c: char| -> (b: bool)
        ensures
            b == whitespace(c),
        { is_whitespace(c) };
    let (from, to) = strip_bounds(&cs, 0, cs.len(), is_space, Ghost(spaces()));
    assert(cs@.subrange(0, cs.len() as int) =~= cs@);
    string_of(&cs, from, to)
}

/// The entry that a line of a dictionary file stands for: the lowercase
/// form of the line without its leading and trailing whitespace.
pub open spec fn entry_of(line: Seq<char>) -> Seq<char> {
    lowercase(trimmed(line))
}

/// The entries of a dictionary file: that of each of its lines, in order.
pub open spec fn entries_of(lines: Seq<Seq<char>>) -> Seq<Seq<char>> {
    Seq::new(lines.len(), |i: int| entry_of(lines[i]))
}

/// The entries of a dictionary file with the given lines.
fn entries(lines: &Vec<String>) -> (words: Vec<String>)
    ensures
        words.deep_view() == entries_of(lines.deep_view()),
{
    let mut words: Vec<String> = Vec::new();
    let mut i: usize = 0;
    while i < lines.len()
        invariant
            i <= lines.len(),
            words.len() == i,
            forall|k: int| 0 <= k < i ==> (#[trigger] words[k])@ == entry_of(lines[k]@),
        decreases lines.len() - i,
    {
        let trimmed_line = trim(lines[i].as_str());
        words.push(to_lowercase(trimmed_line.as_str()));
        i += 1;
    }
    words
}

/// The system dictionary, from the lines of its file: each line, trimmed
/// and in lowercase, is one word, and the words are sorted here.
pub fn load_sys_dict(lines: &Vec<String>) -> (dictionary: SortedDictionary)
    ensures
        ascending(dictionary@),
        dictionary@.to_multiset() == entries_of(lines.deep_view()).to_multiset(),
        dictionary.words() == entries_of(lines.deep_view()).to_set(),
{
    SortedDictionary::from_lines(lines)
}

/// The sources to check against: the system dictionary first, and after
/// it the dictionary of the project where its file was there to read.
/// Each holds the lines of its file, trimmed and in lowercase, in
/// ascending order.
pub fn load_sources(system: &Vec<String>, project: Option<&Vec<String>>) -> (sources: Sources<
    SortedDictionary,
>)
    ensures
        sources.len() == if project is Some { 2int } else { 1int },
        forall|k: int| 0 <= k < sources.len() ==> ascending(#[trigger] sources[k]@),
        sources[0]@.to_multiset() == entries_of(system.deep_view()).to_multiset(),
        sources[0].words() == entries_of(system.deep_view()).to_set(),
        project matches Some(lines) ==> {
            &&& sources[1]@.to_multiset() == entries_of(lines.deep_view()).to_multiset()
            &&& sources[1].words() == entries_of(lines.deep_view()).to_set()
        },
{
    let mut sources: Vec<SortedDictionary> = Vec::new();
    sources.push(load_sys_dict(system));
    if let Some(lines) = project {
        sources.push(SortedDictionary::from_lines(lines));
    }
    sources
}

/// A word that stands on a line of a dictionary file, in whatever casing
/// and with whatever whitespace around it, is no error where one of the
/// sources was loaded from that file.
pub proof fn lemma_listed_word_is_no_error<S: Dictionary>(
    lines: Seq<Seq<char>>,
    sources: Seq<S>,
    k: int,
    i: int,
)
    requires
        0 <= k < sources.len(),
        sources[k].words() == entries_of(lines).to_set(),
        0 <= i < lines.len(),
    ensures
        known(sources, entry_of(lines[i])),
        !misspelt(sources, trimmed(lines[i])),
{
    assert(entries_of(lines)[i] == entry_of(lines[i]));
    assert(sources[k].words().contains(entry_of(lines[i])));
}

/// A sorted dictionary and a hash dictionary that were made of the same
/// words answer every query alike.
pub proof fn lemma_representations_agree(
    words: Seq<Seq<char>>,
    sorted: SortedDictionary,
    hashed: HashDictionary,
    word: Seq<char>,
)
    requires
        sorted.words() == words.to_set(),
        hashed.words() == words.to_set(),
    ensures
        sorted.words().contains(word) == hashed.words().contains(word),
        sorted.words().contains(word) == words.contains(word),
{
}

/// The dictionaries that a text is checked against, in a fixed order.
pub type Sources<S> = Vec<S>;

/// Whether one of `sources` knows `normalized`.
pub open spec fn known<S: Dictionary>(sources: Seq<S>, normalized: Seq<char>) -> bool {
    exists|i: int| 0 <= i < sources.len() && (#[trigger] sources[i]).words().contains(normalized)
}

/// Whether `word` is misspelt: none of `sources` knows its lowercase form.
pub open spec fn misspelt<S: Dictionary>(sources: Seq<S>, word: Seq<char>) -> bool {
    !known(sources, lowercase(word))
}

/// A word that one of the sources knows is known to the same sources in
/// any other order.
proof fn lemma_known_in_any_order<S: Dictionary>(a: Seq<S>, b: Seq<S>, word: Seq<char>)
    requires
        a.to_multiset() == b.to_multiset(),
        known(a, word),
    ensures
        known(b, word),
{
    broadcast use vstd::seq_lib::to_multiset_contains;

    let i = choose|i: int| 0 <= i < a.len() && (#[trigger] a[i]).words().contains(word);
    assert(a.contains(a[i]));
    assert(b.to_multiset().count(a[i]) > 0);
    assert(b.contains(a[i]));
    let j = choose|j: int| 0 <= j < b.len() && b[j] == a[i];
    assert(b[j].words().contains(word));
}

/// The order of the sources does not matter: the same sources in another
/// order know the same words and find the same words misspelt.
pub proof fn lemma_order_of_sources<S: Dictionary>(a: Seq<S>, b: Seq<S>, word: Seq<char>)
    requires
        a.to_multiset() == b.to_multiset(),
    ensures
        known(a, word) == known(b, word),
        misspelt(a, word) == misspelt(b, word),
{
    if known(a, word) {
        lemma_known_in_any_order(a, b, word);
    }
    if known(b, word) {
        lemma_known_in_any_order(b, a, word);
    }
    if known(a, lowercase(word)) {
        lemma_known_in_any_order(a, b, lowercase(word));
    }
    if known(b, lowercase(word)) {
        lemma_known_in_any_order(b, a, lowercase(word));
    }
}

/// Whether none of `sources` knows `normalized`, a word already in lowercase.
pub fn unknown_to_all<S: Dictionary>(normalized: &String, sources: &Sources<S>) -> (unknown: bool)
    ensures
        unknown == !known(sources@, normalized@),
{
    let mut i: usize = 0;
    while i < sources.len()
        invariant
            i <= sources.len(),
            !known(sources@.take(i as int), normalized@),
        decreases sources.len() - i,
    {
        if sources[i].is_valid(normalized) {
            return false;
        }
        assert forall|k: int| 0 <= k < i + 1 implies !(#[trigger] sources@.take(i + 1)[k]).words().contains(
            normalized@,
        ) by {
            if k < i {
                assert(sources@.take(i as int)[k] == sources@.take(i + 1)[k]);
            }
        }
        i += 1;
    }
    assert(sources@.take(i as int) =~= sources@);
    true
}

/// Whether `word` is misspelt: its lowercase form is looked up in every
/// source, and the word is an error when none of them knows it.
pub fn is_error<S: Dictionary>(word: &str, sources: &Sources<S>) -> (error: bool)
    ensures
        error == misspelt(sources@, word@),
{
    let normalized = to_lowercase(word);
    unknown_to_all(&normalized, sources)
}

} // verus!
