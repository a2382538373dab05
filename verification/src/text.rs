//! Characters and strings: the character classes and conversions that the
//! standard library decides, and the order of strings.

use vstd::prelude::*;
use vstd::std_specs::iter::IteratorSpec;

verus! {

/// Whether `c` has the Unicode property `Alphabetic`, as `char::is_alphabetic` reports it.
pub uninterp spec fn alphabetic(c: char) -> bool;

/// Whether `c` has the Unicode property `White_Space`, as `char::is_whitespace` reports it.
pub uninterp spec fn whitespace(c: char) -> bool;

/// The lowercase form of `s`, as `str::to_lowercase` computes it.
pub uninterp spec fn lowercase(s: Seq<char>) -> Seq<char>;

/// Calls `char::is_alphabetic`. Trusted: the result is the value that the
/// name `alphabetic` stands for.
#[verifier::external_body]
pub(crate) fn is_alphabetic(c: char) -> (r: bool)
    ensures
        r == alphabetic(c),
{
    c.is_alphabetic()
}

/// Calls `char::is_whitespace`. Trusted: the result is the value that the
/// name `whitespace` stands for.
#[verifier::external_body]
pub(crate) fn is_whitespace(c: char) -> (r: bool)
    ensures
        r == whitespace(c),
{
    c.is_whitespace()
}

/// Calls `str::to_lowercase`. Trusted: the result is the value that the
/// name `lowercase` stands for.
#[verifier::external_body]
pub(crate) fn to_lowercase(s: &str) -> (r: String)
    ensures
        r@ == lowercase(s@),
{
    s.to_lowercase()
}

/// `String::push` of the standard library. Trusted: it appends the
/// character to the end of the string and changes nothing else.
pub assume_specification[ String::push ](s: &mut String, ch: char)
    ensures
        final(s)@ == old(s)@.push(ch),
;

/// The characters of `s`, in order.
pub(crate) fn chars_of(s: &str) -> (cs: Vec<char>)
    ensures
        cs@ == s@,
{
    broadcast use vstd::string::group_string_axioms;

    let mut cs: Vec<char> = Vec::new();
    for c in it: s.chars()
        invariant
            it.seq() == s@,
            cs@ == it.seq().take(it.index()),
    {
        cs.push(c);
    }
    cs
}

/// The string made of the characters `cs[from..to]`.
pub(crate) fn string_of(cs: &Vec<char>, from: usize, to: usize) -> (s: String)
    requires
        from <= to <= cs.len(),
    ensures
        s@ == cs@.subrange(from as int, to as int),
{
    let mut s = String::new();
    let mut i: usize = from;
    while i < to
        invariant
            from <= i <= to <= cs.len(),
            s@ == cs@.subrange(from as int, i as int),
        decreases to - i,
    {
        s.push(cs[i]);
        i += 1;
    }
    s
}

/// `s` without its longest prefix of characters that `drop` holds of.
pub open spec fn strip_front(s: Seq<char>, drop: spec_fn(char) -> bool) -> Seq<char>
    decreases s.len(),
{
    if s.len() > 0 && drop(s[0]) {
        strip_front(s.skip(1), drop)
    } else {
        s
    }
}

/// `s` without its longest suffix of characters that `drop` holds of.
pub open spec fn strip_back(s: Seq<char>, drop: spec_fn(char) -> bool) -> Seq<char>
    decreases s.len(),
{
    if s.len() > 0 && drop(s.last()) {
        strip_back(s.drop_last(), drop)
    } else {
        s
    }
}

/// `s` without the characters at either end that `drop` holds of.
pub open spec fn strip(s: Seq<char>, drop: spec_fn(char) -> bool) -> Seq<char> {
    strip_back(strip_front(s, drop), drop)
}

/// The class of whitespace characters.
pub open spec fn spaces() -> spec_fn(char) -> bool {
    |c: char| whitespace(c)
}

/// The class of letters.
pub open spec fn letters() -> spec_fn(char) -> bool {
    |c: char| alphabetic(c)
}

/// The class of the characters that are not of `class`.
pub open spec fn outside(class: spec_fn(char) -> bool) -> spec_fn(char) -> bool {
    |c: char| !class(c)
}

/// Whether `f` can be asked about every character and answers whether the
/// character is of `class`.
pub open spec fn computes<F: Fn(char) -> bool>(f: F, class: spec_fn(char) -> bool) -> bool {
    &&& forall|c: char| call_requires(f, (c,))
    &&& forall|c: char, b: bool| call_ensures(f, (c,), b) ==> b == class(c)
}

/// `s` without leading and trailing whitespace, as `str::trim` gives it.
pub open spec fn trimmed(s: Seq<char>) -> Seq<char> {
    strip(s, spaces())
}

/// The bounds of what is left of `cs[start..end]` once the characters at
/// either end that `drop` accepts are taken away. `class` is the class
/// that `drop` computes.
pub fn strip_bounds<F: Fn(char) -> bool>(
    cs: &Vec<char>,
    start: usize,
    end: usize,
    drop: F,
    Ghost(class): Ghost<spec_fn(char) -> bool>,
) -> (r: (usize, usize))
    requires
        start <= end <= cs.len(),
        computes(drop, class),
    ensures
        start <= r.0 <= r.1 <= end,
        cs@.subrange(r.0 as int, r.1 as int) == strip(cs@.subrange(start as int, end as int), class),
{
    let ghost piece = cs@.subrange(start as int, end as int);
    let mut a: usize = start;
    while a < end && drop(cs[a])
        invariant
            start <= a <= end <= cs.len(),
            computes(drop, class),
            strip_front(piece, class) == strip_front(cs@.subrange(a as int, end as int), class),
        decreases end - a,
    {
        assert(cs@.subrange(a as int, end as int).skip(1) =~= cs@.subrange(a + 1, end as int));
        a += 1;
    }
    let mut b: usize = end;
    while b > a && drop(cs[b - 1])
        invariant
            a <= b <= end <= cs.len(),
            computes(drop, class),
            strip(piece, class) == strip_back(cs@.subrange(a as int, b as int), class),
        decreases b - a,
    {
        assert(cs@.subrange(a as int, b as int).drop_last() =~= cs@.subrange(a as int, b - 1));
        b -= 1;
    }
    (a, b)
}

/// The order of strings, which is that of `str` in the standard library:
/// character by character, by code point, and a proper prefix before the
/// string that it begins.
pub open spec fn precedes(a: Seq<char>, b: Seq<char>) -> bool
    decreases a.len(),
{
    if b.len() == 0 {
        false
    } else if a.len() == 0 {
        true
    } else if a[0] == b[0] {
        precedes(a.skip(1), b.skip(1))
    } else {
        a[0] < b[0]
    }
}

/// Whether each string of `s` is followed only by strings that do not precede it.
pub open spec fn ascending(s: Seq<Seq<char>>) -> bool {
    forall|i: int, j: int| 0 <= i < j < s.len() ==> !precedes(#[trigger] s[j], #[trigger] s[i])
}

/// Whether `a` comes before `b` in the order of strings.
pub(crate) fn str_lt(a: &str, b: &str) -> (r: bool)
    ensures
        r == precedes(a@, b@),
{
    broadcast use vstd::string::group_string_axioms;

    let mut left = a.chars();
    let mut right = b.chars();
    loop
        invariant
            precedes(a@, b@) == precedes(left.remaining(), right.remaining()),
            left.decrease() is Some,
        decreases left.decrease()->0,
    {
        let ghost rest_of_a = left.remaining();
        let ghost rest_of_b = right.remaining();
        match right.next() {
            None => {
                return false;
            },
            Some(q) => match left.next() {
                None => {
                    return true;
                },
                Some(p) => {
                    assert(rest_of_a.skip(1) =~= rest_of_a.drop_first());
                    assert(rest_of_b.skip(1) =~= rest_of_b.drop_first());
                    if p != q {
                        return p < q;
                    }
                },
            },
        }
    }
}

/// No string precedes itself.
pub proof fn lemma_precedes_irreflexive(a: Seq<char>)
    ensures
        !precedes(a, a),
    decreases a.len(),
{
    if a.len() > 0 {
        lemma_precedes_irreflexive(a.skip(1));
    }
}

/// Of two different strings one precedes the other.
pub proof fn lemma_precedes_connected(a: Seq<char>, b: Seq<char>)
    requires
        !precedes(a, b),
        !precedes(b, a),
    ensures
        a == b,
    decreases a.len(),
{
    if a.len() > 0 && b.len() > 0 {
        lemma_precedes_connected(a.skip(1), b.skip(1));
        assert(a =~= seq![a[0]] + a.skip(1));
        assert(b =~= seq![b[0]] + b.skip(1));
    }
}

/// A string that precedes `c` precedes every string that does not precede `c`.
pub proof fn lemma_precedes_cotransitive(a: Seq<char>, b: Seq<char>, c: Seq<char>)
    requires
        precedes(a, c),
    ensures
        precedes(a, b) || precedes(b, c),
    decreases a.len(),
{
    if a.len() > 0 && b.len() > 0 && a[0] == b[0] && b[0] == c[0] {
        lemma_precedes_cotransitive(a.skip(1), b.skip(1), c.skip(1));
    }
}

} // verus!
