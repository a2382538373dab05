use spellcheck::tokenizer::tokenize;

#[test]
fn hyphenated_and_abbreviated_words() {
    let words = tokenize("well-known St. Mr.");
    assert_eq!(words, vec!["well", "known", "St", "Mr"]);
}

#[test]
fn whitespace_only_line_has_no_words() {
    assert!(tokenize("   \t  ").is_empty());
    assert!(tokenize("\u{a0}\u{2003}\r\n").is_empty());
    assert!(tokenize("").is_empty());
}

#[test]
fn punctuation_only_tokens_give_no_words() {
    assert!(tokenize("--- ...").is_empty());
    assert!(tokenize("--").is_empty());
    assert!(tokenize("...").is_empty());
    assert!(tokenize("2024 (!) 3.14 -").is_empty());
}

#[test]
fn words_come_in_the_order_of_the_line() {
    assert_eq!(tokenize("the quick brown fox"), vec!["the", "quick", "brown", "fox"]);
    assert_eq!(tokenize("  one\ttwo\nthree  "), vec!["one", "two", "three"]);
}

#[test]
fn inner_punctuation_stays_and_outer_goes() {
    assert_eq!(tokenize("don't"), vec!["don't"]);
    assert_eq!(tokenize("\"Hello,\" she said."), vec!["Hello", "she", "said"]);
    assert_eq!(tokenize("(e.g.) x2y 42nd 1st!"), vec!["e.g", "x2y", "nd", "st"]);
    assert_eq!(tokenize("'tis"), vec!["tis"]);
}

#[test]
fn casing_is_kept() {
    assert_eq!(tokenize("Mixed CASE words"), vec!["Mixed", "CASE", "words"]);
}

#[test]
fn every_hyphen_splits() {
    assert_eq!(tokenize("a--b"), vec!["a", "b"]);
    assert_eq!(tokenize("-x-"), vec!["x"]);
    assert_eq!(tokenize("state-of-the-art"), vec!["state", "of", "the", "art"]);
    assert_eq!(tokenize("left - right"), vec!["left", "right"]);
}

#[test]
fn other_dashes_do_not_split() {
    assert_eq!(tokenize("a\u{2014}b"), vec!["a\u{2014}b"]);
}

#[test]
fn letters_of_other_scripts_are_letters() {
    assert_eq!(tokenize("na\u{ef}ve caf\u{e9}!"), vec!["na\u{ef}ve", "caf\u{e9}"]);
    assert_eq!(tokenize("\u{441}\u{43b}\u{43e}\u{432}\u{43e}-\u{8a9e}."), vec![
        "\u{441}\u{43b}\u{43e}\u{432}\u{43e}",
        "\u{8a9e}"
    ]);
}

#[test]
fn tokenizing_twice_gives_the_same_words() {
    let line = "Some well-known words, twice.";
    assert_eq!(tokenize(line), tokenize(line));
}
