use spellcheck::dictionary::{
    is_error, load_sources, load_sys_dict, trim, unknown_to_all, Dictionary, HashDictionary,
    SortedDictionary,
};

fn word_list(words: &[&str]) -> Vec<String> {
    words.iter().map(|word| word.to_string()).collect()
}

#[test]
fn sorted_dictionary_finds_words_given_in_any_order() {
    let given = ["zebra", "yak", "xylophone", "walrus", "vole", "ant", "bee", "cat", "Zed", "apple"];
    let dictionary = SortedDictionary::from_words(word_list(&given));
    assert_eq!(dictionary.len(), given.len());
    for word in given.iter() {
        assert!(dictionary.is_valid(&word.to_string()), "{} is in the dictionary", word);
    }
    for word in ["", "a", "an", "ants", "zebr", "zebras", "zed", "Ant", "bea", "~"].iter() {
        assert!(!dictionary.is_valid(&word.to_string()), "{} is not in the dictionary", word);
    }
}

#[test]
fn sorted_dictionary_keeps_repeated_words() {
    let dictionary = SortedDictionary::from_words(word_list(&["b", "a", "b", "a", "b"]));
    assert_eq!(dictionary.len(), 5);
    assert!(dictionary.is_valid(&"a".to_string()));
    assert!(dictionary.is_valid(&"b".to_string()));
    assert!(!dictionary.is_valid(&"c".to_string()));
}

#[test]
fn sorted_dictionary_orders_by_code_point() {
    let given = ["\u{e9}t\u{e9}", "etc", "e", "ez", "\u{1f600}", "\u{ffff}", "E", "et"];
    let dictionary = SortedDictionary::from_words(word_list(&given));
    for word in given.iter() {
        assert!(dictionary.is_valid(&word.to_string()));
    }
    assert!(!dictionary.is_valid(&"\u{e9}".to_string()));
    assert!(!dictionary.is_valid(&"ete".to_string()));
}

#[test]
fn empty_dictionaries_know_nothing() {
    let sorted = SortedDictionary::from_words(Vec::new());
    let hashed = HashDictionary::from_words(Vec::new());
    assert_eq!(sorted.len(), 0);
    assert_eq!(hashed.len(), 0);
    assert!(!sorted.is_valid(&"word".to_string()));
    assert!(!hashed.is_valid(&"word".to_string()));
    assert!(!sorted.is_valid(&String::new()));
}

#[test]
fn hash_dictionary_finds_its_words() {
    let dictionary = HashDictionary::from_words(word_list(&["cat", "dog", "cat"]));
    assert_eq!(dictionary.len(), 2);
    assert!(dictionary.is_valid(&"cat".to_string()));
    assert!(dictionary.is_valid(&"dog".to_string()));
    assert!(!dictionary.is_valid(&"fish".to_string()));
    assert!(!dictionary.is_valid(&"Cat".to_string()));
}

#[test]
fn both_representations_agree_on_a_corpus() {
    let mut given = Vec::new();
    let mut corpus = Vec::new();
    let mut state: u32 = 12345;
    for round in 0..600 {
        state = state.wrapping_mul(1103515245).wrapping_add(12345);
        let length = 1 + (state >> 16) % 4;
        let mut word = String::new();
        let mut bits = state >> 8;
        for _ in 0..length {
            word.push((b'a' + (bits % 5) as u8) as char);
            bits /= 5;
        }
        if round % 2 == 0 {
            given.push(word.clone());
        }
        corpus.push(word);
    }
    let sorted = SortedDictionary::from_words(given.clone());
    let hashed = HashDictionary::from_words(given.clone());
    let mut hits = 0;
    for word in corpus.iter() {
        let expected = given.contains(word);
        assert_eq!(sorted.is_valid(word), expected);
        assert_eq!(hashed.is_valid(word), expected);
        if expected {
            hits += 1;
        }
    }
    assert!(hits > 0 && hits < corpus.len());
}

#[test]
fn a_word_is_an_error_only_if_no_source_knows_it() {
    let sources = vec![
        SortedDictionary::from_words(word_list(&["cat"])),
        SortedDictionary::from_words(word_list(&["dog"])),
    ];
    assert!(!is_error("cat", &sources));
    assert!(is_error("fish", &sources));
    assert!(!is_error("dog", &sources));
}

#[test]
fn hash_sources_give_the_same_verdicts() {
    let sources = vec![
        HashDictionary::from_words(word_list(&["cat"])),
        HashDictionary::from_words(word_list(&["dog"])),
    ];
    assert!(!is_error("cat", &sources));
    assert!(is_error("fish", &sources));
    assert!(!is_error("dog", &sources));
}

#[test]
fn words_are_looked_up_in_lowercase() {
    let sources = vec![SortedDictionary::from_words(word_list(&["cat", "\u{e9}t\u{e9}"]))];
    assert!(!is_error("cat", &sources));
    assert!(!is_error("Cat", &sources));
    assert!(!is_error("CAT", &sources));
    assert!(!is_error("\u{c9}T\u{c9}", &sources));
    assert!(is_error("cab", &sources));
}

#[test]
fn loaded_dictionaries_hold_their_words_in_lowercase() {
    let lines = word_list(&["Mr", "  Apple ", "dog", "\u{c9}T\u{c9}", "NASA"]);
    let sorted = vec![load_sys_dict(&lines)];
    let hashed = vec![HashDictionary::from_lines(&lines)];
    let loaded = load_sources(&word_list(&["zebra"]), Some(&lines));
    for word in ["Mr", "mr", "MR", "apple", "Apple", "Dog", "dog", "\u{e9}t\u{e9}", "nasa", "NASA"].iter() {
        assert!(!is_error(word, &sorted), "{} is in the dictionary", word);
        assert!(!is_error(word, &hashed), "{} is in the dictionary", word);
        assert!(!is_error(word, &loaded), "{} is in the dictionary", word);
    }
    assert!(is_error("Mrs", &sorted));
    assert!(is_error("Mrs", &hashed));
    assert!(sorted[0].is_valid(&"mr".to_string()));
    assert!(hashed[0].is_valid(&"mr".to_string()));
    assert!(!sorted[0].is_valid(&"Mr".to_string()));
    assert!(!hashed[0].is_valid(&"Mr".to_string()));
    assert!(!sorted[0].is_valid(&"  apple ".to_string()));
}

#[test]
fn from_words_holds_the_words_as_given() {
    let sorted = SortedDictionary::from_words(word_list(&["cat", "Dog"]));
    let hashed = HashDictionary::from_words(word_list(&["cat", "Dog"]));
    assert!(sorted.is_valid(&"Dog".to_string()));
    assert!(hashed.is_valid(&"Dog".to_string()));
    assert!(!sorted.is_valid(&"dog".to_string()));
    assert!(!hashed.is_valid(&"dog".to_string()));
}

#[test]
fn without_sources_every_word_is_an_error() {
    let sources: Vec<SortedDictionary> = Vec::new();
    assert!(is_error("anything", &sources));
    assert!(unknown_to_all(&"anything".to_string(), &sources));
}

#[test]
fn unknown_to_all_looks_the_word_up_as_it_is() {
    let sources = vec![
        HashDictionary::from_words(word_list(&["cat"])),
        HashDictionary::from_words(word_list(&["dog", "Emu"])),
    ];
    assert!(!unknown_to_all(&"cat".to_string(), &sources));
    assert!(!unknown_to_all(&"dog".to_string(), &sources));
    assert!(!unknown_to_all(&"Emu".to_string(), &sources));
    assert!(unknown_to_all(&"emu".to_string(), &sources));
    assert!(unknown_to_all(&"Cat".to_string(), &sources));
}

#[test]
fn trim_takes_whitespace_from_both_ends() {
    assert_eq!(trim("  word \n"), "word");
    assert_eq!(trim("\ttwo words\r\n"), "two words");
    assert_eq!(trim("\u{a0}x\u{2003}"), "x");
    assert_eq!(trim("plain"), "plain");
    assert_eq!(trim("   "), "");
    assert_eq!(trim(""), "");
}

#[test]
fn dictionary_lines_are_trimmed_and_sorted() {
    let dictionary = load_sys_dict(&word_list(&["  pear", "apple  ", "\tfig\t", "date"]));
    for word in ["apple", "date", "fig", "pear"].iter() {
        assert!(dictionary.is_valid(&word.to_string()));
    }
    assert!(!dictionary.is_valid(&"  pear".to_string()));
    assert!(!dictionary.is_valid(&"grape".to_string()));
    let hashed = HashDictionary::from_lines(&word_list(&["  pear", "apple  "]));
    assert!(hashed.is_valid(&"pear".to_string()));
    assert!(hashed.is_valid(&"apple".to_string()));
    assert!(!hashed.is_valid(&"apple  ".to_string()));
}

#[test]
fn sources_are_the_system_dictionary_and_that_of_the_project() {
    let system = word_list(&["the", "quick", "brown", "fox"]);
    let project = word_list(&["zyzzyva", "hare"]);
    let alone = load_sources(&system, None);
    assert_eq!(alone.len(), 1);
    assert!(!is_error("fox", &alone));
    assert!(is_error("hare", &alone));
    let both = load_sources(&system, Some(&project));
    assert_eq!(both.len(), 2);
    assert!(both[0].is_valid(&"fox".to_string()));
    assert!(!both[0].is_valid(&"hare".to_string()));
    assert!(both[1].is_valid(&"hare".to_string()));
    assert!(both[1].is_valid(&"zyzzyva".to_string()));
    assert!(!is_error("fox", &both));
    assert!(!is_error("hare", &both));
    assert!(!is_error("Zyzzyva", &both));
    assert!(is_error("slow", &both));
}

#[test]
fn the_order_of_the_sources_does_not_matter() {
    let forward = vec![
        SortedDictionary::from_words(word_list(&["cat", "cow"])),
        SortedDictionary::from_words(word_list(&["dog"])),
        SortedDictionary::from_words(Vec::new()),
    ];
    let backward = vec![
        SortedDictionary::from_words(Vec::new()),
        SortedDictionary::from_words(word_list(&["dog"])),
        SortedDictionary::from_words(word_list(&["cat", "cow"])),
    ];
    for word in ["cat", "cow", "dog", "fish", "Dog", "", "ca"].iter() {
        assert_eq!(is_error(word, &forward), is_error(word, &backward));
    }
    assert!(!is_error("cow", &backward));
    assert!(is_error("fish", &backward));
}

#[test]
fn a_loaded_dictionary_holds_every_line_once_for_each_time_it_stands() {
    let lines = word_list(&[" pear", "apple", "pear ", "", "fig", "apple"]);
    assert_eq!(load_sys_dict(&lines).len(), 6);
    assert_eq!(SortedDictionary::from_lines(&lines).len(), 6);
    assert_eq!(HashDictionary::from_lines(&lines).len(), 4);
    let sources = load_sources(&lines, Some(&word_list(&["b", "a"])));
    assert_eq!(sources[0].len(), 6);
    assert_eq!(sources[1].len(), 2);
    assert!(sources[0].is_valid(&String::new()));
    assert!(sources[1].is_valid(&"a".to_string()));
}

#[test]
fn strings_are_compared_by_code_point() {
    let given = ["b", "ab", "a", "", "\u{10000}", "\u{ffff}", "aa", "B", "\u{e9}", "z"];
    let dictionary = SortedDictionary::from_words(word_list(&given));
    for word in given.iter() {
        assert!(dictionary.is_valid(&word.to_string()));
    }
    for word in ["c", "aaa", "A", "\u{10001}", "\u{fffe}", "e", "zz"].iter() {
        assert!(!dictionary.is_valid(&word.to_string()));
    }
}
