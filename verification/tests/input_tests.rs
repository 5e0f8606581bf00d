use rust_pokedex::input::{clean_input, split_words, whitespace_flags};

#[test]
fn clean_input_splits_and_lowers() {
    assert_eq!(clean_input("  Catch   PIKACHU\n"), vec!["catch", "pikachu"]);
    assert_eq!(clean_input("map"), vec!["map"]);
    assert_eq!(clean_input("Explore Canalave-City-Area"), vec!["explore", "canalave-city-area"]);
}

#[test]
fn clean_input_of_nothing_is_empty() {
    assert!(clean_input("").is_empty());
    assert!(clean_input(" \t\r\n ").is_empty());
}

#[test]
fn clean_input_splits_at_every_kind_of_whitespace() {
    assert_eq!(clean_input("a\tb\nc\rd\u{3000}e\u{a0}f"), vec!["a", "b", "c", "d", "e", "f"]);
    assert_eq!(clean_input("a_b-c.d"), vec!["a_b-c.d"]);
}

#[test]
fn clean_input_lowers_beyond_ascii() {
    assert_eq!(clean_input("ÄRGER Über"), vec!["ärger", "über"]);
    assert_eq!(clean_input("ΟΔΟΣ"), vec!["οδος"]);
}

#[test]
fn clean_input_agrees_with_the_standard_library() {
    let lines = ["  inspect  Mew ", "E", "c", "MAPB\n", "\u{2003}x\u{2003}", "Ab Cd Ef gH"];
    for line in lines {
        let expected: Vec<String> = line.split_whitespace().map(|w| w.to_lowercase()).collect();
        assert_eq!(clean_input(line), expected);
    }
}

#[test]
fn whitespace_flags_mark_each_character() {
    assert_eq!(whitespace_flags(" a\tb "), vec![true, false, true, false, true]);
    assert_eq!(whitespace_flags("é x"), vec![false, true, false]);
    assert!(whitespace_flags("").is_empty());
}

#[test]
fn split_words_cuts_at_the_marked_places() {
    let words = split_words("abcdef", &vec![false, false, true, true, false, false]);
    assert_eq!(words, vec!["ab", "ef"]);
    let words = split_words("abc", &vec![true, true, true]);
    assert!(words.is_empty());
    let words = split_words("abc", &vec![false, true, false]);
    assert_eq!(words, vec!["a", "c"]);
}

#[test]
fn split_words_takes_a_place_without_a_flag_as_part_of_a_word() {
    assert_eq!(split_words("ab cd", &vec![false, false, true]), vec!["ab", "cd"]);
    assert_eq!(split_words("ab cd", &vec![]), vec!["ab cd"]);
    assert_eq!(split_words("ab", &vec![false, true, true, true]), vec!["a"]);
}

#[test]
fn split_words_keeps_the_case() {
    assert_eq!(split_words("Ab Cd", &whitespace_flags("Ab Cd")), vec!["Ab", "Cd"]);
}
