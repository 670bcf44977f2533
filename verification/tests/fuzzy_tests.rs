use hex_editor::fuzzy::{chars_of, edit_distance, levenshtein_distance, nearest, suggest};

fn names(list: &[&str]) -> Vec<String> {
    list.iter().map(|s| s.to_string()).collect()
}

#[test]
fn distance_counts_each_edit_once() {
    assert_eq!(levenshtein_distance("help", "help"), 0);
    assert_eq!(levenshtein_distance("help", "hel"), 1);
    assert_eq!(levenshtein_distance("hel", "help"), 1);
    assert_eq!(levenshtein_distance("help", "helm"), 1);
    assert_eq!(levenshtein_distance("kitten", "sitting"), 3);
}

#[test]
fn distance_counts_a_swap_of_neighbours_once() {
    assert_eq!(levenshtein_distance("hepl", "help"), 1);
    assert_eq!(levenshtein_distance("ab", "ba"), 1);
    assert_eq!(levenshtein_distance("ca", "abc"), 3);
}

#[test]
fn distance_from_empty_text_is_the_length() {
    assert_eq!(levenshtein_distance("", ""), 0);
    assert_eq!(levenshtein_distance("", "abc"), 3);
    assert_eq!(levenshtein_distance("abcd", ""), 4);
}

#[test]
fn distance_goes_by_character_not_by_byte() {
    assert_eq!(levenshtein_distance("\u{e9}", "e"), 1);
    assert_eq!(levenshtein_distance("na\u{ef}ve", "naive"), 1);
    assert_eq!(chars_of("h\u{e9}!"), vec!['h', '\u{e9}', '!']);
}

#[test]
fn edit_distance_on_characters() {
    let a: Vec<char> = "save".chars().collect();
    let b: Vec<char> = "sav".chars().collect();
    assert_eq!(edit_distance(&a, &b), 1);
    assert_eq!(edit_distance(&a, &a), 0);
}

#[test]
fn suggest_finds_help_for_hepl() {
    let commands = names(&["help", "quit", "get", "save"]);
    assert_eq!(suggest("hepl", &commands), Some(0));
    assert_eq!(commands[suggest("hepl", &commands).unwrap()], "help");
}

#[test]
fn suggest_picks_the_nearest() {
    let commands = names(&["help", "quit", "get", "save"]);
    assert_eq!(suggest("qit", &commands), Some(1));
    assert_eq!(suggest("gte", &commands), Some(2));
    assert_eq!(suggest("sav", &commands), Some(3));
    assert_eq!(suggest("save", &commands), Some(3));
}

#[test]
fn suggest_keeps_the_first_of_equally_near_candidates() {
    assert_eq!(suggest("x", &names(&["a", "b", "c"])), Some(0));
    assert_eq!(suggest("b", &names(&["a", "b", "b"])), Some(1));
    assert_eq!(suggest("zzzz", &names(&["help", "quit"])), Some(0));
}

#[test]
fn suggest_without_candidates_is_none() {
    assert_eq!(suggest("help", &Vec::new()), None);
    assert_eq!(nearest(&['a'], &Vec::new()), None);
}
