use passtui::pass::generator::{from_draws, generate_passphrase, generate_password, phrase_from_draws, strength_score, word_list};

#[test]
fn generated_password_has_requested_length() {
    let password = generate_password(24, true, true, true);
    assert_eq!(password.len(), 24);
}

#[test]
fn generated_passphrase_has_requested_words() {
    let words: Vec<String> = ["alpha", "bravo", "charlie", "delta"].iter().map(|w| w.to_string()).collect();
    let phrase = generate_passphrase(&words, 6);
    assert_eq!(phrase.split('-').count(), 6);
    let phrase = generate_passphrase(&words, 1);
    let parts: Vec<_> = phrase.split('-').collect();
    assert_eq!(parts.len(), 6);
    assert!(parts.iter().all(|word| words.iter().any(|w| w == word)));
}

#[test]
fn passwords_use_only_the_classes_asked_for() {
    let password = generate_password(0, false, false, false);
    assert_eq!(password.len(), 1);
    let password = generate_password(64, false, true, false);
    assert!(password.chars().all(|c| c.is_ascii_lowercase() || c.is_ascii_digit()));
    assert_eq!(strength_score(""), 0);
    assert!(strength_score("correct horse battery staple") <= 4);
}

#[test]
fn draws_pick_the_characters_and_words_they_name() {
    let set: Vec<char> = "abc".chars().collect();
    assert_eq!(from_draws(&set, &vec![2, 0, 0, 1]), "caab");
    assert_eq!(from_draws(&set, &vec![]), "");
    let words: Vec<String> = ["alpha", "bravo", "charlie"].iter().map(|w| w.to_string()).collect();
    assert_eq!(phrase_from_draws(&words, &vec![1, 1, 2]), "bravo-bravo-charlie");
    assert_eq!(phrase_from_draws(&words, &vec![0]), "alpha");
}

#[test]
fn generated_passwords_are_not_one_repeated_character() {
    let distinct = (0..8)
        .map(|_| generate_password(32, true, true, true))
        .filter(|p| p.chars().collect::<std::collections::BTreeSet<char>>().len() > 1)
        .count();
    assert!(distinct > 0);
}

#[test]
fn the_word_list_must_hold_7776_distinct_words() {
    let words: Vec<String> = (0..7776).map(|i| format!("word{i}")).collect();
    let text = words.join("\n") + "\n";
    let list = word_list(&text).expect("a full list");
    assert_eq!(list.len(), 7776);
    let phrase = generate_passphrase(&list, 1);
    let parts: Vec<_> = phrase.split('-').collect();
    assert_eq!(parts.len(), 6);
    assert!(parts.iter().all(|word| list.iter().any(|w| w == word)));
    let mut twice = words.clone();
    twice[7775] = "word0".to_string();
    assert!(word_list(&twice.join("\n")).is_none());
    assert!(word_list(&words[..7775].join("\n")).is_none());
}
