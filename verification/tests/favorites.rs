use passtui::favorites::Favorites;

#[test]
fn toggling_and_renaming_move_the_star() {
    let mut favorites = Favorites::new("/store-a".into(), vec![]);
    assert!(favorites.toggle("Work/github"));
    assert!(favorites.toggle("mail"));
    favorites.rename("Work/github", "github.com/work");
    assert!(favorites.contains("github.com/work"));
    assert!(favorites.contains("mail"));
    assert!(!favorites.contains("Work/github"));
    assert!(!favorites.toggle("mail"));
    assert!(!favorites.contains("mail"));
    favorites.rename("personal", "elsewhere");
    assert!(!favorites.contains("elsewhere"));
    let mut saved = favorites.entries();
    saved.sort();
    assert_eq!(saved, vec!["github.com/work".to_string()]);
    assert_eq!(favorites.store(), "/store-a");
}

#[test]
fn duplicates_in_saved_favorites_are_one_star() {
    let mut favorites = Favorites::new("s".into(), vec!["a".into(), "a".into(), "b".into()]);
    assert!(!favorites.toggle("a"));
    assert!(!favorites.contains("a"));
    assert!(favorites.contains("b"));
}
