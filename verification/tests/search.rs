use passtui::search::{highlight_mask, rank};

#[test]
fn matches_paths_and_unicode_in_order() {
    assert!(passtui::search::matches("Work/GitHub", "wgh"));
    assert!(passtui::search::matches("Jacket", "jk"));
    assert!(passtui::search::matches("École", "écl"));
    assert!(passtui::search::matches("anything", ""));
    assert!(!passtui::search::matches("GitHub", "hg"));
}

#[test]
fn exact_names_rank_before_prefixes_and_substrings() {
    assert_eq!(rank("Work/GitHub", "github"), (0, 11));
    assert_eq!(rank("Work/GitHubEnterprise", "github").0, 1);
    assert_eq!(rank("GitHub/Work", "thub").0, 2);
    assert_eq!(rank("Work/GitHub", "wgh").0, 3);
    assert_eq!(rank("École", "x").1, 6);
}

#[test]
fn highlight_marks_greedy_case_insensitive_matches() {
    assert_eq!(
        highlight_mask("Work/GitHub", "wgh"),
        vec![true, false, false, false, false, true, false, false, true, false, false]
    );
    assert_eq!(highlight_mask("École", "écl"), vec![true, true, false, true, false]);
    assert_eq!(highlight_mask("abc", ""), vec![false, false, false]);
    assert_eq!(highlight_mask("abc", "x"), vec![false, false, false]);
    assert_eq!(highlight_mask("aa", "a"), vec![true, false]);
}
