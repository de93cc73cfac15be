use passtui::favorites::Favorites;
use passtui::picker::matching_entries;
use passtui::pass::store::FlatEntry;

fn entry(name: &str, path: &str) -> FlatEntry {
    FlatEntry {
        name: name.into(),
        path: path.into(),
        is_dir: false,
        depth: 0,
        expanded: false,
        has_children: false,
    }
}

fn no_favorites() -> Favorites {
    Favorites::new(String::new(), vec![])
}

#[test]
fn matching_entries_filters_name_and_path_case_insensitively() {
    let entries = vec![entry("GitHub", "Work/GitHub"), entry("Email", "Personal/email")];

    let matches = matching_entries(&entries, "personal", &no_favorites());
    assert_eq!(matches.len(), 1);
    assert_eq!(entries[matches[0]].name, "Email");

    let matches = matching_entries(&entries, "GITHUB", &no_favorites());
    assert_eq!(matches.len(), 1);
    assert_eq!(entries[matches[0]].path, "Work/GitHub");
}

#[test]
fn favorites_come_first_then_rank() {
    let entries = vec![
        entry("mail-archive", "old/mail-archive"),
        entry("mail", "mail"),
        entry("gmail", "gmail"),
    ];
    let order = matching_entries(&entries, "mail", &no_favorites());
    assert_eq!(order, vec![1, 0, 2]);
    let favorites = Favorites::new(String::new(), vec!["gmail".into()]);
    let order = matching_entries(&entries, "mail", &favorites);
    assert_eq!(order, vec![2, 1, 0]);
}
