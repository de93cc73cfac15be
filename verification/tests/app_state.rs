use passtui::app_state::{
    action_for, fix_selection, search_results, select_down, select_up, Action, AddField,
    GeneratorOptions,
};
use passtui::keys::{KeyCode, KeyEvent};
use passtui::favorites::Favorites;
use passtui::pass::generator::GeneratorMode;
use passtui::pass::store::FlatEntry;

#[test]
fn form_fields_cycle_both_ways() {
    assert_eq!(AddField::Name.next(false), AddField::Password);
    assert_eq!(AddField::RecoveryCodes.next(false), AddField::Name);
    assert_eq!(AddField::Name.next(true), AddField::RecoveryCodes);
    assert_eq!(AddField::Notes.index(), 4);
}

#[test]
fn generator_lengths_stay_within_bounds() {
    let mut options = GeneratorOptions::new();
    assert!(options.adjust('-'));
    assert_eq!(options.length, 15);
    for _ in 0..20 {
        options.adjust('-');
    }
    assert_eq!(options.length, 8);
    for _ in 0..100 {
        options.adjust('+');
    }
    assert_eq!(options.length, 64);
    assert!(options.adjust('m'));
    assert_eq!((options.mode, options.length), (GeneratorMode::Passphrase, 6));
    options.adjust('-');
    assert_eq!(options.length, 6);
    assert!(!options.adjust('u'));
    assert!(options.uppercase);
    assert!(options.adjust('r'));
    assert!(!options.adjust('x'));
}

#[test]
fn selection_stays_within_the_list() {
    assert_eq!(fix_selection(Some(5), 3), Some(2));
    assert_eq!(fix_selection(None, 3), Some(0));
    assert_eq!(fix_selection(Some(1), 0), None);
    assert_eq!(select_down(2, 3), 2);
    assert_eq!(select_down(0, 3), 1);
    assert_eq!(select_up(0), 0);
}

#[test]
fn search_skips_folders_and_ranks_matches() {
    let entry = |path: &str, is_dir: bool| FlatEntry {
        name: path.rsplit('/').next().unwrap().into(),
        path: path.into(),
        is_dir,
        depth: 0,
        expanded: true,
        has_children: is_dir,
    };
    let entries = vec![entry("Work", true), entry("Work/github", false), entry("github", false)];
    let none = Favorites::new(String::new(), vec![]);
    assert_eq!(search_results(&entries, "GitHub", &none, false), vec![2, 1]);
    let favorites = Favorites::new(String::new(), vec!["Work/github".into()]);
    assert_eq!(search_results(&entries, "", &favorites, true), vec![1]);
}

#[test]
fn main_screen_keys_map_to_actions() {
    let plain = |c: char| KeyEvent::new(KeyCode::Char(c));
    assert_eq!(action_for(KeyEvent::ctrl(KeyCode::Char('l')), 'y'), Action::Lock);
    assert_eq!(action_for(plain('l'), 'y'), Action::Open);
    assert_eq!(action_for(plain('y'), 'y'), Action::CopyPassword);
    assert_eq!(action_for(plain('c'), 'c'), Action::CopyPassword);
    assert_eq!(action_for(plain('y'), 'c'), Action::Nothing);
    assert_eq!(action_for(plain('q'), 'y'), Action::Quit);
    assert_eq!(action_for(plain('R'), 'y'), Action::RecoveryCodes);
    assert_eq!(action_for(plain('/'), 'y'), Action::Search);
    assert_eq!(action_for(KeyEvent::new(KeyCode::Esc), 'y'), Action::Reset);
    assert_eq!(action_for(KeyEvent::new(KeyCode::PageDown), 'y'), Action::ScrollDown);
    assert_eq!(action_for(KeyEvent::new(KeyCode::Tab), 'y'), Action::Nothing);
}
