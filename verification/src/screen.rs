//! The main screen as a state machine: a key or the outcome of outside work changes
//! the screen and names the outside work to do next. The caller runs the loop,
//! performs each `Effect` and hands back its `Outcome`.
use crate::app_state::{
    action_for, main_action, select_down, select_up, Action, ActivePopup, AddField, InitField,
    InitMode, InputMode,
};
use crate::editor::EntryEditor;
use crate::history::{HistoryAction, Preview};
use crate::keys::{KeyCode, KeyEvent};
use crate::pass::commands::DecryptedEntry;
use crate::pass::generator::generate_password;
use crate::recovery::RecoveryAction;
use crate::text::{string_of, to_chars, trim, trim_exec};
use crate::text_input::{handled, is_fresh, TextInput};
use vstd::prelude::*;

verus! {

/// What the main screen shows and edits.
pub struct Screen {
    pub locked: bool,
    pub popup: ActivePopup,
    pub input_mode: InputMode,
    /// The decrypted entry on the detail panel.
    pub detail: Option<DecryptedEntry>,
    pub show_password: bool,
    pub detail_scroll: u16,
    pub editor: EntryEditor,
    /// The name and password of the form that opened the generator, restored by Esc.
    pub generator_draft: Option<(String, String)>,
    pub search_query: String,
    pub search_input: TextInput,
    pub rename_input: TextInput,
    /// The selected row of the entry list, and how many rows it has.
    pub selected: Option<usize>,
    pub listed: usize,
    pub favorites_only: bool,
    pub form_error: Option<String>,
    /// What became of work that finished while the screen was locked.
    pub lock_outcome: Option<String>,
    /// Whether an opened entry shows its password at once.
    pub reveal_by_default: bool,
}

/// Outside work that a step asks of the caller.
pub enum Effect {
    Nothing,
    Quit,
    /// The screen was locked: revoke the clipboard session.
    Lock,
    /// The screen was unlocked: start a new clipboard session, reload the store and show
    /// what became of work finished meanwhile.
    Resume(Option<String>),
    /// Rebuild the entry list: the search or the favorites filter changed.
    Relist,
    /// Text was pasted into the search: rebuild the entry list, and show this error on
    /// the status line where the paste was refused.
    Searched(Option<String>),
    /// An action of the main screen that needs the selected entry, the store, a process
    /// or the clipboard.
    Main(Action),
    /// The password was revealed (`true`) or hidden; reveal runs on a timer.
    Reveal(bool),
    Delete(String),
    /// Check and perform the move that the rename popup holds.
    Rename,
    /// Check and save the entry form under this name with this password.
    Save(String, String),
    /// Generate a new password for the generator's settings.
    Regenerate,
    CopyCode,
    /// Generate the code of this entry and show it.
    RefreshCode(String),
    CloseCode,
    InstallOtp,
    Recovery(RecoveryAction),
    History(HistoryAction),
    Push,
    Pull,
    Sync,
    CopyRemote,
    EditRemote,
    GitInit,
    OpenGithub,
    SetRemote(String),
    CreateGithub(String),
    InitWithKey(String),
    CreateKey(String, String),
    /// Show this message on the status line.
    Note(String),
    /// Reload the store and show this message.
    Done(String),
    /// Reload the store, then select this entry.
    Focus(String),
    /// Open or close this folder of the store tree.
    Fold(String),
    /// Decrypt this entry and show it on the detail panel.
    Show(String),
    /// Decrypt this entry and copy its password.
    CopyPassword(String),
    /// Mark this entry as a favorite, or take the mark away.
    ToggleFavorite(String),
    /// Copy the value, a field of the open entry whose name follows.
    CopyField(String, String),
    /// Decrypt this entry into the entry form.
    Edit(String),
    /// Read the state of the store's repository for the Git popup.
    OpenGit,
    /// List the saves of this entry, or of the whole store.
    ListHistory(Option<String>),
    /// Decrypt this entry and open its recovery codes.
    OpenRecovery(String),
    /// Look for signing keys and open the popup that creates the store.
    StartInit,
    /// An entry moved from the first path to the second: move its favorite mark, and,
    /// where the screen is open, reload the store and select it.
    Moved(String, String),
}

/// What came of outside work.
pub enum Outcome {
    Viewed(Result<DecryptedEntry, String>),
    Saved(String, Result<(), String>),
    Deleted(Result<(), String>),
    Moved(String, String, Result<(), String>),
    Git(Result<String, String>),
    Initialized(Result<(), String>),
    RecoverySaved(Result<DecryptedEntry, String>),
    Previewed(Result<Preview, String>),
    Restored(String, Result<(), String>),
    Copied(Result<(), String>),
    /// The entry at this path, decrypted for editing.
    Edited(String, Result<DecryptedEntry, String>),
}

/// A form with nothing in it.
pub open spec fn blank_editor(e: EntryEditor) -> bool {
    &&& e.username@.len() == 0
    &&& e.key() is None
    &&& e.url@.len() == 0
    &&& e.notes@.len() == 0
    &&& e.recovery_codes@.len() == 0
    &&& e.used_codes().len() == 0
    &&& e.editing_path is None
    &&& e.original_content is None
    &&& forall|i: int| 0 <= i < 6 ==> is_fresh(#[trigger] e.inputs[i]@)
}

/// The detail panel closed: no entry, no scroll, the password hidden.
pub open spec fn detail_closed(f: Screen) -> bool {
    f.detail is None && f.detail_scroll == 0 && !f.show_password
}

/// `f` is `o` locked: every secret and draft the screen held is gone, and only the
/// list position, the lock outcome and the settings stay.
pub open spec fn locked_from(o: Screen, f: Screen) -> bool {
    &&& f.locked
    &&& f.popup is NoPopup
    &&& f.input_mode == InputMode::Normal
    &&& detail_closed(f)
    &&& blank_editor(f.editor)
    &&& f.generator_draft is None
    &&& f.search_query@.len() == 0
    &&& is_fresh(f.search_input@)
    &&& is_fresh(f.rename_input@)
    &&& !f.favorites_only
    &&& f.form_error is None
    &&& f.selected == o.selected
    &&& f.listed == o.listed
    &&& f.lock_outcome == o.lock_outcome
    &&& f.reveal_by_default == o.reveal_by_default
}

/// The selection one row down, or the first row where none is selected.
pub open spec fn row_down(selected: Option<usize>, listed: usize) -> Option<usize> {
    match selected {
        Some(i) => Some(if i + 1 < listed { (i + 1) as usize } else { i }),
        None => Some(0),
    }
}

/// The selection one row up, or the first row where none is selected.
pub open spec fn row_up(selected: Option<usize>) -> Option<usize> {
    match selected {
        Some(i) => Some(if i > 0 { (i - 1) as usize } else { 0 }),
        None => Some(0),
    }
}

pub open spec fn failed_while_locked() -> Seq<char> {
    "Background action failed or was cancelled. Resume and check the store before retrying."@
}

pub open spec fn finished_while_locked() -> Seq<char> {
    "Background action finished. Resume to refresh the store."@
}

fn clear_detail(s: &mut Screen)
    ensures
        *final(s) == (Screen { detail: None, detail_scroll: 0, show_password: false, ..*old(s) }),
{
    if let Some(mut e) = s.detail.take() {
        e.wipe();
    }
    s.detail_scroll = 0;
    s.show_password = false;
}

/// Drops the generator's draft, wiping its name and password.
fn drop_draft(s: &mut Screen)
    ensures
        *final(s) == (Screen { generator_draft: None, ..*old(s) }),
{
    if let Some((mut n, mut p)) = s.generator_draft.take() {
        crate::text::wipe(&mut n);
        crate::text::wipe(&mut p);
    }
}

/// Drops the form's error, wiping its text.
fn drop_error(s: &mut Screen)
    ensures
        *final(s) == (Screen { form_error: None, ..*old(s) }),
{
    if let Some(mut e) = s.form_error.take() {
        crate::text::wipe(&mut e);
    }
}

/// Empties the search, wiping its text and its field's history.
fn clear_search(s: &mut Screen)
    ensures
        *final(s) == (Screen { search_query: final(s).search_query, search_input: final(s).search_input, ..*old(s) }),
        final(s).search_query@.len() == 0,
        is_fresh(final(s).search_input@),
{
    crate::text::wipe(&mut s.search_query);
    s.search_input.reset();
}

/// Closes the popup, wiping the password of a form or the generator and the entry
/// of the recovery-code view it held.
fn close_popup(s: &mut Screen)
    ensures
        *final(s) == (Screen { popup: ActivePopup::NoPopup, ..*old(s) }),
{
    let mut popup = ActivePopup::NoPopup;
    std::mem::swap(&mut popup, &mut s.popup);
    match popup {
        ActivePopup::AddEntry { mut password, .. } => crate::text::wipe(&mut password),
        ActivePopup::Generator { mut password, .. } => crate::text::wipe(&mut password),
        ActivePopup::Recovery(mut view) => view.entry.wipe(),
        _ => {},
    }
}

/// Locks the screen: drops the entry, every draft, the search and the popup.
pub fn lock(s: &mut Screen)
    ensures
        locked_from(*old(s), *final(s)),
{
    s.locked = true;
    close_popup(s);
    s.input_mode = InputMode::Normal;
    clear_detail(s);
    s.editor.discard();
    drop_draft(s);
    clear_search(s);
    s.rename_input.reset();
    s.favorites_only = false;
    drop_error(s);
}

fn row_down_exec(selected: Option<usize>, listed: usize) -> (r: Option<usize>)
    ensures
        r == row_down(selected, listed),
{
    match selected {
        Some(i) => Some(select_down(i, listed)),
        None => Some(0),
    }
}

fn row_up_exec(selected: Option<usize>) -> (r: Option<usize>)
    ensures
        r == row_up(selected),
{
    match selected {
        Some(i) => Some(select_up(i)),
        None => Some(0),
    }
}

/// The generator popup as it opens: a new 16-character password of every class.
fn open_generator(name: String) -> (r: ActivePopup)
    ensures
        r matches ActivePopup::Generator { name: n, password: p, length, uppercase, numbers, symbols, mode }
            && n == name && p@.len() == 16 && length == 16 && uppercase && numbers && symbols && mode
            == crate::pass::generator::GeneratorMode::Password,
{
    let password = generate_password(16, true, true, true);
    ActivePopup::Generator {
        name,
        password,
        length: 16,
        uppercase: true,
        numbers: true,
        symbols: true,
        mode: crate::pass::generator::GeneratorMode::Password,
    }
}

/// The screen after `key` while the screen is free (not locked, no work running, the
/// key not Ctrl+L) and no popup is open.
pub open spec fn listed_step(o: Screen, f: Screen, r: Effect, key: KeyEvent, copy_key: char) -> bool {
    if o.input_mode == InputMode::Search {
        match key.code {
            KeyCode::Esc => f == (Screen {
                input_mode: InputMode::Normal,
                detail: None,
                detail_scroll: 0,
                show_password: false,
                search_query: f.search_query,
                search_input: f.search_input,
                ..o
            }) && f.search_query@.len() == 0 && is_fresh(f.search_input@) && r is Relist,
            KeyCode::Enter => f == (Screen { input_mode: InputMode::Normal, ..o }) && r is Nothing,
            KeyCode::Up => f == (Screen {
                selected: row_up(o.selected),
                detail: None,
                detail_scroll: 0,
                show_password: false,
                ..o
            }) && r is Nothing,
            KeyCode::Down => f == (Screen {
                selected: row_down(o.selected, o.listed),
                detail: None,
                detail_scroll: 0,
                show_password: false,
                ..o
            }) && r is Nothing,
            _ => {
                let (i, t, changed) = handled(o.search_input@, o.search_query@, key);
                &&& f.search_input@ == i && f.search_query@ == t
                &&& changed ==> f == (Screen {
                    search_input: f.search_input,
                    search_query: f.search_query,
                    detail: None,
                    detail_scroll: 0,
                    show_password: false,
                    selected: Some(0),
                    ..o
                }) && r is Relist
                &&& !changed ==> f == (Screen {
                    search_input: f.search_input,
                    search_query: f.search_query,
                    ..o
                }) && r is Nothing
            },
        }
    } else {
        match main_action(key, copy_key) {
            Action::Quit => f == o && r is Quit,
            Action::Help => f == (Screen { popup: ActivePopup::Help, ..o }) && r is Nothing,
            Action::Down => f == (Screen {
                selected: row_down(o.selected, o.listed),
                detail: None,
                detail_scroll: 0,
                show_password: false,
                ..o
            }) && r is Nothing,
            Action::Up => f == (Screen {
                selected: row_up(o.selected),
                detail: None,
                detail_scroll: 0,
                show_password: false,
                ..o
            }) && r is Nothing,
            Action::First => f == (Screen {
                selected: if o.listed > 0 { Some(0) } else { None },
                detail: None,
                detail_scroll: 0,
                show_password: false,
                ..o
            }) && r is Nothing,
            Action::Last => (if o.listed > 0 {
                f == (Screen {
                    selected: Some((o.listed - 1) as usize),
                    detail: None,
                    detail_scroll: 0,
                    show_password: false,
                    ..o
                })
            } else {
                f == o
            }) && r is Nothing,
            Action::Reveal => f == (Screen { show_password: !o.show_password, ..o }) && r
                == Effect::Reveal(!o.show_password),
            Action::Search => f == (Screen {
                input_mode: InputMode::Search,
                detail: None,
                detail_scroll: 0,
                show_password: false,
                search_query: f.search_query,
                search_input: f.search_input,
                ..o
            }) && f.search_query@.len() == 0 && is_fresh(f.search_input@) && r is Relist,
            Action::FavoritesOnly => f == (Screen {
                favorites_only: !o.favorites_only,
                detail: None,
                detail_scroll: 0,
                show_password: false,
                selected: Some(0),
                ..o
            }) && r is Relist,
            Action::ScrollDown => f == (Screen {
                detail_scroll: if o.detail_scroll as int + 5 <= u16::MAX as int {
                    (o.detail_scroll + 5) as u16
                } else {
                    u16::MAX
                },
                ..o
            }) && r is Nothing,
            Action::ScrollUp => f == (Screen {
                detail_scroll: if o.detail_scroll >= 5 { (o.detail_scroll - 5) as u16 } else { 0 },
                ..o
            }) && r is Nothing,
            Action::Reset => f == (Screen {
                detail: None,
                detail_scroll: 0,
                show_password: false,
                favorites_only: false,
                search_query: f.search_query,
                search_input: f.search_input,
                ..o
            }) && f.search_query@.len() == 0 && is_fresh(f.search_input@) && r is Relist,
            Action::Generate => f == (Screen {
                generator_draft: None,
                editor: f.editor,
                form_error: None,
                popup: f.popup,
                ..o
            }) && blank_editor(f.editor) && (f.popup matches ActivePopup::Generator { name, .. }
                && name@.len() == 0) && r is Nothing,
            Action::Nothing | Action::Lock => f == o && r is Nothing,
            a => f == o && r == Effect::Main(a),
        }
    }
}

/// A key on the entry list or in the search field.
fn listed_key(s: &mut Screen, key: KeyEvent, copy_key: char) -> (r: Effect)
    ensures
        listed_step(*old(s), *final(s), r, key, copy_key),
{
    if s.input_mode == InputMode::Search {
        match key.code {
            KeyCode::Esc => {
                clear_detail(s);
                s.input_mode = InputMode::Normal;
                clear_search(s);
                Effect::Relist
            },
            KeyCode::Enter => {
                s.input_mode = InputMode::Normal;
                Effect::Nothing
            },
            KeyCode::Up => {
                s.selected = row_up_exec(s.selected);
                clear_detail(s);
                Effect::Nothing
            },
            KeyCode::Down => {
                s.selected = row_down_exec(s.selected, s.listed);
                clear_detail(s);
                Effect::Nothing
            },
            _ => {
                if s.search_input.handle(&mut s.search_query, key) {
                    clear_detail(s);
                    s.selected = Some(0);
                    Effect::Relist
                } else {
                    Effect::Nothing
                }
            },
        }
    } else {
        let a = action_for(key, copy_key);
        match a {
            Action::Quit => Effect::Quit,
            Action::Help => {
                s.popup = ActivePopup::Help;
                Effect::Nothing
            },
            Action::Down => {
                s.selected = row_down_exec(s.selected, s.listed);
                clear_detail(s);
                Effect::Nothing
            },
            Action::Up => {
                s.selected = row_up_exec(s.selected);
                clear_detail(s);
                Effect::Nothing
            },
            Action::First => {
                s.selected = if s.listed > 0 {
                    Some(0)
                } else {
                    None
                };
                clear_detail(s);
                Effect::Nothing
            },
            Action::Last => {
                if s.listed > 0 {
                    s.selected = Some(s.listed - 1);
                    clear_detail(s);
                }
                Effect::Nothing
            },
            Action::Reveal => {
                s.show_password = !s.show_password;
                Effect::Reveal(s.show_password)
            },
            Action::Search => {
                s.input_mode = InputMode::Search;
                clear_detail(s);
                clear_search(s);
                Effect::Relist
            },
            Action::FavoritesOnly => {
                s.favorites_only = !s.favorites_only;
                clear_detail(s);
                s.selected = Some(0);
                Effect::Relist
            },
            Action::ScrollDown => {
                s.detail_scroll = s.detail_scroll.saturating_add(5);
                Effect::Nothing
            },
            Action::ScrollUp => {
                s.detail_scroll = s.detail_scroll.saturating_sub(5);
                Effect::Nothing
            },
            Action::Reset => {
                clear_detail(s);
                s.favorites_only = false;
                clear_search(s);
                Effect::Relist
            },
            Action::Generate => {
                drop_draft(s);
                s.editor.discard();
                drop_error(s);
                s.popup = open_generator(String::new());
                Effect::Nothing
            },
            Action::Nothing | Action::Lock => Effect::Nothing,
            a => Effect::Main(a),
        }
    }
}

pub open spec fn string_is(s: String, v: Seq<char>) -> bool {
    s@ == v
}

/// The generator's settings as its popup shows them.
pub open spec fn generator_options(p: ActivePopup) -> crate::app_state::GeneratorOptions {
    match p {
        ActivePopup::Generator { length, uppercase, numbers, symbols, mode, .. } => crate::app_state::GeneratorOptions {
            length,
            uppercase,
            numbers,
            symbols,
            mode,
        },
        _ => crate::app_state::GeneratorOptions {
            length: 16,
            uppercase: true,
            numbers: true,
            symbols: true,
            mode: crate::pass::generator::GeneratorMode::Password,
        },
    }
}

/// A notice of an error over the screen.
pub open spec fn shows_error(p: ActivePopup, message: Seq<char>) -> bool {
    p matches ActivePopup::Notification { message: m, is_error } && m@ == message && is_error
}

/// The screen after `key` while the screen is free and a popup without text fields is
/// open (help, notice, confirmation, OTP setup, code, Git menu).
pub open spec fn plain_popup_step(o: Screen, f: Screen, r: Effect, key: KeyEvent) -> bool {
    let closed = Screen { popup: ActivePopup::NoPopup, ..o };
    match o.popup {
        ActivePopup::Help => if key.code == KeyCode::Esc || key.code == KeyCode::Char('q')
            || key.code == KeyCode::Char('?') {
            f == closed && r is Nothing
        } else {
            f == o && r is Nothing
        },
        ActivePopup::Notification { .. } => if key.code == KeyCode::Esc || key.code == KeyCode::Enter {
            f == closed && r is Nothing
        } else {
            f == o && r is Nothing
        },
        ActivePopup::Confirm { entry_path, .. } => if key.code == KeyCode::Char('y') {
            f == closed && (r matches Effect::Delete(p) && p@ == entry_path@)
        } else if key.code == KeyCode::Char('n') || key.code == KeyCode::Esc || key.code
            == KeyCode::Enter {
            f == closed && r is Nothing
        } else {
            f == o && r is Nothing
        },
        ActivePopup::OtpInstall { .. } => if key.code == KeyCode::Char('i') {
            f == o && r is InstallOtp
        } else if key.code == KeyCode::Esc || key.code == KeyCode::Char('q') {
            f == closed && r is Nothing
        } else {
            f == o && r is Nothing
        },
        ActivePopup::Totp { path, .. } => if key.code == KeyCode::Esc || key.code == KeyCode::Char('q') {
            f == closed && r is CloseCode
        } else if key.code == KeyCode::Char('r') {
            (f == Screen { popup: f.popup, ..o }) && (f.popup matches ActivePopup::Totp {
                path: p,
                code,
                error,
            } && p == path && code is None && error is None) && (r matches Effect::RefreshCode(q)
                && q@ == path@)
        } else if key.code == KeyCode::Char('y') {
            f == o && r is CopyCode
        } else {
            f == o && r is Nothing
        },
        ActivePopup::GitSync => match key.code {
            KeyCode::Esc | KeyCode::Char('q') => f == closed && r is Nothing,
            KeyCode::Char('p') => f == o && r is Push,
            KeyCode::Char('u') => f == o && r is Pull,
            KeyCode::Char('s') => f == o && r is Sync,
            KeyCode::Char('c') => f == o && r is CopyRemote,
            KeyCode::Char('r') => f == o && r is EditRemote,
            KeyCode::Char('i') => f == o && r is GitInit,
            KeyCode::Char('h') => f == o && r is OpenGithub,
            _ => f == o && r is Nothing,
        },
        _ => true,
    }
}

fn plain_popup_key(s: &mut Screen, key: KeyEvent) -> (r: Effect)
    ensures
        plain_popup_step(*old(s), *final(s), r, key),
{
    match &s.popup {
        ActivePopup::Help => {
            if key.code == KeyCode::Esc || key.code == KeyCode::Char('q') || key.code == KeyCode::Char('?') {
                s.popup = ActivePopup::NoPopup;
            }
            Effect::Nothing
        },
        ActivePopup::Notification { .. } => {
            if key.code == KeyCode::Esc || key.code == KeyCode::Enter {
                s.popup = ActivePopup::NoPopup;
            }
            Effect::Nothing
        },
        ActivePopup::Confirm { entry_path, .. } => {
            if key.code == KeyCode::Char('y') {
                let path = entry_path.clone();
                s.popup = ActivePopup::NoPopup;
                Effect::Delete(path)
            } else {
                if key.code == KeyCode::Char('n') || key.code == KeyCode::Esc || key.code == KeyCode::Enter {
                    s.popup = ActivePopup::NoPopup;
                }
                Effect::Nothing
            }
        },
        ActivePopup::OtpInstall { .. } => {
            if key.code == KeyCode::Char('i') {
                Effect::InstallOtp
            } else {
                if key.code == KeyCode::Esc || key.code == KeyCode::Char('q') {
                    s.popup = ActivePopup::NoPopup;
                }
                Effect::Nothing
            }
        },
        ActivePopup::Totp { path, .. } => {
            if key.code == KeyCode::Esc || key.code == KeyCode::Char('q') {
                s.popup = ActivePopup::NoPopup;
                Effect::CloseCode
            } else if key.code == KeyCode::Char('r') {
                let p = path.clone();
                let q = path.clone();
                s.popup = ActivePopup::Totp { path: p, code: None, error: None };
                Effect::RefreshCode(q)
            } else if key.code == KeyCode::Char('y') {
                Effect::CopyCode
            } else {
                Effect::Nothing
            }
        },
        ActivePopup::GitSync => {
            match key.code {
                KeyCode::Esc | KeyCode::Char('q') => {
                    s.popup = ActivePopup::NoPopup;
                    Effect::Nothing
                },
                KeyCode::Char('p') => Effect::Push,
                KeyCode::Char('u') => Effect::Pull,
                KeyCode::Char('s') => Effect::Sync,
                KeyCode::Char('c') => Effect::CopyRemote,
                KeyCode::Char('r') => Effect::EditRemote,
                KeyCode::Char('i') => Effect::GitInit,
                KeyCode::Char('h') => Effect::OpenGithub,
                _ => Effect::Nothing,
            }
        },
        _ => Effect::Nothing,
    }
}

pub open spec fn no_remote_error() -> Seq<char> {
    "✗ Remote URL cannot be empty"@
}

pub open spec fn no_repo_name_error() -> Seq<char> {
    "✗ Repository name cannot be empty"@
}

/// A one-line text that Backspace shortens and a character lengthens.
pub open spec fn typed(t: Seq<char>, key: KeyEvent) -> Seq<char> {
    match key.code {
        KeyCode::Backspace => if t.len() > 0 { t.drop_last() } else { t },
        KeyCode::Char(c) => t.push(c),
        _ => t,
    }
}

/// The screen after `key` in the rename, remote and repository popups.
pub open spec fn text_popup_step(o: Screen, f: Screen, r: Effect, key: KeyEvent) -> bool {
    let closed = Screen { popup: ActivePopup::NoPopup, ..o };
    match o.popup {
        ActivePopup::Rename { source, destination } => match key.code {
            KeyCode::Esc => f == (Screen { popup: ActivePopup::NoPopup, rename_input: f.rename_input, ..o })
                && is_fresh(f.rename_input@) && r is Nothing,
            KeyCode::Enter => f == o && r is Rename,
            _ => {
                let (i, t, _) = handled(o.rename_input@, destination@, key);
                &&& f == (Screen { popup: f.popup, rename_input: f.rename_input, ..o })
                &&& f.rename_input@ == i
                &&& f.popup matches ActivePopup::Rename { source: s2, destination: d2 } && s2 == source
                    && d2@ == t
                &&& r is Nothing
            },
        },
        ActivePopup::SetRemote { url } => match key.code {
            KeyCode::Esc => f == (Screen { popup: ActivePopup::GitSync, ..o }) && r is Nothing,
            KeyCode::Enter => if trim(url@).len() == 0 {
                (f == Screen { popup: f.popup, ..o }) && shows_error(f.popup, no_remote_error())
                    && r is Nothing
            } else {
                f == o && (r matches Effect::SetRemote(u) && u@ == trim(url@))
            },
            KeyCode::Backspace | KeyCode::Char(_) => (f == Screen { popup: f.popup, ..o }) && (
            f.popup matches ActivePopup::SetRemote { url: u } && u@ == typed(url@, key)) && r is Nothing,
            _ => f == o && r is Nothing,
        },
        ActivePopup::GithubRepo { name } => match key.code {
            KeyCode::Esc => f == closed && r is Nothing,
            KeyCode::Enter => if trim(name@).len() == 0 {
                (f == Screen { popup: f.popup, ..o }) && shows_error(f.popup, no_repo_name_error())
                    && r is Nothing
            } else {
                f == closed && (r matches Effect::CreateGithub(n) && n@ == trim(name@))
            },
            KeyCode::Backspace | KeyCode::Char(_) => (f == Screen { popup: f.popup, ..o }) && (
            f.popup matches ActivePopup::GithubRepo { name: n } && n@ == typed(name@, key)) && r is Nothing,
            _ => f == o && r is Nothing,
        },
        _ => true,
    }
}

fn type_into(t: &mut String, key: KeyEvent)
    ensures
        final(t)@ == typed(old(t)@, key),
{
    match key.code {
        KeyCode::Backspace => {
            let _ = crate::text::pop_char(t);
        },
        KeyCode::Char(c) => crate::text::push_char(t, c),
        _ => {},
    }
}

fn error_notice(message: &str) -> (r: ActivePopup)
    ensures
        shows_error(r, message@),
{
    ActivePopup::Notification { message: message.to_owned(), is_error: true }
}

fn text_popup_key(s: &mut Screen, key: KeyEvent) -> (r: Effect)
    ensures
        text_popup_step(*old(s), *final(s), r, key),
{
    let mut popup = ActivePopup::NoPopup;
    std::mem::swap(&mut popup, &mut s.popup);
    match popup {
        ActivePopup::Rename { source, mut destination } => match key.code {
            KeyCode::Esc => {
                s.rename_input.reset();
                Effect::Nothing
            },
            KeyCode::Enter => {
                s.popup = ActivePopup::Rename { source, destination };
                Effect::Rename
            },
            _ => {
                let _ = s.rename_input.handle(&mut destination, key);
                s.popup = ActivePopup::Rename { source, destination };
                Effect::Nothing
            },
        },
        ActivePopup::SetRemote { mut url } => match key.code {
            KeyCode::Esc => {
                s.popup = ActivePopup::GitSync;
                Effect::Nothing
            },
            KeyCode::Enter => {
                let target = trim_exec(&to_chars(url.as_str()));
                if target.len() == 0 {
                    s.popup = error_notice("✗ Remote URL cannot be empty");
                    Effect::Nothing
                } else {
                    s.popup = ActivePopup::SetRemote { url };
                    Effect::SetRemote(string_of(&target))
                }
            },
            KeyCode::Backspace | KeyCode::Char(_) => {
                type_into(&mut url, key);
                s.popup = ActivePopup::SetRemote { url };
                Effect::Nothing
            },
            _ => {
                s.popup = ActivePopup::SetRemote { url };
                Effect::Nothing
            },
        },
        ActivePopup::GithubRepo { mut name } => match key.code {
            KeyCode::Esc => Effect::Nothing,
            KeyCode::Enter => {
                let repo = trim_exec(&to_chars(name.as_str()));
                if repo.len() == 0 {
                    s.popup = error_notice("✗ Repository name cannot be empty");
                    Effect::Nothing
                } else {
                    Effect::CreateGithub(string_of(&repo))
                }
            },
            KeyCode::Backspace | KeyCode::Char(_) => {
                type_into(&mut name, key);
                s.popup = ActivePopup::GithubRepo { name };
                Effect::Nothing
            },
            _ => {
                s.popup = ActivePopup::GithubRepo { name };
                Effect::Nothing
            },
        },
        other => {
            s.popup = other;
            Effect::Nothing
        },
    }
}

pub open spec fn no_key_error() -> Seq<char> {
    "✗ Please select or enter a GPG key ID"@
}

pub open spec fn no_identity_error() -> Seq<char> {
    "✗ Both name and email are required to create a GPG key"@
}

/// The key that the store is initialized with from the key list.
pub open spec fn chosen_key(keys: Seq<crate::pass::commands::GpgKey>, selected: usize, custom: Seq<char>, is_custom: bool) -> Seq<char> {
    if is_custom {
        trim(custom)
    } else if selected < keys.len() {
        keys[selected as int].id@
    } else {
        seq![]
    }
}

/// The screen after `key` in the popup that initializes the store.
pub open spec fn init_popup_step(o: Screen, f: Screen, r: Effect, key: KeyEvent) -> bool {
    let closed = Screen { popup: ActivePopup::NoPopup, ..o };
    let kept = f == Screen { popup: f.popup, ..o };
    match o.popup {
        ActivePopup::InitStore { mode: InitMode::SelectKey { keys, selected_index, custom_id, is_custom } } => {
            let stays = |k: Seq<crate::pass::commands::GpgKey>, i: usize, c: Seq<char>, b: bool|
                f.popup matches ActivePopup::InitStore { mode: InitMode::SelectKey { keys: k2, selected_index: i2, custom_id: c2, is_custom: b2 } }
                    && k2@ == k && i2 == i && c2@ == c && b2 == b;
            match key.code {
                KeyCode::Esc => f == closed && r is Nothing,
                KeyCode::Char('n') if !is_custom => kept && (f.popup matches ActivePopup::InitStore {
                    mode: InitMode::CreateKey { name, email, active_field },
                } && name@.len() == 0 && email@.len() == 0 && active_field == InitField::Name) && r is Nothing,
                KeyCode::Tab => kept && stays(keys@, selected_index, custom_id@, !is_custom) && r is Nothing,
                KeyCode::Char('j') if !is_custom => kept && stays(
                    keys@,
                    if selected_index + 1 < keys.len() { (selected_index + 1) as usize } else { selected_index },
                    custom_id@,
                    is_custom,
                ) && r is Nothing,
                KeyCode::Down if !is_custom => kept && stays(
                    keys@,
                    if selected_index + 1 < keys.len() { (selected_index + 1) as usize } else { selected_index },
                    custom_id@,
                    is_custom,
                ) && r is Nothing,
                KeyCode::Char('k') if !is_custom => kept && stays(
                    keys@,
                    if selected_index > 0 { (selected_index - 1) as usize } else { 0 },
                    custom_id@,
                    is_custom,
                ) && r is Nothing,
                KeyCode::Up if !is_custom => kept && stays(
                    keys@,
                    if selected_index > 0 { (selected_index - 1) as usize } else { 0 },
                    custom_id@,
                    is_custom,
                ) && r is Nothing,
                KeyCode::Char(_) if is_custom => kept && stays(
                    keys@,
                    selected_index,
                    typed(custom_id@, key),
                    is_custom,
                ) && r is Nothing,
                KeyCode::Backspace if is_custom => kept && stays(
                    keys@,
                    selected_index,
                    typed(custom_id@, key),
                    is_custom,
                ) && r is Nothing,
                KeyCode::Enter => {
                    let id = chosen_key(keys@, selected_index, custom_id@, is_custom);
                    if id.len() == 0 {
                        kept && shows_error(f.popup, no_key_error()) && r is Nothing
                    } else {
                        f == o && (r matches Effect::InitWithKey(k) && k@ == id)
                    }
                },
                _ => f == o && r is Nothing,
            }
        },
        ActivePopup::InitStore { mode: InitMode::CreateKey { name, email, active_field } } => {
            let stays = |n: Seq<char>, e: Seq<char>, a: InitField|
                f.popup matches ActivePopup::InitStore { mode: InitMode::CreateKey { name: n2, email: e2, active_field: a2 } }
                    && n2@ == n && e2@ == e && a2 == a;
            match key.code {
                KeyCode::Esc => f == closed && r is Nothing,
                KeyCode::Tab | KeyCode::BackTab => kept && stays(
                    name@,
                    email@,
                    if active_field == InitField::Name { InitField::Email } else { InitField::Name },
                ) && r is Nothing,
                KeyCode::Char(_) | KeyCode::Backspace => kept && (if active_field == InitField::Name {
                    stays(typed(name@, key), email@, active_field)
                } else {
                    stays(name@, typed(email@, key), active_field)
                }) && r is Nothing,
                KeyCode::Enter => if active_field == InitField::Name && trim(name@).len() > 0 {
                    kept && stays(name@, email@, InitField::Email) && r is Nothing
                } else if trim(name@).len() == 0 || trim(email@).len() == 0 {
                    kept && shows_error(f.popup, no_identity_error()) && r is Nothing
                } else {
                    f == o && (r matches Effect::CreateKey(n, e) && n@ == trim(name@) && e@ == trim(email@))
                },
                _ => f == o && r is Nothing,
            }
        },
        _ => true,
    }
}

fn init_popup_key(s: &mut Screen, key: KeyEvent) -> (r: Effect)
    ensures
        init_popup_step(*old(s), *final(s), r, key),
{
    let mut popup = ActivePopup::NoPopup;
    std::mem::swap(&mut popup, &mut s.popup);
    match popup {
        ActivePopup::InitStore { mode: InitMode::SelectKey { keys, mut selected_index, mut custom_id, mut is_custom } } => {
            match key.code {
                KeyCode::Esc => return Effect::Nothing,
                KeyCode::Char('n') if !is_custom => {
                    s.popup = ActivePopup::InitStore {
                        mode: InitMode::CreateKey { name: String::new(), email: String::new(), active_field: InitField::Name },
                    };
                    return Effect::Nothing;
                },
                KeyCode::Tab => is_custom = !is_custom,
                KeyCode::Char('j') if !is_custom => {
                    if selected_index < keys.len() && selected_index + 1 < keys.len() {
                        selected_index = selected_index + 1;
                    }
                },
                KeyCode::Down if !is_custom => {
                    if selected_index < keys.len() && selected_index + 1 < keys.len() {
                        selected_index = selected_index + 1;
                    }
                },
                KeyCode::Char('k') if !is_custom => {
                    if selected_index > 0 {
                        selected_index = selected_index - 1;
                    }
                },
                KeyCode::Up if !is_custom => {
                    if selected_index > 0 {
                        selected_index = selected_index - 1;
                    }
                },
                KeyCode::Char(_) if is_custom => type_into(&mut custom_id, key),
                KeyCode::Backspace if is_custom => type_into(&mut custom_id, key),
                KeyCode::Enter => {
                    let id = if is_custom {
                        trim_exec(&to_chars(custom_id.as_str()))
                    } else if selected_index < keys.len() {
                        to_chars(keys[selected_index].id.as_str())
                    } else {
                        Vec::new()
                    };
                    if id.len() == 0 {
                        s.popup = error_notice("✗ Please select or enter a GPG key ID");
                        return Effect::Nothing;
                    }
                    s.popup = ActivePopup::InitStore {
                        mode: InitMode::SelectKey { keys, selected_index, custom_id, is_custom },
                    };
                    return Effect::InitWithKey(string_of(&id));
                },
                _ => {},
            }
            s.popup = ActivePopup::InitStore {
                mode: InitMode::SelectKey { keys, selected_index, custom_id, is_custom },
            };
            Effect::Nothing
        },
        ActivePopup::InitStore { mode: InitMode::CreateKey { mut name, mut email, mut active_field } } => {
            match key.code {
                KeyCode::Esc => return Effect::Nothing,
                KeyCode::Tab | KeyCode::BackTab => active_field = active_field.other(),
                KeyCode::Char(_) | KeyCode::Backspace => {
                    if active_field == InitField::Name {
                        type_into(&mut name, key);
                    } else {
                        type_into(&mut email, key);
                    }
                },
                KeyCode::Enter => {
                    let n = trim_exec(&to_chars(name.as_str()));
                    let e = trim_exec(&to_chars(email.as_str()));
                    if active_field == InitField::Name && n.len() > 0 {
                        active_field = InitField::Email;
                    } else if n.len() == 0 || e.len() == 0 {
                        s.popup = error_notice("✗ Both name and email are required to create a GPG key");
                        return Effect::Nothing;
                    } else {
                        s.popup = ActivePopup::InitStore { mode: InitMode::CreateKey { name, email, active_field } };
                        return Effect::CreateKey(string_of(&n), string_of(&e));
                    }
                },
                _ => {},
            }
            s.popup = ActivePopup::InitStore { mode: InitMode::CreateKey { name, email, active_field } };
            Effect::Nothing
        },
        other => {
            s.popup = other;
            Effect::Nothing
        },
    }
}

/// The text of field `a` of the entry form, whose name and password the popup holds.
pub open spec fn form_text(e: EntryEditor, name: Seq<char>, password: Seq<char>, a: AddField) -> Seq<char> {
    match a {
        AddField::Name => name,
        AddField::Password => password,
        AddField::Username => e.username@,
        AddField::Url => e.url@,
        AddField::Notes => e.notes@,
        AddField::RecoveryCodes => e.recovery_codes@,
    }
}

/// `f` holds the form `o` held, with field `a`'s text and input set to `t` and `i`.
pub open spec fn form_set(
    o: EntryEditor,
    name: Seq<char>,
    password: Seq<char>,
    f: EntryEditor,
    name2: Seq<char>,
    password2: Seq<char>,
    a: AddField,
    t: Seq<char>,
    i: crate::text_input::InputView,
) -> bool {
    &&& form_text(f, name2, password2, a) == t
    &&& f.inputs[crate::app_state::field_index(a)]@ == i
    &&& forall|b: AddField| b != a ==> form_text(f, name2, password2, b) == form_text(o, name, password, b)
    &&& forall|j: int| 0 <= j < 6 && j != crate::app_state::field_index(a) ==> #[trigger] f.inputs[j] == o.inputs[j]
    &&& f.username_key == o.username_key
    &&& f.used_recovery_codes == o.used_recovery_codes
    &&& f.editing_path == o.editing_path
    &&& f.original_content == o.original_content
}

/// The screen after `key` in the entry form and the generator.
pub open spec fn form_popup_step(o: Screen, f: Screen, r: Effect, key: KeyEvent) -> bool {
    match o.popup {
        ActivePopup::AddEntry { name, password, active_field } => {
            let stays = |a: AddField| f.popup matches ActivePopup::AddEntry { name: n2, password: p2, active_field: a2 }
                && n2 == name && p2 == password && a2 == a;
            if key.code == KeyCode::Esc {
                f == (Screen {
                    popup: ActivePopup::NoPopup,
                    editor: f.editor,
                    generator_draft: None,
                    form_error: None,
                    ..o
                }) && blank_editor(f.editor) && r is Nothing
            } else if key.code == KeyCode::Tab || key.code == KeyCode::BackTab {
                (f == Screen { popup: f.popup, ..o }) && stays(crate::app_state::field_at(
                    if key.code == KeyCode::BackTab {
                        (crate::app_state::field_index(active_field) + 5) % 6
                    } else {
                        (crate::app_state::field_index(active_field) + 1) % 6
                    },
                )) && r is Nothing
            } else if key.code == KeyCode::Enter && key.alt && (active_field == AddField::Notes
                || active_field == AddField::RecoveryCodes) {
                let i = crate::app_state::field_index(active_field);
                let (inp, t) = crate::text_input::inserted(
                    o.editor.inputs[i]@,
                    form_text(o.editor, name@, password@, active_field),
                    seq!['\n'],
                );
                (f == Screen { editor: f.editor, ..o }) && form_set(
                    o.editor,
                    name@,
                    password@,
                    f.editor,
                    name@,
                    password@,
                    active_field,
                    t,
                    inp,
                ) && r is Nothing
            } else if key.code == KeyCode::Enter {
                if active_field == AddField::Name {
                    (f == Screen { popup: f.popup, ..o }) && stays(AddField::Password) && r is Nothing
                } else {
                    f == o && (r matches Effect::Save(n, p) && n@ == name@ && p@ == password@)
                }
            } else if key.ctrl && key.code == KeyCode::Char('g') {
                (f == Screen { popup: f.popup, generator_draft: f.generator_draft, ..o })
                    && (f.generator_draft matches Some((n, p)) && n == name && p == password)
                    && (f.popup matches ActivePopup::Generator { name: n, password: p, length, mode, .. }
                    && n == name && p@.len() == 16 && length == 16) && r is Nothing
            } else {
                let i = crate::app_state::field_index(active_field);
                let (inp, t, _) = handled(
                    o.editor.inputs[i]@,
                    form_text(o.editor, name@, password@, active_field),
                    key,
                );
                &&& f == (Screen { popup: f.popup, editor: f.editor, ..o })
                &&& f.popup matches ActivePopup::AddEntry { name: n2, password: p2, active_field: a2 }
                    && a2 == active_field && form_set(o.editor, name@, password@, f.editor, n2@, p2@, active_field, t, inp)
                &&& r is Nothing
            }
        },
        ActivePopup::Generator { name, password, length, uppercase, numbers, symbols, mode } => {
            if key.code == KeyCode::Esc {
                &&& f == (Screen { popup: f.popup, generator_draft: None, ..o })
                &&& f.popup matches ActivePopup::AddEntry { name: n, password: p, active_field: a }
                    && a == AddField::Password && match o.generator_draft {
                    Some((dn, dp)) => n == dn && p == dp,
                    None => n == name && p@.len() == 0,
                }
                &&& r is Nothing
            } else if key.code == KeyCode::Enter {
                &&& f == (Screen { popup: f.popup, generator_draft: None, editor: f.editor, ..o })
                &&& f.popup matches ActivePopup::AddEntry { name: n, password: p, active_field: a }
                    && a == AddField::Password && n == name && p == password
                &&& is_fresh(f.editor.inputs[1]@)
                &&& (f.editor == EntryEditor { inputs: f.editor.inputs, ..o.editor })
                &&& forall|j: int| 0 <= j < 6 && j != 1 ==> #[trigger] f.editor.inputs[j] == o.editor.inputs[j]
                &&& r is Nothing
            } else if key.code is Char {
                let (opts, again) = crate::app_state::adjusted(generator_options(o.popup), key.code->Char_0);
                &&& (f == Screen { popup: f.popup, ..o })
                &&& f.popup matches ActivePopup::Generator { name: n, password: p, .. } && n == name && p == password
                &&& generator_options(f.popup) == opts
                &&& if again { r is Regenerate } else { r is Nothing }
            } else {
                f == o && r is Nothing
            }
        },
        _ => true,
    }
}

proof fn lemma_newline_accepted()
    ensures
        crate::text_input::normalized("\n"@) == seq!['\n'],
        !crate::text_input::rejects(crate::text_input::normalized("\n"@), true),
{
    reveal_strlit("\n");
    let v = seq!['\n'];
    assert("\n"@ =~= v);
    assert(v[0] == '\n');
    assert(v.drop_first() =~= Seq::<char>::empty());
    assert(crate::text_input::normalized(Seq::<char>::empty()) =~= Seq::<char>::empty());
    assert(crate::text_input::normalized(v) == seq![v[0]] + crate::text_input::normalized(v.drop_first()));
    assert(crate::text_input::normalized(v) =~= seq!['\n']);
    assert(crate::text_input::accepted('\n', true));
}

fn form_popup_key(s: &mut Screen, key: KeyEvent) -> (r: Effect)
    ensures
        form_popup_step(*old(s), *final(s), r, key),
{
    let mut popup = ActivePopup::NoPopup;
    std::mem::swap(&mut popup, &mut s.popup);
    match popup {
        ActivePopup::AddEntry { mut name, mut password, active_field } => {
            if key.code == KeyCode::Esc {
                crate::text::wipe(&mut password);
                s.editor.discard();
                drop_draft(s);
                drop_error(s);
                Effect::Nothing
            } else if key.code == KeyCode::Tab || key.code == KeyCode::BackTab {
                s.popup = ActivePopup::AddEntry { name, password, active_field: active_field.next(key.code == KeyCode::BackTab) };
                Effect::Nothing
            } else if key.code == KeyCode::Enter && key.alt && (active_field == AddField::Notes
                || active_field == AddField::RecoveryCodes) {
                proof {
                    lemma_newline_accepted();
                }
                if active_field == AddField::Notes {
                    let _ = s.editor.inputs[4].insert(&mut s.editor.notes, "\n", true);
                } else {
                    let _ = s.editor.inputs[5].insert(&mut s.editor.recovery_codes, "\n", true);
                }
                s.popup = ActivePopup::AddEntry { name, password, active_field };
                Effect::Nothing
            } else if key.code == KeyCode::Enter {
                if active_field == AddField::Name {
                    s.popup = ActivePopup::AddEntry { name, password, active_field: AddField::Password };
                    Effect::Nothing
                } else {
                    let n = name.clone();
                    let p = password.clone();
                    s.popup = ActivePopup::AddEntry { name, password, active_field };
                    Effect::Save(n, p)
                }
            } else if key.ctrl && key.code == KeyCode::Char('g') {
                let n = name.clone();
                s.generator_draft = Some((name, password));
                s.popup = open_generator(n);
                Effect::Nothing
            } else {
                match active_field {
                    AddField::Name => {
                        let _ = s.editor.inputs[0].handle(&mut name, key);
                    },
                    AddField::Password => {
                        let _ = s.editor.inputs[1].handle(&mut password, key);
                    },
                    AddField::Username => {
                        let _ = s.editor.inputs[2].handle(&mut s.editor.username, key);
                    },
                    AddField::Url => {
                        let _ = s.editor.inputs[3].handle(&mut s.editor.url, key);
                    },
                    AddField::Notes => {
                        let _ = s.editor.inputs[4].handle(&mut s.editor.notes, key);
                    },
                    AddField::RecoveryCodes => {
                        let _ = s.editor.inputs[5].handle(&mut s.editor.recovery_codes, key);
                    },
                }
                s.popup = ActivePopup::AddEntry { name, password, active_field };
                Effect::Nothing
            }
        },
        ActivePopup::Generator { name, password, length, uppercase, numbers, symbols, mode } => {
            if key.code == KeyCode::Esc {
                let (n, p) = match s.generator_draft.take() {
                    Some((n, p)) => (n, p),
                    None => (name, String::new()),
                };
                s.popup = ActivePopup::AddEntry { name: n, password: p, active_field: AddField::Password };
                Effect::Nothing
            } else if key.code == KeyCode::Enter {
                drop_draft(s);
                s.editor.inputs[1].reset();
                s.popup = ActivePopup::AddEntry { name, password, active_field: AddField::Password };
                Effect::Nothing
            } else {
                match key.code {
                    KeyCode::Char(c) => {
                        let mut o = crate::app_state::GeneratorOptions { length, uppercase, numbers, symbols, mode };
                        let again = o.adjust(c);
                        s.popup = ActivePopup::Generator {
                            name,
                            password,
                            length: o.length,
                            uppercase: o.uppercase,
                            numbers: o.numbers,
                            symbols: o.symbols,
                            mode: o.mode,
                        };
                        if again {
                            Effect::Regenerate
                        } else {
                            Effect::Nothing
                        }
                    },
                    _ => {
                        s.popup = ActivePopup::Generator { name, password, length, uppercase, numbers, symbols, mode };
                        Effect::Nothing
                    },
                }
            }
        },
        other => {
            s.popup = other;
            Effect::Nothing
        },
    }
}

/// The screen after `key`: `copy_key` is the configured copy shortcut, `busy` whether
/// outside work is still running, `now` the caller's clock in milliseconds.
pub open spec fn screen_step(
    o: Screen,
    f: Screen,
    r: Effect,
    key: KeyEvent,
    copy_key: char,
    busy: bool,
    now: u64,
) -> bool {
    if o.locked {
        if busy {
            f == o && r is Nothing
        } else if key.code == KeyCode::Char('q') {
            f == o && r is Quit
        } else if key.code == KeyCode::Enter {
            f == (Screen { locked: false, lock_outcome: None, ..o }) && r == Effect::Resume(o.lock_outcome)
        } else {
            f == o && r is Nothing
        }
    } else if key.ctrl && key.code == KeyCode::Char('l') {
        locked_from(o, f) && r is Lock
    } else if busy {
        if o.popup is GitSync && key.code == KeyCode::Esc {
            f == (Screen { popup: ActivePopup::NoPopup, ..o }) && r is Nothing
        } else if o.input_mode == InputMode::Normal && o.popup is NoPopup && key.code == KeyCode::Up {
            f == (Screen {
                selected: row_up(o.selected),
                detail: None,
                detail_scroll: 0,
                show_password: false,
                ..o
            }) && r is Nothing
        } else if o.input_mode == InputMode::Normal && o.popup is NoPopup && key.code == KeyCode::Down {
            f == (Screen {
                selected: row_down(o.selected, o.listed),
                detail: None,
                detail_scroll: 0,
                show_password: false,
                ..o
            }) && r is Nothing
        } else if o.input_mode == InputMode::Normal && o.popup is NoPopup && key.code == KeyCode::Char('q') {
            f == o && r is Quit
        } else {
            f == o && r is Nothing
        }
    } else {
        match o.popup {
            ActivePopup::NoPopup => listed_step(o, f, r, key, copy_key),
            ActivePopup::Help | ActivePopup::Notification { .. } | ActivePopup::Confirm { .. }
            | ActivePopup::OtpInstall { .. } | ActivePopup::Totp { .. } | ActivePopup::GitSync =>
                plain_popup_step(o, f, r, key),
            ActivePopup::Rename { .. } | ActivePopup::SetRemote { .. } | ActivePopup::GithubRepo { .. } =>
                text_popup_step(o, f, r, key),
            ActivePopup::InitStore { .. } => init_popup_step(o, f, r, key),
            ActivePopup::AddEntry { .. } | ActivePopup::Generator { .. } => form_popup_step(o, f, r, key),
            ActivePopup::Recovery(v) => (f == Screen { popup: f.popup, ..o }) && (r matches Effect::Recovery(a) && (
            (a is Close && f.popup is NoPopup && exists|v2: crate::recovery::View|
                #[trigger] crate::recovery::recovery_step(*v, v2, a, key, now)) || (!(a is Close) && (
            f.popup matches ActivePopup::Recovery(v2) && crate::recovery::recovery_step(*v, *v2, a, key, now))))),
            ActivePopup::History(v) => (f == Screen { popup: f.popup, ..o }) && (r matches Effect::History(a) && (
            (a is Close && f.popup is NoPopup && exists|v2: crate::history::HistoryView|
                #[trigger] crate::history::history_step(*v, v2, a, key)) || (!(a is Close) && (
            f.popup matches ActivePopup::History(v2) && crate::history::history_step(*v, *v2, a, key))))),
        }
    }
}

/// Handles a key on the screen as `screen_step` says, the idle limit aside.
fn key_now(s: &mut Screen, key: KeyEvent, copy_key: char, busy: bool, now: u64) -> (r: Effect)
    ensures
        screen_step(*old(s), *final(s), r, key, copy_key, busy, now),
{
    if s.locked {
        if busy {
            return Effect::Nothing;
        }
        if key.code == KeyCode::Char('q') {
            return Effect::Quit;
        }
        if key.code == KeyCode::Enter {
            s.locked = false;
            let outcome = s.lock_outcome.take();
            return Effect::Resume(outcome);
        }
        return Effect::Nothing;
    }
    if key.ctrl && key.code == KeyCode::Char('l') {
        lock(s);
        return Effect::Lock;
    }
    if busy {
        let list = s.input_mode == InputMode::Normal && match s.popup {
            ActivePopup::NoPopup => true,
            _ => false,
        };
        let git = match s.popup {
            ActivePopup::GitSync => true,
            _ => false,
        };
        if git && key.code == KeyCode::Esc {
            s.popup = ActivePopup::NoPopup;
        } else if list && key.code == KeyCode::Up {
            s.selected = row_up_exec(s.selected);
            clear_detail(s);
        } else if list && key.code == KeyCode::Down {
            s.selected = row_down_exec(s.selected, s.listed);
            clear_detail(s);
        } else if list && key.code == KeyCode::Char('q') {
            return Effect::Quit;
        }
        return Effect::Nothing;
    }
    match s.popup {
        ActivePopup::NoPopup => listed_key(s, key, copy_key),
        ActivePopup::Help | ActivePopup::Notification { .. } | ActivePopup::Confirm { .. }
        | ActivePopup::OtpInstall { .. } | ActivePopup::Totp { .. } | ActivePopup::GitSync =>
            plain_popup_key(s, key),
        ActivePopup::Rename { .. } | ActivePopup::SetRemote { .. } | ActivePopup::GithubRepo { .. } =>
            text_popup_key(s, key),
        ActivePopup::InitStore { .. } => init_popup_key(s, key),
        ActivePopup::AddEntry { .. } | ActivePopup::Generator { .. } => form_popup_key(s, key),
        ActivePopup::Recovery(_) | ActivePopup::History(_) => {
            let mut popup = ActivePopup::NoPopup;
            std::mem::swap(&mut popup, &mut s.popup);
            match popup {
                ActivePopup::Recovery(mut view) => {
                    let ghost before = *view;
                    let a = view.handle_key(key, now);
                    match a {
                        RecoveryAction::Close => {
                            assert(crate::recovery::recovery_step(before, *view, a, key, now));
                            view.entry.wipe();
                        },
                        _ => s.popup = ActivePopup::Recovery(view),
                    }
                    Effect::Recovery(a)
                },
                ActivePopup::History(mut view) => {
                    let ghost before = *view;
                    let a = view.handle_key(key);
                    match a {
                        HistoryAction::Close => {
                            assert(crate::history::history_step(before, *view, a, key));
                        },
                        _ => s.popup = ActivePopup::History(view),
                    }
                    Effect::History(a)
                },
                other => {
                    s.popup = other;
                    Effect::Nothing
                },
            }
        },
    }
}

/// A field that nothing was typed into yet.
pub open spec fn fresh_input() -> crate::text_input::InputView {
    crate::text_input::InputView { cursor: None, undo: seq![], redo: seq![] }
}

/// The field and its text after pasting `v` into text `t` at the field `i`, or `None`
/// where the field refuses what `v` holds.
pub open spec fn pasted(
    i: crate::text_input::InputView,
    t: Seq<char>,
    v: Seq<char>,
    multiline: bool,
) -> Option<(crate::text_input::InputView, Seq<char>)> {
    let w = crate::text_input::normalized(v);
    if crate::text_input::rejects(w, multiline) {
        None
    } else {
        Some(crate::text_input::inserted(i, t, w))
    }
}

/// The field and its text after pasting `v`: as `pasted` gives them, or unchanged where
/// the field refuses the paste.
pub open spec fn paste_into(
    i: crate::text_input::InputView,
    t: Seq<char>,
    v: Seq<char>,
    multiline: bool,
) -> (crate::text_input::InputView, Seq<char>) {
    match pasted(i, t, v, multiline) {
        Some(x) => x,
        None => (i, t),
    }
}

/// After a paste into a popup's field: where it was refused the form and the status
/// line say why, otherwise the form shows no error.
pub open spec fn paste_told(f: Screen, r: Effect, refused: bool) -> bool {
    if refused {
        &&& f.form_error matches Some(e) && e@ == crate::text_input::single_line_error()
        &&& r matches Effect::Note(m) && m@ == crate::text_input::single_line_error()
    } else {
        f.form_error is None && r is Nothing
    }
}

/// The screen after pasting `v`: only into the search while it is typed, or into the
/// text field of the open popup; nothing while the screen is locked or work runs.
pub open spec fn paste_step(o: Screen, f: Screen, r: Effect, v: Seq<char>, busy: bool) -> bool {
    if o.locked || busy {
        f == o && r is Nothing
    } else {
        match o.popup {
            ActivePopup::NoPopup => if o.input_mode == InputMode::Search {
                let (i, t) = paste_into(o.search_input@, o.search_query@, v, false);
                &&& f == (Screen {
                    detail: None,
                    detail_scroll: 0,
                    show_password: false,
                    selected: Some(0),
                    search_input: f.search_input,
                    search_query: f.search_query,
                    ..o
                })
                &&& f.search_input@ == i && f.search_query@ == t
                &&& if pasted(o.search_input@, o.search_query@, v, false) is None {
                    r matches Effect::Searched(Some(e)) && e@ == crate::text_input::single_line_error()
                } else {
                    r == Effect::Searched(None)
                }
            } else {
                f == o && r is Nothing
            },
            ActivePopup::AddEntry { name, password, active_field } => {
                let k = crate::app_state::field_index(active_field);
                let text = form_text(o.editor, name@, password@, active_field);
                let (i, t) = paste_into(o.editor.inputs[k]@, text, v, k >= 4);
                &&& f == (Screen { popup: f.popup, editor: f.editor, form_error: f.form_error, ..o })
                &&& f.popup matches ActivePopup::AddEntry { name: n2, password: p2, active_field: a2 }
                    && a2 == active_field && form_set(o.editor, name@, password@, f.editor, n2@, p2@, active_field, t, i)
                &&& paste_told(f, r, pasted(o.editor.inputs[k]@, text, v, k >= 4) is None)
            },
            ActivePopup::Rename { source, destination } => {
                let (i, t) = paste_into(o.rename_input@, destination@, v, false);
                &&& f == (Screen { popup: f.popup, rename_input: f.rename_input, form_error: f.form_error, ..o })
                &&& f.popup matches ActivePopup::Rename { source: s2, destination: d2 } && s2 == source && d2@ == t
                &&& f.rename_input@ == i
                &&& paste_told(f, r, pasted(o.rename_input@, destination@, v, false) is None)
            },
            ActivePopup::SetRemote { url } => {
                &&& f == (Screen { popup: f.popup, form_error: f.form_error, ..o })
                &&& f.popup matches ActivePopup::SetRemote { url: u2 } && u2@ == paste_into(fresh_input(), url@, v, false).1
                &&& paste_told(f, r, pasted(fresh_input(), url@, v, false) is None)
            },
            ActivePopup::GithubRepo { name } => {
                &&& f == (Screen { popup: f.popup, form_error: f.form_error, ..o })
                &&& f.popup matches ActivePopup::GithubRepo { name: n2 } && n2@ == paste_into(fresh_input(), name@, v, false).1
                &&& paste_told(f, r, pasted(fresh_input(), name@, v, false) is None)
            },
            ActivePopup::InitStore { mode: InitMode::SelectKey { keys, selected_index, custom_id, is_custom } } =>
                if is_custom {
                &&& f == (Screen { popup: f.popup, form_error: f.form_error, ..o })
                &&& f.popup matches ActivePopup::InitStore {
                    mode: InitMode::SelectKey { keys: k2, selected_index: i2, custom_id: c2, is_custom: b2 },
                } && k2 == keys && i2 == selected_index && b2 && c2@ == paste_into(fresh_input(), custom_id@, v, false).1
                &&& paste_told(f, r, pasted(fresh_input(), custom_id@, v, false) is None)
            } else {
                f == o && r is Nothing
            },
            ActivePopup::InitStore { mode: InitMode::CreateKey { name, email, active_field } } => {
                let target = if active_field == InitField::Name {
                    name@
                } else {
                    email@
                };
                let t = paste_into(fresh_input(), target, v, false).1;
                &&& f == (Screen { popup: f.popup, form_error: f.form_error, ..o })
                &&& f.popup matches ActivePopup::InitStore { mode: InitMode::CreateKey { name: n2, email: e2, active_field: a2 } }
                    && a2 == active_field && if active_field == InitField::Name {
                    n2@ == t && e2 == email
                } else {
                    e2@ == t && n2 == name
                }
                &&& paste_told(f, r, pasted(fresh_input(), target, v, false) is None)
            },
            _ => f == o && r is Nothing,
        }
    }
}

/// Where a paste into a popup's field was refused, the form and the status line say
/// why.
fn paste_outcome(s: &mut Screen, result: Result<(), String>) -> (r: Effect)
    ensures
        result is Ok ==> *final(s) == (Screen { form_error: None, ..*old(s) }) && r is Nothing,
        result matches Err(e) ==> *final(s) == (Screen { form_error: Some(e), ..*old(s) }) && (r matches Effect::Note(m) && m@ == e@),
{
    match result {
        Ok(()) => {
            s.form_error = None;
            Effect::Nothing
        },
        Err(e) => {
            let m = e.clone();
            s.form_error = Some(e);
            Effect::Note(m)
        },
    }
}

/// Handles pasted text as `paste_step` says, the idle limit aside.
fn paste_now(s: &mut Screen, text: &str, busy: bool) -> (r: Effect)
    ensures
        paste_step(*old(s), *final(s), r, text@, busy),
{
    if s.locked || busy {
        return Effect::Nothing;
    }
    let mut popup = ActivePopup::NoPopup;
    std::mem::swap(&mut popup, &mut s.popup);
    match popup {
        ActivePopup::NoPopup => {
            if s.input_mode == InputMode::Search {
                let result = s.search_input.insert(&mut s.search_query, text, false);
                clear_detail(s);
                s.selected = Some(0);
                match result {
                    Ok(()) => Effect::Searched(None),
                    Err(e) => Effect::Searched(Some(e)),
                }
            } else {
                Effect::Nothing
            }
        },
        ActivePopup::AddEntry { mut name, mut password, active_field } => {
            let result = match active_field {
                AddField::Name => s.editor.inputs[0].insert(&mut name, text, false),
                AddField::Password => s.editor.inputs[1].insert(&mut password, text, false),
                AddField::Username => s.editor.inputs[2].insert(&mut s.editor.username, text, false),
                AddField::Url => s.editor.inputs[3].insert(&mut s.editor.url, text, false),
                AddField::Notes => s.editor.inputs[4].insert(&mut s.editor.notes, text, true),
                AddField::RecoveryCodes => s.editor.inputs[5].insert(&mut s.editor.recovery_codes, text, true),
            };
            s.popup = ActivePopup::AddEntry { name, password, active_field };
            paste_outcome(s, result)
        },
        ActivePopup::Rename { source, mut destination } => {
            let result = s.rename_input.insert(&mut destination, text, false);
            s.popup = ActivePopup::Rename { source, destination };
            paste_outcome(s, result)
        },
        ActivePopup::SetRemote { mut url } => {
            let result = new_input().insert(&mut url, text, false);
            s.popup = ActivePopup::SetRemote { url };
            paste_outcome(s, result)
        },
        ActivePopup::GithubRepo { mut name } => {
            let result = new_input().insert(&mut name, text, false);
            s.popup = ActivePopup::GithubRepo { name };
            paste_outcome(s, result)
        },
        ActivePopup::InitStore { mode: InitMode::SelectKey { keys, selected_index, mut custom_id, is_custom } } => {
            if is_custom {
                let result = new_input().insert(&mut custom_id, text, false);
                s.popup = ActivePopup::InitStore { mode: InitMode::SelectKey { keys, selected_index, custom_id, is_custom } };
                paste_outcome(s, result)
            } else {
                s.popup = ActivePopup::InitStore { mode: InitMode::SelectKey { keys, selected_index, custom_id, is_custom } };
                Effect::Nothing
            }
        },
        ActivePopup::InitStore { mode: InitMode::CreateKey { mut name, mut email, active_field } } => {
            let result = match active_field {
                InitField::Name => new_input().insert(&mut name, text, false),
                InitField::Email => new_input().insert(&mut email, text, false),
            };
            s.popup = ActivePopup::InitStore { mode: InitMode::CreateKey { name, email, active_field } };
            paste_outcome(s, result)
        },
        other => {
            s.popup = other;
            Effect::Nothing
        },
    }
}

pub open spec fn totp_hint() -> Seq<char> {
    "Select a password entry first. If a folder is highlighted, press Enter to expand it, then select an entry and press t."@
}

pub open spec fn recovery_hint() -> Seq<char> {
    "Select a password entry first, then press R for recovery codes."@
}

pub open spec fn history_hint() -> Seq<char> {
    "Select an entry, or press H for store history"@
}

/// The selected row when it is an entry and not a folder.
pub open spec fn selected_file(row: Option<(String, bool)>) -> Option<String> {
    match row {
        Some((p, d)) => if d {
            None
        } else {
            Some(p)
        },
        None => None,
    }
}

/// The screen after an action of the main screen that concerns the selected row:
/// `row` is that row's path and whether it is a folder, `initialized` whether the store
/// exists.
pub open spec fn main_step(
    o: Screen,
    f: Screen,
    r: Effect,
    action: Action,
    row: Option<(String, bool)>,
    initialized: bool,
) -> bool {
    let closed = Screen { detail: None, detail_scroll: 0, show_password: false, ..o };
    match action {
        Action::Open => f == o && match row {
            Some((p, d)) => r == if d {
                Effect::Fold(p)
            } else {
                Effect::Show(p)
            },
            None => r is Nothing,
        },
        Action::Fold => f == o && match row {
            Some((p, d)) => if d {
                r == Effect::Fold(p)
            } else {
                r is Nothing
            },
            None => r is Nothing,
        },
        Action::CopyPassword => f == o && match selected_file(row) {
            Some(p) => r == Effect::CopyPassword(p),
            None => r is Nothing,
        },
        Action::Favorite => f == o && match selected_file(row) {
            Some(p) => r == Effect::ToggleFavorite(p),
            None => r is Nothing,
        },
        Action::Edit => f == o && match selected_file(row) {
            Some(p) => r == Effect::Edit(p),
            None => r is Nothing,
        },
        Action::Totp => match selected_file(row) {
            Some(p) => f == closed && r == Effect::RefreshCode(p),
            None => (f == Screen { popup: f.popup, ..o }) && shows_error(f.popup, totp_hint()) && r is Nothing,
        },
        Action::RecoveryCodes => match selected_file(row) {
            Some(p) => f == closed && r == Effect::OpenRecovery(p),
            None => (f == Screen { popup: f.popup, ..o }) && shows_error(f.popup, recovery_hint()) && r is Nothing,
        },
        Action::EntryHistory => match selected_file(row) {
            Some(p) => f == closed && r == Effect::ListHistory(Some(p)),
            None => f == o && (r matches Effect::Note(m) && m@ == history_hint()),
        },
        Action::StoreHistory => f == closed && r == Effect::ListHistory(None),
        Action::CopyUsername | Action::CopyUrl => {
            let name = if action == Action::CopyUsername {
                "username"@
            } else {
                "url"@
            };
            f == o && match o.detail {
                None => r matches Effect::Note(m) && m@ == "Open an entry with Enter first"@,
                Some(e) => match crate::app_state::field_position(crate::pass::commands::pair_views(e.fields@), name) {
                    Some(i) => r matches Effect::CopyField(v, w) && v@
                        == crate::pass::commands::pair_views(e.fields@)[i as int].1 && w@ == name,
                    None => r matches Effect::Note(m) && m@ == if action == Action::CopyUsername {
                        "No username on this entry"@
                    } else {
                        "No url on this entry"@
                    },
                },
            }
        },
        Action::Delete => match selected_file(row) {
            Some(p) => (f == Screen { popup: f.popup, ..o }) && (f.popup matches ActivePopup::Confirm {
                message,
                entry_path,
            } && entry_path == p && message@ == "Delete '"@ + p@ + "'?"@) && r is Nothing,
            None => f == o && r is Nothing,
        },
        Action::Rename => match selected_file(row) {
            Some(p) => (f == Screen { popup: f.popup, rename_input: f.rename_input, form_error: None, ..o })
                && is_fresh(f.rename_input@) && f.popup == ActivePopup::Rename { source: p, destination: p }
                && r is Nothing,
            None => f == o && r is Nothing,
        },
        Action::Add => {
            &&& f == (Screen { editor: f.editor, form_error: None, popup: f.popup, ..o })
            &&& blank_editor(f.editor)
            &&& if initialized {
                &&& f.popup matches ActivePopup::AddEntry { name, password, active_field } && name@.len() == 0
                    && password@.len() == 0 && active_field == AddField::Name
                &&& r is Nothing
            } else {
                f.popup == o.popup && r is StartInit
            }
        },
        Action::InitStore => f == o && r is StartInit,
        Action::GitSync => f == (Screen { popup: ActivePopup::GitSync, ..o }) && r is OpenGit,
        Action::Push => f == o && r is Push,
        Action::Pull => f == o && r is Pull,
        _ => f == o && r is Nothing,
    }
}

/// The effect of copying a field of the open entry, or why there is nothing to copy.
fn copy_field(s: &Screen, username: bool) -> (r: Effect)
    ensures
        ({
            let name = if username {
                "username"@
            } else {
                "url"@
            };
            match s.detail {
                None => r matches Effect::Note(m) && m@ == "Open an entry with Enter first"@,
                Some(e) => match crate::app_state::field_position(crate::pass::commands::pair_views(e.fields@), name) {
                    Some(i) => r matches Effect::CopyField(v, w) && v@
                        == crate::pass::commands::pair_views(e.fields@)[i as int].1 && w@ == name,
                    None => r matches Effect::Note(m) && m@ == if username {
                        "No username on this entry"@
                    } else {
                        "No url on this entry"@
                    },
                },
            }
        }),
{
    let name = if username {
        "username"
    } else {
        "url"
    };
    match &s.detail {
        None => Effect::Note("Open an entry with Enter first".to_owned()),
        Some(e) => match crate::app_state::field_value(e, name) {
            Some(v) => Effect::CopyField(v, name.to_owned()),
            None => Effect::Note(
                if username {
                    "No username on this entry"
                } else {
                    "No url on this entry"
                }.to_owned(),
            ),
        },
    }
}

/// Handles an action of the main screen that concerns the selected row; see
/// `main_step`.
pub fn step_main(s: &mut Screen, action: Action, row: Option<(String, bool)>, initialized: bool) -> (r: Effect)
    ensures
        main_step(*old(s), *final(s), r, action, row, initialized),
{
    let file = match &row {
        Some((p, d)) => if *d {
            None
        } else {
            Some(p.clone())
        },
        None => None,
    };
    match action {
        Action::Open => match row {
            Some((p, d)) => if d {
                Effect::Fold(p)
            } else {
                Effect::Show(p)
            },
            None => Effect::Nothing,
        },
        Action::Fold => match row {
            Some((p, d)) => if d {
                Effect::Fold(p)
            } else {
                Effect::Nothing
            },
            None => Effect::Nothing,
        },
        Action::CopyPassword => match file {
            Some(p) => Effect::CopyPassword(p),
            None => Effect::Nothing,
        },
        Action::Favorite => match file {
            Some(p) => Effect::ToggleFavorite(p),
            None => Effect::Nothing,
        },
        Action::Edit => match file {
            Some(p) => Effect::Edit(p),
            None => Effect::Nothing,
        },
        Action::Totp => match file {
            Some(p) => {
                clear_detail(s);
                Effect::RefreshCode(p)
            },
            None => {
                s.popup = error_notice(
                    "Select a password entry first. If a folder is highlighted, press Enter to expand it, then select an entry and press t.",
                );
                Effect::Nothing
            },
        },
        Action::RecoveryCodes => match file {
            Some(p) => {
                clear_detail(s);
                Effect::OpenRecovery(p)
            },
            None => {
                s.popup = error_notice("Select a password entry first, then press R for recovery codes.");
                Effect::Nothing
            },
        },
        Action::EntryHistory => match file {
            Some(p) => {
                clear_detail(s);
                Effect::ListHistory(Some(p))
            },
            None => Effect::Note("Select an entry, or press H for store history".to_owned()),
        },
        Action::StoreHistory => {
            clear_detail(s);
            Effect::ListHistory(None)
        },
        Action::CopyUsername => copy_field(s, true),
        Action::CopyUrl => copy_field(s, false),
        Action::Delete => match file {
            Some(p) => {
                let mut m = to_chars("Delete '");
                crate::text::append(&mut m, &to_chars(p.as_str()));
                crate::text::append(&mut m, &to_chars("'?"));
                s.popup = ActivePopup::Confirm { message: string_of(&m), entry_path: p };
                Effect::Nothing
            },
            None => Effect::Nothing,
        },
        Action::Rename => match file {
            Some(p) => {
                drop_error(s);
                s.rename_input.reset();
                s.popup = ActivePopup::Rename { source: p.clone(), destination: p };
                Effect::Nothing
            },
            None => Effect::Nothing,
        },
        Action::Add => {
            drop_error(s);
            s.editor.discard();
            if initialized {
                s.popup = ActivePopup::AddEntry {
                    name: String::new(),
                    password: String::new(),
                    active_field: AddField::Name,
                };
                Effect::Nothing
            } else {
                Effect::StartInit
            }
        },
        Action::InitStore => Effect::StartInit,
        Action::GitSync => {
            s.popup = ActivePopup::GitSync;
            Effect::OpenGit
        },
        Action::Push => Effect::Push,
        Action::Pull => Effect::Pull,
        _ => Effect::Nothing,
    }
}

/// A field that nothing was typed into yet.
fn new_input() -> (r: TextInput)
    ensures
        r@ == fresh_input(),
{
    let r = TextInput::new();
    assert(r@.undo =~= seq![]);
    assert(r@.redo =~= seq![]);
    r
}

/// Whether a session idle for `secs` whole seconds is past the idle limit `limit`
/// (0: no limit).
pub open spec fn idle_due(limit: u64, secs: u64) -> bool {
    limit > 0 && secs >= limit
}

/// The screen after `key` when the session has been idle for `secs` seconds and the
/// idle limit is `limit`: past the limit an open screen is locked first, and the key is
/// then taken as the lock screen takes it, so that only Enter (with no work running)
/// and q do more than lock.
pub open spec fn idle_key_step(
    o: Screen,
    f: Screen,
    r: Effect,
    key: KeyEvent,
    copy_key: char,
    busy: bool,
    limit: u64,
    secs: u64,
    now: u64,
) -> bool {
    if !o.locked && idle_due(limit, secs) {
        if !busy && key.code == KeyCode::Enter {
            &&& !f.locked && f.lock_outcome is None
            &&& locked_from(o, Screen { locked: true, lock_outcome: o.lock_outcome, ..f })
            &&& r == Effect::Resume(o.lock_outcome)
        } else {
            &&& locked_from(o, f)
            &&& if !busy && key.code == KeyCode::Char('q') {
                r is Quit
            } else {
                r is Lock
            }
        }
    } else {
        screen_step(o, f, r, key, copy_key, busy, now)
    }
}

/// Handles a key on the screen; see `idle_key_step`. `busy` is whether outside work is
/// still running, `limit` and `secs` the idle limit and how long the session has been
/// idle, in seconds, and `now` the caller's clock in milliseconds.
pub fn step_key(
    s: &mut Screen,
    key: KeyEvent,
    copy_key: char,
    busy: bool,
    limit: u64,
    secs: u64,
    now: u64,
) -> (r: Effect)
    ensures
        idle_key_step(*old(s), *final(s), r, key, copy_key, busy, limit, secs, now),
{
    if !s.locked && limit > 0 && secs >= limit {
        lock(s);
        let r = key_now(s, key, copy_key, busy, now);
        match r {
            Effect::Nothing => Effect::Lock,
            other => other,
        }
    } else {
        key_now(s, key, copy_key, busy, now)
    }
}

/// The screen after pasting `v` when the session has been idle for `secs` seconds and
/// the idle limit is `limit`: past the limit an open screen is locked and the paste
/// dropped.
pub open spec fn idle_paste_step(
    o: Screen,
    f: Screen,
    r: Effect,
    v: Seq<char>,
    busy: bool,
    limit: u64,
    secs: u64,
) -> bool {
    if !o.locked && idle_due(limit, secs) {
        locked_from(o, f) && r is Lock
    } else {
        paste_step(o, f, r, v, busy)
    }
}

/// Handles pasted text; see `idle_paste_step`.
pub fn step_paste(s: &mut Screen, text: &str, busy: bool, limit: u64, secs: u64) -> (r: Effect)
    ensures
        idle_paste_step(*old(s), *final(s), r, text@, busy, limit, secs),
{
    if !s.locked && limit > 0 && secs >= limit {
        lock(s);
        Effect::Lock
    } else {
        paste_now(s, text, busy)
    }
}

/// The last outside step of work that finished while the screen was locked failed
/// after all: the lock screen says the work failed. An open screen is left as it is.
pub fn mark_failed(s: &mut Screen)
    ensures
        !old(s).locked ==> *final(s) == *old(s),
        old(s).locked ==> (*final(s) == Screen { lock_outcome: final(s).lock_outcome, ..*old(s) })
            && (final(s).lock_outcome matches Some(m) && m@ == failed_while_locked()),
{
    if s.locked {
        s.lock_outcome = Some(
            "Background action failed or was cancelled. Resume and check the store before retrying.".to_owned(),
        );
    }
}

/// Whether outside work failed.
pub open spec fn failed(outcome: Outcome) -> bool {
    match outcome {
        Outcome::Viewed(r) => r is Err,
        Outcome::Saved(_, r) => r is Err,
        Outcome::Deleted(r) => r is Err,
        Outcome::Moved(_, _, r) => r is Err,
        Outcome::Git(r) => r is Err,
        Outcome::Initialized(r) => r is Err,
        Outcome::RecoverySaved(r) => r is Err,
        Outcome::Previewed(r) => r is Err,
        Outcome::Restored(_, r) => r is Err,
        Outcome::Copied(r) => r is Err,
        Outcome::Edited(_, r) => r is Err,
    }
}

/// The screen after the outcome of outside work. While the screen is locked the
/// result is dropped: nothing decrypted is kept, and the lock screen keeps only
/// whether the work failed.
pub open spec fn result_step(o: Screen, f: Screen, r: Effect, outcome: Outcome) -> bool {
    if o.locked {
        &&& f == (Screen {
            detail: None,
            detail_scroll: 0,
            show_password: false,
            popup: ActivePopup::NoPopup,
            lock_outcome: f.lock_outcome,
            ..o
        })
        &&& f.lock_outcome matches Some(m) && m@ == if failed(outcome) {
            failed_while_locked()
        } else {
            finished_while_locked()
        }
        &&& match outcome {
            Outcome::Moved(a, b, Ok(_)) => r == Effect::Moved(a, b),
            _ => r is Nothing,
        }
    } else {
        match outcome {
            Outcome::Viewed(Ok(e)) => f == (Screen { detail: Some(e), show_password: o.reveal_by_default, ..o })
                && r == Effect::Reveal(o.reveal_by_default),
            Outcome::Saved(path, Ok(_)) => f == (Screen {
                popup: ActivePopup::NoPopup,
                editor: f.editor,
                generator_draft: None,
                form_error: None,
                ..o
            }) && blank_editor(f.editor) && r == Effect::Focus(path),
            Outcome::Saved(_, Err(e)) | Outcome::Moved(_, _, Err(e)) => f == (Screen {
                form_error: Some(e),
                ..o
            }) && r is Nothing,
            Outcome::Deleted(Ok(_)) => f == (Screen { detail: None, detail_scroll: 0, show_password: false, ..o })
                && (r matches Effect::Done(m) && m@ == "Entry deleted"@),
            Outcome::Moved(a, b, Ok(_)) => f == (Screen {
                popup: ActivePopup::NoPopup,
                rename_input: f.rename_input,
                detail: None,
                detail_scroll: 0,
                show_password: false,
                ..o
            }) && is_fresh(f.rename_input@) && r == Effect::Moved(a, b),
            Outcome::Git(Ok(m)) => f == o && r == Effect::Done(m),
            Outcome::Initialized(Ok(_)) => f == (Screen { popup: ActivePopup::NoPopup, ..o }) && (
            r matches Effect::Done(m) && m@ == "Store initialized. Press a to add your first entry."@),
            Outcome::RecoverySaved(Ok(entry)) => match o.popup {
                ActivePopup::Recovery(v) => (f == Screen { popup: f.popup, ..o }) && (f.popup
                    matches ActivePopup::Recovery(v2) && *v2 == (crate::recovery::View {
                    entry,
                    error: None,
                    ..*v
                })) && (r matches Effect::Note(m) && m@ == "Recovery-code status saved"@),
                _ => f == o && r is Nothing,
            },
            Outcome::RecoverySaved(Err(e)) => match o.popup {
                ActivePopup::Recovery(v) => (f == Screen { popup: f.popup, ..o }) && (f.popup
                    matches ActivePopup::Recovery(v2) && *v2 == (crate::recovery::View { error: Some(e), ..*v }))
                    && r is Nothing,
                _ => f == o && r is Nothing,
            },
            Outcome::Previewed(Ok(p)) => match o.popup {
                ActivePopup::History(v) => (f == Screen { popup: f.popup, ..o }) && (f.popup
                    matches ActivePopup::History(v2) && *v2 == (crate::history::HistoryView {
                    preview: Some(p),
                    error: None,
                    ..*v
                })) && r is Nothing,
                _ => f == o && r is Nothing,
            },
            Outcome::Previewed(Err(e)) | Outcome::Restored(_, Err(e)) => match o.popup {
                ActivePopup::History(v) => (f == Screen { popup: f.popup, ..o }) && (f.popup
                    matches ActivePopup::History(v2) && *v2 == (crate::history::HistoryView {
                    error: Some(e),
                    ..*v
                })) && r is Nothing,
                _ => f == o && r is Nothing,
            },
            Outcome::Restored(path, Ok(_)) => f == (Screen {
                popup: ActivePopup::NoPopup,
                favorites_only: false,
                ..o
            }) && r == Effect::Focus(path),
            Outcome::Copied(Ok(_)) => f == o && (r matches Effect::Note(m) && m@ == "Copied to clipboard"@),
            Outcome::Edited(path, Ok(entry)) => (f == Screen { popup: f.popup, editor: f.editor, form_error: None, ..o })
                && (f.popup matches ActivePopup::AddEntry { name, password, active_field } && name == path
                && password@ == entry.password@ && active_field == AddField::Password)
                && f.editor.editing_path == Some(path)
                && (f.editor.original_content matches Some(c) && c@ == entry.content@)
                && r is Nothing,
            Outcome::Viewed(Err(e)) | Outcome::Deleted(Err(e)) | Outcome::Git(Err(e))
            | Outcome::Initialized(Err(e)) | Outcome::Copied(Err(e)) | Outcome::Edited(_, Err(e)) => (f == Screen {
                popup: f.popup,
                ..o
            }) && (f.popup matches ActivePopup::Notification { message, is_error } && message == e && is_error)
                && r is Nothing,
        }
    }
}

/// Drops an entry that came too late to be shown, wiping it; whether it had failed.
fn dropped_entry(r: Result<DecryptedEntry, String>) -> (failed: bool)
    ensures
        failed == r is Err,
{
    match r {
        Ok(mut e) => {
            e.wipe();
            false
        },
        Err(_) => true,
    }
}

/// Takes in the outcome of outside work; see `result_step`.
pub fn step_result(s: &mut Screen, outcome: Outcome) -> (r: Effect)
    ensures
        result_step(*old(s), *final(s), r, outcome),
{
    if s.locked {
        let (failed, moved) = match outcome {
            Outcome::Viewed(r) => (dropped_entry(r), None),
            Outcome::Saved(_, r) => (r.is_err(), None),
            Outcome::Deleted(r) => (r.is_err(), None),
            Outcome::Moved(a, b, r) => match r {
                Ok(_) => (false, Some((a, b))),
                Err(_) => (true, None),
            },
            Outcome::Git(r) => (r.is_err(), None),
            Outcome::Initialized(r) => (r.is_err(), None),
            Outcome::RecoverySaved(r) => (dropped_entry(r), None),
            Outcome::Previewed(r) => (r.is_err(), None),
            Outcome::Restored(_, r) => (r.is_err(), None),
            Outcome::Copied(r) => (r.is_err(), None),
            Outcome::Edited(_, r) => (dropped_entry(r), None),
        };
        clear_detail(s);
        s.popup = ActivePopup::NoPopup;
        s.lock_outcome = Some(
            if failed {
                "Background action failed or was cancelled. Resume and check the store before retrying.".to_owned()
            } else {
                "Background action finished. Resume to refresh the store.".to_owned()
            },
        );
        return match moved {
            Some((a, b)) => Effect::Moved(a, b),
            None => Effect::Nothing,
        };
    }
    match outcome {
        Outcome::Viewed(Ok(e)) => {
            s.detail = Some(e);
            s.show_password = s.reveal_by_default;
            Effect::Reveal(s.reveal_by_default)
        },
        Outcome::Saved(path, Ok(_)) => {
            s.popup = ActivePopup::NoPopup;
            s.editor.discard();
            drop_draft(s);
            drop_error(s);
            Effect::Focus(path)
        },
        Outcome::Saved(_, Err(e)) | Outcome::Moved(_, _, Err(e)) => {
            s.form_error = Some(e);
            Effect::Nothing
        },
        Outcome::Deleted(Ok(_)) => {
            clear_detail(s);
            Effect::Done("Entry deleted".to_owned())
        },
        Outcome::Moved(a, b, Ok(_)) => {
            s.popup = ActivePopup::NoPopup;
            s.rename_input.reset();
            clear_detail(s);
            Effect::Moved(a, b)
        },
        Outcome::Git(Ok(m)) => Effect::Done(m),
        Outcome::Initialized(Ok(_)) => {
            s.popup = ActivePopup::NoPopup;
            Effect::Done("Store initialized. Press a to add your first entry.".to_owned())
        },
        Outcome::RecoverySaved(result) => {
            let mut popup = ActivePopup::NoPopup;
            std::mem::swap(&mut popup, &mut s.popup);
            match popup {
                ActivePopup::Recovery(mut view) => {
                    let r = match result {
                        Ok(entry) => {
                            view.entry = entry;
                            view.error = None;
                            Effect::Note("Recovery-code status saved".to_owned())
                        },
                        Err(e) => {
                            view.error = Some(e);
                            Effect::Nothing
                        },
                    };
                    s.popup = ActivePopup::Recovery(view);
                    r
                },
                other => {
                    s.popup = other;
                    Effect::Nothing
                },
            }
        },
        Outcome::Previewed(result) => {
            let mut popup = ActivePopup::NoPopup;
            std::mem::swap(&mut popup, &mut s.popup);
            match popup {
                ActivePopup::History(mut view) => {
                    match result {
                        Ok(p) => {
                            view.preview = Some(p);
                            view.error = None;
                        },
                        Err(e) => view.error = Some(e),
                    }
                    s.popup = ActivePopup::History(view);
                },
                other => s.popup = other,
            }
            Effect::Nothing
        },
        Outcome::Restored(path, Ok(_)) => {
            s.popup = ActivePopup::NoPopup;
            s.favorites_only = false;
            Effect::Focus(path)
        },
        Outcome::Restored(_, Err(e)) => {
            let mut popup = ActivePopup::NoPopup;
            std::mem::swap(&mut popup, &mut s.popup);
            match popup {
                ActivePopup::History(mut view) => {
                    view.error = Some(e);
                    s.popup = ActivePopup::History(view);
                },
                other => s.popup = other,
            }
            Effect::Nothing
        },
        Outcome::Copied(Ok(_)) => Effect::Note("Copied to clipboard".to_owned()),
        Outcome::Edited(path, Ok(entry)) => {
            s.form_error = None;
            s.editor = EntryEditor::from_entry(path.clone(), &entry);
            s.popup = ActivePopup::AddEntry { name: path, password: entry.password.clone(), active_field: AddField::Password };
            Effect::Nothing
        },
        Outcome::Viewed(Err(e)) | Outcome::Deleted(Err(e)) | Outcome::Git(Err(e))
        | Outcome::Initialized(Err(e)) | Outcome::Copied(Err(e)) | Outcome::Edited(_, Err(e)) => {
            s.popup = ActivePopup::Notification { message: e, is_error: true };
            Effect::Nothing
        },
    }
}

/// The screen after an entry decrypted for viewing arrives: `selected` is the path of
/// the row selected now. Where the selection moved on meanwhile the entry is dropped.
pub open spec fn viewed_step(
    o: Screen,
    f: Screen,
    r: Effect,
    path: Seq<char>,
    selected: Option<String>,
    result: Result<DecryptedEntry, String>,
) -> bool {
    if o.locked || (selected matches Some(p) && p@ == path) {
        result_step(o, f, r, Outcome::Viewed(result))
    } else {
        f == o && r is Nothing
    }
}

/// Takes in an entry decrypted for viewing; see `viewed_step`.
pub fn step_viewed(
    s: &mut Screen,
    path: &str,
    selected: Option<String>,
    result: Result<DecryptedEntry, String>,
) -> (r: Effect)
    ensures
        viewed_step(*old(s), *final(s), r, path@, selected, result),
{
    let current = match &selected {
        Some(p) => crate::text::eq(&to_chars(p.as_str()), &to_chars(path)),
        None => false,
    };
    if s.locked || current {
        step_result(s, Outcome::Viewed(result))
    } else {
        dropped_entry(result);
        Effect::Nothing
    }
}

/// Ctrl+L locks the screen from anywhere, inside forms and popups and while work runs:
/// the entry, every draft, the search and the popup are dropped, and the clipboard
/// session is to be revoked.
pub proof fn lemma_ctrl_l_locks(
    o: Screen,
    f: Screen,
    r: Effect,
    key: KeyEvent,
    copy_key: char,
    busy: bool,
    now: u64,
)
    requires
        screen_step(o, f, r, key, copy_key, busy, now),
        !o.locked,
        key.ctrl,
        key.code == KeyCode::Char('l'),
    ensures
        f.locked,
        r is Lock,
        f.popup is NoPopup,
        detail_closed(f),
        blank_editor(f.editor),
        f.generator_draft is None,
        f.search_query@.len() == 0,
        f.form_error is None,
{
}

/// While the screen is locked a key changes nothing, with two exceptions when no work
/// runs: Enter unlocks it and asks for a new session, and q quits.
pub proof fn lemma_locked_keys(
    o: Screen,
    f: Screen,
    r: Effect,
    key: KeyEvent,
    copy_key: char,
    busy: bool,
    now: u64,
)
    requires
        screen_step(o, f, r, key, copy_key, busy, now),
        o.locked,
    ensures
        f.locked ==> f == o,
        !f.locked ==> !busy && key.code == KeyCode::Enter && f == (Screen {
            locked: false,
            lock_outcome: None,
            ..o
        }) && r == Effect::Resume(o.lock_outcome),
        r is Quit <==> !busy && key.code == KeyCode::Char('q'),
        r is Nothing || r is Quit || r is Resume,
{
}

/// While the screen is locked a paste changes nothing.
pub proof fn lemma_locked_paste(o: Screen, f: Screen, r: Effect, v: Seq<char>, busy: bool)
    requires
        paste_step(o, f, r, v, busy),
        o.locked,
    ensures
        f == o,
        r is Nothing,
{
}

/// Work that finishes after Ctrl+L shows nothing: whatever it decrypted is dropped, the
/// screen stays locked with no entry, no popup and no draft, and keeps only what became
/// of the work.
pub proof fn lemma_lock_then_result(
    o: Screen,
    m: Screen,
    f: Screen,
    r1: Effect,
    r2: Effect,
    key: KeyEvent,
    copy_key: char,
    busy: bool,
    now: u64,
    outcome: Outcome,
)
    requires
        screen_step(o, m, r1, key, copy_key, busy, now),
        !o.locked,
        key.ctrl,
        key.code == KeyCode::Char('l'),
        result_step(m, f, r2, outcome),
    ensures
        f.locked,
        f.popup is NoPopup,
        detail_closed(f),
        blank_editor(f.editor),
        f.generator_draft is None,
        f.lock_outcome is Some,
        r2 is Nothing || r2 is Moved,
{
}

/// Input that arrives after the idle limit never reaches an open screen: the screen is
/// locked first, dropping the entry, every draft, the search and the popup, and a paste
/// is dropped; only Enter, with no work running, resumes at once.
pub proof fn lemma_idle_input_locks(
    o: Screen,
    f: Screen,
    r: Effect,
    f2: Screen,
    r2: Effect,
    key: KeyEvent,
    copy_key: char,
    v: Seq<char>,
    busy: bool,
    limit: u64,
    secs: u64,
    now: u64,
)
    requires
        !o.locked,
        idle_due(limit, secs),
        idle_key_step(o, f, r, key, copy_key, busy, limit, secs, now),
        idle_paste_step(o, f2, r2, v, busy, limit, secs),
    ensures
        f2.locked && r2 is Lock && f2.popup is NoPopup && detail_closed(f2) && blank_editor(f2.editor)
            && f2.generator_draft is None && f2.search_query@.len() == 0,
        f.popup is NoPopup && detail_closed(f) && blank_editor(f.editor) && f.generator_draft is None,
        !f.locked ==> !busy && key.code == KeyCode::Enter,
{
}

} // verus!
