//! The states of the main screen and its popups, and the decisions that keys make on
//! them apart from the work they start.
use crate::favorites::Favorites;
use crate::keys::{KeyCode, KeyEvent};
use crate::order::{sort_by_rank, stable_ranking};
use crate::pass::commands::{pair_views, DecryptedEntry, GpgKey};
use crate::pass::generator::GeneratorMode;
use crate::pass::store::FlatEntry;
use crate::search::{is_subsequence, rank, rank_of};
use crate::text::{eq_ignore_ascii_case, eq_ignore_ascii_case_exec, lowercase, to_chars, to_lowercase};
use vstd::prelude::*;

verus! {

/// Whether keys move through the list or edit the search query.
#[derive(Clone, Copy, Debug, PartialEq, Eq, Structural)]
pub enum InputMode {
    Normal,
    Search,
}

/// The fields of the form that adds or edits an entry, in the order Tab visits them.
#[derive(Clone, Copy, Debug, PartialEq, Eq, Structural)]
pub enum AddField {
    Name,
    Password,
    Username,
    Url,
    Notes,
    RecoveryCodes,
}

/// The fields of the form that creates a GPG key.
#[derive(Clone, Copy, Debug, PartialEq, Eq, Structural)]
pub enum InitField {
    Name,
    Email,
}

/// How a new store gets its GPG key: one of the secret keys, or a new one.
#[derive(Clone, Debug)]
pub enum InitMode {
    SelectKey { keys: Vec<GpgKey>, selected_index: usize, custom_id: String, is_custom: bool },
    CreateKey { name: String, email: String, active_field: InitField },
}

/// The popup over the main screen, if any.
pub enum ActivePopup {
    NoPopup,
    Help,
    Recovery(Box<crate::recovery::View>),
    OtpInstall { path: String, plan: crate::otp_setup::Plan, error: Option<String> },
    History(Box<crate::history::HistoryView>),
    Totp { path: String, code: Option<crate::totp::Code>, error: Option<String> },
    Rename { source: String, destination: String },
    Confirm { message: String, entry_path: String },
    AddEntry { name: String, password: String, active_field: AddField },
    Generator {
        name: String,
        password: String,
        length: usize,
        uppercase: bool,
        numbers: bool,
        symbols: bool,
        mode: GeneratorMode,
    },
    InitStore { mode: InitMode },
    GitSync,
    SetRemote { url: String },
    GithubRepo { name: String },
    Notification { message: String, is_error: bool },
}

/// Work in progress: what the spinner says, and the frame it shows.
pub struct LoadingState {
    pub message: String,
    pub frame: usize,
}

/// The position of a form field in the order Tab visits them.
pub open spec fn field_index(f: AddField) -> int {
    match f {
        AddField::Name => 0,
        AddField::Password => 1,
        AddField::Username => 2,
        AddField::Url => 3,
        AddField::Notes => 4,
        AddField::RecoveryCodes => 5,
    }
}

pub open spec fn field_at(i: int) -> AddField {
    if i == 0 {
        AddField::Name
    } else if i == 1 {
        AddField::Password
    } else if i == 2 {
        AddField::Username
    } else if i == 3 {
        AddField::Url
    } else if i == 4 {
        AddField::Notes
    } else {
        AddField::RecoveryCodes
    }
}

impl AddField {
    /// The input field of the form that edits this field.
    pub fn index(self) -> (r: usize)
        ensures
            r == field_index(self),
    {
        match self {
            AddField::Name => 0,
            AddField::Password => 1,
            AddField::Username => 2,
            AddField::Url => 3,
            AddField::Notes => 4,
            AddField::RecoveryCodes => 5,
        }
    }

    /// The field that Tab (or, `back`, Shift+Tab) moves to, wrapping around.
    pub fn next(self, back: bool) -> (r: AddField)
        ensures
            r == field_at(
                if back {
                    (field_index(self) + 5) % 6
                } else {
                    (field_index(self) + 1) % 6
                },
            ),
    {
        let i = self.index();
        let n = if back {
            (i + 5) % 6
        } else {
            (i + 1) % 6
        };
        if n == 0 {
            AddField::Name
        } else if n == 1 {
            AddField::Password
        } else if n == 2 {
            AddField::Username
        } else if n == 3 {
            AddField::Url
        } else if n == 4 {
            AddField::Notes
        } else {
            AddField::RecoveryCodes
        }
    }
}

/// Tab then Shift+Tab, or the other way round, comes back to the same field.
pub proof fn lemma_tab_round_trip(f: AddField)
    ensures
        field_at((field_index(field_at((field_index(f) + 1) % 6)) + 5) % 6) == f,
        field_at((field_index(field_at((field_index(f) + 5) % 6)) + 1) % 6) == f,
{
}

impl InitField {
    /// The other field of the form.
    pub fn other(self) -> (r: InitField)
        ensures
            r != self,
    {
        match self {
            InitField::Name => InitField::Email,
            InitField::Email => InitField::Name,
        }
    }
}

// ---------------------------------------------------------------------
// Keys of the main screen
// ---------------------------------------------------------------------
/// What a key asks of the main screen when no popup is open and no search is typed.
#[derive(Clone, Copy, Debug, PartialEq, Eq, Structural)]
pub enum Action {
    RecoveryCodes,
    Totp,
    Favorite,
    FavoritesOnly,
    EntryHistory,
    StoreHistory,
    Quit,
    Help,
    Down,
    Up,
    Generate,
    First,
    Last,
    Open,
    Fold,
    CopyPassword,
    Reveal,
    Delete,
    Add,
    Edit,
    Rename,
    CopyUsername,
    CopyUrl,
    ScrollDown,
    ScrollUp,
    InitStore,
    GitSync,
    Push,
    Pull,
    Search,
    Lock,
    /// Close the details and show all entries again.
    Reset,
    Nothing,
}

/// The action of a key on the main screen; `copy_key` is the configured copy shortcut.
pub open spec fn main_action(key: KeyEvent, copy_key: char) -> Action {
    if key.ctrl && key.code == KeyCode::Char('l') {
        Action::Lock
    } else {
        match key.code {
            KeyCode::Char('R') => Action::RecoveryCodes,
            KeyCode::Char('t') => Action::Totp,
            KeyCode::Char('f') => Action::Favorite,
            KeyCode::Char('F') => Action::FavoritesOnly,
            KeyCode::Char('v') => Action::EntryHistory,
            KeyCode::Char('H') => Action::StoreHistory,
            KeyCode::Char('q') | KeyCode::Char('Q') => Action::Quit,
            KeyCode::Char('?') => Action::Help,
            KeyCode::Char('j') | KeyCode::Down => Action::Down,
            KeyCode::Char('k') | KeyCode::Up => Action::Up,
            KeyCode::Char('g') => Action::Generate,
            KeyCode::Char('0') => Action::First,
            KeyCode::End => Action::Last,
            KeyCode::Enter | KeyCode::Char('l') => Action::Open,
            KeyCode::Char('h') | KeyCode::Backspace => Action::Fold,
            KeyCode::Char(c) => if c == copy_key {
                Action::CopyPassword
            } else if c == 'p' {
                Action::Reveal
            } else if c == 'd' {
                Action::Delete
            } else if c == 'a' {
                Action::Add
            } else if c == 'e' {
                Action::Edit
            } else if c == 'r' {
                Action::Rename
            } else if c == 'u' {
                Action::CopyUsername
            } else if c == 'w' {
                Action::CopyUrl
            } else if c == 'i' {
                Action::InitStore
            } else if c == 'G' {
                Action::GitSync
            } else if c == 'P' {
                Action::Push
            } else if c == 'U' {
                Action::Pull
            } else if c == '/' {
                Action::Search
            } else {
                Action::Nothing
            },
            KeyCode::PageDown => Action::ScrollDown,
            KeyCode::PageUp => Action::ScrollUp,
            KeyCode::Esc => Action::Reset,
            _ => Action::Nothing,
        }
    }
}

/// The action of a key on the main screen.
pub fn action_for(key: KeyEvent, copy_key: char) -> (r: Action)
    ensures
        r == main_action(key, copy_key),
{
    if key.ctrl && key.code == KeyCode::Char('l') {
        return Action::Lock;
    }
    match key.code {
        KeyCode::Char('R') => Action::RecoveryCodes,
        KeyCode::Char('t') => Action::Totp,
        KeyCode::Char('f') => Action::Favorite,
        KeyCode::Char('F') => Action::FavoritesOnly,
        KeyCode::Char('v') => Action::EntryHistory,
        KeyCode::Char('H') => Action::StoreHistory,
        KeyCode::Char('q') | KeyCode::Char('Q') => Action::Quit,
        KeyCode::Char('?') => Action::Help,
        KeyCode::Char('j') | KeyCode::Down => Action::Down,
        KeyCode::Char('k') | KeyCode::Up => Action::Up,
        KeyCode::Char('g') => Action::Generate,
        KeyCode::Char('0') => Action::First,
        KeyCode::End => Action::Last,
        KeyCode::Enter | KeyCode::Char('l') => Action::Open,
        KeyCode::Char('h') | KeyCode::Backspace => Action::Fold,
        KeyCode::Char(c) => {
            if c == copy_key {
                Action::CopyPassword
            } else if c == 'p' {
                Action::Reveal
            } else if c == 'd' {
                Action::Delete
            } else if c == 'a' {
                Action::Add
            } else if c == 'e' {
                Action::Edit
            } else if c == 'r' {
                Action::Rename
            } else if c == 'u' {
                Action::CopyUsername
            } else if c == 'w' {
                Action::CopyUrl
            } else if c == 'i' {
                Action::InitStore
            } else if c == 'G' {
                Action::GitSync
            } else if c == 'P' {
                Action::Push
            } else if c == 'U' {
                Action::Pull
            } else if c == '/' {
                Action::Search
            } else {
                Action::Nothing
            }
        },
        KeyCode::PageDown => Action::ScrollDown,
        KeyCode::PageUp => Action::ScrollUp,
        KeyCode::Esc => Action::Reset,
        _ => Action::Nothing,
    }
}

/// A copy shortcut that the configuration accepts never takes the key of another
/// action: it copies, and every other action keeps its key.
pub proof fn lemma_copy_key_reserved(key: KeyEvent, copy_key: char)
    requires
        !crate::config::copy_key_conflicts(copy_key),
    ensures
        !key.ctrl && key.code == KeyCode::Char(copy_key) ==> main_action(key, copy_key)
            == Action::CopyPassword,
{
    reveal_strlit("qQ?jkg0lhpdaeiGPU/ruwfFvHtR");
    let r = crate::config::reserved_keys();
    assert(r[0] == 'q' && r[1] == 'Q' && r[2] == '?' && r[3] == 'j' && r[4] == 'k' && r[5] == 'g');
    assert(r[6] == '0' && r[7] == 'l' && r[8] == 'h' && r[9] == 'p' && r[10] == 'd' && r[11] == 'a');
    assert(r[12] == 'e' && r[13] == 'i' && r[14] == 'G' && r[15] == 'P' && r[16] == 'U' && r[17] == '/');
    assert(r[18] == 'r' && r[19] == 'u' && r[20] == 'w' && r[21] == 'f' && r[22] == 'F' && r[23] == 'v');
    assert(r[24] == 'H' && r[25] == 't' && r[26] == 'R');
}

// ---------------------------------------------------------------------
// The generator popup
// ---------------------------------------------------------------------
/// The settings of the generator popup.
#[derive(Clone, Copy, Debug, PartialEq, Eq, Structural)]
pub struct GeneratorOptions {
    pub length: usize,
    pub uppercase: bool,
    pub numbers: bool,
    pub symbols: bool,
    pub mode: GeneratorMode,
}

/// The least length the generator goes down to: six words, or eight characters.
pub open spec fn min_length(mode: GeneratorMode) -> usize {
    if mode == GeneratorMode::Passphrase {
        6
    } else {
        8
    }
}

/// What a key does to the generator's settings, and whether it asks for a new password:
/// `m` switches mode (6 words, or 16 characters), `u`, `n`, `s` switch a class of
/// characters in password mode, `+` (or `=`) and `-` lengthen or shorten within 64 and
/// the least length, and `r` only asks for a new password.
pub open spec fn adjusted(o: GeneratorOptions, c: char) -> (GeneratorOptions, bool) {
    if c == 'm' {
        let mode = if o.mode == GeneratorMode::Password {
            GeneratorMode::Passphrase
        } else {
            GeneratorMode::Password
        };
        (
            GeneratorOptions {
                mode,
                length: if mode == GeneratorMode::Passphrase {
                    6
                } else {
                    16
                },
                ..o
            },
            true,
        )
    } else if c == 'u' && o.mode == GeneratorMode::Password {
        (GeneratorOptions { uppercase: !o.uppercase, ..o }, true)
    } else if c == 'n' && o.mode == GeneratorMode::Password {
        (GeneratorOptions { numbers: !o.numbers, ..o }, true)
    } else if c == 's' && o.mode == GeneratorMode::Password {
        (GeneratorOptions { symbols: !o.symbols, ..o }, true)
    } else if c == '+' || c == '=' {
        (GeneratorOptions { length: if o.length + 1 < 64 {
            (o.length + 1) as usize
        } else {
            64
        }, ..o }, true)
    } else if c == '-' {
        let shorter = if o.length > 0 {
            (o.length - 1) as usize
        } else {
            0
        };
        (GeneratorOptions { length: if shorter < min_length(o.mode) {
            min_length(o.mode)
        } else {
            shorter
        }, ..o }, true)
    } else if c == 'r' {
        (o, true)
    } else {
        (o, false)
    }
}

impl GeneratorOptions {
    /// The settings the generator opens with: 16 characters of every class.
    pub fn new() -> (r: Self)
        ensures
            r == (GeneratorOptions {
                length: 16,
                uppercase: true,
                numbers: true,
                symbols: true,
                mode: GeneratorMode::Password,
            }),
    {
        GeneratorOptions {
            length: 16,
            uppercase: true,
            numbers: true,
            symbols: true,
            mode: GeneratorMode::Password,
        }
    }

    /// Applies the key `c`; returns whether a new password is to be generated.
    pub fn adjust(&mut self, c: char) -> (r: bool)
        ensures
            (*final(self), r) == adjusted(*old(self), c),
    {
        if c == 'm' {
            self.mode = if self.mode == GeneratorMode::Password {
                GeneratorMode::Passphrase
            } else {
                GeneratorMode::Password
            };
            self.length = if self.mode == GeneratorMode::Passphrase {
                6
            } else {
                16
            };
            true
        } else if c == 'u' && self.mode == GeneratorMode::Password {
            self.uppercase = !self.uppercase;
            true
        } else if c == 'n' && self.mode == GeneratorMode::Password {
            self.numbers = !self.numbers;
            true
        } else if c == 's' && self.mode == GeneratorMode::Password {
            self.symbols = !self.symbols;
            true
        } else if c == '+' || c == '=' {
            self.length = if self.length < 63 {
                self.length + 1
            } else {
                64
            };
            true
        } else if c == '-' {
            let shorter = if self.length > 0 {
                self.length - 1
            } else {
                0
            };
            let least: usize = if self.mode == GeneratorMode::Passphrase {
                6
            } else {
                8
            };
            self.length = if shorter < least {
                least
            } else {
                shorter
            };
            true
        } else {
            c == 'r'
        }
    }
}

/// Lengthening and then shortening a password of a length between the least length and
/// 63 gives it its length back.
pub proof fn lemma_lengthen_shorten(o: GeneratorOptions)
    requires
        min_length(o.mode) <= o.length < 64,
    ensures
        adjusted(adjusted(o, '+').0, '-').0 == o,
{
}

// ---------------------------------------------------------------------
// Lists
// ---------------------------------------------------------------------
/// The item below `selected` in a list of `len` items, staying on the last one.
pub fn select_down(selected: usize, len: usize) -> (r: usize)
    ensures
        r == if selected + 1 < len {
            selected + 1
        } else {
            selected as int
        },
{
    if len > 0 && selected < len - 1 {
        selected + 1
    } else {
        selected
    }
}

/// The item above `selected`, staying on the first one.
pub fn select_up(selected: usize) -> (r: usize)
    ensures
        r == if selected > 0 {
            selected - 1
        } else {
            0
        },
{
    if selected > 0 {
        selected - 1
    } else {
        0
    }
}

/// The selection of a list after its items changed: none for an empty list, the first
/// item when none was selected, the last one when the selection fell off the end.
pub open spec fn fixed_selection(selected: Option<usize>, len: usize) -> Option<usize> {
    if len == 0 {
        None
    } else {
        match selected {
            Some(i) => if i >= len {
                Some((len - 1) as usize)
            } else {
                Some(i)
            },
            None => Some(0),
        }
    }
}

pub fn fix_selection(selected: Option<usize>, len: usize) -> (r: Option<usize>)
    ensures
        r == fixed_selection(selected, len),
        r matches Some(i) ==> i < len,
{
    if len == 0 {
        None
    } else {
        match selected {
            Some(i) => if i >= len {
                Some(len - 1)
            } else {
                Some(i)
            },
            None => Some(0),
        }
    }
}

/// The positions of the entries among the first `n` of `es` that a search shows: no
/// directories, a path that matches the (lower-cased) query `q`, and, with
/// `favorites_only`, only favorites.
pub open spec fn search_hits(
    es: Seq<FlatEntry>,
    q: Seq<char>,
    favorites: Set<Seq<char>>,
    favorites_only: bool,
    n: int,
) -> Seq<usize>
    decreases n,
{
    if n <= 0 {
        seq![]
    } else {
        let r = search_hits(es, q, favorites, favorites_only, n - 1);
        let e = es[n - 1];
        if !e.is_dir && is_subsequence(lowercase(q), lowercase(e.path@)) && (!favorites_only
            || favorites.contains(e.path@)) {
            r.push((n - 1) as usize)
        } else {
            r
        }
    }
}

pub open spec fn search_key(e: FlatEntry, q: Seq<char>) -> (u8, u8, usize) {
    let r = rank_of(e.path@, q);
    (0, r.0, r.1)
}

/// The entries a search shows (positions in `entries`, which list the whole store),
/// best ranked first; entries that tie keep their order.
pub fn search_results(
    entries: &Vec<FlatEntry>,
    query: &str,
    favorites: &Favorites,
    favorites_only: bool,
) -> (r: Vec<usize>)
    ensures
        stable_ranking(
            r@,
            search_hits(
                entries@,
                lowercase(query@),
                favorites@,
                favorites_only,
                entries@.len() as int,
            ),
            |i: usize| search_key(entries@[i as int], lowercase(query@)),
        ),
        forall|k: int| 0 <= k < r@.len() ==> #[trigger] r@[k] < entries@.len(),
{
    let q = to_lowercase(query);
    let ghost kf = |i: usize| search_key(entries@[i as int], lowercase(query@));
    let mut found: Vec<usize> = Vec::new();
    let mut keys: Vec<(u8, u8, usize)> = Vec::new();
    let mut i: usize = 0;
    while i < entries.len()
        invariant
            i <= entries.len(),
            q@ == lowercase(query@),
            kf == (|i: usize| search_key(entries@[i as int], lowercase(query@))),
            found@ == search_hits(entries@, q@, favorites@, favorites_only, i as int),
            keys.len() == found.len(),
            forall|m: int| 0 <= m < found.len() ==> #[trigger] keys@[m] == kf(found@[m]),
            forall|m: int| 0 <= m < found.len() ==> #[trigger] found@[m] < i,
        decreases entries.len() - i,
    {
        let e = &entries[i];
        let path = e.path.as_str();
        if !e.is_dir && crate::search::matches(path, q.as_str()) && (!favorites_only
            || favorites.contains(path)) {
            let (p, len) = rank(path, q.as_str());
            found.push(i);
            keys.push((0, p, len));
        }
        i += 1;
    }
    let r = sort_by_rank(found, keys, Ghost(kf));
    proof {
        assert forall|k: int| 0 <= k < r@.len() implies #[trigger] r@[k] < entries@.len() by {
            let x = r@[k];
            crate::order::lemma_select_member(r@, kf, kf(x), k);
            crate::order::lemma_select_member_back(
                search_hits(entries@, q@, favorites@, favorites_only, entries@.len() as int),
                kf,
                kf(x),
                x,
            );
        }
    }
    r
}

// ---------------------------------------------------------------------
// Entry fields
// ---------------------------------------------------------------------
/// Whether the field key `k` names `field`: in any ASCII case, and for the username
/// also `login` or `user` (in any case).
pub open spec fn names_field(k: Seq<char>, field: Seq<char>) -> bool {
    eq_ignore_ascii_case(k, field) || (field == "username"@ && (lowercase(k) == "login"@
        || lowercase(k) == "user"@))
}

/// The position of the first field among `fs` that names `field`.
pub open spec fn field_position(fs: Seq<(Seq<char>, Seq<char>)>, field: Seq<char>) -> Option<nat>
    decreases fs.len(),
{
    if fs.len() == 0 {
        None
    } else if names_field(fs[0].0, field) {
        Some(0)
    } else {
        match field_position(fs.drop_first(), field) {
            Some(i) => Some(i + 1),
            None => None,
        }
    }
}

/// The value of the first field of `entry` that names `field` (as `u` and `w` copy the
/// username and the URL).
pub fn field_value(entry: &DecryptedEntry, field: &str) -> (r: Option<String>)
    ensures
        match field_position(pair_views(entry.fields@), field@) {
            Some(i) => r matches Some(v) && v@ == pair_views(entry.fields@)[i as int].1,
            None => r is None,
        },
{
    let f = to_chars(field);
    let is_user = crate::text::is(&f, "username");
    let ghost fs = pair_views(entry.fields@);
    let mut i: usize = 0;
    assert(fs.skip(0) =~= fs);
    while i < entry.fields.len()
        invariant
            i <= entry.fields.len(),
            fs == pair_views(entry.fields@),
            f@ == field@,
            is_user == (field@ == "username"@),
            field_position(fs, field@) == match field_position(fs.skip(i as int), field@) {
                Some(k) => Some((k + i) as nat),
                None => None::<nat>,
            },
        decreases entry.fields.len() - i,
    {
        let ghost rest = fs.skip(i as int);
        assert(rest[0] == fs[i as int]);
        assert(rest.drop_first() =~= fs.skip(i + 1));
        let k = to_chars(entry.fields[i].0.as_str());
        let lower = to_chars(to_lowercase(entry.fields[i].0.as_str()).as_str());
        if eq_ignore_ascii_case_exec(&k, &f) || (is_user && (crate::text::is(&lower, "login")
            || crate::text::is(&lower, "user"))) {
            return Some(entry.fields[i].1.clone());
        }
        i += 1;
    }
    None
}

/// Copying a field finds it: where some field's key is the asked name in any ASCII case
/// (or, for the username, `login` or `user` in any case), a field is found, no later
/// than that one, and no field before the one found names the asked field.
pub proof fn lemma_field_found(fs: Seq<(Seq<char>, Seq<char>)>, field: Seq<char>, i: int)
    requires
        0 <= i < fs.len(),
        eq_ignore_ascii_case(fs[i].0, field) || (field == "username"@ && (lowercase(fs[i].0)
            == "login"@ || lowercase(fs[i].0) == "user"@)),
    ensures
        field_position(fs, field) matches Some(p) && p <= i && names_field(fs[p as int].0, field)
            && forall|j: int| 0 <= j < p ==> !names_field(#[trigger] fs[j].0, field),
    decreases fs.len(),
{
    if i > 0 && !names_field(fs[0].0, field) {
        lemma_field_found(fs.drop_first(), field, i - 1);
        let p = field_position(fs.drop_first(), field)->0;
        assert forall|j: int| 0 <= j < p + 1 implies !names_field(#[trigger] fs[j].0, field) by {
            if j > 0 {
                assert(fs[j] == fs.drop_first()[j - 1]);
            }
        }
    }
}

/// A field whose key is the asked name in any ASCII case names it, whatever the name.
pub proof fn lemma_same_name_names_field(k: Seq<char>, field: Seq<char>)
    requires
        eq_ignore_ascii_case(k, field),
    ensures
        names_field(k, field),
{
}

} // verus!
