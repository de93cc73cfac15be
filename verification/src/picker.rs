//! The quick picker: the entries whose path matches a query, favorites first.
use crate::favorites::Favorites;
use crate::order::{sort_by_rank, stable_ranking};
use crate::pass::store::FlatEntry;
use crate::search::{is_subsequence, rank, rank_of};
use crate::text::{lowercase, to_lowercase};
use crate::keys::{KeyCode, KeyEvent};
use crate::text_input::{handled, inserted, is_fresh, normalized, rejects, single_line_error, TextInput};
use vstd::prelude::*;

verus! {

/// The positions of the entries among the first `n` of `es` whose path matches the
/// (lower-cased) query `q`, in order.
pub open spec fn hits(es: Seq<FlatEntry>, q: Seq<char>, n: int) -> Seq<usize>
    decreases n,
{
    if n <= 0 {
        seq![]
    } else {
        let r = hits(es, q, n - 1);
        if is_subsequence(lowercase(q), lowercase(es[n - 1].path@)) {
            r.push((n - 1) as usize)
        } else {
            r
        }
    }
}

/// The order of the picker: favorites first, then by rank for the query.
pub open spec fn pick_key(e: FlatEntry, q: Seq<char>, favorites: Set<Seq<char>>) -> (u8, u8, usize) {
    let r = rank_of(e.path@, q);
    (if favorites.contains(e.path@) {
        0
    } else {
        1
    }, r.0, r.1)
}

/// The positions in `entries` of those whose path matches `query` (in any case), the
/// favorites first, then by rank; entries that tie keep their order.
pub fn matching_entries(entries: &Vec<FlatEntry>, query: &str, favorites: &Favorites) -> (r: Vec<
    usize,
>)
    ensures
        stable_ranking(
            r@,
            hits(entries@, lowercase(query@), entries@.len() as int),
            |i: usize| pick_key(entries@[i as int], lowercase(query@), favorites@),
        ),
        forall|k: int| 0 <= k < r@.len() ==> #[trigger] r@[k] < entries@.len(),
{
    let q = to_lowercase(query);
    let ghost kf = |i: usize| pick_key(entries@[i as int], lowercase(query@), favorites@);
    let mut found: Vec<usize> = Vec::new();
    let mut keys: Vec<(u8, u8, usize)> = Vec::new();
    let mut i: usize = 0;
    while i < entries.len()
        invariant
            i <= entries.len(),
            q@ == lowercase(query@),
            kf == (|i: usize| pick_key(entries@[i as int], lowercase(query@), favorites@)),
            found@ == hits(entries@, q@, i as int),
            keys.len() == found.len(),
            forall|m: int| 0 <= m < found.len() ==> #[trigger] keys@[m] == kf(found@[m]),
            forall|m: int| 0 <= m < found.len() ==> #[trigger] found@[m] < i,
        decreases entries.len() - i,
    {
        let path = entries[i].path.as_str();
        if crate::search::matches(path, q.as_str()) {
            let favorite = favorites.contains(path);
            let (p, len) = rank(path, q.as_str());
            found.push(i);
            keys.push(
                (if favorite {
                    0
                } else {
                    1
                }, p, len),
            );
        }
        i += 1;
    }
    let r = sort_by_rank(found, keys, Ghost(kf));
    proof {
        assert forall|k: int| 0 <= k < r@.len() implies #[trigger] r@[k] < entries@.len() by {
            let x = r@[k];
            let key = kf(x);
            crate::order::lemma_select_member(r@, kf, key, k);
            crate::order::lemma_select_member_back(hits(entries@, q@, entries@.len() as int), kf, key, x);
        }
    }
    r
}

/// The quick picker's own state.
pub struct PickerState {
    pub query: String,
    pub input: TextInput,
    /// The selected row among the matches.
    pub selected: usize,
    pub locked: bool,
    pub message: Option<String>,
}

/// What happens to the picker.
pub enum PickerEvent {
    Key(KeyEvent),
    Paste(String),
    /// No key or paste came for as long as the idle limit allows.
    Idle,
}

/// Outside work that a picker step asks of the caller.
#[derive(Debug, PartialEq, Eq)]
pub enum PickerAction {
    Nothing,
    /// Revoke the clipboard session and leave the picker.
    Quit,
    /// The picker was locked: revoke the clipboard session.
    Lock,
    /// The picker was unlocked: start a new clipboard session.
    Resume,
    /// Switch the favorite mark of the match at this row, then keep it selected.
    ToggleFavorite(usize),
    /// Copy the password of the match at this row, then leave the picker.
    Copy(usize),
}

/// The selection kept within `n` matches.
pub open spec fn clamped(selected: usize, n: usize) -> usize {
    if selected >= n {
        if n > 0 { (n - 1) as usize } else { 0 }
    } else {
        selected
    }
}

/// The picker locked: the query and its history gone, no message.
pub open spec fn picker_locked(o: PickerState, f: PickerState) -> bool {
    f.locked && f.query@.len() == 0 && is_fresh(f.input@) && f.message is None && f.selected == o.selected
}

/// The picker after `ev` with `n_matches` matches on the list; `busy` is whether a copy
/// is still running.
pub open spec fn picker_next(o: PickerState, f: PickerState, r: PickerAction, ev: PickerEvent, n_matches: usize, busy: bool) -> bool {
    let sel = clamped(o.selected, n_matches);
    let c = PickerState { selected: sel, ..o };
    match ev {
        PickerEvent::Idle => if o.locked {
            f == c && r == PickerAction::Nothing
        } else {
            picker_locked(c, f) && r == PickerAction::Lock
        },
        PickerEvent::Paste(text) => if o.locked {
            f == c && r == PickerAction::Nothing
        } else {
            let v = normalized(text@);
            &&& f.selected == 0 && !f.locked && r == PickerAction::Nothing
            &&& rejects(v, false) ==> f.query@ == o.query@ && f.input@ == o.input@ && (f.message matches Some(m)
                && m@ == single_line_error())
            &&& !rejects(v, false) ==> f.input@ == inserted(o.input@, o.query@, v).0 && f.query@ == inserted(
                o.input@,
                o.query@,
                v,
            ).1 && f.message == o.message
        },
        PickerEvent::Key(key) => if o.locked {
            if key.code == KeyCode::Esc || key.code == KeyCode::Char('q') {
                f == c && r == PickerAction::Quit
            } else if key.code == KeyCode::Enter && !busy {
                f == (PickerState { locked: false, ..c }) && r == PickerAction::Resume
            } else {
                f == c && r == PickerAction::Nothing
            }
        } else if key.ctrl && key.code == KeyCode::Char('l') {
            picker_locked(c, f) && r == PickerAction::Lock
        } else if key.code == KeyCode::Esc {
            f == c && r == PickerAction::Quit
        } else if key.ctrl && key.code == KeyCode::Char('f') {
            f == c && r == if sel < n_matches { PickerAction::ToggleFavorite(sel) } else { PickerAction::Nothing }
        } else if key.code == KeyCode::Enter && busy {
            f == c && r == PickerAction::Nothing
        } else if key.code == KeyCode::Enter {
            f == c && r == if sel < n_matches { PickerAction::Copy(sel) } else { PickerAction::Nothing }
        } else if key.code == KeyCode::Up {
            f == (PickerState { selected: if sel > 0 { (sel - 1) as usize } else { 0 }, ..c }) && r
                == PickerAction::Nothing
        } else if key.code == KeyCode::Down {
            f == (PickerState { selected: if sel + 1 < n_matches { (sel + 1) as usize } else { sel }, ..c })
                && r == PickerAction::Nothing
        } else {
            let (i, t, changed) = handled(o.input@, o.query@, key);
            &&& f.input@ == i && f.query@ == t && f.selected == (if changed { 0 } else { sel })
            &&& !f.locked && f.message == o.message && r == PickerAction::Nothing
        },
    }
}

fn lock_picker(st: &mut PickerState)
    ensures
        picker_locked(*old(st), *final(st)),
{
    st.locked = true;
    st.query = String::new();
    st.input = TextInput::new();
    st.message = None;
}

/// One step of the quick picker; see `picker_next`.
pub fn picker_step(st: &mut PickerState, ev: PickerEvent, n_matches: usize, busy: bool) -> (r: PickerAction)
    ensures
        picker_next(*old(st), *final(st), r, ev, n_matches, busy),
{
    if st.selected >= n_matches {
        st.selected = if n_matches > 0 { n_matches - 1 } else { 0 };
    }
    match ev {
        PickerEvent::Idle => {
            if st.locked {
                PickerAction::Nothing
            } else {
                lock_picker(st);
                PickerAction::Lock
            }
        },
        PickerEvent::Paste(text) => {
            if st.locked {
                return PickerAction::Nothing;
            }
            match st.input.insert(&mut st.query, text.as_str(), false) {
                Ok(()) => {},
                Err(e) => st.message = Some(e),
            }
            st.selected = 0;
            PickerAction::Nothing
        },
        PickerEvent::Key(key) => {
            if st.locked {
                if key.code == KeyCode::Esc || key.code == KeyCode::Char('q') {
                    PickerAction::Quit
                } else if key.code == KeyCode::Enter && !busy {
                    st.locked = false;
                    PickerAction::Resume
                } else {
                    PickerAction::Nothing
                }
            } else if key.ctrl && key.code == KeyCode::Char('l') {
                lock_picker(st);
                PickerAction::Lock
            } else if key.code == KeyCode::Esc {
                PickerAction::Quit
            } else if key.ctrl && key.code == KeyCode::Char('f') {
                if st.selected < n_matches {
                    PickerAction::ToggleFavorite(st.selected)
                } else {
                    PickerAction::Nothing
                }
            } else if key.code == KeyCode::Enter {
                if !busy && st.selected < n_matches {
                    PickerAction::Copy(st.selected)
                } else {
                    PickerAction::Nothing
                }
            } else if key.code == KeyCode::Up {
                if st.selected > 0 {
                    st.selected = st.selected - 1;
                }
                PickerAction::Nothing
            } else if key.code == KeyCode::Down {
                if st.selected + 1 < n_matches {
                    st.selected = st.selected + 1;
                }
                PickerAction::Nothing
            } else {
                if st.input.handle(&mut st.query, key) {
                    st.selected = 0;
                }
                PickerAction::Nothing
            }
        },
    }
}

} // verus!
