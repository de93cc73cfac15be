use crate::editor::{is_valid_path, valid_path_chars};
use crate::pass::commands::{lemma_split_nonempty, DecryptedEntry};
use crate::text::{
    is_ascii_hex, is_hex_digit, split, split_exec, string_of, strip_suffix, strip_suffix_exec,
    string_views, to_chars, trim_start_chars, trim_start_char, views,
};
use vstd::string::StringExecFns;
use crate::keys::{KeyCode, KeyEvent};
use crate::recovery::step_down;
use vstd::prelude::*;

verus! {

/// One saved version of an entry.
#[derive(Clone, Debug)]
pub struct Revision {
    pub commit: String,
    pub date: String,
    pub path: String,
}

/// A decrypted old version, with what the store held when it was read: the current
/// file of the entry (if any) and the commit at the head.
pub struct Preview {
    pub entry: DecryptedEntry,
    pub revision: Revision,
    pub current: Option<Vec<u8>>,
    pub head: Vec<u8>,
}

/// The history popup: the versions found, the selection and the decrypted preview.
pub struct HistoryView {
    pub revisions: Vec<Revision>,
    pub selected: usize,
    pub preview: Option<Preview>,
    pub confirming: bool,
    pub error: Option<String>,
}

/// The popup after `key`, and what the key asks of the caller: a pending restore is
/// confirmed by `y` alone and takes the preview.
pub open spec fn history_step(o: HistoryView, f: HistoryView, r: HistoryAction, key: KeyEvent) -> bool {
    &&& f.revisions == o.revisions
    &&& {
            let unchanged = f.selected == o.selected && f.preview == o.preview && f.confirming
                == o.confirming && f.error == o.error;
            if o.confirming {
                &&& !f.confirming && f.selected == o.selected && f.error == o.error
                &&& (key.code == KeyCode::Char('y') && o.preview is Some) ==> (r
                    == HistoryAction::Restore(o.preview.unwrap()) && f.preview is None)
                &&& !(key.code == KeyCode::Char('y') && o.preview is Some) ==> (r
                    == HistoryAction::Nothing && f.preview == o.preview)
            } else {
                match key.code {
                    KeyCode::Esc | KeyCode::Char('q') => r == HistoryAction::Close && unchanged,
                    KeyCode::Up | KeyCode::Char('k') => r == HistoryAction::Nothing && f.selected == (
                    if o.selected > 0 {
                        o.selected - 1
                    } else {
                        0
                    }) && f.preview is None && f.error is None && f.confirming == o.confirming,
                    KeyCode::Down | KeyCode::Char('j') => r == HistoryAction::Nothing && f.selected
                        == step_down(o.selected, o.revisions.len() as nat) && f.preview is None
                        && f.error is None && f.confirming == o.confirming,
                    KeyCode::Enter => if o.selected < o.revisions.len() {
                        r == HistoryAction::Preview(o.selected) && f.preview is None && f.error is None
                            && f.selected == o.selected && f.confirming == o.confirming
                    } else {
                        r == HistoryAction::Nothing && unchanged
                    },
                    KeyCode::Char('r') => r == HistoryAction::Nothing && f.confirming == (
                    o.preview is Some) && f.selected == o.selected && f.preview == o.preview
                        && f.error == o.error,
                    _ => r == HistoryAction::Nothing && unchanged,
                }
            }
    }
}

impl HistoryView {
    pub fn new(revisions: Vec<Revision>) -> (r: Self)
        ensures
            r.revisions == revisions,
            r.selected == 0,
            r.preview is None,
            !r.confirming,
            r.error is None,
    {
        HistoryView { revisions, selected: 0, preview: None, confirming: false, error: None }
    }

    /// Handles a key: the popup's state changes in place and the action is for the
    /// caller. A pending restore is confirmed by `y` alone and takes the preview.
    pub fn handle_key(&mut self, key: KeyEvent) -> (r: HistoryAction)
        ensures
            history_step(*old(self), *final(self), r, key),
    {
        if self.confirming {
            self.confirming = false;
            if key.code == KeyCode::Char('y') {
                let taken = self.preview.take();
                match taken {
                    Some(preview) => return HistoryAction::Restore(preview),
                    None => return HistoryAction::Nothing,
                }
            }
            return HistoryAction::Nothing;
        }
        match key.code {
            KeyCode::Esc | KeyCode::Char('q') => HistoryAction::Close,
            KeyCode::Up | KeyCode::Char('k') => {
                if self.selected > 0 {
                    self.selected = self.selected - 1;
                }
                self.preview = None;
                self.error = None;
                HistoryAction::Nothing
            },
            KeyCode::Down | KeyCode::Char('j') => {
                let n = self.revisions.len();
                self.selected = if n == 0 {
                    0
                } else if self.selected < n - 1 {
                    self.selected + 1
                } else {
                    n - 1
                };
                self.preview = None;
                self.error = None;
                HistoryAction::Nothing
            },
            KeyCode::Enter => {
                if self.selected < self.revisions.len() {
                    self.preview = None;
                    self.error = None;
                    HistoryAction::Preview(self.selected)
                } else {
                    HistoryAction::Nothing
                }
            },
            KeyCode::Char('r') => {
                if self.preview.is_some() {
                    self.confirming = true;
                }
                HistoryAction::Nothing
            },
            _ => HistoryAction::Nothing,
        }
    }
}

/// What a key in the history popup asks of its caller.
pub enum HistoryAction {
    Nothing,
    Close,
    /// Decrypt the revision at this position for a preview.
    Preview(usize),
    /// Restore the previewed version.
    Restore(Preview),
}

pub open spec fn revision_views(rs: Seq<Revision>) -> Seq<(Seq<char>, Seq<char>, Seq<char>)> {
    rs.map_values(|r: Revision| (r.commit@, r.date@, r.path@))
}

/// A full SHA-1 or SHA-256 commit id in hexadecimal.
pub open spec fn is_commit_id(c: Seq<char>) -> bool {
    (c.len() == 40 || c.len() == 64) && forall|i: int| 0 <= i < c.len() ==> is_ascii_hex(#[trigger] c[i])
}

pub fn valid_commit_chars(v: &Vec<char>) -> (r: bool)
    ensures
        r == is_commit_id(v@),
{
    if v.len() != 40 && v.len() != 64 {
        return false;
    }
    let mut i: usize = 0;
    while i < v.len()
        invariant
            i <= v.len(),
            forall|j: int| 0 <= j < i ==> is_ascii_hex(#[trigger] v@[j]),
        decreases v.len() - i,
    {
        if !is_hex_digit(v[i]) {
            return false;
        }
        i += 1;
    }
    true
}

pub fn valid_commit(commit: &str) -> (r: bool)
    ensures
        r == is_commit_id(commit@),
{
    valid_commit_chars(&to_chars(commit))
}

/// The entry paths that the file names `files` of one log record stand for.
pub open spec fn record_paths(files: Seq<Seq<char>>) -> Seq<Seq<char>>
    decreases files.len(),
{
    if files.len() == 0 {
        seq![]
    } else {
        let rest = record_paths(files.drop_last());
        match strip_suffix(trim_start_char(files.last(), '\n'), ".gpg"@) {
            Some(p) => if is_valid_path(p) {
                rest.push(p)
            } else {
                rest
            },
            None => rest,
        }
    }
}

/// The revisions of one log record: its commit, its date, and its files.
pub open spec fn record_revisions(record: Seq<char>) -> Seq<(Seq<char>, Seq<char>, Seq<char>)> {
    let fields = split(record, '\0');
    let commit = fields[0];
    let date = if fields.len() > 1 {
        fields[1]
    } else {
        seq![]
    };
    if !is_commit_id(commit) || fields.len() <= 2 {
        seq![]
    } else {
        record_paths(fields.skip(2)).map_values(|p: Seq<char>| (commit, date, p))
    }
}

/// The revisions of the records `rs`, in order.
pub open spec fn log_revisions(rs: Seq<Seq<char>>) -> Seq<(Seq<char>, Seq<char>, Seq<char>)>
    decreases rs.len(),
{
    if rs.len() == 0 {
        seq![]
    } else {
        log_revisions(rs.drop_last()) + record_revisions(rs.last())
    }
}

/// Parses `git log --format=%x1e%H%x00%cs%x00 --name-only -z` output: records start
/// at each U+001E; the text before the first is ignored.
pub fn parse_log(log: &str) -> (r: Vec<Revision>)
    ensures
        revision_views(r@) == log_revisions(split(log@, '\u{1e}').drop_first()),
{
    let records = split_exec(&to_chars(log), '\u{1e}');
    let ghost rs = views(records@).drop_first();
    proof {
        lemma_split_nonempty(log@, '\u{1e}');
    }
    let mut out: Vec<Revision> = Vec::new();
    let mut k: usize = 1;
    assert(rs.take(0) =~= seq![]);
    assert(revision_views(out@) =~= seq![]);
    while k < records.len()
        invariant
            1 <= k <= records.len(),
            rs == views(records@).drop_first(),
            revision_views(out@) == log_revisions(rs.take(k - 1)),
        decreases records.len() - k,
    {
        let ghost before = out@;
        proof {
            assert(rs.take(k as int).drop_last() =~= rs.take(k - 1));
            assert(rs.take(k as int).last() == records@[k as int]@);
        }
        let fields = split_exec(&records[k], '\0');
        let ghost fs = views(fields@);
        proof {
            lemma_split_nonempty(records@[k as int]@, '\0');
        }
        let commit = string_of(&fields[0]);
        let date = if fields.len() > 1 {
            string_of(&fields[1])
        } else {
            String::new()
        };
        if valid_commit_chars(&fields[0]) && fields.len() > 2 {
            let ghost files = fs.skip(2);
            let mut j: usize = 2;
            let ghost start = out@;
            assert(files.take(0) =~= seq![]);
            assert(revision_views(out@) =~= revision_views(start) + record_paths(files.take(0)).map_values(
                |p: Seq<char>| (commit@, date@, p),
            ));
            while j < fields.len()
                invariant
                    2 <= j <= fields.len(),
                    fs == views(fields@),
                    files == fs.skip(2),
                    revision_views(out@) == revision_views(start) + record_paths(
                        files.take(j - 2),
                    ).map_values(|p: Seq<char>| (commit@, date@, p)),
                decreases fields.len() - j,
            {
                let ghost mid = out@;
                proof {
                    assert(files.take(j - 1).drop_last() =~= files.take(j - 2));
                    assert(files.take(j - 1).last() == fields@[j as int]@);
                }
                let trimmed = trim_start_chars(&fields[j], '\n');
                match strip_suffix_exec(&trimmed, ".gpg") {
                    Some(p) => {
                        if valid_path_chars(&p) {
                            out.push(Revision { commit: commit.clone(), date: date.clone(), path: string_of(&p) });
                            assert(revision_views(out@) =~= revision_views(mid).push((commit@, date@, p@)));
                        }
                    },
                    None => {},
                }
                j += 1;
            }
            assert(files.take(fields.len() - 2) =~= files);
        }
        proof {
            assert(revision_views(out@) =~= revision_views(before) + record_revisions(records@[k as int]@));
        }
        k += 1;
    }
    assert(rs.take(records.len() - 1) =~= rs);
    out
}


/// The arguments of `git log` that list the versions of the entry `path` (every entry
/// when there is none): at most a hundred commits that add or change an encrypted file.
pub open spec fn log_args(path: Option<Seq<char>>) -> Seq<Seq<char>> {
    seq![
        "log"@,
        "--format=%x1e%H%x00%cs%x00"@,
        "--name-only"@,
        "-z"@,
        "--diff-filter=AM"@,
        "--no-renames"@,
        "--max-count=100"@,
        "--"@,
        match path {
            Some(p) => ":(literal)"@ + p + ".gpg"@,
            None => "*.gpg"@,
        },
    ]
}

pub fn list_args(path: Option<&str>) -> (r: Vec<String>)
    ensures
        string_views(r@) == log_args(
            match path {
                Some(p) => Some(p@),
                None => None,
            },
        ),
{
    let spec = match path {
        Some(p) => {
            let mut s = ":(literal)".to_owned();
            s.append(p);
            s.append(".gpg");
            s
        },
        None => "*.gpg".to_owned(),
    };
    let r = vec![
        "log".to_owned(),
        "--format=%x1e%H%x00%cs%x00".to_owned(),
        "--name-only".to_owned(),
        "-z".to_owned(),
        "--diff-filter=AM".to_owned(),
        "--no-renames".to_owned(),
        "--max-count=100".to_owned(),
        "--".to_owned(),
        spec,
    ];
    proof {
        let a = log_args(
            match path {
                Some(p) => Some(p@),
                None => None,
            },
        );
        assert(r@.len() == 9);
        assert(string_views(r@)[8] == a[8]);
        assert(string_views(r@) =~= a);
    }
    r
}

/// The pathspec that `git status` checks an entry with before it is restored.
pub fn status_pathspec(path: &str) -> (r: String)
    ensures
        r@ == ":(literal)"@ + path@ + ".gpg"@,
{
    let mut s = ":(literal)".to_owned();
    s.append(path);
    s.append(".gpg");
    s
}

fn same_bytes(a: &Vec<u8>, b: &Vec<u8>) -> (r: bool)
    ensures
        r == (a@ == b@),
{
    if a.len() != b.len() {
        return false;
    }
    let mut i: usize = 0;
    while i < a.len()
        invariant
            i <= a.len(),
            a.len() == b.len(),
            forall|j: int| 0 <= j < i ==> a@[j] == b@[j],
        decreases a.len() - i,
    {
        if a[i] != b[i] {
            return false;
        }
        i += 1;
    }
    assert(a@ =~= b@);
    true
}

/// Whether the store changed since `preview` was read: another commit at the head, or
/// another file (or none) where the entry is.
pub open spec fn is_stale_spec(preview: &Preview, head: &Vec<u8>, current: &Option<Vec<u8>>) -> bool {
    head@ != preview.head@ || match (current, &preview.current) {
        (Some(a), Some(b)) => a@ != b@,
        (None, None) => false,
        _ => true,
    }
}

/// Checks whether the store changed since `preview` was read.
pub fn is_stale(preview: &Preview, head: &Vec<u8>, current: &Option<Vec<u8>>) -> (r: bool)
    ensures
        r == is_stale_spec(preview, head, current),
{
    if !same_bytes(head, &preview.head) {
        return true;
    }
    match (current, &preview.current) {
        (Some(a), Some(b)) => !same_bytes(a, b),
        (None, None) => false,
        _ => true,
    }
}

/// Whether a restore must wait: the store changed since the preview, or the entry has
/// uncommitted changes (`status` is what `git status --porcelain` printed for it).
pub fn restore_check(preview: &Preview, head: &Vec<u8>, current: &Option<Vec<u8>>, status: &Vec<u8>) -> (r: Result<(), String>)
    ensures
        is_stale_spec(preview, head, current) ==> (r matches Err(e) && e@
            == "The store changed since preview. Preview the revision again before restoring."@),
        !is_stale_spec(preview, head, current) && status@.len() > 0 ==> (r matches Err(e) && e@
            == "This entry has uncommitted changes. Commit or resolve them before restoring."@),
        !is_stale_spec(preview, head, current) && status@.len() == 0 ==> r is Ok,
{
    if is_stale(preview, head, current) {
        return Err(
            "The store changed since preview. Preview the revision again before restoring.".to_owned(),
        );
    }
    if status.len() > 0 {
        return Err(
            "This entry has uncommitted changes. Commit or resolve them before restoring.".to_owned(),
        );
    }
    Ok(())
}


/// Cutting `x`, a `c`, then `y` at every `c` gives the pieces of `x` followed by those
/// of `y`.
proof fn lemma_split_around(x: Seq<char>, c: char, y: Seq<char>)
    ensures
        split(x + seq![c] + y, c) == split(x, c) + split(y, c),
    decreases x.len(),
{
    let s = x + seq![c] + y;
    crate::text::lemma_find_char(x, c);
    match crate::text::find_char(x, c) {
        Some(i) => {
            assert(s[i as int] == c);
            assert forall|j: int| 0 <= j < i implies s[j] != c by {
                assert(s[j] == x[j]);
            }
            crate::text_facts::lemma_find_first(s, c, i as int);
            let rest = x.skip(i + 1int);
            lemma_split_around(rest, c, y);
            assert(s.take(i as int) =~= x.take(i as int));
            assert(s.skip(i + 1int) =~= rest + seq![c] + y);
            assert(split(s, c) =~= split(x, c) + split(y, c));
        },
        None => {
            assert(s[x.len() as int] == c);
            assert forall|j: int| 0 <= j < x.len() implies s[j] != c by {
                assert(s[j] == x[j]);
            }
            crate::text_facts::lemma_find_first(s, c, x.len() as int);
            assert(s.take(x.len() as int) =~= x);
            assert(s.skip(x.len() + 1int) =~= y);
            assert(split(x, c) == seq![x]);
            assert(split(s, c) =~= split(x, c) + split(y, c));
        },
    }
}

/// The revisions of record lists one after the other are the revisions of each list,
/// in order.
pub proof fn lemma_log_revisions_concat(a: Seq<Seq<char>>, b: Seq<Seq<char>>)
    ensures
        log_revisions(a + b) == log_revisions(a) + log_revisions(b),
    decreases b.len(),
{
    if b.len() == 0 {
        assert(a + b =~= a);
        assert(log_revisions(a) + log_revisions(b) =~= log_revisions(a));
    } else {
        lemma_log_revisions_concat(a, b.drop_last());
        assert((a + b).drop_last() =~= a + b.drop_last());
        assert((a + b).last() == b.last());
    }
}

/// A log written after another (each record starting at a U+001E) gives the history of
/// the first followed by the history of the second: no record of either is dropped.
pub proof fn lemma_parse_log_concat(a: Seq<char>, b: Seq<char>)
    requires
        b.len() > 0,
        b[0] == '\u{1e}',
    ensures
        log_revisions(split(a + b, '\u{1e}').drop_first()) == log_revisions(
            split(a, '\u{1e}').drop_first(),
        ) + log_revisions(split(b, '\u{1e}').drop_first()),
{
    let c = '\u{1e}';
    let y = b.drop_first();
    assert(a + b =~= a + seq![c] + y);
    lemma_split_around(a, c, y);
    assert(seq![] + seq![c] + y =~= b);
    lemma_split_around(seq![], c, y);
    lemma_split_nonempty(a, c);
    crate::text::lemma_find_char(Seq::<char>::empty(), c);
    assert(split(Seq::<char>::empty(), c) == seq![Seq::<char>::empty()]);
    assert(split(b, c).drop_first() =~= split(y, c));
    assert(split(a + b, c).drop_first() =~= split(a, c).drop_first() + split(y, c));
    lemma_log_revisions_concat(split(a, c).drop_first(), split(y, c));
}

} // verus!
