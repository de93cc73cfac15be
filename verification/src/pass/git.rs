use crate::text::{
    contains_exec, contains_seq, eq, opt_view,
    lines, lines_exec, parse_unsigned, parse_usize, slice, split, split_exec,
    split_once, split_once_exec, split_once_seq, split_once_str, string_of, strip_prefix,
    strip_prefix_exec, to_chars, trim, trim_chars, trim_end_char, trim_exec, trim_start_char,
    views, words, words_exec,
};
use vstd::prelude::*;

verus! {

/// Snapshot of the Git status within the password store.
#[derive(Debug, Clone, PartialEq, Eq)]
pub struct GitStatus {
    pub is_git_repo: bool,
    pub branch: String,
    pub remote_name: Option<String>,
    pub remote_url: Option<String>,
    pub ahead: usize,
    pub behind: usize,
    pub is_dirty: bool,
    pub recent_commits: Vec<String>,
}

impl GitStatus {
    pub fn not_repo() -> (r: Self)
        ensures
            !r.is_git_repo,
            r.branch@.len() == 0,
            r.remote_name is None,
            r.remote_url is None,
            r.ahead == 0,
            r.behind == 0,
            !r.is_dirty,
            r.recent_commits@.len() == 0,
    {
        GitStatus {
            is_git_repo: false,
            branch: String::new(),
            remote_name: None,
            remote_url: None,
            ahead: 0,
            behind: 0,
            is_dirty: false,
            recent_commits: Vec::new(),
        }
    }
}

/// A count that `str::parse` reads from `s`, or zero where it reads none.
pub open spec fn count_or_zero(s: Seq<char>) -> nat {
    match parse_unsigned(s, usize::MAX as nat) {
        Some(n) => n,
        None => 0,
    }
}

/// The ahead and behind counts that the comma-separated `parts` announce; a later
/// announcement of either replaces an earlier one.
pub open spec fn counts(parts: Seq<Seq<char>>) -> (nat, nat)
    decreases parts.len(),
{
    if parts.len() == 0 {
        (0, 0)
    } else {
        let (a, b) = counts(parts.drop_last());
        let p = trim(parts.last());
        match strip_prefix(p, "ahead "@) {
            Some(n) => (count_or_zero(n), b),
            None => match strip_prefix(p, "behind "@) {
                Some(n) => (a, count_or_zero(n)),
                None => (a, b),
            },
        }
    }
}

/// Whether any line after the first holds more than white space.
pub open spec fn any_change(ls: Seq<Seq<char>>) -> bool {
    exists|i: int| 1 <= i < ls.len() && #[trigger] trim(ls[i]).len() > 0
}

/// The status that the output of `git status -b --porcelain` reports:
/// (branch, upstream, ahead, behind, dirty).
pub open spec fn porcelain(output: Seq<char>) -> (Seq<char>, Option<Seq<char>>, nat, nat, bool) {
    let ls = lines(output);
    let first = trim(
        if ls.len() > 0 {
            ls[0]
        } else {
            seq![]
        },
    );
    let dirty = any_change(ls);
    match strip_prefix(first, "##"@) {
        None => ("main"@, None, 0, 0, dirty),
        Some(r0) => {
            let rest = trim(r0);
            match strip_prefix(rest, "No commits yet on "@) {
                Some(b) => (trim(b), None, 0, 0, dirty),
                None => {
                    let bp = match split_once(rest, ' ') {
                        Some((b, m)) => trim(b),
                        None => rest,
                    };
                    let (a, b) = match split_once(rest, ' ') {
                        Some((b, m)) => counts(
                            split(trim_end_char(trim_start_char(trim(m), '['), ']'), ','),
                        ),
                        None => (0, 0),
                    };
                    match split_once_seq(bp, "..."@) {
                        Some((l, u)) => (l, Some(u), a, b, dirty),
                        None => (bp, None, a, b, dirty),
                    }
                },
            }
        },
    }
}

fn ahead_behind(meta: &Vec<char>) -> (r: (usize, usize))
    ensures
        r.0 == counts(split(trim_end_char(trim_start_char(meta@, '['), ']'), ',')).0,
        r.1 == counts(split(trim_end_char(trim_start_char(meta@, '['), ']'), ',')).1,
{
    let stripped = trim_chars(meta, '[', ']');
    let parts = split_exec(&stripped, ',');
    let ghost ps = views(parts@);
    let mut ahead: usize = 0;
    let mut behind: usize = 0;
    let mut i: usize = 0;
    assert(ps.take(0) =~= seq![]);
    while i < parts.len()
        invariant
            i <= parts.len(),
            ps == views(parts@),
            ahead == counts(ps.take(i as int)).0,
            behind == counts(ps.take(i as int)).1,
        decreases parts.len() - i,
    {
        let part = trim_exec(&parts[i]);
        proof {
            assert(ps.take(i + 1).drop_last() =~= ps.take(i as int));
            assert(ps.take(i + 1).last() == parts@[i as int]@);
        }
        match strip_prefix_exec(&part, "ahead ") {
            Some(n) => {
                ahead = match parse_usize(&n) {
                    Some(x) => x,
                    None => 0,
                };
            },
            None => match strip_prefix_exec(&part, "behind ") {
                Some(n) => {
                    behind = match parse_usize(&n) {
                        Some(x) => x,
                        None => 0,
                    };
                },
                None => {},
            },
        }
        i += 1;
    }
    assert(ps.take(parts.len() as int) =~= ps);
    (ahead, behind)
}

/// Parses output from `git status -b --porcelain`.
/// Returns (branch, upstream, ahead, behind, is_dirty).
pub fn parse_git_status_porcelain(output: &str) -> (r: (String, Option<String>, usize, usize, bool))
    ensures
        r.0@ == porcelain(output@).0,
        opt_view(r.1) == porcelain(output@).1,
        r.2 == porcelain(output@).2,
        r.3 == porcelain(output@).3,
        r.4 == porcelain(output@).4,
{
    let chars = to_chars(output);
    let ls = lines_exec(&chars);
    let ghost sls = views(ls@);
    let first = if ls.len() > 0 {
        trim_exec(&ls[0])
    } else {
        Vec::new()
    };
    let mut dirty = false;
    let mut i: usize = 1;
    while i < ls.len()
        invariant
            1 <= i,
            sls == views(ls@),
            ls.len() > 0 ==> i <= ls.len(),
            dirty == exists|j: int| 1 <= j < i && j < ls.len() && #[trigger] trim(sls[j]).len() > 0,
        decreases ls.len() - i,
    {
        let t = trim_exec(&ls[i]);
        if t.len() > 0 {
            assert(trim(sls[i as int]).len() > 0);
            dirty = true;
        }
        i += 1;
    }
    assert(dirty == any_change(sls));
    let mut branch = to_chars("main");
    let mut upstream: Option<Vec<char>> = None;
    let mut ahead: usize = 0;
    let mut behind: usize = 0;
    match strip_prefix_exec(&first, "##") {
        Some(r0) => {
            let rest = trim_exec(&r0);
            match strip_prefix_exec(&rest, "No commits yet on ") {
                Some(b) => {
                    branch = trim_exec(&b);
                },
                None => {
                    let bp = match split_once_exec(&rest, ' ') {
                        Some((b, m)) => {
                            let tm = trim_exec(&m);
                            let (a, bh) = ahead_behind(&tm);
                            ahead = a;
                            behind = bh;
                            trim_exec(&b)
                        },
                        None => slice(&rest, 0, rest.len()),
                    };
                    assert(rest@.subrange(0, rest@.len() as int) =~= rest@);
                    match split_once_str(&bp, "...") {
                        Some((l, u)) => {
                            branch = l;
                            upstream = Some(u);
                        },
                        None => {
                            branch = bp;
                        },
                    }
                },
            }
        },
        None => {},
    }
    let up = match upstream {
        Some(u) => Some(string_of(&u)),
        None => None,
    };
    (string_of(&branch), up, ahead, behind, dirty)
}

/// The (name, url) pair of the first line of `git remote -v` output with two words.
pub open spec fn first_remote(ls: Seq<Seq<char>>) -> (Option<Seq<char>>, Option<Seq<char>>)
    decreases ls.len(),
{
    if ls.len() == 0 {
        (None, None)
    } else if words(ls[0]).len() >= 2 {
        (Some(words(ls[0])[0]), Some(words(ls[0])[1]))
    } else {
        first_remote(ls.drop_first())
    }
}

/// Parses output from `git remote -v`.
/// Returns (remote_name, remote_url).
pub fn parse_git_remote(output: &str) -> (r: (Option<String>, Option<String>))
    ensures
        opt_view(r.0) == first_remote(lines(output@)).0,
        opt_view(r.1) == first_remote(lines(output@)).1,
{
    let chars = to_chars(output);
    let ls = lines_exec(&chars);
    let ghost sls = views(ls@);
    let mut i: usize = 0;
    assert(sls.skip(0) =~= sls);
    while i < ls.len()
        invariant
            i <= ls.len(),
            sls == views(ls@),
            sls == lines(output@),
            first_remote(sls) == first_remote(sls.skip(i as int)),
        decreases ls.len() - i,
    {
        let parts = words_exec(&ls[i]);
        assert(sls.skip(i as int)[0] == ls@[i as int]@);
        if parts.len() >= 2 {
            proof {
                let w = words(ls@[i as int]@);
                assert(w == views(parts@));
                assert(first_remote(sls.skip(i as int)) == (Some(w[0]), Some(w[1])));
                assert(parts@[0]@ == w[0]);
                assert(parts@[1]@ == w[1]);
            }
            return (Some(string_of(&parts[0])), Some(string_of(&parts[1])));
        }
        assert(sls.skip(i as int).drop_first() =~= sls.skip(i + 1));
        i += 1;
    }
    assert(sls.skip(i as int).len() == 0);
    (None, None)
}

/// The message of a command's reply: its first stream that is not blank, trimmed, else
/// `fallback`.
pub open spec fn reply(first: Seq<char>, second: Seq<char>, fallback: Seq<char>) -> Seq<char> {
    if trim(first).len() > 0 {
        trim(first)
    } else if trim(second).len() > 0 {
        trim(second)
    } else {
        fallback
    }
}

/// The message to show for a command's reply: `first` trimmed unless blank, then
/// `second` trimmed unless blank, else `fallback`.
pub fn reply_text(first: &str, second: &str, fallback: &str) -> (r: String)
    ensures
        r@ == reply(first@, second@, fallback@),
{
    let a = trim_exec(&to_chars(first));
    if a.len() > 0 {
        return string_of(&a);
    }
    let b = trim_exec(&to_chars(second));
    if b.len() > 0 {
        return string_of(&b);
    }
    fallback.to_owned()
}

/// Whether a failed push failed because the branch has no upstream yet.
pub open spec fn lacks_upstream(stderr: Seq<char>) -> bool {
    contains_seq(stderr, "no upstream branch"@) || contains_seq(stderr, "set-upstream"@)
}

/// Whether the error output of a failed `git push` asks for an upstream branch.
pub fn needs_upstream(stderr: &str) -> (r: bool)
    ensures
        r == lacks_upstream(stderr@),
{
    let e = to_chars(stderr);
    contains_exec(&e, &to_chars("no upstream branch")) || contains_exec(&e, &to_chars("set-upstream"))
}

/// The branch to push upstream: the current one, or `main` when it has no name.
pub fn upstream_target(branch: &str) -> (r: &str)
    ensures
        branch@.len() == 0 ==> r@ == "main"@,
        branch@.len() > 0 ==> r@ == branch@,
{
    if branch.is_empty() {
        "main"
    } else {
        branch
    }
}

/// Whether the output of `git remote` lists a remote named `origin`.
pub open spec fn lists_origin(output: Seq<char>) -> bool {
    exists|i: int| 0 <= i < lines(output).len() && #[trigger] trim(lines(output)[i]) == "origin"@
}

/// Whether the output of `git remote` names `origin` on a line of its own (blanks
/// around it aside); the remote is then updated rather than added.
pub fn has_origin(output: &str) -> (r: bool)
    ensures
        r == lists_origin(output@),
{
    let ls = lines_exec(&to_chars(output));
    let origin = to_chars("origin");
    let ghost sls = views(ls@);
    let mut i: usize = 0;
    while i < ls.len()
        invariant
            i <= ls.len(),
            sls == views(ls@),
            sls == lines(output@),
            origin@ == "origin"@,
            forall|j: int| 0 <= j < i ==> trim(#[trigger] sls[j]) != "origin"@,
        decreases ls.len() - i,
    {
        assert(sls[i as int] == ls@[i as int]@);
        if eq(&trim_exec(&ls[i]), &origin) {
            return true;
        }
        i += 1;
    }
    false
}


/// Where the store's branch stands against its remote.
#[derive(Clone, Copy, Debug, PartialEq, Eq, Structural)]
pub enum SyncStatus {
    /// Commits on both sides: ahead by the first number, behind by the second.
    Diverged(usize, usize),
    /// Commits to push.
    Ahead(usize),
    /// Commits to pull.
    Behind(usize),
    /// In step with the remote.
    UpToDate,
    /// No remote is configured.
    LocalOnly,
}

/// Where a repository in state `g` stands against its remote.
pub open spec fn sync_status_of(g: GitStatus) -> SyncStatus {
    if g.ahead > 0 && g.behind > 0 {
        SyncStatus::Diverged(g.ahead, g.behind)
    } else if g.ahead > 0 {
        SyncStatus::Ahead(g.ahead)
    } else if g.behind > 0 {
        SyncStatus::Behind(g.behind)
    } else if g.remote_url is Some {
        SyncStatus::UpToDate
    } else {
        SyncStatus::LocalOnly
    }
}

impl GitStatus {
    /// Where the branch stands against its remote, as the Git popup says it.
    pub fn sync_status(&self) -> (r: SyncStatus)
        ensures
            r == sync_status_of(*self),
    {
        if self.ahead > 0 && self.behind > 0 {
            SyncStatus::Diverged(self.ahead, self.behind)
        } else if self.ahead > 0 {
            SyncStatus::Ahead(self.ahead)
        } else if self.behind > 0 {
            SyncStatus::Behind(self.behind)
        } else if self.remote_url.is_some() {
            SyncStatus::UpToDate
        } else {
            SyncStatus::LocalOnly
        }
    }
}

} // verus!
