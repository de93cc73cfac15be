use crate::text::{
    append, eq, is, join, join_push, lemma_join_push, lines, lines_exec, slice, split_once,
    split_once_exec, string_of, to_chars, views, words, words_exec,
};
use vstd::prelude::*;

verus! {

/// A native package-manager command that installs OATH Toolkit.
#[derive(Clone, Debug, PartialEq, Eq)]
pub struct Plan {
    pub program: &'static str,
    pub args: Vec<&'static str>,
    pub needs_root: bool,
}

pub open spec fn arg_views(args: Seq<&'static str>) -> Seq<Seq<char>> {
    args.map_values(|a: &'static str| a@)
}

impl Plan {
    /// The command line as shown to the user.
    pub fn description(&self) -> (r: String)
        ensures
            r@ == (if self.needs_root {
                "sudo "@
            } else {
                Seq::<char>::empty()
            }) + self.program@ + " "@ + join(arg_views(self.args@), " "@),
    {
        let mut out: Vec<char> = if self.needs_root {
            to_chars("sudo ")
        } else {
            Vec::new()
        };
        append(&mut out, &to_chars(self.program));
        append(&mut out, &to_chars(" "));
        let ghost head = out@;
        let sp = to_chars(" ");
        let mut joined: Vec<char> = Vec::new();
        let mut i: usize = 0;
        assert(arg_views(self.args@).take(0) =~= seq![]);
        while i < self.args.len()
            invariant
                i <= self.args.len(),
                sp@ == " "@,
                joined@ == join(arg_views(self.args@).take(i as int), " "@),
            decreases self.args.len() - i,
        {
            let a = to_chars(self.args[i]);
            proof {
                let pre = arg_views(self.args@).take(i as int);
                assert(arg_views(self.args@).take(i + 1) =~= pre.push(a@));
                lemma_join_push(pre, a@, " "@);
            }
            join_push(&mut joined, i, &a, &sp);
            i += 1;
        }
        assert(arg_views(self.args@).take(self.args.len() as int) =~= arg_views(self.args@));
        append(&mut out, &joined);
        string_of(&out)
    }
}

pub open spec fn is_quote(c: char) -> bool {
    c == '\'' || c == '"'
}

pub open spec fn trim_quotes_start(s: Seq<char>) -> Seq<char>
    decreases s.len(),
{
    if s.len() > 0 && is_quote(s[0]) {
        trim_quotes_start(s.drop_first())
    } else {
        s
    }
}

pub open spec fn trim_quotes_end(s: Seq<char>) -> Seq<char>
    decreases s.len(),
{
    if s.len() > 0 && is_quote(s.last()) {
        trim_quotes_end(s.drop_last())
    } else {
        s
    }
}

/// `s` without surrounding quotes (as `str::trim_matches` with `['\'', '"']`).
pub open spec fn trim_quotes(s: Seq<char>) -> Seq<char> {
    trim_quotes_end(trim_quotes_start(s))
}

proof fn lemma_trim_quotes_start(s: Seq<char>, k: int)
    requires
        0 <= k <= s.len(),
        forall|j: int| 0 <= j < k ==> is_quote(s[j]),
        k == s.len() || !is_quote(s[k]),
    ensures
        trim_quotes_start(s) == s.skip(k),
    decreases k,
{
    if k == 0 {
        assert(s.skip(0) =~= s);
    } else {
        lemma_trim_quotes_start(s.drop_first(), k - 1);
        assert(s.drop_first().skip(k - 1) =~= s.skip(k));
    }
}

proof fn lemma_trim_quotes_end(s: Seq<char>, k: int)
    requires
        0 <= k <= s.len(),
        forall|j: int| k <= j < s.len() ==> is_quote(s[j]),
        k == 0 || !is_quote(s[k - 1]),
    ensures
        trim_quotes_end(s) == s.take(k),
    decreases s.len() - k,
{
    if k == s.len() {
        assert(s.take(k) =~= s);
    } else {
        lemma_trim_quotes_end(s.drop_last(), k);
        assert(s.drop_last().take(k) =~= s.take(k));
    }
}

fn trim_quotes_exec(v: &Vec<char>) -> (r: Vec<char>)
    ensures
        r@ == trim_quotes(v@),
{
    let mut a: usize = 0;
    while a < v.len() && (v[a] == '\'' || v[a] == '"')
        invariant
            a <= v.len(),
            forall|j: int| 0 <= j < a ==> is_quote(v@[j]),
        decreases v.len() - a,
    {
        a += 1;
    }
    proof {
        lemma_trim_quotes_start(v@, a as int);
    }
    let mut b = v.len();
    while b > a && (v[b - 1] == '\'' || v[b - 1] == '"')
        invariant
            a <= b <= v.len(),
            forall|j: int| b <= j < v.len() ==> is_quote(v@[j]),
        decreases b - a,
    {
        b -= 1;
    }
    proof {
        let t = v@.skip(a as int);
        lemma_trim_quotes_end(t, b - a);
        assert(t.take(b - a) =~= v@.subrange(a as int, b as int));
    }
    slice(v, a, b)
}

/// The distribution families that the `ID` and `ID_LIKE` lines among `ls` name.
pub open spec fn families(ls: Seq<Seq<char>>) -> Seq<Seq<char>>
    decreases ls.len(),
{
    if ls.len() == 0 {
        seq![]
    } else {
        families(ls.drop_last()) + match split_once(ls.last(), '=') {
            Some((k, v)) => if k == "ID"@ || k == "ID_LIKE"@ {
                words(trim_quotes(v))
            } else {
                seq![]
            },
            None => seq![],
        }
    }
}

fn family_list(release: &str) -> (r: Vec<Vec<char>>)
    ensures
        views(r@) == families(lines(release@)),
{
    let ls = lines_exec(&to_chars(release));
    let ghost sls = views(ls@);
    let mut out: Vec<Vec<char>> = Vec::new();
    let mut i: usize = 0;
    assert(sls.take(0) =~= seq![]);
    assert(views(out@) =~= seq![]);
    while i < ls.len()
        invariant
            i <= ls.len(),
            sls == views(ls@),
            views(out@) == families(sls.take(i as int)),
        decreases ls.len() - i,
    {
        proof {
            assert(sls.take(i + 1).drop_last() =~= sls.take(i as int));
            assert(sls.take(i + 1).last() == ls@[i as int]@);
        }
        match split_once_exec(&ls[i], '=') {
            Some((k, v)) => {
                if is(&k, "ID") || is(&k, "ID_LIKE") {
                    let ws = words_exec(&trim_quotes_exec(&v));
                    let mut j: usize = 0;
                    let ghost before = out@;
                    assert(views(ws@).take(0) =~= seq![]);
                    assert(views(out@) =~= views(before) + views(ws@).take(0));
                    while j < ws.len()
                        invariant
                            j <= ws.len(),
                            views(out@) == views(before) + views(ws@).take(j as int),
                        decreases ws.len() - j,
                    {
                        let ghost mid = out@;
                        let w = crate::text::copy(&ws[j]);
                        out.push(w);
                        assert(views(out@) =~= views(mid).push(ws@[j as int]@));
                        assert(views(ws@).take(j + 1) =~= views(ws@).take(j as int).push(ws@[j as int]@));
                        assert(views(out@) =~= views(before) + views(ws@).take(j + 1));
                        j += 1;
                    }
                    assert(views(ws@).take(ws.len() as int) =~= views(ws@));
                } else {
                    assert(views(out@) =~= views(out@) + Seq::<Seq<char>>::empty());
                }
            },
            None => {
                assert(views(out@) =~= views(out@) + Seq::<Seq<char>>::empty());
            },
        }
        i += 1;
    }
    assert(sls.take(ls.len() as int) =~= sls);
    out
}

fn has(fs: &Vec<Vec<char>>, name: &str) -> (r: bool)
    ensures
        r == views(fs@).contains(name@),
{
    let n = to_chars(name);
    let mut i: usize = 0;
    while i < fs.len()
        invariant
            i <= fs.len(),
            n@ == name@,
            forall|j: int| 0 <= j < i ==> views(fs@)[j] != name@,
        decreases fs.len() - i,
    {
        if eq(&fs[i], &n) {
            assert(views(fs@)[i as int] == name@);
            return true;
        }
        i += 1;
    }
    false
}

pub open spec fn no_plan_linux() -> Seq<char> {
    "Automatic OTP setup is unavailable on this system. Install OATH Toolkit (oathtool) with your package manager, then retry."@
}

pub open spec fn no_plan_os() -> Seq<char> {
    "Automatic OTP setup supports Linux and macOS. Install oathtool manually on this system."@
}

/// The installer command for the operating system `os` with `/etc/os-release` content
/// `release`.
pub fn plan(os: &str, release: &str) -> (r: Result<Plan, String>)
    ensures
        os@ == "macos"@ ==> (r matches Ok(p) && p.program@ == "brew"@ && arg_views(p.args@)
            == seq!["install"@, "oath-toolkit"@] && !p.needs_root),
        os@ != "macos"@ && os@ == "linux"@ ==> ({
            let f = families(lines(release@));
            if f.contains("arch"@) || f.contains("omarchy"@) {
                r matches Ok(p) && p.program@ == "pacman"@ && arg_views(p.args@) == seq![
                    "-S"@,
                    "--needed"@,
                    "--noconfirm"@,
                    "oath-toolkit"@,
                ] && p.needs_root
            } else if f.contains("debian"@) || f.contains("ubuntu"@) {
                r matches Ok(p) && p.program@ == "apt-get"@ && arg_views(p.args@) == seq![
                    "install"@,
                    "-y"@,
                    "oathtool"@,
                ] && p.needs_root
            } else if f.contains("fedora"@) || f.contains("rhel"@) {
                r matches Ok(p) && p.program@ == "dnf"@ && arg_views(p.args@) == seq![
                    "install"@,
                    "-y"@,
                    "oathtool"@,
                ] && p.needs_root
            } else {
                r matches Err(e) && e@ == no_plan_linux()
            }
        }),
        os@ != "macos"@ && os@ != "linux"@ ==> (r matches Err(e) && e@ == no_plan_os()),
{
    let os_c = to_chars(os);
    if is(&os_c, "macos") {
        let args = vec!["install", "oath-toolkit"];
        assert(arg_views(args@) =~= seq!["install"@, "oath-toolkit"@]);
        return Ok(Plan { program: "brew", args, needs_root: false });
    }
    if is(&os_c, "linux") {
        let f = family_list(release);
        let (program, args): (&'static str, Vec<&'static str>) = if has(&f, "arch") || has(
            &f,
            "omarchy",
        ) {
            let args = vec!["-S", "--needed", "--noconfirm", "oath-toolkit"];
            assert(arg_views(args@) =~= seq!["-S"@, "--needed"@, "--noconfirm"@, "oath-toolkit"@]);
            ("pacman", args)
        } else if has(&f, "debian") || has(&f, "ubuntu") {
            let args = vec!["install", "-y", "oathtool"];
            assert(arg_views(args@) =~= seq!["install"@, "-y"@, "oathtool"@]);
            ("apt-get", args)
        } else if has(&f, "fedora") || has(&f, "rhel") {
            let args = vec!["install", "-y", "oathtool"];
            assert(arg_views(args@) =~= seq!["install"@, "-y"@, "oathtool"@]);
            ("dnf", args)
        } else {
            return Err("Automatic OTP setup is unavailable on this system. Install OATH Toolkit (oathtool) with your package manager, then retry.".to_owned());
        };
        return Ok(Plan { program, args, needs_root: true });
    }
    Err("Automatic OTP setup supports Linux and macOS. Install oathtool manually on this system.".to_owned())
}

} // verus!
