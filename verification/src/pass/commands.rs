use crate::text::{
    contains_exec, contains_seq,
    copy, find_char, is, lines, lines_exec, slice, split, split_exec, split_once, split_once_exec,
    string_of, string_views, to_chars, trim, trim_bounds, trim_exec, views,
};
use vstd::prelude::*;

verus! {

/// Parsed content of a decrypted pass entry.
#[derive(Debug, Clone)]
pub struct DecryptedEntry {
    pub content: String,
    /// First line: the password.
    pub password: String,
    /// Later `key: value` lines, key and value trimmed.
    pub fields: Vec<(String, String)>,
    /// Later non-blank lines without a colon, trimmed.
    pub notes: Vec<String>,
}

/// A discovered GPG key.
#[derive(Debug, Clone, PartialEq, Eq)]
pub struct GpgKey {
    pub id: String,
    pub uid: String,
}

pub open spec fn pair_views(fs: Seq<(String, String)>) -> Seq<(Seq<char>, Seq<char>)> {
    fs.map_values(|f: (String, String)| (f.0@, f.1@))
}

pub open spec fn key_views(ks: Seq<GpgKey>) -> Seq<(Seq<char>, Seq<char>)> {
    ks.map_values(|k: GpgKey| (k.id@, k.uid@))
}

/// Fields and notes of the lines `ls` that follow the password line.
pub open spec fn classify(ls: Seq<Seq<char>>) -> (Seq<(Seq<char>, Seq<char>)>, Seq<Seq<char>>)
    decreases ls.len(),
{
    if ls.len() == 0 {
        (seq![], seq![])
    } else {
        let (f, n) = classify(ls.drop_last());
        let t = trim(ls.last());
        if t.len() == 0 {
            (f, n)
        } else {
            match split_once(t, ':') {
                Some((k, v)) => (f.push((trim(k), trim(v))), n),
                None => (f, n.push(t)),
            }
        }
    }
}

/// The password line of an entry: its first line, or nothing.
pub open spec fn password_of(content: Seq<char>) -> Seq<char> {
    if lines(content).len() > 0 {
        lines(content)[0]
    } else {
        seq![]
    }
}

/// The lines after the password line.
pub open spec fn body_lines(content: Seq<char>) -> Seq<Seq<char>> {
    if lines(content).len() > 0 {
        lines(content).drop_first()
    } else {
        seq![]
    }
}

impl DecryptedEntry {
    /// Wipes every text of the entry: its content, password, fields and notes.
    pub fn wipe(&mut self)
        ensures
            final(self).content@.len() == 0,
            final(self).password@.len() == 0,
            final(self).fields@.len() == 0,
            final(self).notes@.len() == 0,
    {
        crate::text::wipe(&mut self.content);
        crate::text::wipe(&mut self.password);
        while self.fields.len() > 0
            invariant
                self.content@.len() == 0,
                self.password@.len() == 0,
            decreases self.fields.len(),
        {
            if let Some((mut k, mut v)) = self.fields.pop() {
                crate::text::wipe(&mut k);
                crate::text::wipe(&mut v);
            }
        }
        while self.notes.len() > 0
            invariant
                self.content@.len() == 0,
                self.password@.len() == 0,
                self.fields@.len() == 0,
            decreases self.notes.len(),
        {
            if let Some(mut n) = self.notes.pop() {
                crate::text::wipe(&mut n);
            }
        }
    }

    /// The password for logging in; an entry whose password line is an OTP URI has none.
    pub fn login_password(&self) -> (r: Result<&str, String>)
        ensures
            contains_seq(self.password@, "otpauth://"@) ==> (r matches Err(e) && e@
                == "OTP-only entry: use t in PassTUI to generate a code."@),
            !contains_seq(self.password@, "otpauth://"@) ==> (r matches Ok(p) && p@
                == self.password@),
    {
        let pw = to_chars(self.password.as_str());
        let marker = to_chars("otpauth://");
        if contains_exec(&pw, &marker) {
            Err("OTP-only entry: use t in PassTUI to generate a code.".to_owned())
        } else {
            Ok(self.password.as_str())
        }
    }
}

/// Parses the output of `pass show` into password, key-value fields, and notes.
pub fn parse_entry(content: &str) -> (r: DecryptedEntry)
    ensures
        r.content@ == content@,
        r.password@ == password_of(content@),
        pair_views(r.fields@) == classify(body_lines(content@)).0,
        string_views(r.notes@) == classify(body_lines(content@)).1,
{
    let chars = to_chars(content);
    let ls = lines_exec(&chars);
    let password = if ls.len() > 0 {
        string_of(&ls[0])
    } else {
        String::new()
    };
    let ghost body = body_lines(content@);
    let mut fields: Vec<(String, String)> = Vec::new();
    let mut notes: Vec<String> = Vec::new();
    let mut i: usize = 1;
    proof {
        if ls.len() > 0 {
            assert(body =~= views(ls@).drop_first());
        } else {
            assert(body =~= seq![]);
        }
        assert(body.take(0) =~= seq![]);
    }
    while i < ls.len()
        invariant
            1 <= i,
            ls.len() > 0 ==> i <= ls.len(),
            ls.len() == 0 ==> i == 1,
            views(ls@) == lines(content@),
            ls.len() > 0 ==> body == views(ls@).drop_first(),
            pair_views(fields@) == classify(body.take(i - 1)).0,
            string_views(notes@) == classify(body.take(i - 1)).1,
        decreases ls.len() - i,
    {
        let ghost pre = body.take(i - 1);
        let ghost f0 = fields@;
        let ghost n0 = notes@;
        let (a, b) = trim_bounds(&ls[i], 0, ls[i].len());
        let t = slice(&ls[i], a, b);
        proof {
            assert(body.take(i as int).drop_last() =~= pre);
            assert(body.take(i as int).last() == ls@[i as int]@);
            assert(ls@[i as int]@.subrange(0, ls@[i as int]@.len() as int) =~= ls@[i as int]@);
        }
        if t.len() > 0 {
            match split_once_exec(&t, ':') {
                Some((k, v)) => {
                    let kt = trim_exec(&k);
                    let vt = trim_exec(&v);
                    fields.push((string_of(&kt), string_of(&vt)));
                    assert(pair_views(fields@) =~= pair_views(f0).push((kt@, vt@)));
                },
                None => {
                    notes.push(string_of(&t));
                    assert(string_views(notes@) =~= string_views(n0).push(t@));
                },
            }
        }
        i += 1;
    }
    proof {
        if ls.len() > 0 {
            assert(i == ls.len());
            assert(body.len() == ls.len() - 1);
            assert(body.take(ls.len() - 1) =~= body);
            assert(body.take(i - 1) == body);
            assert(pair_views(fields@) == classify(body.take(i - 1)).0);
            assert(pair_views(fields@) == classify(body).0);
        } else {
            assert(views(ls@).len() == 0);
            assert(body =~= seq![]);
            assert(body.take(0) =~= body);
            assert(pair_views(fields@) == classify(body).0);
        }
        assert(pair_views(fields@) == classify(body).0);
    }
    DecryptedEntry { content: content.to_owned(), password, fields, notes }
}

/// Keys found by reading `ls` in order: the current key id and the keys so far.
pub open spec fn gpg_scan(ls: Seq<Seq<char>>) -> (Option<Seq<char>>, Seq<(Seq<char>, Seq<char>)>)
    decreases ls.len(),
{
    if ls.len() == 0 {
        (None, seq![])
    } else {
        let (current, keys) = gpg_scan(ls.drop_last());
        let parts = split(ls.last(), ':');
        if parts[0] == "sec"@ || parts[0] == "pub"@ {
            if parts.len() > 4 && parts[4].len() > 0 {
                (Some(parts[4]), keys)
            } else {
                (current, keys)
            }
        } else if parts[0] == "uid"@ {
            match current {
                Some(id) => if parts.len() > 9 && parts[9].len() > 0 {
                    (current, keys.push((id, parts[9])))
                } else {
                    (current, keys)
                },
                None => (current, keys),
            }
        } else {
            (current, keys)
        }
    }
}

pub proof fn lemma_split_nonempty(s: Seq<char>, c: char)
    ensures
        split(s, c).len() >= 1,
    decreases s.len(),
{
    match find_char(s, c) {
        Some(i) => {
            if i < s.len() {
                lemma_split_nonempty(s.skip(i + 1int), c);
            }
        },
        None => {},
    }
}

/// Parses the machine-readable colon format of `gpg --with-colons`.
pub fn parse_gpg_colons(content: &str) -> (r: Vec<GpgKey>)
    ensures
        key_views(r@) == gpg_scan(lines(content@)).1,
{
    let chars = to_chars(content);
    let ls = lines_exec(&chars);
    let mut keys: Vec<GpgKey> = Vec::new();
    let mut current: Option<Vec<char>> = None;
    let mut i: usize = 0;
    proof {
        assert(views(ls@).take(0) =~= seq![]);
    }
    while i < ls.len()
        invariant
            i <= ls.len(),
            views(ls@) == lines(content@),
            gpg_scan(views(ls@).take(i as int)).0 == match current {
                Some(c) => Some(c@),
                None => None::<Seq<char>>,
            },
            gpg_scan(views(ls@).take(i as int)).1 == key_views(keys@),
        decreases ls.len() - i,
    {
        let ghost k0 = keys@;
        let parts = split_exec(&ls[i], ':');
        proof {
            lemma_split_nonempty(ls@[i as int]@, ':');
            let pre = views(ls@).take(i + 1);
            assert(pre.drop_last() =~= views(ls@).take(i as int));
            assert(pre.last() == ls@[i as int]@);
        }
        if is(&parts[0], "sec") || is(&parts[0], "pub") {
            if parts.len() > 4 && parts[4].len() > 0 {
                current = Some(copy(&parts[4]));
            }
        } else if is(&parts[0], "uid") {
            match &current {
                Some(id) => {
                    if parts.len() > 9 && parts[9].len() > 0 {
                        keys.push(GpgKey { id: string_of(id), uid: string_of(&parts[9]) });
                        assert(key_views(keys@) =~= key_views(k0).push((id@, parts@[9]@)));
                    }
                },
                None => {},
            }
        }
        i += 1;
    }
    proof {
        assert(views(ls@).take(ls.len() as int) =~= views(ls@));
    }
    keys
}

} // verus!
