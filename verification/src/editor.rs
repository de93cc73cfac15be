use crate::pass::commands::DecryptedEntry;
use crate::pass::commands::lemma_split_nonempty;
use crate::recovery::{
    code_of, codes_of, content_codes, is_field, lemma_code_of_strip_cr, parse_line_chars,
};
use crate::text_input::{is_fresh, TextInput};
use crate::text::{
    append, eq_ignore_ascii_case, eq_ignore_ascii_case_exec, find_char, is, is_control, is_ctrl,
    join, join_push, lemma_find_char, lemma_join_push, lines, lines_exec, lowercase, split,
    split_exec, split_once, split_once_exec, string_of, strip_cr, to_chars, to_lowercase, trim,
    trim_end, trim_exec, trim_start, views,
};
use crate::text_facts::{
    gather, lacks, lemma_find_none, lemma_gather_join, lemma_gather_lines_break,
    lemma_gather_lines_split, lemma_gather_nothing, lemma_gather_one, lemma_lines_break,
    lemma_lines_lack_break, lemma_lines_one, lemma_split_lacks_break, lemma_split_once_at,
    lemma_trim_lacks, lemma_trim_space_front, lemma_trim_strip_cr,
    lemma_trim_twice, line_blind,
};
use vstd::prelude::*;

verus! {

/// The form that edits one entry: its fields apart from the password.
pub struct EntryEditor {
    pub inputs: [TextInput; 6],
    pub username: String,
    pub username_key: Option<String>,
    pub url: String,
    pub notes: String,
    pub recovery_codes: String,
    pub used_recovery_codes: String,
    pub editing_path: Option<String>,
    pub original_content: Option<String>,
}

/// Whether a lower-cased, trimmed key names the login of an entry.
pub open spec fn is_user_key(k: Seq<char>) -> bool {
    k == "username"@ || k == "login"@ || k == "user"@
}

/// What reading the lines `ls` of an entry's body finds: the login (value and key as
/// written), the URL, the remaining lines, the available and the used recovery codes.
pub open spec fn editor_scan(ls: Seq<Seq<char>>) -> (
    Option<(Seq<char>, Seq<char>)>,
    Option<Seq<char>>,
    Seq<Seq<char>>,
    Seq<Seq<char>>,
    Seq<Seq<char>>,
)
    decreases ls.len(),
{
    if ls.len() == 0 {
        (None, None, seq![], seq![], seq![])
    } else {
        let (user, url, rest, avail, used) = editor_scan(ls.drop_last());
        let line = ls.last();
        match code_of(line) {
            Some((v, u)) => if u {
                (user, url, rest, avail, used.push(v))
            } else {
                (user, url, rest, avail.push(v), used)
            },
            None => match split_once(line, ':') {
                Some((k, v)) => if user is None && is_user_key(lowercase(trim(k))) {
                    (Some((trim(v), k)), url, rest, avail, used)
                } else if url is None && eq_ignore_ascii_case(trim(k), "url"@) {
                    (user, Some(trim(v)), rest, avail, used)
                } else {
                    (user, url, rest.push(line), avail, used)
                },
                None => (user, url, rest.push(line), avail, used),
            },
        }
    }
}

/// The lines after the password line of an entry's content, split at every `\n`.
pub open spec fn body_of(content: Seq<char>) -> Seq<Seq<char>> {
    match split_once(content, '\n') {
        Some((_, body)) => split(body, '\n'),
        None => split(seq![], '\n'),
    }
}

/// The saved lines for the recovery codes `ls` under `key`: one per non-blank line.
pub open spec fn code_lines(key: Seq<char>, ls: Seq<Seq<char>>) -> Seq<char>
    decreases ls.len(),
{
    if ls.len() == 0 {
        seq![]
    } else {
        let t = trim(ls.last());
        code_lines(key, ls.drop_last()) + if t.len() > 0 {
            "\n"@ + key + ": "@ + t
        } else {
            seq![]
        }
    }
}

/// The content that the editor saves for `password`.
pub open spec fn editor_content(
    password: Seq<char>,
    username: Seq<char>,
    key: Option<Seq<char>>,
    url: Seq<char>,
    notes: Seq<char>,
    codes: Seq<char>,
    used: Seq<char>,
) -> Seq<char> {
    password + (if username.len() > 0 {
        "\n"@ + (match key {
            Some(k) => k,
            None => "username"@,
        }) + ": "@ + username
    } else {
        seq![]
    }) + (if url.len() > 0 {
        "\nurl: "@ + url
    } else {
        seq![]
    }) + (if notes.len() > 0 {
        "\n"@ + notes
    } else {
        seq![]
    }) + code_lines("recovery-code"@, lines(codes)) + code_lines(
        "recovery-code-used"@,
        lines(used),
    )
}

/// Saving a form keeps what it holds: the content starts with the password and then
/// the login line (when there is a login), and holds the notes, unchanged, on lines of
/// their own.
pub proof fn lemma_saved_content_keeps_fields(
    password: Seq<char>,
    username: Seq<char>,
    key: Option<Seq<char>>,
    url: Seq<char>,
    notes: Seq<char>,
    codes: Seq<char>,
    used: Seq<char>,
)
    ensures
        ({
            let c = editor_content(password, username, key, url, notes, codes, used);
            let login = "\n"@ + (match key {
                Some(k) => k,
                None => "username"@,
            }) + ": "@ + username;
            &&& username.len() > 0 ==> crate::text::starts_with(c, password + login)
            &&& username.len() == 0 ==> crate::text::starts_with(c, password)
            &&& notes.len() > 0 ==> crate::text::contains_seq(c, "\n"@ + notes)
        }),
{
    let c = editor_content(password, username, key, url, notes, codes, used);
    let login = "\n"@ + (match key {
        Some(k) => k,
        None => "username"@,
    }) + ": "@ + username;
    let user_part = if username.len() > 0 {
        login
    } else {
        seq![]
    };
    let url_part = if url.len() > 0 {
        "\nurl: "@ + url
    } else {
        seq![]
    };
    let note_part = if notes.len() > 0 {
        "\n"@ + notes
    } else {
        seq![]
    };
    let tail = code_lines("recovery-code"@, lines(codes)) + code_lines(
        "recovery-code-used"@,
        lines(used),
    );
    assert(c =~= password + user_part + url_part + note_part + tail);
    let head = password + user_part;
    assert(c.take(head.len() as int) =~= head);
    assert(c.take(password.len() as int) =~= password);
    if notes.len() > 0 {
        let at = (password + user_part + url_part).len() as int;
        assert(c.subrange(at, at + note_part.len()) =~= note_part);
    }
}

/// The six input fields of a new form, none of them touched.
fn fresh_inputs() -> (r: [TextInput; 6])
    ensures
        forall|i: int| 0 <= i < 6 ==> is_fresh(#[trigger] r[i]@),
{
    [TextInput::new(), TextInput::new(), TextInput::new(), TextInput::new(), TextInput::new(), TextInput::new()]
}

impl EntryEditor {
    /// The key under which the login is saved, as the entry wrote it.
    pub open spec fn key(&self) -> Option<Seq<char>> {
        match self.username_key {
            Some(k) => Some(k@),
            None => None,
        }
    }

    /// The used recovery codes, one per line.
    pub open spec fn used_codes(&self) -> Seq<char> {
        self.used_recovery_codes@
    }

    /// An empty form.
    pub fn new() -> (r: Self)
        ensures
            r.username@.len() == 0,
            r.key() is None,
            r.url@.len() == 0,
            r.notes@.len() == 0,
            r.recovery_codes@.len() == 0,
            r.used_codes().len() == 0,
            r.editing_path is None,
            r.original_content is None,
            forall|i: int| 0 <= i < 6 ==> is_fresh(#[trigger] r.inputs[i]@),
    {
        EntryEditor {
            inputs: fresh_inputs(),
            username: String::new(),
            username_key: None,
            url: String::new(),
            notes: String::new(),
            recovery_codes: String::new(),
            used_recovery_codes: String::new(),
            editing_path: None,
            original_content: None,
        }
    }

    /// Empties the form, wiping every text it held and every step of its fields'
    /// histories.
    pub fn discard(&mut self)
        ensures
            final(self).username@.len() == 0,
            final(self).key() is None,
            final(self).url@.len() == 0,
            final(self).notes@.len() == 0,
            final(self).recovery_codes@.len() == 0,
            final(self).used_codes().len() == 0,
            final(self).editing_path is None,
            final(self).original_content is None,
            forall|i: int| 0 <= i < 6 ==> is_fresh(#[trigger] final(self).inputs[i]@),
    {
        crate::text::wipe(&mut self.username);
        crate::text::wipe(&mut self.url);
        crate::text::wipe(&mut self.notes);
        crate::text::wipe(&mut self.recovery_codes);
        crate::text::wipe(&mut self.used_recovery_codes);
        if let Some(mut c) = self.original_content.take() {
            crate::text::wipe(&mut c);
        }
        self.username_key = None;
        self.editing_path = None;
        self.inputs[0].reset();
        self.inputs[1].reset();
        self.inputs[2].reset();
        self.inputs[3].reset();
        self.inputs[4].reset();
        self.inputs[5].reset();
    }

    /// The form for editing the entry at `path`.
    pub fn from_entry(path: String, entry: &DecryptedEntry) -> (r: Self)
        ensures
            r.editing_path == Some(path),
            r.original_content matches Some(c) && c@ == entry.content@,
            ({
                let (user, url, rest, avail, used) = editor_scan(body_of(entry.content@));
                &&& r.username@ == match user {
                    Some((v, _)) => v,
                    None => Seq::<char>::empty(),
                }
                &&& r.key() == match user {
                    Some((_, k)) => Some(k),
                    None => None::<Seq<char>>,
                }
                &&& r.url@ == match url {
                    Some(u) => u,
                    None => Seq::<char>::empty(),
                }
                &&& r.notes@ == join(rest, "\n"@)
                &&& r.recovery_codes@ == join(avail, "\n"@)
                &&& r.used_codes() == join(used, "\n"@)
            }),
    {
        let content = to_chars(entry.content.as_str());
        let body = match split_once_exec(&content, '\n') {
            Some((_, b)) => b,
            None => Vec::new(),
        };
        let ls = split_exec(&body, '\n');
        let ghost sls = views(ls@);
        let nl = to_chars("\n");
        let mut user: Option<(Vec<char>, Vec<char>)> = None;
        let mut url: Option<Vec<char>> = None;
        let mut notes: Vec<char> = Vec::new();
        let mut n_rest: usize = 0;
        let mut avail: Vec<char> = Vec::new();
        let mut n_avail: usize = 0;
        let mut used: Vec<char> = Vec::new();
        let mut n_used: usize = 0;
        let mut i: usize = 0;
        assert(sls.take(0) =~= seq![]);
        while i < ls.len()
            invariant
                i <= ls.len(),
                sls == views(ls@),
                sls == body_of(entry.content@),
                nl@ == "\n"@,
                ({
                    let (u0, url0, rest0, avail0, used0) = editor_scan(sls.take(i as int));
                    &&& u0 == match user {
                        Some((v, k)) => Some((v@, k@)),
                        None => None::<(Seq<char>, Seq<char>)>,
                    }
                    &&& url0 == match url {
                        Some(x) => Some(x@),
                        None => None::<Seq<char>>,
                    }
                    &&& rest0.len() == n_rest && notes@ == join(rest0, "\n"@)
                    &&& avail0.len() == n_avail && avail@ == join(avail0, "\n"@)
                    &&& used0.len() == n_used && used@ == join(used0, "\n"@)
                }),
                n_rest <= i,
                n_avail <= i,
                n_used <= i,
            decreases ls.len() - i,
        {
            let line = &ls[i];
            let ghost pre = sls.take(i as int);
            let ghost st = editor_scan(pre);
            proof {
                assert(sls.take(i + 1).drop_last() =~= pre);
                assert(sls.take(i + 1).last() == line@);
                lemma_join_push(st.2, line@, "\n"@);
                if let Some((v, _)) = code_of(line@) {
                    lemma_join_push(st.3, v, "\n"@);
                    lemma_join_push(st.4, v, "\n"@);
                }
            }
            match parse_line_chars(line) {
                Some(code) => {
                    let v = to_chars(code.value.as_str());
                    if code.used {
                        join_push(&mut used, n_used, &v, &nl);
                        n_used += 1;
                    } else {
                        join_push(&mut avail, n_avail, &v, &nl);
                        n_avail += 1;
                    }
                },
                None => {
                    let mut kept = true;
                    match split_once_exec(line, ':') {
                        Some((k, v)) => {
                            let tk = trim_exec(&k);
                            if user.is_none() {
                                let lk = to_chars(to_lowercase(string_of(&tk).as_str()).as_str());
                                if is(&lk, "username") || is(&lk, "login") || is(&lk, "user") {
                                    user = Some((trim_exec(&v), k));
                                    kept = false;
                                }
                            }
                            if kept && url.is_none() && eq_ignore_ascii_case_exec(
                                &tk,
                                &to_chars("url"),
                            ) {
                                url = Some(trim_exec(&v));
                                kept = false;
                            }
                        },
                        None => {},
                    }
                    if kept {
                        join_push(&mut notes, n_rest, line, &nl);
                        n_rest += 1;
                    }
                },
            }
            i += 1;
        }
        assert(sls.take(ls.len() as int) =~= sls);
        let (username, username_key) = match user {
            Some((v, k)) => (string_of(&v), Some(string_of(&k))),
            None => (String::new(), None),
        };
        let url_s = match url {
            Some(x) => string_of(&x),
            None => String::new(),
        };
        EntryEditor {
            inputs: fresh_inputs(),
            username,
            username_key,
            url: url_s,
            notes: string_of(&notes),
            recovery_codes: string_of(&avail),
            used_recovery_codes: string_of(&used),
            editing_path: Some(path),
            original_content: Some(entry.content.clone()),
        }
    }

    /// The content to save for `password`: the password line, then the login, the URL,
    /// the notes, and one line per recovery code.
    pub fn content(&self, password: &str) -> (r: String)
        ensures
            r@ == editor_content(
                password@,
                self.username@,
                self.key(),
                self.url@,
                self.notes@,
                self.recovery_codes@,
                self.used_codes(),
            ),
    {
        let mut c = to_chars(password);
        let user = to_chars(self.username.as_str());
        if user.len() > 0 {
            append(&mut c, &to_chars("\n"));
            match &self.username_key {
                Some(k) => append(&mut c, &to_chars(k.as_str())),
                None => append(&mut c, &to_chars("username")),
            }
            append(&mut c, &to_chars(": "));
            append(&mut c, &user);
        }
        let url = to_chars(self.url.as_str());
        if url.len() > 0 {
            append(&mut c, &to_chars("\nurl: "));
            append(&mut c, &url);
        }
        let notes = to_chars(self.notes.as_str());
        if notes.len() > 0 {
            append(&mut c, &to_chars("\n"));
            append(&mut c, &notes);
        }
        let ghost head = c@;
        let a = code_block("recovery-code", &self.recovery_codes);
        let b = code_block("recovery-code-used", &self.used_recovery_codes);
        append(&mut c, &a);
        append(&mut c, &b);
        proof {
            let u = self.username@;
            assert(c@ =~= editor_content(
                password@,
                self.username@,
                self.key(),
                self.url@,
                self.notes@,
                self.recovery_codes@,
                self.used_codes(),
            ));
        }
        string_of(&c)
    }
}

/// The saved lines for the codes in `codes` under `key`.
fn code_block(key: &str, codes: &String) -> (r: Vec<char>)
    ensures
        r@ == code_lines(key@, lines(codes@)),
{
    let ls = lines_exec(&to_chars(codes.as_str()));
    let ghost sls = views(ls@);
    let k = to_chars(key);
    let mut out: Vec<char> = Vec::new();
    let mut i: usize = 0;
    assert(sls.take(0) =~= seq![]);
    while i < ls.len()
        invariant
            i <= ls.len(),
            sls == views(ls@),
            k@ == key@,
            out@ == code_lines(key@, sls.take(i as int)),
        decreases ls.len() - i,
    {
        let t = trim_exec(&ls[i]);
        proof {
            assert(sls.take(i + 1).drop_last() =~= sls.take(i as int));
            assert(sls.take(i + 1).last() == ls@[i as int]@);
        }
        let ghost before = out@;
        if t.len() > 0 {
            append(&mut out, &to_chars("\n"));
            append(&mut out, &k);
            append(&mut out, &to_chars(": "));
            append(&mut out, &t);
            assert(out@ =~= before + ("\n"@ + key@ + ": "@ + t@));
        } else {
            assert(out@ =~= before + seq![]);
        }
        i += 1;
    }
    assert(sls.take(ls.len() as int) =~= sls);
    out
}

/// Whether `name` is a relative path whose every component is a plain name, as
/// `std::path::Path::components` splits it on `/`: no root, no `..` anywhere, and no
/// leading `.` component.
pub open spec fn plain_components(name: Seq<char>) -> bool {
    let segs = split(name, '/');
    &&& !(name.len() > 0 && name[0] == '/')
    &&& forall|i: int| 0 <= i < segs.len() ==> #[trigger] segs[i] != ".."@
    &&& segs[0] != "."@
}

/// Whether `name` can name an entry inside the store.
pub open spec fn is_valid_path(name: Seq<char>) -> bool {
    &&& trim(name).len() > 0
    &&& !(name.len() > 0 && name[0] == '-')
    &&& forall|i: int| 0 <= i < name.len() ==> !is_ctrl(#[trigger] name[i])
    &&& plain_components(name)
}

pub fn valid_path_chars(v: &Vec<char>) -> (r: bool)
    ensures
        r == is_valid_path(v@),
{
    let t = trim_exec(v);
    if t.len() == 0 {
        return false;
    }
    if v.len() > 0 && v[0] == '-' {
        return false;
    }
    let mut i: usize = 0;
    while i < v.len()
        invariant
            i <= v.len(),
            forall|j: int| 0 <= j < i ==> !is_ctrl(#[trigger] v@[j]),
        decreases v.len() - i,
    {
        if is_control(v[i]) {
            return false;
        }
        i += 1;
    }
    if v.len() > 0 && v[0] == '/' {
        return false;
    }
    let segs = split_exec(v, '/');
    proof {
        lemma_split_nonempty(v@, '/');
    }
    if is(&segs[0], ".") {
        return false;
    }
    let mut k: usize = 0;
    while k < segs.len()
        invariant
            k <= segs.len(),
            views(segs@) == split(v@, '/'),
            forall|j: int| 0 <= j < k ==> #[trigger] views(segs@)[j] != ".."@,
        decreases segs.len() - k,
    {
        if is(&segs[k], "..") {
            assert(views(segs@)[k as int] == ".."@);
            return false;
        }
        k += 1;
    }
    true
}

pub fn valid_path(name: &str) -> (r: bool)
    ensures
        r == is_valid_path(name@),
{
    valid_path_chars(&to_chars(name))
}

/// What saving the entry form leads to: the entry path it saves to (the name trimmed),
/// or why it cannot be saved. `editing` is the path of the entry being edited, and
/// `exists` whether an entry already stands at the trimmed name.
pub open spec fn submit_outcome(
    name: Seq<char>,
    password: Seq<char>,
    editing: Option<Seq<char>>,
    exists: bool,
) -> Result<Seq<char>, Seq<char>> {
    let path = trim(name);
    if path.len() == 0 || password.len() == 0 {
        Err("Name and password are required"@)
    } else if !is_valid_path(path) {
        Err("Use a relative entry path, such as Work/github."@)
    } else {
        match editing {
            Some(original) => if original != path {
                Err("Use r from the entry list to rename or move an entry."@)
            } else {
                Ok(path)
            },
            None => if exists {
                Err("This entry already exists. Choose a different name."@)
            } else {
                Ok(path)
            },
        }
    }
}

pub open spec fn result_view(r: Result<String, String>) -> Result<Seq<char>, Seq<char>> {
    match r {
        Ok(v) => Ok(v@),
        Err(e) => Err(e@),
    }
}

/// Checks the entry form before saving: the entry path to save to, or the error to show.
pub fn submit_check(name: &str, password: &str, editing: &Option<String>, exists: bool) -> (r: Result<
    String,
    String,
>)
    ensures
        result_view(r) == submit_outcome(
            name@,
            password@,
            match editing {
                Some(p) => Some(p@),
                None => None,
            },
            exists,
        ),
{
    let path = trim_exec(&to_chars(name));
    if path.len() == 0 || password.is_empty() {
        return Err("Name and password are required".to_owned());
    }
    if !valid_path_chars(&path) {
        return Err("Use a relative entry path, such as Work/github.".to_owned());
    }
    match editing {
        Some(original) => {
            if !crate::text::eq(&to_chars(original.as_str()), &path) {
                return Err("Use r from the entry list to rename or move an entry.".to_owned());
            }
        },
        None => {
            if exists {
                return Err("This entry already exists. Choose a different name.".to_owned());
            }
        },
    }
    Ok(string_of(&path))
}

/// What moving an entry to `destination` leads to: the trimmed destination, or why
/// the move is refused. `exists` is whether an entry or folder already stands there.
pub open spec fn rename_outcome(destination: Seq<char>, exists: bool) -> Result<Seq<char>, Seq<char>> {
    let path = trim(destination);
    if !is_valid_path(path) {
        Err("Use a relative path, such as Work/github."@)
    } else if exists {
        Err("The destination already exists. Choose another path."@)
    } else {
        Ok(path)
    }
}

/// Checks a rename before the move: the path to move to, or the error to show.
pub fn rename_check(destination: &str, exists: bool) -> (r: Result<String, String>)
    ensures
        result_view(r) == rename_outcome(destination@, exists),
{
    let path = trim_exec(&to_chars(destination));
    if !valid_path_chars(&path) {
        return Err("Use a relative path, such as Work/github.".to_owned());
    }
    if exists {
        return Err("The destination already exists. Choose another path.".to_owned());
    }
    Ok(string_of(&path))
}

/// Whether an entry may be overwritten with the form's content: only while it still
/// holds what the form was opened on.
pub fn unchanged_check(original: &str, current: &str) -> (r: Result<(), String>)
    ensures
        r is Ok <==> original@ == current@,
        r matches Err(e) ==> e@ == "Entry changed since editing began. Cancel and reopen it before saving."@,
{
    if crate::text::eq(&to_chars(original), &to_chars(current)) {
        Ok(())
    } else {
        Err("Entry changed since editing began. Cancel and reopen it before saving.".to_owned())
    }
}

// ---------------------------------------------------------------------
// Recovery codes through the editor
// ---------------------------------------------------------------------
/// The recovery code that a line holds, as none or one.
pub open spec fn line_code(l: Seq<char>) -> Seq<(Seq<char>, bool)> {
    match code_of(l) {
        Some(c) => seq![c],
        None => seq![],
    }
}

/// Reading each line for the recovery code it holds.
pub open spec fn line_codes() -> spec_fn(Seq<char>) -> Seq<(Seq<char>, bool)> {
    |l: Seq<char>| line_code(l)
}

/// The code that a line of the form's code field becomes, with the mark `used`.
pub open spec fn entered_code(used: bool) -> spec_fn(Seq<char>) -> Seq<(Seq<char>, bool)> {
    |l: Seq<char>|
        if trim(l).len() > 0 {
            seq![(trim(l), used)]
        } else {
            seq![]
        }
}

/// Each of the codes `vs` with the mark `used`.
pub open spec fn marked(vs: Seq<Seq<char>>, used: bool) -> Seq<(Seq<char>, bool)> {
    vs.map_values(|v: Seq<char>| (v, used))
}

/// A code as the form holds it: one line, trimmed, not empty.
pub open spec fn settled(v: Seq<char>) -> bool {
    lacks(v, '\n') && trim(v) == v && v.len() > 0
}

/// The codes on the lines of a part of saved content that is empty or starts a new line.
pub open spec fn tail_codes(t: Seq<char>) -> Seq<(Seq<char>, bool)> {
    if t.len() == 0 {
        seq![]
    } else {
        gather(lines(t.drop_first()), line_codes())
    }
}

/// Empty, or starting with a line break.
pub open spec fn starts_line(t: Seq<char>) -> bool {
    t.len() == 0 || t[0] == '\n'
}

proof fn lemma_codes_of_gather(ls: Seq<Seq<char>>)
    ensures
        codes_of(ls) == gather(ls, line_codes()),
    decreases ls.len(),
{
    if ls.len() > 0 {
        lemma_codes_of_gather(ls.drop_last());
        match code_of(ls.last()) {
            Some(c) => {
                assert(codes_of(ls.drop_last()).push(c) =~= codes_of(ls.drop_last()) + seq![c]);
            },
            None => {
                assert(codes_of(ls.drop_last()) + Seq::<(Seq<char>, bool)>::empty() =~= codes_of(
                    ls.drop_last(),
                ));
            },
        }
    }
}

#[verifier::spinoff_prover]
proof fn lemma_line_codes_blind()
    ensures
        line_blind(line_codes()),
{
    assert(line_code(Seq::<char>::empty()) =~= Seq::<(Seq<char>, bool)>::empty());
    assert forall|l: Seq<char>| #[trigger] line_codes()(strip_cr(l)) == line_codes()(l) by {
        lemma_code_of_strip_cr(l);
    }
}

proof fn lemma_entered_blind(used: bool)
    ensures
        line_blind(entered_code(used)),
{
    assert(trim(Seq::<char>::empty()) =~= Seq::<char>::empty());
    assert(entered_code(used)(Seq::<char>::empty()) =~= Seq::<(Seq<char>, bool)>::empty());
    assert forall|l: Seq<char>| #[trigger] entered_code(used)(strip_cr(l)) == entered_code(used)(l) by {
        lemma_trim_strip_cr(l);
    }
}

proof fn lemma_tail_concat(a: Seq<char>, b: Seq<char>)
    requires
        starts_line(a),
        starts_line(b),
    ensures
        starts_line(a + b),
        tail_codes(a + b) == tail_codes(a) + tail_codes(b),
{
    if a.len() == 0 {
        assert(a + b =~= b);
        assert(tail_codes(a) + tail_codes(b) =~= tail_codes(b));
    } else if b.len() == 0 {
        assert(a + b =~= a);
        assert(tail_codes(a) + tail_codes(b) =~= tail_codes(a));
    } else {
        assert((a + b)[0] == a[0]);
        assert(b =~= seq!['\n'] + b.drop_first());
        assert((a + b).drop_first() =~= a.drop_first() + seq!['\n'] + b.drop_first());
        lemma_line_codes_blind();
        lemma_gather_lines_break(a.drop_first(), b.drop_first(), line_codes());
    }
}

/// The codes of saved content are those of its part after the password line.
proof fn lemma_content_codes(p: Seq<char>, t: Seq<char>)
    requires
        lacks(p, '\n'),
        starts_line(t),
    ensures
        content_codes(p + t) == tail_codes(t),
{
    if t.len() == 0 {
        assert(p + t =~= p);
        lemma_lines_one(p);
        if p.len() > 0 {
            assert(seq![p].drop_first() =~= Seq::<Seq<char>>::empty());
        }
    } else {
        assert(t =~= seq!['\n'] + t.drop_first());
        assert(p + t =~= p + seq!['\n'] + t.drop_first());
        lemma_lines_break(p, t.drop_first());
        assert((seq![strip_cr(p)] + lines(t.drop_first())).drop_first() =~= lines(t.drop_first()));
        lemma_codes_of_gather(lines(t.drop_first()));
    }
}

/// A part made of a line break and one line gives the code of that line.
proof fn lemma_tail_line(w: Seq<char>)
    requires
        lacks(w, '\n'),
    ensures
        starts_line(seq!['\n'] + w),
        tail_codes(seq!['\n'] + w) == line_code(w),
{
    assert((seq!['\n'] + w).drop_first() =~= w);
    lemma_lines_one(w);
    if w.len() == 0 {
        assert(w =~= Seq::<char>::empty());
        assert(line_code(w) =~= Seq::<(Seq<char>, bool)>::empty());
    } else {
        lemma_gather_one(w, line_codes());
    }
}

/// A saved code line under `key` gives back the code with its mark.
#[verifier::spinoff_prover]
proof fn lemma_code_line(key: Seq<char>, t: Seq<char>, used: bool)
    requires
        (key == "recovery-code"@ && !used) || (key == "recovery-code-used"@ && used),
        trim(t) == t,
        t.len() > 0,
    ensures
        line_code(key + ": "@ + t) == seq![(t, used)],
{
    reveal_strlit("recovery-code");
    reveal_strlit("recovery-code-used");
    reveal_strlit(": ");
    assert(key + ": "@ + t =~= key + seq![':'] + (seq![' '] + t));
    assert(lacks(key, ':'));
    lemma_split_once_at(key, ':', seq![' '] + t);
    lemma_trim_space_front(' ', t);
    assert(trim_start(key) == key);
    assert(trim_end(key) == key);
    assert(trim(key) == key);
    assert(eq_ignore_ascii_case(key, key));
}

/// A login line whose key is no recovery key holds no code.
proof fn lemma_login_line(k: Seq<char>, u: Seq<char>)
    requires
        lacks(k, ':'),
        !is_field(k),
    ensures
        line_code(k + ": "@ + u).len() == 0,
{
    reveal_strlit(": ");
    assert(k + ": "@ + u =~= k + seq![':'] + (seq![' '] + u));
    lemma_split_once_at(k, ':', seq![' '] + u);
}

/// The URL line holds no code.
proof fn lemma_url_line(url: Seq<char>)
    ensures
        line_code("url: "@ + url).len() == 0,
{
    reveal_strlit("url: ");
    reveal_strlit("recovery-code");
    reveal_strlit("recovery-code-used");
    let key = seq!['u', 'r', 'l'];
    assert("url: "@ + url =~= key + seq![':'] + (seq![' '] + url));
    lemma_split_once_at(key, ':', seq![' '] + url);
    assert(trim_start(key) == key);
    assert(trim_end(key) == key);
    assert(!is_field(key));
}

/// The line that the form saves for one line `l` of its code field under `key`.
spec fn code_piece(key: Seq<char>, l: Seq<char>) -> Seq<char> {
    if trim(l).len() > 0 {
        "\n"@ + key + ": "@ + trim(l)
    } else {
        seq![]
    }
}

proof fn lemma_code_piece(key: Seq<char>, l: Seq<char>, used: bool)
    requires
        (key == "recovery-code"@ && !used) || (key == "recovery-code-used"@ && used),
        lacks(l, '\n'),
    ensures
        starts_line(code_piece(key, l)),
        tail_codes(code_piece(key, l)) == entered_code(used)(l),
{
    reveal_strlit("\n");
    reveal_strlit(": ");
    reveal_strlit("recovery-code");
    reveal_strlit("recovery-code-used");
    let t = trim(l);
    if t.len() > 0 {
        lemma_trim_lacks(l, '\n');
        lemma_trim_twice(l);
        let w = key + ": "@ + t;
        assert(lacks(w, '\n'));
        assert(code_piece(key, l) =~= seq!['\n'] + w);
        lemma_tail_line(w);
        lemma_code_line(key, t, used);
    } else {
        assert(tail_codes(code_piece(key, l)) =~= Seq::<(Seq<char>, bool)>::empty());
        assert(entered_code(used)(l) =~= Seq::<(Seq<char>, bool)>::empty());
    }
}

/// The lines that the form saves for its code field `ls` under `key` give each
/// non-blank line, trimmed, with the key's mark.
#[verifier::spinoff_prover]
proof fn lemma_code_lines(key: Seq<char>, ls: Seq<Seq<char>>, used: bool)
    requires
        (key == "recovery-code"@ && !used) || (key == "recovery-code-used"@ && used),
        forall|i: int| 0 <= i < ls.len() ==> lacks(#[trigger] ls[i], '\n'),
    ensures
        starts_line(code_lines(key, ls)),
        tail_codes(code_lines(key, ls)) == gather(ls, entered_code(used)),
    decreases ls.len(),
{
    if ls.len() > 0 {
        let init = ls.drop_last();
        assert forall|i: int| 0 <= i < init.len() implies lacks(#[trigger] init[i], '\n') by {
            assert(init[i] == ls[i]);
        }
        lemma_code_lines(key, init, used);
        assert(lacks(ls[ls.len() - 1], '\n'));
        lemma_code_piece(key, ls.last(), used);
        assert(code_lines(key, ls) == code_lines(key, init) + code_piece(key, ls.last()));
        lemma_tail_concat(code_lines(key, init), code_piece(key, ls.last()));
    }
}

proof fn lemma_marked(vs: Seq<Seq<char>>, used: bool)
    requires
        forall|i: int| 0 <= i < vs.len() ==> settled(#[trigger] vs[i]),
    ensures
        gather(vs, entered_code(used)) == marked(vs, used),
    decreases vs.len(),
{
    if vs.len() > 0 {
        let init = vs.drop_last();
        assert forall|i: int| 0 <= i < init.len() implies settled(#[trigger] init[i]) by {
            assert(init[i] == vs[i]);
        }
        lemma_marked(init, used);
        assert(settled(vs[vs.len() - 1]));
        assert(marked(vs, used) =~= marked(init, used) + seq![(vs.last(), used)]);
    } else {
        assert(marked(vs, used) =~= Seq::<(Seq<char>, bool)>::empty());
    }
}

/// The codes the form read, saved one per line under `key`, come back with the mark.
proof fn lemma_saved_codes(key: Seq<char>, vs: Seq<Seq<char>>, used: bool)
    requires
        (key == "recovery-code"@ && !used) || (key == "recovery-code-used"@ && used),
        forall|i: int| 0 <= i < vs.len() ==> settled(#[trigger] vs[i]),
    ensures
        starts_line(code_lines(key, lines(join(vs, "\n"@)))),
        tail_codes(code_lines(key, lines(join(vs, "\n"@)))) == marked(vs, used),
{
    reveal_strlit("\n");
    assert("\n"@ =~= seq!['\n']);
    let ls = lines(join(vs, "\n"@));
    lemma_lines_lack_break(join(vs, "\n"@));
    lemma_code_lines(key, ls, used);
    lemma_entered_blind(used);
    assert forall|i: int| 0 <= i < vs.len() implies lacks(#[trigger] vs[i], '\n') by {
        assert(settled(vs[i]));
    }
    lemma_gather_join(vs, entered_code(used));
    lemma_marked(vs, used);
}

/// The notes the form read hold no code once saved.
proof fn lemma_saved_notes(rest: Seq<Seq<char>>)
    requires
        forall|i: int| 0 <= i < rest.len() ==> lacks(#[trigger] rest[i], '\n') && code_of(rest[i]) is None,
    ensures
        ({
            let notes = join(rest, "\n"@);
            let part = if notes.len() > 0 {
                "\n"@ + notes
            } else {
                seq![]
            };
            starts_line(part) && tail_codes(part).len() == 0
        }),
{
    reveal_strlit("\n");
    assert("\n"@ =~= seq!['\n']);
    let notes = join(rest, "\n"@);
    if notes.len() > 0 {
        assert(("\n"@ + notes).drop_first() =~= notes);
        lemma_line_codes_blind();
        lemma_gather_join(rest, line_codes());
        assert forall|i: int| 0 <= i < rest.len() implies #[trigger] line_codes()(rest[i]).len() == 0 by {
            assert(code_of(rest[i]) is None);
        }
        lemma_gather_nothing(rest, line_codes());
    }
}

/// What the form reads from lines without line breaks: the login and URL are one line
/// each, and the login key holds no colon and, when it has a value, names no recovery
/// code; the remaining lines hold no code; the codes are trimmed and not empty.
#[verifier::spinoff_prover]
proof fn lemma_scan_facts(ls: Seq<Seq<char>>)
    requires
        forall|i: int| 0 <= i < ls.len() ==> lacks(#[trigger] ls[i], '\n'),
    ensures
        ({
            let (user, url, rest, avail, used) = editor_scan(ls);
            &&& (user matches Some((u, k)) ==> lacks(u, '\n') && lacks(k, '\n') && lacks(k, ':') && (
            u.len() > 0 ==> !is_field(k)))
            &&& (url matches Some(v) ==> lacks(v, '\n'))
            &&& forall|i: int|
                0 <= i < rest.len() ==> lacks(#[trigger] rest[i], '\n') && code_of(rest[i]) is None
            &&& forall|i: int| 0 <= i < avail.len() ==> settled(#[trigger] avail[i])
            &&& forall|i: int| 0 <= i < used.len() ==> settled(#[trigger] used[i])
        }),
    decreases ls.len(),
{
    if ls.len() > 0 {
        let init = ls.drop_last();
        assert forall|i: int| 0 <= i < init.len() implies lacks(#[trigger] init[i], '\n') by {
            assert(init[i] == ls[i]);
        }
        lemma_scan_facts(init);
        let (user, url, rest, avail, used) = editor_scan(init);
        let line = ls.last();
        assert(lacks(ls[ls.len() - 1], '\n'));
        lemma_find_char(line, ':');
        match find_char(line, ':') {
            Some(i) => {
                let k = line.take(i as int);
                let v = line.skip(i + 1int);
                assert(lacks(k, ':'));
                assert(lacks(k, '\n'));
                assert(lacks(v, '\n'));
                lemma_trim_lacks(v, '\n');
                lemma_trim_twice(v);
                match code_of(line) {
                    Some((c, u)) => {
                        assert(settled(c));
                        if u {
                            assert forall|j: int| 0 <= j < used.push(c).len() implies settled(
                                #[trigger] used.push(c)[j],
                            ) by {
                                if j < used.len() {
                                    assert(used.push(c)[j] == used[j]);
                                }
                            }
                        } else {
                            assert forall|j: int| 0 <= j < avail.push(c).len() implies settled(
                                #[trigger] avail.push(c)[j],
                            ) by {
                                if j < avail.len() {
                                    assert(avail.push(c)[j] == avail[j]);
                                }
                            }
                        }
                    },
                    None => {
                        assert forall|j: int| 0 <= j < rest.push(line).len() implies lacks(
                            #[trigger] rest.push(line)[j],
                            '\n',
                        ) && code_of(rest.push(line)[j]) is None by {
                            if j < rest.len() {
                                assert(rest.push(line)[j] == rest[j]);
                            }
                        }
                    },
                }
            },
            None => {
                assert forall|j: int| 0 <= j < rest.push(line).len() implies lacks(
                    #[trigger] rest.push(line)[j],
                    '\n',
                ) && code_of(rest.push(line)[j]) is None by {
                    if j < rest.len() {
                        assert(rest.push(line)[j] == rest[j]);
                    }
                }
            },
        }
    }
}

spec fn login_part(username: Seq<char>, key: Option<Seq<char>>) -> Seq<char> {
    if username.len() > 0 {
        "\n"@ + (match key {
            Some(k) => k,
            None => "username"@,
        }) + ": "@ + username
    } else {
        seq![]
    }
}

spec fn url_part(address: Seq<char>) -> Seq<char> {
    if address.len() > 0 {
        "\nurl: "@ + address
    } else {
        seq![]
    }
}

spec fn note_part(notes: Seq<char>) -> Seq<char> {
    if notes.len() > 0 {
        "\n"@ + notes
    } else {
        seq![]
    }
}

proof fn lemma_content_shape(
    password: Seq<char>,
    username: Seq<char>,
    key: Option<Seq<char>>,
    address: Seq<char>,
    notes: Seq<char>,
    codes: Seq<char>,
    used: Seq<char>,
)
    ensures
        editor_content(password, username, key, address, notes, codes, used) == password + (
        login_part(username, key) + (url_part(address) + (note_part(notes) + (code_lines(
            "recovery-code"@,
            lines(codes),
        ) + code_lines("recovery-code-used"@, lines(used)))))),
{
    assert(editor_content(password, username, key, address, notes, codes, used) =~= password + (
    login_part(username, key) + (url_part(address) + (note_part(notes) + (code_lines(
        "recovery-code"@,
        lines(codes),
    ) + code_lines("recovery-code-used"@, lines(used)))))));
}

proof fn lemma_login_part(username: Seq<char>, k: Seq<char>)
    requires
        lacks(username, '\n'),
        lacks(k, '\n'),
        lacks(k, ':'),
        username.len() > 0 ==> !is_field(k),
    ensures
        starts_line(login_part(username, Some(k))),
        tail_codes(login_part(username, Some(k))).len() == 0,
{
    if username.len() > 0 {
        reveal_strlit("\n");
        reveal_strlit(": ");
        let w = k + ": "@ + username;
        assert(lacks(w, '\n'));
        assert(login_part(username, Some(k)) =~= seq!['\n'] + w);
        lemma_tail_line(w);
        lemma_login_line(k, username);
    }
}

proof fn lemma_url_part(address: Seq<char>)
    requires
        lacks(address, '\n'),
    ensures
        starts_line(url_part(address)),
        tail_codes(url_part(address)).len() == 0,
{
    if address.len() > 0 {
        reveal_strlit("\nurl: ");
        reveal_strlit("url: ");
        let w = "url: "@ + address;
        assert(lacks(w, '\n'));
        assert(url_part(address) =~= seq!['\n'] + w);
        lemma_tail_line(w);
        lemma_url_line(address);
    }
}

/// Whether a code carries the mark `used`.
pub open spec fn has_mark(used: bool) -> spec_fn((Seq<char>, bool)) -> bool {
    |c: (Seq<char>, bool)| c.1 == used
}

proof fn lemma_filter_one(c: (Seq<char>, bool), used: bool)
    ensures
        seq![c].filter(has_mark(used)) == (if c.1 == used {
            seq![c]
        } else {
            Seq::<(Seq<char>, bool)>::empty()
        }),
{
    reveal(Seq::filter);
    assert(seq![c].drop_last() =~= Seq::<(Seq<char>, bool)>::empty());
    assert(seq![c].last() == c);
    assert(Seq::<(Seq<char>, bool)>::empty().filter(has_mark(used)) =~= Seq::<(Seq<char>, bool)>::empty());
    assert(Seq::<(Seq<char>, bool)>::empty().push(c) =~= seq![c]);
}

/// The codes the form reads, available and used, are the codes of its lines with
/// either mark, in order.
#[verifier::spinoff_prover]
proof fn lemma_scan_marked(ls: Seq<Seq<char>>)
    ensures
        marked(editor_scan(ls).3, false) == gather(ls, line_codes()).filter(has_mark(false)),
        marked(editor_scan(ls).4, true) == gather(ls, line_codes()).filter(has_mark(true)),
    decreases ls.len(),
{
    reveal(Seq::filter);
    if ls.len() == 0 {
        assert(marked(editor_scan(ls).3, false) =~= Seq::<(Seq<char>, bool)>::empty());
        assert(marked(editor_scan(ls).4, true) =~= Seq::<(Seq<char>, bool)>::empty());
    } else {
        let init = ls.drop_last();
        lemma_scan_marked(init);
        let (user, url, rest, avail, used) = editor_scan(init);
        let before = gather(init, line_codes());
        let here = line_code(ls.last());
        Seq::filter_distributes_over_add(before, here, has_mark(false));
        Seq::filter_distributes_over_add(before, here, has_mark(true));
        match code_of(ls.last()) {
            Some((v, u)) => {
                lemma_filter_one((v, u), false);
                lemma_filter_one((v, u), true);
                if u {
                    assert(marked(used.push(v), true) =~= marked(used, true) + seq![(v, true)]);
                    assert(marked(avail, false) + Seq::<(Seq<char>, bool)>::empty() =~= marked(avail, false));
                } else {
                    assert(marked(avail.push(v), false) =~= marked(avail, false) + seq![(v, false)]);
                    assert(marked(used, true) + Seq::<(Seq<char>, bool)>::empty() =~= marked(used, true));
                }
            },
            None => {
                assert(here =~= Seq::<(Seq<char>, bool)>::empty());
                assert(here.filter(has_mark(false)) =~= here);
                assert(here.filter(has_mark(true)) =~= here);
                assert(before.filter(has_mark(false)) + here =~= before.filter(has_mark(false)));
                assert(before.filter(has_mark(true)) + here =~= before.filter(has_mark(true)));
            },
        }
    }
}

/// The codes of the lines the form reads are the codes of the entry.
#[verifier::spinoff_prover]
proof fn lemma_body_codes(content: Seq<char>)
    ensures
        gather(body_of(content), line_codes()) == content_codes(content),
{
    lemma_line_codes_blind();
    lemma_find_char(content, '\n');
    match find_char(content, '\n') {
        Some(i) => {
            let first = content.take(i as int);
            let body = content.skip(i + 1int);
            assert(content =~= first + seq!['\n'] + body);
            lemma_lines_break(first, body);
            assert((seq![strip_cr(first)] + lines(body)).drop_first() =~= lines(body));
            lemma_codes_of_gather(lines(body));
            lemma_gather_lines_split(body, line_codes());
        },
        None => {
            lemma_lines_one(content);
            if content.len() > 0 {
                assert(seq![content].drop_first() =~= Seq::<Seq<char>>::empty());
            }
            lemma_find_none(Seq::<char>::empty(), '\n');
            lemma_gather_one(Seq::<char>::empty(), line_codes());
            assert(line_code(Seq::<char>::empty()) =~= Seq::<(Seq<char>, bool)>::empty());
        },
    }
}

/// Editing an entry and saving the form keeps the entry's recovery codes: the saved
/// content holds the codes that were still available, then those already used, each
/// with its mark, as the form read them from the entry; and those are the entry's
/// codes with either mark, in order. (For a new password on one line.)
#[verifier::spinoff_prover]
pub proof fn lemma_editing_keeps_recovery_codes(content: Seq<char>, password: Seq<char>)
    requires
        lacks(password, '\n'),
    ensures
        ({
            let (user, url, rest, avail, used) = editor_scan(body_of(content));
            content_codes(
                editor_content(
                    password,
                    match user {
                        Some((v, _)) => v,
                        None => Seq::<char>::empty(),
                    },
                    match user {
                        Some((_, k)) => Some(k),
                        None => None::<Seq<char>>,
                    },
                    match url {
                        Some(u) => u,
                        None => Seq::<char>::empty(),
                    },
                    join(rest, "\n"@),
                    join(avail, "\n"@),
                    join(used, "\n"@),
                ),
            ) == marked(avail, false) + marked(used, true)
        }),
        ({
            let (user, url, rest, avail, used) = editor_scan(body_of(content));
            &&& marked(avail, false) == content_codes(content).filter(has_mark(false))
            &&& marked(used, true) == content_codes(content).filter(has_mark(true))
        }),
{
    lemma_scan_marked(body_of(content));
    lemma_body_codes(content);
    match split_once(content, '\n') {
        Some((_, body)) => lemma_split_lacks_break(body),
        None => lemma_split_lacks_break(Seq::<char>::empty()),
    }
    let ls = body_of(content);
    lemma_scan_facts(ls);
    let (user, url, rest, avail, used) = editor_scan(ls);
    let username = match user {
        Some((v, _)) => v,
        None => Seq::<char>::empty(),
    };
    let key = match user {
        Some((_, k)) => Some(k),
        None => None::<Seq<char>>,
    };
    let address = match url {
        Some(u) => u,
        None => Seq::<char>::empty(),
    };
    let notes = join(rest, "\n"@);
    let login = login_part(username, key);
    let link = url_part(address);
    let noted = note_part(notes);
    let kept = code_lines("recovery-code"@, lines(join(avail, "\n"@)));
    let spent = code_lines("recovery-code-used"@, lines(join(used, "\n"@)));
    lemma_content_shape(password, username, key, address, notes, join(avail, "\n"@), join(used, "\n"@));
    assert(starts_line(login) && tail_codes(login).len() == 0) by {
        match user {
            Some((u, k)) => lemma_login_part(u, k),
            None => {},
        }
    }
    lemma_url_part(address);
    lemma_saved_notes(rest);
    lemma_saved_codes("recovery-code"@, avail, false);
    lemma_saved_codes("recovery-code-used"@, used, true);
    lemma_tail_concat(kept, spent);
    lemma_tail_concat(noted, kept + spent);
    lemma_tail_concat(link, noted + (kept + spent));
    lemma_tail_concat(login, link + (noted + (kept + spent)));
    lemma_content_codes(password, login + (link + (noted + (kept + spent))));
    assert(tail_codes(login + (link + (noted + (kept + spent)))) =~= marked(avail, false) + marked(
        used,
        true,
    ));
}

} // verus!
