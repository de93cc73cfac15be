//! What the detail panel shows of an open entry: the password (or that it is an OTP
//! token), the fields and notes with every OTP secret hidden, and a count of the
//! recovery codes.
use crate::pass::commands::{pair_views, DecryptedEntry};
use crate::recovery::{code_views, codes, content_codes, field, is_field};
use crate::text::{
    contains_exec, contains_seq, eq_ignore_ascii_case, eq_ignore_ascii_case_exec, opt_view,
    string_views, to_chars,
};
use crate::totp::uri_prefix;
use vstd::prelude::*;

verus! {

/// How the password line is shown.
#[derive(Clone, Debug, PartialEq, Eq)]
pub enum PasswordShown {
    /// The password line is an OTP URI: the panel points to the code popup instead.
    OtpToken,
    Revealed(String),
    Masked,
}

/// The content of the detail panel.
#[derive(Clone, Debug)]
pub struct Detail {
    pub password: PasswordShown,
    /// Each field but the recovery-code lines, with its value, or `None` where the
    /// value is an OTP secret.
    pub fields: Vec<(String, Option<String>)>,
    /// The counts of recovery codes still available and already used, where the entry
    /// has any.
    pub recovery: Option<(usize, usize)>,
    /// Each note, or `None` where it holds an OTP URI.
    pub notes: Vec<Option<String>>,
}

/// Whether a field's value is an OTP secret, which the panel never shows.
pub open spec fn hides(key: Seq<char>, value: Seq<char>) -> bool {
    eq_ignore_ascii_case(key, "otpauth"@) || contains_seq(value, uri_prefix())
}

/// The fields as the panel lists them: recovery-code lines left out, secrets hidden.
pub open spec fn shown_fields(fs: Seq<(Seq<char>, Seq<char>)>) -> Seq<(Seq<char>, Option<Seq<char>>)>
    decreases fs.len(),
{
    if fs.len() == 0 {
        seq![]
    } else {
        let rest = shown_fields(fs.drop_last());
        let (k, v) = fs.last();
        if is_field(k) {
            rest
        } else {
            rest.push((k, if hides(k, v) { None } else { Some(v) }))
        }
    }
}

/// The notes as the panel lists them, those with an OTP URI hidden.
pub open spec fn shown_notes(ns: Seq<Seq<char>>) -> Seq<Option<Seq<char>>> {
    ns.map_values(|n: Seq<char>| if contains_seq(n, uri_prefix()) { None } else { Some(n) })
}

/// How many of the codes `cs` have the used mark `used`.
pub open spec fn count_marked(cs: Seq<(Seq<char>, bool)>, used: bool) -> nat
    decreases cs.len(),
{
    if cs.len() == 0 {
        0
    } else {
        count_marked(cs.drop_last(), used) + if cs.last().1 == used { 1nat } else { 0nat }
    }
}

pub open spec fn field_views(fs: Seq<(String, Option<String>)>) -> Seq<(Seq<char>, Option<Seq<char>>)> {
    fs.map_values(|f: (String, Option<String>)| (f.0@, opt_view(f.1)))
}

pub open spec fn note_views(ns: Seq<Option<String>>) -> Seq<Option<Seq<char>>> {
    ns.map_values(|n: Option<String>| opt_view(n))
}

/// Every field that `shown_fields` lists is no recovery line, and what it shows of its
/// value holds no OTP secret.
pub proof fn lemma_shown_fields_hide_secrets(fs: Seq<(Seq<char>, Seq<char>)>)
    ensures
        shown_fields(fs).len() <= fs.len(),
        forall|i: int|
            0 <= i < shown_fields(fs).len() ==> {
                let (k, v) = #[trigger] shown_fields(fs)[i];
                &&& !is_field(k)
                &&& (v matches Some(t) ==> !contains_seq(t, uri_prefix()) && !eq_ignore_ascii_case(
                    k,
                    "otpauth"@,
                ))
            },
    decreases fs.len(),
{
    if fs.len() > 0 {
        lemma_shown_fields_hide_secrets(fs.drop_last());
    }
}

proof fn lemma_count_push(cs: Seq<(Seq<char>, bool)>, c: (Seq<char>, bool), used: bool)
    ensures
        count_marked(cs.push(c), used) == count_marked(cs, used) + if c.1 == used { 1nat } else { 0nat },
        count_marked(cs, used) <= cs.len(),
    decreases cs.len(),
{
    assert(cs.push(c).drop_last() =~= cs);
    if cs.len() > 0 {
        lemma_count_push(cs.drop_last(), cs.last(), used);
        assert(cs.drop_last().push(cs.last()) =~= cs);
    }
}

fn shown_field_list(fs: &Vec<(String, String)>) -> (r: Vec<(String, Option<String>)>)
    ensures
        field_views(r@) == shown_fields(pair_views(fs@)),
{
    let ghost all = pair_views(fs@);
    let otp = to_chars("otpauth");
    let prefix = to_chars("otpauth://");
    let mut out: Vec<(String, Option<String>)> = Vec::new();
    let mut i: usize = 0;
    while i < fs.len()
        invariant
            i <= fs.len(),
            all == pair_views(fs@),
            otp@ == "otpauth"@,
            prefix@ == uri_prefix(),
            field_views(out@) == shown_fields(all.take(i as int)),
        decreases fs.len() - i,
    {
        proof {
            assert(all.take(i + 1).drop_last() =~= all.take(i as int));
        }
        let key = &fs[i].0;
        let value = &fs[i].1;
        if !field(key.as_str()) {
            let hidden = eq_ignore_ascii_case_exec(&to_chars(key.as_str()), &otp) || contains_exec(
                &to_chars(value.as_str()),
                &prefix,
            );
            let shown = if hidden { None } else { Some(value.clone()) };
            let ghost before = out@;
            out.push((key.clone(), shown));
            proof {
                assert(field_views(out@) =~= field_views(before).push((key@, opt_view(shown))));
            }
        }
        i += 1;
    }
    proof {
        assert(all.take(fs.len() as int) =~= all);
    }
    out
}

fn shown_note_list(ns: &Vec<String>) -> (r: Vec<Option<String>>)
    ensures
        note_views(r@) == shown_notes(string_views(ns@)),
{
    let prefix = to_chars("otpauth://");
    let mut out: Vec<Option<String>> = Vec::new();
    let mut i: usize = 0;
    while i < ns.len()
        invariant
            i <= ns.len(),
            prefix@ == uri_prefix(),
            out.len() == i,
            forall|j: int|
                0 <= j < i ==> #[trigger] opt_view(out@[j]) == (if contains_seq(ns@[j]@, uri_prefix()) {
                    None
                } else {
                    Some(ns@[j]@)
                }),
        decreases ns.len() - i,
    {
        let hidden = contains_exec(&to_chars(ns[i].as_str()), &prefix);
        let shown = if hidden { None } else { Some(ns[i].clone()) };
        out.push(shown);
        i += 1;
    }
    proof {
        assert(note_views(out@) =~= shown_notes(string_views(ns@))) by {
            assert forall|j: int| 0 <= j < out.len() implies #[trigger] note_views(out@)[j]
                == shown_notes(string_views(ns@))[j] by {
                assert(opt_view(out@[j]) == (if contains_seq(ns@[j]@, uri_prefix()) {
                    None
                } else {
                    Some(ns@[j]@)
                }));
            }
        }
    }
    out
}

/// The counts of available and used recovery codes in `content`, if it holds any.
fn recovery_counts(content: &str) -> (r: Option<(usize, usize)>)
    ensures
        content_codes(content@).len() == 0 ==> r is None,
        content_codes(content@).len() > 0 ==> (r matches Some((a, u)) && a == count_marked(
            content_codes(content@),
            false,
        ) && u == count_marked(content_codes(content@), true)),
{
    let cs = codes(content);
    let ghost all = code_views(cs@);
    let mut available: usize = 0;
    let mut used: usize = 0;
    let mut i: usize = 0;
    while i < cs.len()
        invariant
            i <= cs.len(),
            all == code_views(cs@),
            available == count_marked(all.take(i as int), false),
            used == count_marked(all.take(i as int), true),
            available + used == i,
        decreases cs.len() - i,
    {
        proof {
            assert(all.take(i + 1) =~= all.take(i as int).push(all[i as int]));
            lemma_count_push(all.take(i as int), all[i as int], false);
            lemma_count_push(all.take(i as int), all[i as int], true);
        }
        if cs[i].used {
            used += 1;
        } else {
            available += 1;
        }
        i += 1;
    }
    proof {
        assert(all.take(cs.len() as int) =~= all);
    }
    if cs.len() == 0 {
        None
    } else {
        Some((available, used))
    }
}

/// The detail panel for `entry`; `show_password` is whether the password is revealed.
/// Nothing it shows holds an OTP secret.
pub fn detail_of(entry: &DecryptedEntry, show_password: bool) -> (r: Detail)
    ensures
        contains_seq(entry.password@, uri_prefix()) ==> r.password is OtpToken,
        !contains_seq(entry.password@, uri_prefix()) && show_password ==> (r.password matches PasswordShown::Revealed(p)
            && p@ == entry.password@),
        !contains_seq(entry.password@, uri_prefix()) && !show_password ==> r.password is Masked,
        field_views(r.fields@) == shown_fields(pair_views(entry.fields@)),
        note_views(r.notes@) == shown_notes(string_views(entry.notes@)),
        content_codes(entry.content@).len() == 0 ==> r.recovery is None,
        content_codes(entry.content@).len() > 0 ==> (r.recovery matches Some((a, u)) && a
            == count_marked(content_codes(entry.content@), false) && u == count_marked(
            content_codes(entry.content@),
            true,
        )),
        r.password matches PasswordShown::Revealed(p) ==> !contains_seq(p@, uri_prefix()),
        forall|i: int|
            0 <= i < r.fields.len() ==> {
                let (k, v) = #[trigger] r.fields@[i];
                &&& !is_field(k@)
                &&& (v matches Some(t) ==> !contains_seq(t@, uri_prefix()) && !eq_ignore_ascii_case(
                    k@,
                    "otpauth"@,
                ))
            },
        forall|i: int|
            0 <= i < r.notes.len() ==> (#[trigger] r.notes@[i] matches Some(n) ==> !contains_seq(
                n@,
                uri_prefix(),
            )),
{
    let password = if contains_exec(&to_chars(entry.password.as_str()), &to_chars("otpauth://")) {
        PasswordShown::OtpToken
    } else if show_password {
        PasswordShown::Revealed(entry.password.clone())
    } else {
        PasswordShown::Masked
    };
    let fields = shown_field_list(&entry.fields);
    let notes = shown_note_list(&entry.notes);
    let recovery = recovery_counts(entry.content.as_str());
    proof {
        lemma_shown_fields_hide_secrets(pair_views(entry.fields@));
        assert forall|i: int| 0 <= i < fields.len() implies {
            let (k, v) = #[trigger] fields@[i];
            &&& !is_field(k@)
            &&& (v matches Some(t) ==> !contains_seq(t@, uri_prefix()) && !eq_ignore_ascii_case(
                k@,
                "otpauth"@,
            ))
        } by {
            assert(field_views(fields@)[i] == (fields@[i].0@, opt_view(fields@[i].1)));
        }
        assert forall|i: int| 0 <= i < notes.len() implies (#[trigger] notes@[i] matches Some(n)
            ==> !contains_seq(n@, uri_prefix())) by {
            assert(note_views(notes@).len() == notes@.len());
            assert(string_views(entry.notes@).len() == entry.notes@.len());
            assert(note_views(notes@)[i] == opt_view(notes@[i]));
            assert(string_views(entry.notes@)[i] == entry.notes@[i]@);
            assert(shown_notes(string_views(entry.notes@))[i] == (if contains_seq(
                entry.notes@[i]@,
                uri_prefix(),
            ) {
                None
            } else {
                Some(entry.notes@[i]@)
            }));
        }
    }
    Detail { password, fields, recovery, notes }
}

} // verus!
