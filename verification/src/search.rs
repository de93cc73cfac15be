use crate::text::{
    contains_exec, contains_seq, eq, last_segment, last_segment_exec, lowercase, starts_with,
    starts_with_exec, to_chars, to_lowercase,
};
use vstd::prelude::*;
use vstd::utf8::encode_utf8;

verus! {

/// Whether `q` can be read in `t` in order, skipping characters of `t`.
pub open spec fn is_subsequence(q: Seq<char>, t: Seq<char>) -> bool
    decreases t.len(),
{
    if q.len() == 0 {
        true
    } else if t.len() == 0 {
        false
    } else if q[0] == t[0] {
        is_subsequence(q.drop_first(), t.drop_first())
    } else {
        is_subsequence(q, t.drop_first())
    }
}

/// Case-insensitive subsequence matching, shared by the tree and quick picker.
pub fn matches(text: &str, query: &str) -> (r: bool)
    ensures
        r == is_subsequence(lowercase(query@), lowercase(text@)),
{
    let t = to_chars(to_lowercase(text).as_str());
    let q = to_chars(to_lowercase(query).as_str());
    let mut i: usize = 0;
    let mut j: usize = 0;
    assert(q@.skip(0) =~= q@);
    assert(t@.skip(0) =~= t@);
    while i < q.len()
        invariant
            q@ == lowercase(query@),
            t@ == lowercase(text@),
            i <= q.len(),
            j <= t.len(),
            is_subsequence(q@, t@) == is_subsequence(q@.skip(i as int), t@.skip(j as int)),
        decreases q.len() - i, t.len() - j,
    {
        if j == t.len() {
            assert(t@.skip(j as int).len() == 0);
            return false;
        }
        proof {
            assert(q@.skip(i as int).drop_first() =~= q@.skip(i + 1));
            assert(t@.skip(j as int).drop_first() =~= t@.skip(j + 1));
        }
        if q[i] == t[j] {
            i += 1;
        }
        j += 1;
    }
    assert(q@.skip(i as int).len() == 0);
    true
}

/// The priority class of `name` (the last path segment) and `text` for `q`.
pub open spec fn priority(name: Seq<char>, text: Seq<char>, q: Seq<char>) -> u8 {
    if name == q {
        0
    } else if starts_with(name, q) {
        1
    } else if contains_seq(text, q) {
        2
    } else {
        3
    }
}

/// The rank of `text` for `query`: the priority class, then the length in bytes of
/// the lower-cased text.
pub open spec fn rank_of(text: Seq<char>, query: Seq<char>) -> (u8, usize) {
    (
        priority(last_segment(lowercase(text), '/'), lowercase(text), lowercase(query)),
        encode_utf8(lowercase(text)).len() as usize,
    )
}

/// Prefer exact names and contiguous matches before broader subsequences: the priority
/// class, then the length in bytes of the lower-cased text.
pub fn rank(text: &str, query: &str) -> (r: (u8, usize))
    ensures
        r == rank_of(text@, query@),
{
    let lowered = to_lowercase(text);
    let t = to_chars(lowered.as_str());
    let q = to_chars(to_lowercase(query).as_str());
    let name = last_segment_exec(&t, '/');
    let priority = if eq(&name, &q) {
        0
    } else if starts_with_exec(&name, &q) {
        1
    } else if contains_exec(&t, &q) {
        2
    } else {
        3
    };
    (priority, lowered.as_str().len())
}

/// What std's `char::to_lowercase` yields for `c`, character by character (one
/// character for most, more for a few).
pub uninterp spec fn char_lowercase(c: char) -> Seq<char>;

/// Calls std's `char::to_lowercase` and collects what it yields; trusted to return
/// `char_lowercase(c)`. Nothing more is said of the Unicode mapping.
#[verifier::external_body]
fn lower_char(c: char) -> (r: Vec<char>)
    ensures
        r@ == char_lowercase(c),
{
    c.to_lowercase().collect()
}

/// Walks the lower-case characters `ls` of one character of the text against the
/// query characters still `wanted`, in order: what is still wanted after it, and
/// whether it matched any.
pub open spec fn take_wanted(ls: Seq<char>, wanted: Seq<char>) -> (Seq<char>, bool)
    decreases ls.len(),
{
    if ls.len() == 0 {
        (wanted, false)
    } else if wanted.len() > 0 && wanted[0] == ls[0] {
        (take_wanted(ls.drop_first(), wanted.drop_first()).0, true)
    } else {
        take_wanted(ls.drop_first(), wanted)
    }
}

/// For each character of `text`, whether it is highlighted while the query characters
/// `wanted` are matched greedily from the left.
pub open spec fn highlights(text: Seq<char>, wanted: Seq<char>) -> Seq<bool>
    decreases text.len(),
{
    if text.len() == 0 {
        seq![]
    } else {
        let (rest, hit) = take_wanted(char_lowercase(text[0]), wanted);
        seq![hit].add(highlights(text.drop_first(), rest))
    }
}

/// Which characters of `text` the search highlights for `query`: the lower-cased
/// query is matched greedily, left to right, against the lower-case forms of the
/// characters; one flag per character of `text`.
pub fn highlight_mask(text: &str, query: &str) -> (r: Vec<bool>)
    ensures
        r@ == highlights(text@, lowercase(query@)),
        r@.len() == text@.len(),
{
    let t = to_chars(text);
    let q = to_chars(to_lowercase(query).as_str());
    let mut out: Vec<bool> = Vec::new();
    let mut i: usize = 0;
    let mut j: usize = 0;
    assert(t@.skip(0) =~= t@);
    assert(q@.skip(0) =~= q@);
    while i < t.len()
        invariant
            t@ == text@,
            q@ == lowercase(query@),
            i <= t.len(),
            j <= q.len(),
            out.len() == i,
            highlights(t@, q@) == out@ + highlights(t@.skip(i as int), q@.skip(j as int)),
        decreases t.len() - i,
    {
        let ls = lower_char(t[i]);
        let ghost j0 = j;
        let mut hit = false;
        let mut k: usize = 0;
        assert(ls@.skip(0) =~= ls@);
        while k < ls.len()
            invariant
                j0 <= j <= q.len(),
                k <= ls.len(),
                take_wanted(ls@, q@.skip(j0 as int)) == (take_wanted(
                    ls@.skip(k as int),
                    q@.skip(j as int),
                ).0, hit || take_wanted(ls@.skip(k as int), q@.skip(j as int)).1),
            decreases ls.len() - k,
        {
            proof {
                assert(ls@.skip(k as int).drop_first() =~= ls@.skip(k + 1));
                assert(ls@.skip(k as int)[0] == ls@[k as int]);
                if j < q.len() {
                    assert(q@.skip(j as int).drop_first() =~= q@.skip(j + 1));
                    assert(q@.skip(j as int)[0] == q@[j as int]);
                }
            }
            if j < q.len() && q[j] == ls[k] {
                j += 1;
                hit = true;
            }
            k += 1;
        }
        proof {
            assert(ls@.skip(k as int).len() == 0);
            let ts = t@.skip(i as int);
            assert(ts[0] == t@[i as int]);
            assert(ts.drop_first() =~= t@.skip(i + 1));
            assert(highlights(ts, q@.skip(j0 as int)) == seq![hit].add(
                highlights(t@.skip(i + 1), q@.skip(j as int)),
            ));
            assert(out@.push(hit) + highlights(t@.skip(i + 1), q@.skip(j as int)) =~= out@ + seq![
                hit,
            ].add(highlights(t@.skip(i + 1), q@.skip(j as int))));
        }
        out.push(hit);
        i += 1;
    }
    assert(t@.skip(i as int).len() == 0);
    assert(out@ + highlights(t@.skip(i as int), q@.skip(j as int)) =~= out@);
    out
}

} // verus!
