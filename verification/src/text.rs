use vstd::prelude::*;
use vstd::std_specs::iter::IteratorSpec;

verus! {

broadcast use vstd::string::group_string_axioms;

// ---------------------------------------------------------------------
// Character classes
// ---------------------------------------------------------------------
/// Unicode `White_Space`, the class that `char::is_whitespace` and `str::trim` use.
pub open spec fn is_space(c: char) -> bool {
    let u = c as u32;
    ||| 0x09 <= u <= 0x0d
    ||| u == 0x20
    ||| u == 0x85
    ||| u == 0xa0
    ||| u == 0x1680
    ||| 0x2000 <= u <= 0x200a
    ||| u == 0x2028
    ||| u == 0x2029
    ||| u == 0x202f
    ||| u == 0x205f
    ||| u == 0x3000
}

/// Unicode general category `Cc`, the class that `char::is_control` tests.
pub open spec fn is_ctrl(c: char) -> bool {
    let u = c as u32;
    u <= 0x1f || (0x7f <= u <= 0x9f)
}

/// ASCII letters folded to lower case; every other character unchanged.
pub open spec fn ascii_lower(c: char) -> char {
    if 'A' <= c <= 'Z' {
        ((c as u32) + 32) as char
    } else {
        c
    }
}

/// ASCII letters raised to upper case; every other character unchanged.
pub open spec fn ascii_upper(c: char) -> char {
    if 'a' <= c <= 'z' {
        ((c as u32) - 32) as char
    } else {
        c
    }
}

pub open spec fn is_ascii_hex(c: char) -> bool {
    ('0' <= c <= '9') || ('a' <= c <= 'f') || ('A' <= c <= 'F')
}

pub open spec fn is_ascii_digit(c: char) -> bool {
    '0' <= c <= '9'
}

pub fn is_whitespace(c: char) -> (r: bool)
    ensures
        r == is_space(c),
{
    let u = c as u32;
    (0x09 <= u && u <= 0x0d) || u == 0x20 || u == 0x85 || u == 0xa0 || u == 0x1680 || (0x2000
        <= u && u <= 0x200a) || u == 0x2028 || u == 0x2029 || u == 0x202f || u == 0x205f || u
        == 0x3000
}

pub fn is_control(c: char) -> (r: bool)
    ensures
        r == is_ctrl(c),
{
    let u = c as u32;
    u <= 0x1f || (0x7f <= u && u <= 0x9f)
}

pub fn to_ascii_lower(c: char) -> (r: char)
    ensures
        r == ascii_lower(c),
{
    if 'A' <= c && c <= 'Z' {
        let u = (c as u32) + 32;
        assert(0x61 <= u <= 0x7a);
        proof {
            vstd::utf8::char_u32_cast(c, c as u32);
        }
        char_from_ascii(u)
    } else {
        c
    }
}

pub fn to_ascii_upper(c: char) -> (r: char)
    ensures
        r == ascii_upper(c),
{
    if 'a' <= c && c <= 'z' {
        let u = (c as u32) - 32;
        assert(0x41 <= u <= 0x5a);
        proof {
            vstd::utf8::char_u32_cast(c, c as u32);
        }
        char_from_ascii(u)
    } else {
        c
    }
}

/// An ASCII code point as a character.
fn char_from_ascii(u: u32) -> (r: char)
    requires
        u < 0x80,
    ensures
        r == u as char,
{
    let b: u8 = u as u8;
    b as char
}

pub fn is_hex_digit(c: char) -> (r: bool)
    ensures
        r == is_ascii_hex(c),
{
    ('0' <= c && c <= '9') || ('a' <= c && c <= 'f') || ('A' <= c && c <= 'F')
}

// ---------------------------------------------------------------------
// Sequences of characters
// ---------------------------------------------------------------------
/// The first position of `c` in `s`, if there is one.
pub open spec fn find_char(s: Seq<char>, c: char) -> Option<nat>
    decreases s.len(),
{
    if s.len() == 0 {
        None
    } else if s[0] == c {
        Some(0)
    } else {
        match find_char(s.drop_first(), c) {
            Some(i) => Some(i + 1),
            None => None,
        }
    }
}

/// The first position of a character of class `p` in `s`, if there is one.
pub open spec fn find_by(s: Seq<char>, p: spec_fn(char) -> bool) -> Option<nat>
    decreases s.len(),
{
    if s.len() == 0 {
        None
    } else if p(s[0]) {
        Some(0)
    } else {
        match find_by(s.drop_first(), p) {
            Some(i) => Some(i + 1),
            None => None,
        }
    }
}

pub proof fn lemma_find_char(s: Seq<char>, c: char)
    ensures
        match find_char(s, c) {
            Some(i) => i < s.len() && s[i as int] == c && forall|j: int|
                0 <= j < i ==> s[j] != c,
            None => forall|j: int| 0 <= j < s.len() ==> s[j] != c,
        },
    decreases s.len(),
{
    if s.len() > 0 {
        lemma_find_char(s.drop_first(), c);
        if s[0] != c {
            match find_char(s.drop_first(), c) {
                Some(i) => {
                    assert forall|j: int| 0 <= j < i + 1 implies s[j] != c by {
                        if j > 0 {
                            assert(s[j] == s.drop_first()[j - 1]);
                        }
                    }
                },
                None => {
                    assert forall|j: int| 0 <= j < s.len() implies s[j] != c by {
                        if j > 0 {
                            assert(s[j] == s.drop_first()[j - 1]);
                        }
                    }
                },
            }
        }
    }
}

pub proof fn lemma_find_by(s: Seq<char>, p: spec_fn(char) -> bool)
    ensures
        match find_by(s, p) {
            Some(i) => i < s.len() && p(s[i as int]) && forall|j: int| 0 <= j < i ==> !p(s[j]),
            None => forall|j: int| 0 <= j < s.len() ==> !p(s[j]),
        },
    decreases s.len(),
{
    if s.len() > 0 {
        lemma_find_by(s.drop_first(), p);
        if !p(s[0]) {
            match find_by(s.drop_first(), p) {
                Some(i) => {
                    assert forall|j: int| 0 <= j < i + 1 implies !p(s[j]) by {
                        if j > 0 {
                            assert(s[j] == s.drop_first()[j - 1]);
                        }
                    }
                },
                None => {
                    assert forall|j: int| 0 <= j < s.len() implies !p(s[j]) by {
                        if j > 0 {
                            assert(s[j] == s.drop_first()[j - 1]);
                        }
                    }
                },
            }
        }
    }
}

/// `s` cut at the first `c`: the part before it and the part after it.
pub open spec fn split_once(s: Seq<char>, c: char) -> Option<(Seq<char>, Seq<char>)> {
    match find_char(s, c) {
        Some(i) => Some((s.take(i as int), s.skip(i + 1int))),
        None => None,
    }
}

/// `s` cut at every `c` (as `str::split` with a character pattern).
pub open spec fn split(s: Seq<char>, c: char) -> Seq<Seq<char>>
    decreases s.len(),
{
    match find_char(s, c) {
        Some(i) => {
            if i < s.len() {
                seq![s.take(i as int)] + split(s.skip(i + 1int), c)
            } else {
                seq![s]
            }
        },
        None => seq![s],
    }
}

/// `t` without one trailing carriage return.
pub open spec fn strip_cr(t: Seq<char>) -> Seq<char> {
    if t.len() > 0 && t.last() == '\r' {
        t.drop_last()
    } else {
        t
    }
}

/// The lines of `s`, as `str::lines` yields them: split after each `\n`, a `\r`
/// directly before that `\n` dropped, and no empty line after a final `\n`.
pub open spec fn lines(s: Seq<char>) -> Seq<Seq<char>>
    decreases s.len(),
{
    if s.len() == 0 {
        seq![]
    } else {
        match find_char(s, '\n') {
            Some(i) => {
                if i < s.len() {
                    seq![strip_cr(s.take(i as int))] + lines(s.skip(i + 1int))
                } else {
                    seq![s]
                }
            },
            None => seq![s],
        }
    }
}

/// The pieces of `s` after each `\n`, each keeping its `\n` (as `str::split_inclusive`).
pub open spec fn split_inclusive(s: Seq<char>) -> Seq<Seq<char>>
    decreases s.len(),
{
    if s.len() == 0 {
        seq![]
    } else {
        match find_char(s, '\n') {
            Some(i) => {
                if i < s.len() {
                    seq![s.take(i + 1int)] + split_inclusive(s.skip(i + 1int))
                } else {
                    seq![s]
                }
            },
            None => seq![s],
        }
    }
}

pub open spec fn trim_start(s: Seq<char>) -> Seq<char>
    decreases s.len(),
{
    if s.len() > 0 && is_space(s[0]) {
        trim_start(s.drop_first())
    } else {
        s
    }
}

pub open spec fn trim_end(s: Seq<char>) -> Seq<char>
    decreases s.len(),
{
    if s.len() > 0 && is_space(s.last()) {
        trim_end(s.drop_last())
    } else {
        s
    }
}

/// `s` without leading and trailing white space (as `str::trim`).
pub open spec fn trim(s: Seq<char>) -> Seq<char> {
    trim_end(trim_start(s))
}

pub open spec fn starts_with(s: Seq<char>, p: Seq<char>) -> bool {
    p.len() <= s.len() && s.take(p.len() as int) == p
}

pub open spec fn ends_with(s: Seq<char>, p: Seq<char>) -> bool {
    p.len() <= s.len() && s.skip(s.len() - p.len()) == p
}

pub open spec fn strip_prefix(s: Seq<char>, p: Seq<char>) -> Option<Seq<char>> {
    if starts_with(s, p) {
        Some(s.skip(p.len() as int))
    } else {
        None
    }
}

pub open spec fn strip_suffix(s: Seq<char>, p: Seq<char>) -> Option<Seq<char>> {
    if ends_with(s, p) {
        Some(s.take(s.len() - p.len()))
    } else {
        None
    }
}

/// Equal after folding ASCII letters to lower case (as `str::eq_ignore_ascii_case`).
pub open spec fn eq_ignore_ascii_case(a: Seq<char>, b: Seq<char>) -> bool {
    a.len() == b.len() && forall|i: int| 0 <= i < a.len() ==> ascii_lower(a[i]) == ascii_lower(
        b[i],
    )
}

pub open spec fn contains_char(s: Seq<char>, c: char) -> bool {
    exists|i: int| 0 <= i < s.len() && s[i] == c
}

/// Each vector taken by its characters.
pub open spec fn views(vs: Seq<Vec<char>>) -> Seq<Seq<char>> {
    vs.map_values(|v: Vec<char>| v@)
}

/// An optional string taken by its characters.
pub open spec fn opt_view(o: Option<String>) -> Option<Seq<char>> {
    match o {
        Some(s) => Some(s@),
        None => None,
    }
}

/// Each string taken by its characters.
pub open spec fn string_views(vs: Seq<String>) -> Seq<Seq<char>> {
    vs.map_values(|v: String| v@)
}

// ---------------------------------------------------------------------
// Conversions
// ---------------------------------------------------------------------
/// The characters of a string slice, in order.
pub fn to_chars(s: &str) -> (v: Vec<char>)
    ensures
        v@ == s@,
{
    let mut v: Vec<char> = Vec::new();
    let mut it = s.chars();
    assert(it.remaining() == s@);
    loop
        invariant
            it.obeys_prophetic_iter_laws(),
            v@ + it.remaining() == s@,
            it.decrease() is Some,
        decreases it.decrease()->0,
    {
        let ghost before = it.remaining();
        match it.next() {
            Some(c) => {
                v.push(c);
                assert(v@ + it.remaining() =~= s@) by {
                    assert(before == seq![c] + it.remaining());
                }
            },
            None => {
                assert(v@ =~= s@);
                return v;
            },
        }
    }
}

/// Calls std's `String::pop`, which vstd leaves unspecified; trusted to take off the
/// last character and return it, or to return `None` and change nothing for an empty
/// string, as its documentation says.
#[verifier::external_body]
pub(crate) fn pop_char(s: &mut String) -> (r: Option<char>)
    ensures
        old(s)@.len() == 0 ==> r is None && final(s)@ == old(s)@,
        old(s)@.len() > 0 ==> r == Some(old(s)@.last()) && final(s)@ == old(s)@.drop_last(),
{
    s.pop()
}

/// Calls `zeroize::Zeroize::zeroize` on a string; trusted to leave it empty, as the
/// source shows (its bytes are overwritten with zeros, then its length set to 0).
#[verifier::external_body]
pub fn wipe(s: &mut String)
    ensures
        final(s)@ == Seq::<char>::empty(),
{
    zeroize::Zeroize::zeroize(s);
}

/// Calls `zeroize::Zeroize::zeroize` on a vector of characters; trusted to leave it
/// empty, as the source shows (each character is overwritten, then the length set to 0).
#[verifier::external_body]
pub fn wipe_chars(v: &mut Vec<char>)
    ensures
        final(v)@ == Seq::<char>::empty(),
{
    zeroize::Zeroize::zeroize(v);
}

/// Calls std's `String::push`, which vstd leaves unspecified; trusted to leave the old
/// characters followed by `c`, as its documentation says.
#[verifier::external_body]
pub(crate) fn push_char(s: &mut String, c: char)
    ensures
        final(s)@ == old(s)@.push(c),
{
    s.push(c);
}

/// A string made of `v[lo..hi]`.
pub fn string_of_range(v: &Vec<char>, lo: usize, hi: usize) -> (r: String)
    requires
        lo <= hi <= v.len(),
    ensures
        r@ == v@.subrange(lo as int, hi as int),
{
    let mut r = String::new();
    let mut i = lo;
    while i < hi
        invariant
            lo <= i <= hi <= v.len(),
            r@ == v@.subrange(lo as int, i as int),
        decreases hi - i,
    {
        push_char(&mut r, v[i]);
        i += 1;
        assert(r@ =~= v@.subrange(lo as int, i as int));
    }
    r
}

/// A string made of the characters of `v`.
pub fn string_of(v: &Vec<char>) -> (r: String)
    ensures
        r@ == v@,
{
    let r = string_of_range(v, 0, v.len());
    assert(v@.subrange(0, v@.len() as int) =~= v@);
    r
}

/// `v[lo..hi]` as a vector of its own.
pub fn slice(v: &Vec<char>, lo: usize, hi: usize) -> (r: Vec<char>)
    requires
        lo <= hi <= v.len(),
    ensures
        r@ == v@.subrange(lo as int, hi as int),
{
    let mut r: Vec<char> = Vec::new();
    let mut i = lo;
    while i < hi
        invariant
            lo <= i <= hi <= v.len(),
            r@ == v@.subrange(lo as int, i as int),
        decreases hi - i,
    {
        r.push(v[i]);
        i += 1;
        assert(r@ =~= v@.subrange(lo as int, i as int));
    }
    r
}

pub fn copy(v: &Vec<char>) -> (r: Vec<char>)
    ensures
        r@ == v@,
{
    let r = slice(v, 0, v.len());
    assert(v@.subrange(0, v@.len() as int) =~= v@);
    r
}

pub fn append(a: &mut Vec<char>, b: &Vec<char>)
    ensures
        final(a)@ == old(a)@ + b@,
{
    let mut i: usize = 0;
    let ghost a0 = a@;
    while i < b.len()
        invariant
            i <= b.len(),
            a@ == a0 + b@.take(i as int),
        decreases b.len() - i,
    {
        a.push(b[i]);
        i += 1;
        assert(a@ =~= a0 + b@.take(i as int));
    }
    assert(b@.take(b.len() as int) =~= b@);
}

pub fn eq(a: &Vec<char>, b: &Vec<char>) -> (r: bool)
    ensures
        r == (a@ == b@),
{
    if a.len() != b.len() {
        return false;
    }
    let mut i: usize = 0;
    while i < a.len()
        invariant
            a.len() == b.len(),
            i <= a.len(),
            forall|j: int| 0 <= j < i ==> a@[j] == b@[j],
        decreases a.len() - i,
    {
        if a[i] != b[i] {
            return false;
        }
        i += 1;
    }
    assert(a@ =~= b@);
    true
}

/// Whether `v` equals the literal `lit`.
pub fn is(v: &Vec<char>, lit: &str) -> (r: bool)
    ensures
        r == (v@ == lit@),
{
    let l = to_chars(lit);
    eq(v, &l)
}

// ---------------------------------------------------------------------
// Searching and splitting
// ---------------------------------------------------------------------
/// The first position at or after `from` where `c` stands.
pub fn find_from(v: &Vec<char>, from: usize, c: char) -> (r: Option<usize>)
    requires
        from <= v.len(),
    ensures
        find_char(v@.skip(from as int), c) == match r {
            Some(i) => Some((i - from) as nat),
            None => None::<nat>,
        },
        match r {
            Some(i) => from <= i < v.len() && v@[i as int] == c && forall|j: int|
                from <= j < i ==> v@[j] != c,
            None => forall|j: int| from <= j < v.len() ==> v@[j] != c,
        },
{
    let mut i = from;
    while i < v.len()
        invariant
            from <= i <= v.len(),
            forall|j: int| from <= j < i ==> v@[j] != c,
        decreases v.len() - i,
    {
        if v[i] == c {
            proof {
                let s = v@.skip(from as int);
                lemma_find_char(s, c);
                assert(s[i - from] == c);
            }
            return Some(i);
        }
        i += 1;
    }
    proof {
        let s = v@.skip(from as int);
        lemma_find_char(s, c);
        if find_char(s, c) is Some {
            let k = find_char(s, c)->0;
            assert(v@[from + k] == c);
        }
    }
    None
}

pub fn find(v: &Vec<char>, c: char) -> (r: Option<usize>)
    ensures
        find_char(v@, c) == match r {
            Some(i) => Some(i as nat),
            None => None::<nat>,
        },
        match r {
            Some(i) => i < v.len() && v@[i as int] == c && forall|j: int| 0 <= j < i ==> v@[j] != c,
            None => forall|j: int| 0 <= j < v.len() ==> v@[j] != c,
        },
{
    assert(v@.skip(0) =~= v@);
    find_from(v, 0, c)
}

pub fn contains(v: &Vec<char>, c: char) -> (r: bool)
    ensures
        r == contains_char(v@, c),
{
    match find(v, c) {
        Some(i) => {
            assert(v@[i as int] == c);
            true
        },
        None => false,
    }
}

pub fn split_once_exec(v: &Vec<char>, c: char) -> (r: Option<(Vec<char>, Vec<char>)>)
    ensures
        match split_once(v@, c) {
            Some((a, b)) => r matches Some((x, y)) && x@ == a && y@ == b,
            None => r is None,
        },
{
    match find(v, c) {
        Some(i) => {
            let a = slice(v, 0, i);
            let b = slice(v, i + 1, v.len());
            assert(a@ =~= v@.take(i as int));
            assert(b@ =~= v@.skip(i + 1));
            assert(split_once(v@, c) == Some((a@, b@)));
            Some((a, b))
        },
        None => None,
    }
}

pub fn split_exec(v: &Vec<char>, c: char) -> (r: Vec<Vec<char>>)
    ensures
        views(r@) == split(v@, c),
{
    let mut out: Vec<Vec<char>> = Vec::new();
    let mut start: usize = 0;
    assert(views(out@) =~= seq![]);
    assert(v@.skip(0) =~= v@);
    loop
        invariant
            start <= v.len(),
            views(out@) + split(v@.skip(start as int), c) == split(v@, c),
        decreases v.len() - start,
    {
        let ghost rest = v@.skip(start as int);
        let ghost before = out@;
        match find_from(v, start, c) {
            Some(i) => {
                let piece = slice(v, start, i);
                proof {
                    assert(piece@ =~= rest.take(i - start));
                    assert(rest.skip(i - start + 1) =~= v@.skip(i + 1));
                    assert(find_char(rest, c) == Some((i - start) as nat));
                    assert(split(rest, c) == seq![piece@] + split(v@.skip(i + 1), c));
                }
                out.push(piece);
                proof {
                    assert(views(out@) =~= views(before).push(piece@));
                    assert(views(out@) + split(v@.skip(i + 1), c) =~= views(before) + split(rest, c));
                }
                start = i + 1;
            },
            None => {
                let piece = slice(v, start, v.len());
                proof {
                    assert(piece@ =~= rest);
                }
                out.push(piece);
                proof {
                    assert(views(out@) =~= views(before).push(piece@));
                    assert(views(out@) =~= views(before) + split(rest, c));
                }
                return out;
            },
        }
    }
}


pub fn lines_exec(v: &Vec<char>) -> (r: Vec<Vec<char>>)
    ensures
        views(r@) == lines(v@),
{
    let mut out: Vec<Vec<char>> = Vec::new();
    let mut start: usize = 0;
    assert(views(out@) =~= seq![]);
    assert(v@.skip(0) =~= v@);
    while start < v.len()
        invariant
            start <= v.len(),
            views(out@) + lines(v@.skip(start as int)) == lines(v@),
        decreases v.len() - start,
    {
        let ghost rest = v@.skip(start as int);
        let ghost before = out@;
        match find_from(v, start, '\n') {
            Some(i) => {
                let end = if i > start && v[i - 1] == '\r' {
                    i - 1
                } else {
                    i
                };
                let piece = slice(v, start, end);
                proof {
                    assert(rest.take(i - start).len() == i - start);
                    assert(piece@ =~= strip_cr(rest.take(i - start)));
                    assert(rest.skip(i - start + 1) =~= v@.skip(i + 1));
                    assert(lines(rest) == seq![piece@] + lines(v@.skip(i + 1)));
                }
                out.push(piece);
                proof {
                    assert(views(out@) =~= views(before).push(piece@));
                    assert(views(out@) + lines(v@.skip(i + 1)) =~= views(before) + lines(rest));
                }
                start = i + 1;
            },
            None => {
                let piece = slice(v, start, v.len());
                proof {
                    assert(piece@ =~= rest);
                }
                out.push(piece);
                proof {
                    assert(views(out@) =~= views(before).push(piece@));
                    assert(views(out@) =~= views(before) + lines(rest));
                }
                return out;
            },
        }
    }
    proof {
        assert(v@.skip(start as int) =~= seq![]);
        assert(views(out@) =~= views(out@) + lines(v@.skip(start as int)));
    }
    out
}

pub fn split_inclusive_exec(v: &Vec<char>) -> (r: Vec<Vec<char>>)
    ensures
        views(r@) == split_inclusive(v@),
{
    let mut out: Vec<Vec<char>> = Vec::new();
    let mut start: usize = 0;
    assert(views(out@) =~= seq![]);
    assert(v@.skip(0) =~= v@);
    while start < v.len()
        invariant
            start <= v.len(),
            views(out@) + split_inclusive(v@.skip(start as int)) == split_inclusive(v@),
        decreases v.len() - start,
    {
        let ghost rest = v@.skip(start as int);
        let ghost before = out@;
        match find_from(v, start, '\n') {
            Some(i) => {
                let piece = slice(v, start, i + 1);
                proof {
                    assert(piece@ =~= rest.take(i - start + 1));
                    assert(rest.skip(i - start + 1) =~= v@.skip(i + 1));
                    assert(split_inclusive(rest) == seq![piece@] + split_inclusive(v@.skip(i + 1)));
                }
                out.push(piece);
                proof {
                    assert(views(out@) =~= views(before).push(piece@));
                    assert(views(out@) + split_inclusive(v@.skip(i + 1)) =~= views(before)
                        + split_inclusive(rest));
                }
                start = i + 1;
            },
            None => {
                let piece = slice(v, start, v.len());
                proof {
                    assert(piece@ =~= rest);
                }
                out.push(piece);
                proof {
                    assert(views(out@) =~= views(before).push(piece@));
                    assert(views(out@) =~= views(before) + split_inclusive(rest));
                }
                return out;
            },
        }
    }
    proof {
        assert(v@.skip(start as int) =~= seq![]);
        assert(views(out@) =~= views(out@) + split_inclusive(v@.skip(start as int)));
    }
    out
}

pub proof fn lemma_trim_start(s: Seq<char>, k: int)
    requires
        0 <= k <= s.len(),
        forall|j: int| 0 <= j < k ==> is_space(s[j]),
        k == s.len() || !is_space(s[k]),
    ensures
        trim_start(s) == s.skip(k),
    decreases k,
{
    if k == 0 {
        assert(s.skip(0) =~= s);
    } else {
        lemma_trim_start(s.drop_first(), k - 1);
        assert(s.drop_first().skip(k - 1) =~= s.skip(k));
    }
}

pub proof fn lemma_trim_end(s: Seq<char>, k: int)
    requires
        0 <= k <= s.len(),
        forall|j: int| k <= j < s.len() ==> is_space(s[j]),
        k == 0 || !is_space(s[k - 1]),
    ensures
        trim_end(s) == s.take(k),
    decreases s.len() - k,
{
    if k == s.len() {
        assert(s.take(k) =~= s);
    } else {
        lemma_trim_end(s.drop_last(), k);
        assert(s.drop_last().take(k) =~= s.take(k));
    }
}

/// The bounds of `v[lo..hi]` without its leading and trailing white space.
pub fn trim_bounds(v: &Vec<char>, lo: usize, hi: usize) -> (r: (usize, usize))
    requires
        lo <= hi <= v.len(),
    ensures
        lo <= r.0 <= r.1 <= hi,
        v@.subrange(r.0 as int, r.1 as int) == trim(v@.subrange(lo as int, hi as int)),
{
    let ghost s = v@.subrange(lo as int, hi as int);
    let mut a = lo;
    while a < hi && is_whitespace(v[a])
        invariant
            lo <= a <= hi <= v.len(),
            forall|j: int| lo <= j < a ==> is_space(v@[j]),
        decreases hi - a,
    {
        a += 1;
    }
    proof {
        lemma_trim_start(s, a - lo);
        assert(s.skip(a - lo) =~= v@.subrange(a as int, hi as int));
    }
    let mut b = hi;
    while b > a && is_whitespace(v[b - 1])
        invariant
            lo <= a <= b <= hi <= v.len(),
            forall|j: int| b <= j < hi ==> is_space(v@[j]),
        decreases b - a,
    {
        b -= 1;
    }
    proof {
        let t = v@.subrange(a as int, hi as int);
        lemma_trim_end(t, b - a);
        assert(t.take(b - a) =~= v@.subrange(a as int, b as int));
    }
    (a, b)
}

/// `v` without leading and trailing white space.
pub fn trim_exec(v: &Vec<char>) -> (r: Vec<char>)
    ensures
        r@ == trim(v@),
{
    let (a, b) = trim_bounds(v, 0, v.len());
    assert(v@.subrange(0, v.len() as int) =~= v@);
    slice(v, a, b)
}

pub fn starts_with_exec(v: &Vec<char>, p: &Vec<char>) -> (r: bool)
    ensures
        r == starts_with(v@, p@),
{
    if p.len() > v.len() {
        return false;
    }
    let mut i: usize = 0;
    while i < p.len()
        invariant
            p.len() <= v.len(),
            i <= p.len(),
            forall|j: int| 0 <= j < i ==> v@[j] == p@[j],
        decreases p.len() - i,
    {
        if v[i] != p[i] {
            assert(v@.take(p.len() as int)[i as int] != p@[i as int]);
            return false;
        }
        i += 1;
    }
    assert(v@.take(p.len() as int) =~= p@);
    true
}

pub fn ends_with_exec(v: &Vec<char>, p: &Vec<char>) -> (r: bool)
    ensures
        r == ends_with(v@, p@),
{
    if p.len() > v.len() {
        return false;
    }
    let off = v.len() - p.len();
    let mut i: usize = 0;
    while i < p.len()
        invariant
            p.len() <= v.len(),
            off == v.len() - p.len(),
            i <= p.len(),
            forall|j: int| 0 <= j < i ==> v@[off + j] == p@[j],
        decreases p.len() - i,
    {
        if v[off + i] != p[i] {
            assert(v@.skip(off as int)[i as int] != p@[i as int]);
            return false;
        }
        i += 1;
    }
    assert(v@.skip(off as int) =~= p@);
    true
}

/// `v` without the prefix `lit`, if it starts with it.
pub fn strip_prefix_exec(v: &Vec<char>, lit: &str) -> (r: Option<Vec<char>>)
    ensures
        match strip_prefix(v@, lit@) {
            Some(t) => r matches Some(x) && x@ == t,
            None => r is None,
        },
{
    let p = to_chars(lit);
    if starts_with_exec(v, &p) {
        let t = slice(v, p.len(), v.len());
        assert(t@ =~= v@.skip(p@.len() as int));
        Some(t)
    } else {
        None
    }
}

/// `v` without the suffix `lit`, if it ends with it.
pub fn strip_suffix_exec(v: &Vec<char>, lit: &str) -> (r: Option<Vec<char>>)
    ensures
        match strip_suffix(v@, lit@) {
            Some(t) => r matches Some(x) && x@ == t,
            None => r is None,
        },
{
    let p = to_chars(lit);
    if ends_with_exec(v, &p) {
        let t = slice(v, 0, v.len() - p.len());
        assert(t@ =~= v@.take(v@.len() - p@.len()));
        Some(t)
    } else {
        None
    }
}

pub fn eq_ignore_ascii_case_exec(a: &Vec<char>, b: &Vec<char>) -> (r: bool)
    ensures
        r == eq_ignore_ascii_case(a@, b@),
{
    if a.len() != b.len() {
        return false;
    }
    let mut i: usize = 0;
    while i < a.len()
        invariant
            a.len() == b.len(),
            i <= a.len(),
            forall|j: int| 0 <= j < i ==> ascii_lower(a@[j]) == ascii_lower(b@[j]),
        decreases a.len() - i,
    {
        if to_ascii_lower(a[i]) != to_ascii_lower(b[i]) {
            return false;
        }
        i += 1;
    }
    true
}


/// The first position where `p` occurs in `s`, if it does.
pub open spec fn find_seq(s: Seq<char>, p: Seq<char>) -> Option<nat>
    decreases s.len(),
{
    if starts_with(s, p) {
        Some(0)
    } else if s.len() == 0 {
        None
    } else {
        match find_seq(s.drop_first(), p) {
            Some(i) => Some(i + 1),
            None => None,
        }
    }
}

/// `s` cut at the first occurrence of `p`.
pub open spec fn split_once_seq(s: Seq<char>, p: Seq<char>) -> Option<(Seq<char>, Seq<char>)> {
    match find_seq(s, p) {
        Some(i) => Some((s.take(i as int), s.skip(i + p.len() as int))),
        None => None,
    }
}

pub proof fn lemma_find_seq(s: Seq<char>, p: Seq<char>)
    ensures
        match find_seq(s, p) {
            Some(i) => i <= s.len() && starts_with(s.skip(i as int), p) && forall|j: int|
                0 <= j < i ==> !starts_with(#[trigger] s.skip(j), p),
            None => forall|j: int| 0 <= j <= s.len() ==> !starts_with(#[trigger] s.skip(j), p),
        },
    decreases s.len(),
{
    assert(s.skip(0) =~= s);
    if starts_with(s, p) {
    } else if s.len() == 0 {
    } else {
        let t = s.drop_first();
        lemma_find_seq(t, p);
        assert forall|j: int| 1 <= j <= s.len() implies #[trigger] s.skip(j) == t.skip(j - 1) by {
            assert(s.skip(j) =~= t.skip(j - 1));
        }
        match find_seq(t, p) {
            Some(i) => {
                assert(s.skip(i + 1int) == t.skip(i as int));
                assert forall|j: int| 0 <= j < i + 1 implies !starts_with(#[trigger] s.skip(j), p) by {
                    if j > 0 {
                        assert(s.skip(j) == t.skip(j - 1));
                    }
                }
            },
            None => {
                assert forall|j: int| 0 <= j <= s.len() implies !starts_with(#[trigger] s.skip(j), p) by {
                    if j > 0 {
                        assert(s.skip(j) == t.skip(j - 1));
                    }
                }
            },
        }
    }
}

fn starts_at(v: &Vec<char>, p: &Vec<char>, at: usize) -> (r: bool)
    requires
        at <= v.len(),
    ensures
        r == starts_with(v@.skip(at as int), p@),
{
    if p.len() > v.len() - at {
        return false;
    }
    let mut i: usize = 0;
    while i < p.len()
        invariant
            at + p.len() <= v.len(),
            i <= p.len(),
            forall|j: int| 0 <= j < i ==> v@[at + j] == p@[j],
        decreases p.len() - i,
    {
        if v[at + i] != p[i] {
            assert(v@.skip(at as int).take(p.len() as int)[i as int] != p@[i as int]);
            return false;
        }
        i += 1;
    }
    assert(v@.skip(at as int).take(p.len() as int) =~= p@);
    true
}

/// `v` cut at the first occurrence of the literal `lit`.
pub fn split_once_str(v: &Vec<char>, lit: &str) -> (r: Option<(Vec<char>, Vec<char>)>)
    ensures
        match split_once_seq(v@, lit@) {
            Some((a, b)) => r matches Some((x, y)) && x@ == a && y@ == b,
            None => r is None,
        },
{
    let p = to_chars(lit);
    proof {
        lemma_find_seq(v@, p@);
    }
    let mut at: usize = 0;
    let mut found = starts_at(v, &p, 0);
    while at < v.len() && !found
        invariant
            at <= v.len(),
            found == starts_with(v@.skip(at as int), p@),
            forall|j: int| 0 <= j < at ==> !starts_with(#[trigger] v@.skip(j), p@),
        decreases v.len() - at,
    {
        at += 1;
        found = starts_at(v, &p, at);
    }
    if found {
        proof {
            assert(starts_with(v@.skip(at as int), p@));
            match find_seq(v@, p@) {
                Some(i) => {
                    assert(i == at);
                },
                None => {},
            }
        }
        let a = slice(v, 0, at);
        let b = slice(v, at + p.len(), v.len());
        assert(b@ =~= v@.skip(at + p@.len()));
        assert(a@ =~= v@.take(at as int));
        return Some((a, b));
    }
    proof {
        assert(at == v.len());
        match find_seq(v@, p@) {
            Some(i) => {
                assert(starts_with(v@.skip(i as int), p@));
            },
            None => {},
        }
    }
    None
}

/// The words of `s`, separated by runs of white space (as `str::split_whitespace`).
pub open spec fn words(s: Seq<char>) -> Seq<Seq<char>>
    decreases s.len(),
{
    let t = trim_start(s);
    if t.len() == 0 {
        seq![]
    } else {
        match find_by(t, |c: char| is_space(c)) {
            Some(k) => {
                if 0 < k < t.len() && t.len() <= s.len() {
                    seq![t.take(k as int)] + words(t.skip(k as int))
                } else {
                    seq![t]
                }
            },
            None => seq![t],
        }
    }
}

pub proof fn lemma_trim_end_len(s: Seq<char>)
    ensures
        trim_end(s).len() <= s.len(),
        trim_end(s).len() > 0 ==> !is_space(trim_end(s).last()),
        trim_end(s) == s.take(trim_end(s).len() as int),
    decreases s.len(),
{
    if s.len() > 0 && is_space(s.last()) {
        lemma_trim_end_len(s.drop_last());
        assert(s.drop_last().take(trim_end(s).len() as int) =~= s.take(trim_end(s).len() as int));
    } else {
        assert(s.take(s.len() as int) =~= s);
    }
}

pub proof fn lemma_trim_start_len(s: Seq<char>)
    ensures
        trim_start(s).len() <= s.len(),
        trim_start(s).len() > 0 ==> !is_space(trim_start(s)[0]),
        exists|k: int| 0 <= k <= s.len() && trim_start(s) == s.skip(k),
    decreases s.len(),
{
    if s.len() > 0 && is_space(s[0]) {
        lemma_trim_start_len(s.drop_first());
        let k = choose|k: int| 0 <= k <= s.drop_first().len() && trim_start(s.drop_first()) == s.drop_first().skip(k);
        assert(s.drop_first().skip(k) =~= s.skip(k + 1));
    } else {
        assert(s.skip(0) =~= s);
    }
}

/// The words of `v` (as `str::split_whitespace`).
pub fn words_exec(v: &Vec<char>) -> (r: Vec<Vec<char>>)
    ensures
        views(r@) == words(v@),
{
    let mut out: Vec<Vec<char>> = Vec::new();
    let mut start: usize = 0;
    assert(views(out@) =~= seq![]);
    assert(v@.skip(0) =~= v@);
    loop
        invariant
            start <= v.len(),
            views(out@) + words(v@.skip(start as int)) == words(v@),
        decreases v.len() - start,
    {
        let ghost rest = v@.skip(start as int);
        let ghost before = out@;
        let mut a = start;
        while a < v.len() && is_whitespace(v[a])
            invariant
                start <= a <= v.len(),
                forall|j: int| start <= j < a ==> is_space(v@[j]),
            decreases v.len() - a,
        {
            a += 1;
        }
        proof {
            lemma_trim_start(rest, a - start);
            assert(rest.skip(a - start) =~= v@.skip(a as int));
        }
        if a == v.len() {
            proof {
                assert(v@.skip(a as int).len() == 0);
                assert(words(rest) == Seq::<Seq<char>>::empty());
                assert(views(out@) + words(rest) =~= views(out@));
            }
            return out;
        }
        let mut b = a;
        while b < v.len() && !is_whitespace(v[b])
            invariant
                a <= b <= v.len(),
                forall|j: int| a <= j < b ==> !is_space(v@[j]),
            decreases v.len() - b,
        {
            b += 1;
        }
        let piece = slice(v, a, b);
        proof {
            let t = v@.skip(a as int);
            let p = |c: char| is_space(c);
            lemma_find_by(t, p);
            assert(!is_space(t[0]));
            if b < v.len() {
                assert(p(t[b - a]));
                match find_by(t, p) {
                    Some(k) => {
                        if k < b - a {
                            assert(!is_space(v@[a + k]));
                        }
                        assert(k == b - a);
                    },
                    None => {
                        assert(false);
                    },
                }
                assert(t.take(b - a) =~= piece@);
                assert(t.skip(b - a) =~= v@.skip(b as int));
                assert(words(rest) == seq![piece@] + words(v@.skip(b as int)));
            } else {
                match find_by(t, p) {
                    Some(k) => {
                        assert(!is_space(v@[a + k]));
                    },
                    None => {},
                }
                assert(t =~= piece@);
                assert(words(rest) == seq![piece@]);
                assert(v@.skip(b as int).len() == 0);
                assert(words(v@.skip(b as int)) == Seq::<Seq<char>>::empty());
            }
        }
        out.push(piece);
        proof {
            assert(views(out@) =~= views(before).push(piece@));
            assert(views(out@) + words(v@.skip(b as int)) =~= views(before) + words(rest));
        }
        start = b;
    }
}

// ---------------------------------------------------------------------
// Numbers
// ---------------------------------------------------------------------
/// The value of a string of decimal digits.
pub open spec fn digits_value(s: Seq<char>) -> nat
    decreases s.len(),
{
    if s.len() == 0 {
        0
    } else {
        digits_value(s.drop_last()) * 10 + ((s.last() as u32) - ('0' as u32)) as nat
    }
}

pub open spec fn all_digits(s: Seq<char>) -> bool {
    forall|i: int| 0 <= i < s.len() ==> is_ascii_digit(s[i])
}

/// An unsigned decimal number no greater than `max`, as `str::parse` reads one for an
/// unsigned integer type: an optional `+`, then one or more ASCII digits.
pub open spec fn parse_unsigned(s: Seq<char>, max: nat) -> Option<nat> {
    let d = if s.len() > 0 && s[0] == '+' {
        s.drop_first()
    } else {
        s
    };
    if d.len() > 0 && all_digits(d) && digits_value(d) <= max {
        Some(digits_value(d))
    } else {
        None
    }
}

pub proof fn lemma_digits_value_grows(s: Seq<char>, i: int)
    requires
        0 <= i <= s.len(),
        all_digits(s),
    ensures
        digits_value(s.take(i)) <= digits_value(s),
    decreases s.len() - i,
{
    if i < s.len() {
        lemma_digits_value_grows(s, i + 1);
        assert(s.take(i + 1).drop_last() =~= s.take(i));
    } else {
        assert(s.take(i) =~= s);
    }
}

/// Parses an unsigned decimal number of at most `u64::MAX`.
pub fn parse_u64(v: &Vec<char>) -> (r: Option<u64>)
    ensures
        match parse_unsigned(v@, u64::MAX as nat) {
            Some(n) => r == Some(n as u64),
            None => r is None,
        },
{
    let start: usize = if v.len() > 0 && v[0] == '+' {
        1
    } else {
        0
    };
    let ghost d = v@.skip(start as int);
    proof {
        if start == 1 {
            assert(d =~= v@.drop_first());
        } else {
            assert(d =~= v@);
        }
    }
    if start == v.len() {
        return None;
    }
    let mut value: u64 = 0;
    let mut i = start;
    assert(d.take(0) =~= seq![]);
    while i < v.len()
        invariant
            start <= i <= v.len(),
            start < v.len(),
            d == v@.skip(start as int),
            d == (if v@.len() > 0 && v@[0] == '+' {
                v@.drop_first()
            } else {
                v@
            }),
            value == digits_value(d.take(i - start)),
            forall|j: int| start <= j < i ==> is_ascii_digit(v@[j]),
        decreases v.len() - i,
    {
        let c = v[i];
        if !('0' <= c && c <= '9') {
            assert(!is_ascii_digit(d[i - start]));
            assert(!all_digits(d));
            return None;
        }
        let digit = (c as u32 - '0' as u32) as u64;
        proof {
            assert(d.take(i - start + 1).drop_last() =~= d.take(i - start));
            assert(d.take(i - start + 1).last() == c);
            assert(digits_value(d.take(i - start + 1)) == value * 10 + digit);
        }
        if value > (u64::MAX - digit) / 10 {
            proof {
                assert(value * 10 + digit > u64::MAX) by (nonlinear_arith)
                    requires
                        value > (u64::MAX - digit) / 10,
                        digit <= 9,
                ;
                if all_digits(d) {
                    lemma_digits_value_grows(d, i - start + 1);
                    assert(digits_value(d) > u64::MAX);
                }
                assert(parse_unsigned(v@, u64::MAX as nat) is None);
            }
            return None;
        }
        proof {
            assert(value * 10 + digit <= u64::MAX) by (nonlinear_arith)
                requires
                    value <= (u64::MAX - digit) / 10,
                    digit <= 9,
            ;
        }
        value = value * 10 + digit;
        i += 1;
    }
    proof {
        assert(d.take(i - start) =~= d);
        assert(all_digits(d));
    }
    Some(value)
}

/// Parses an unsigned decimal number of at most `usize::MAX`.
pub fn parse_usize(v: &Vec<char>) -> (r: Option<usize>)
    ensures
        match parse_unsigned(v@, usize::MAX as nat) {
            Some(n) => r == Some(n as usize),
            None => r is None,
        },
{
    match parse_u64(v) {
        Some(n) => {
            if n as u128 <= usize::MAX as u128 {
                Some(n as usize)
            } else {
                None
            }
        },
        None => {
            proof {
                assert(usize::MAX <= u64::MAX);
            }
            None
        },
    }
}


/// `s` without any leading `c` (as `str::trim_start_matches` with a character).
pub open spec fn trim_start_char(s: Seq<char>, c: char) -> Seq<char>
    decreases s.len(),
{
    if s.len() > 0 && s[0] == c {
        trim_start_char(s.drop_first(), c)
    } else {
        s
    }
}

/// `s` without any trailing `c` (as `str::trim_end_matches` with a character).
pub open spec fn trim_end_char(s: Seq<char>, c: char) -> Seq<char>
    decreases s.len(),
{
    if s.len() > 0 && s.last() == c {
        trim_end_char(s.drop_last(), c)
    } else {
        s
    }
}

proof fn lemma_trim_start_char(s: Seq<char>, c: char, k: int)
    requires
        0 <= k <= s.len(),
        forall|j: int| 0 <= j < k ==> s[j] == c,
        k == s.len() || s[k] != c,
    ensures
        trim_start_char(s, c) == s.skip(k),
    decreases k,
{
    if k == 0 {
        assert(s.skip(0) =~= s);
    } else {
        lemma_trim_start_char(s.drop_first(), c, k - 1);
        assert(s.drop_first().skip(k - 1) =~= s.skip(k));
    }
}

proof fn lemma_trim_end_char(s: Seq<char>, c: char, k: int)
    requires
        0 <= k <= s.len(),
        forall|j: int| k <= j < s.len() ==> s[j] == c,
        k == 0 || s[k - 1] != c,
    ensures
        trim_end_char(s, c) == s.take(k),
    decreases s.len() - k,
{
    if k == s.len() {
        assert(s.take(k) =~= s);
    } else {
        lemma_trim_end_char(s.drop_last(), c, k);
        assert(s.drop_last().take(k) =~= s.take(k));
    }
}

/// `v` without leading `lead` characters and trailing `tail` characters.
pub fn trim_chars(v: &Vec<char>, lead: char, tail: char) -> (r: Vec<char>)
    ensures
        r@ == trim_end_char(trim_start_char(v@, lead), tail),
{
    let mut a: usize = 0;
    while a < v.len() && v[a] == lead
        invariant
            a <= v.len(),
            forall|j: int| 0 <= j < a ==> v@[j] == lead,
        decreases v.len() - a,
    {
        a += 1;
    }
    proof {
        lemma_trim_start_char(v@, lead, a as int);
    }
    let mut b = v.len();
    while b > a && v[b - 1] == tail
        invariant
            a <= b <= v.len(),
            forall|j: int| b <= j < v.len() ==> v@[j] == tail,
        decreases b - a,
    {
        b -= 1;
    }
    proof {
        let t = v@.skip(a as int);
        lemma_trim_end_char(t, tail, b - a);
        assert(t.take(b - a) =~= v@.subrange(a as int, b as int));
    }
    slice(v, a, b)
}


pub open spec fn contains_seq(s: Seq<char>, p: Seq<char>) -> bool {
    exists|i: int| 0 <= i && i + p.len() <= s.len() && #[trigger] s.subrange(i, i + p.len()) == p
}

/// Whether `p` occurs in `v` at `at`.
pub fn occurs_at(v: &Vec<char>, p: &Vec<char>, at: usize) -> (r: bool)
    requires
        at <= v.len(),
    ensures
        r == (at + p.len() <= v.len() && v@.subrange(at as int, at + p.len()) == p@),
{
    if p.len() > v.len() - at {
        return false;
    }
    let mut i: usize = 0;
    while i < p.len()
        invariant
            at + p.len() <= v.len(),
            i <= p.len(),
            forall|j: int| 0 <= j < i ==> v@[at + j] == p@[j],
        decreases p.len() - i,
    {
        if v[at + i] != p[i] {
            assert(v@.subrange(at as int, at + p.len())[i as int] != p@[i as int]);
            return false;
        }
        i += 1;
    }
    assert(v@.subrange(at as int, at + p.len()) =~= p@);
    true
}

/// Whether `p` occurs anywhere in `v`.
pub fn contains_exec(v: &Vec<char>, p: &Vec<char>) -> (r: bool)
    ensures
        r == contains_seq(v@, p@),
{
    if p.len() == 0 {
        assert(v@.subrange(0int, 0int + p@.len()) =~= p@);
        return true;
    }
    if p.len() > v.len() {
        return false;
    }
    let mut at: usize = 0;
    while at <= v.len() - p.len()
        invariant
            0 < p.len() <= v.len(),
            at <= v.len() - p.len() + 1,
            forall|i: int|
                0 <= i < at && i + p.len() <= v.len() ==> #[trigger] v@.subrange(i, i + p.len())
                    != p@,
        decreases v.len() - p.len() + 1 - at,
    {
        if occurs_at(v, p, at) {
            return true;
        }
        at += 1;
    }
    false
}


/// The position of the last `c` in `s`, if there is one.
pub open spec fn rfind_char(s: Seq<char>, c: char) -> Option<nat>
    decreases s.len(),
{
    if s.len() == 0 {
        None
    } else if s.last() == c {
        Some((s.len() - 1) as nat)
    } else {
        rfind_char(s.drop_last(), c)
    }
}

/// What follows the last `c` in `s`, or all of `s` (the first item of `str::rsplit`).
pub open spec fn last_segment(s: Seq<char>, c: char) -> Seq<char> {
    match rfind_char(s, c) {
        Some(i) => s.skip(i + 1int),
        None => s,
    }
}

/// The position of the last `c` in `v`, if there is one.
pub fn rfind(v: &Vec<char>, c: char) -> (r: Option<usize>)
    ensures
        rfind_char(v@, c) == match r {
            Some(i) => Some(i as nat),
            None => None::<nat>,
        },
        match r {
            Some(i) => i < v.len() && v@[i as int] == c,
            None => true,
        },
{
    let mut i = v.len();
    assert(v@.take(v.len() as int) =~= v@);
    while i > 0 && v[i - 1] != c
        invariant
            i <= v.len(),
            rfind_char(v@, c) == rfind_char(v@.take(i as int), c),
        decreases i,
    {
        proof {
            assert(v@.take(i as int).drop_last() =~= v@.take(i - 1));
        }
        i -= 1;
    }
    if i == 0 {
        assert(rfind_char(v@.take(0), c) is None);
        None
    } else {
        assert(rfind_char(v@.take(i as int), c) == Some((i - 1) as nat));
        Some(i - 1)
    }
}

pub fn last_segment_exec(v: &Vec<char>, c: char) -> (r: Vec<char>)
    ensures
        r@ == last_segment(v@, c),
{
    match rfind(v, c) {
        Some(i) => slice(v, i + 1, v.len()),
        None => copy(v),
    }
}

/// The lower-case mapping of Unicode (as `str::to_lowercase` computes it).
pub uninterp spec fn lowercase(s: Seq<char>) -> Seq<char>;

/// Calls std's `str::to_lowercase`; trusted to return `lowercase` of the characters of
/// `s`: the same characters always give the same result. Nothing more is said of the
/// Unicode mapping it applies.
#[verifier::external_body]
pub(crate) fn to_lowercase(s: &str) -> (r: String)
    ensures
        r@ == lowercase(s@),
{
    s.to_lowercase()
}


/// The pieces `ps` joined with `sep` between neighbours (as `join` on strings).
pub open spec fn join(ps: Seq<Seq<char>>, sep: Seq<char>) -> Seq<char>
    decreases ps.len(),
{
    if ps.len() == 0 {
        seq![]
    } else if ps.len() == 1 {
        ps[0]
    } else {
        join(ps.drop_last(), sep) + sep + ps.last()
    }
}

/// Appends `piece` to `acc`, which joins `n` pieces so far, as the next piece of a join.
pub fn join_push(acc: &mut Vec<char>, n: usize, piece: &Vec<char>, sep: &Vec<char>)
    requires
        n == 0 ==> old(acc)@.len() == 0,
    ensures
        n == 0 ==> final(acc)@ == piece@,
        n > 0 ==> final(acc)@ == old(acc)@ + sep@ + piece@,
{
    if n > 0 {
        append(acc, sep);
    }
    append(acc, piece);
    proof {
        if n == 0 {
            assert(acc@ =~= piece@);
        }
    }
}


pub proof fn lemma_join_push(ps: Seq<Seq<char>>, x: Seq<char>, sep: Seq<char>)
    ensures
        join(ps.push(x), sep) == if ps.len() == 0 {
            x
        } else {
            join(ps, sep) + sep + x
        },
{
    assert(ps.push(x).drop_last() =~= ps);
    if ps.len() == 0 {
        assert(ps.push(x) =~= seq![x]);
    }
}


/// `v` without any leading `c`.
pub fn trim_start_chars(v: &Vec<char>, c: char) -> (r: Vec<char>)
    ensures
        r@ == trim_start_char(v@, c),
{
    let mut a: usize = 0;
    while a < v.len() && v[a] == c
        invariant
            a <= v.len(),
            forall|j: int| 0 <= j < a ==> v@[j] == c,
        decreases v.len() - a,
    {
        a += 1;
    }
    proof {
        lemma_trim_start_char(v@, c, a as int);
        assert(v@.skip(a as int) =~= v@.subrange(a as int, v.len() as int));
    }
    slice(v, a, v.len())
}


/// Strictly before in the order of code points, compared character by character
/// (the order of `str`'s `Ord`, since UTF-8 keeps code-point order).
pub open spec fn lex_lt(a: Seq<char>, b: Seq<char>) -> bool
    decreases a.len(),
{
    if a.len() == 0 {
        b.len() > 0
    } else if b.len() == 0 {
        false
    } else if a[0] != b[0] {
        (a[0] as u32) < (b[0] as u32)
    } else {
        lex_lt(a.drop_first(), b.drop_first())
    }
}

pub proof fn lemma_lex_lt_asymmetric(a: Seq<char>, b: Seq<char>)
    ensures
        !(lex_lt(a, b) && lex_lt(b, a)),
    decreases a.len(),
{
    if a.len() > 0 && b.len() > 0 && a[0] == b[0] {
        lemma_lex_lt_asymmetric(a.drop_first(), b.drop_first());
    }
}

pub proof fn lemma_lex_lt_transitive(a: Seq<char>, b: Seq<char>, c: Seq<char>)
    requires
        lex_lt(a, b),
        lex_lt(b, c),
    ensures
        lex_lt(a, c),
    decreases a.len(),
{
    if a.len() > 0 && b.len() > 0 && c.len() > 0 && a[0] == b[0] && b[0] == c[0] {
        lemma_lex_lt_transitive(a.drop_first(), b.drop_first(), c.drop_first());
    }
}

/// Whether `a` comes strictly before `b` in code-point order.
pub fn lex_lt_exec(a: &Vec<char>, b: &Vec<char>) -> (r: bool)
    ensures
        r == lex_lt(a@, b@),
{
    let mut i: usize = 0;
    assert(a@.skip(0) =~= a@);
    assert(b@.skip(0) =~= b@);
    while i < a.len() && i < b.len() && a[i] == b[i]
        invariant
            i <= a.len(),
            i <= b.len(),
            lex_lt(a@, b@) == lex_lt(a@.skip(i as int), b@.skip(i as int)),
        decreases a.len() - i,
    {
        assert(a@.skip(i as int).drop_first() =~= a@.skip(i + 1));
        assert(b@.skip(i as int).drop_first() =~= b@.skip(i + 1));
        i += 1;
    }
    if i == a.len() {
        i < b.len()
    } else if i == b.len() {
        false
    } else {
        proof {
            vstd::utf8::char_u32_cast(a@[i as int], a@[i as int] as u32);
            vstd::utf8::char_u32_cast(b@[i as int], b@[i as int] as u32);
        }
        (a[i] as u32) < (b[i] as u32)
    }
}


/// The decimal digits of `n` (as `Display` writes an unsigned integer).
pub open spec fn decimal(n: nat) -> Seq<char>
    decreases n,
{
    if n < 10 {
        seq![(n + 0x30) as char]
    } else {
        decimal(n / 10).push(((n % 10) + 0x30) as char)
    }
}

/// Writes the decimal digits of `n` after what `out` holds.
pub fn push_decimal(out: &mut String, n: u64)
    ensures
        final(out)@ == old(out)@ + decimal(n as nat),
    decreases n,
{
    if n >= 10 {
        push_decimal(out, n / 10);
    }
    let ghost mid = out@;
    let d = (n % 10) as u32 + 0x30;
    push_char(out, char_from_ascii(d));
    proof {
        if n >= 10 {
            assert(out@ =~= old(out)@ + decimal(n as nat));
        } else {
            assert(out@ =~= old(out)@ + decimal(n as nat));
        }
    }
}


// ---------------------------------------------------------------------
// Pieces of a text
// ---------------------------------------------------------------------
/// The pieces `ps` written one after the other.
pub open spec fn concat(ps: Seq<Seq<char>>) -> Seq<char>
    decreases ps.len(),
{
    if ps.len() == 0 {
        seq![]
    } else {
        concat(ps.drop_last()) + ps.last()
    }
}

pub proof fn lemma_concat_front(ps: Seq<Seq<char>>)
    requires
        ps.len() > 0,
    ensures
        concat(ps) == ps[0] + concat(ps.drop_first()),
    decreases ps.len(),
{
    if ps.len() == 1 {
        assert(ps.drop_last() =~= Seq::<Seq<char>>::empty());
        assert(ps.drop_first() =~= Seq::<Seq<char>>::empty());
        assert(concat(ps) =~= ps[0] + concat(ps.drop_first()));
    } else {
        lemma_concat_front(ps.drop_last());
        assert(ps.drop_last().drop_first() =~= ps.drop_first().drop_last());
        assert(ps.drop_first().last() == ps.last());
        assert(concat(ps) =~= ps[0] + concat(ps.drop_first()));
    }
}

/// Whether `p` holds no line feed before its last character.
pub open spec fn one_line(p: Seq<char>) -> bool {
    forall|m: int| 0 <= m < p.len() - 1 ==> p[m] != '\n'
}

/// Whether `ps` are the pieces of `split_inclusive`: none empty, none with a line feed
/// before its end, and each but the last ending in one.
pub open spec fn line_pieces(ps: Seq<Seq<char>>) -> bool {
    forall|i: int|
        0 <= i < ps.len() ==> {
            &&& #[trigger] ps[i].len() > 0
            &&& one_line(ps[i])
            &&& i < ps.len() - 1 ==> ps[i].last() == '\n'
        }
}

/// The pieces of a text are line pieces, and written one after the other they give the
/// text back.
pub proof fn lemma_split_inclusive(s: Seq<char>)
    ensures
        line_pieces(split_inclusive(s)),
        concat(split_inclusive(s)) == s,
    decreases s.len(),
{
    lemma_find_char(s, '\n');
    if s.len() > 0 {
        match find_char(s, '\n') {
            Some(i) => {
                let head = s.take(i + 1int);
                let tail = s.skip(i + 1int);
                lemma_split_inclusive(tail);
                let ps = split_inclusive(s);
                assert(ps == seq![head] + split_inclusive(tail));
                assert(ps.drop_first() =~= split_inclusive(tail));
                lemma_concat_front(ps);
                assert(head + tail =~= s);
                assert forall|k: int| 0 <= k < ps.len() implies {
                    &&& #[trigger] ps[k].len() > 0
                    &&& one_line(ps[k])
                    &&& k < ps.len() - 1 ==> ps[k].last() == '\n'
                } by {
                    if k > 0 {
                        assert(ps[k] == split_inclusive(tail)[k - 1]);
                    } else {
                        assert(ps[0] == head);
                    }
                }
            },
            None => {
                let ps = split_inclusive(s);
                assert(ps == seq![s]);
                assert(ps.drop_last() =~= Seq::<Seq<char>>::empty());
                assert(concat(ps.drop_last()) =~= Seq::<char>::empty());
                assert(ps.last() == s);
                assert(concat(ps) =~= s);
            },
        }
    } else {
        assert(split_inclusive(s) =~= Seq::<Seq<char>>::empty());
    }
}

/// Line pieces written one after the other split back into themselves.
pub proof fn lemma_split_concat(ps: Seq<Seq<char>>)
    requires
        line_pieces(ps),
    ensures
        split_inclusive(concat(ps)) == ps,
    decreases ps.len(),
{
    if ps.len() == 0 {
        assert(split_inclusive(concat(ps)) =~= ps);
    } else {
        let p = ps[0];
        let rest = ps.drop_first();
        assert(line_pieces(rest)) by {
            assert forall|i: int| 0 <= i < rest.len() implies {
                &&& #[trigger] rest[i].len() > 0
                &&& one_line(rest[i])
                &&& i < rest.len() - 1 ==> rest[i].last() == '\n'
            } by {
                assert(rest[i] == ps[i + 1]);
            }
        }
        lemma_split_concat(rest);
        lemma_concat_front(ps);
        let s = concat(ps);
        assert(s == p + concat(rest));
        assert(ps[0].len() > 0 && one_line(ps[0]));
        lemma_find_char(s, '\n');
        if p.last() == '\n' {
            let i = p.len() - 1;
            assert(s[i] == '\n');
            assert forall|j: int| 0 <= j < i implies s[j] != '\n' by {
                assert(s[j] == p[j]);
            }
            assert(find_char(s, '\n') == Some(i as nat));
            assert(s.take(i + 1) =~= p);
            assert(s.skip(i + 1) =~= concat(rest));
            assert(split_inclusive(s) =~= ps);
        } else {
            assert(ps.len() == 1);
            assert(rest =~= Seq::<Seq<char>>::empty());
            assert(s =~= p);
            assert forall|j: int| 0 <= j < s.len() implies s[j] != '\n' by {
                assert(s[j] == p[j]);
            }
            assert(find_char(s, '\n') is None);
            assert(split_inclusive(s) =~= ps);
        }
    }
}

} // verus!
