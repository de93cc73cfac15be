use crate::pass::commands::{body_lines, classify, pair_views, parse_entry, password_of, DecryptedEntry};
use crate::text::{
    concat, one_line, append, ends_with, eq, eq_ignore_ascii_case, string_views, eq_ignore_ascii_case_exec, lines, lines_exec,
    split_inclusive, split_inclusive_exec, split_once, split_once_exec, string_of, to_chars, trim,
    trim_exec, views,
};
use crate::keys::{KeyCode, KeyEvent};
use vstd::prelude::*;
use vstd::view::View as _;

verus! {

/// One recovery code of an entry, and whether it was marked used.
#[derive(Debug, Clone)]
pub struct Code {
    pub value: String,
    pub used: bool,
}

/// Whether `key` names a recovery-code line.
pub open spec fn is_field(key: Seq<char>) -> bool {
    eq_ignore_ascii_case(trim(key), "recovery-code"@) || eq_ignore_ascii_case(
        trim(key),
        "recovery-code-used"@,
    )
}

/// The recovery code that `line` holds: its trimmed value and whether it is marked used.
pub open spec fn code_of(line: Seq<char>) -> Option<(Seq<char>, bool)> {
    match split_once(line, ':') {
        Some((key, value)) => {
            if !is_field(key) || trim(value).len() == 0 {
                None
            } else {
                Some((trim(value), eq_ignore_ascii_case(trim(key), "recovery-code-used"@)))
            }
        },
        None => None,
    }
}

/// The recovery codes of the lines `ls`, in order.
pub open spec fn codes_of(ls: Seq<Seq<char>>) -> Seq<(Seq<char>, bool)>
    decreases ls.len(),
{
    if ls.len() == 0 {
        seq![]
    } else {
        let rest = codes_of(ls.drop_last());
        match code_of(ls.last()) {
            Some(c) => rest.push(c),
            None => rest,
        }
    }
}

/// The recovery codes of an entry's content: those on its lines after the first.
pub open spec fn content_codes(content: Seq<char>) -> Seq<(Seq<char>, bool)> {
    if lines(content).len() > 0 {
        codes_of(lines(content).drop_first())
    } else {
        seq![]
    }
}

pub open spec fn code_views(cs: Seq<Code>) -> Seq<(Seq<char>, bool)> {
    cs.map_values(|c: Code| (c.value@, c.used))
}

pub fn field(key: &str) -> (r: bool)
    ensures
        r == is_field(key@),
{
    let k = trim_exec(&to_chars(key));
    eq_ignore_ascii_case_exec(&k, &to_chars("recovery-code")) || eq_ignore_ascii_case_exec(
        &k,
        &to_chars("recovery-code-used"),
    )
}

fn is_field_chars(key: &Vec<char>) -> (r: bool)
    ensures
        r == is_field(key@),
{
    let k = trim_exec(key);
    eq_ignore_ascii_case_exec(&k, &to_chars("recovery-code")) || eq_ignore_ascii_case_exec(
        &k,
        &to_chars("recovery-code-used"),
    )
}

/// The recovery code on one line of an entry, if the line holds one.
pub fn parse_line_chars(line: &Vec<char>) -> (r: Option<Code>)
    ensures
        match code_of(line@) {
            Some((v, u)) => r matches Some(c) && c.value@ == v && c.used == u,
            None => r is None,
        },
{
    match split_once_exec(line, ':') {
        Some((key, value)) => {
            let v = trim_exec(&value);
            if !is_field_chars(&key) || v.len() == 0 {
                return None;
            }
            let k = trim_exec(&key);
            let used = eq_ignore_ascii_case_exec(&k, &to_chars("recovery-code-used"));
            Some(Code { value: string_of(&v), used })
        },
        None => None,
    }
}

pub fn parse_line(line: &str) -> (r: Option<Code>)
    ensures
        match code_of(line@) {
            Some((v, u)) => r matches Some(c) && c.value@ == v && c.used == u,
            None => r is None,
        },
{
    parse_line_chars(&to_chars(line))
}

/// The recovery codes of an entry's content, in order.
pub fn codes(content: &str) -> (r: Vec<Code>)
    ensures
        code_views(r@) == content_codes(content@),
{
    let ls = lines_exec(&to_chars(content));
    let ghost sls = views(ls@);
    let mut out: Vec<Code> = Vec::new();
    if ls.len() == 0 {
        assert(code_views(out@) =~= seq![]);
        return out;
    }
    let ghost body = sls.drop_first();
    let mut i: usize = 1;
    assert(body.take(0) =~= seq![]);
    assert(code_views(out@) =~= seq![]);
    while i < ls.len()
        invariant
            1 <= i <= ls.len(),
            sls == views(ls@),
            body == sls.drop_first(),
            code_views(out@) == codes_of(body.take(i - 1)),
        decreases ls.len() - i,
    {
        let ghost before = out@;
        proof {
            assert(body.take(i as int).drop_last() =~= body.take(i - 1));
            assert(body.take(i as int).last() == ls@[i as int]@);
        }
        match parse_line_chars(&ls[i]) {
            Some(c) => {
                out.push(c);
                assert(code_views(out@) =~= code_views(before).push((c.value@, c.used)));
            },
            None => {},
        }
        i += 1;
    }
    assert(body.take(ls.len() - 1) =~= body);
    out
}

/// The line ending that a piece of `split_inclusive` keeps.
pub open spec fn ending(piece: Seq<char>) -> Seq<char> {
    if ends_with(piece, "\r\n"@) {
        "\r\n"@
    } else if ends_with(piece, "\n"@) {
        "\n"@
    } else {
        seq![]
    }
}

/// The line that replaces a code line when its used mark is flipped.
pub open spec fn flipped(value: Seq<char>, used: bool, piece: Seq<char>) -> Seq<char> {
    (if used {
        "recovery-code: "@
    } else {
        "recovery-code-used: "@
    }) + value + ending(piece)
}

/// Reading the pieces `ps` in order: the output so far, how many code lines were seen
/// after the first piece, and whether the `selected`-th was flipped.
pub open spec fn toggle_scan(ps: Seq<Seq<char>>, selected: nat) -> (Seq<char>, nat, bool)
    decreases ps.len(),
{
    if ps.len() == 0 {
        (seq![], 0, false)
    } else {
        let (out, index, found) = toggle_scan(ps.drop_last(), selected);
        let piece = ps.last();
        if ps.len() > 1 && code_of(piece) is Some {
            let (value, used) = code_of(piece)->0;
            if index == selected {
                (out + flipped(value, used, piece), index + 1, true)
            } else {
                (out + piece, index + 1, found)
            }
        } else {
            (out + piece, index, found)
        }
    }
}

/// The pieces after toggling the `selected`-th code: `toggle_scan` keeping the pieces
/// apart.
pub open spec fn toggled_pieces(ps: Seq<Seq<char>>, selected: nat) -> (Seq<Seq<char>>, nat, bool)
    decreases ps.len(),
{
    if ps.len() == 0 {
        (seq![], 0, false)
    } else {
        let (qs, index, found) = toggled_pieces(ps.drop_last(), selected);
        let piece = ps.last();
        if ps.len() > 1 && code_of(piece) is Some {
            let (value, used) = code_of(piece)->0;
            if index == selected {
                (qs.push(flipped(value, used, piece)), index + 1, true)
            } else {
                (qs.push(piece), index + 1, found)
            }
        } else {
            (qs.push(piece), index, found)
        }
    }
}

/// Whether a code line is written as toggling writes it: `recovery-code: ` or
/// `recovery-code-used: `, the code, and the line ending.
pub open spec fn canonical(piece: Seq<char>) -> bool {
    code_of(piece) matches Some((value, used)) && piece == flipped(value, !used, piece)
}

/// Whether the `selected`-th code among the pieces `ps` (after the first) is written as
/// toggling writes it.
pub open spec fn selected_canonical(ps: Seq<Seq<char>>, selected: nat) -> bool {
    forall|j: int|
        1 <= j < ps.len() && code_of(#[trigger] ps[j]) is Some && toggled_pieces(
            ps.take(j),
            selected,
        ).1 == selected ==> canonical(ps[j])
}

proof fn lemma_scan_pieces(ps: Seq<Seq<char>>, selected: nat)
    ensures
        toggle_scan(ps, selected) == (
            concat(toggled_pieces(ps, selected).0),
            toggled_pieces(ps, selected).1,
            toggled_pieces(ps, selected).2,
        ),
        toggled_pieces(ps, selected).0.len() == ps.len(),
        forall|i: int|
            0 <= i < ps.len() ==> (#[trigger] toggled_pieces(ps, selected).0[i] == ps[i] || (
            code_of(ps[i]) matches Some((v, u)) && toggled_pieces(ps, selected).0[i] == flipped(
                v,
                u,
                ps[i],
            ))),
    decreases ps.len(),
{
    if ps.len() > 0 {
        lemma_scan_pieces(ps.drop_last(), selected);
        let qs = toggled_pieces(ps.drop_last(), selected).0;
        let r = toggled_pieces(ps, selected).0;
        assert(r.drop_last() =~= qs);
        assert forall|i: int| 0 <= i < ps.len() implies (#[trigger] r[i] == ps[i] || (
        code_of(ps[i]) matches Some((v, u)) && r[i] == flipped(v, u, ps[i]))) by {
            if i < ps.len() - 1 {
                assert(r[i] == qs[i]);
                assert(ps[i] == ps.drop_last()[i]);
            }
        }
    }
}

/// A code line written again with its mark flipped still holds the same code, now with
/// the other mark, on a line of its own with the same ending.
proof fn lemma_flipped_line(x: Seq<char>, v: Seq<char>, u: bool)
    requires
        code_of(x) == Some((v, u)),
        x.len() > 0,
        one_line(x),
    ensures
        code_of(flipped(v, u, x)) == Some((v, !u)),
        ending(flipped(v, u, x)) == ending(x),
        one_line(flipped(v, u, x)),
        flipped(v, u, x).len() > 0,
        flipped(v, u, x).last() == '\n' <==> x.last() == '\n',
{
    reveal_strlit("recovery-code: ");
    reveal_strlit("recovery-code-used: ");
    reveal_strlit("recovery-code");
    reveal_strlit("recovery-code-used");
    reveal_strlit("\r\n");
    reveal_strlit("\n");
    crate::text::lemma_find_char(x, ':');
    let i = crate::text::find_char(x, ':')->0 as int;
    let value = x.skip(i + 1);
    // The code is a stretch of the line with no space at its ends, so no line feed.
    crate::text::lemma_trim_start_len(value);
    crate::text::lemma_trim_end_len(crate::text::trim_start(value));
    let a = choose|a: int| 0 <= a <= value.len() && crate::text::trim_start(value) == value.skip(a);
    assert(v == trim(value));
    assert(v.len() > 0);
    assert(!crate::text::is_space(v[0])) by {
        crate::text::lemma_trim_start_len(value);
        assert(v[0] == crate::text::trim_start(value)[0]);
    }
    assert(!crate::text::is_space(v.last()));
    assert forall|m: int| 0 <= m < v.len() implies v[m] != '\n' by {
        assert(v[m] == x[i + 1 + a + m]);
        if i + 1 + a + m < x.len() - 1 {
        } else {
            assert(m == v.len() - 1);
        }
    }
    let e = ending(x);
    assert(e == "\r\n"@ || e == "\n"@ || e == Seq::<char>::empty());
    assert(forall|m: int| 0 <= m < e.len() ==> crate::text::is_space(#[trigger] e[m]));
    let prefix = if u {
        "recovery-code: "@
    } else {
        "recovery-code-used: "@
    };
    let q = flipped(v, u, x);
    assert(q == prefix + v + e);
    let pos = if u {
        13int
    } else {
        18int
    };
    assert(q[pos] == ':');
    assert forall|j: int| 0 <= j < pos implies q[j] != ':' by {
        assert(q[j] == prefix[j]);
    }
    crate::text::lemma_find_char(q, ':');
    assert(crate::text::find_char(q, ':') == Some(pos as nat));
    let key = q.take(pos);
    let rest = q.skip(pos + 1);
    assert(key =~= if u {
        "recovery-code"@
    } else {
        "recovery-code-used"@
    });
    assert(rest =~= seq![' '] + (v + e));
    crate::text::lemma_trim_start(key, 0);
    crate::text::lemma_trim_end(key, key.len() as int);
    assert(key.skip(0) =~= key);
    assert(key.take(key.len() as int) =~= key);
    assert(trim(key) == key);
    crate::text::lemma_trim_start(rest, 1);
    assert(rest.skip(1) =~= v + e);
    crate::text::lemma_trim_end(v + e, v.len() as int);
    assert((v + e).take(v.len() as int) =~= v);
    assert(trim(rest) == v);
    assert(eq_ignore_ascii_case(key, key));
    if u {
        assert(key.len() != "recovery-code-used"@.len());
    }
    assert(code_of(q) == Some((v, !u)));
    assert forall|m: int| 0 <= m < q.len() - 1 implies q[m] != '\n' by {
        if m < prefix.len() {
            assert(q[m] == prefix[m]);
        } else if m < prefix.len() + v.len() {
            assert(q[m] == v[m - prefix.len()]);
        } else {
            assert(q[m] == e[m - prefix.len() - v.len()]);
        }
    }
    if ends_with(x, "\r\n"@) {
        assert(x.last() == x.skip(x.len() - 2)[1]);
    } else if ends_with(x, "\n"@) {
        assert(x.last() == x.skip(x.len() - 1)[0]);
    } else {
        if x.last() == '\n' {
            assert(x.skip(x.len() - 1) =~= "\n"@);
        }
    }
    if e == "\r\n"@ {
        assert(q.skip(q.len() - 2) =~= "\r\n"@);
        assert(q.last() == '\n');
    } else if e == "\n"@ {
        assert(q.skip(q.len() - 1) =~= "\n"@);
        assert(q[q.len() - 2] == v.last());
        assert(q.skip(q.len() - 2)[0] == v.last());
        assert(!ends_with(q, "\r\n"@));
        assert(q.last() == '\n');
    } else {
        assert(q.last() == v.last());
        assert(q.skip(q.len() - 1)[0] == v.last());
        assert(!ends_with(q, "\n"@));
        if q.len() >= 2 {
            assert(q.skip(q.len() - 2)[1] == v.last());
        }
        assert(!ends_with(q, "\r\n"@));
    }
}

proof fn lemma_toggled_pieces_twice(ps: Seq<Seq<char>>, k: nat)
    requires
        forall|i: int| 0 <= i < ps.len() ==> #[trigger] ps[i].len() > 0 && one_line(ps[i]),
        selected_canonical(ps, k),
    ensures
        toggled_pieces(toggled_pieces(ps, k).0, k) == (
            ps,
            toggled_pieces(ps, k).1,
            toggled_pieces(ps, k).2,
        ),
    decreases ps.len(),
{
    if ps.len() > 0 {
        let pre = ps.drop_last();
        assert forall|i: int| 0 <= i < pre.len() implies #[trigger] pre[i].len() > 0 && one_line(
            pre[i],
        ) by {
            assert(pre[i] == ps[i]);
        }
        assert forall|j: int|
            1 <= j < pre.len() && code_of(#[trigger] pre[j]) is Some && toggled_pieces(
                pre.take(j),
                k,
            ).1 == k implies canonical(pre[j]) by {
            assert(pre[j] == ps[j]);
            assert(pre.take(j) =~= ps.take(j));
        }
        lemma_toggled_pieces_twice(pre, k);
        lemma_scan_pieces(pre, k);
        let qs = toggled_pieces(pre, k).0;
        let idx = toggled_pieces(pre, k).1;
        let x = ps.last();
        let r = toggled_pieces(ps, k).0;
        assert(r.drop_last() =~= qs);
        assert(r.len() == ps.len());
        assert(pre.push(x) =~= ps);
        if ps.len() > 1 && code_of(x) is Some {
            let (v, u) = code_of(x)->0;
            if idx == k {
                let j = ps.len() - 1;
                assert(ps.take(j) =~= pre);
                assert(ps[j] == x);
                assert(canonical(x));
                lemma_flipped_line(x, v, u);
                assert(r.last() == flipped(v, u, x));
                assert(flipped(v, !u, flipped(v, u, x)) == x);
            } else {
                assert(r.last() == x);
            }
        } else {
            assert(r.last() == x);
        }
    }
}

/// Toggling the same code twice gives the entry back, when that code's line is written
/// as toggling writes it (`recovery-code: ` or `recovery-code-used: `, the code, the
/// line ending).
pub proof fn lemma_toggle_twice(content: Seq<char>, selected: nat)
    requires
        toggle_scan(split_inclusive(content), selected).2,
        selected_canonical(split_inclusive(content), selected),
    ensures
        toggle_scan(split_inclusive(toggle_scan(split_inclusive(content), selected).0), selected).2,
        toggle_scan(split_inclusive(toggle_scan(split_inclusive(content), selected).0), selected).0
            == content,
{
    let ps = split_inclusive(content);
    crate::text::lemma_split_inclusive(content);
    lemma_scan_pieces(ps, selected);
    let qs = toggled_pieces(ps, selected).0;
    assert(forall|i: int| 0 <= i < ps.len() ==> #[trigger] ps[i].len() > 0 && one_line(ps[i]));
    assert(crate::text::line_pieces(qs)) by {
        assert forall|i: int| 0 <= i < qs.len() implies {
            &&& #[trigger] qs[i].len() > 0
            &&& one_line(qs[i])
            &&& i < qs.len() - 1 ==> qs[i].last() == '\n'
        } by {
            assert(ps[i].len() > 0 && one_line(ps[i]));
            if qs[i] != ps[i] {
                let (v, u) = code_of(ps[i])->0;
                lemma_flipped_line(ps[i], v, u);
            }
        }
    }
    crate::text::lemma_split_concat(qs);
    lemma_toggled_pieces_twice(ps, selected);
    lemma_scan_pieces(qs, selected);
}

/// A white-space character other than `:` at the end of a line changes nothing of the
/// code that the line holds.
pub proof fn lemma_code_of_push_space(m: Seq<char>, c: char)
    requires
        crate::text::is_space(c),
        c != ':',
    ensures
        code_of(m.push(c)) == code_of(m),
{
    let l = m.push(c);
    crate::text::lemma_find_char(m, ':');
    match crate::text::find_char(m, ':') {
        Some(i) => {
            assert(l[i as int] == m[i as int]);
            assert forall|j: int| 0 <= j < i implies l[j] != ':' by {
                assert(l[j] == m[j]);
            }
            crate::text_facts::lemma_find_first(l, ':', i as int);
            assert(l.take(i as int) =~= m.take(i as int));
            assert(l.skip(i + 1int) =~= m.skip(i + 1int).push(c));
            crate::text_facts::lemma_trim_space_back(m.skip(i + 1int), c);
        },
        None => {
            assert(crate::text_facts::lacks(l, ':')) by {
                assert forall|j: int| 0 <= j < l.len() implies l[j] != ':' by {
                    if j < m.len() {
                        assert(l[j] == m[j]);
                    }
                }
            }
            crate::text_facts::lemma_find_none(l, ':');
        },
    }
}

/// A carriage return at the end of a line changes nothing of the code that it holds.
pub proof fn lemma_code_of_strip_cr(l: Seq<char>)
    ensures
        code_of(crate::text::strip_cr(l)) == code_of(l),
{
    if l.len() > 0 && l.last() == '\r' {
        assert(l =~= l.drop_last().push('\r'));
        lemma_code_of_push_space(l.drop_last(), '\r');
    }
}

/// The lines of a text and its pieces with their endings come in the same number, and
/// each line holds the code that its piece holds.
proof fn lemma_lines_and_pieces(s: Seq<char>)
    ensures
        lines(s).len() == split_inclusive(s).len(),
        forall|i: int|
            0 <= i < lines(s).len() ==> code_of(#[trigger] lines(s)[i]) == code_of(
                split_inclusive(s)[i],
            ),
    decreases s.len(),
{
    crate::text::lemma_find_char(s, '\n');
    if s.len() > 0 {
        if let Some(k) = crate::text::find_char(s, '\n') {
            let head = s.take(k as int);
            let rest = s.skip(k + 1int);
            lemma_lines_and_pieces(rest);
            assert(s.take(k + 1int) =~= head.push('\n'));
            lemma_code_of_push_space(head, '\n');
            lemma_code_of_strip_cr(head);
            assert forall|i: int| 0 <= i < lines(s).len() implies code_of(#[trigger] lines(s)[i])
                == code_of(split_inclusive(s)[i]) by {
                if i > 0 {
                    assert(lines(s)[i] == lines(rest)[i - 1]);
                    assert(split_inclusive(s)[i] == split_inclusive(rest)[i - 1]);
                }
            }
        }
    }
}

/// Lines that hold the same codes, one for one, hold the same codes in all.
proof fn lemma_codes_of_same(a: Seq<Seq<char>>, b: Seq<Seq<char>>)
    requires
        a.len() == b.len(),
        forall|i: int| 0 <= i < a.len() ==> code_of(#[trigger] a[i]) == code_of(b[i]),
    ensures
        codes_of(a) == codes_of(b),
    decreases a.len(),
{
    if a.len() > 0 {
        lemma_codes_of_same(a.drop_last(), b.drop_last());
        assert(code_of(a[a.len() - 1]) == code_of(b[b.len() - 1]));
    }
}

/// The codes that an entry's content holds are those of its pieces after the first.
proof fn lemma_content_codes_pieces(content: Seq<char>)
    ensures
        content_codes(content) == (if split_inclusive(content).len() > 0 {
            codes_of(split_inclusive(content).drop_first())
        } else {
            seq![]
        }),
{
    lemma_lines_and_pieces(content);
    let ls = lines(content);
    let ps = split_inclusive(content);
    if ls.len() > 0 {
        assert forall|i: int| 0 <= i < ls.drop_first().len() implies code_of(
            #[trigger] ls.drop_first()[i],
        ) == code_of(ps.drop_first()[i]) by {
            assert(ls.drop_first()[i] == ls[i + 1]);
            assert(ps.drop_first()[i] == ps[i + 1]);
        }
        lemma_codes_of_same(ls.drop_first(), ps.drop_first());
    }
}

/// Reading pieces, the count of code lines seen is the number of codes after the first
/// piece, and the selected code was flipped exactly when it is among them.
proof fn lemma_scan_count(ps: Seq<Seq<char>>, selected: nat)
    ensures
        toggle_scan(ps, selected).1 == (if ps.len() > 0 {
            codes_of(ps.drop_first()).len()
        } else {
            0
        }),
        toggle_scan(ps, selected).2 <==> selected < toggle_scan(ps, selected).1,
    decreases ps.len(),
{
    if ps.len() > 0 {
        let pre = ps.drop_last();
        lemma_scan_count(pre, selected);
        if ps.len() > 1 {
            assert(ps.drop_first().drop_last() =~= pre.drop_first());
            assert(ps.drop_first().last() == ps.last());
        } else {
            assert(ps.drop_first() =~= Seq::<Seq<char>>::empty());
        }
    }
}

/// The used mark of a code flipped.
pub open spec fn flip_code(c: (Seq<char>, bool)) -> (Seq<char>, bool) {
    (c.0, !c.1)
}

/// Toggling pieces changes the codes after the first piece in one place at most: the
/// selected one, whose mark is flipped.
proof fn lemma_toggled_codes(ps: Seq<Seq<char>>, selected: nat)
    requires
        forall|i: int| 0 <= i < ps.len() ==> #[trigger] ps[i].len() > 0 && one_line(ps[i]),
        ps.len() > 0,
    ensures
        toggled_pieces(ps, selected).0.len() == ps.len(),
        codes_of(toggled_pieces(ps, selected).0.drop_first()) == (if toggled_pieces(
            ps,
            selected,
        ).2 {
            codes_of(ps.drop_first()).update(
                selected as int,
                flip_code(codes_of(ps.drop_first())[selected as int]),
            )
        } else {
            codes_of(ps.drop_first())
        }),
    decreases ps.len(),
{
    lemma_scan_pieces(ps, selected);
    lemma_scan_count(ps, selected);
    let (qs, index, found) = toggled_pieces(ps, selected);
    let x = ps.last();
    if ps.len() == 1 {
        assert(qs.drop_first() =~= Seq::<Seq<char>>::empty());
        assert(ps.drop_first() =~= Seq::<Seq<char>>::empty());
    } else {
        let pre = ps.drop_last();
        assert forall|i: int| 0 <= i < pre.len() implies #[trigger] pre[i].len() > 0 && one_line(
            pre[i],
        ) by {
            assert(pre[i] == ps[i]);
        }
        lemma_toggled_codes(pre, selected);
        lemma_scan_pieces(pre, selected);
        lemma_scan_count(pre, selected);
        let (pqs, pindex, pfound) = toggled_pieces(pre, selected);
        let old_codes = codes_of(pre.drop_first());
        let old_new = codes_of(pqs.drop_first());
        assert(ps.drop_first().drop_last() =~= pre.drop_first());
        assert(ps.drop_first().last() == x);
        assert(qs.drop_last() =~= pqs);
        assert(qs.drop_first().drop_last() =~= pqs.drop_first());
        assert(pindex == old_codes.len());
        if code_of(x) is Some {
            let (v, u) = code_of(x)->0;
            assert(codes_of(ps.drop_first()) == old_codes.push((v, u)));
            assert(x.len() > 0 && one_line(x));
            if pindex == selected {
                lemma_flipped_line(x, v, u);
                assert(qs.last() == flipped(v, u, x));
                assert(qs.drop_first().last() == qs.last());
                assert(!pfound);
                assert(codes_of(qs.drop_first()) == old_new.push((v, !u)));
                assert(codes_of(qs.drop_first()) =~= old_codes.push((v, u)).update(
                    selected as int,
                    flip_code((v, u)),
                ));
            } else {
                assert(qs.last() == x);
                assert(qs.drop_first().last() == qs.last());
                assert(codes_of(qs.drop_first()) == old_new.push((v, u)));
                if pfound {
                    assert(codes_of(qs.drop_first()) =~= old_codes.push((v, u)).update(
                        selected as int,
                        flip_code(old_codes.push((v, u))[selected as int]),
                    ));
                }
            }
        } else {
            assert(qs.last() == x);
            assert(qs.drop_first().last() == qs.last());
            assert(codes_of(ps.drop_first()) == old_codes);
            assert(codes_of(qs.drop_first()) == old_new);
        }
    }
}

/// Toggling fails exactly when the entry holds no code at `selected`; when it succeeds,
/// the entry afterwards holds the same codes in the same order, the selected one with its
/// used mark flipped.
pub proof fn lemma_toggle_codes(content: Seq<char>, selected: nat)
    ensures
        toggle_scan(split_inclusive(content), selected).2 <==> selected < content_codes(
            content,
        ).len(),
        selected < content_codes(content).len() ==> content_codes(
            toggle_scan(split_inclusive(content), selected).0,
        ) == content_codes(content).update(
            selected as int,
            flip_code(content_codes(content)[selected as int]),
        ),
{
    let ps = split_inclusive(content);
    lemma_content_codes_pieces(content);
    lemma_scan_count(ps, selected);
    if selected < content_codes(content).len() {
        crate::text::lemma_split_inclusive(content);
        lemma_scan_pieces(ps, selected);
        lemma_toggled_codes(ps, selected);
        let qs = toggled_pieces(ps, selected).0;
        assert(crate::text::line_pieces(qs)) by {
            assert forall|i: int| 0 <= i < qs.len() implies {
                &&& #[trigger] qs[i].len() > 0
                &&& one_line(qs[i])
                &&& i < qs.len() - 1 ==> qs[i].last() == '\n'
            } by {
                assert(ps[i].len() > 0 && one_line(ps[i]));
                if qs[i] != ps[i] {
                    let (v, u) = code_of(ps[i])->0;
                    lemma_flipped_line(ps[i], v, u);
                }
            }
        }
        crate::text::lemma_split_concat(qs);
        lemma_content_codes_pieces(concat(qs));
    }
}

/// Change one occurrence, preserving all other lines (including duplicate codes).
pub fn toggle(content: &str, selected: usize) -> (r: Result<String, String>)
    ensures
        toggle_scan(split_inclusive(content@), selected as nat).2 ==> (r matches Ok(s) && s@
            == toggle_scan(split_inclusive(content@), selected as nat).0),
        !toggle_scan(split_inclusive(content@), selected as nat).2 ==> (r matches Err(e) && e@
            == "Recovery code no longer exists. Reopen the entry."@),
{
    let ps = split_inclusive_exec(&to_chars(content));
    let ghost sps = views(ps@);
    let mut out: Vec<char> = Vec::new();
    let mut index: usize = 0;
    let mut found = false;
    let mut k: usize = 0;
    assert(sps.take(0) =~= seq![]);
    while k < ps.len()
        invariant
            k <= ps.len(),
            sps == views(ps@),
            index <= k,
            (out@, index as nat, found) == toggle_scan(sps.take(k as int), selected as nat),
        decreases ps.len() - k,
    {
        let piece = &ps[k];
        proof {
            assert(sps.take(k + 1).drop_last() =~= sps.take(k as int));
            assert(sps.take(k + 1).last() == piece@);
        }
        let code = if k > 0 {
            parse_line_chars(piece)
        } else {
            None
        };
        match code {
            Some(c) => {
                if index == selected {
                    let head = if c.used {
                        to_chars("recovery-code: ")
                    } else {
                        to_chars("recovery-code-used: ")
                    };
                    append(&mut out, &head);
                    append(&mut out, &to_chars(c.value.as_str()));
                    let crlf = to_chars("\r\n");
                    let lf = to_chars("\n");
                    if crate::text::ends_with_exec(piece, &crlf) {
                        append(&mut out, &crlf);
                    } else if crate::text::ends_with_exec(piece, &lf) {
                        append(&mut out, &lf);
                    }
                    found = true;
                } else {
                    append(&mut out, piece);
                }
                index += 1;
            },
            None => {
                append(&mut out, piece);
            },
        }
        k += 1;
    }
    assert(sps.take(ps.len() as int) =~= sps);
    if found {
        Ok(string_of(&out))
    } else {
        Err("Recovery code no longer exists. Reopen the entry.".to_owned())
    }
}

/// The content to save after toggling the `selected`-th code of `original`, and the
/// entry it makes, when the entry still reads `current` as it did when opened;
/// otherwise why nothing is saved.
pub fn save_toggle(original: &str, selected: usize, current: &str) -> (r: Result<
    (String, DecryptedEntry),
    String,
>)
    ensures
        !toggle_scan(split_inclusive(original@), selected as nat).2 ==> (r matches Err(e) && e@
            == "Recovery code no longer exists. Reopen the entry."@),
        toggle_scan(split_inclusive(original@), selected as nat).2 && current@ != original@ ==> (
        r matches Err(e) && e@
            == "Entry changed since opening. Close and reopen recovery codes before retrying."@),
        toggle_scan(split_inclusive(original@), selected as nat).2 && current@ == original@ ==> (
        r matches Ok((c, entry)) && c@ == toggle_scan(split_inclusive(original@), selected as nat).0
            && entry.content@ == c@ && entry.password@ == password_of(c@) && pair_views(
            entry.fields@,
        ) == classify(body_lines(c@)).0 && string_views(entry.notes@) == classify(
            body_lines(c@),
        ).1),
{
    let content = match toggle(original, selected) {
        Ok(c) => c,
        Err(e) => {
            return Err(e);
        },
    };
    if !eq(&to_chars(current), &to_chars(original)) {
        return Err(
            "Entry changed since opening. Close and reopen recovery codes before retrying.".to_owned(),
        );
    }
    let entry = parse_entry(content.as_str());
    Ok((content, entry))
}

/// The recovery-code view of one entry.
pub struct View {
    pub path: String,
    pub entry: DecryptedEntry,
    pub selected: usize,
    /// The moment until which the selected code is shown, in milliseconds of the
    /// caller's monotonic clock.
    pub reveal_until: Option<u64>,
    pub confirming: bool,
    pub error: Option<String>,
}

impl View {
    pub fn new(path: String, entry: DecryptedEntry) -> (r: Self)
        ensures
            r.path == path,
            r.entry == entry,
            r.selected == 0,
            r.reveal_until is None,
            !r.confirming,
            r.error is None,
    {
        View { path, entry, selected: 0, reveal_until: None, confirming: false, error: None }
    }

    pub fn codes(&self) -> (r: Vec<Code>)
        ensures
            code_views(r@) == content_codes(self.entry.content@),
    {
        codes(self.entry.content.as_str())
    }

    /// Whether the selected code is shown at the moment `now`.
    pub fn revealed(&self, now: u64) -> (r: bool)
        ensures
            r == (self.reveal_until matches Some(until) && until > now),
    {
        match self.reveal_until {
            Some(until) => until > now,
            None => false,
        }
    }
}

/// What a key in the recovery-code popup asks of its caller.
#[derive(Clone, Debug, PartialEq, Eq)]
pub enum RecoveryAction {
    Nothing,
    Close,
    /// Flip the used mark of this code and save the entry.
    Save(usize),
    /// Copy this code to the clipboard.
    Copy(String),
}

pub open spec fn used_code_error() -> Seq<char> {
    "This code is marked used. Press x to mark it available if that was a mistake."@
}

/// The moment `millis` after `now`, or the last one there is.
pub open spec fn later(now: u64, millis: u64) -> u64 {
    if now + millis <= u64::MAX {
        (now + millis) as u64
    } else {
        u64::MAX
    }
}

/// The selection one line down in a list of `n` lines.
pub open spec fn step_down(selected: usize, n: nat) -> usize {
    if n == 0 {
        0
    } else if selected + 1 < n {
        (selected + 1) as usize
    } else {
        (n - 1) as usize
    }
}

/// The popup after `key` at the moment `now`, and what the key asks of the caller:
/// a pending `x` is confirmed by `y` alone; `y` copies only a code still available.
pub open spec fn recovery_step(o: View, f: View, r: RecoveryAction, key: KeyEvent, now: u64) -> bool {
    &&& f.path == o.path
    &&& f.entry == o.entry
    &&& {
            let cs = content_codes(o.entry.content@);
            let unchanged = f.selected == o.selected && f.reveal_until == o.reveal_until
                && f.confirming == o.confirming && f.error == o.error;
            if o.confirming {
                &&& !f.confirming && f.selected == o.selected && f.error == o.error
                &&& key.code == KeyCode::Char('y') ==> r == RecoveryAction::Save(o.selected)
                    && f.reveal_until is None
                &&& key.code != KeyCode::Char('y') ==> r == RecoveryAction::Nothing
                    && f.reveal_until == o.reveal_until
            } else {
                match key.code {
                    KeyCode::Esc | KeyCode::Char('q') => r == RecoveryAction::Close && unchanged,
                    KeyCode::Up | KeyCode::Char('k') => r == RecoveryAction::Nothing && f.selected == (
                    if o.selected > 0 {
                        o.selected - 1
                    } else {
                        0
                    }) && f.reveal_until is None && f.error is None && f.confirming
                        == o.confirming,
                    KeyCode::Down | KeyCode::Char('j') => r == RecoveryAction::Nothing && f.selected
                        == step_down(o.selected, cs.len()) && f.reveal_until is None
                        && f.error is None && f.confirming == o.confirming,
                    KeyCode::Char('p') => r == RecoveryAction::Nothing && f.reveal_until == (
                    if (o.reveal_until matches Some(until) && until > now) {
                        None
                    } else {
                        Some(later(now, 15000))
                    }) && f.selected == o.selected && f.confirming == o.confirming && f.error
                        == o.error,
                    KeyCode::Char('x') => r == RecoveryAction::Nothing && f.confirming == (cs.len()
                        > 0) && f.selected == o.selected && f.reveal_until == o.reveal_until
                        && f.error == o.error,
                    KeyCode::Char('y') => if o.selected < cs.len() {
                        if cs[o.selected as int].1 {
                            &&& r == RecoveryAction::Nothing
                            &&& (f.error matches Some(e) && e@ == used_code_error())
                            &&& f.selected == o.selected && f.reveal_until == o.reveal_until
                            &&& f.confirming == o.confirming
                        } else {
                            &&& (r matches RecoveryAction::Copy(v) && v@ == cs[o.selected as int].0)
                            &&& unchanged
                        }
                    } else {
                        r == RecoveryAction::Nothing && unchanged
                    },
                    _ => r == RecoveryAction::Nothing && unchanged,
                }
            }
    }
}

impl View {
    /// Handles a key at the moment `now`: the popup's state changes in place and the
    /// action is for the caller. A pending `x` is confirmed by `y` alone; `y` copies
    /// only a code still available.
    pub fn handle_key(&mut self, key: KeyEvent, now: u64) -> (r: RecoveryAction)
        ensures
            recovery_step(*old(self), *final(self), r, key, now),
    {
        if self.confirming {
            self.confirming = false;
            if key.code == KeyCode::Char('y') {
                self.reveal_until = None;
                return RecoveryAction::Save(self.selected);
            }
            return RecoveryAction::Nothing;
        }
        match key.code {
            KeyCode::Esc | KeyCode::Char('q') => RecoveryAction::Close,
            KeyCode::Up | KeyCode::Char('k') => {
                if self.selected > 0 {
                    self.selected = self.selected - 1;
                }
                self.reveal_until = None;
                self.error = None;
                RecoveryAction::Nothing
            },
            KeyCode::Down | KeyCode::Char('j') => {
                let n = self.codes().len();
                self.selected = if n == 0 {
                    0
                } else if self.selected < n - 1 {
                    self.selected + 1
                } else {
                    n - 1
                };
                self.reveal_until = None;
                self.error = None;
                RecoveryAction::Nothing
            },
            KeyCode::Char('p') => {
                self.reveal_until = if self.revealed(now) {
                    None
                } else {
                    Some(now.saturating_add(15000))
                };
                RecoveryAction::Nothing
            },
            KeyCode::Char('x') => {
                if self.codes().len() > 0 {
                    self.confirming = true;
                }
                RecoveryAction::Nothing
            },
            KeyCode::Char('y') => {
                let cs = self.codes();
                if self.selected < cs.len() {
                    assert(code_views(cs@)[self.selected as int] == (
                    cs@[self.selected as int].value@,
                    cs@[self.selected as int].used,
                    ));
                    if cs[self.selected].used {
                        self.error = Some("This code is marked used. Press x to mark it available if that was a mistake.".to_owned());
                        RecoveryAction::Nothing
                    } else {
                        RecoveryAction::Copy(cs[self.selected].value.clone())
                    }
                } else {
                    RecoveryAction::Nothing
                }
            },
            _ => RecoveryAction::Nothing,
        }
    }
}

} // verus!
