//! Facts about splitting text into lines and trimming it, for proofs that follow
//! content through a parse and a rewrite.
use crate::text::{
    find_char, is_space, join, lemma_find_char, lemma_trim_end_len, lemma_trim_start_len, lines,
    split, split_once, strip_cr, trim, trim_end, trim_start,
};
use vstd::prelude::*;

verus! {

/// No character of `s` is `c`.
pub open spec fn lacks(s: Seq<char>, c: char) -> bool {
    forall|i: int| 0 <= i < s.len() ==> s[i] != c
}

/// What the lines `ls` give when each line gives `g` of it, in order.
pub open spec fn gather<T>(ls: Seq<Seq<char>>, g: spec_fn(Seq<char>) -> Seq<T>) -> Seq<T>
    decreases ls.len(),
{
    if ls.len() == 0 {
        seq![]
    } else {
        gather(ls.drop_last(), g) + g(ls.last())
    }
}

/// A way of reading a line that gives nothing for an empty line and ignores a
/// carriage return at its end.
pub open spec fn line_blind(g: spec_fn(Seq<char>) -> Seq<(Seq<char>, bool)>) -> bool {
    &&& g(seq![]) == Seq::<(Seq<char>, bool)>::empty()
    &&& forall|l: Seq<char>| #[trigger] g(strip_cr(l)) == g(l)
}

pub proof fn lemma_gather_concat<T>(a: Seq<Seq<char>>, b: Seq<Seq<char>>, g: spec_fn(Seq<char>) -> Seq<T>)
    ensures
        gather(a + b, g) == gather(a, g) + gather(b, g),
    decreases b.len(),
{
    if b.len() == 0 {
        assert(a + b =~= a);
        assert(gather(a, g) + gather(b, g) =~= gather(a, g));
    } else {
        lemma_gather_concat(a, b.drop_last(), g);
        assert((a + b).drop_last() =~= a + b.drop_last());
        assert((a + b).last() == b.last());
        assert(gather(a, g) + gather(b.drop_last(), g) + g(b.last()) =~= gather(a, g) + (gather(
            b.drop_last(),
            g,
        ) + g(b.last())));
    }
}

pub proof fn lemma_gather_one<T>(l: Seq<char>, g: spec_fn(Seq<char>) -> Seq<T>)
    ensures
        gather(seq![l], g) == g(l),
{
    let one = seq![l];
    assert(one.drop_last() =~= Seq::<Seq<char>>::empty());
    assert(one.last() == l);
    assert(gather(one.drop_last(), g) =~= Seq::<T>::empty());
    assert(gather(one, g) == gather(one.drop_last(), g) + g(one.last()));
    assert(Seq::<T>::empty() + g(l) =~= g(l));
}

pub proof fn lemma_gather_nothing<T>(ls: Seq<Seq<char>>, g: spec_fn(Seq<char>) -> Seq<T>)
    requires
        forall|i: int| 0 <= i < ls.len() ==> #[trigger] g(ls[i]).len() == 0,
    ensures
        gather(ls, g).len() == 0,
    decreases ls.len(),
{
    if ls.len() > 0 {
        lemma_gather_nothing(ls.drop_last(), g);
        assert(g(ls[ls.len() - 1]).len() == 0);
    }
}

/// `find_char` finds the first `c`.
pub proof fn lemma_find_first(s: Seq<char>, c: char, i: int)
    requires
        0 <= i < s.len(),
        s[i] == c,
        forall|j: int| 0 <= j < i ==> s[j] != c,
    ensures
        find_char(s, c) == Some(i as nat),
{
    lemma_find_char(s, c);
    match find_char(s, c) {
        Some(k) => {
            if k < i {
                assert(s[k as int] != c);
            } else if k > i {
                assert(s[i] != c);
            }
        },
        None => {
            assert(s[i] != c);
        },
    }
}

pub proof fn lemma_find_none(s: Seq<char>, c: char)
    requires
        lacks(s, c),
    ensures
        find_char(s, c) is None,
{
    lemma_find_char(s, c);
    if let Some(k) = find_char(s, c) {
        assert(s[k as int] == c);
    }
}

/// Cutting `k`, `c` and `v` at the first `c` gives back `k` and `v` where `k` holds no `c`.
pub proof fn lemma_split_once_at(k: Seq<char>, c: char, v: Seq<char>)
    requires
        lacks(k, c),
    ensures
        split_once(k + seq![c] + v, c) == Some((k, v)),
{
    let s = k + seq![c] + v;
    assert(s[k.len() as int] == c);
    assert forall|j: int| 0 <= j < k.len() implies s[j] != c by {
        assert(s[j] == k[j]);
    }
    lemma_find_first(s, c, k.len() as int);
    assert(s.take(k.len() as int) =~= k);
    assert(s.skip(k.len() + 1int) =~= v);
}

/// A text without a line break is one line, or none when empty.
pub proof fn lemma_lines_one(w: Seq<char>)
    requires
        lacks(w, '\n'),
    ensures
        lines(w) == (if w.len() == 0 {
            Seq::<Seq<char>>::empty()
        } else {
            seq![w]
        }),
{
    lemma_find_none(w, '\n');
}

/// The first line break of `x`, `\n` and `y` ends the line `x`.
pub proof fn lemma_lines_break(x: Seq<char>, y: Seq<char>)
    requires
        lacks(x, '\n'),
    ensures
        lines(x + seq!['\n'] + y) == seq![strip_cr(x)] + lines(y),
{
    let s = x + seq!['\n'] + y;
    assert(s[x.len() as int] == '\n');
    assert forall|j: int| 0 <= j < x.len() implies s[j] != '\n' by {
        assert(s[j] == x[j]);
    }
    lemma_find_first(s, '\n', x.len() as int);
    assert(s.take(x.len() as int) =~= x);
    assert(s.skip(x.len() + 1int) =~= y);
}

/// Reading the lines of `x`, a line break and `y` gives what the lines of `x` give and
/// then what the lines of `y` give.
#[verifier::spinoff_prover]
pub proof fn lemma_gather_lines_break(
    x: Seq<char>,
    y: Seq<char>,
    g: spec_fn(Seq<char>) -> Seq<(Seq<char>, bool)>,
)
    requires
        line_blind(g),
    ensures
        gather(lines(x + seq!['\n'] + y), g) == gather(lines(x), g) + gather(lines(y), g),
    decreases x.len(),
{
    lemma_find_char(x, '\n');
    match find_char(x, '\n') {
        None => {
            lemma_lines_break(x, y);
            lemma_lines_one(x);
            lemma_gather_concat(seq![strip_cr(x)], lines(y), g);
            lemma_gather_one(strip_cr(x), g);
            assert(g(strip_cr(x)) == g(x));
            if x.len() == 0 {
                assert(x =~= Seq::<char>::empty());
                assert(gather(lines(x), g) + gather(lines(y), g) =~= gather(lines(y), g));
                assert(g(x) + gather(lines(y), g) =~= gather(lines(y), g));
            } else {
                lemma_gather_one(x, g);
            }
        },
        Some(i) => {
            let head = x.take(i as int);
            let tail = x.skip(i + 1int);
            assert(lacks(head, '\n'));
            assert(x =~= head + seq!['\n'] + tail);
            assert(x + seq!['\n'] + y =~= head + seq!['\n'] + (tail + seq!['\n'] + y));
            lemma_lines_break(head, tail + seq!['\n'] + y);
            lemma_lines_break(head, tail);
            lemma_gather_lines_break(tail, y, g);
            lemma_gather_concat(seq![strip_cr(head)], lines(tail + seq!['\n'] + y), g);
            lemma_gather_concat(seq![strip_cr(head)], lines(tail), g);
            assert(gather(seq![strip_cr(head)], g) + (gather(lines(tail), g) + gather(lines(y), g))
                =~= gather(seq![strip_cr(head)], g) + gather(lines(tail), g) + gather(lines(y), g));
        },
    }
}

/// Reading the lines of `ps` joined by line breaks reads each of `ps` as a line.
#[verifier::spinoff_prover]
pub proof fn lemma_gather_join(ps: Seq<Seq<char>>, g: spec_fn(Seq<char>) -> Seq<(Seq<char>, bool)>)
    requires
        line_blind(g),
        forall|i: int| 0 <= i < ps.len() ==> lacks(#[trigger] ps[i], '\n'),
    ensures
        gather(lines(join(ps, seq!['\n'])), g) == gather(ps, g),
    decreases ps.len(),
{
    if ps.len() == 0 {
        assert(lines(Seq::<char>::empty()) =~= Seq::<Seq<char>>::empty());
    } else {
        let last = ps.last();
        assert(lacks(ps[ps.len() - 1], '\n'));
        lemma_lines_one(last);
        if last.len() == 0 {
            assert(last =~= Seq::<char>::empty());
            assert(gather(lines(last), g).len() == 0);
        } else {
            lemma_gather_one(last, g);
        }
        if ps.len() == 1 {
            assert(ps =~= seq![last]);
            lemma_gather_one(last, g);
            assert(gather(lines(last), g) =~= g(last));
        } else {
            let init = ps.drop_last();
            assert forall|i: int| 0 <= i < init.len() implies lacks(#[trigger] init[i], '\n') by {
                assert(init[i] == ps[i]);
            }
            lemma_gather_join(init, g);
            lemma_gather_lines_break(join(init, seq!['\n']), last, g);
            assert(gather(lines(last), g) =~= g(last));
        }
    }
}

/// No line of `s` holds a line break.
pub proof fn lemma_lines_lack_break(s: Seq<char>)
    ensures
        forall|i: int| 0 <= i < lines(s).len() ==> lacks(#[trigger] lines(s)[i], '\n'),
    decreases s.len(),
{
    if s.len() > 0 {
        lemma_find_char(s, '\n');
        match find_char(s, '\n') {
            Some(i) => {
                lemma_lines_lack_break(s.skip(i + 1int));
                let first = strip_cr(s.take(i as int));
                assert(lacks(first, '\n'));
                let rest = lines(s.skip(i + 1int));
                assert forall|j: int| 0 <= j < lines(s).len() implies lacks(#[trigger] lines(s)[j], '\n') by {
                    if j > 0 {
                        assert(lines(s)[j] == rest[j - 1]);
                    }
                }
            },
            None => {},
        }
    }
}

/// No piece of `s` cut at every line break holds one.
pub proof fn lemma_split_lacks_break(s: Seq<char>)
    ensures
        forall|i: int| 0 <= i < split(s, '\n').len() ==> lacks(#[trigger] split(s, '\n')[i], '\n'),
    decreases s.len(),
{
    lemma_find_char(s, '\n');
    match find_char(s, '\n') {
        Some(i) => {
            lemma_split_lacks_break(s.skip(i + 1int));
            let rest = split(s.skip(i + 1int), '\n');
            assert forall|j: int| 0 <= j < split(s, '\n').len() implies lacks(
                #[trigger] split(s, '\n')[j],
                '\n',
            ) by {
                if j > 0 {
                    assert(split(s, '\n')[j] == rest[j - 1]);
                }
            }
        },
        None => {},
    }
}

/// Trimming keeps only characters of `s`.
pub proof fn lemma_trim_lacks(s: Seq<char>, c: char)
    requires
        lacks(s, c),
    ensures
        lacks(trim(s), c),
{
    lemma_trim_start_len(s);
    let k = choose|k: int| 0 <= k <= s.len() && trim_start(s) == s.skip(k);
    let t = trim_start(s);
    assert(lacks(t, c)) by {
        assert forall|i: int| 0 <= i < t.len() implies t[i] != c by {
            assert(t[i] == s[k + i]);
        }
    }
    lemma_trim_end_len(t);
    assert forall|i: int| 0 <= i < trim(s).len() implies trim(s)[i] != c by {
        assert(trim(s)[i] == t[i]);
    }
}

/// Trimming twice is trimming once.
pub proof fn lemma_trim_twice(s: Seq<char>)
    ensures
        trim(trim(s)) == trim(s),
{
    let a = trim_start(s);
    lemma_trim_start_len(s);
    lemma_trim_end_len(a);
    let b = trim_end(a);
    // `b` starts where `a` starts, and neither end is white space.
    if b.len() > 0 {
        assert(b[0] == a[0]);
    }
    assert(trim_start(b) == b);
    lemma_trim_end_len(b);
    if b.len() > 0 {
        assert(!is_space(b.last()));
    }
    assert(trim_end(b) == b);
}

/// A white-space character in front changes nothing of the trimmed text.
pub proof fn lemma_trim_space_front(c: char, s: Seq<char>)
    requires
        is_space(c),
    ensures
        trim(seq![c] + s) == trim(s),
{
    assert((seq![c] + s).drop_first() =~= s);
    assert((seq![c] + s)[0] == c);
}

proof fn lemma_trim_start_push_space(v: Seq<char>, c: char)
    requires
        is_space(c),
    ensures
        trim_start(v.push(c)) == (if trim_start(v).len() == 0 {
            Seq::<char>::empty()
        } else {
            trim_start(v).push(c)
        }),
    decreases v.len(),
{
    let w = v.push(c);
    if v.len() == 0 {
        assert(w.drop_first() =~= Seq::<char>::empty());
        assert(w[0] == c);
        assert(trim_start(Seq::<char>::empty()) =~= Seq::<char>::empty());
        assert(trim_start(w) == trim_start(w.drop_first()));
        assert(trim_start(v) =~= Seq::<char>::empty());
    } else if is_space(v[0]) {
        assert(w.drop_first() =~= v.drop_first().push(c));
        assert(w[0] == v[0]);
        lemma_trim_start_push_space(v.drop_first(), c);
        assert(trim_start(w) == trim_start(w.drop_first()));
        assert(trim_start(v) == trim_start(v.drop_first()));
    } else {
        assert(w[0] == v[0]);
        assert(trim_start(w) == w);
        assert(trim_start(v) == v);
    }
}

/// A white-space character at the end changes nothing of the trimmed text.
pub proof fn lemma_trim_space_back(v: Seq<char>, c: char)
    requires
        is_space(c),
    ensures
        trim(v.push(c)) == trim(v),
{
    lemma_trim_start_push_space(v, c);
    let a = trim_start(v);
    if a.len() > 0 {
        assert(a.push(c).drop_last() =~= a);
        assert(a.push(c).last() == c);
    }
}

/// A carriage return at the end of a line changes nothing of it trimmed.
pub proof fn lemma_trim_strip_cr(l: Seq<char>)
    ensures
        trim(strip_cr(l)) == trim(l),
{
    if l.len() > 0 && l.last() == '\r' {
        assert(l =~= l.drop_last().push('\r'));
        lemma_trim_space_back(l.drop_last(), '\r');
    }
}

/// Reading the lines of `s` reads the pieces of `s` cut at every line break, for a way
/// of reading that ignores empty lines and carriage returns.
#[verifier::spinoff_prover]
pub proof fn lemma_gather_lines_split(s: Seq<char>, g: spec_fn(Seq<char>) -> Seq<(Seq<char>, bool)>)
    requires
        line_blind(g),
    ensures
        gather(lines(s), g) == gather(split(s, '\n'), g),
    decreases s.len(),
{
    lemma_find_char(s, '\n');
    match find_char(s, '\n') {
        Some(i) => {
            let head = s.take(i as int);
            lemma_gather_lines_split(s.skip(i + 1int), g);
            lemma_gather_concat(seq![strip_cr(head)], lines(s.skip(i + 1int)), g);
            lemma_gather_concat(seq![head], split(s.skip(i + 1int), '\n'), g);
            lemma_gather_one(strip_cr(head), g);
            lemma_gather_one(head, g);
            assert(g(strip_cr(head)) == g(head));
        },
        None => {
            lemma_gather_one(s, g);
            if s.len() == 0 {
                assert(s =~= Seq::<char>::empty());
                assert(gather(lines(s), g) =~= Seq::<(Seq<char>, bool)>::empty());
            } else {
                assert(gather(lines(s), g) == gather(seq![s], g));
            }
        },
    }
}

} // verus!
