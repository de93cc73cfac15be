use crate::keys::{KeyCode, KeyEvent};
use crate::text::{
    append, find, find_char, is_control, is_ctrl, push_char, rfind, rfind_char, slice,
    string_of, string_of_range, to_chars,
};
use vstd::prelude::*;
use vstd::utf8::{
    decode_utf8, decode_utf8_encode_utf8, decode_utf8_split, encode_utf8,
    encode_utf8_decode_utf8, encode_utf8_first_scalar, encode_utf8_valid_utf8, is_char_boundary,
    is_char_boundary_start_end_of_seq, pop_first_scalar, valid_utf8, valid_utf8_split,
};

verus! {

// ---------------------------------------------------------------------
// Texts as bytes
// ---------------------------------------------------------------------
/// The bytes of a text in UTF-8.
pub open spec fn bytes(t: Seq<char>) -> Seq<u8> {
    encode_utf8(t)
}

/// The greatest character boundary of `b` that is not after `p`.
pub open spec fn floor_boundary(b: Seq<u8>, p: int) -> int
    decreases p,
{
    if p <= 0 {
        0
    } else if is_char_boundary(b, p) {
        p
    } else {
        floor_boundary(b, p - 1)
    }
}

/// The byte position of the cursor `cursor` in text `t`: the cursor, or the end when it
/// was never placed or lies beyond it, moved back to a character boundary.
pub open spec fn position_of(cursor: Option<usize>, t: Seq<char>) -> int {
    let len = bytes(t).len() as int;
    let c = match cursor {
        Some(c) => if c < len {
            c as int
        } else {
            len
        },
        None => len,
    };
    floor_boundary(bytes(t), c)
}

/// The characters of `t` whose bytes come before byte `p`.
pub open spec fn before(t: Seq<char>, p: int) -> Seq<char> {
    decode_utf8(bytes(t).subrange(0, p))
}

/// The characters of `t` whose bytes come from byte `p` on.
pub open spec fn after(t: Seq<char>, p: int) -> Seq<char> {
    decode_utf8(bytes(t).subrange(p, bytes(t).len() as int))
}

pub proof fn lemma_floor_boundary(b: Seq<u8>, p: int)
    requires
        valid_utf8(b),
        p <= b.len(),
    ensures
        0 <= floor_boundary(b, p) <= if p < 0 {
            0
        } else {
            p
        },
        is_char_boundary(b, floor_boundary(b, p)),
        forall|q: int| floor_boundary(b, p) < q <= p ==> !is_char_boundary(b, q),
        p >= 0 && is_char_boundary(b, p) ==> floor_boundary(b, p) == p,
    decreases p,
{
    is_char_boundary_start_end_of_seq(b);
    if p > 0 && !is_char_boundary(b, p) {
        lemma_floor_boundary(b, p - 1);
    }
}

/// Encoding a concatenation concatenates the encodings.
pub proof fn lemma_bytes_concat(a: Seq<char>, b: Seq<char>)
    ensures
        bytes(a + b) == bytes(a) + bytes(b),
    decreases a.len(),
{
    if a.len() == 0 {
        assert(a + b =~= b);
        assert(bytes(a) + bytes(b) =~= bytes(b));
    } else {
        lemma_bytes_concat(a.drop_first(), b);
        assert((a + b).drop_first() =~= a.drop_first() + b);
        assert((a + b)[0] == a[0]);
        assert(bytes(a + b) =~= bytes(a) + bytes(b));
    }
}

/// The end of the bytes of `a` is a character boundary of the bytes of `a + b`.
pub proof fn lemma_boundary_concat(a: Seq<char>, b: Seq<char>)
    ensures
        is_char_boundary(bytes(a + b), bytes(a).len() as int),
    decreases a.len(),
{
    encode_utf8_valid_utf8(a + b);
    if a.len() > 0 {
        let c = a + b;
        encode_utf8_first_scalar(c);
        encode_utf8_valid_utf8(c.drop_first());
        assert(pop_first_scalar(bytes(c)) =~= bytes(c.drop_first()));
        assert(c.drop_first() =~= a.drop_first() + b);
        assert(c[0] == a[0]);
        lemma_bytes_concat(a, b);
        lemma_boundary_concat(a.drop_first(), b);
    }
}

/// A text splits at a character boundary into what comes before and after it.
pub proof fn lemma_split(t: Seq<char>, p: int)
    requires
        is_char_boundary(bytes(t), p),
    ensures
        0 <= p <= bytes(t).len(),
        before(t, p) + after(t, p) == t,
        bytes(before(t, p)) == bytes(t).subrange(0, p),
        bytes(after(t, p)) == bytes(t).subrange(p, bytes(t).len() as int),
{
    let b = bytes(t);
    encode_utf8_valid_utf8(t);
    if p < 0 || p > b.len() {
        assert(!is_char_boundary(b, p));
    }
    valid_utf8_split(b, p);
    decode_utf8_split(b, p);
    encode_utf8_decode_utf8(t);
    decode_utf8_encode_utf8(b.subrange(0, p));
    decode_utf8_encode_utf8(b.subrange(p, b.len() as int));
}

/// Splitting `a + b` at the end of the bytes of `a` gives back `a` and `b`.
pub proof fn lemma_split_concat(a: Seq<char>, b: Seq<char>)
    ensures
        is_char_boundary(bytes(a + b), bytes(a).len() as int),
        before(a + b, bytes(a).len() as int) == a,
        after(a + b, bytes(a).len() as int) == b,
{
    lemma_bytes_concat(a, b);
    lemma_boundary_concat(a, b);
    let n = bytes(a).len() as int;
    assert(bytes(a + b).subrange(0, n) =~= bytes(a));
    assert(bytes(a + b).subrange(n, bytes(a + b).len() as int) =~= bytes(b));
    encode_utf8_decode_utf8(a);
    encode_utf8_decode_utf8(b);
}

/// A cursor on a character boundary stays where it is.
pub proof fn lemma_position_on_boundary(c: usize, t: Seq<char>)
    requires
        c <= bytes(t).len(),
        is_char_boundary(bytes(t), c as int),
    ensures
        position_of(Some(c), t) == c,
{
    encode_utf8_valid_utf8(t);
    lemma_floor_boundary(bytes(t), c as int);
}

/// The number of bytes of a string slice.
fn byte_count(s: &str) -> (n: usize)
    ensures
        n == bytes(s@).len(),
{
    s.as_bytes().len()
}

/// The number of bytes that the characters `v[..k]` take.
fn byte_len(v: &Vec<char>, k: usize) -> (n: usize)
    requires
        k <= v.len(),
    ensures
        n == bytes(v@.take(k as int)).len(),
{
    let s = string_of_range(v, 0, k);
    byte_count(s.as_str())
}

/// The characters of `text` before and from byte `pos`.
fn split_text(text: &str, pos: usize) -> (r: (Vec<char>, Vec<char>))
    requires
        is_char_boundary(bytes(text@), pos as int),
    ensures
        r.0@ == before(text@, pos as int),
        r.1@ == after(text@, pos as int),
        r.0@ + r.1@ == text@,
        bytes(r.0@).len() == pos,
        bytes(r.1@).len() == bytes(text@).len() - pos,
{
    proof {
        lemma_split(text@, pos as int);
    }
    let (a, b) = text.split_at(pos);
    proof {
        encode_utf8_decode_utf8(a@);
        encode_utf8_decode_utf8(b@);
    }
    (to_chars(a), to_chars(b))
}

// ---------------------------------------------------------------------
// The model of an input field
// ---------------------------------------------------------------------
/// The state of an input field apart from its text: the cursor (a byte offset, if it
/// was placed) and the texts and cursors to go back and forward to.
pub struct InputView {
    pub cursor: Option<usize>,
    pub undo: Seq<(Seq<char>, usize)>,
    pub redo: Seq<(Seq<char>, usize)>,
}

/// Cursor and undo history of one text field. Byte offsets always land on a UTF-8
/// boundary. Undo stays in memory only.
pub struct TextInput {
    cursor: Option<usize>,
    undo: Vec<(String, usize)>,
    redo: Vec<(String, usize)>,
}

pub open spec fn entry_views(es: Seq<(String, usize)>) -> Seq<(Seq<char>, usize)> {
    es.map_values(|e: (String, usize)| (e.0@, e.1))
}

impl View for TextInput {
    type V = InputView;

    closed spec fn view(&self) -> InputView {
        InputView { cursor: self.cursor, undo: entry_views(self.undo@), redo: entry_views(self.redo@) }
    }
}

/// The history after remembering text `t` with the cursor at `pos`: at most a hundred
/// steps back are kept when a new one is added, and nothing is left to redo.
pub open spec fn remembered(s: InputView, t: Seq<char>, pos: int) -> InputView {
    InputView {
        cursor: s.cursor,
        undo: (if s.undo.len() == 100 {
            s.undo.drop_first()
        } else {
            s.undo
        }).push((t, pos as usize)),
        redo: seq![],
    }
}

/// `s` with the cursor placed at byte `c`.
pub open spec fn moved(s: InputView, c: int) -> InputView {
    InputView { cursor: Some(c as usize), undo: s.undo, redo: s.redo }
}

/// One step back: the last remembered text comes back with its cursor, and the text
/// left behind can be redone.
pub open spec fn undone(s: InputView, t: Seq<char>) -> (InputView, Seq<char>) {
    if s.undo.len() == 0 {
        (s, t)
    } else {
        let last = s.undo.last();
        (
            InputView {
                cursor: Some(last.1),
                undo: s.undo.drop_last(),
                redo: s.redo.push((t, position_of(s.cursor, t) as usize)),
            },
            last.0,
        )
    }
}

/// One step forward again, the mirror of `undone`.
pub open spec fn redone(s: InputView, t: Seq<char>) -> (InputView, Seq<char>) {
    if s.redo.len() == 0 {
        (s, t)
    } else {
        let last = s.redo.last();
        (
            InputView {
                cursor: Some(last.1),
                undo: s.undo.push((t, position_of(s.cursor, t) as usize)),
                redo: s.redo.drop_last(),
            },
            last.0,
        )
    }
}

/// `v` with every `\r\n`, and every other `\r`, turned into `\n`.
pub open spec fn normalized(v: Seq<char>) -> Seq<char>
    decreases v.len(),
{
    if v.len() == 0 {
        v
    } else if v[0] == '\r' && v.len() >= 2 && v[1] == '\n' {
        seq!['\n'] + normalized(v.skip(2))
    } else if v[0] == '\r' {
        seq!['\n'] + normalized(v.drop_first())
    } else {
        seq![v[0]] + normalized(v.drop_first())
    }
}

/// Whether a field accepts character `c`: no control characters, except line feeds and
/// tabs in a multi-line field.
pub open spec fn accepted(c: char, multiline: bool) -> bool {
    !is_ctrl(c) || (multiline && (c == '\n' || c == '\t'))
}

/// Whether some character of `v` is one that the field does not accept.
pub open spec fn rejects(v: Seq<char>, multiline: bool) -> bool {
    exists|i: int| 0 <= i < v.len() && !accepted(#[trigger] v[i], multiline)
}

pub open spec fn single_line_error() -> Seq<char> {
    "This field accepts a single line without control characters."@
}

/// Inserting the (accepted, normalized) value `v` at the cursor: one step to undo, the
/// value in place, and the cursor after it. An empty value changes nothing.
pub open spec fn inserted(s: InputView, t: Seq<char>, v: Seq<char>) -> (InputView, Seq<char>) {
    if v.len() == 0 {
        (s, t)
    } else {
        let p = position_of(s.cursor, t);
        let l = before(t, p);
        (moved(remembered(s, t, p), bytes(l + v).len() as int), l + v + after(t, p))
    }
}

/// Where Left puts the cursor: on the character before it.
pub open spec fn left_target(l: Seq<char>) -> int {
    if l.len() == 0 {
        0
    } else {
        bytes(l.drop_last()).len() as int
    }
}

/// Where Right puts the cursor: after the character under it.
pub open spec fn right_target(l: Seq<char>, r: Seq<char>) -> int {
    if r.len() == 0 {
        bytes(l).len() as int
    } else {
        bytes(l.push(r[0])).len() as int
    }
}

/// Where Home puts the cursor: at the start of its line.
pub open spec fn home_target(l: Seq<char>) -> int {
    match rfind_char(l, '\n') {
        Some(k) => bytes(l.take(k + 1int)).len() as int,
        None => 0,
    }
}

/// Where End puts the cursor: at the end of its line.
pub open spec fn end_target(l: Seq<char>, r: Seq<char>) -> int {
    match find_char(r, '\n') {
        Some(k) => bytes(l + r.take(k as int)).len() as int,
        None => bytes(l + r).len() as int,
    }
}

/// What a key press does to an input field holding text `t`: the new state, the new
/// text, and whether the field used the key.
pub open spec fn handled(s: InputView, t: Seq<char>, key: KeyEvent) -> (InputView, Seq<char>, bool) {
    let p = position_of(s.cursor, t);
    let l = before(t, p);
    let r = after(t, p);
    if key.ctrl {
        match key.code {
            KeyCode::Char('z') => (undone(s, t).0, undone(s, t).1, true),
            KeyCode::Char('y') => (redone(s, t).0, redone(s, t).1, true),
            KeyCode::Char('u') => (moved(remembered(s, t, p), 0), seq![], true),
            _ => (s, t, false),
        }
    } else {
        match key.code {
            KeyCode::Left => (moved(s, left_target(l)), t, true),
            KeyCode::Right => (moved(s, right_target(l, r)), t, true),
            KeyCode::Home => (moved(s, home_target(l)), t, true),
            KeyCode::End => (moved(s, end_target(l, r)), t, true),
            KeyCode::Backspace => if p > 0 {
                (
                    moved(remembered(s, t, p), bytes(l.drop_last()).len() as int),
                    l.drop_last() + r,
                    true,
                )
            } else {
                (s, t, false)
            },
            KeyCode::Delete => if p < bytes(t).len() {
                (moved(remembered(s, t, p), p), l + r.drop_first(), true)
            } else {
                (s, t, false)
            },
            KeyCode::Char(c) => if !key.alt && !is_ctrl(c) {
                (inserted(s, t, seq![c]).0, inserted(s, t, seq![c]).1, true)
            } else {
                (s, t, false)
            },
            _ => (s, t, false),
        }
    }
}

/// How the text shows: masked, every character but a line feed is a dot.
pub open spec fn shown(v: Seq<char>, masked: bool) -> Seq<char> {
    if masked {
        v.map_values(|c: char| if c == '\n' { '\n' } else { '•' })
    } else {
        v
    }
}

/// A text with its line endings normalized.
fn normalize(value: &str) -> (r: Vec<char>)
    ensures
        r@ == normalized(value@),
{
    let v = to_chars(value);
    let mut r: Vec<char> = Vec::new();
    let mut i: usize = 0;
    assert(v@.skip(0) =~= v@);
    while i < v.len()
        invariant
            i <= v.len(),
            v@ == value@,
            r@ + normalized(v@.skip(i as int)) == normalized(v@),
        decreases v.len() - i,
    {
        let ghost rest = v@.skip(i as int);
        if v[i] == '\r' && i + 1 < v.len() && v[i + 1] == '\n' {
            r.push('\n');
            assert(rest.skip(2) =~= v@.skip(i + 2));
            i += 2;
        } else if v[i] == '\r' {
            r.push('\n');
            assert(rest.drop_first() =~= v@.skip(i + 1));
            i += 1;
        } else {
            r.push(v[i]);
            assert(rest.drop_first() =~= v@.skip(i + 1));
            i += 1;
        }
        assert(r@ + normalized(v@.skip(i as int)) =~= normalized(v@));
    }
    assert(v@.skip(i as int) =~= seq![]);
    assert(r@ =~= r@ + normalized(v@.skip(i as int)));
    r
}

/// The characters of `v`, shown as `shown` says.
fn show(v: &Vec<char>, masked: bool, out: &mut String)
    ensures
        final(out)@ == old(out)@ + shown(v@, masked),
{
    let ghost o = out@;
    let mut i: usize = 0;
    while i < v.len()
        invariant
            i <= v.len(),
            out@ == o + shown(v@.take(i as int), masked),
        decreases v.len() - i,
    {
        let c = v[i];
        push_char(out, if masked && c != '\n' { '•' } else { c });
        i += 1;
        assert(shown(v@.take(i as int), masked) =~= shown(v@.take(i - 1), masked).push(
            if masked && c != '\n' { '•' } else { c },
        ));
    }
    assert(v@.take(v.len() as int) =~= v@);
}

/// A field that was never touched: no cursor placed, nothing to undo or redo.
pub open spec fn is_fresh(s: InputView) -> bool {
    s.cursor is None && s.undo.len() == 0 && s.redo.len() == 0
}

/// Wipes each text of a history as it leaves it, until none is left.
fn wipe_entries(v: &mut Vec<(String, usize)>)
    ensures
        final(v)@.len() == 0,
{
    while v.len() > 0
        decreases v.len(),
    {
        match v.pop() {
            Some((mut t, _)) => crate::text::wipe(&mut t),
            None => {},
        }
    }
}

impl TextInput {
    pub fn new() -> (r: Self)
        ensures
            is_fresh(r@),
    {
        let r = TextInput { cursor: None, undo: Vec::new(), redo: Vec::new() };
        assert(r@.undo =~= seq![]);
        assert(r@.redo =~= seq![]);
        r
    }

    /// Forgets the cursor and the history, wiping every text the history held.
    pub fn reset(&mut self)
        ensures
            is_fresh(final(self)@),
    {
        wipe_entries(&mut self.undo);
        wipe_entries(&mut self.redo);
        self.cursor = None;
    }

    /// The cursor as a byte offset in `text`, moved back to a character boundary.
    pub fn position(&self, text: &str) -> (r: usize)
        ensures
            r == position_of(self@.cursor, text@),
            is_char_boundary(bytes(text@), r as int),
            r <= bytes(text@).len(),
    {
        let len = byte_count(text);
        let mut pos = match self.cursor {
            Some(c) => if c < len {
                c
            } else {
                len
            },
            None => len,
        };
        let ghost b = bytes(text@);
        proof {
            encode_utf8_valid_utf8(text@);
            lemma_floor_boundary(b, pos as int);
        }
        while !text.is_char_boundary(pos)
            invariant
                b == bytes(text@),
                valid_utf8(b),
                0 <= pos <= b.len(),
                floor_boundary(b, pos as int) == position_of(self@.cursor, text@),
            decreases pos,
        {
            proof {
                is_char_boundary_start_end_of_seq(b);
            }
            pos -= 1;
        }
        proof {
            lemma_floor_boundary(b, pos as int);
        }
        pos
    }

    /// Remembers `text`, with the cursor, as the newest step to undo: at most a hundred
    /// steps are kept (the oldest goes first, wiped), nothing is left to redo (wiped),
    /// and the cursor stays.
    pub fn remember(&mut self, text: &String)
        ensures
            final(self)@ == remembered(old(self)@, text@, position_of(old(self)@.cursor, text@)),
            old(self)@.undo.len() <= 100 ==> {
                &&& final(self)@.undo.len() == if old(self)@.undo.len() < 100 {
                    old(self)@.undo.len() + 1
                } else {
                    100
                }
                &&& final(self)@.undo.last() == (text@, position_of(old(self)@.cursor, text@) as usize)
                &&& old(self)@.undo.len() < 100 ==> final(self)@.undo.take(old(self)@.undo.len() as int)
                    == old(self)@.undo
                &&& old(self)@.undo.len() == 100 ==> final(self)@.undo.take(99) == old(self)@.undo.skip(1)
            },
            final(self)@.redo.len() == 0,
            final(self)@.cursor == old(self)@.cursor,
    {
        let ghost s0 = self@;
        if self.undo.len() == 100 {
            let (mut dropped, _) = self.undo.remove(0);
            crate::text::wipe(&mut dropped);
        }
        let pos = self.position(text.as_str());
        self.undo.push((text.clone(), pos));
        wipe_entries(&mut self.redo);
        proof {
            let expect = remembered(s0, text@, pos as int);
            assert(self@.undo =~= expect.undo);
            assert(self@.redo =~= expect.redo);
            if s0.undo.len() <= 100 {
                lemma_remember_keeps_last_hundred(s0, text@, pos as int);
            }
        }
    }

    /// Undoes one step, if there is one; `pos` is where the cursor is now.
    fn step_back(&mut self, text: &mut String, pos: usize)
        requires
            pos == position_of(old(self)@.cursor, old(text)@),
        ensures
            final(self)@ == undone(old(self)@, old(text)@).0,
            final(text)@ == undone(old(self)@, old(text)@).1,
    {
        let ghost s0 = self@;
        let ghost t0 = text@;
        match self.undo.pop() {
            Some(entry) => {
                let (mut previous, cursor) = entry;
                std::mem::swap(text, &mut previous);
                self.redo.push((previous, pos));
                self.cursor = Some(cursor);
                proof {
                    assert(self@.undo =~= s0.undo.drop_last());
                    assert(self@.redo =~= s0.redo.push((t0, pos)));
                }
            },
            None => {},
        }
    }

    /// Redoes one step, if there is one; `pos` is where the cursor is now.
    fn step_forward(&mut self, text: &mut String, pos: usize)
        requires
            pos == position_of(old(self)@.cursor, old(text)@),
        ensures
            final(self)@ == redone(old(self)@, old(text)@).0,
            final(text)@ == redone(old(self)@, old(text)@).1,
    {
        let ghost s0 = self@;
        let ghost t0 = text@;
        match self.redo.pop() {
            Some(entry) => {
                let (mut next, cursor) = entry;
                std::mem::swap(text, &mut next);
                self.undo.push((next, pos));
                self.cursor = Some(cursor);
                proof {
                    assert(self@.redo =~= s0.redo.drop_last());
                    assert(self@.undo =~= s0.undo.push((t0, pos)));
                }
            },
            None => {},
        }
    }

    /// Inserts `value` at the cursor as one step to undo, with its line endings
    /// normalized. A value with a character that the field does not accept is refused
    /// and nothing changes.
    pub fn insert(&mut self, text: &mut String, value: &str, multiline: bool) -> (r: Result<
        (),
        String,
    >)
        ensures
            rejects(normalized(value@), multiline) ==> (r matches Err(e) && e@
                == single_line_error() && final(self)@ == old(self)@ && final(text)@ == old(
                text,
            )@),
            !rejects(normalized(value@), multiline) ==> (r is Ok && final(self)@ == inserted(
                old(self)@,
                old(text)@,
                normalized(value@),
            ).0 && final(text)@ == inserted(old(self)@, old(text)@, normalized(value@)).1),
    {
        let v = normalize(value);
        let mut i: usize = 0;
        while i < v.len()
            invariant
                i <= v.len(),
                v@ == normalized(value@),
                forall|j: int| 0 <= j < i ==> accepted(#[trigger] v@[j], multiline),
            decreases v.len() - i,
        {
            let c = v[i];
            if is_control(c) && !(multiline && (c == '\n' || c == '\t')) {
                assert(!accepted(v@[i as int], multiline));
                assert(rejects(v@, multiline));
                return Err("This field accepts a single line without control characters.".to_owned());
            }
            i += 1;
        }
        if v.len() == 0 {
            return Ok(());
        }
        self.remember(text);
        let pos = self.position(text.as_str());
        let (l, r) = split_text(text.as_str(), pos);
        let mut m = l;
        append(&mut m, &v);
        assert(m@.take(m.len() as int) =~= m@);
        let c = byte_len(&m, m.len());
        append(&mut m, &r);
        *text = string_of(&m);
        self.cursor = Some(c);
        Ok(())
    }

    /// Handles a key press on the field: editing, cursor movement, undo (Ctrl+Z), redo
    /// (Ctrl+Y) and clearing (Ctrl+U). Returns whether the field used the key.
    pub fn handle(&mut self, text: &mut String, key: KeyEvent) -> (r: bool)
        ensures
            final(self)@ == handled(old(self)@, old(text)@, key).0,
            final(text)@ == handled(old(self)@, old(text)@, key).1,
            r == handled(old(self)@, old(text)@, key).2,
    {
        let pos = self.position(text.as_str());
        if key.ctrl {
            match key.code {
                KeyCode::Char('z') => {
                    self.step_back(text, pos);
                    true
                },
                KeyCode::Char('y') => {
                    self.step_forward(text, pos);
                    true
                },
                KeyCode::Char('u') => {
                    self.remember(text);
                    crate::text::wipe(text);
                    self.cursor = Some(0);
                    true
                },
                _ => false,
            }
        } else {
            let (l, r) = split_text(text.as_str(), pos);
            match key.code {
                KeyCode::Left => {
                    let c = if l.len() == 0 {
                        0
                    } else {
                        let k = l.len() - 1;
                        assert(l@.take(k as int) =~= l@.drop_last());
                        byte_len(&l, k)
                    };
                    self.cursor = Some(c);
                    true
                },
                KeyCode::Right => {
                    let c = if r.len() == 0 {
                        pos
                    } else {
                        let mut m = slice(&l, 0, l.len());
                        assert(l@.subrange(0, l.len() as int) =~= l@);
                        m.push(r[0]);
                        assert(m@.take(m.len() as int) =~= m@);
                        byte_len(&m, m.len())
                    };
                    self.cursor = Some(c);
                    true
                },
                KeyCode::Home => {
                    let c = match rfind(&l, '\n') {
                        Some(k) => byte_len(&l, k + 1),
                        None => 0,
                    };
                    self.cursor = Some(c);
                    true
                },
                KeyCode::End => {
                    let c = match find(&r, '\n') {
                        Some(k) => {
                            let mut m = slice(&l, 0, l.len());
                            assert(l@.subrange(0, l.len() as int) =~= l@);
                            let head = slice(&r, 0, k);
                            append(&mut m, &head);
                            assert(m@.take(m.len() as int) =~= m@);
                            assert(r@.subrange(0, k as int) =~= r@.take(k as int));
                            byte_len(&m, m.len())
                        },
                        None => byte_count(text.as_str()),
                    };
                    self.cursor = Some(c);
                    true
                },
                KeyCode::Backspace => {
                    if pos == 0 {
                        return false;
                    }
                    proof {
                        if l.len() == 0 {
                            assert(bytes(l@) =~= seq![]);
                        }
                    }
                    self.remember(text);
                    let mut m = slice(&l, 0, l.len() - 1);
                    assert(m@ =~= l@.drop_last());
                    assert(m@.take(m.len() as int) =~= m@);
                    let c = byte_len(&m, m.len());
                    append(&mut m, &r);
                    *text = string_of(&m);
                    self.cursor = Some(c);
                    true
                },
                KeyCode::Delete => {
                    let n = byte_count(text.as_str());
                    if pos >= n {
                        return false;
                    }
                    proof {
                        if r.len() == 0 {
                            assert(bytes(r@) =~= seq![]);
                        }
                    }
                    self.remember(text);
                    let mut m = slice(&l, 0, l.len());
                    assert(l@.subrange(0, l.len() as int) =~= l@);
                    let tail = slice(&r, 1, r.len());
                    assert(tail@ =~= r@.drop_first());
                    append(&mut m, &tail);
                    *text = string_of(&m);
                    self.cursor = Some(pos);
                    true
                },
                KeyCode::Char(c) => {
                    if key.alt || is_control(c) {
                        return false;
                    }
                    let mut typed = String::new();
                    push_char(&mut typed, c);
                    proof {
                        let v = seq![c];
                        assert(typed@ =~= v);
                        assert(v.drop_first() =~= Seq::<char>::empty());
                        assert(normalized(Seq::<char>::empty()) =~= Seq::<char>::empty());
                        assert(normalized(v) =~= v);
                        assert(!rejects(v, false)) by {
                            assert forall|i: int| 0 <= i < v.len() implies accepted(
                                #[trigger] v[i],
                                false,
                            ) by {
                                assert(v[i] == c);
                            }
                        }
                    }
                    let _ = self.insert(text, typed.as_str(), false);
                    true
                },
                _ => false,
            }
        }
    }

    /// The text with a block cursor at the cursor's place; masked, every character but
    /// a line feed shows as a dot.
    pub fn display(&self, text: &str, masked: bool) -> (r: String)
        ensures
            ({
                let p = position_of(self@.cursor, text@);
                r@ == shown(before(text@, p), masked) + seq!['█'] + shown(after(text@, p), masked)
            }),
    {
        let pos = self.position(text);
        let (l, r) = split_text(text, pos);
        let mut out = String::new();
        show(&l, masked, &mut out);
        push_char(&mut out, '█');
        show(&r, masked, &mut out);
        out
    }
}


// ---------------------------------------------------------------------
// Laws of the input field
// ---------------------------------------------------------------------
/// The cursor position of a field is a character boundary of its text.
pub proof fn lemma_position_is_boundary(cursor: Option<usize>, t: Seq<char>)
    ensures
        0 <= position_of(cursor, t) <= bytes(t).len(),
        is_char_boundary(bytes(t), position_of(cursor, t)),
{
    encode_utf8_valid_utf8(t);
    let len = bytes(t).len() as int;
    let c = match cursor {
        Some(c) => if c < len {
            c as int
        } else {
            len
        },
        None => len,
    };
    lemma_floor_boundary(bytes(t), c);
}

/// Undo takes back an insertion as one step: the text and the cursor are what they were
/// before it, and the inserted text can be redone.
pub proof fn lemma_undo_reverts_insert(s: InputView, t: Seq<char>, v: Seq<char>)
    requires
        v.len() > 0,
        bytes(t).len() + bytes(v).len() <= usize::MAX,
    ensures
        ({
            let p = position_of(s.cursor, t);
            let (s1, t1) = inserted(s, t, v);
            let (s2, t2) = undone(s1, t1);
            &&& t2 == t
            &&& s2.cursor == Some(p as usize)
            &&& s2.undo == (if s.undo.len() == 100 {
                s.undo.drop_first()
            } else {
                s.undo
            })
            &&& s2.redo == seq![(t1, s1.cursor->0)]
        }),
{
    let p = position_of(s.cursor, t);
    lemma_position_is_boundary(s.cursor, t);
    lemma_split(t, p);
    let l = before(t, p);
    let r = after(t, p);
    let (s1, t1) = inserted(s, t, v);
    assert(t1 == (l + v) + r);
    lemma_split_concat(l + v, r);
    lemma_bytes_concat(l, v);
    lemma_bytes_concat(l + v, r);
    let c = bytes(l + v).len();
    assert(c <= usize::MAX);
    lemma_position_on_boundary(c as usize, t1);
    let (s2, t2) = undone(s1, t1);
    assert(s2.undo =~= (if s.undo.len() == 100 {
        s.undo.drop_first()
    } else {
        s.undo
    }));
    assert(s2.redo =~= seq![(t1, s1.cursor->0)]);
}

/// Redo takes back an undo: the text and the cursor are what they were, and nothing is
/// left to redo that was not there before.
pub proof fn lemma_redo_reverts_undo(s: InputView, t: Seq<char>)
    requires
        s.undo.len() > 0,
    ensures
        ({
            let (s1, t1) = undone(s, t);
            let (s2, t2) = redone(s1, t1);
            &&& t2 == t
            &&& s2.cursor == Some(position_of(s.cursor, t) as usize)
            &&& s2.redo == s.redo
            &&& s2.undo.len() == s.undo.len()
            &&& s2.undo.drop_last() == s.undo.drop_last()
            &&& s2.undo.last().0 == s.undo.last().0
        }),
{
    let (s1, t1) = undone(s, t);
    let (s2, t2) = redone(s1, t1);
    assert(s2.redo =~= s.redo);
    assert(s2.undo.drop_last() =~= s.undo.drop_last());
}

/// Clearing a field with Ctrl+U can be undone with Ctrl+Z.
pub proof fn lemma_undo_reverts_clear(s: InputView, t: Seq<char>)
    requires
        bytes(t).len() <= usize::MAX,
    ensures
        ({
            let clear = KeyEvent { code: KeyCode::Char('u'), ctrl: true, alt: false };
            let back = KeyEvent { code: KeyCode::Char('z'), ctrl: true, alt: false };
            let (s1, t1, used1) = handled(s, t, clear);
            let (s2, t2, used2) = handled(s1, t1, back);
            &&& used1 && used2
            &&& t1.len() == 0
            &&& t2 == t
            &&& s2.cursor == Some(position_of(s.cursor, t) as usize)
        }),
{
    lemma_position_is_boundary(s.cursor, t);
    let empty = Seq::<char>::empty();
    assert(bytes(empty) =~= Seq::<u8>::empty());
}

/// The history of a field never holds more than a hundred steps, to undo and to redo
/// together: no edit, undo or redo makes it longer than that.
pub proof fn lemma_history_bounded(s: InputView, t: Seq<char>, key: KeyEvent, v: Seq<char>)
    requires
        s.undo.len() + s.redo.len() <= 100,
    ensures
        handled(s, t, key).0.undo.len() + handled(s, t, key).0.redo.len() <= 100,
        inserted(s, t, v).0.undo.len() + inserted(s, t, v).0.redo.len() <= 100,
{
}

/// Remembering the text before an edit adds it, with the cursor, as the newest step to
/// undo; with a hundred steps already kept the oldest is dropped; nothing is left to
/// redo, and the cursor stays.
pub proof fn lemma_remember_keeps_last_hundred(s: InputView, t: Seq<char>, pos: int)
    requires
        s.undo.len() <= 100,
        0 <= pos <= usize::MAX,
    ensures
        remembered(s, t, pos).undo.len() == if s.undo.len() < 100 {
            s.undo.len() + 1
        } else {
            100
        },
        remembered(s, t, pos).undo.last() == (t, pos as usize),
        s.undo.len() < 100 ==> remembered(s, t, pos).undo.take(s.undo.len() as int) == s.undo,
        s.undo.len() == 100 ==> remembered(s, t, pos).undo.take(99) == s.undo.skip(1),
        remembered(s, t, pos).redo.len() == 0,
        remembered(s, t, pos).cursor == s.cursor,
{
    let r = remembered(s, t, pos);
    if s.undo.len() < 100 {
        assert(r.undo.take(s.undo.len() as int) =~= s.undo);
    } else {
        assert(r.undo.take(99) =~= s.undo.skip(1));
    }
}

} // verus!
