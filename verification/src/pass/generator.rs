//! Generated passwords and passphrases, and the strength score of a password.
use crate::text::{join, push_char, string_views, to_chars};
use rand::Rng;
use vstd::prelude::*;
use vstd::string::StringExecFns;

verus! {

/// What the generator makes: random characters, or random words joined by `-`.
#[derive(Clone, Copy, Debug, PartialEq, Eq, Structural)]
pub enum GeneratorMode {
    Password,
    Passphrase,
}

/// Declares `rand::rngs::ThreadRng` to Verus; a value of it is opaque here.
#[verifier::external_type_specification]
#[verifier::external_body]
pub struct ExThreadRng(rand::rngs::ThreadRng);

/// Calls `rand::rng`, the generator of this thread, seeded by the operating system.
/// Nothing is claimed of it.
#[verifier::external_body]
fn thread_rng() -> rand::rngs::ThreadRng {
    rand::rng()
}

/// Calls `rand::Rng::random_range` on `0..n`; trusted to return a number below `n`,
/// as its documentation says. It panics on an empty range, which `n > 0` excludes.
#[verifier::external_body]
fn random_below(rng: &mut rand::rngs::ThreadRng, n: usize) -> (r: usize)
    requires
        n > 0,
    ensures
        r < n,
{
    rng.random_range(0..n)
}

/// Calls `zxcvbn::zxcvbn` with no user inputs and reads `Entropy::score`; trusted to
/// return a number from 0 to 4, the values of `zxcvbn::Score`. Nothing more is claimed:
/// the estimate also depends on the current year, which zxcvbn reads from the clock.
#[verifier::external_body]
fn estimate_score(password: &str) -> (r: u8)
    ensures
        r <= 4,
{
    zxcvbn::zxcvbn(password, &[]).score() as u8
}

/// The characters a password is drawn from: lower-case letters, then the classes asked
/// for.
pub open spec fn charset(uppercase: bool, numbers: bool, symbols: bool) -> Seq<char> {
    "abcdefghijklmnopqrstuvwxyz"@ + (if uppercase {
        "ABCDEFGHIJKLMNOPQRSTUVWXYZ"@
    } else {
        seq![]
    }) + (if numbers {
        "0123456789"@
    } else {
        seq![]
    }) + (if symbols {
        "!@#$%^&*()-_=+[]{}:,.?"@
    } else {
        seq![]
    })
}

fn charset_exec(uppercase: bool, numbers: bool, symbols: bool) -> (r: Vec<char>)
    ensures
        r@ == charset(uppercase, numbers, symbols),
        r@.len() > 0,
{
    let mut s = "abcdefghijklmnopqrstuvwxyz".to_owned();
    if uppercase {
        s.append("ABCDEFGHIJKLMNOPQRSTUVWXYZ");
    }
    if numbers {
        s.append("0123456789");
    }
    if symbols {
        s.append("!@#$%^&*()-_=+[]{}:,.?");
    }
    proof {
        reveal_strlit("abcdefghijklmnopqrstuvwxyz");
    }
    let r = to_chars(s.as_str());
    assert(r@ =~= charset(uppercase, numbers, symbols));
    r
}

/// The text that the draws `d` pick from `set`, one character per draw.
pub open spec fn drawn(set: Seq<char>, d: Seq<usize>) -> Seq<char> {
    Seq::new(d.len(), |i: int| set[d[i] as int])
}

/// The words that the draws `d` pick from `words`, joined by `-`.
pub open spec fn drawn_phrase(words: Seq<Seq<char>>, d: Seq<usize>) -> Seq<char> {
    join(Seq::new(d.len(), |i: int| words[d[i] as int]), "-"@)
}

/// Whether every draw in `d` picks one of `n` items.
pub open spec fn draws_below(d: Seq<usize>, n: nat) -> bool {
    forall|i: int| 0 <= i < d.len() ==> #[trigger] d[i] < n
}

/// The password that the draws pick from `set`: the character at each drawn index.
pub fn from_draws(set: &Vec<char>, draws: &Vec<usize>) -> (r: String)
    requires
        draws_below(draws@, set@.len()),
    ensures
        r@ == drawn(set@, draws@),
{
    let mut out = String::new();
    let mut i: usize = 0;
    while i < draws.len()
        invariant
            i <= draws.len(),
            draws_below(draws@, set@.len()),
            out@ =~= drawn(set@, draws@.take(i as int)),
        decreases draws.len() - i,
    {
        let k = draws[i];
        assert(draws@[i as int] < set@.len());
        push_char(&mut out, set[k]);
        assert(drawn(set@, draws@.take(i + 1)) =~= drawn(set@, draws@.take(i as int)).push(set@[k as int]));
        i += 1;
    }
    assert(draws@.take(draws.len() as int) =~= draws@);
    out
}

/// The passphrase that the draws pick from `words`: the drawn words joined by `-`.
pub fn phrase_from_draws(words: &Vec<String>, draws: &Vec<usize>) -> (r: String)
    requires
        draws_below(draws@, words@.len()),
    ensures
        r@ == drawn_phrase(string_views(words@), draws@),
{
    let ghost ws = string_views(words@);
    let mut out = String::new();
    let mut i: usize = 0;
    assert(Seq::new(0, |j: int| ws[draws@.take(0)[j] as int]) =~= Seq::<Seq<char>>::empty());
    while i < draws.len()
        invariant
            i <= draws.len(),
            ws == string_views(words@),
            draws_below(draws@, words@.len()),
            out@ == drawn_phrase(ws, draws@.take(i as int)),
        decreases draws.len() - i,
    {
        let k = draws[i];
        assert(draws@[i as int] < words@.len());
        let ghost prev = Seq::new(i as nat, |j: int| ws[draws@.take(i as int)[j] as int]);
        let ghost next = Seq::new((i + 1) as nat, |j: int| ws[draws@.take(i + 1)[j] as int]);
        assert(next =~= prev.push(ws[k as int]));
        if i > 0 {
            push_char(&mut out, '-');
        }
        out.append(words[k].as_str());
        proof {
            reveal_strlit("-");
            crate::text::lemma_join_push(prev, ws[k as int], "-"@);
            assert(ws[k as int] == words@[k as int]@);
            if i > 0 {
                assert(out@ =~= join(prev, "-"@) + "-"@ + ws[k as int]);
            } else {
                assert(prev.len() == 0);
                assert(out@ =~= ws[k as int]);
            }
        }
        i += 1;
    }
    assert(draws@.take(draws.len() as int) =~= draws@);
    out
}

/// `n` draws below `m`, each from the generator of this thread.
fn draw(n: usize, m: usize) -> (r: Vec<usize>)
    requires
        m > 0,
    ensures
        r@.len() == n,
        draws_below(r@, m as nat),
{
    let mut rng = thread_rng();
    let mut d: Vec<usize> = Vec::new();
    let mut i: usize = 0;
    while i < n
        invariant
            i <= n,
            m > 0,
            d@.len() == i,
            draws_below(d@, m as nat),
        decreases n - i,
    {
        let k = random_below(&mut rng, m);
        d.push(k);
        i += 1;
    }
    d
}

/// A random password of `length` characters (at least one) drawn from the classes
/// asked for: the characters that random draws pick, one draw per character.
pub fn generate_password(length: usize, uppercase: bool, numbers: bool, symbols: bool) -> (r: String)
    ensures
        exists|d: Seq<usize>|
            {
                &&& d.len() == if length == 0 {
                    1
                } else {
                    length
                }
                &&& draws_below(d, charset(uppercase, numbers, symbols).len())
                &&& r@ == drawn(charset(uppercase, numbers, symbols), d)
            },
{
    let set = charset_exec(uppercase, numbers, symbols);
    let n = if length == 0 {
        1
    } else {
        length
    };
    let d = draw(n, set.len());
    from_draws(&set, &d)
}

/// A random passphrase of `word_count` words (at least six) from `words`, joined by
/// `-`: the words that random draws pick, one draw per word.
pub fn generate_passphrase(words: &Vec<String>, word_count: usize) -> (r: String)
    requires
        words.len() > 0,
    ensures
        exists|d: Seq<usize>|
            {
                &&& d.len() == if word_count < 6 {
                    6
                } else {
                    word_count
                }
                &&& draws_below(d, words@.len())
                &&& r@ == drawn_phrase(string_views(words@), d)
            },
{
    let n = if word_count < 6 {
        6
    } else {
        word_count
    };
    let d = draw(n, words.len());
    phrase_from_draws(words, &d)
}

/// Whether no word occurs twice in `ws`.
pub open spec fn distinct(ws: Seq<Seq<char>>) -> bool {
    forall|i: int, j: int| 0 <= i < j < ws.len() ==> #[trigger] ws[i] != #[trigger] ws[j]
}

/// Whether `words` can serve as the passphrase word list: 7776 words (the dice list),
/// none twice.
pub fn word_list_ok(words: &Vec<String>) -> (r: bool)
    ensures
        r == (words@.len() == 7776 && distinct(string_views(words@))),
{
    if words.len() != 7776 {
        return false;
    }
    let ghost ws = string_views(words@);
    let mut i: usize = 0;
    while i < words.len()
        invariant
            i <= words.len(),
            ws == string_views(words@),
            forall|a: int, b: int| 0 <= a < i && a < b < ws.len() ==> #[trigger] ws[a] != #[trigger] ws[b],
        decreases words.len() - i,
    {
        let mut j: usize = i + 1;
        while j < words.len()
            invariant
                i < words.len(),
                i < j <= words.len(),
                ws == string_views(words@),
                forall|a: int, b: int| 0 <= a < i && a < b < ws.len() ==> #[trigger] ws[a] != #[trigger] ws[b],
                forall|b: int| i < b < j ==> ws[i as int] != #[trigger] ws[b],
            decreases words.len() - j,
        {
            assert(ws[i as int] == words@[i as int]@ && ws[j as int] == words@[j as int]@);
            if words[i] == words[j] {
                assert(!distinct(ws)) by {
                    assert(ws[i as int] == ws[j as int]);
                }
                return false;
            }
            j += 1;
        }
        i += 1;
    }
    true
}

/// The passphrase word list that a text holds, one word per line, when it holds 7776
/// words and none twice; `None` otherwise.
pub fn word_list(text: &str) -> (r: Option<Vec<String>>)
    ensures
        match r {
            Some(ws) => string_views(ws@) == crate::text::lines(text@) && ws@.len() == 7776 && distinct(
                string_views(ws@),
            ),
            None => !(crate::text::lines(text@).len() == 7776 && distinct(crate::text::lines(text@))),
        },
{
    let ls = crate::text::lines_exec(&to_chars(text));
    let mut ws: Vec<String> = Vec::new();
    let mut i: usize = 0;
    while i < ls.len()
        invariant
            i <= ls.len(),
            string_views(ws@) == crate::text::views(ls@).take(i as int),
        decreases ls.len() - i,
    {
        let w = crate::text::string_of(&ls[i]);
        let ghost before = ws@;
        ws.push(w);
        proof {
            assert(ws@ == before.push(w));
            assert(string_views(ws@) =~= string_views(before).push(w@));
            assert(crate::text::views(ls@)[i as int] == ls@[i as int]@);
            assert(string_views(ws@) =~= crate::text::views(ls@).take(i + 1));
        }
        i += 1;
    }
    assert(crate::text::views(ls@).take(ls.len() as int) =~= crate::text::views(ls@));
    if word_list_ok(&ws) {
        Some(ws)
    } else {
        None
    }
}

/// The strength score of a password, from 0 to 4: 0 for an empty one, else zxcvbn's
/// estimate.
pub fn strength_score(password: &str) -> (r: u8)
    ensures
        password@.len() == 0 ==> r == 0,
        r <= 4,
{
    if password.is_empty() {
        return 0;
    }
    estimate_score(password)
}

/// The word that the strength meter shows for a score.
pub open spec fn strength_word(score: u8) -> Seq<char> {
    if score == 0 {
        "Very weak"@
    } else if score == 1 {
        "Weak"@
    } else if score == 2 {
        "Fair"@
    } else if score == 3 {
        "Strong"@
    } else {
        "Very strong"@
    }
}

/// The word for a strength score; scores above 3 are all "Very strong".
pub fn strength_label(score: u8) -> (r: &'static str)
    ensures
        r@ == strength_word(score),
{
    match score {
        0 => "Very weak",
        1 => "Weak",
        2 => "Fair",
        3 => "Strong",
        _ => "Very strong",
    }
}

/// The meter of a score up to 4: how many of its five cells are filled, and how many
/// are left empty.
pub fn strength_cells(score: u8) -> (r: (usize, usize))
    requires
        score <= 4,
    ensures
        r.0 == score + 1,
        r.0 + r.1 == 5,
{
    let filled = score as usize + 1;
    (filled, 5 - filled)
}

/// Whether `c` is an upper-case ASCII letter.
pub open spec fn is_upper(c: char) -> bool {
    'A' <= c <= 'Z'
}

/// Whether `c` is an ASCII digit.
pub open spec fn is_digit(c: char) -> bool {
    '0' <= c <= '9'
}

/// The character set holds the lower-case letters always, and holds every upper-case
/// letter when upper case is asked for and none otherwise; likewise every digit when
/// numbers are asked for and none otherwise.
pub proof fn lemma_charset_classes(uppercase: bool, numbers: bool, symbols: bool)
    ensures
        forall|c: char| 'a' <= c <= 'z' ==> #[trigger] charset(uppercase, numbers, symbols).contains(c),
        forall|c: char| #[trigger] is_upper(c) ==> (charset(uppercase, numbers, symbols).contains(c) <==> uppercase),
        forall|c: char| #[trigger] is_digit(c) ==> (charset(uppercase, numbers, symbols).contains(c) <==> numbers),
        forall|c: char| #[trigger] "!@#$%^&*()-_=+[]{}:,.?"@.contains(c) ==> (charset(
            uppercase,
            numbers,
            symbols,
        ).contains(c) <==> symbols),
        charset(uppercase, numbers, symbols).len() == 26 + (if uppercase {
            26int
        } else {
            0
        }) + (if numbers {
            10int
        } else {
            0
        }) + (if symbols {
            22int
        } else {
            0
        }),
{
    reveal_strlit("abcdefghijklmnopqrstuvwxyz");
    reveal_strlit("ABCDEFGHIJKLMNOPQRSTUVWXYZ");
    reveal_strlit("0123456789");
    reveal_strlit("!@#$%^&*()-_=+[]{}:,.?");
    let cs = charset(uppercase, numbers, symbols);
    let lo = "abcdefghijklmnopqrstuvwxyz"@;
    let up = "ABCDEFGHIJKLMNOPQRSTUVWXYZ"@;
    let dg = "0123456789"@;
    let sy = "!@#$%^&*()-_=+[]{}:,.?"@;
    assert forall|c: char| 'a' <= c <= 'z' implies #[trigger] cs.contains(c) by {
        let k = (c as u32 - 'a' as u32) as int;
        assert(lo[k] == c);
        assert(cs[k] == lo[k]);
    }
    assert forall|c: char| #[trigger] is_upper(c) implies (cs.contains(c) <==> uppercase) by {
        if uppercase {
            let k = (c as u32 - 'A' as u32) as int;
            assert(up[k] == c);
            assert(cs[26 + k] == up[k]);
        } else {
            if cs.contains(c) {
                let i = choose|i: int| 0 <= i < cs.len() && cs[i] == c;
                assert(false);
            }
        }
    }
    assert forall|c: char| #[trigger] sy.contains(c) implies (cs.contains(c) <==> symbols) by {
        let off: int = 26 + (if uppercase { 26int } else { 0 }) + (if numbers { 10int } else { 0 });
        let k = choose|k: int| 0 <= k < sy.len() && sy[k] == c;
        if symbols {
            assert(cs[off + k] == sy[k]);
        } else {
            if cs.contains(c) {
                let i = choose|i: int| 0 <= i < cs.len() && cs[i] == c;
                assert(false);
            }
        }
    }
    assert forall|c: char| #[trigger] is_digit(c) implies (cs.contains(c) <==> numbers) by {
        let off: int = if uppercase { 52 } else { 26 };
        if numbers {
            let k = (c as u32 - '0' as u32) as int;
            assert(dg[k] == c);
            assert(cs[off + k] == dg[k]);
        } else {
            if cs.contains(c) {
                let i = choose|i: int| 0 <= i < cs.len() && cs[i] == c;
                assert(false);
            }
        }
    }
}

} // verus!
