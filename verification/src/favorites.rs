//! The favorite entries of one password store. Several instances may share the saved
//! favorites: the caller reads the saved set, applies a change here, and saves it.
use crate::text::{eq, string_views, to_chars};
use vstd::prelude::*;

verus! {

/// The favorite entries of the store `store`.
pub struct Favorites {
    store: String,
    entries: Vec<String>,
}

/// The set of texts among `vs`.
pub open spec fn text_set(vs: Seq<String>) -> Set<Seq<char>> {
    Set::new(|x: Seq<char>| string_views(vs).contains(x))
}

/// The set after toggling `p`: removed when it is there, added when it is not.
pub open spec fn toggled(s: Set<Seq<char>>, p: Seq<char>) -> Set<Seq<char>> {
    if s.contains(p) {
        s.remove(p)
    } else {
        s.insert(p)
    }
}

/// The set after renaming `source` to `destination`: a favorite keeps its star under
/// its new name; anything else is unchanged.
pub open spec fn renamed(s: Set<Seq<char>>, source: Seq<char>, destination: Seq<char>) -> Set<
    Seq<char>,
> {
    if s.contains(source) {
        s.remove(source).insert(destination)
    } else {
        s
    }
}

impl View for Favorites {
    type V = Set<Seq<char>>;

    closed spec fn view(&self) -> Set<Seq<char>> {
        text_set(self.entries@)
    }
}

/// The texts of `vs` other than `p`, in order.
fn without(vs: &Vec<String>, p: &Vec<char>) -> (r: Vec<String>)
    ensures
        text_set(r@) == text_set(vs@).remove(p@),
{
    let mut r: Vec<String> = Vec::new();
    let mut i: usize = 0;
    while i < vs.len()
        invariant
            i <= vs.len(),
            forall|x: Seq<char>|
                string_views(r@).contains(x) <==> (string_views(vs@.take(i as int)).contains(x)
                    && x != p@),
        decreases vs.len() - i,
    {
        let c = to_chars(vs[i].as_str());
        let keep = !eq(&c, p);
        let ghost r0 = r@;
        let ghost t0 = vs@.take(i as int);
        if keep {
            r.push(vs[i].clone());
        }
        proof {
            let t1 = vs@.take(i + 1);
            assert(t1 =~= t0.push(vs@[i as int]));
            assert(string_views(t1) =~= string_views(t0).push(vs@[i as int]@));
            if keep {
                assert(string_views(r@) =~= string_views(r0).push(vs@[i as int]@));
            } else {
                assert(r@ == r0);
            }
            assert forall|x: Seq<char>|
                string_views(r@).contains(x) <==> (string_views(t1).contains(x) && x
                    != p@) by {
                if string_views(t1).contains(x) && x != p@ {
                    let k = choose|k: int| 0 <= k < string_views(t1).len() && string_views(t1)[k] == x;
                    if k < i {
                        assert(string_views(t0)[k] == x);
                        assert(string_views(t0).contains(x));
                        assert(string_views(r0).contains(x));
                        let j = choose|j: int| 0 <= j < string_views(r0).len() && string_views(r0)[j] == x;
                        assert(string_views(r@)[j] == x);
                    } else {
                        assert(keep);
                        assert(string_views(r@)[r@.len() - 1] == x);
                    }
                }
                if string_views(r@).contains(x) {
                    let j = choose|j: int| 0 <= j < string_views(r@).len() && string_views(r@)[j] == x;
                    if j < r0.len() {
                        assert(string_views(r0)[j] == x);
                        assert(string_views(r0).contains(x));
                        let k = choose|k: int| 0 <= k < string_views(t0).len() && string_views(t0)[k] == x;
                        assert(string_views(t1)[k] == x);
                    } else {
                        assert(string_views(t1)[i as int] == x);
                    }
                }
            }
        }
        i += 1;
    }
    proof {
        assert(vs@.take(vs.len() as int) =~= vs@);
        assert(text_set(r@) =~= text_set(vs@).remove(p@));
    }
    r
}

impl Favorites {
    /// The favorites `entries` of the store `store`.
    pub fn new(store: String, entries: Vec<String>) -> (r: Self)
        ensures
            r@ == text_set(entries@),
            r.store_view() == store@,
    {
        Favorites { store, entries }
    }

    /// The store whose favorites these are.
    pub fn store(&self) -> (r: &String)
        ensures
            r@ == self.store_view(),
    {
        &self.store
    }

    pub closed spec fn store_view(&self) -> Seq<char> {
        self.store@
    }

    /// The favorite entries, to save.
    pub fn entries(&self) -> (r: Vec<String>)
        ensures
            text_set(r@) == self@,
    {
        let mut r: Vec<String> = Vec::new();
        let mut i: usize = 0;
        while i < self.entries.len()
            invariant
                i <= self.entries.len(),
                string_views(r@) == string_views(self.entries@.take(i as int)),
            decreases self.entries.len() - i,
        {
            let ghost r0 = r@;
            let c = self.entries[i].clone();
            r.push(c);
            proof {
                assert(string_views(r@) =~= string_views(r0).push(self.entries@[i as int]@));
                assert(self.entries@.take(i + 1) =~= self.entries@.take(i as int).push(
                    self.entries@[i as int],
                ));
                assert(string_views(self.entries@.take(i + 1)) =~= string_views(
                    self.entries@.take(i as int),
                ).push(self.entries@[i as int]@));
            }
            i += 1;
        }
        assert(self.entries@.take(self.entries.len() as int) =~= self.entries@);
        assert(text_set(r@) =~= self@);
        r
    }

    /// Replaces the favorites with `entries`, as they were saved last.
    pub fn set_entries(&mut self, entries: Vec<String>)
        ensures
            final(self)@ == text_set(entries@),
            final(self).store_view() == old(self).store_view(),
    {
        self.entries = entries;
    }

    /// Whether `path` is a favorite.
    pub fn contains(&self, path: &str) -> (r: bool)
        ensures
            r == self@.contains(path@),
    {
        let p = to_chars(path);
        let mut i: usize = 0;
        while i < self.entries.len()
            invariant
                i <= self.entries.len(),
                p@ == path@,
                forall|j: int| 0 <= j < i ==> self.entries@[j]@ != path@,
            decreases self.entries.len() - i,
        {
            let c = to_chars(self.entries[i].as_str());
            if eq(&c, &p) {
                assert(string_views(self.entries@)[i as int] == path@);
                return true;
            }
            i += 1;
        }
        proof {
            if self@.contains(path@) {
                let k = choose|k: int|
                    0 <= k < string_views(self.entries@).len() && string_views(self.entries@)[k]
                        == path@;
                assert(self.entries@[k]@ == path@);
            }
        }
        false
    }

    /// Stars `path`, or removes its star; returns whether it is a favorite now.
    pub fn toggle(&mut self, path: &str) -> (r: bool)
        ensures
            final(self)@ == toggled(old(self)@, path@),
            r == final(self)@.contains(path@),
            final(self).store_view() == old(self).store_view(),
    {
        let p = to_chars(path);
        if self.contains(path) {
            self.entries = without(&self.entries, &p);
            false
        } else {
            let ghost before = self.entries@;
            self.entries.push(path.to_owned());
            proof {
                assert(string_views(self.entries@) =~= string_views(before).push(path@));
                assert(string_views(self.entries@)[before.len() as int] == path@);
                assert forall|x: Seq<char>| #[trigger] self@.contains(x) == text_set(before).insert(
                    path@,
                ).contains(x) by {
                    if string_views(before).contains(x) {
                        let k = choose|k: int|
                            0 <= k < string_views(before).len() && string_views(before)[k] == x;
                        assert(string_views(self.entries@)[k] == x);
                    }
                    if self@.contains(x) && x != path@ {
                        let k = choose|k: int|
                            0 <= k < string_views(self.entries@).len() && string_views(
                                self.entries@,
                            )[k] == x;
                        assert(string_views(before)[k] == x);
                    }
                }
                assert(self@ =~= text_set(before).insert(path@));
            }
            true
        }
    }

    /// Moves the star of `source`, if it has one, to `destination`.
    pub fn rename(&mut self, source: &str, destination: &str)
        ensures
            final(self)@ == renamed(old(self)@, source@, destination@),
            final(self).store_view() == old(self).store_view(),
    {
        if self.contains(source) {
            let s = to_chars(source);
            let ghost before = self@;
            self.entries = without(&self.entries, &s);
            if !self.contains(destination) {
                self.toggle(destination);
            }
            proof {
                assert(self@ =~= before.remove(source@).insert(destination@));
            }
        }
    }
}

// ---------------------------------------------------------------------
// Laws of favorites
// ---------------------------------------------------------------------
/// Toggling an entry twice leaves the favorites as they were.
pub proof fn lemma_toggle_twice(s: Set<Seq<char>>, p: Seq<char>)
    ensures
        toggled(toggled(s, p), p) == s,
{
    assert(toggled(toggled(s, p), p) =~= s);
}

/// Renaming moves the star: afterwards the source is no favorite (unless it is the
/// destination), and the destination is one exactly when the source or it was.
pub proof fn lemma_rename_moves_star(s: Set<Seq<char>>, source: Seq<char>, destination: Seq<char>)
    ensures
        renamed(s, source, destination).contains(destination) <==> (s.contains(source)
            || s.contains(destination)),
        source != destination ==> !renamed(s, source, destination).contains(source),
        forall|x: Seq<char>|
            x != source && x != destination ==> (renamed(s, source, destination).contains(x)
                <==> s.contains(x)),
{
}

} // verus!
