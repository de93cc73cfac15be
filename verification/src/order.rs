//! Stable orders: what a sort keeps of the elements that share a key.
use vstd::prelude::*;

verus! {

/// The elements of `s` whose key is `k`, in order.
pub open spec fn select<T, K>(s: Seq<T>, kf: spec_fn(T) -> K, k: K) -> Seq<T>
    decreases s.len(),
{
    if s.len() == 0 {
        s
    } else {
        let r = select(s.drop_last(), kf, k);
        if kf(s.last()) == k {
            r.push(s.last())
        } else {
            r
        }
    }
}

pub proof fn lemma_select_append<T, K>(a: Seq<T>, b: Seq<T>, kf: spec_fn(T) -> K, k: K)
    ensures
        select(a + b, kf, k) == select(a, kf, k) + select(b, kf, k),
    decreases b.len(),
{
    if b.len() == 0 {
        assert(a + b =~= a);
        assert(select(b, kf, k) =~= Seq::<T>::empty());
        assert(select(a, kf, k) + select(b, kf, k) =~= select(a, kf, k));
    } else {
        lemma_select_append(a, b.drop_last(), kf, k);
        assert((a + b).drop_last() =~= a + b.drop_last());
        assert((a + b).last() == b.last());
        if kf(b.last()) == k {
            assert(select(a, kf, k) + select(b, kf, k) =~= (select(a, kf, k) + select(b.drop_last(), kf, k)).push(b.last()));
        }
    }
}

pub proof fn lemma_select_none<T, K>(s: Seq<T>, kf: spec_fn(T) -> K, k: K)
    requires
        forall|i: int| 0 <= i < s.len() ==> kf(#[trigger] s[i]) != k,
    ensures
        select(s, kf, k) == Seq::<T>::empty(),
    decreases s.len(),
{
    if s.len() > 0 {
        lemma_select_none(s.drop_last(), kf, k);
    }
}

pub proof fn lemma_select_single<T, K>(x: T, kf: spec_fn(T) -> K, k: K)
    ensures
        select(seq![x], kf, k) == if kf(x) == k {
            seq![x]
        } else {
            Seq::<T>::empty()
        },
{
    assert(seq![x].drop_last() =~= Seq::<T>::empty());
    assert(seq![x].last() == x);
    assert(select(seq![x].drop_last(), kf, k) =~= Seq::<T>::empty());
    if kf(x) == k {
        assert(Seq::<T>::empty().push(x) =~= seq![x]);
    }
}


/// An element lies among the elements of its own key.
pub proof fn lemma_select_member<T, K>(s: Seq<T>, kf: spec_fn(T) -> K, k: K, i: int)
    requires
        0 <= i < s.len(),
        kf(s[i]) == k,
    ensures
        select(s, kf, k).contains(s[i]),
    decreases s.len(),
{
    if i == s.len() - 1 {
        assert(select(s, kf, k).last() == s[i]);
    } else {
        lemma_select_member(s.drop_last(), kf, k, i);
        let j = choose|j: int|
            0 <= j < select(s.drop_last(), kf, k).len() && select(s.drop_last(), kf, k)[j] == s[i];
        if kf(s.last()) == k {
            assert(select(s, kf, k)[j] == s[i]);
        }
    }
}

/// The elements of one key are elements of the sequence.
pub proof fn lemma_select_member_back<T, K>(s: Seq<T>, kf: spec_fn(T) -> K, k: K, x: T)
    requires
        select(s, kf, k).contains(x),
    ensures
        s.contains(x),
    decreases s.len(),
{
    if s.len() > 0 {
        let r = select(s.drop_last(), kf, k);
        let j = choose|j: int| 0 <= j < select(s, kf, k).len() && select(s, kf, k)[j] == x;
        if kf(s.last()) == k && j == r.len() {
            assert(s[s.len() - 1] == x);
        } else {
            assert(r[j] == x);
            lemma_select_member_back(s.drop_last(), kf, k, x);
            let m = choose|m: int| 0 <= m < s.drop_last().len() && s.drop_last()[m] == x;
            assert(s[m] == x);
        }
    }
}

/// Strictly before in the order of ranks: by the first part, then the second, then the
/// third.
pub open spec fn rank_before(a: (u8, u8, usize), b: (u8, u8, usize)) -> bool {
    a.0 < b.0 || (a.0 == b.0 && (a.1 < b.1 || (a.1 == b.1 && a.2 < b.2)))
}

pub proof fn lemma_rank_order(a: (u8, u8, usize), b: (u8, u8, usize), c: (u8, u8, usize))
    ensures
        !(rank_before(a, b) && rank_before(b, a)),
        rank_before(a, b) && rank_before(b, c) ==> rank_before(a, c),
{
}

fn rank_lt(a: (u8, u8, usize), b: (u8, u8, usize)) -> (r: bool)
    ensures
        r == rank_before(a, b),
{
    a.0 < b.0 || (a.0 == b.0 && (a.1 < b.1 || (a.1 == b.1 && a.2 < b.2)))
}

/// Whether no element of `s` ranks before an earlier one.
pub open spec fn ranked<T>(s: Seq<T>, kf: spec_fn(T) -> (u8, u8, usize)) -> bool {
    forall|i: int, j: int| 0 <= i < j < s.len() ==> !rank_before(kf(s[j]), kf(s[i]))
}

/// `out` orders the elements of `inp` by rank, elements of equal rank keeping their
/// order.
pub open spec fn stable_ranking<T>(out: Seq<T>, inp: Seq<T>, kf: spec_fn(T) -> (u8, u8, usize)) -> bool {
    &&& ranked(out, kf)
    &&& forall|k: (u8, u8, usize)| #[trigger] select(out, kf, k) == select(inp, kf, k)
}

/// Sorts `items` by their ranks `keys` (which `kf` gives), keeping elements of equal rank
/// in their order.
pub fn sort_by_rank<T>(
    items: Vec<T>,
    keys: Vec<(u8, u8, usize)>,
    Ghost(kf): Ghost<spec_fn(T) -> (u8, u8, usize)>,
) -> (r: Vec<T>)
    requires
        keys.len() == items.len(),
        forall|i: int| 0 <= i < items.len() ==> #[trigger] keys@[i] == kf(items@[i]),
    ensures
        stable_ranking(r@, items@, kf),
{
    let ghost inp = items@;
    let ghost ikeys = keys@;
    let mut items = items;
    let mut keys = keys;
    let mut out: Vec<T> = Vec::new();
    let mut out_keys: Vec<(u8, u8, usize)> = Vec::new();
    let mut i: usize = 0;
    let n = items.len();
    assert(inp.skip(0) =~= inp);
    assert(ikeys.skip(0) =~= ikeys);
    assert forall|k: (u8, u8, usize)| #[trigger] select(out@, kf, k) == select(inp.take(0), kf, k) by {
        assert(inp.take(0) =~= Seq::<T>::empty());
        assert(out@ =~= Seq::<T>::empty());
    }
    while i < n
        invariant
            n == inp.len(),
            i <= n,
            items@ == inp.skip(i as int),
            keys@ == ikeys.skip(i as int),
            ikeys.len() == inp.len(),
            forall|m: int| 0 <= m < inp.len() ==> #[trigger] ikeys[m] == kf(inp[m]),
            out_keys.len() == out.len(),
            forall|m: int| 0 <= m < out.len() ==> #[trigger] out_keys@[m] == kf(out@[m]),
            ranked(out@, kf),
            forall|k: (u8, u8, usize)| #[trigger] select(out@, kf, k) == select(inp.take(i as int), kf, k),
        decreases n - i,
    {
        let x = items.remove(0);
        let kx = keys.remove(0);
        proof {
            assert(x == inp[i as int]);
            assert(items@ =~= inp.skip(i + 1));
            assert(keys@ =~= ikeys.skip(i + 1));
        }
        let ghost kxs = kf(x);
        let mut j: usize = 0;
        while j < out.len() && !rank_lt(kx, out_keys[j])
            invariant
                j <= out.len(),
                out_keys.len() == out.len(),
                kx == kxs,
                forall|m: int| 0 <= m < out.len() ==> #[trigger] out_keys@[m] == kf(out@[m]),
                forall|m: int| 0 <= m < j ==> !rank_before(kxs, kf(#[trigger] out@[m])),
            decreases out.len() - j,
        {
            j += 1;
        }
        let ghost old_out = out@;
        proof {
            if j < out.len() {
                assert(rank_before(kxs, kf(old_out[j as int])));
            }
        }
        out.insert(j, x);
        out_keys.insert(j, kx);
        proof {
            assert(out@ =~= old_out.take(j as int) + seq![x] + old_out.skip(j as int));
            assert forall|a: int, b: int| 0 <= a < b < out@.len() implies !rank_before(kf(out@[b]), kf(out@[a])) by {
                if a < j && b == j {
                } else if a == j && b > j {
                    let y = old_out[b - 1];
                    if b - 1 > j {
                        lemma_rank_order(kf(y), kxs, kf(old_out[j as int]));
                        lemma_rank_order(kf(y), kf(old_out[j as int]), kf(y));
                    } else {
                        lemma_rank_order(kxs, kf(y), kxs);
                    }
                } else if b > j && a < j {
                    assert(out@[b] == old_out[b - 1]);
                } else if b > j && a > j {
                    assert(out@[b] == old_out[b - 1]);
                    assert(out@[a] == old_out[a - 1]);
                }
            }
            assert forall|k: (u8, u8, usize)| #[trigger] select(out@, kf, k) == select(inp.take(i + 1), kf, k) by {
                let pre = old_out.take(j as int);
                let post = old_out.skip(j as int);
                assert(old_out =~= pre + post);
                lemma_select_append(pre, post, kf, k);
                lemma_select_append(pre + seq![x], post, kf, k);
                lemma_select_append(pre, seq![x], kf, k);
                lemma_select_single(x, kf, k);
                assert(inp.take(i + 1).drop_last() =~= inp.take(i as int));
                assert(inp.take(i + 1).last() == x);
                if k == kxs {
                    assert forall|m: int| 0 <= m < post.len() implies kf(#[trigger] post[m]) != k by {
                        let y = post[m];
                        assert(y == old_out[j + m]);
                        if m > 0 {
                            lemma_rank_order(kxs, kf(old_out[j as int]), kf(y));
                        }
                        lemma_rank_order(kxs, kxs, kxs);
                        if kf(y) == kxs {
                            if m > 0 {
                                assert(!rank_before(kf(y), kf(old_out[j as int])));
                            }
                        }
                    }
                    lemma_select_none(post, kf, k);
                    assert(select(pre, kf, k) + select(post, kf, k) =~= select(pre, kf, k));
                    assert(select(pre, kf, k) + seq![x] =~= select(pre, kf, k).push(x));
                } else {
                    assert(select(pre, kf, k) + Seq::<T>::empty() =~= select(pre, kf, k));
                }
            }
        }
        i += 1;
    }
    proof {
        assert(inp.take(n as int) =~= inp);
    }
    out
}

} // verus!
