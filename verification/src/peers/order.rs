//! Ordering a roster by peer index, keeping peers with equal indices in the
//! order they came in (what `sort_by_key` on the index does).

use vstd::prelude::*;

use super::PeerId;

verus! {

/// Every peer's index is at most the next one's.
pub open spec fn sorted_by_index(s: Seq<PeerId>) -> bool {
    forall|i: int, j: int| 0 <= i < j < s.len() ==> s[i].index <= s[j].index
}

pub open spec fn has_index(k: usize) -> spec_fn(PeerId) -> bool {
    |p: PeerId| p.index == k
}

/// The peers of `s` with index `k`, in the order of `s`.
pub open spec fn with_index(s: Seq<PeerId>, k: usize) -> Seq<PeerId> {
    s.filter(has_index(k))
}

/// `out` is `inp` sorted by index, with the peers of each index kept in the
/// order they had in `inp`. This determines `out` from `inp`.
pub open spec fn stably_sorted(out: Seq<PeerId>, inp: Seq<PeerId>) -> bool {
    &&& sorted_by_index(out)
    &&& forall|k: usize| #[trigger] with_index(out, k) == with_index(inp, k)
}

proof fn lemma_filter_single(x: PeerId, k: usize)
    ensures
        with_index(seq![x], k) == (if x.index == k { seq![x] } else { Seq::<PeerId>::empty() }),
{
    reveal_with_fuel(Seq::filter, 2);
    assert(seq![x].drop_last() =~= Seq::<PeerId>::empty());
    assert(with_index(seq![x], k) =~= (if x.index == k { seq![x] } else { Seq::<PeerId>::empty() }));
}

proof fn lemma_filter_none(s: Seq<PeerId>, k: usize)
    requires
        forall|t: int| 0 <= t < s.len() ==> #[trigger] s[t].index != k,
    ensures
        with_index(s, k) == Seq::<PeerId>::empty(),
    decreases s.len(),
{
    reveal(Seq::filter);
    if s.len() > 0 {
        lemma_filter_none(s.drop_last(), k);
        assert(s.last().index != k);
    }
    assert(with_index(s, k) =~= Seq::<PeerId>::empty());
}

/// Inserting `x` after every peer with a smaller or equal index and before
/// every peer with a greater one keeps the order stable.
proof fn lemma_stable_insert(out: Seq<PeerId>, inp: Seq<PeerId>, x: PeerId, j: int)
    requires
        stably_sorted(out, inp),
        0 <= j <= out.len(),
        forall|t: int| 0 <= t < j ==> #[trigger] out[t].index <= x.index,
        forall|t: int| j <= t < out.len() ==> #[trigger] out[t].index > x.index,
    ensures
        stably_sorted(out.insert(j, x), inp.push(x)),
{
    let a = out.subrange(0, j);
    let b = out.subrange(j, out.len() as int);
    let next = out.insert(j, x);
    assert(next =~= a + seq![x] + b);
    assert(out =~= a + b);
    assert(inp.push(x) =~= inp + seq![x]);
    assert forall|k: usize| #[trigger] with_index(next, k) == with_index(inp.push(x), k) by {
        Seq::filter_distributes_over_add(a + seq![x], b, has_index(k));
        Seq::filter_distributes_over_add(a, seq![x], has_index(k));
        Seq::filter_distributes_over_add(a, b, has_index(k));
        Seq::filter_distributes_over_add(inp, seq![x], has_index(k));
        lemma_filter_single(x, k);
        let wa = with_index(a, k);
        let wb = with_index(b, k);
        let wx = with_index(seq![x], k);
        assert(with_index(next, k) == wa + wx + wb);
        assert(with_index(out, k) == wa + wb);
        assert(with_index(out, k) == with_index(inp, k));
        assert(with_index(inp.push(x), k) == with_index(inp, k) + wx);
        if x.index == k {
            assert forall|t: int| 0 <= t < b.len() implies #[trigger] b[t].index != k by {
                assert(b[t] == out[j + t]);
            }
            lemma_filter_none(b, k);
            assert(wa + wb =~= wa);
            assert(wa + wx + wb =~= wa + wx);
        } else {
            assert(wa + wx + wb =~= wa + wb);
            assert(with_index(inp, k) + wx =~= with_index(inp, k));
        }
    }
    assert forall|s: int, t: int| 0 <= s < t < next.len() implies next[s].index <= next[t].index by {
        if t < j {
        } else if t == j {
            assert(next[s] == out[s]);
        } else if s < j {
            assert(next[s] == out[s]);
            assert(next[t] == out[t - 1]);
        } else if s == j {
            assert(next[t] == out[t - 1]);
        } else {
            assert(next[s] == out[s - 1]);
            assert(next[t] == out[t - 1]);
        }
    }
}

/// Sorts a roster by index; peers with the same index keep their order.
pub fn sort_by_index(peers: &Vec<PeerId>) -> (r: Vec<PeerId>)
    ensures
        stably_sorted(r@, peers@),
{
    let mut out: Vec<PeerId> = Vec::new();
    let n = peers.len();
    proof {
        reveal(Seq::filter);
        assert forall|k: usize| #[trigger] with_index(out@, k) == with_index(peers@.subrange(0, 0), k) by {
            assert(peers@.subrange(0, 0) =~= out@);
        }
    }
    let mut i: usize = 0;
    while i < n
        invariant
            i <= n,
            n == peers.len(),
            stably_sorted(out@, peers@.subrange(0, i as int)),
        decreases n - i,
    {
        let x = peers[i];
        let mut j = out.len();
        while j > 0 && out[j - 1].index > x.index
            invariant
                j <= out.len(),
                forall|t: int| j <= t < out.len() ==> #[trigger] out@[t].index > x.index,
            decreases j,
        {
            j = j - 1;
        }
        proof {
            assert forall|t: int| 0 <= t < j implies #[trigger] out@[t].index <= x.index by {
                if t < j - 1 {
                    assert(out@[t].index <= out@[j - 1].index);
                }
            }
            lemma_stable_insert(out@, peers@.subrange(0, i as int), x, j as int);
            assert(peers@.subrange(0, i as int).push(x) =~= peers@.subrange(0, i + 1));
        }
        out.insert(j, x);
        i = i + 1;
    }
    proof {
        assert(peers@.subrange(0, n as int) =~= peers@);
    }
    out
}

} // verus!

verus! {

pub(crate) proof fn lemma_with_index_push(s: Seq<PeerId>, x: PeerId, k: usize)
    ensures
        with_index(s.push(x), k) == (if x.index == k { with_index(s, k).push(x) } else { with_index(s, k) }),
{
    reveal(Seq::filter);
    assert(s.push(x).drop_last() =~= s);
}

/// Every peer listed under index `k` has index `k` and comes from `s`.
proof fn lemma_with_index_members(s: Seq<PeerId>, k: usize, i: int)
    requires
        0 <= i < with_index(s, k).len(),
    ensures
        with_index(s, k)[i].index == k,
        s.contains(with_index(s, k)[i]),
{
    broadcast use Seq::lemma_filter_pred, Seq::lemma_filter_contains_rev;

    assert(with_index(s, k).contains(with_index(s, k)[i]));
}

/// Two rosters sorted by index that list the same peers under every index,
/// in the same order, are the same roster.
proof fn lemma_sorted_same_groups(a: Seq<PeerId>, b: Seq<PeerId>)
    requires
        sorted_by_index(a),
        sorted_by_index(b),
        forall|k: usize| #[trigger] with_index(a, k) == with_index(b, k),
    ensures
        a == b,
    decreases a.len() + b.len(),
{
    if a.len() == 0 && b.len() == 0 {
        assert(a =~= b);
    } else if a.len() == 0 || b.len() == 0 {
        let (full, empty) = if a.len() == 0 { (b, a) } else { (a, b) };
        let x = full.last();
        lemma_with_index_push(full.drop_last(), x, x.index);
        assert(full.drop_last().push(x) =~= full);
        lemma_filter_none(empty, x.index);
        assert(with_index(full, x.index).len() > 0);
        assert(with_index(a, x.index) == with_index(b, x.index));
    } else {
        let a0 = a.drop_last();
        let b0 = b.drop_last();
        let x = a.last();
        let y = b.last();
        assert(a0.push(x) =~= a);
        assert(b0.push(y) =~= b);
        lemma_with_index_push(a0, x, x.index);
        lemma_with_index_push(b0, y, y.index);
        assert(with_index(a, x.index) == with_index(b, x.index));
        assert(with_index(a, y.index) == with_index(b, y.index));
        let gx = with_index(b, x.index);
        lemma_with_index_members(b, x.index, gx.len() - 1);
        let t = choose|t: int| 0 <= t < b.len() && b[t] == gx[gx.len() - 1];
        assert(b[t].index == x.index);
        let gy = with_index(a, y.index);
        lemma_with_index_members(a, y.index, gy.len() - 1);
        let u = choose|u: int| 0 <= u < a.len() && a[u] == gy[gy.len() - 1];
        assert(a[u].index == y.index);
        assert(x.index == y.index) by {
            if t < b.len() - 1 {
                assert(b[t].index <= b[b.len() - 1].index);
            }
            if u < a.len() - 1 {
                assert(a[u].index <= a[a.len() - 1].index);
            }
        }
        assert(x == with_index(a, x.index).last());
        assert(y == with_index(b, y.index).last());
        assert forall|k: usize| #[trigger] with_index(a0, k) == with_index(b0, k) by {
            lemma_with_index_push(a0, x, k);
            lemma_with_index_push(b0, y, k);
            assert(with_index(a, k) == with_index(b, k));
            if k == x.index {
                assert(with_index(a0, k) =~= with_index(a, k).drop_last());
                assert(with_index(b0, k) =~= with_index(b, k).drop_last());
            }
        }
        assert(sorted_by_index(a0)) by {
            assert forall|i: int, j: int| 0 <= i < j < a0.len() implies a0[i].index <= a0[j].index by {
                assert(a0[i] == a[i] && a0[j] == a[j]);
            }
        }
        assert(sorted_by_index(b0)) by {
            assert forall|i: int, j: int| 0 <= i < j < b0.len() implies b0[i].index <= b0[j].index by {
                assert(b0[i] == b[i] && b0[j] == b[j]);
            }
        }
        lemma_sorted_same_groups(a0, b0);
    }
}

/// Sorting is determined: any two stable sorts by index of the same peers
/// are equal.
pub proof fn lemma_stable_sort_unique(a: Seq<PeerId>, b: Seq<PeerId>, inp: Seq<PeerId>)
    requires
        stably_sorted(a, inp),
        stably_sorted(b, inp),
    ensures
        a == b,
{
    assert forall|k: usize| #[trigger] with_index(a, k) == with_index(b, k) by {
        assert(with_index(a, k) == with_index(inp, k));
        assert(with_index(b, k) == with_index(inp, k));
    }
    lemma_sorted_same_groups(a, b);
}

/// How often `x` is listed under index `k` in `s`.
pub(crate) proof fn lemma_with_index_count(s: Seq<PeerId>, k: usize, x: PeerId)
    ensures
        with_index(s, k).to_multiset().count(x) == (if x.index == k { s.to_multiset().count(x) } else { 0 }),
    decreases s.len(),
{
    broadcast use vstd::seq_lib::to_multiset_build, vstd::multiset::group_multiset_axioms;

    if s.len() == 0 {
        reveal(Seq::filter);
        assert(with_index(s, k) =~= Seq::<PeerId>::empty());
        vstd::seq_lib::to_multiset_contains(s, x);
        vstd::seq_lib::to_multiset_contains(with_index(s, k), x);
    } else {
        let s0 = s.drop_last();
        let y = s.last();
        assert(s0.push(y) =~= s);
        lemma_with_index_count(s0, k, x);
        lemma_with_index_push(s0, y, k);
    }
}

/// Distinct indices list at most one peer under each index.
pub(crate) proof fn lemma_strict_groups_small(s: Seq<PeerId>, k: usize)
    requires
        forall|i: int, j: int| 0 <= i < j < s.len() ==> s[i].index != s[j].index,
    ensures
        with_index(s, k).len() <= 1,
    decreases s.len(),
{
    reveal(Seq::filter);
    if s.len() > 0 {
        let s0 = s.drop_last();
        let y = s.last();
        assert(s0.push(y) =~= s);
        lemma_with_index_push(s0, y, k);
        lemma_strict_groups_small(s0, k);
        if y.index == k {
            assert forall|t: int| 0 <= t < s0.len() implies #[trigger] s0[t].index != k by {
                assert(s0[t] == s[t]);
            }
            lemma_filter_none(s0, k);
        }
    }
}

/// Reading back the peers of a roster whose indices strictly increase, in any
/// order, and sorting them by index gives the roster itself. This is how the
/// key-value bucket, which lists its keys in an order of its own, gives back
/// the roster written to it.
pub proof fn lemma_sorting_restores_roster(roster: Seq<PeerId>, read: Seq<PeerId>, out: Seq<PeerId>)
    requires
        forall|i: int, j: int| 0 <= i < j < roster.len() ==> roster[i].index < roster[j].index,
        read.to_multiset() == roster.to_multiset(),
        stably_sorted(out, read),
    ensures
        out == roster,
{
    broadcast use vstd::seq_lib::to_multiset_len, vstd::multiset::group_multiset_axioms;

    assert forall|k: usize| #[trigger] with_index(roster, k) == with_index(read, k) by {
        let g = with_index(roster, k);
        let h = with_index(read, k);
        assert(g.to_multiset() =~= h.to_multiset()) by {
            assert forall|x: PeerId| g.to_multiset().count(x) == h.to_multiset().count(x) by {
                lemma_with_index_count(roster, k, x);
                lemma_with_index_count(read, k, x);
            }
        }
        lemma_strict_groups_small(roster, k);
        vstd::seq_lib::to_multiset_len(g);
        vstd::seq_lib::to_multiset_len(h);
        assert(g.len() == h.len());
        if g.len() == 1 {
            assert(g =~= seq![g[0]]);
            assert(h =~= seq![h[0]]);
            vstd::seq_lib::to_multiset_contains(h, g[0]);
            vstd::seq_lib::to_multiset_contains(g, g[0]);
            assert(g.contains(g[0]));
            assert(h[0] == g[0]);
        } else {
            assert(g =~= h);
        }
    }
    lemma_stable_sort_unique(out, roster, read);
}

/// A stable sort by index lists the same peers, as often each, as its input.
pub(crate) proof fn lemma_stable_sort_permutes(out: Seq<PeerId>, inp: Seq<PeerId>)
    requires
        stably_sorted(out, inp),
    ensures
        out.to_multiset() == inp.to_multiset(),
{
    assert forall|x: PeerId| out.to_multiset().count(x) == inp.to_multiset().count(x) by {
        lemma_with_index_count(out, x.index, x);
        lemma_with_index_count(inp, x.index, x);
        assert(with_index(out, x.index) == with_index(inp, x.index));
    }
    assert(out.to_multiset() =~= inp.to_multiset());
}

/// A roster sorted by index with at most one peer under each index has
/// strictly increasing indices.
pub(crate) proof fn lemma_sorted_small_groups_strict(s: Seq<PeerId>)
    requires
        sorted_by_index(s),
        forall|k: usize| #[trigger] with_index(s, k).len() <= 1,
    ensures
        forall|i: int, j: int| 0 <= i < j < s.len() ==> s[i].index < s[j].index,
    decreases s.len(),
{
    if s.len() > 1 {
        let s0 = s.drop_last();
        let y = s.last();
        assert(s0.push(y) =~= s);
        assert forall|k: usize| #[trigger] with_index(s0, k).len() <= 1 by {
            lemma_with_index_push(s0, y, k);
            assert(with_index(s, k).len() <= 1);
        }
        assert(sorted_by_index(s0)) by {
            assert forall|i: int, j: int| 0 <= i < j < s0.len() implies s0[i].index <= s0[j].index by {
                assert(s0[i] == s[i] && s0[j] == s[j]);
            }
        }
        lemma_sorted_small_groups_strict(s0);
        let x = s0.last();
        let s1 = s0.drop_last();
        assert(s1.push(x) =~= s0);
        if x.index == y.index {
            lemma_with_index_push(s1, x, x.index);
            lemma_with_index_push(s0, y, y.index);
            assert(with_index(s, y.index).len() >= 2);
        }
        assert forall|i: int, j: int| 0 <= i < j < s.len() implies s[i].index < s[j].index by {
            if j < s.len() - 1 {
                assert(s[i] == s0[i] && s[j] == s0[j]);
            } else if i < s.len() - 2 {
                assert(s[i] == s0[i]);
                assert(s0[i].index < s0[s0.len() - 1].index);
            }
        }
    }
}

} // verus!
