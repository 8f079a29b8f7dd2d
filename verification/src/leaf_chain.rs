use vstd::prelude::*;

verus! {

/// What the leaf chain search reads of an undecided leaf.
#[derive(Clone, Copy, Debug, PartialEq, Eq, Structural)]
pub struct LeafInfo {
    /// Block height of the leaf
    pub height: u64,
    /// View in which the leaf was proposed
    pub view: u64,
    /// View of the quorum certificate the leaf justifies itself with
    pub justify_qc_view: u64,
}

/// No chain of undecided leaves proves the decide of the requested height.
#[derive(Clone, Copy, Debug, PartialEq, Eq, Structural)]
pub struct LeafChainUnavailable {
    pub height: u64,
}

/// `t` with `x` inserted after the last element whose view is not greater than `x`'s.
pub open spec fn insert_by_view(t: Seq<LeafInfo>, x: LeafInfo) -> Seq<LeafInfo>
    decreases t.len(),
{
    if t.len() == 0 {
        seq![x]
    } else if t.last().view <= x.view {
        t.push(x)
    } else {
        insert_by_view(t.drop_last(), x).push(t.last())
    }
}

/// The leaves ordered by view; leaves of equal view keep their order (a stable sort).
pub open spec fn sort_by_view(s: Seq<LeafInfo>) -> Seq<LeafInfo>
    decreases s.len(),
{
    if s.len() == 0 {
        s
    } else {
        insert_by_view(sort_by_view(s.drop_last()), s.last())
    }
}

/// Index of the first leaf at `height`, looking from `i` on.
pub open spec fn first_at_height(s: Seq<LeafInfo>, height: u64, i: int) -> Option<int>
    decreases s.len() - i,
{
    if i < 0 || i >= s.len() {
        None
    } else if s[i].height == height {
        Some(i)
    } else {
        first_at_height(s, height, i + 1)
    }
}

/// Follow the chain from `last` through `s[i..]`: a leaf that justifies itself with a
/// certificate for `last` extends the chain; the walk ends after the first extension
/// made in the view right after `last`'s. Returns the chain and its last leaf.
pub open spec fn walk_chain(s: Seq<LeafInfo>, i: int, last: LeafInfo, chain: Seq<LeafInfo>) -> (
    Seq<LeafInfo>,
    LeafInfo,
)
    decreases s.len() - i,
{
    if i < 0 || i >= s.len() {
        (chain, last)
    } else if s[i].justify_qc_view != last.view {
        walk_chain(s, i + 1, last, chain)
    } else if s[i].view == last.view + 1 {
        (chain.push(s[i]), s[i])
    } else {
        walk_chain(s, i + 1, s[i], chain.push(s[i]))
    }
}

/// Index of the first leaf, from `j` on, whose view is beyond `last`'s.
pub open spec fn skip_to_later(s: Seq<LeafInfo>, j: int, last: LeafInfo) -> int
    decreases s.len() - j,
{
    if j < 0 || j >= s.len() || s[j].view > last.view {
        j
    } else {
        skip_to_later(s, j + 1, last)
    }
}

/// The first leaf, from `j` on, that justifies itself with a certificate for `last`.
pub open spec fn confirming_leaf(s: Seq<LeafInfo>, j: int, last: LeafInfo) -> Option<LeafInfo>
    decreases s.len() - j,
{
    if j < 0 || j >= s.len() {
        None
    } else if s[j].justify_qc_view == last.view {
        Some(s[j])
    } else {
        confirming_leaf(s, j + 1, last)
    }
}

/// The chain of undecided leaves that proves the decide of the leaf at `height`: the
/// first such leaf (by view), the leaves that extend it up to two consecutive views,
/// and one more leaf that certifies the last of them. `None` when there is no such
/// chain.
pub open spec fn leaf_chain_spec(leaves: Seq<LeafInfo>, height: u64) -> Option<Seq<LeafInfo>> {
    let s = sort_by_view(leaves);
    match first_at_height(s, height, 0) {
        None => None,
        Some(p) => {
            let (chain, last) = walk_chain(s, p + 1, s[p], seq![s[p]]);
            match confirming_leaf(s, skip_to_later(s, 0, last), last) {
                Some(c) => Some(chain.push(c)),
                None => None,
            }
        },
    }
}

/// Each leaf of `chain` after the first justifies itself with a certificate for the one
/// before it.
pub open spec fn justify_linked(chain: Seq<LeafInfo>) -> bool {
    forall|i: int| 0 <= i < chain.len() - 1 ==> #[trigger] chain[i + 1].justify_qc_view == chain[i].view
}

proof fn lemma_insert_at(t: Seq<LeafInfo>, x: LeafInfo, p: int)
    requires
        0 <= p <= t.len(),
        forall|k: int| p <= k < t.len() ==> #[trigger] t[k].view > x.view,
        p == 0 || t[p - 1].view <= x.view,
    ensures
        insert_by_view(t, x) == t.subrange(0, p).push(x) + t.subrange(p, t.len() as int),
    decreases t.len(),
{
    if t.len() == 0 {
        assert(t.subrange(0, p).push(x) + t.subrange(p, t.len() as int) =~= seq![x]);
    } else if p == t.len() {
        assert(t.subrange(0, p).push(x) + t.subrange(p, t.len() as int) =~= t.push(x));
    } else {
        let d = t.drop_last();
        assert forall|k: int| p <= k < d.len() implies #[trigger] d[k].view > x.view by {
            assert(d[k] == t[k]);
        }
        if p > 0 {
            assert(d[p - 1] == t[p - 1]);
        }
        lemma_insert_at(d, x, p);
        assert(t[t.len() - 1].view > x.view);
        assert(d.subrange(0, p).push(x) + d.subrange(p, d.len() as int) + seq![t.last()]
            =~= t.subrange(0, p).push(x) + t.subrange(p, t.len() as int));
        assert(insert_by_view(t, x) == insert_by_view(d, x).push(t.last()));
        assert((d.subrange(0, p).push(x) + d.subrange(p, d.len() as int)).push(t.last())
            =~= d.subrange(0, p).push(x) + d.subrange(p, d.len() as int) + seq![t.last()]);
    }
}

/// Stable sort of the leaves by view.
pub fn sort_leaves_by_view(leaves: &Vec<LeafInfo>) -> (r: Vec<LeafInfo>)
    ensures
        r@ == sort_by_view(leaves@),
{
    let mut out: Vec<LeafInfo> = Vec::new();
    let mut i: usize = 0;
    while i < leaves.len()
        invariant
            i <= leaves@.len(),
            out@ == sort_by_view(leaves@.subrange(0, i as int)),
            out@.len() == i,
        decreases leaves@.len() - i,
    {
        let x = leaves[i];
        let mut p: usize = out.len();
        while p > 0 && out[p - 1].view > x.view
            invariant
                p <= out@.len(),
                forall|k: int| p <= k < out@.len() ==> #[trigger] out@[k].view > x.view,
            decreases p,
        {
            p = p - 1;
        }
        proof {
            lemma_insert_at(out@, x, p as int);
            let pre = leaves@.subrange(0, i + 1);
            assert(pre.drop_last() =~= leaves@.subrange(0, i as int));
            assert(pre.last() == x);
            assert(out@.insert(p as int, x) =~= out@.subrange(0, p as int).push(x) + out@.subrange(
                p as int,
                out@.len() as int,
            ));
            lemma_insert_len(out@, x);
        }
        out.insert(p, x);
        i = i + 1;
    }
    proof {
        assert(leaves@.subrange(0, leaves@.len() as int) =~= leaves@);
    }
    out
}

proof fn lemma_insert_len(t: Seq<LeafInfo>, x: LeafInfo)
    ensures
        insert_by_view(t, x).len() == t.len() + 1,
    decreases t.len(),
{
    if t.len() > 0 && t.last().view > x.view {
        lemma_insert_len(t.drop_last(), x);
    }
}

/// The leaves are in order of view.
pub open spec fn sorted_by_view(s: Seq<LeafInfo>) -> bool {
    forall|i: int, j: int| 0 <= i < j < s.len() ==> #[trigger] s[i].view <= #[trigger] s[j].view
}

proof fn lemma_insert_sorted(t: Seq<LeafInfo>, x: LeafInfo)
    requires
        sorted_by_view(t),
    ensures
        sorted_by_view(insert_by_view(t, x)),
        insert_by_view(t, x).len() == t.len() + 1,
        forall|k: int|
            0 <= k < insert_by_view(t, x).len() ==> #[trigger] insert_by_view(t, x)[k] == x || exists|
                m: int,
            | 0 <= m < t.len() && t[m] == insert_by_view(t, x)[k],
        insert_by_view(t, x).contains(x),
        forall|m: int| 0 <= m < t.len() ==> insert_by_view(t, x).contains(#[trigger] t[m]),
    decreases t.len(),
{
    lemma_insert_len(t, x);
    let r = insert_by_view(t, x);
    if t.len() == 0 {
        assert(r[0] == x);
    } else if t.last().view <= x.view {
        assert(r[t.len() as int] == x);
        assert forall|m: int| 0 <= m < t.len() implies r.contains(#[trigger] t[m]) by {
            assert(r[m] == t[m]);
        }
        assert forall|k: int| 0 <= k < r.len() implies #[trigger] r[k] == x || exists|m: int|
            0 <= m < t.len() && t[m] == r[k] by {
            if k < t.len() {
                assert(t[k] == r[k]);
            }
        }
        assert forall|i: int, j: int| 0 <= i < j < r.len() implies #[trigger] r[i].view
            <= #[trigger] r[j].view by {
            if j == t.len() {
                assert(t[i].view <= t[t.len() - 1].view);
            } else {
                assert(r[i] == t[i] && r[j] == t[j]);
            }
        }
    } else {
        let d = t.drop_last();
        assert(sorted_by_view(d)) by {
            assert forall|i: int, j: int| 0 <= i < j < d.len() implies #[trigger] d[i].view
                <= #[trigger] d[j].view by {
                assert(d[i] == t[i] && d[j] == t[j]);
            }
        }
        lemma_insert_sorted(d, x);
        let q = insert_by_view(d, x);
        assert(r == q.push(t.last()));
        let kx = choose|kx: int| 0 <= kx < q.len() && q[kx] == x;
        assert(r[kx] == x);
        assert forall|m: int| 0 <= m < t.len() implies r.contains(#[trigger] t[m]) by {
            if m == t.len() - 1 {
                assert(r[q.len() as int] == t[m]);
            } else {
                assert(d[m] == t[m]);
                assert(q.contains(d[m]));
                let kk = choose|kk: int| 0 <= kk < q.len() && q[kk] == d[m];
                assert(r[kk] == t[m]);
            }
        }
        assert forall|k: int| 0 <= k < q.len() implies #[trigger] q[k].view <= t.last().view by {
            if q[k] != x {
                let m = choose|m: int| 0 <= m < d.len() && d[m] == q[k];
                assert(d[m] == t[m]);
                assert(t[m].view <= t[t.len() - 1].view);
            }
        }
        assert forall|k: int| 0 <= k < r.len() implies #[trigger] r[k] == x || exists|m: int|
            0 <= m < t.len() && t[m] == r[k] by {
            if k < q.len() {
                assert(r[k] == q[k]);
                if q[k] != x {
                    let m = choose|m: int| 0 <= m < d.len() && d[m] == q[k];
                    assert(t[m] == r[k]);
                }
            } else {
                assert(t[t.len() - 1] == r[k]);
            }
        }
        assert forall|i: int, j: int| 0 <= i < j < r.len() implies #[trigger] r[i].view
            <= #[trigger] r[j].view by {
            if j == q.len() {
                assert(r[i] == q[i]);
            } else {
                assert(r[i] == q[i] && r[j] == q[j]);
            }
        }
    }
}

/// Sorting by view gives the leaves in order of view.
pub proof fn lemma_sort_sorted(s: Seq<LeafInfo>)
    ensures
        sorted_by_view(sort_by_view(s)),
        sort_by_view(s).len() == s.len(),
        forall|k: int| 0 <= k < s.len() ==> s.contains(#[trigger] sort_by_view(s)[k]),
        forall|m: int| 0 <= m < s.len() ==> sort_by_view(s).contains(#[trigger] s[m]),
    decreases s.len(),
{
    if s.len() > 0 {
        let d = s.drop_last();
        lemma_sort_sorted(d);
        let t = sort_by_view(d);
        lemma_insert_sorted(t, s.last());
        let r = sort_by_view(s);
        assert(r == insert_by_view(t, s.last()));
        assert forall|k: int| 0 <= k < s.len() implies s.contains(#[trigger] r[k]) by {
            if r[k] == s.last() {
                assert(s[s.len() - 1] == r[k]);
            } else {
                let m = choose|m: int| 0 <= m < t.len() && t[m] == r[k];
                assert(d.contains(t[m]));
                let q = choose|q: int| 0 <= q < d.len() && d[q] == t[m];
                assert(s[q] == r[k]);
            }
        }
        assert forall|m: int| 0 <= m < s.len() implies r.contains(#[trigger] s[m]) by {
            if m < s.len() - 1 {
                assert(d[m] == s[m]);
                assert(t.contains(d[m]));
                let q = choose|q: int| 0 <= q < t.len() && t[q] == d[m];
                assert(r.contains(t[q]));
            }
        }
    }
}

proof fn lemma_first_at_height(s: Seq<LeafInfo>, height: u64, i: int)
    requires
        0 <= i,
    ensures
        first_at_height(s, height, i) matches Some(p) ==> i <= p < s.len() && s[p].height == height,
    decreases s.len() - i,
{
    if i < s.len() && s[i].height != height {
        lemma_first_at_height(s, height, i + 1);
    }
}

/// `b` is as early as any leaf of `s` that comes after `a` in view and justifies itself
/// with a certificate for `a`.
pub open spec fn earliest_successor(s: Seq<LeafInfo>, a: LeafInfo, b: LeafInfo) -> bool {
    forall|q: int|
        0 <= q < s.len() && #[trigger] s[q].justify_qc_view == a.view && s[q].view > a.view
            ==> b.view <= s[q].view
}

proof fn lemma_first_before(s: Seq<LeafInfo>, height: u64, i: int, q: int)
    requires
        0 <= i <= q < s.len(),
        s[q].height == height,
    ensures
        first_at_height(s, height, i) matches Some(p) && p <= q,
    decreases s.len() - i,
{
    if s[i].height != height {
        lemma_first_before(s, height, i + 1, q);
    }
}

proof fn lemma_picked_earliest(s: Seq<LeafInfo>, i: int, last: LeafInfo, m: int)
    requires
        0 <= m < i < s.len(),
        s[m] == last,
        forall|k: int| m < k < i ==> #[trigger] s[k].justify_qc_view != last.view,
        sorted_by_view(s),
    ensures
        earliest_successor(s, last, s[i]),
{
    assert forall|q: int|
        0 <= q < s.len() && #[trigger] s[q].justify_qc_view == last.view && s[q].view > last.view
            implies s[i].view <= s[q].view by {
        if q <= m {
            if q < m {
                assert(s[q].view <= s[m].view);
            }
        }
        if q > i {
            assert(s[i].view <= s[q].view);
        }
    }
}

proof fn lemma_walk(s: Seq<LeafInfo>, i: int, last: LeafInfo, chain: Seq<LeafInfo>, m: int)
    requires
        0 <= m < i <= s.len(),
        s[m] == last,
        forall|k: int| m < k < i ==> #[trigger] s[k].justify_qc_view != last.view,
        chain.len() >= 1,
        chain.last() == last,
        forall|t: int| 0 <= t && t + 1 < chain.len() ==> #[trigger] chain[t + 1].view != chain[t].view + 1,
        forall|k: int| 0 <= k < chain.len() ==> s.contains(#[trigger] chain[k]),
        sorted_by_view(s),
        forall|t: int| 0 <= t && t + 1 < chain.len() ==> earliest_successor(s, chain[t], #[trigger] chain[t + 1]),
    ensures
        ({
            let (c, l) = walk_chain(s, i, last, chain);
            &&& c.len() >= 1
            &&& forall|t: int| 0 <= t && t + 1 < c.len() ==> earliest_successor(s, c[t], #[trigger] c[t + 1])
            &&& forall|k: int| 0 <= k < c.len() ==> s.contains(#[trigger] c[k])
            &&& l == c.last()
            &&& c[0] == chain[0]
            &&& (c.len() >= 2 && c[c.len() - 1].view == c[c.len() - 2].view + 1 && forall|t: int|
                0 <= t && t + 1 < c.len() - 1 ==> #[trigger] c[t + 1].view != c[t].view + 1) || (exists|
                m2: int,
            | 0 <= m2 < s.len() && s[m2] == l && forall|k: int|
                m2 < k < s.len() ==> #[trigger] s[k].justify_qc_view != l.view)
        }),
    decreases s.len() - i,
{
    if i >= s.len() {
        assert(forall|k: int| m < k < s.len() ==> #[trigger] s[k].justify_qc_view != last.view);
    } else if s[i].justify_qc_view != last.view {
        assert forall|k: int| m < k < i + 1 implies #[trigger] s[k].justify_qc_view != last.view by {}
        lemma_walk(s, i + 1, last, chain, m);
    } else if last.view + 1 == s[i].view {
        lemma_picked_earliest(s, i, last, m);
        let c = chain.push(s[i]);
        assert forall|t: int| 0 <= t && t + 1 < c.len() implies earliest_successor(s, c[t], #[trigger] c[t + 1]) by {
            if t + 1 < chain.len() {
                assert(c[t + 1] == chain[t + 1] && c[t] == chain[t]);
            } else {
                assert(c[t] == last);
            }
        }
        assert forall|k: int| 0 <= k < c.len() implies s.contains(#[trigger] c[k]) by {
            if k < chain.len() {
                assert(c[k] == chain[k]);
            } else {
                assert(s[i] == c[k]);
            }
        }
        assert(c[c.len() - 2] == last);
        assert forall|t: int| 0 <= t && t + 1 < c.len() - 1 implies #[trigger] c[t + 1].view
            != c[t].view + 1 by {
            assert(c[t + 1] == chain[t + 1] && c[t] == chain[t]);
        }
    } else {
        let c = chain.push(s[i]);
        assert forall|t: int| 0 <= t && t + 1 < c.len() implies #[trigger] c[t + 1].view
            != c[t].view + 1 by {
            if t + 1 < chain.len() {
                assert(c[t + 1] == chain[t + 1] && c[t] == chain[t]);
            } else {
                assert(c[t] == last);
            }
        }
        assert forall|k: int| 0 <= k < c.len() implies s.contains(#[trigger] c[k]) by {
            if k < chain.len() {
                assert(c[k] == chain[k]);
            } else {
                assert(s[i] == c[k]);
            }
        }
        lemma_picked_earliest(s, i, last, m);
        assert forall|t: int| 0 <= t && t + 1 < c.len() implies earliest_successor(s, c[t], #[trigger] c[t + 1]) by {
            if t + 1 < chain.len() {
                assert(c[t + 1] == chain[t + 1] && c[t] == chain[t]);
            } else {
                assert(c[t] == last);
            }
        }
        lemma_walk(s, i + 1, s[i], c, i);
    }
}

proof fn lemma_skip_to_later(s: Seq<LeafInfo>, j: int, l: LeafInfo)
    requires
        0 <= j <= s.len(),
    ensures
        j <= skip_to_later(s, j, l) <= s.len(),
        skip_to_later(s, j, l) < s.len() ==> s[skip_to_later(s, j, l)].view > l.view,
        forall|k: int| j <= k < skip_to_later(s, j, l) ==> #[trigger] s[k].view <= l.view,
    decreases s.len() - j,
{
    if j < s.len() && s[j].view <= l.view {
        lemma_skip_to_later(s, j + 1, l);
    }
}

proof fn lemma_confirming_leaf(s: Seq<LeafInfo>, j: int, l: LeafInfo)
    requires
        0 <= j,
    ensures
        confirming_leaf(s, j, l) matches Some(c) ==> exists|k: int|
            j <= k < s.len() && #[trigger] s[k] == c && c.justify_qc_view == l.view && forall|q: int|
                j <= q < k ==> s[q].justify_qc_view != l.view,
        confirming_leaf(s, j, l) is None ==> forall|k: int|
            j <= k < s.len() ==> #[trigger] s[k].justify_qc_view != l.view,
    decreases s.len() - j,
{
    if j < s.len() && s[j].justify_qc_view == l.view {
        assert(s[j] == s[j]);
    }
    if j < s.len() && s[j].justify_qc_view != l.view {
        lemma_confirming_leaf(s, j + 1, l);
        if let Some(c) = confirming_leaf(s, j, l) {
            let k = choose|k: int|
                j + 1 <= k < s.len() && #[trigger] s[k] == c && c.justify_qc_view == l.view && forall|q: int|
                    j + 1 <= q < k ==> s[q].justify_qc_view != l.view;
            assert(forall|q: int| j <= q < k ==> s[q].justify_qc_view != l.view);
        }
        if confirming_leaf(s, j, l) is None {
            assert forall|k: int| j <= k < s.len() implies #[trigger] s[k].justify_qc_view != l.view by {
                if k > j {
                }
            }
        }
    }
}

/// A chain that is found is made of the given leaves, starts at a leaf of the
/// requested height with no earlier view among such leaves, and takes at each link the
/// earliest later leaf that justifies itself with the one before. It ends at the first
/// link between two consecutive views: it has at least three leaves, the last link of
/// its walk joins consecutive views, no earlier link does, and its final leaf comes in
/// a later view and certifies the leaf before it.
pub proof fn lemma_leaf_chain_ends_at_consecutive_views(leaves: Seq<LeafInfo>, height: u64)
    ensures
        leaf_chain_spec(leaves, height) matches Some(c) ==> {
            &&& c.len() >= 3
            &&& c[0].height == height
            &&& c[c.len() - 2].view == c[c.len() - 3].view + 1
            &&& forall|t: int| 0 <= t && t + 1 < c.len() - 2 ==> #[trigger] c[t + 1].view != c[t].view + 1
            &&& c[c.len() - 1].justify_qc_view == c[c.len() - 2].view
            &&& c[c.len() - 1].view > c[c.len() - 2].view
            &&& forall|k: int| 0 <= k < c.len() ==> leaves.contains(#[trigger] c[k])
            &&& forall|m: int|
                0 <= m < leaves.len() && #[trigger] leaves[m].height == height ==> c[0].view
                    <= leaves[m].view
            &&& forall|t: int|
                0 <= t && t + 1 < c.len() ==> earliest_successor(leaves, c[t], #[trigger] c[t + 1])
        },
{
    let s = sort_by_view(leaves);
    lemma_sort_sorted(leaves);
    lemma_first_at_height(s, height, 0);
    if let Some(p) = first_at_height(s, height, 0) {
        let (w, l) = walk_chain(s, p + 1, s[p], seq![s[p]]);
        assert(seq![s[p]][0] == s[p]);
        assert(s.contains(s[p]));
        lemma_walk(s, p + 1, s[p], seq![s[p]], p);
        let j0 = skip_to_later(s, 0, l);
        lemma_skip_to_later(s, 0, l);
        lemma_confirming_leaf(s, j0, l);
        if let Some(cf) = confirming_leaf(s, j0, l) {
            let k = choose|k: int|
                j0 <= k < s.len() && #[trigger] s[k] == cf && cf.justify_qc_view == l.view && forall|
                    q: int,
                | j0 <= q < k ==> s[q].justify_qc_view != l.view;
            let k_cf = k;
            assert(s[j0].view <= s[k].view || j0 == k);
            let c = w.push(cf);
            if !(w.len() >= 2 && w[w.len() - 1].view == w[w.len() - 2].view + 1 && forall|t: int|
                0 <= t && t + 1 < w.len() - 1 ==> #[trigger] w[t + 1].view != w[t].view + 1) {
                let m2 = choose|m2: int| 0 <= m2 < s.len() && s[m2] == l && forall|k2: int|
                    m2 < k2 < s.len() ==> #[trigger] s[k2].justify_qc_view != l.view;
                if k <= m2 {
                    assert(s[k].view <= s[m2].view || k == m2);
                }
                assert(s[k].justify_qc_view != l.view);
            }
            assert(c[c.len() - 2] == w.last());
            assert(c[c.len() - 3] == w[w.len() - 2]);
            assert forall|t: int| 0 <= t && t + 1 < c.len() - 2 implies #[trigger] c[t + 1].view
                != c[t].view + 1 by {
                assert(c[t + 1] == w[t + 1] && c[t] == w[t]);
            }
            assert(c[0] == w[0]);
            assert(w[0] == s[p]);
            assert forall|k: int| 0 <= k < c.len() implies leaves.contains(#[trigger] c[k]) by {
                if k < w.len() {
                    assert(c[k] == w[k]);
                    assert(s.contains(w[k]));
                } else {
                    assert(c[k] == cf);
                    assert(s[k_cf] == cf);
                }
                let q = choose|q: int| 0 <= q < s.len() && s[q] == c[k];
                assert(leaves.contains(s[q]));
            }
            assert forall|t: int| 0 <= t && t + 1 < c.len() implies earliest_successor(
                leaves,
                c[t],
                #[trigger] c[t + 1],
            ) by {
                assert forall|q: int|
                    0 <= q < leaves.len() && #[trigger] leaves[q].justify_qc_view == c[t].view
                        && leaves[q].view > c[t].view implies c[t + 1].view <= leaves[q].view by {
                    assert(s.contains(leaves[q]));
                    let q2 = choose|q2: int| 0 <= q2 < s.len() && s[q2] == leaves[q];
                    if t + 1 < w.len() {
                        assert(c[t] == w[t] && c[t + 1] == w[t + 1]);
                        assert(earliest_successor(s, w[t], w[t + 1]));
                        assert(s[q2].justify_qc_view == w[t].view);
                    } else {
                        assert(c[t] == l);
                        assert(c[t + 1] == cf);
                        if q2 < j0 {
                            assert(s[q2].view <= l.view);
                        }
                        if q2 < k_cf {
                            assert(s[q2].justify_qc_view != l.view);
                        }
                        if q2 > k_cf {
                            assert(s[k_cf].view <= s[q2].view);
                        }
                    }
                }
            }
            assert forall|m: int|
                0 <= m < leaves.len() && #[trigger] leaves[m].height == height implies c[0].view
                <= leaves[m].view by {
                assert(s.contains(leaves[m]));
                let q = choose|q: int| 0 <= q < s.len() && s[q] == leaves[m];
                lemma_first_before(s, height, 0, q);
                if p < q {
                    assert(s[p].view <= s[q].view);
                }
            }
        }
    }
}

/// No two leaves share a view.
pub open spec fn distinct_views(s: Seq<LeafInfo>) -> bool {
    forall|i: int, j: int| 0 <= i < j < s.len() ==> #[trigger] s[i].view != #[trigger] s[j].view
}

/// `c` is a chain of the given leaves that proves the decide of the leaf at `height`: it
/// starts at a leaf of that height with no earlier view among such leaves; each leaf
/// after the first is the earliest later leaf that justifies itself with the one
/// before; the first link between two consecutive views is the last link but one; and
/// the final leaf certifies the leaf before it.
pub open spec fn proves_decide(leaves: Seq<LeafInfo>, height: u64, c: Seq<LeafInfo>) -> bool {
    &&& c.len() >= 3
    &&& forall|k: int| 0 <= k < c.len() ==> leaves.contains(#[trigger] c[k])
    &&& c[0].height == height
    &&& forall|m: int|
        0 <= m < leaves.len() && #[trigger] leaves[m].height == height ==> c[0].view
            <= leaves[m].view
    &&& forall|t: int|
        0 <= t && t + 1 < c.len() ==> #[trigger] c[t + 1].justify_qc_view == c[t].view
            && c[t + 1].view > c[t].view && earliest_successor(leaves, c[t], c[t + 1])
    &&& c[c.len() - 2].view == c[c.len() - 3].view + 1
    &&& forall|t: int| 0 <= t && t + 1 < c.len() - 2 ==> #[trigger] c[t + 1].view != c[t].view + 1
}

proof fn lemma_sort_strict(leaves: Seq<LeafInfo>)
    requires
        distinct_views(leaves),
    ensures
        forall|i: int, j: int|
            0 <= i < j < sort_by_view(leaves).len() ==> #[trigger] sort_by_view(leaves)[i].view
                < #[trigger] sort_by_view(leaves)[j].view,
    decreases leaves.len(),
{
    lemma_sort_sorted(leaves);
    if leaves.len() > 0 {
        let d = leaves.drop_last();
        let x = leaves.last();
        assert(distinct_views(d)) by {
            assert forall|i: int, j: int| 0 <= i < j < d.len() implies #[trigger] d[i].view
                != #[trigger] d[j].view by {
                assert(d[i] == leaves[i] && d[j] == leaves[j]);
            }
        }
        lemma_sort_strict(d);
        lemma_sort_sorted(d);
        let t = sort_by_view(d);
        assert forall|k: int| 0 <= k < t.len() implies #[trigger] t[k].view != x.view by {
            assert(d.contains(t[k]));
            let m = choose|m: int| 0 <= m < d.len() && d[m] == t[k];
            assert(leaves[m] == t[k]);
            assert(leaves[m].view != leaves[leaves.len() - 1].view);
        }
        let p = skip_to_later(t, 0, x);
        lemma_skip_to_later(t, 0, x);
        assert forall|k: int| p <= k < t.len() implies #[trigger] t[k].view > x.view by {
            if k > p {
                assert(t[p].view < t[k].view);
            }
        }
        assert forall|k: int| 0 <= k < p implies #[trigger] t[k].view < x.view by {
            assert(t[k].view <= x.view);
        }
        if p > 0 {
            assert(t[p - 1].view <= x.view);
        }
        lemma_insert_at(t, x, p);
        lemma_insert_strict(t, x, p);
        assert(sort_by_view(leaves) == insert_by_view(t, x));
    }
}

proof fn lemma_insert_strict(t: Seq<LeafInfo>, x: LeafInfo, p: int)
    requires
        0 <= p <= t.len(),
        forall|i: int, j: int| 0 <= i < j < t.len() ==> #[trigger] t[i].view < #[trigger] t[j].view,
        forall|k: int| 0 <= k < p ==> #[trigger] t[k].view < x.view,
        forall|k: int| p <= k < t.len() ==> #[trigger] t[k].view > x.view,
    ensures
        ({
            let r = t.subrange(0, p).push(x) + t.subrange(p, t.len() as int);
            forall|i: int, j: int| 0 <= i < j < r.len() ==> #[trigger] r[i].view < #[trigger] r[j].view
        }),
{
    let r = t.subrange(0, p).push(x) + t.subrange(p, t.len() as int);
    assert forall|i: int, j: int| 0 <= i < j < r.len() implies #[trigger] r[i].view
        < #[trigger] r[j].view by {
        if i < p {
            assert(r[i] == t[i]);
            if j < p {
                assert(r[j] == t[j]);
            } else if j == p {
                assert(r[j] == x);
            } else {
                assert(r[j] == t[j - 1]);
            }
        } else if i == p {
            assert(r[i] == x);
            assert(r[j] == t[j - 1]);
        } else {
            assert(r[i] == t[i - 1]);
            assert(r[j] == t[j - 1]);
        }
    }
}

proof fn lemma_walk_skips(s: Seq<LeafInfo>, i: int, q: int, last: LeafInfo, chain: Seq<LeafInfo>)
    requires
        0 <= i <= q <= s.len(),
        forall|k: int| i <= k < q ==> #[trigger] s[k].justify_qc_view != last.view,
    ensures
        walk_chain(s, i, last, chain) == walk_chain(s, q, last, chain),
    decreases q - i,
{
    if i < q {
        lemma_walk_skips(s, i + 1, q, last, chain);
    }
}

proof fn lemma_confirming_skips(s: Seq<LeafInfo>, j: int, q: int, l: LeafInfo)
    requires
        0 <= j <= q < s.len(),
        forall|k: int| j <= k < q ==> #[trigger] s[k].justify_qc_view != l.view,
        s[q].justify_qc_view == l.view,
    ensures
        confirming_leaf(s, j, l) == Some(s[q]),
    decreases q - j,
{
    if j < q {
        lemma_confirming_skips(s, j + 1, q, l);
    }
}

proof fn lemma_walk_follows(
    leaves: Seq<LeafInfo>,
    height: u64,
    c: Seq<LeafInfo>,
    s: Seq<LeafInfo>,
    i: int,
    m: int,
    t: int,
)
    requires
        proves_decide(leaves, height, c),
        forall|a: int, b: int| 0 <= a < b < s.len() ==> #[trigger] s[a].view < #[trigger] s[b].view,
        forall|k: int| 0 <= k < s.len() ==> leaves.contains(#[trigger] s[k]),
        forall|k: int| 0 <= k < leaves.len() ==> s.contains(#[trigger] leaves[k]),
        0 <= t < c.len() - 2,
        0 <= m < i <= s.len(),
        s[m] == c[t],
        forall|k: int| m < k < i ==> #[trigger] s[k].justify_qc_view != c[t].view,
    ensures
        walk_chain(s, i, c[t], c.subrange(0, t + 1)) == (c.subrange(0, c.len() - 1), c[c.len() - 2]),
    decreases s.len() - i,
{
    let last = c[t];
    let next = c[t + 1];
    assert(c[t + 1].justify_qc_view == c[t].view && c[t + 1].view > c[t].view && earliest_successor(
        leaves,
        c[t],
        c[t + 1],
    ));
    assert(leaves.contains(next));
    let ln = choose|ln: int| 0 <= ln < leaves.len() && leaves[ln] == next;
    assert(s.contains(leaves[ln]));
    let q = choose|q: int| 0 <= q < s.len() && s[q] == next;
    if q <= m {
        if q < m {
            assert(s[q].view < s[m].view);
        }
    }
    assert(q > m);
    if q < i {
        assert(s[q].justify_qc_view != last.view);
    }
    assert(q >= i);
    assert forall|k: int| i <= k < q implies #[trigger] s[k].justify_qc_view != last.view by {
        if s[k].justify_qc_view == last.view {
            assert(s[m].view < s[k].view);
            assert(leaves.contains(s[k]));
            let lk = choose|lk: int| 0 <= lk < leaves.len() && leaves[lk] == s[k];
            assert(leaves[lk].justify_qc_view == last.view && leaves[lk].view > last.view);
            assert(next.view <= leaves[lk].view);
            assert(s[k].view < s[q].view);
        }
    }
    lemma_walk_skips(s, i, q, last, c.subrange(0, t + 1));
    let chain2 = c.subrange(0, t + 1).push(next);
    assert(chain2 =~= c.subrange(0, t + 2));
    if next.view == last.view + 1 {
        assert(t + 1 == c.len() - 2);
        assert(c.subrange(0, t + 2) =~= c.subrange(0, c.len() - 1));
    } else {
        assert(t + 1 < c.len() - 2);
        assert forall|k: int| q < k < q + 1 implies #[trigger] s[k].justify_qc_view != c[t + 1].view by {}
        lemma_walk_follows(leaves, height, c, s, q + 1, q, t + 1);
    }
}

/// Every chain of the given leaves that proves the decide of the leaf at `height` is
/// the one found, when no two leaves share a view: the search misses no such chain.
pub proof fn lemma_leaf_chain_complete(leaves: Seq<LeafInfo>, height: u64, c: Seq<LeafInfo>)
    requires
        distinct_views(leaves),
        proves_decide(leaves, height, c),
    ensures
        leaf_chain_spec(leaves, height) == Some(c),
{
    let s = sort_by_view(leaves);
    lemma_sort_sorted(leaves);
    lemma_sort_strict(leaves);
    let n = c.len();
    assert(leaves.contains(c[0]));
    let l0 = choose|l0: int| 0 <= l0 < leaves.len() && leaves[l0] == c[0];
    assert(s.contains(leaves[l0]));
    let q0 = choose|q0: int| 0 <= q0 < s.len() && s[q0] == c[0];
    lemma_first_before(s, height, 0, q0);
    lemma_first_at_height(s, height, 0);
    let p = first_at_height(s, height, 0)->Some_0;
    assert(s.contains(s[p]));
    assert(leaves.contains(s[p]));
    let lp = choose|lp: int| 0 <= lp < leaves.len() && leaves[lp] == s[p];
    assert(c[0].view <= leaves[lp].view);
    if p < q0 {
        assert(s[p].view < s[q0].view);
    }
    assert(p == q0);
    assert(seq![s[p]] =~= c.subrange(0, 1));
    lemma_walk_follows(leaves, height, c, s, p + 1, p, 0);
    let l = c[n - 2];
    let j0 = skip_to_later(s, 0, l);
    lemma_skip_to_later(s, 0, l);
    let t2 = n - 2;
    assert(0 <= t2 && t2 + 1 < c.len());
    assert(c[t2 + 1].justify_qc_view == c[t2].view);
    assert(c[t2 + 1].view > c[t2].view);
    assert(earliest_successor(leaves, c[t2], c[t2 + 1]));
    assert(leaves.contains(c[n - 1]));
    let ln = choose|ln: int| 0 <= ln < leaves.len() && leaves[ln] == c[n - 1];
    assert(s.contains(leaves[ln]));
    let q = choose|q: int| 0 <= q < s.len() && s[q] == c[n - 1];
    if q < j0 {
        assert(s[q].view <= l.view);
    }
    assert forall|k: int| j0 <= k < q implies #[trigger] s[k].justify_qc_view != l.view by {
        if s[k].justify_qc_view == l.view {
            if k > j0 {
                assert(s[j0].view < s[k].view);
            }
            assert(leaves.contains(s[k]));
            let lk = choose|lk: int| 0 <= lk < leaves.len() && leaves[lk] == s[k];
            assert(leaves[lk].justify_qc_view == l.view && leaves[lk].view > l.view);
            assert(s[k].view < s[q].view);
        }
    }
    lemma_confirming_skips(s, j0, q, l);
    assert(c.subrange(0, n - 1).push(c[n - 1]) =~= c);
}

proof fn lemma_no_chain_when_none(leaves: Seq<LeafInfo>, height: u64)
    ensures
        distinct_views(leaves) && leaf_chain_spec(leaves, height) is None ==> forall|c: Seq<LeafInfo>|
            !#[trigger] proves_decide(leaves, height, c),
{
    if distinct_views(leaves) && leaf_chain_spec(leaves, height) is None {
        assert forall|c: Seq<LeafInfo>| !#[trigger] proves_decide(leaves, height, c) by {
            if proves_decide(leaves, height, c) {
                lemma_leaf_chain_complete(leaves, height, c);
            }
        }
    }
}

/// Find the chain of undecided leaves that proves the decide of the leaf at `height`.
///
/// The leaves are ordered by view; the chain starts at the first leaf at `height`,
/// follows the leaves that justify themselves with the previous one until two
/// consecutive views are linked, and ends with one later leaf that certifies the last.
pub fn get_leaf_chain(leaves: &Vec<LeafInfo>, height: u64) -> (r: Result<
    Vec<LeafInfo>,
    LeafChainUnavailable,
>)
    ensures
        match leaf_chain_spec(leaves@, height) {
            Some(c) => r matches Ok(v) && v@ == c,
            None => r == Err::<Vec<LeafInfo>, LeafChainUnavailable>(
                LeafChainUnavailable { height },
            ),
        },
        r matches Ok(v) ==> v@.len() >= 2 && v@[0].height == height && justify_linked(v@),
        r matches Ok(v) ==> {
            &&& v@.len() >= 3
            &&& v@[v@.len() - 2].view == v@[v@.len() - 3].view + 1
            &&& forall|t: int|
                0 <= t && t + 1 < v@.len() - 2 ==> #[trigger] v@[t + 1].view != v@[t].view + 1
            &&& v@[v@.len() - 1].view > v@[v@.len() - 2].view
            &&& forall|k: int| 0 <= k < v@.len() ==> leaves@.contains(#[trigger] v@[k])
            &&& forall|m: int|
                0 <= m < leaves@.len() && #[trigger] leaves@[m].height == height ==> v@[0].view
                    <= leaves@[m].view
            &&& forall|t: int|
                0 <= t && t + 1 < v@.len() ==> earliest_successor(leaves@, v@[t], #[trigger] v@[t + 1])
        },
        distinct_views(leaves@) && r is Err ==> forall|c: Seq<LeafInfo>|
            !#[trigger] proves_decide(leaves@, height, c),
{
    let s = sort_leaves_by_view(leaves);
    let ghost sv = s@;
    let mut p: usize = 0;
    while p < s.len() && s[p].height != height
        invariant
            p <= sv.len(),
            s@ == sv,
            first_at_height(sv, height, 0) == first_at_height(sv, height, p as int),
        decreases sv.len() - p,
    {
        p = p + 1;
    }
    if p >= s.len() {
        proof {
            lemma_no_chain_when_none(leaves@, height);
        }
        return Err(LeafChainUnavailable { height });
    }
    proof {
        assert(first_at_height(sv, height, p as int) == Some(p as int));
    }
    let mut last = s[p];
    let mut chain: Vec<LeafInfo> = Vec::new();
    chain.push(last);
    let ghost target = walk_chain(sv, p + 1, sv[p as int], seq![sv[p as int]]);
    proof {
        assert(chain@ =~= seq![sv[p as int]]);
    }
    let mut i: usize = p + 1;
    let mut done = false;
    while i < s.len() && !done
        invariant
            p < i <= sv.len(),
            s@ == sv,
            done ==> (chain@, last) == target,
            !done ==> walk_chain(sv, i as int, last, chain@) == target,
            chain@.len() >= 1,
            chain@[0].height == height,
            chain@.last() == last,
            justify_linked(chain@),
            first_at_height(sv, height, 0) == Some(p as int),
            sv == sort_by_view(leaves@),
        decreases sv.len() - i,
    {
        let leaf = s[i];
        if leaf.justify_qc_view == last.view {
            proof {
                assert(chain@.push(leaf)[chain@.len() as int] == leaf);
                assert forall|k: int| 0 <= k < chain@.push(leaf).len() - 1 implies #[trigger] chain@.push(
                    leaf,
                )[k + 1].justify_qc_view == chain@.push(leaf)[k].view by {
                    if k < chain@.len() - 1 {
                        assert(chain@.push(leaf)[k + 1] == chain@[k + 1]);
                    }
                }
            }
            chain.push(leaf);
            // a view one past the largest cannot follow it
            if last.view < u64::MAX && leaf.view == last.view + 1 {
                done = true;
            }
            last = leaf;
        }
        i = i + 1;
    }
    proof {
        if !done {
            assert(walk_chain(sv, i as int, last, chain@) == (chain@, last));
        }
    }
    let mut j: usize = 0;
    while j < s.len() && s[j].view <= last.view
        invariant
            j <= sv.len(),
            s@ == sv,
            skip_to_later(sv, 0, last) == skip_to_later(sv, j as int, last),
            chain@.len() >= 1,
            chain@[0].height == height,
            chain@.last() == last,
            justify_linked(chain@),
            (chain@, last) == target,
            first_at_height(sv, height, 0) == Some(p as int),
            target == walk_chain(sv, p + 1, sv[p as int], seq![sv[p as int]]),
            sv == sort_by_view(leaves@),

        decreases sv.len() - j,
    {
        j = j + 1;
    }
    let ghost start = j as int;
    proof {
        assert(j >= sv.len() || sv[j as int].view > last.view);
        assert(skip_to_later(sv, j as int, last) == j);
    }
    while j < s.len()
        invariant
            start <= j <= sv.len(),
            s@ == sv,
            confirming_leaf(sv, start, last) == confirming_leaf(sv, j as int, last),
            start == skip_to_later(sv, 0, last),
            chain@.len() >= 1,
            chain@[0].height == height,
            chain@.last() == last,
            justify_linked(chain@),
            (chain@, last) == target,
            first_at_height(sv, height, 0) == Some(p as int),
            target == walk_chain(sv, p + 1, sv[p as int], seq![sv[p as int]]),
            sv == sort_by_view(leaves@),

        decreases sv.len() - j,
    {
        if s[j].justify_qc_view == last.view {
            let c = s[j];
            proof {
                assert(chain@.push(c)[chain@.len() as int] == c);
                assert forall|k: int| 0 <= k < chain@.push(c).len() - 1 implies #[trigger] chain@.push(
                    c,
                )[k + 1].justify_qc_view == chain@.push(c)[k].view by {
                    if k < chain@.len() - 1 {
                        assert(chain@.push(c)[k + 1] == chain@[k + 1]);
                    }
                }
            }
            chain.push(c);
            proof {
                lemma_leaf_chain_ends_at_consecutive_views(leaves@, height);
            }
            return Ok(chain);
        }
        j = j + 1;
    }
    proof {
        lemma_no_chain_when_none(leaves@, height);
    }
    Err(LeafChainUnavailable { height })
}

} // verus!
