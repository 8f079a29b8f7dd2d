use std::ops::Range;
use vstd::prelude::*;

verus! {

/// Errors of the namespaced dispersal scheme.
#[derive(Debug, Clone, Copy, PartialEq, Eq, Structural)]
pub enum VidError {
    /// A share is malformed
    InvalidShare,
    /// Not enough shares were given
    InsufficientShares,
    /// A namespace index is out of range for some share
    IndexOutOfBound,
    /// A parameter is invalid
    InvalidParam,
}

/// Commitment of the base dispersal scheme: a Merkle root.
#[derive(Clone, Copy, Debug, PartialEq, Eq, Hash)]
pub struct AvidMCommit {
    pub commit: [u8; 32],
}

/// A share of the base dispersal scheme for one namespace: the storage node's index,
/// the namespace's byte length and the raw share content `R`.
#[derive(Clone, Debug, PartialEq, Eq)]
pub struct AvidMShare<R> {
    pub index: u32,
    pub payload_byte_len: usize,
    pub content: R,
}

/// Dummy struct for the namespaced AvidM scheme
pub struct NsAvidMScheme;

/// Namespaced share for each storage node: one raw share per namespace, together with
/// every namespace's commitment and byte length.
#[derive(Clone, Debug, PartialEq, Eq)]
pub struct NsAvidMShare<R> {
    /// Index number of the given share.
    index: u32,
    /// The list of all namespace commitments
    ns_commits: Vec<AvidMCommit>,
    /// The size of each namespace
    ns_lens: Vec<usize>,
    /// Actual share content
    content: Vec<R>,
}

/// Sum of a sequence of lengths.
pub open spec fn sum_lens(s: Seq<usize>) -> nat
    decreases s.len(),
{
    if s.len() == 0 {
        0
    } else {
        sum_lens(s.drop_last()) + s.last() as nat
    }
}

/// Copy a vector of `Copy` values element by element.
fn copy_vec<T: Copy>(v: &Vec<T>) -> (r: Vec<T>)
    ensures
        r@ == v@,
{
    let mut r: Vec<T> = Vec::new();
    let mut i: usize = 0;
    while i < v.len()
        invariant
            i <= v@.len(),
            r@ == v@.subrange(0, i as int),
        decreases v@.len() - i,
    {
        r.push(v[i]);
        proof {
            assert(v@.subrange(0, i + 1) =~= v@.subrange(0, i as int).push(v@[i as int]));
        }
        i = i + 1;
    }
    proof {
        assert(v@.subrange(0, v@.len() as int) =~= v@);
    }
    r
}

impl<R> NsAvidMShare<R> {
    /// The storage node's index.
    pub closed spec fn index_spec(&self) -> u32 {
        self.index
    }

    /// The commitment of every namespace.
    pub closed spec fn commits_spec(&self) -> Seq<AvidMCommit> {
        self.ns_commits@
    }

    /// The byte length of every namespace.
    pub closed spec fn lens_spec(&self) -> Seq<usize> {
        self.ns_lens@
    }

    /// The raw share of every namespace.
    pub closed spec fn content_spec(&self) -> Seq<R> {
        self.content@
    }

    /// Whether the share holds a commitment, a length and a raw share for namespace `i`.
    pub open spec fn has_ns(&self, i: int) -> bool {
        &&& 0 <= i
        &&& i < self.commits_spec().len()
        &&& i < self.lens_spec().len()
        &&& i < self.content_spec().len()
    }

    /// A share is well formed when its three lists have the same length.
    pub open spec fn well_formed(&self) -> bool {
        &&& self.commits_spec().len() == self.lens_spec().len()
        &&& self.commits_spec().len() == self.content_spec().len()
    }

    /// The empty share of storage node `index`.
    pub fn empty(index: u32) -> (r: Self)
        ensures
            r.index_spec() == index,
            r.commits_spec().len() == 0,
            r.lens_spec().len() == 0,
            r.content_spec().len() == 0,
    {
        NsAvidMShare { index, ns_commits: Vec::new(), ns_lens: Vec::new(), content: Vec::new() }
    }

    /// Return the number of namespaces.
    /// It counts the namespace commitments; for a malformed share the other lists may
    /// be of another length.
    pub fn num_nss(&self) -> (r: usize)
        ensures
            r == self.commits_spec().len(),
    {
        self.ns_commits.len()
    }

    /// Return the inner share for a given namespace if there exists one.
    pub fn inner_ns_share(&self, ns_index: usize) -> (r: Option<AvidMShare<R>>)
        where R: Clone,
        ensures
            (ns_index < self.lens_spec().len() && ns_index < self.content_spec().len()) <==> r is Some,
            r matches Some(s) ==> {
                &&& s.index == self.index_spec()
                &&& s.payload_byte_len == self.lens_spec()[ns_index as int]
                &&& cloned(self.content_spec()[ns_index as int], s.content)
            },
    {
        if ns_index >= self.ns_lens.len() || ns_index >= self.content.len() {
            return None;
        }
        Some(
            AvidMShare {
                index: self.index,
                payload_byte_len: self.ns_lens[ns_index],
                content: self.content[ns_index].clone(),
            },
        )
    }

    /// Return the length of underlying payload in bytes
    pub fn payload_byte_len(&self) -> (r: usize)
        requires
            sum_lens(self.lens_spec()) <= usize::MAX,
        ensures
            r == sum_lens(self.lens_spec()),
    {
        let mut total: usize = 0;
        let mut i: usize = 0;
        while i < self.ns_lens.len()
            invariant
                i <= self.ns_lens@.len(),
                total == sum_lens(self.ns_lens@.subrange(0, i as int)),
                sum_lens(self.ns_lens@) <= usize::MAX,
            decreases self.ns_lens@.len() - i,
        {
            proof {
                let s = self.ns_lens@;
                assert(s.subrange(0, i + 1).drop_last() =~= s.subrange(0, i as int));
                lemma_sum_lens_prefix_le(s, i + 1);
            }
            total = total + self.ns_lens[i];
            i = i + 1;
        }
        proof {
            assert(self.ns_lens@.subrange(0, self.ns_lens@.len() as int) =~= self.ns_lens@);
        }
        total
    }

    /// Peek if the share contains a given namespace.
    pub fn contains_ns(&self, ns_index: usize) -> (r: bool)
        ensures
            r <==> self.has_ns(ns_index as int),
    {
        self.ns_commits.len() > ns_index && self.ns_lens.len() > ns_index && self.content.len()
            > ns_index
    }

    /// Return the list of namespace commitments.
    pub fn ns_commits(&self) -> (r: &[AvidMCommit])
        ensures
            r@ == self.commits_spec(),
    {
        self.ns_commits.as_slice()
    }

    /// Return the list of namespace byte lengths.
    pub fn ns_lens(&self) -> (r: &[usize])
        ensures
            r@ == self.lens_spec(),
    {
        self.ns_lens.as_slice()
    }

    /// Return the commitment for a given namespace.
    pub fn ns_commit(&self, ns_index: usize) -> (r: &AvidMCommit)
        requires
            ns_index < self.commits_spec().len(),
        ensures
            *r == self.commits_spec()[ns_index as int],
    {
        &self.ns_commits[ns_index]
    }

    /// Return the byte length of a given namespace.
    pub fn ns_len(&self, ns_index: usize) -> (r: usize)
        requires
            ns_index < self.lens_spec().len(),
        ensures
            r == self.lens_spec()[ns_index as int],
    {
        self.ns_lens[ns_index]
    }
}

proof fn lemma_sum_lens_prefix_le(s: Seq<usize>, n: int)
    requires
        0 <= n <= s.len(),
    ensures
        sum_lens(s.subrange(0, n)) <= sum_lens(s),
    decreases s.len(),
{
    if n < s.len() {
        assert(s.drop_last().subrange(0, n) =~= s.subrange(0, n));
        lemma_sum_lens_prefix_le(s.drop_last(), n);
    } else {
        assert(s.subrange(0, n) =~= s);
    }
}

/// The contents that storage node `j` receives: the `j`-th raw share of each
/// namespace's dispersal, in namespace order, skipping namespaces that produced fewer
/// than `j + 1` shares.
pub open spec fn node_contents<R>(disperses: Seq<Seq<AvidMShare<R>>>, j: int) -> Seq<R>
    decreases disperses.len(),
{
    if disperses.len() == 0 {
        Seq::empty()
    } else {
        let prev = node_contents(disperses.drop_last(), j);
        if j < disperses.last().len() {
            prev.push(disperses.last()[j].content)
        } else {
            prev
        }
    }
}

/// Byte length of each namespace of a namespace table; an inverted range has length 0.
pub open spec fn range_lens(ns_table: Seq<Range<usize>>) -> Seq<usize> {
    ns_table.map_values(|r: Range<usize>| if r.start <= r.end { (r.end - r.start) as usize } else { 0usize })
}

/// The namespace table cuts `0..n` into consecutive ranges, in order.
pub open spec fn covers(ns_table: Seq<Range<usize>>, n: nat) -> bool {
    &&& ns_table.len() == 0 ==> n == 0
    &&& ns_table.len() > 0 ==> ns_table[0].start == 0 && ns_table.last().end == n
    &&& forall|i: int| 0 <= i < ns_table.len() ==> #[trigger] ns_table[i].start <= ns_table[i].end
    &&& forall|i: int|
        0 <= i < ns_table.len() - 1 ==> #[trigger] ns_table[i].end == ns_table[i + 1].start
}

proof fn lemma_consecutive_lens(t: Seq<Range<usize>>)
    requires
        t.len() > 0,
        forall|i: int| 0 <= i < t.len() ==> #[trigger] t[i].start <= t[i].end,
        forall|i: int| 0 <= i < t.len() - 1 ==> #[trigger] t[i].end == t[i + 1].start,
    ensures
        sum_lens(range_lens(t)) == t.last().end - t[0].start,
    decreases t.len(),
{
    let d = t.drop_last();
    assert(range_lens(t).drop_last() =~= range_lens(d));
    assert(range_lens(t).len() == t.len());
    assert(t[t.len() - 1].start <= t[t.len() - 1].end);
    assert(range_lens(t).last() == (t.last().end - t.last().start) as usize);
    assert(sum_lens(range_lens(t)) == sum_lens(range_lens(d)) + range_lens(t).last());
    if t.len() > 1 {
        assert(d.last() == t[t.len() - 2]);
        assert(d[0] == t[0]);
        assert forall|i: int| 0 <= i < d.len() implies #[trigger] d[i].start <= d[i].end by {
            assert(d[i] == t[i]);
        }
        assert forall|i: int| 0 <= i < d.len() - 1 implies #[trigger] d[i].end == d[i + 1].start by {
            assert(d[i] == t[i] && d[i + 1] == t[i + 1]);
        }
        lemma_consecutive_lens(d);
        assert(t[t.len() - 2].end == t[t.len() - 1].start);
    } else {
        assert(range_lens(d) =~= Seq::<usize>::empty());
    }
}

/// When the namespace table cuts the payload into consecutive ranges, the namespaces'
/// lengths add up to the payload's length.
pub proof fn lemma_cover_lens_sum(ns_table: Seq<Range<usize>>, n: nat)
    requires
        covers(ns_table, n),
    ensures
        sum_lens(range_lens(ns_table)) == n,
{
    if ns_table.len() > 0 {
        lemma_consecutive_lens(ns_table);
    } else {
        assert(range_lens(ns_table) =~= Seq::<usize>::empty());
    }
}

/// The first namespace, from `i` on, whose recovery failed.
pub open spec fn first_failure(parts: Seq<Result<Vec<u8>, VidError>>, i: int) -> Option<int>
    decreases parts.len() - i,
{
    if i < 0 || i >= parts.len() {
        None
    } else if parts[i] is Err {
        Some(i)
    } else {
        first_failure(parts, i + 1)
    }
}

/// The recovered namespaces' bytes, one after another.
pub open spec fn joined(parts: Seq<Result<Vec<u8>, VidError>>) -> Seq<u8>
    decreases parts.len(),
{
    if parts.len() == 0 {
        Seq::empty()
    } else {
        joined(parts.drop_last()) + match parts.last() {
            Ok(v) => v@,
            Err(_) => Seq::empty(),
        }
    }
}

/// Put a payload back together from the recovery of each namespace, in namespace
/// order (`parts[k]` for namespace `k` of the first share). With no share at all it is
/// `InsufficientShares`; otherwise the first namespace that could not be recovered
/// fails the whole with its error, and when every one was recovered the payload is
/// their bytes, one after another.
pub fn recovered_payload(has_shares: bool, parts: Vec<Result<Vec<u8>, VidError>>) -> (r: Result<
    Vec<u8>,
    VidError,
>)
    ensures
        !has_shares ==> r == Err::<Vec<u8>, VidError>(VidError::InsufficientShares),
        has_shares ==> match first_failure(parts@, 0) {
            Some(k) => parts@[k] matches Err(e) && r == Err::<Vec<u8>, VidError>(e),
            None => r matches Ok(v) && v@ == joined(parts@),
        },
{
    if !has_shares {
        return Err(VidError::InsufficientShares);
    }
    let ghost all = parts@;
    let mut rest = parts;
    let mut payload: Vec<u8> = Vec::new();
    let ghost mut i: int = 0;
    while rest.len() > 0
        invariant
            has_shares,
            all == parts@,
            0 <= i <= all.len(),
            rest@ == all.subrange(i, all.len() as int),
            first_failure(all, 0) == first_failure(all, i),
            payload@ == joined(all.take(i)),
        decreases rest@.len(),
    {
        let part = rest.remove(0);
        assert(part == all[i]);
        match part {
            Err(e) => {
                assert(first_failure(all, i) == Some(i));
                return Err(e);
            },
            Ok(mut bytes) => {
                proof {
                    assert(all.take(i + 1).drop_last() =~= all.take(i));
                    assert(all.take(i + 1).last() == all[i]);
                }
                payload.append(&mut bytes);
                proof {
                    i = i + 1;
                    assert(rest@ =~= all.subrange(i, all.len() as int));
                }
            },
        }
    }
    proof {
        assert(all.take(i) =~= all);
    }
    Ok(payload)
}

/// A share whose namespace lengths are those of a table that cuts `0..n` into
/// consecutive ranges has payload length `n`: `payload_byte_len` may be called on it
/// and returns `n`.
pub proof fn lemma_share_payload_byte_len<R>(share: NsAvidMShare<R>, ns_table: Seq<Range<usize>>, n: usize)
    requires
        share.lens_spec() == range_lens(ns_table),
        covers(ns_table, n as nat),
    ensures
        sum_lens(share.lens_spec()) == n,
        sum_lens(share.lens_spec()) <= usize::MAX,
{
    lemma_cover_lens_sum(ns_table, n as nat);
}

impl NsAvidMScheme {
    /// The byte length of each namespace of a namespace table.
    pub fn ns_lens_of(ns_table: &[Range<usize>]) -> (r: Vec<usize>)
        ensures
            r@ == range_lens(ns_table@),
    {
        let mut r: Vec<usize> = Vec::new();
        let mut i: usize = 0;
        while i < ns_table.len()
            invariant
                i <= ns_table@.len(),
                r@ == range_lens(ns_table@.subrange(0, i as int)),
            decreases ns_table@.len() - i,
        {
            let start = ns_table[i].start;
            let end = ns_table[i].end;
            let len = if start <= end { end - start } else { 0 };
            r.push(len);
            proof {
                assert(range_lens(ns_table@.subrange(0, i + 1)) =~= range_lens(
                    ns_table@.subrange(0, i as int),
                ).push(len));
            }
            i = i + 1;
        }
        proof {
            assert(ns_table@.subrange(0, ns_table@.len() as int) =~= ns_table@);
        }
        r
    }

    /// The payload bytes of one namespace.
    pub fn ns_payload(payload: &[u8], ns_range: &Range<usize>) -> (r: Vec<u8>)
        requires
            ns_range.start <= ns_range.end <= payload@.len(),
        ensures
            r@ == payload@.subrange(ns_range.start as int, ns_range.end as int),
    {
        let s = vstd::slice::slice_subrange(payload, ns_range.start, ns_range.end);
        vstd::slice::slice_to_vec(s)
    }

    /// Build every storage node's namespaced share from the dispersal of each namespace.
    ///
    /// `disperses[k]` holds the shares of namespace `k`, one per storage node. Node `j`
    /// gets the `j`-th share of every namespace that has one, the index of its own share
    /// of the first namespace, and every namespace's commitment and length.
    pub fn assemble_shares<R>(
        ns_lens: &Vec<usize>,
        ns_commits: &Vec<AvidMCommit>,
        disperses: Vec<Vec<AvidMShare<R>>>,
    ) -> (r: Vec<NsAvidMShare<R>>)
        requires
            disperses@.len() > 0,
        ensures
            r@.len() == disperses@[0]@.len(),
            forall|j: int|
                #![trigger r@[j]]
                0 <= j < r@.len() ==> {
                    &&& r@[j].index_spec() == disperses@[0]@[j].index
                    &&& r@[j].commits_spec() == ns_commits@
                    &&& r@[j].lens_spec() == ns_lens@
                    &&& r@[j].content_spec() == node_contents(
                        disperses@.map_values(|d: Vec<AvidMShare<R>>| d@),
                        j,
                    )
                },
    {
        let ghost dv = disperses@.map_values(|d: Vec<AvidMShare<R>>| d@);
        let num_nodes = disperses[0].len();
        let num_ns = disperses.len();
        let mut shares: Vec<NsAvidMShare<R>> = Vec::new();
        let mut j: usize = 0;
        while j < num_nodes
            invariant
                j <= num_nodes,
                disperses@.len() > 0,
                num_nodes == dv[0].len(),
                dv == disperses@.map_values(|d: Vec<AvidMShare<R>>| d@),
                dv[0] == disperses@[0]@,
                shares@.len() == j,
                forall|a: int|
                    #![trigger shares@[a]]
                    0 <= a < j ==> {
                        &&& shares@[a].index == dv[0][a].index
                        &&& shares@[a].ns_commits@ == ns_commits@
                        &&& shares@[a].ns_lens@ == ns_lens@
                        &&& shares@[a].content@ == Seq::<R>::empty()
                    },
            decreases num_nodes - j,
        {
            let index = disperses[0][j].index;
            let ghost before = shares@;
            shares.push(
                NsAvidMShare {
                    index,
                    ns_commits: copy_vec(ns_commits),
                    ns_lens: copy_vec(ns_lens),
                    content: Vec::new(),
                },
            );
            proof {
                assert forall|a: int| #![trigger shares@[a]] 0 <= a < j + 1 implies shares@[a].index
                    == dv[0][a].index by {
                    if a < j {
                        assert(shares@[a] == before[a]);
                    }
                }
            }
            j = j + 1;
        }
        let mut rest = disperses;
        let mut k: usize = 0;
        let ghost total = dv.len();
        proof {
            assert forall|a: int| #![trigger shares@[a]] 0 <= a < num_nodes implies shares@[a].content@
                == node_contents(dv.subrange(0, 0), a) by {
                assert(dv.subrange(0, 0).len() == 0);
            }
        }
        while rest.len() > 0
            invariant
                total == dv.len(),
                total > 0,
                num_nodes == dv[0].len(),
                total <= usize::MAX,
                k + rest@.len() == total,
                forall|b: int| 0 <= b < rest@.len() ==> #[trigger] rest@[b]@ == dv[k + b],
                shares@.len() == num_nodes,
                forall|a: int|
                    #![trigger shares@[a]]
                    0 <= a < num_nodes ==> {
                        &&& shares@[a].index == dv[0][a].index
                        &&& shares@[a].ns_commits@ == ns_commits@
                        &&& shares@[a].ns_lens@ == ns_lens@
                        &&& shares@[a].content@ == node_contents(dv.subrange(0, k as int), a)
                    },
            decreases rest@.len(),
        {
            let mut column = rest.remove(0);
            let ghost col_view = column@;
            proof {
                assert(col_view == dv[k as int]);
            }
            let mut a: usize = 0;
            while a < num_nodes && column.len() > 0
                invariant
                    a <= num_nodes,
                    a <= col_view.len(),
                    column@ == col_view.subrange(a as int, col_view.len() as int),
                    total == dv.len(),
                    num_nodes == dv[0].len(),
                    k < total,
                    col_view == dv[k as int],
                    shares@.len() == num_nodes,
                    forall|x: int|
                        #![trigger shares@[x]]
                        0 <= x < num_nodes ==> {
                            &&& shares@[x].index == dv[0][x].index
                            &&& shares@[x].ns_commits@ == ns_commits@
                            &&& shares@[x].ns_lens@ == ns_lens@
                            &&& shares@[x].content@ == if x < a {
                                node_contents(dv.subrange(0, k as int), x).push(col_view[x].content)
                            } else {
                                node_contents(dv.subrange(0, k as int), x)
                            }
                        },
                decreases num_nodes - a,
            {
                proof {
                    assert(column@[0] == col_view[a as int]);
                }
                let ns_share = column.remove(0);
                let ghost prev = shares@;
                let mut share = shares.remove(a);
                share.content.push(ns_share.content);
                shares.insert(a, share);
                proof {
                    assert(shares@ =~= prev.update(a as int, shares@[a as int]));
                    assert(shares@[a as int].content@ == prev[a as int].content@.push(col_view[a as int].content));
                    assert forall|x: int| #![trigger shares@[x]] 0 <= x < num_nodes implies {
                        &&& shares@[x].index == dv[0][x].index
                        &&& shares@[x].ns_commits@ == ns_commits@
                        &&& shares@[x].ns_lens@ == ns_lens@
                        &&& shares@[x].content@ == if x < a + 1 {
                            node_contents(dv.subrange(0, k as int), x).push(col_view[x].content)
                        } else {
                            node_contents(dv.subrange(0, k as int), x)
                        }
                    } by {
                        if x == a {
                            assert(shares@[x].content@ == node_contents(dv.subrange(0, k as int), x).push(col_view[x].content));
                        }
                    }
                    assert(column@ =~= col_view.subrange(a + 1, col_view.len() as int));
                }
                a = a + 1;
            }
            proof {
                let nk = dv.subrange(0, k + 1);
                assert(nk.drop_last() =~= dv.subrange(0, k as int));
                assert(nk.last() == col_view);
                assert forall|x: int| #![trigger shares@[x]] 0 <= x < num_nodes implies shares@[x].content@
                    == node_contents(nk, x) by {
                    if x < a {
                        assert(x < col_view.len());
                    } else {
                        assert(x >= col_view.len());
                    }
                }
                assert forall|b: int| 0 <= b < rest@.len() implies #[trigger] rest@[b]@ == dv[k
                    + 1 + b] by {}
            }
            k = k + 1;
        }
        proof {
            assert(dv.subrange(0, k as int) =~= dv);
            assert forall|x: int| #![trigger shares@[x]] 0 <= x < shares@.len() implies {
                &&& shares@[x].index_spec() == disperses@[0]@[x].index
                &&& shares@[x].commits_spec() == ns_commits@
                &&& shares@[x].lens_spec() == ns_lens@
                &&& shares@[x].content_spec() == node_contents(dv, x)
            } by {
                assert(num_nodes > 0);
            }
        }
        shares
    }

    /// Build the storage nodes' namespaced shares of `payload` from its namespace table
    /// and the dispersal of each namespace (`disperses[k]` and `ns_commits[k]` for the
    /// namespace `ns_table[k]`): every share records the table's lengths, and when the
    /// table cuts the payload into consecutive ranges, each share's payload length is
    /// the payload's length.
    pub fn shares_of_table<R>(
        payload: &[u8],
        ns_table: &[Range<usize>],
        ns_commits: &Vec<AvidMCommit>,
        disperses: Vec<Vec<AvidMShare<R>>>,
    ) -> (r: Vec<NsAvidMShare<R>>)
        requires
            disperses@.len() > 0,
        ensures
            r@.len() == disperses@[0]@.len(),
            forall|j: int|
                #![trigger r@[j]]
                0 <= j < r@.len() ==> {
                    &&& r@[j].index_spec() == disperses@[0]@[j].index
                    &&& r@[j].commits_spec() == ns_commits@
                    &&& r@[j].lens_spec() == range_lens(ns_table@)
                    &&& r@[j].content_spec() == node_contents(
                        disperses@.map_values(|d: Vec<AvidMShare<R>>| d@),
                        j,
                    )
                    &&& covers(ns_table@, payload@.len()) ==> sum_lens(r@[j].lens_spec())
                        == payload@.len()
                },
    {
        let ns_lens = Self::ns_lens_of(ns_table);
        proof {
            if covers(ns_table@, payload@.len()) {
                lemma_cover_lens_sum(ns_table@, payload@.len());
            }
        }
        Self::assemble_shares(&ns_lens, ns_commits, disperses)
    }

    /// Check a share's shape before verifying it: its three lists must have the same
    /// length.
    pub fn check_share_shape<R>(share: &NsAvidMShare<R>) -> (r: Result<(), VidError>)
        ensures
            r is Ok <==> share.well_formed(),
            r is Err ==> r == Err::<(), VidError>(VidError::InvalidShare),
    {
        if !(share.ns_commits.len() == share.ns_lens.len() && share.ns_commits.len()
            == share.content.len()) {
            return Err(VidError::InvalidShare);
        }
        Ok(())
    }

    /// Select, for the recovery of namespace `ns_index`, that namespace's commitment
    /// (as the first share records it) and every share's inner share.
    ///
    /// Fails with `InsufficientShares` when no share is given, and with
    /// `IndexOutOfBound` when some share lacks a length or a raw share for the
    /// namespace.
    pub fn ns_recover_inputs<R: Clone>(ns_index: usize, shares: &[NsAvidMShare<R>]) -> (r: Result<
        (AvidMCommit, Vec<AvidMShare<R>>),
        VidError,
    >)
        requires
            shares@.len() > 0 && (forall|i: int|
                0 <= i < shares@.len() ==> ns_index < #[trigger] shares@[i].lens_spec().len()
                    && ns_index < shares@[i].content_spec().len()) ==> ns_index
                < shares@[0].commits_spec().len(),
        ensures
            shares@.len() == 0 ==> r == Err::<(AvidMCommit, Vec<AvidMShare<R>>), VidError>(
                VidError::InsufficientShares,
            ),
            shares@.len() > 0 ==> (r == Err::<(AvidMCommit, Vec<AvidMShare<R>>), VidError>(
                VidError::IndexOutOfBound,
            ) <==> exists|i: int|
                0 <= i < shares@.len() && (ns_index >= #[trigger] shares@[i].lens_spec().len()
                    || ns_index >= shares@[i].content_spec().len())),
            shares@.len() > 0 && (forall|i: int|
                0 <= i < shares@.len() ==> ns_index < #[trigger] shares@[i].lens_spec().len()
                    && ns_index < shares@[i].content_spec().len()) ==> r is Ok,
            r matches Ok((c, inner)) ==> {
                &&& c == shares@[0].commits_spec()[ns_index as int]
                &&& inner@.len() == shares@.len()
                &&& forall|i: int|
                    0 <= i < inner@.len() ==> {
                        &&& (#[trigger] inner@[i]).index == shares@[i].index_spec()
                        &&& inner@[i].payload_byte_len == shares@[i].lens_spec()[ns_index as int]
                        &&& cloned(shares@[i].content_spec()[ns_index as int], inner@[i].content)
                    }
            },
    {
        if shares.len() == 0 {
            return Err(VidError::InsufficientShares);
        }
        let mut i: usize = 0;
        while i < shares.len()
            invariant
                i <= shares@.len(),
                forall|b: int|
                    0 <= b < i ==> ns_index < #[trigger] shares@[b].lens_spec().len()
                        && ns_index < shares@[b].content_spec().len(),
            decreases shares@.len() - i,
        {
            if ns_index >= shares[i].ns_lens.len() || ns_index >= shares[i].content.len() {
                proof {
                    assert(ns_index >= shares@[i as int].lens_spec().len() || ns_index
                        >= shares@[i as int].content_spec().len());
                }
                return Err(VidError::IndexOutOfBound);
            }
            i = i + 1;
        }
        let ns_commit = shares[0].ns_commits[ns_index];
        let mut inner: Vec<AvidMShare<R>> = Vec::new();
        let mut i: usize = 0;
        while i < shares.len()
            invariant
                i <= shares@.len(),
                inner@.len() == i,
                forall|b: int|
                    0 <= b < shares@.len() ==> ns_index < #[trigger] shares@[b].lens_spec().len()
                        && ns_index < shares@[b].content_spec().len(),
                forall|b: int|
                    0 <= b < i ==> {
                        &&& (#[trigger] inner@[b]).index == shares@[b].index_spec()
                        &&& inner@[b].payload_byte_len == shares@[b].lens_spec()[ns_index as int]
                        &&& cloned(shares@[b].content_spec()[ns_index as int], inner@[b].content)
                    },
            decreases shares@.len() - i,
        {
            match shares[i].inner_ns_share(ns_index) {
                Some(s) => {
                    inner.push(s);
                },
                None => {},
            }
            i = i + 1;
        }
        Ok((ns_commit, inner))
    }

    /// Select, for a proof that namespace `ns_index` was encoded incorrectly, that
    /// namespace's commitment (as the first share records it) and every share's inner
    /// share.
    ///
    /// Fails with `InsufficientShares` when no share is given, with `IndexOutOfBound`
    /// when some share lacks the namespace, and with `InvalidParam` when the Merkle root
    /// over the first share's namespace commitments is not the namespaced commitment
    /// (`root_matches`, which the Merkle tree computes).
    pub fn bad_encoding_inputs<R: Clone>(
        ns_index: usize,
        shares: &[NsAvidMShare<R>],
        root_matches: bool,
    ) -> (r: Result<(AvidMCommit, Vec<AvidMShare<R>>), VidError>)
        ensures
            shares@.len() == 0 ==> r == Err::<(AvidMCommit, Vec<AvidMShare<R>>), VidError>(
                VidError::InsufficientShares,
            ),
            shares@.len() > 0 ==> (r == Err::<(AvidMCommit, Vec<AvidMShare<R>>), VidError>(
                VidError::IndexOutOfBound,
            ) <==> exists|i: int|
                0 <= i < shares@.len() && !#[trigger] shares@[i].has_ns(ns_index as int)),
            shares@.len() > 0 && (forall|i: int|
                0 <= i < shares@.len() ==> #[trigger] shares@[i].has_ns(ns_index as int)) ==> (
            r is Ok <==> root_matches),
            shares@.len() > 0 && (forall|i: int|
                0 <= i < shares@.len() ==> #[trigger] shares@[i].has_ns(ns_index as int))
                && !root_matches ==> r == Err::<(AvidMCommit, Vec<AvidMShare<R>>), VidError>(
                VidError::InvalidParam,
            ),
            r matches Ok((c, inner)) ==> {
                &&& c == shares@[0].commits_spec()[ns_index as int]
                &&& inner@.len() == shares@.len()
                &&& forall|i: int|
                    0 <= i < inner@.len() ==> {
                        &&& (#[trigger] inner@[i]).index == shares@[i].index_spec()
                        &&& inner@[i].payload_byte_len == shares@[i].lens_spec()[ns_index as int]
                        &&& cloned(shares@[i].content_spec()[ns_index as int], inner@[i].content)
                    }
            },
    {
        if shares.len() == 0 {
            return Err(VidError::InsufficientShares);
        }
        let mut i: usize = 0;
        while i < shares.len()
            invariant
                i <= shares@.len(),
                forall|b: int| 0 <= b < i ==> #[trigger] shares@[b].has_ns(ns_index as int),
            decreases shares@.len() - i,
        {
            if !shares[i].contains_ns(ns_index) {
                return Err(VidError::IndexOutOfBound);
            }
            i = i + 1;
        }
        if !root_matches {
            return Err(VidError::InvalidParam);
        }
        proof {
            assert(shares@[0].has_ns(ns_index as int));
            assert forall|b: int| 0 <= b < shares@.len() implies ns_index
                < #[trigger] shares@[b].lens_spec().len() && ns_index
                < shares@[b].content_spec().len() by {
                assert(shares@[b].has_ns(ns_index as int));
            }
        }
        Self::ns_recover_inputs(ns_index, shares)
    }
}

/// When every namespace's dispersal produced a share for storage node `j`, that node's
/// assembled contents are exactly those shares, one per namespace, in namespace order:
/// assembling loses and reorders nothing.
pub proof fn lemma_node_contents_full<R>(disperses: Seq<Seq<AvidMShare<R>>>, j: int)
    requires
        0 <= j,
        forall|k: int| 0 <= k < disperses.len() ==> j < #[trigger] disperses[k].len(),
    ensures
        node_contents(disperses, j).len() == disperses.len(),
        forall|k: int|
            0 <= k < disperses.len() ==> #[trigger] node_contents(disperses, j)[k]
                == disperses[k][j].content,
    decreases disperses.len(),
{
    if disperses.len() > 0 {
        let d = disperses.drop_last();
        assert forall|k: int| 0 <= k < d.len() implies j < #[trigger] d[k].len() by {
            assert(d[k] == disperses[k]);
        }
        lemma_node_contents_full(d, j);
        assert(j < disperses[disperses.len() - 1].len());
        assert forall|k: int| 0 <= k < disperses.len() implies #[trigger] node_contents(
            disperses,
            j,
        )[k] == disperses[k][j].content by {
            if k < d.len() {
                assert(d[k] == disperses[k]);
            }
        }
    }
}

/// A proof that a namespace's payload is the one committed to: the namespace's index,
/// its payload, and the Merkle proof `P` of its commitment under the namespaced
/// commitment.
#[derive(Clone, Debug, PartialEq, Eq)]
pub struct NsProof<P> {
    /// The index of the namespace.
    pub ns_index: usize,
    /// The namespace payload.
    pub ns_payload: Vec<u8>,
    /// The merkle proof of the namespace payload against the namespaced VID commitment.
    pub ns_proof: P,
}

/// A namespace proof of the first AvidM version: correct encoding only.
#[derive(Clone, Debug, PartialEq, Eq)]
pub struct AvidMNsProof<P>(pub NsProof<P>);

/// A namespace proof that shows either the namespace's payload or that it was encoded
/// incorrectly (`B`, the proof of incorrect encoding).
#[derive(Clone, Debug, PartialEq, Eq)]
pub enum AvidMNsProofV1<P, B> {
    /// The namespace payload and its inclusion proof
    CorrectEncoding(NsProof<P>),
    /// A proof that the namespace was encoded incorrectly
    IncorrectEncoding(B),
}

/// A proof of incorrect encoding cannot stand for a correct-encoding proof.
#[derive(Clone, Copy, Debug, PartialEq, Eq, Structural)]
pub struct IncorrectEncodingProof;

impl<P, B> From<AvidMNsProof<P>> for AvidMNsProofV1<P, B> {
    fn from(value: AvidMNsProof<P>) -> (r: Self) {
        AvidMNsProofV1::CorrectEncoding(value.0)
    }
}

impl<P, B> vstd::std_specs::convert::FromSpecImpl<AvidMNsProof<P>> for AvidMNsProofV1<P, B> {
    open spec fn obeys_from_spec() -> bool {
        true
    }

    open spec fn from_spec(value: AvidMNsProof<P>) -> Self {
        AvidMNsProofV1::CorrectEncoding(value.0)
    }
}

impl<P, B> TryFrom<AvidMNsProofV1<P, B>> for AvidMNsProof<P> {
    type Error = IncorrectEncodingProof;

    /// Narrow a proof to the first version: possible only for a correct-encoding proof.
    fn try_from(value: AvidMNsProofV1<P, B>) -> (r: Result<Self, IncorrectEncodingProof>) {
        match value {
            AvidMNsProofV1::CorrectEncoding(p) => Ok(AvidMNsProof(p)),
            AvidMNsProofV1::IncorrectEncoding(_) => Err(IncorrectEncodingProof),
        }
    }
}

impl<P, B> vstd::std_specs::convert::TryFromSpecImpl<AvidMNsProofV1<P, B>> for AvidMNsProof<P> {
    open spec fn obeys_try_from_spec() -> bool {
        true
    }

    open spec fn try_from_spec(value: AvidMNsProofV1<P, B>) -> Result<Self, IncorrectEncodingProof> {
        match value {
            AvidMNsProofV1::CorrectEncoding(p) => Ok(AvidMNsProof(p)),
            AvidMNsProofV1::IncorrectEncoding(_) => Err(IncorrectEncodingProof),
        }
    }
}

/// Widening a first-version proof and narrowing it again gives it back.
pub proof fn lemma_widen_then_narrow<P, B>(value: AvidMNsProof<P>)
    ensures
        <AvidMNsProof<P> as vstd::std_specs::convert::TryFromSpec<AvidMNsProofV1<P, B>>>::try_from_spec(
            <AvidMNsProofV1<P, B> as vstd::std_specs::convert::FromSpec<AvidMNsProof<P>>>::from_spec(value),
        ) == Ok::<AvidMNsProof<P>, IncorrectEncodingProof>(value),
{
}

} // verus!
