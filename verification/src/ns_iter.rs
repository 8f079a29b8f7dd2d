use vstd::prelude::*;

verus! {

/// Position of a transaction in a block: its namespace's index in the namespace table
/// and its index within that namespace.
#[derive(Clone, Copy, Debug, PartialEq, Eq, Hash, Structural)]
pub struct Index {
    pub namespace: u32,
    pub position: u32,
}

/// The transaction positions of one namespace, in order.
pub open spec fn ns_row(ns: int, count: nat) -> Seq<(int, int)> {
    Seq::new(count, |t: int| (ns, t))
}

/// Every (namespace, transaction) position of a block whose namespaces hold
/// `counts[0]`, `counts[1]`, ... transactions, namespace by namespace.
pub open spec fn all_positions(counts: Seq<usize>) -> Seq<(int, int)>
    decreases counts.len(),
{
    if counts.len() == 0 {
        Seq::empty()
    } else {
        all_positions(counts.drop_last()) + ns_row(counts.len() - 1, counts.last() as nat)
    }
}

/// The index reported for a position.
pub open spec fn index_of(p: (int, int)) -> Index {
    Index { namespace: p.0 as u32, position: p.1 as u32 }
}

proof fn lemma_positions_step(c: Seq<usize>, m: int)
    requires
        0 <= m < c.len(),
    ensures
        all_positions(c.take(m + 1)) == all_positions(c.take(m)) + ns_row(m, c[m] as nat),
{
    assert(c.take(m + 1).drop_last() =~= c.take(m));
}

proof fn lemma_positions_prefix(c: Seq<usize>, m: int)
    requires
        0 <= m <= c.len(),
    ensures
        all_positions(c.take(m)).len() <= all_positions(c).len(),
        all_positions(c).subrange(0, all_positions(c.take(m)).len() as int) == all_positions(
            c.take(m),
        ),
    decreases c.len() - m,
{
    if m == c.len() {
        assert(c.take(m) =~= c);
        assert(all_positions(c).subrange(0, all_positions(c).len() as int) =~= all_positions(c));
    } else {
        lemma_positions_prefix(c, m + 1);
        lemma_positions_step(c, m);
        let a = all_positions(c.take(m));
        let b = all_positions(c.take(m + 1));
        assert(b.subrange(0, a.len() as int) =~= a);
        assert(all_positions(c).subrange(0, a.len() as int) =~= b.subrange(0, a.len() as int));
    }
}

/// Iterator over the positions of all transactions of a block, namespace by namespace,
/// skipping empty namespaces.
pub struct Iter {
    /// Number of transactions of each namespace
    tx_counts: Vec<usize>,
    /// The namespace being visited
    ns: usize,
    /// The next transaction of that namespace
    tx: usize,
}

impl Iter {
    /// Every position this iterator yields over its lifetime.
    pub closed spec fn positions(&self) -> Seq<(int, int)> {
        all_positions(self.tx_counts@)
    }

    /// How many positions have been yielded so far.
    pub closed spec fn consumed(&self) -> nat {
        if self.ns < self.tx_counts@.len() {
            (all_positions(self.tx_counts@.take(self.ns as int)).len() + self.tx) as nat
        } else {
            all_positions(self.tx_counts@).len()
        }
    }

    pub closed spec fn wf(&self) -> bool {
        &&& self.ns <= self.tx_counts@.len()
        &&& self.ns < self.tx_counts@.len() ==> self.tx <= self.tx_counts@[self.ns as int]
        &&& self.ns == self.tx_counts@.len() ==> self.tx == 0
    }

    /// Start iterating over a block whose namespaces hold `tx_counts[i]` transactions.
    pub fn new(tx_counts: Vec<usize>) -> (r: Self)
        ensures
            r.wf(),
            r.positions() == all_positions(tx_counts@),
            r.consumed() == 0,
    {
        let r = Iter { tx_counts, ns: 0, tx: 0 };
        proof {
            assert(r.tx_counts@.take(0) =~= Seq::<usize>::empty());
            if r.tx_counts@.len() == 0 {
                assert(all_positions(r.tx_counts@) =~= Seq::<(int, int)>::empty());
            }
        }
        r
    }

    /// The next position, if any is left.
    pub fn next(&mut self) -> (r: Option<Index>)
        requires
            old(self).wf(),
        ensures
            final(self).wf(),
            final(self).positions() == old(self).positions(),
            old(self).consumed() < old(self).positions().len() ==> r == Some(
                index_of(old(self).positions()[old(self).consumed() as int]),
            ) && final(self).consumed() == old(self).consumed() + 1,
            old(self).consumed() >= old(self).positions().len() ==> r is None
                && final(self).consumed() == old(self).consumed(),
    {
        let ghost c = self.tx_counts@;
        let ghost k = self.consumed();
        proof {
            if self.ns < c.len() {
                lemma_positions_prefix(c, self.ns as int);
                lemma_positions_prefix(c, self.ns + 1);
                lemma_positions_step(c, self.ns as int);
            }
        }
        while self.ns < self.tx_counts.len() && self.tx >= self.tx_counts[self.ns]
            invariant
                self.wf(),
                self.tx_counts@ == c,
                self.consumed() == k,
            decreases c.len() - self.ns,
        {
            proof {
                lemma_positions_step(c, self.ns as int);
                if self.ns + 1 == c.len() {
                    assert(c.take(c.len() as int) =~= c);
                }
            }
            self.ns = self.ns + 1;
            self.tx = 0;
        }
        if self.ns >= self.tx_counts.len() {
            return None;
        }
        proof {
            lemma_positions_prefix(c, self.ns as int);
            lemma_positions_prefix(c, self.ns + 1);
            lemma_positions_step(c, self.ns as int);
            let a = all_positions(c.take(self.ns as int));
            let b = all_positions(c.take(self.ns + 1));
            assert(b[a.len() + self.tx] == (self.ns as int, self.tx as int));
            assert(all_positions(c)[a.len() + self.tx] == b[a.len() + self.tx]);
            if self.tx + 1 == c[self.ns as int] && self.ns + 1 == c.len() {
                assert(c.take(c.len() as int) =~= c);
            }
        }
        let idx = Index { namespace: self.ns as u32, position: self.tx as u32 };
        self.tx = self.tx + 1;
        proof {
            if self.tx == c[self.ns as int] {
                lemma_positions_step(c, self.ns as int);
            }
        }
        Some(idx)
    }
}

} // verus!
