use vstd::prelude::*;

verus! {

/// The reasons a permit can be refused.
#[derive(Debug, Clone, Copy, PartialEq, Eq, Structural)]
pub enum NamedSemaphoreError {
    /// The global permit limit has been reached
    GlobalLimitReached,
    /// The per-key permit limit has been reached
    PerKeyLimitReached,
}

/// Number of permits that the entries of `s` record for `k`.
pub open spec fn count_in<K>(s: Seq<(K, usize)>, k: K) -> nat
    decreases s.len(),
{
    if s.len() == 0 {
        0
    } else if s.last().0 == k {
        s.last().1 as nat
    } else {
        count_in(s.drop_last(), k)
    }
}

/// Whether some entry of `s` is for key `k`.
pub open spec fn key_in<K>(s: Seq<(K, usize)>, k: K) -> bool {
    exists|i: int| 0 <= i < s.len() && #[trigger] s[i].0 == k
}

/// Sum of the permit counts over all entries of `s`.
pub open spec fn sum_in<K>(s: Seq<(K, usize)>) -> nat
    decreases s.len(),
{
    if s.len() == 0 {
        0
    } else {
        sum_in(s.drop_last()) + s.last().1 as nat
    }
}

/// No key has two entries.
pub open spec fn distinct_keys<K>(s: Seq<(K, usize)>) -> bool {
    forall|i: int, j: int| 0 <= i < j < s.len() ==> #[trigger] s[i].0 != #[trigger] s[j].0
}

pub(crate) proof fn lemma_absent_count<K>(s: Seq<(K, usize)>, k: K)
    requires
        !key_in(s, k),
    ensures
        count_in(s, k) == 0,
    decreases s.len(),
{
    if s.len() > 0 {
        assert(s.last().0 == s[s.len() - 1].0);
        assert forall|i: int| 0 <= i < s.drop_last().len() implies #[trigger] s.drop_last()[i].0
            != k by {
            assert(s.drop_last()[i] == s[i]);
        }
        lemma_absent_count(s.drop_last(), k);
    }
}

pub(crate) proof fn lemma_count_at<K>(s: Seq<(K, usize)>, i: int)
    requires
        distinct_keys(s),
        0 <= i < s.len(),
    ensures
        count_in(s, s[i].0) == s[i].1,
    decreases s.len(),
{
    if i < s.len() - 1 {
        assert(s[i].0 != s[s.len() - 1].0);
        assert(s.drop_last()[i] == s[i]);
        lemma_count_at(s.drop_last(), i);
    }
}

pub(crate) proof fn lemma_push<K>(s: Seq<(K, usize)>, e: (K, usize))
    ensures
        forall|k: K| count_in(s.push(e), k) == if k == e.0 { e.1 as nat } else { count_in(s, k) },
        sum_in(s.push(e)) == sum_in(s) + e.1,
{
    assert(s.push(e).drop_last() =~= s);
}

pub(crate) proof fn lemma_update<K>(s: Seq<(K, usize)>, i: int, c: usize)
    requires
        distinct_keys(s),
        0 <= i < s.len(),
    ensures
        forall|k: K|
            count_in(s.update(i, (s[i].0, c)), k) == if k == s[i].0 {
                c as nat
            } else {
                count_in(s, k)
            },
        sum_in(s.update(i, (s[i].0, c))) == sum_in(s) - s[i].1 + c,
        distinct_keys(s.update(i, (s[i].0, c))),
    decreases s.len(),
{
    let t = s.update(i, (s[i].0, c));
    let n = s.len();
    if i == n - 1 {
        assert(t.drop_last() =~= s.drop_last());
        assert forall|k: K| count_in(t, k) == if k == s[i].0 {
            c as nat
        } else {
            count_in(s, k)
        } by {}
    } else {
        assert(t.drop_last() =~= s.drop_last().update(i, (s[i].0, c)));
        assert(s.drop_last()[i] == s[i]);
        assert(distinct_keys(s.drop_last())) by {
            assert forall|a: int, b: int| 0 <= a < b < s.drop_last().len() implies #[trigger] s.drop_last()[a].0
                != #[trigger] s.drop_last()[b].0 by {
                assert(s.drop_last()[a] == s[a]);
                assert(s.drop_last()[b] == s[b]);
            }
        }
        lemma_update(s.drop_last(), i, c);
        assert(s[i].0 != s[n - 1].0);
        assert(t.last() == s.last());
        assert forall|k: K| count_in(t, k) == if k == s[i].0 {
            c as nat
        } else {
            count_in(s, k)
        } by {
            if t.last().0 == k {
                assert(count_in(t, k) == s.last().1);
            } else {
                assert(count_in(t, k) == count_in(t.drop_last(), k));
            }
        }
    }
    assert forall|a: int, b: int| 0 <= a < b < t.len() implies #[trigger] t[a].0
        != #[trigger] t[b].0 by {
        assert(s[a].0 != s[b].0);
    }
}

pub(crate) proof fn lemma_remove<K>(s: Seq<(K, usize)>, i: int)
    requires
        distinct_keys(s),
        0 <= i < s.len(),
    ensures
        forall|k: K|
            count_in(s.remove(i), k) == if k == s[i].0 {
                0nat
            } else {
                count_in(s, k)
            },
        sum_in(s.remove(i)) == sum_in(s) - s[i].1,
        distinct_keys(s.remove(i)),
        forall|k: K| key_in(s.remove(i), k) <==> key_in(s, k) && k != s[i].0,
    decreases s.len(),
{
    let t = s.remove(i);
    let n = s.len();
    assert forall|a: int, b: int| 0 <= a < b < t.len() implies #[trigger] t[a].0
        != #[trigger] t[b].0 by {
        let a2 = if a < i { a } else { a + 1 };
        let b2 = if b < i { b } else { b + 1 };
        assert(t[a] == s[a2]);
        assert(t[b] == s[b2]);
    }
    assert forall|k: K| key_in(t, k) <==> key_in(s, k) && k != s[i].0 by {
        if key_in(t, k) {
            let a = choose|a: int| 0 <= a < t.len() && #[trigger] t[a].0 == k;
            let a2 = if a < i { a } else { a + 1 };
            assert(t[a] == s[a2]);
            assert(s[a2].0 == k);
            assert(a2 != i);
        }
        if key_in(s, k) && k != s[i].0 {
            let a = choose|a: int| 0 <= a < s.len() && #[trigger] s[a].0 == k;
            assert(a != i);
            let a2 = if a < i { a } else { a - 1 };
            assert(t[a2] == s[a]);
            assert(t[a2].0 == k);
        }
    }
    let ds = s.drop_last();
    assert(distinct_keys(ds)) by {
        assert forall|a: int, b: int| 0 <= a < b < ds.len() implies #[trigger] ds[a].0
            != #[trigger] ds[b].0 by {
            assert(ds[a] == s[a]);
            assert(ds[b] == s[b]);
        }
    }
    if i == n - 1 {
        assert(t =~= ds);
        assert(!key_in(ds, s[i].0)) by {
            assert forall|a: int| 0 <= a < ds.len() implies #[trigger] ds[a].0 != s[i].0 by {
                assert(ds[a] == s[a]);
            }
        }
        lemma_absent_count(ds, s[i].0);
    } else {
        assert(t.drop_last() =~= ds.remove(i));
        assert(ds[i] == s[i]);
        lemma_remove(ds, i);
        assert(t.last() == s.last());
        assert(s[i].0 != s[n - 1].0);
        assert forall|k: K| count_in(t, k) == if k == s[i].0 {
            0nat
        } else {
            count_in(s, k)
        } by {
            if t.last().0 == k {
                assert(count_in(t, k) == s.last().1);
            } else {
                assert(count_in(t, k) == count_in(t.drop_last(), k));
            }
        }
    }
}

/// A set of counting semaphores, one per key, with a cap on the permits held for a
/// single key and an optional cap on the permits held over all keys.
///
/// A permit is handed back with [`NamedSemaphore::release`]; a key is forgotten once
/// its last permit is released.
pub struct NamedSemaphore<K> {
    /// The tracked keys, each with the number of permits held for it
    inner: Vec<(K, usize)>,
    /// The maximum number of permits for each key
    max_permits_per_key: usize,
    /// The maximum number of permits that can be held across all keys
    max_total_permits: Option<usize>,
    /// The total number of permits that are currently being held
    total_num_permits_held: usize,
}

/// A permit for one key of a [`NamedSemaphore`].
pub struct NamedSemaphorePermit<K> {
    /// The key that we are holding a permit for
    key: K,
}

impl<K> NamedSemaphorePermit<K> {
    /// The key this permit was granted for.
    pub closed spec fn key_of(&self) -> K {
        self.key
    }

    /// The key this permit was granted for.
    pub fn key(&self) -> (r: K)
        where K: Copy,
        ensures
            r == self.key_of(),
    {
        self.key
    }
}

impl<K> NamedSemaphore<K> {
    /// Number of permits currently held for `k`.
    pub closed spec fn held(&self, k: K) -> nat {
        count_in(self.inner@, k)
    }

    /// Whether the semaphore currently keeps an entry for `k`.
    pub closed spec fn tracks(&self, k: K) -> bool {
        key_in(self.inner@, k)
    }

    /// Number of permits held over all keys.
    pub closed spec fn total_held(&self) -> nat {
        self.total_num_permits_held as nat
    }

    /// The cap on permits for a single key.
    pub closed spec fn per_key_limit(&self) -> nat {
        self.max_permits_per_key as nat
    }

    /// The cap on permits over all keys, if any.
    pub closed spec fn total_limit(&self) -> Option<usize> {
        self.max_total_permits
    }

    /// Whether a permit for `k` would be granted now: fewer permits are held than the
    /// overall cap, if there is one, and fewer for `k` than the per-key cap.
    pub open spec fn admits(&self, k: K) -> bool {
        &&& match self.total_limit() {
            Some(m) => self.total_held() < m,
            None => true,
        }
        &&& self.held(k) < self.per_key_limit()
    }

    /// The semaphore's invariant: the total is the sum of the per-key counts, and no
    /// count exceeds its cap.
    pub closed spec fn wf(&self) -> bool {
        &&& distinct_keys(self.inner@)
        &&& self.total_num_permits_held == sum_in(self.inner@)
        &&& forall|i: int|
            0 <= i < self.inner@.len() ==> #[trigger] self.inner@[i].1 <= self.max_permits_per_key
        &&& match self.max_total_permits {
            Some(m) => self.total_num_permits_held <= m,
            None => true,
        }
    }

    /// Create a new named semaphore, specifying the maximum number of permits for each key.
    pub fn new(max_permits_per_key: usize, max_total_permits: Option<usize>) -> (r: Self)
        ensures
            r.wf(),
            r.per_key_limit() == max_permits_per_key,
            r.total_limit() == max_total_permits,
            r.total_held() == 0,
            forall|k: K| r.held(k) == 0 && !r.tracks(k),
    {
        let r = Self {
            inner: Vec::new(),
            max_permits_per_key,
            max_total_permits,
            total_num_permits_held: 0,
        };
        proof {
            assert forall|k: K| r.held(k) == 0 && !r.tracks(k) by {}
        }
        r
    }

    /// Whether no key is tracked.
    pub fn is_empty(&self) -> (r: bool)
        ensures
            r <==> forall|k: K| !self.tracks(k),
    {
        proof {
            if self.inner@.len() > 0 {
                assert(key_in(self.inner@, self.inner@[0].0));
                assert(self.tracks(self.inner@[0].0));
            }
        }
        self.inner.len() == 0
    }

    /// Get the total number of permits that are currently being held across all keys
    pub fn total_num_permits_held(&self) -> (r: usize)
        ensures
            r == self.total_held(),
    {
        self.total_num_permits_held
    }

    /// Find the entry for `key`, if there is one.
    fn position(&self, key: &K) -> (r: Option<usize>)
        where K: PartialEq,
        requires
            vstd::laws_eq::obeys_concrete_eq::<K>(),
        ensures
            match r {
                Some(i) => i < self.inner@.len() && self.inner@[i as int].0 == *key,
                None => !key_in(self.inner@, *key),
            },
    {
        proof {
            reveal(vstd::laws_eq::obeys_concrete_eq);
        }
        let mut i: usize = 0;
        while i < self.inner.len()
            invariant
                vstd::laws_eq::obeys_concrete_eq::<K>(),
                i <= self.inner@.len(),
                forall|j: int| 0 <= j < i ==> #[trigger] self.inner@[j].0 != *key,
            decreases self.inner@.len() - i,
        {
            let found = self.inner[i].0 == *key;
            proof {
                reveal(vstd::laws_eq::obeys_concrete_eq);
                assert(found <==> self.inner@[i as int].0 == *key);
            }
            if found {
                return Some(i);
            }
            i = i + 1;
        }
        None
    }

    /// Try to acquire a permit for the given key.
    ///
    /// The key is tracked afterwards whatever the outcome. The global cap is checked
    /// before the per-key cap.
    pub fn try_acquire(&mut self, key: K) -> (r: Result<NamedSemaphorePermit<K>, NamedSemaphoreError>)
        where K: PartialEq + Copy,
        requires
            old(self).wf(),
            old(self).total_held() < usize::MAX,
            vstd::laws_eq::obeys_concrete_eq::<K>(),
        ensures
            final(self).wf(),
            final(self).per_key_limit() == old(self).per_key_limit(),
            final(self).total_limit() == old(self).total_limit(),
            final(self).tracks(key),
            forall|k: K| k != key ==> (final(self).tracks(k) <==> old(self).tracks(k)),
            (r == Err::<NamedSemaphorePermit<K>, NamedSemaphoreError>(NamedSemaphoreError::GlobalLimitReached)) <==> match old(self).total_limit() {
                Some(m) => old(self).total_held() >= m,
                None => false,
            },
            (match old(self).total_limit() {
                Some(m) => old(self).total_held() < m,
                None => true,
            }) ==> (old(self).held(key) >= old(self).per_key_limit() <==> r == Err::<NamedSemaphorePermit<K>, NamedSemaphoreError>(NamedSemaphoreError::PerKeyLimitReached)),
            r is Ok <==> old(self).admits(key),
            r is Err ==> final(self).total_held() == old(self).total_held()
                && forall|k: K| final(self).held(k) == old(self).held(k),
            r matches Ok(p) ==> {
                &&& p.key_of() == key
                &&& final(self).total_held() == old(self).total_held() + 1
                &&& final(self).held(key) == old(self).held(key) + 1
                &&& forall|k: K| k != key ==> final(self).held(k) == old(self).held(k)
            },
    {
        let pos = self.position(&key);
        let idx = match pos {
            Some(i) => i,
            None => {
                proof {
                    lemma_absent_count(self.inner@, key);
                    lemma_push(self.inner@, (key, 0usize));
                    let s = self.inner@;
                    let t = s.push((key, 0usize));
                    assert forall|a: int, b: int| 0 <= a < b < t.len() implies #[trigger] t[a].0
                        != #[trigger] t[b].0 by {
                        if b == s.len() {
                            assert(t[a] == s[a]);
                        } else {
                            assert(t[a] == s[a] && t[b] == s[b]);
                        }
                    }
                    assert forall|k: K| k != key implies (key_in(t, k) <==> key_in(s, k)) by {
                        if key_in(t, k) {
                            let a = choose|a: int| 0 <= a < t.len() && #[trigger] t[a].0 == k;
                            assert(a != s.len());
                            assert(t[a] == s[a]);
                        }
                        if key_in(s, k) {
                            let a = choose|a: int| 0 <= a < s.len() && #[trigger] s[a].0 == k;
                            assert(t[a] == s[a]);
                        }
                    }
                }
                self.inner.push((key, 0usize));
                proof {
                    assert(self.inner@[self.inner@.len() - 1].0 == key);
                }
                self.inner.len() - 1
            },
        };
        proof {
            assert(self.inner@[idx as int].0 == key);
            assert(key_in(self.inner@, key));
            lemma_count_at(self.inner@, idx as int);
        }
        if let Some(max_total_permits) = self.max_total_permits {
            if self.total_num_permits_held >= max_total_permits {
                return Err(NamedSemaphoreError::GlobalLimitReached);
            }
        }
        let count = self.inner[idx].1;
        if count >= self.max_permits_per_key {
            return Err(NamedSemaphoreError::PerKeyLimitReached);
        }
        proof {
            lemma_update(self.inner@, idx as int, (count + 1) as usize);
            let t = self.inner@.update(idx as int, (key, (count + 1) as usize));
            assert forall|k: K| k != key implies (key_in(t, k) <==> key_in(self.inner@, k)) by {
                if key_in(t, k) {
                    let a = choose|a: int| 0 <= a < t.len() && #[trigger] t[a].0 == k;
                    assert(a != idx);
                    assert(t[a] == self.inner@[a]);
                }
                if key_in(self.inner@, k) {
                    let a = choose|a: int| 0 <= a < self.inner@.len() && #[trigger] self.inner@[a].0 == k;
                    assert(a != idx);
                    assert(t[a] == self.inner@[a]);
                }
            }
            assert(t[idx as int].0 == key);
        }
        self.inner.set(idx, (key, count + 1));
        self.total_num_permits_held = self.total_num_permits_held + 1;
        proof {
            assert forall|i: int| 0 <= i < self.inner@.len() implies #[trigger] self.inner@[i].1
                <= self.max_permits_per_key by {
                if i != idx {
                    assert(self.inner@[i] == old(self).inner@[i] || true);
                }
            }
        }
        Ok(NamedSemaphorePermit { key })
    }

    /// Hand back a permit: the key's count drops by one, and the key is forgotten when
    /// that was its last permit.
    pub fn release(&mut self, permit: NamedSemaphorePermit<K>)
        where K: PartialEq + Copy,
        requires
            old(self).wf(),
            old(self).held(permit.key_of()) > 0,
            vstd::laws_eq::obeys_concrete_eq::<K>(),
        ensures
            final(self).wf(),
            final(self).per_key_limit() == old(self).per_key_limit(),
            final(self).total_limit() == old(self).total_limit(),
            final(self).total_held() == old(self).total_held() - 1,
            final(self).held(permit.key_of()) == old(self).held(permit.key_of()) - 1,
            forall|k: K| k != permit.key_of() ==> final(self).held(k) == old(self).held(k),
            final(self).tracks(permit.key_of()) <==> final(self).held(permit.key_of()) > 0,
            forall|k: K| k != permit.key_of() ==> (final(self).tracks(k) <==> old(self).tracks(k)),
    {
        let key = permit.key;
        let pos = self.position(&key);
        let idx = match pos {
            Some(i) => i,
            None => {
                proof {
                    lemma_absent_count(self.inner@, key);
                }
                return;
            },
        };
        proof {
            lemma_count_at(self.inner@, idx as int);
        }
        let count = self.inner[idx].1;
        if count == 1 {
            proof {
                lemma_remove(self.inner@, idx as int);
            }
            self.inner.remove(idx);
        } else {
            proof {
                lemma_update(self.inner@, idx as int, (count - 1) as usize);
                let t = self.inner@.update(idx as int, (key, (count - 1) as usize));
                assert(t[idx as int].0 == key);
                assert(key_in(t, key));
                assert forall|k: K| k != key implies (key_in(t, k) <==> key_in(self.inner@, k)) by {
                    if key_in(t, k) {
                        let a = choose|a: int| 0 <= a < t.len() && #[trigger] t[a].0 == k;
                        assert(t[a] == self.inner@[a]);
                    }
                    if key_in(self.inner@, k) {
                        let a = choose|a: int| 0 <= a < self.inner@.len() && #[trigger] self.inner@[a].0 == k;
                        assert(t[a] == self.inner@[a]);
                    }
                }
            }
            self.inner.set(idx, (key, count - 1));
        }
        self.total_num_permits_held = self.total_num_permits_held - 1;
        proof {
            if count == 1 {
                assert forall|i: int| 0 <= i < self.inner@.len() implies #[trigger] self.inner@[i].1
                    <= self.max_permits_per_key by {
                    let i2 = if i < idx { i } else { i + 1 };
                    assert(self.inner@[i] == old(self).inner@[i2]);
                }
            }
        }
    }
}

/// In a well-formed semaphore no key holds more permits than the per-key cap, and the
/// total never exceeds the global cap when there is one.
pub proof fn lemma_within_limits<K>(s: NamedSemaphore<K>, k: K)
    requires
        s.wf(),
    ensures
        s.held(k) <= s.per_key_limit(),
        match s.total_limit() {
            Some(m) => s.total_held() <= m,
            None => true,
        },
{
    lemma_count_bounded(s.inner@, k, s.max_permits_per_key);
}

/// Releasing the permit that an acquire granted undoes the acquire: every key's count
/// and the total are back to what they were, so the same acquire would succeed again.
pub proof fn lemma_release_undoes_acquire<K>(
    before: NamedSemaphore<K>,
    acquired: NamedSemaphore<K>,
    released: NamedSemaphore<K>,
    key: K,
)
    requires
        before.wf(),
        acquired.total_held() == before.total_held() + 1,
        acquired.held(key) == before.held(key) + 1,
        forall|k: K| k != key ==> acquired.held(k) == before.held(k),
        released.total_held() == acquired.total_held() - 1,
        released.held(key) == acquired.held(key) - 1,
        forall|k: K| k != key ==> released.held(k) == acquired.held(k),
    ensures
        released.total_held() == before.total_held(),
        forall|k: K| released.held(k) == before.held(k),
{
}

proof fn lemma_count_bounded<K>(s: Seq<(K, usize)>, k: K, m: usize)
    requires
        forall|i: int| 0 <= i < s.len() ==> #[trigger] s[i].1 <= m,
    ensures
        count_in(s, k) <= m,
    decreases s.len(),
{
    if s.len() > 0 {
        assert(s[s.len() - 1].1 <= m);
        assert forall|i: int| 0 <= i < s.drop_last().len() implies #[trigger] s.drop_last()[i].1 <= m by {
            assert(s.drop_last()[i] == s[i]);
        }
        lemma_count_bounded(s.drop_last(), k, m);
    }
}

} // verus!
