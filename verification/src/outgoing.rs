use crate::named_semaphore::{
    count_in, distinct_keys, key_in, lemma_absent_count, lemma_count_at, lemma_push, lemma_remove,
    lemma_update,
};
use crate::protocol::{RequestError, Serializable};
use vstd::prelude::*;

verus! {

broadcast use vstd::array::group_array_axioms;

/// The name of the BLAKE3 digest of a byte string.
pub uninterp spec fn blake3_digest(data: Seq<u8>) -> Seq<u8>;

/// `blake3::hash` of `data`, as its 32 bytes.
///
/// Trusted: the result is the BLAKE3 hash of exactly the bytes of `data`; its value is
/// only named, never stated.
#[verifier::external_body]
fn blake3_hash(data: &[u8]) -> (r: [u8; 32])
    ensures
        r@ == blake3_digest(data@),
{
    blake3::hash(data).into()
}

/// The hash that identifies a request whose bytes are `bytes`.
pub fn request_hash_of(bytes: &[u8]) -> (r: [u8; 32])
    ensures
        r@ == blake3_digest(bytes@),
{
    blake3_hash(bytes)
}

/// The hash that identifies `request`: [`request_hash_of`] the bytes that its
/// `to_bytes` returned. A request whose `to_bytes` fails is invalid, and the error says
/// why.
pub fn request_hash<R: Serializable>(request: &R) -> (r: Result<[u8; 32], RequestError>)
    ensures
        r matches Ok(h) ==> exists|b: Vec<u8>|
            #[trigger] call_ensures(R::to_bytes, (request,), Ok::<Vec<u8>, String>(b)) && h@
                == blake3_digest(b@),
        r matches Err(e) ==> exists|m: String|
            #[trigger] call_ensures(R::to_bytes, (request,), Err::<Vec<u8>, String>(m)) && (e matches RequestError::InvalidRequest(s) && s@
                == "failed to serialize request message: "@ + m@),
{
    let bytes = request.to_bytes();
    match bytes {
        Ok(b) => {
            let h = request_hash_of(b.as_slice());
            Ok(h)
        },
        Err(m) => {
            let mut s = String::from_str("failed to serialize request message: ");
            s.append(m.as_str());
            Err(RequestError::InvalidRequest(s))
        },
    }
}

/// Whether two hashes are the same.
fn same_hash(a: &[u8; 32], b: &[u8; 32]) -> (r: bool)
    ensures
        r == (*a == *b),
{
    let mut i: usize = 0;
    while i < 32
        invariant
            i <= 32,
            forall|k: int| 0 <= k < i ==> a[k] == b[k],
        decreases 32 - i,
    {
        if a[i] != b[i] {
            return false;
        }
        i = i + 1;
    }
    proof {
        assert(*a =~= *b);
    }
    true
}

/// The requests this node is waiting on, by hash, each with the number of live handles
/// to it. A request another caller makes again is joined rather than sent anew; it is
/// forgotten when its last handle goes.
pub struct OutgoingRequests {
    /// Each pending request's hash and its number of handles
    entries: Vec<([u8; 32], usize)>,
}

impl OutgoingRequests {
    /// Live handles to the request with hash `hash`.
    pub closed spec fn handles(&self, hash: [u8; 32]) -> nat {
        count_in(self.entries@, hash)
    }

    /// Number of requests waited on.
    pub closed spec fn num_pending(&self) -> nat {
        self.entries@.len()
    }

    /// Each request is listed once, with at least one handle.
    pub closed spec fn wf(&self) -> bool {
        &&& distinct_keys(self.entries@)
        &&& forall|i: int| 0 <= i < self.entries@.len() ==> #[trigger] self.entries@[i].1 > 0
    }

    proof fn lemma_listed_iff_handles(&self, hash: [u8; 32])
        requires
            self.wf(),
        ensures
            key_in(self.entries@, hash) <==> self.handles(hash) > 0,
    {
        if key_in(self.entries@, hash) {
            let i = choose|i: int| 0 <= i < self.entries@.len() && #[trigger] self.entries@[i].0 == hash;
            lemma_count_at(self.entries@, i);
        } else {
            lemma_absent_count(self.entries@, hash);
        }
    }

    /// Nothing is waited on.
    pub fn new() -> (r: Self)
        ensures
            r.wf(),
            r.num_pending() == 0,
            forall|h: [u8; 32]| r.handles(h) == 0,
    {
        OutgoingRequests { entries: Vec::new() }
    }

    /// Where the request with hash `hash` is listed, if it is.
    fn position(&self, hash: &[u8; 32]) -> (r: Option<usize>)
        ensures
            match r {
                Some(i) => i < self.entries@.len() && self.entries@[i as int].0 == *hash,
                None => !key_in(self.entries@, *hash),
            },
    {
        let mut i: usize = 0;
        while i < self.entries.len()
            invariant
                i <= self.entries@.len(),
                forall|j: int| 0 <= j < i ==> #[trigger] self.entries@[j].0 != *hash,
            decreases self.entries@.len() - i,
        {
            if same_hash(&self.entries[i].0, hash) {
                return Some(i);
            }
            i = i + 1;
        }
        None
    }

    /// Whether a response with this request hash answers a request waited on.
    pub fn is_pending(&self, hash: &[u8; 32]) -> (r: bool)
        requires
            self.wf(),
        ensures
            r == (self.handles(*hash) > 0),
    {
        proof {
            self.lemma_listed_iff_handles(*hash);
        }
        self.position(hash).is_some()
    }

    /// How many requests are waited on; none exactly when no request has a handle.
    pub fn len(&self) -> (r: usize)
        requires
            self.wf(),
        ensures
            r == self.num_pending(),
            r == 0 <==> forall|h: [u8; 32]| self.handles(h) == 0,
    {
        proof {
            if self.entries@.len() > 0 {
                let h = self.entries@[0].0;
                assert(key_in(self.entries@, h));
                self.lemma_listed_iff_handles(h);
            } else {
                assert forall|h: [u8; 32]| self.handles(h) == 0 by {}
            }
        }
        self.entries.len()
    }

    /// Take a handle to the request with hash `hash`: joined when it is already waited
    /// on (the result is `true`), otherwise listed with this first handle.
    pub fn join_or_create(&mut self, hash: [u8; 32]) -> (joined: bool)
        requires
            old(self).wf(),
            old(self).handles(hash) < usize::MAX,
        ensures
            final(self).wf(),
            joined == (old(self).handles(hash) > 0),
            final(self).handles(hash) == old(self).handles(hash) + 1,
            forall|h: [u8; 32]| h != hash ==> final(self).handles(h) == old(self).handles(h),
            final(self).num_pending() == old(self).num_pending() + if joined {
                0int
            } else {
                1int
            },
    {
        proof {
            self.lemma_listed_iff_handles(hash);
        }
        match self.position(&hash) {
            Some(i) => {
                let c = self.entries[i].1;
                proof {
                    lemma_count_at(self.entries@, i as int);
                    lemma_update(self.entries@, i as int, (c + 1) as usize);
                }
                self.entries.set(i, (hash, c + 1));
                proof {
                    assert forall|j: int| 0 <= j < self.entries@.len() implies #[trigger] self.entries@[j].1
                        > 0 by {
                        if j != i {
                            assert(self.entries@[j] == old(self).entries@[j]);
                        }
                    }
                }
                true
            },
            None => {
                proof {
                    lemma_push(self.entries@, (hash, 1usize));
                    let s = self.entries@;
                    let t = s.push((hash, 1usize));
                    assert forall|a: int, b: int| 0 <= a < b < t.len() implies #[trigger] t[a].0
                        != #[trigger] t[b].0 by {
                        if b == s.len() {
                            assert(t[a] == s[a]);
                        } else {
                            assert(t[a] == s[a] && t[b] == s[b]);
                        }
                    }
                }
                self.entries.push((hash, 1usize));
                proof {
                    assert forall|j: int| 0 <= j < self.entries@.len() implies #[trigger] self.entries@[j].1
                        > 0 by {
                        if j < old(self).entries@.len() {
                            assert(self.entries@[j] == old(self).entries@[j]);
                        }
                    }
                }
                false
            },
        }
    }

    /// Give back a handle to the request with hash `hash`; with its last handle the
    /// request is no longer waited on.
    pub fn drop_handle(&mut self, hash: [u8; 32])
        requires
            old(self).wf(),
            old(self).handles(hash) > 0,
        ensures
            final(self).wf(),
            final(self).handles(hash) == old(self).handles(hash) - 1,
            forall|h: [u8; 32]| h != hash ==> final(self).handles(h) == old(self).handles(h),
            final(self).num_pending() == old(self).num_pending() - if old(self).handles(hash) == 1 {
                1int
            } else {
                0int
            },
    {
        proof {
            self.lemma_listed_iff_handles(hash);
        }
        let i = match self.position(&hash) {
            Some(i) => i,
            None => {
                return;
            },
        };
        let c = self.entries[i].1;
        proof {
            lemma_count_at(self.entries@, i as int);
        }
        if c == 1 {
            proof {
                lemma_remove(self.entries@, i as int);
            }
            self.entries.remove(i);
            proof {
                assert forall|j: int| 0 <= j < self.entries@.len() implies #[trigger] self.entries@[j].1
                    > 0 by {
                    let j2 = if j < i { j } else { j + 1 };
                    assert(self.entries@[j] == old(self).entries@[j2]);
                }
            }
        } else {
            proof {
                lemma_update(self.entries@, i as int, (c - 1) as usize);
            }
            self.entries.set(i, (hash, c - 1));
            proof {
                assert forall|j: int| 0 <= j < self.entries@.len() implies #[trigger] self.entries@[j].1
                    > 0 by {
                    if j != i {
                        assert(self.entries@[j] == old(self).entries@[j]);
                    }
                }
            }
        }
    }
}

/// Dropping the handle that a join took leaves the requests waited on as they were: every
/// request keeps its number of handles, and a request that the join listed is forgotten
/// again.
pub proof fn lemma_drop_undoes_join(
    before: OutgoingRequests,
    joined: OutgoingRequests,
    dropped: OutgoingRequests,
    hash: [u8; 32],
)
    requires
        before.wf(),
        joined.handles(hash) == before.handles(hash) + 1,
        forall|h: [u8; 32]| h != hash ==> joined.handles(h) == before.handles(h),
        joined.num_pending() == before.num_pending() + if before.handles(hash) > 0 {
            0int
        } else {
            1int
        },
        dropped.handles(hash) == joined.handles(hash) - 1,
        forall|h: [u8; 32]| h != hash ==> dropped.handles(h) == joined.handles(h),
        dropped.num_pending() == joined.num_pending() - if joined.handles(hash) == 1 {
            1int
        } else {
            0int
        },
    ensures
        forall|h: [u8; 32]| dropped.handles(h) == before.handles(h),
        dropped.num_pending() == before.num_pending(),
{
}

} // verus!
