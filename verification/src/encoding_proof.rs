use crate::vid_ns::VidError;
use std::collections::HashSet;
use std::ops::Range;
use vstd::prelude::*;

verus! {

broadcast use vstd::std_specs::hash::group_hash_axioms;

/// The Merkle proofs that one share carries for its raw shares: the raw share at
/// evaluation index `range.start + j` is proven by `mt_proofs[j]`.
#[derive(Debug)]
pub struct RawShareProofs<M> {
    pub range: Range<usize>,
    pub mt_proofs: Vec<M>,
}

/// Number of indices in a range (none when it is empty or reversed).
pub open spec fn range_len(r: Range<usize>) -> nat {
    if r.end > r.start {
        (r.end - r.start) as nat
    } else {
        0
    }
}

/// The (index, proof) pairs of one share: its range zipped with its proofs, as long as
/// the shorter of the two.
pub open spec fn share_candidates<M>(s: RawShareProofs<M>) -> Seq<(usize, M)> {
    let n = if range_len(s.range) < s.mt_proofs@.len() {
        range_len(s.range)
    } else {
        s.mt_proofs@.len()
    };
    Seq::new(n, |j: int| ((s.range.start + j) as usize, s.mt_proofs@[j]))
}

/// The (index, proof) pairs of all shares, share after share.
pub open spec fn candidates<M>(shares: Seq<RawShareProofs<M>>) -> Seq<(usize, M)>
    decreases shares.len(),
{
    if shares.len() == 0 {
        Seq::empty()
    } else {
        share_candidates(shares[0]) + candidates(shares.drop_first())
    }
}

/// The `k`-th pair cannot go into a proof: its index is beyond the total weight, or an
/// earlier pair has the same index.
pub open spec fn bad_at<M>(c: Seq<(usize, M)>, total_weights: usize, k: int) -> bool {
    c[k].0 > total_weights || exists|j: int| 0 <= j < k && #[trigger] c[j].0 == c[k].0
}

/// How many pairs are examined: collecting stops once `threshold` pairs are taken
/// (with a zero threshold it never stops).
pub open spec fn examined(len: nat, threshold: nat) -> nat {
    if threshold == 0 || len < threshold {
        len
    } else {
        threshold
    }
}

/// The raw shares of a proof of incorrect encoding: the first `threshold` pairs, if
/// none of the examined pairs is bad and there are enough.
pub open spec fn raw_shares_spec<M>(c: Seq<(usize, M)>, total_weights: usize, threshold: usize) -> Result<
    Seq<(usize, M)>,
    VidError,
> {
    let n = examined(c.len(), threshold as nat);
    if exists|k: int| 0 <= k < n && #[trigger] bad_at(c, total_weights, k) {
        Err(VidError::InvalidShare)
    } else if n == threshold {
        Ok(c.take(threshold as int))
    } else {
        Err(VidError::InsufficientShares)
    }
}

/// Collect, from the (valid) shares in order, the indexed Merkle proofs that a proof of
/// incorrect encoding carries: exactly `recovery_threshold` of them, with distinct
/// indices at most `total_weights`.
///
/// Fails with `InvalidShare` when a pair examined before enough are taken has an index
/// beyond `total_weights` or repeats an index, and with `InsufficientShares` when the
/// shares hold too few pairs.
pub fn collect_raw_shares<M>(
    shares: Vec<RawShareProofs<M>>,
    total_weights: usize,
    recovery_threshold: usize,
) -> (r: Result<Vec<(usize, M)>, VidError>)
    ensures
        match raw_shares_spec(candidates(shares@), total_weights, recovery_threshold) {
            Ok(s) => r matches Ok(v) && v@ == s,
            Err(e) => r == Err::<Vec<(usize, M)>, VidError>(e),
        },
{
    let ghost all = candidates(shares@);
    let mut rest = shares;
    let mut raw: Vec<(usize, M)> = Vec::new();
    let mut visited: HashSet<usize> = HashSet::new();
    while rest.len() > 0
        invariant
            all == candidates(shares@),
            raw@ + candidates(rest@) == all,
            forall|x: usize| #[trigger]
                visited@.contains(x) <==> exists|j: int| 0 <= j < raw@.len() && raw@[j].0 == x,
            forall|k: int| 0 <= k < raw@.len() ==> !#[trigger] bad_at(all, total_weights, k),
            raw@.len() > 0 ==> raw@.len() != recovery_threshold,
            recovery_threshold > 0 ==> raw@.len() < recovery_threshold,
        decreases rest@.len(),
    {
        let ghost before = rest@;
        let share = rest.remove(0);
        proof {
            assert(rest@ =~= before.drop_first());
        }
        let ghost share_g = share;
        let ghost cur = share_candidates(share);
        let RawShareProofs { range, mt_proofs } = share;
        let ghost proofs0 = mt_proofs@;
        let mut proofs = mt_proofs;
        let n: usize = if range.end > range.start {
            let span = range.end - range.start;
            if span < proofs.len() {
                span
            } else {
                proofs.len()
            }
        } else {
            0
        };
        proof {
            assert(candidates(before) == share_candidates(before[0]) + candidates(
                before.drop_first(),
            ));
            assert(cur.subrange(0, n as int) =~= cur);
            assert(raw@ + cur.subrange(0, n as int) + candidates(rest@) =~= raw@ + (cur
                + candidates(rest@)));
        }
        let mut j: usize = 0;
        while j < n
            invariant
                all == candidates(shares@),
                j <= n,
                n == cur.len(),
                range.start + n <= usize::MAX,
                cur == share_candidates(share_g),
                share_g.range == range,
                share_g.mt_proofs@ == proofs0,
                proofs@ == proofs0.subrange(j as int, proofs0.len() as int),
                raw@ + cur.subrange(j as int, n as int) + candidates(rest@) == all,
                forall|x: usize| #[trigger]
                    visited@.contains(x) <==> exists|i: int| 0 <= i < raw@.len() && raw@[i].0 == x,
                forall|k: int| 0 <= k < raw@.len() ==> !#[trigger] bad_at(all, total_weights, k),
                raw@.len() > 0 ==> raw@.len() != recovery_threshold,
                recovery_threshold > 0 ==> raw@.len() < recovery_threshold,
            decreases n - j,
        {
            let index = range.start + j;
            let ghost pos = raw@.len() as int;
            proof {
                assert(all[pos] == cur[j as int]) by {
                    assert((raw@ + cur.subrange(j as int, n as int) + candidates(rest@))[pos]
                        == cur.subrange(j as int, n as int)[0]);
                }
                assert(examined(all.len(), recovery_threshold as nat) > pos);
            }
            if index > total_weights {
                proof {
                    assert(bad_at(all, total_weights, pos));
                }
                return Err(VidError::InvalidShare);
            }
            if visited.contains(&index) {
                proof {
                    let w = choose|i: int| 0 <= i < raw@.len() && raw@[i].0 == index;
                    assert(all[w] == raw@[w]) by {
                        assert((raw@ + cur.subrange(j as int, n as int) + candidates(rest@))[w]
                            == raw@[w]);
                    }
                    assert(bad_at(all, total_weights, pos));
                }
                return Err(VidError::InvalidShare);
            }
            proof {
                assert forall|i: int| 0 <= i < pos implies #[trigger] all[i].0 != all[pos].0 by {
                    assert((raw@ + cur.subrange(j as int, n as int) + candidates(rest@))[i]
                        == raw@[i]);
                    if all[i].0 == all[pos].0 {
                        assert(visited@.contains(index));
                    }
                }
                assert(!bad_at(all, total_weights, pos));
            }
            let proof_j = proofs.remove(0);
            let ghost old_raw = raw@;
            raw.push((index, proof_j));
            visited.insert(index);
            proof {
                assert(raw@ == old_raw.push(cur[j as int]));
                assert(cur.subrange(j as int, n as int) =~= seq![cur[j as int]] + cur.subrange(
                    j + 1,
                    n as int,
                ));
                assert(raw@ + cur.subrange(j + 1, n as int) + candidates(rest@) =~= old_raw
                    + cur.subrange(j as int, n as int) + candidates(rest@));
                assert(proofs@ =~= proofs0.subrange(j + 1, proofs0.len() as int));
                assert forall|x: usize| #[trigger]
                    visited@.contains(x) implies exists|i: int|
                        0 <= i < raw@.len() && raw@[i].0 == x by {
                    if x == index {
                        assert(raw@[pos].0 == x);
                    } else {
                        let i = choose|i: int| 0 <= i < old_raw.len() && old_raw[i].0 == x;
                        assert(raw@[i].0 == x);
                    }
                }
                assert forall|x: usize|
                    (exists|i: int| 0 <= i < raw@.len() && raw@[i].0 == x) implies #[trigger]
                    visited@.contains(x) by {
                    let i = choose|i: int| 0 <= i < raw@.len() && raw@[i].0 == x;
                    if i < pos {
                        assert(old_raw[i].0 == x);
                    }
                }
                assert forall|k: int| 0 <= k < raw@.len() implies !#[trigger] bad_at(
                    all,
                    total_weights,
                    k,
                ) by {
                    if k < pos {
                        assert(!bad_at(all, total_weights, k));
                    }
                }
            }
            if raw.len() == recovery_threshold {
                proof {
                    assert(examined(all.len(), recovery_threshold as nat) == recovery_threshold);
                    assert(all.take(recovery_threshold as int) =~= raw@);
                    assert(!exists|k: int|
                        0 <= k < recovery_threshold && #[trigger] bad_at(all, total_weights, k));
                }
                return Ok(raw);
            }
            j = j + 1;
        }
        proof {
            assert(cur.subrange(n as int, n as int) =~= Seq::<(usize, M)>::empty());
            assert(raw@ + candidates(rest@) =~= raw@ + cur.subrange(n as int, n as int)
                + candidates(rest@));
        }
    }
    proof {
        assert(candidates(rest@) =~= Seq::<(usize, M)>::empty());
        assert(raw@ =~= all);
        assert(examined(all.len(), recovery_threshold as nat) == all.len());
        assert(!exists|k: int| 0 <= k < all.len() && #[trigger] bad_at(all, total_weights, k));
    }
    if raw.len() != recovery_threshold {
        return Err(VidError::InsufficientShares);
    }
    proof {
        assert(all.take(recovery_threshold as int) =~= raw@);
    }
    Ok(raw)
}

/// The `k`-th raw share of a proof names an index outside the `total_weights`
/// evaluations, or one that an earlier raw share already named.
pub open spec fn raw_index_bad(indices: Seq<usize>, total_weights: usize, k: int) -> bool {
    indices[k] >= total_weights || exists|j: int| 0 <= j < k && #[trigger] indices[j] == indices[k]
}

/// The verdict on the raw shares from the `i`-th on, checked in order: a bad index is
/// an error; otherwise the first raw share whose Merkle proof fails makes the proof
/// invalid (`false`); if none fails the proof holds (`true`).
pub open spec fn raw_shares_verdict(
    indices: Seq<usize>,
    merkle_ok: Seq<bool>,
    total_weights: usize,
    i: int,
) -> Result<bool, VidError>
    decreases indices.len() - i,
{
    if i < 0 || i >= indices.len() {
        Ok(true)
    } else if raw_index_bad(indices, total_weights, i) {
        Err(VidError::InvalidShare)
    } else if !merkle_ok[i] {
        Ok(false)
    } else {
        raw_shares_verdict(indices, merkle_ok, total_weights, i + 1)
    }
}

proof fn lemma_verdict_from(indices: Seq<usize>, merkle_ok: Seq<bool>, total_weights: usize, i: int)
    requires
        merkle_ok.len() == indices.len(),
        0 <= i <= indices.len(),
    ensures
        raw_shares_verdict(indices, merkle_ok, total_weights, i) == Ok::<bool, VidError>(true)
            ==> forall|k: int|
            i <= k < indices.len() ==> !raw_index_bad(indices, total_weights, k)
                && #[trigger] merkle_ok[k],
        forall|k: int|
            i <= k < indices.len() && #[trigger] raw_index_bad(indices, total_weights, k) && (forall|
                m: int,
            | i <= m < k ==> merkle_ok[m]) ==> raw_shares_verdict(indices, merkle_ok, total_weights, i)
                == Err::<bool, VidError>(VidError::InvalidShare),
        raw_shares_verdict(indices, merkle_ok, total_weights, i) == Ok::<bool, VidError>(false)
            ==> exists|k: int|
            i <= k < indices.len() && !#[trigger] merkle_ok[k] && forall|m: int|
                i <= m <= k ==> !raw_index_bad(indices, total_weights, m),
        raw_shares_verdict(indices, merkle_ok, total_weights, i) is Err ==> raw_shares_verdict(
            indices,
            merkle_ok,
            total_weights,
            i,
        ) == Err::<bool, VidError>(VidError::InvalidShare),
        (forall|k: int|
            i <= k < indices.len() ==> !raw_index_bad(indices, total_weights, k)
                && #[trigger] merkle_ok[k]) ==> raw_shares_verdict(indices, merkle_ok, total_weights, i)
            == Ok::<bool, VidError>(true),
        forall|k: int|
            i <= k < indices.len() && !#[trigger] merkle_ok[k] && (forall|m: int|
                i <= m <= k ==> !raw_index_bad(indices, total_weights, m)) ==> raw_shares_verdict(
                indices,
                merkle_ok,
                total_weights,
                i,
            ) == Ok::<bool, VidError>(false),
    decreases indices.len() - i,
{
    if i < indices.len() {
        lemma_verdict_from(indices, merkle_ok, total_weights, i + 1);
        assert forall|k: int|
            i <= k < indices.len() && !#[trigger] merkle_ok[k] && (forall|m: int|
                i <= m <= k ==> !raw_index_bad(indices, total_weights, m)) implies raw_shares_verdict(
            indices,
            merkle_ok,
            total_weights,
            i,
        ) == Ok::<bool, VidError>(false) by {
            assert(!raw_index_bad(indices, total_weights, i));
            if k > i {
                assert(merkle_ok[i] || !merkle_ok[i]);
                assert forall|m: int| i + 1 <= m <= k implies !raw_index_bad(indices, total_weights, m) by {}
            }
        }
        if !raw_index_bad(indices, total_weights, i) && merkle_ok[i] {
            assert forall|k: int|
                i <= k < indices.len() && #[trigger] raw_index_bad(indices, total_weights, k) && (forall|
                    m: int,
                | i <= m < k ==> merkle_ok[m]) implies raw_shares_verdict(
                indices,
                merkle_ok,
                total_weights,
                i,
            ) == Err::<bool, VidError>(VidError::InvalidShare) by {
                assert(k != i);
                assert forall|m: int| i + 1 <= m < k implies merkle_ok[m] by {}
            }
            if raw_shares_verdict(indices, merkle_ok, total_weights, i) == Ok::<bool, VidError>(
                false,
            ) {
                let k = choose|k: int|
                    i + 1 <= k < indices.len() && !#[trigger] merkle_ok[k] && forall|m: int|
                        i + 1 <= m <= k ==> !raw_index_bad(indices, total_weights, m);
                assert(forall|m: int| i <= m <= k ==> !raw_index_bad(indices, total_weights, m));
            }
        } else if !raw_index_bad(indices, total_weights, i) {
            assert(forall|m: int| i <= m <= i ==> !raw_index_bad(indices, total_weights, m));
        }
    }
}

/// The raw shares up to the `k`-th name indices below `total_weights`, no two alike.
pub open spec fn distinct_below(indices: Seq<usize>, total_weights: usize, k: int) -> bool {
    &&& forall|m: int| 0 <= m <= k ==> #[trigger] indices[m] < total_weights
    &&& forall|j: int, m: int| 0 <= j < m <= k ==> #[trigger] indices[j] != #[trigger] indices[m]
}

/// What the check of a proof's raw shares decides, over all inputs: it accepts
/// (`Ok(true)`) exactly when every raw share names a distinct index below
/// `total_weights` and every Merkle proof checks; a raw share whose index is out of
/// range or repeats an earlier one, with every Merkle proof before it checking, makes
/// it `InvalidShare`; it refuses (`Ok(false)`) exactly at a failing Merkle proof whose
/// raw share and all before it are well named; and no other error arises.
pub proof fn lemma_raw_shares_verdict(indices: Seq<usize>, merkle_ok: Seq<bool>, total_weights: usize)
    requires
        merkle_ok.len() == indices.len(),
    ensures
        raw_shares_verdict(indices, merkle_ok, total_weights, 0) == Ok::<bool, VidError>(true) ==> {
            &&& forall|k: int| 0 <= k < indices.len() ==> #[trigger] indices[k] < total_weights
            &&& forall|k: int| 0 <= k < indices.len() ==> #[trigger] merkle_ok[k]
            &&& forall|j: int, k: int|
                0 <= j < k < indices.len() ==> #[trigger] indices[j] != #[trigger] indices[k]
        },
        forall|j: int, k: int|
            0 <= j < k < indices.len() && #[trigger] indices[j] == #[trigger] indices[k] && (forall|
                m: int,
            | 0 <= m < k ==> merkle_ok[m]) ==> raw_shares_verdict(indices, merkle_ok, total_weights, 0)
                == Err::<bool, VidError>(VidError::InvalidShare),
        forall|k: int|
            0 <= k < indices.len() && #[trigger] indices[k] >= total_weights && (forall|m: int|
                0 <= m < k ==> merkle_ok[m]) ==> raw_shares_verdict(indices, merkle_ok, total_weights, 0)
                == Err::<bool, VidError>(VidError::InvalidShare),
        raw_shares_verdict(indices, merkle_ok, total_weights, 0) == Ok::<bool, VidError>(false)
            ==> exists|k: int|
            0 <= k < indices.len() && !#[trigger] merkle_ok[k] && distinct_below(indices, total_weights, k),
        raw_shares_verdict(indices, merkle_ok, total_weights, 0) is Err ==> raw_shares_verdict(
            indices,
            merkle_ok,
            total_weights,
            0,
        ) == Err::<bool, VidError>(VidError::InvalidShare),
        (forall|k: int| 0 <= k < indices.len() ==> #[trigger] indices[k] < total_weights)
            && (forall|k: int| 0 <= k < indices.len() ==> #[trigger] merkle_ok[k]) && (forall|
            j: int,
            k: int,
        | 0 <= j < k < indices.len() ==> #[trigger] indices[j] != #[trigger] indices[k])
            ==> raw_shares_verdict(indices, merkle_ok, total_weights, 0) == Ok::<bool, VidError>(true),
        forall|k: int|
            0 <= k < indices.len() && !#[trigger] merkle_ok[k] && distinct_below(indices, total_weights, k)
                ==> raw_shares_verdict(
                indices,
                merkle_ok,
                total_weights,
                0,
            ) == Ok::<bool, VidError>(false),
{
    lemma_verdict_from(indices, merkle_ok, total_weights, 0);
    if (forall|k: int| 0 <= k < indices.len() ==> #[trigger] indices[k] < total_weights)
        && (forall|k: int| 0 <= k < indices.len() ==> #[trigger] merkle_ok[k]) && (forall|
        j: int,
        k: int,
    | 0 <= j < k < indices.len() ==> #[trigger] indices[j] != #[trigger] indices[k]) {
        assert forall|k: int| 0 <= k < indices.len() implies !raw_index_bad(indices, total_weights, k)
            && #[trigger] merkle_ok[k] by {
            assert(indices[k] < total_weights);
            assert(forall|j: int| 0 <= j < k ==> indices[j] != indices[k]);
        }
    }
    assert forall|k: int|
        0 <= k < indices.len() && !#[trigger] merkle_ok[k] && distinct_below(indices, total_weights, k)
        implies raw_shares_verdict(indices, merkle_ok, total_weights, 0) == Ok::<bool, VidError>(
        false,
    ) by {
        assert forall|m: int| 0 <= m <= k implies !raw_index_bad(indices, total_weights, m) by {
            assert(indices[m] < total_weights);
            assert forall|j: int| 0 <= j < m implies indices[j] != indices[m] by {
                assert(indices[j] != indices[m]);
            }
        }
    }
    if raw_shares_verdict(indices, merkle_ok, total_weights, 0) == Ok::<bool, VidError>(true) {
        assert forall|k: int| 0 <= k < indices.len() implies #[trigger] indices[k] < total_weights by {
            assert(!raw_index_bad(indices, total_weights, k) && merkle_ok[k]);
        }
        assert forall|k: int| 0 <= k < indices.len() implies #[trigger] merkle_ok[k] by {
            assert(!raw_index_bad(indices, total_weights, k) && merkle_ok[k]);
        }
        assert forall|j: int, k: int| 0 <= j < k < indices.len() implies #[trigger] indices[j]
            != #[trigger] indices[k] by {
            assert(!raw_index_bad(indices, total_weights, k) && merkle_ok[k]);
        }
    }
    assert forall|j: int, k: int|
        0 <= j < k < indices.len() && #[trigger] indices[j] == #[trigger] indices[k] && (forall|
            m: int,
        | 0 <= m < k ==> merkle_ok[m]) implies raw_shares_verdict(indices, merkle_ok, total_weights, 0)
        == Err::<bool, VidError>(VidError::InvalidShare) by {
        assert(raw_index_bad(indices, total_weights, k));
    }
    assert forall|k: int|
        0 <= k < indices.len() && #[trigger] indices[k] >= total_weights && (forall|m: int|
            0 <= m < k ==> merkle_ok[m]) implies raw_shares_verdict(indices, merkle_ok, total_weights, 0)
        == Err::<bool, VidError>(VidError::InvalidShare) by {
        assert(raw_index_bad(indices, total_weights, k));
    }
    if raw_shares_verdict(indices, merkle_ok, total_weights, 0) == Ok::<bool, VidError>(false) {
        let k = choose|k: int|
            0 <= k < indices.len() && !#[trigger] merkle_ok[k] && forall|m: int|
                0 <= m <= k ==> !raw_index_bad(indices, total_weights, m);
        assert forall|m: int| 0 <= m <= k implies #[trigger] indices[m] < total_weights by {
            assert(!raw_index_bad(indices, total_weights, m));
        }
        assert forall|j: int, m: int| 0 <= j < m <= k implies #[trigger] indices[j]
            != #[trigger] indices[m] by {
            assert(!raw_index_bad(indices, total_weights, m));
        }
    }
}

/// Check a proof of incorrect encoding: `Ok(true)` when it proves the encoding wrong,
/// `Ok(false)` when it does not.
///
/// The proof must carry exactly `recovery_threshold` raw shares and a recovered
/// polynomial of at most that many coefficients, else `InvalidParam`. The base scheme
/// computes the rest: `reencoding_matches` is whether re-encoding the polynomial gives
/// the committed root (then the encoding was right and the proof fails), and
/// `merkle_ok[k]` whether the `k`-th raw share's Merkle proof checks against that root.
pub fn check_bad_encoding_proof(
    indices: &Vec<usize>,
    poly_len: usize,
    total_weights: usize,
    recovery_threshold: usize,
    reencoding_matches: bool,
    merkle_ok: &Vec<bool>,
) -> (r: Result<bool, VidError>)
    requires
        merkle_ok@.len() == indices@.len(),
    ensures
        r == (if indices@.len() != recovery_threshold || poly_len > recovery_threshold {
            Err(VidError::InvalidParam)
        } else if reencoding_matches {
            Ok(false)
        } else {
            raw_shares_verdict(indices@, merkle_ok@, total_weights, 0)
        }),
        r == Ok::<bool, VidError>(true) ==> {
            &&& indices@.len() == recovery_threshold
            &&& !reencoding_matches
            &&& forall|k: int| 0 <= k < indices@.len() ==> #[trigger] indices@[k] < total_weights
            &&& forall|k: int| 0 <= k < indices@.len() ==> #[trigger] merkle_ok@[k]
            &&& forall|j: int, k: int|
                0 <= j < k < indices@.len() ==> #[trigger] indices@[j] != #[trigger] indices@[k]
        },
{
    proof {
        lemma_raw_shares_verdict(indices@, merkle_ok@, total_weights);
    }
    if indices.len() != recovery_threshold {
        return Err(VidError::InvalidParam);
    }
    if poly_len > recovery_threshold {
        return Err(VidError::InvalidParam);
    }
    if reencoding_matches {
        return Ok(false);
    }
    let mut visited: HashSet<usize> = HashSet::new();
    let mut i: usize = 0;
    while i < indices.len()
        invariant
            i <= indices@.len(),
            merkle_ok@.len() == indices@.len(),
            indices@.len() == recovery_threshold,
            poly_len <= recovery_threshold,
            !reencoding_matches,
            raw_shares_verdict(indices@, merkle_ok@, total_weights, 0) == raw_shares_verdict(
                indices@,
                merkle_ok@,
                total_weights,
                i as int,
            ),
            forall|x: usize| #[trigger]
                visited@.contains(x) <==> exists|j: int| 0 <= j < i && indices@[j] == x,
        decreases indices@.len() - i,
    {
        let index = indices[i];
        if index >= total_weights || visited.contains(&index) {
            proof {
                if index < total_weights {
                    let j = choose|j: int| 0 <= j < i && indices@[j] == index;
                    assert(indices@[j] == indices@[i as int]);
                }
                assert(raw_index_bad(indices@, total_weights, i as int));
            }
            return Err(VidError::InvalidShare);
        }
        proof {
            assert forall|j: int| 0 <= j < i implies #[trigger] indices@[j] != indices@[i as int] by {
                if indices@[j] == index {
                    assert(visited@.contains(index));
                }
            }
            assert(!raw_index_bad(indices@, total_weights, i as int));
        }
        if !merkle_ok[i] {
            return Ok(false);
        }
        visited.insert(index);
        proof {
            assert forall|x: usize| #[trigger]
                visited@.contains(x) implies exists|j: int| 0 <= j < i + 1 && indices@[j] == x by {
                if x == index {
                    assert(indices@[i as int] == x);
                } else {
                    let j = choose|j: int| 0 <= j < i && indices@[j] == x;
                    assert(indices@[j] == x);
                }
            }
        }
        i = i + 1;
    }
    Ok(true)
}

/// What trying one namespace for a proof of incorrect encoding came to, when it failed:
/// an error of this library's kinds, or another error of the base scheme (such as a
/// namespace that was encoded correctly).
#[derive(Clone, Copy, Debug, PartialEq, Eq, Structural)]
pub enum NamespaceAttemptError {
    Known(VidError),
    Other,
}

/// Whether the search over namespaces stops at this attempt: at a proof, or at an error
/// that says the shares or the namespace index are unusable. A namespace that was
/// encoded correctly, or an invalid parameter, moves the search on.
pub fn ends_namespace_search<P>(attempt: &Result<P, NamespaceAttemptError>) -> (r: bool)
    ensures
        r == match attempt {
            Ok(_) => true,
            Err(NamespaceAttemptError::Known(e)) => e != VidError::InvalidParam,
            Err(NamespaceAttemptError::Other) => false,
        },
{
    match attempt {
        Ok(_) => true,
        Err(NamespaceAttemptError::Known(VidError::InvalidParam)) => false,
        Err(NamespaceAttemptError::Known(_)) => true,
        Err(NamespaceAttemptError::Other) => false,
    }
}

/// The first attempt, in namespace order, at which the search stops.
pub open spec fn first_stop<P>(attempts: Seq<Result<P, NamespaceAttemptError>>, i: int) -> Option<int>
    decreases attempts.len() - i,
{
    if i < 0 || i >= attempts.len() {
        None
    } else if match attempts[i] {
        Ok(_) => true,
        Err(NamespaceAttemptError::Known(e)) => e != VidError::InvalidParam,
        Err(NamespaceAttemptError::Other) => false,
    } {
        Some(i)
    } else {
        first_stop(attempts, i + 1)
    }
}

/// The outcome of searching the namespaces for one encoded incorrectly, given each
/// namespace's attempt in order: no share at all is `InsufficientShares`; otherwise the
/// attempt at which the search stops (its proof or its error), and `InvalidParam` when
/// it never stops.
pub fn namespace_search_result<P>(
    has_shares: bool,
    attempts: Vec<Result<P, NamespaceAttemptError>>,
) -> (r: Result<P, VidError>)
    ensures
        !has_shares ==> r == Err::<P, VidError>(VidError::InsufficientShares),
        has_shares ==> match first_stop(attempts@, 0) {
            None => r == Err::<P, VidError>(VidError::InvalidParam),
            Some(k) => match attempts@[k] {
                Ok(p) => r == Ok::<P, VidError>(p),
                Err(NamespaceAttemptError::Known(e)) => r == Err::<P, VidError>(e),
                Err(NamespaceAttemptError::Other) => false,
            },
        },
{
    if !has_shares {
        return Err(VidError::InsufficientShares);
    }
    let ghost all = attempts@;
    let mut rest = attempts;
    let ghost mut i: int = 0;
    while rest.len() > 0
        invariant
            has_shares,
            all == attempts@,
            0 <= i <= all.len(),
            rest@ == all.subrange(i, all.len() as int),
            first_stop(all, 0) == first_stop(all, i),
        decreases rest@.len(),
    {
        let a = rest.remove(0);
        proof {
            assert(a == all[i]);
        }
        if ends_namespace_search(&a) {
            assert(first_stop(all, i) == Some(i));
            return match a {
                Ok(p) => Ok(p),
                Err(NamespaceAttemptError::Known(e)) => Err(e),
                Err(NamespaceAttemptError::Other) => Err(VidError::InvalidParam),
            };
        }
        proof {
            i = i + 1;
            assert(rest@ =~= all.subrange(i, all.len() as int));
        }
    }
    Err(VidError::InvalidParam)
}

} // verus!
