use crate::vid_ns::{AvidMNsProof, AvidMNsProofV1};
use vstd::prelude::*;

verus! {

/// Which namespace proofs a version of the availability API serves.
#[derive(Debug, Clone, Copy, PartialEq, Eq, Structural)]
pub enum NsProofFlavor {
    /// Version 1.1 and later 1.x: a proof of the namespace, or, when the block was
    /// encoded incorrectly, a proof of the incorrect encoding
    WithIncorrectEncoding,
    /// Version 1.0: only proofs of correctly encoded namespaces
    CorrectEncodingOnly,
    /// Any other major version: proofs over the first VID scheme
    Legacy,
}

/// The namespace proofs that API version `major.minor` serves.
pub fn ns_proof_flavor(major: u64, minor: u64) -> (r: NsProofFlavor)
    ensures
        r == (if major == 1 {
            if minor >= 1 {
                NsProofFlavor::WithIncorrectEncoding
            } else {
                NsProofFlavor::CorrectEncodingOnly
            }
        } else {
            NsProofFlavor::Legacy
        }),
{
    if major == 1 {
        if minor >= 1 {
            NsProofFlavor::WithIncorrectEncoding
        } else {
            NsProofFlavor::CorrectEncodingOnly
        }
    } else {
        NsProofFlavor::Legacy
    }
}

/// Why the availability API answers a namespace-proof request with an error.
#[derive(Debug, Clone, Copy, PartialEq, Eq, Structural)]
pub enum NsProofError {
    /// The block has no such namespace
    NamespaceNotFound,
    /// No proof could be made for the namespace
    ProofFailed,
    /// The shares needed for a proof of incorrect encoding could not be had
    SharesUnavailable,
    /// A proof of incorrect encoding could not be made
    IncorrectEncodingProofFailed,
    /// The block was dispersed with a VID scheme this API version does not serve
    UnsupportedVidVersion,
    /// A request for a proof of incorrect encoding names no block
    BlockNumberRequired,
}

/// HTTP status: not found.
pub const STATUS_NOT_FOUND: u16 = 404;

/// HTTP status: bad request.
pub const STATUS_BAD_REQUEST: u16 = 400;

/// HTTP status: internal server error.
pub const STATUS_INTERNAL_SERVER_ERROR: u16 = 500;

impl NsProofError {
    /// The HTTP status of the answer: a request without a block number is malformed,
    /// a failure to build a proof of incorrect encoding is the server's fault, and
    /// everything else is not found.
    pub fn status(&self) -> (r: u16)
        ensures
            r == (if *self == NsProofError::IncorrectEncodingProofFailed {
                STATUS_INTERNAL_SERVER_ERROR
            } else if *self == NsProofError::BlockNumberRequired {
                STATUS_BAD_REQUEST
            } else {
                STATUS_NOT_FOUND
            }),
    {
        match self {
            NsProofError::IncorrectEncodingProofFailed => STATUS_INTERNAL_SERVER_ERROR,
            NsProofError::BlockNumberRequired => STATUS_BAD_REQUEST,
            _ => STATUS_NOT_FOUND,
        }
    }
}

/// A namespace-proof answer: the proof, if any, and the namespace's transactions.
#[derive(Debug, Clone, PartialEq, Eq)]
pub struct NsProofAnswer<P, T> {
    pub proof: Option<P>,
    pub transactions: Vec<T>,
}

/// The next move while answering a namespace-proof request of API 1.1.
#[derive(Debug, Clone, PartialEq, Eq)]
pub enum NsProofStep<P, T> {
    /// Answer with this
    Answer(NsProofAnswer<P, T>),
    /// Answer with this error
    Fail(NsProofError),
    /// The namespace's proof could not be made: collect the block's shares and try a
    /// proof of incorrect encoding
    CollectShares,
}

/// API 1.1, first stage: the namespace's proof with its transactions when it could be
/// made (`correct` holds it and what it exports), an error when the namespace is not in
/// the block, otherwise go on to a proof of incorrect encoding.
pub fn ns_proof_first_stage<P, T>(ns_found: bool, correct: Option<(P, Vec<T>)>) -> (r: NsProofStep<
    P,
    T,
>)
    ensures
        !ns_found ==> r == NsProofStep::<P, T>::Fail(NsProofError::NamespaceNotFound),
        ns_found && correct is None ==> r == NsProofStep::<P, T>::CollectShares,
        ns_found && correct is Some ==> (r matches NsProofStep::Answer(a) && a.proof == Some(
            correct.unwrap().0,
        ) && a.transactions@ == correct.unwrap().1@),
{
    if !ns_found {
        return NsProofStep::Fail(NsProofError::NamespaceNotFound);
    }
    match correct {
        Some((proof, txs)) => NsProofStep::Answer(NsProofAnswer { proof: Some(proof), transactions: txs }),
        None => NsProofStep::CollectShares,
    }
}

/// API 1.1, second stage: answer with the proof of incorrect encoding and no
/// transactions; a failure to collect the shares, or to make the proof, is an error.
pub fn ns_proof_second_stage<P, T>(shares_collected: bool, incorrect: Option<P>) -> (r: Result<
    NsProofAnswer<P, T>,
    NsProofError,
>)
    ensures
        !shares_collected ==> r == Err::<NsProofAnswer<P, T>, NsProofError>(
            NsProofError::SharesUnavailable,
        ),
        shares_collected && incorrect is None ==> r == Err::<NsProofAnswer<P, T>, NsProofError>(
            NsProofError::IncorrectEncodingProofFailed,
        ),
        shares_collected && incorrect is Some ==> (r matches Ok(a) && a.proof == incorrect
            && a.transactions@.len() == 0),
{
    if !shares_collected {
        return Err(NsProofError::SharesUnavailable);
    }
    match incorrect {
        Some(p) => Ok(NsProofAnswer { proof: Some(p), transactions: Vec::new() }),
        None => Err(NsProofError::IncorrectEncodingProofFailed),
    }
}

/// API 1.0: the namespace's proof with its transactions; a namespace not in the block
/// gets an empty answer, a proof that could not be made an error.
pub fn ns_proof_correct_only<P, T>(ns_found: bool, correct: Option<(P, Vec<T>)>) -> (r: Result<
    NsProofAnswer<P, T>,
    NsProofError,
>)
    ensures
        !ns_found ==> (r matches Ok(a) && a.proof is None && a.transactions@.len() == 0),
        ns_found && correct is None ==> r == Err::<NsProofAnswer<P, T>, NsProofError>(
            NsProofError::ProofFailed,
        ),
        ns_found && correct is Some ==> (r matches Ok(a) && a.proof == Some(correct.unwrap().0)
            && a.transactions@ == correct.unwrap().1@),
{
    if !ns_found {
        return Ok(NsProofAnswer { proof: None, transactions: Vec::new() });
    }
    match correct {
        Some((proof, txs)) => Ok(NsProofAnswer { proof: Some(proof), transactions: txs }),
        None => Err(NsProofError::ProofFailed),
    }
}

/// Other major versions: like version 1.0, but only a block dispersed with the first VID
/// scheme (`vid_is_v0`) can be proven; for another the namespace's answer is an error.
pub fn ns_proof_legacy<P, T>(ns_found: bool, vid_is_v0: bool, correct: Option<(P, Vec<T>)>) -> (r:
    Result<NsProofAnswer<P, T>, NsProofError>)
    ensures
        !ns_found ==> (r matches Ok(a) && a.proof is None && a.transactions@.len() == 0),
        ns_found && !vid_is_v0 ==> r == Err::<NsProofAnswer<P, T>, NsProofError>(
            NsProofError::UnsupportedVidVersion,
        ),
        ns_found && vid_is_v0 && correct is None ==> r == Err::<NsProofAnswer<P, T>, NsProofError>(
            NsProofError::ProofFailed,
        ),
        ns_found && vid_is_v0 && correct is Some ==> (r matches Ok(a) && a.proof == Some(
            correct.unwrap().0,
        ) && a.transactions@ == correct.unwrap().1@),
{
    if ns_found && !vid_is_v0 {
        return Err(NsProofError::UnsupportedVidVersion);
    }
    ns_proof_correct_only(ns_found, correct)
}

/// The block number of a request for a proof of incorrect encoding, which must name one.
pub fn required_block_number(param: Option<u64>) -> (r: Result<u64, NsProofError>)
    ensures
        r == match param {
            Some(n) => Ok::<u64, NsProofError>(n),
            None => Err(NsProofError::BlockNumberRequired),
        },
{
    match param {
        Some(n) => Ok(n),
        None => Err(NsProofError::BlockNumberRequired),
    }
}

/// The answer to a request for a block's proof of incorrect encoding, once the shares
/// were asked for: failing to collect them is an error, so is a block dispersed with the
/// first VID scheme, and so is a proof that could not be made.
pub fn incorrect_encoding_answer<B>(shares_collected: bool, vid_is_v1: bool, made: Option<B>) -> (r:
    Result<B, NsProofError>)
    ensures
        r == (if !shares_collected {
            Err(NsProofError::SharesUnavailable)
        } else if !vid_is_v1 {
            Err(NsProofError::UnsupportedVidVersion)
        } else {
            match made {
                Some(p) => Ok(p),
                None => Err(NsProofError::IncorrectEncodingProofFailed),
            }
        }),
{
    if !shares_collected {
        return Err(NsProofError::SharesUnavailable);
    }
    if !vid_is_v1 {
        return Err(NsProofError::UnsupportedVidVersion);
    }
    match made {
        Some(p) => Ok(p),
        None => Err(NsProofError::IncorrectEncodingProofFailed),
    }
}

/// A VID share of either scheme.
#[derive(Debug, Clone, PartialEq, Eq)]
pub enum VidShareVersion<A, B> {
    V0(A),
    V1(B),
}

/// The shares of the second scheme in `shares`, in order.
pub open spec fn v1_shares_spec<A, B>(shares: Seq<VidShareVersion<A, B>>) -> Seq<B>
    decreases shares.len(),
{
    if shares.len() == 0 {
        Seq::empty()
    } else {
        let rest = v1_shares_spec(shares.drop_last());
        match shares.last() {
            VidShareVersion::V0(_) => rest,
            VidShareVersion::V1(b) => rest.push(b),
        }
    }
}

/// Keep the shares of the second scheme, in order; a proof of incorrect encoding is
/// made from those alone.
pub fn v1_shares<A, B>(shares: Vec<VidShareVersion<A, B>>) -> (r: Vec<B>)
    ensures
        r@ == v1_shares_spec(shares@),
{
    let mut r: Vec<B> = Vec::new();
    let mut rest = shares;
    let ghost all = rest@;
    let ghost mut n: int = 0;
    while rest.len() > 0
        invariant
            0 <= n <= all.len(),
            rest@ == all.subrange(n, all.len() as int),
            r@ == v1_shares_spec(all.subrange(0, n)),
        decreases rest@.len(),
    {
        let s = rest.remove(0);
        let ghost gs = s;
        proof {
            assert(gs == all[n]);
            assert(all.subrange(0, n + 1).drop_last() =~= all.subrange(0, n));
        }
        match s {
            VidShareVersion::V0(_) => {},
            VidShareVersion::V1(b) => {
                r.push(b);
            },
        }
        proof {
            n = n + 1;
            assert(rest@ =~= all.subrange(n, all.len() as int));
        }
    }
    proof {
        assert(all.subrange(0, n) =~= all);
    }
    r
}


/// A namespace proof of any version: over the first VID scheme (`A`), over AvidM with
/// correct encoding only, or over AvidM with either correct or incorrect encoding.
#[derive(Debug, Clone, PartialEq, Eq)]
pub enum NsProof<A, P, B> {
    V0(A),
    V1(AvidMNsProof<P>),
    V1_1(AvidMNsProofV1<P, B>),
}

/// Where a namespace proof's transactions come from.
#[derive(Debug, PartialEq, Eq)]
pub enum TxSource<'a, A> {
    /// The proof over the first VID scheme exports them itself
    Legacy(&'a A),
    /// They are parsed from the namespace payload that the proof carries
    Payload(&'a [u8]),
    /// A proof of incorrect encoding carries no transactions
    Nothing,
}

impl<A, P, B> NsProof<A, P, B> {
    /// Where this proof's transactions are exported from: a proof over the first scheme
    /// exports them itself; a correct-encoding AvidM proof, of either version, from its
    /// namespace payload; a proof of incorrect encoding has none.
    pub fn tx_source(&self) -> (r: TxSource<'_, A>)
        ensures
            match self {
                NsProof::V0(a) => r == TxSource::Legacy(a),
                NsProof::V1(p) => r matches TxSource::Payload(b) && b@ == p.0.ns_payload@,
                NsProof::V1_1(AvidMNsProofV1::CorrectEncoding(p)) => r matches TxSource::Payload(b)
                    && b@ == p.ns_payload@,
                NsProof::V1_1(AvidMNsProofV1::IncorrectEncoding(_)) => r == TxSource::<A>::Nothing,
            },
    {
        match self {
            NsProof::V0(a) => TxSource::Legacy(a),
            NsProof::V1(p) => TxSource::Payload(p.0.ns_payload.as_slice()),
            NsProof::V1_1(AvidMNsProofV1::CorrectEncoding(p)) => TxSource::Payload(
                p.ns_payload.as_slice(),
            ),
            NsProof::V1_1(AvidMNsProofV1::IncorrectEncoding(_)) => TxSource::Nothing,
        }
    }

    /// Whether this proof can be verified against VID common data of the first scheme
    /// (`common_is_v1` false) or of AvidM (true): a proof over the first scheme needs the
    /// first; both AvidM versions need the second. Any other pairing verifies nothing.
    pub fn matches_common(&self, common_is_v1: bool) -> (r: bool)
        ensures
            r == (match self {
                NsProof::V0(_) => !common_is_v1,
                _ => common_is_v1,
            }),
    {
        match self {
            NsProof::V0(_) => !common_is_v1,
            _ => common_is_v1,
        }
    }
}

} // verus!
