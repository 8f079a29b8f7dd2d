use crate::named_semaphore::{NamedSemaphore, NamedSemaphoreError, NamedSemaphorePermit};
use crate::outgoing::{blake3_digest, request_hash, OutgoingRequests};
use crate::protocol::Serializable;
use vstd::prelude::*;

verus! {

/// A response to a request: the hash that identifies the request, and the data.
#[derive(Debug, Clone, PartialEq, Eq)]
pub struct ResponseMessage<R> {
    pub request_hash: [u8; 32],
    pub response: R,
}

/// Whether `r` is the response owed to the peer `requester` that asked for `request`:
/// none unless the request validated (`validated`) and the data was derived
/// (`derived`), and none when the request cannot be serialized; otherwise one response,
/// to the requester, carrying the hash of the request's bytes and the data.
pub open spec fn answers<Req: Serializable, K, R>(
    request: &Req,
    requester: K,
    validated: bool,
    derived: Option<R>,
    r: Option<(K, ResponseMessage<R>)>,
) -> bool {
    &&& !validated || derived is None ==> r is None
    &&& r matches Some((to, m)) ==> {
        &&& validated
        &&& to == requester
        &&& derived == Some(m.response)
        &&& exists|b: Vec<u8>|
            #[trigger] call_ensures(Req::to_bytes, (request,), Ok::<Vec<u8>, String>(b))
                && m.request_hash@ == blake3_digest(b@)
    }
    &&& validated && derived is Some && r is None ==> exists|m: String|
        #[trigger] call_ensures(Req::to_bytes, (request,), Err::<Vec<u8>, String>(m))
}

/// The response to send to the peer `requester` that asked for `request`, once its
/// permit is held (see [`answers`]).
pub fn response_to_send<Req: Serializable, K, R>(
    request: &Req,
    requester: K,
    validated: bool,
    derived: Option<R>,
) -> (r: Option<(K, ResponseMessage<R>)>)
    ensures
        answers(request, requester, validated, derived, r),
{
    if !validated {
        return None;
    }
    let data = match derived {
        Some(d) => d,
        None => {
            return None;
        },
    };
    match request_hash(request) {
        Ok(h) => Some((requester, ResponseMessage { request_hash: h, response: data })),
        Err(_) => None,
    }
}

/// Finish serving a request whose permit is held: the response owed to the permit's
/// peer (see [`answers`]), and the permit handed back.
pub fn finish_request<Req: Serializable, K: PartialEq + Copy, R>(
    permits: &mut NamedSemaphore<K>,
    permit: NamedSemaphorePermit<K>,
    request: &Req,
    validated: bool,
    derived: Option<R>,
) -> (r: Option<(K, ResponseMessage<R>)>)
    requires
        old(permits).wf(),
        old(permits).held(permit.key_of()) > 0,
        vstd::laws_eq::obeys_concrete_eq::<K>(),
    ensures
        final(permits).wf(),
        final(permits).per_key_limit() == old(permits).per_key_limit(),
        final(permits).total_limit() == old(permits).total_limit(),
        final(permits).total_held() == old(permits).total_held() - 1,
        final(permits).held(permit.key_of()) == old(permits).held(permit.key_of()) - 1,
        forall|k: K| k != permit.key_of() ==> final(permits).held(k) == old(permits).held(k),
        answers(request, permit.key_of(), validated, derived, r),
{
    let requester = permit.key();
    let r = response_to_send(request, requester, validated, derived);
    permits.release(permit);
    r
}

/// Serve one request from the peer `requester` to its end. Without a free permit (too
/// many requests in progress overall or from that peer) nothing is sent. Otherwise at
/// most one response goes back, only when the request validated and its data was
/// derived, to the requester, carrying the request's hash (see [`answers`]); the permit
/// is handed back, so the counts end as they began.
pub fn handle_request<Req: Serializable, K: PartialEq + Copy, R>(
    permits: &mut NamedSemaphore<K>,
    requester: K,
    request: &Req,
    validated: bool,
    derived: Option<R>,
) -> (r: Option<(K, ResponseMessage<R>)>)
    requires
        old(permits).wf(),
        old(permits).total_held() < usize::MAX,
        vstd::laws_eq::obeys_concrete_eq::<K>(),
    ensures
        final(permits).wf(),
        final(permits).per_key_limit() == old(permits).per_key_limit(),
        final(permits).total_limit() == old(permits).total_limit(),
        final(permits).total_held() == old(permits).total_held(),
        forall|k: K| final(permits).held(k) == old(permits).held(k),
        !old(permits).admits(requester) ==> r is None,
        old(permits).admits(requester) ==> answers(request, requester, validated, derived, r),
{
    match permits.try_acquire(requester) {
        Ok(permit) => finish_request(permits, permit, request, validated, derived),
        Err(_) => None,
    }
}

/// The single permit kind that bounds how many responses are validated at once.
#[derive(Debug, Clone, Copy)]
pub struct ResponseSlot;

impl PartialEq for ResponseSlot {
    fn eq(&self, other: &Self) -> (r: bool) {
        true
    }
}

impl vstd::std_specs::cmp::PartialEqSpecImpl for ResponseSlot {
    open spec fn obeys_eq_spec() -> bool {
        true
    }

    open spec fn eq_spec(&self, other: &Self) -> bool {
        true
    }
}

/// Admit a response: only a response to a request still waited on is looked at, and
/// only while fewer responses than the limit are being validated. A response that is
/// not admitted takes no permit and leaves the counts as they were.
pub fn admit_response(
    outgoing: &OutgoingRequests,
    permits: &mut NamedSemaphore<ResponseSlot>,
    hash: &[u8; 32],
) -> (r: Option<NamedSemaphorePermit<ResponseSlot>>)
    requires
        outgoing.wf(),
        old(permits).wf(),
        old(permits).total_held() < usize::MAX,
    ensures
        final(permits).wf(),
        outgoing.handles(*hash) == 0 ==> r is None && *final(permits) == *old(permits),
        final(permits).per_key_limit() == old(permits).per_key_limit(),
        final(permits).total_limit() == old(permits).total_limit(),
        outgoing.handles(*hash) > 0 ==> (r is Some <==> old(permits).admits(ResponseSlot)),
        r is Some ==> final(permits).total_held() == old(permits).total_held() + 1
            && final(permits).held(ResponseSlot) == old(permits).held(ResponseSlot) + 1,
        r is None ==> final(permits).total_held() == old(permits).total_held()
            && final(permits).held(ResponseSlot) == old(permits).held(ResponseSlot),
{
    if !outgoing.is_pending(hash) {
        return None;
    }
    proof {
        reveal(vstd::laws_eq::obeys_concrete_eq);
        assert(vstd::laws_eq::obeys_concrete_eq::<ResponseSlot>());
    }
    let acquired = permits.try_acquire(ResponseSlot);
    match acquired {
        Ok(p) => Some(p),
        Err(e) => {
            proof {
                match e {
                    NamedSemaphoreError::GlobalLimitReached => {},
                    NamedSemaphoreError::PerKeyLimitReached => {},
                }
            }
            None
        },
    }
}

/// What reaches the waiters of a request from one admitted response: the value that
/// validating it produced, once, and nothing when validation failed.
pub fn deliver_response<O, E>(validation: Result<O, E>) -> (r: Option<O>)
    ensures
        match validation {
            Ok(v) => r == Some(v),
            Err(_) => r is None,
        },
{
    match validation {
        Ok(v) => Some(v),
        Err(_) => None,
    }
}

/// Finish with an admitted response: the value that validating it produced reaches
/// the request's waiters (see [`deliver_response`]), and the permit is handed back.
pub fn finish_response<O, E>(
    permits: &mut NamedSemaphore<ResponseSlot>,
    permit: NamedSemaphorePermit<ResponseSlot>,
    validation: Result<O, E>,
) -> (r: Option<O>)
    requires
        old(permits).wf(),
        old(permits).held(permit.key_of()) > 0,
    ensures
        final(permits).wf(),
        final(permits).per_key_limit() == old(permits).per_key_limit(),
        final(permits).total_limit() == old(permits).total_limit(),
        final(permits).total_held() == old(permits).total_held() - 1,
        final(permits).held(ResponseSlot) == old(permits).held(ResponseSlot) - 1,
        match validation {
            Ok(v) => r == Some(v),
            Err(_) => r is None,
        },
{
    proof {
        reveal(vstd::laws_eq::obeys_concrete_eq);
        assert(vstd::laws_eq::obeys_concrete_eq::<ResponseSlot>());
        assert(permit.key_of() == ResponseSlot);
    }
    let r = deliver_response(validation);
    permits.release(permit);
    r
}

/// Take in one response to its end. A response to no request still waited on, or one
/// that arrives while the limit of responses being validated is reached, is dropped:
/// nothing reaches any waiter. Otherwise the validated value reaches the waiters once,
/// and nothing when validation failed; the permit is handed back, so the counts end as
/// they began.
pub fn handle_response<O, E>(
    outgoing: &OutgoingRequests,
    permits: &mut NamedSemaphore<ResponseSlot>,
    hash: &[u8; 32],
    validation: Result<O, E>,
) -> (r: Option<O>)
    requires
        outgoing.wf(),
        old(permits).wf(),
        old(permits).total_held() < usize::MAX,
    ensures
        final(permits).wf(),
        final(permits).per_key_limit() == old(permits).per_key_limit(),
        final(permits).total_limit() == old(permits).total_limit(),
        final(permits).total_held() == old(permits).total_held(),
        final(permits).held(ResponseSlot) == old(permits).held(ResponseSlot),
        outgoing.handles(*hash) == 0 || !old(permits).admits(ResponseSlot) ==> r is None,
        outgoing.handles(*hash) > 0 && old(permits).admits(ResponseSlot) ==> match validation {
            Ok(v) => r == Some(v),
            Err(_) => r is None,
        },
{
    match admit_response(outgoing, permits, hash) {
        Some(permit) => finish_response(permits, permit, validation),
        None => None,
    }
}

} // verus!
