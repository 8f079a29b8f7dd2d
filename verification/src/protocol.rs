use std::time::Duration;
use vstd::prelude::*;

verus! {

/// The type of request to make
#[derive(Debug, PartialEq, Eq, Clone, Copy, Structural)]
pub enum RequestType {
    /// A request that can be satisfied by a single participant,
    /// and as such will be batched to a few participants at a time
    /// until one succeeds
    Batched,
    /// A request that needs most or all participants to respond,
    /// and as such will be broadcasted to all participants
    Broadcast,
}

/// The errors that can occur when making a request for data
#[derive(Debug, Clone, PartialEq, Eq)]
pub enum RequestError {
    /// The request timed out
    Timeout,
    /// The request was invalid
    InvalidRequest(String),
    /// Other errors
    Other(String),
}

/// A trait for serializing and deserializing a type to and from a byte array. Request
/// and response types implement it; a request's bytes identify it, so an enum of
/// requests should start with a tag unique to each variant.
pub trait Serializable: Sized {
    /// Serialize the value to bytes, or say why it cannot be.
    fn to_bytes(&self) -> Result<Vec<u8>, String>;

    /// Deserialize a value, or say why the bytes do not represent one.
    fn from_bytes(bytes: &[u8]) -> Result<Self, String>;
}

/// The underlying configuration for the request-response protocol
#[derive(Clone, Copy, Debug)]
pub struct RequestResponseConfig {
    /// Do not respond to a request older than this.
    pub incoming_request_ttl: Duration,
    /// The longest we spend deriving and sending a response.
    pub incoming_request_timeout: Duration,
    /// The longest we spend validating a response.
    pub incoming_response_timeout: Duration,
    /// How many request messages go out at a time for one request.
    pub request_batch_size: usize,
    /// How long to wait between batches of request messages.
    pub request_batch_interval: Duration,
    /// The most incoming requests processed at once, over all keys.
    pub max_incoming_requests: usize,
    /// The most incoming requests processed at once for one key.
    pub max_incoming_requests_per_key: usize,
    /// The most incoming responses validated at once.
    pub max_incoming_responses: usize,
}

/// Whether a request that failed with `e` is made again by an indefinite request: only
/// a timeout is retried (with a freshly signed message).
pub fn should_retry(e: &RequestError) -> (r: bool)
    ensures
        r <==> *e == RequestError::Timeout,
{
    match e {
        RequestError::Timeout => true,
        _ => false,
    }
}

/// The batches in which a batched request goes out to `num_recipients` recipients:
/// consecutive index ranges `[start, end)` of `batch_size` recipients, the last one
/// possibly shorter.
pub fn recipient_batches(num_recipients: usize, batch_size: usize) -> (r: Vec<(usize, usize)>)
    requires
        batch_size > 0,
    ensures
        num_recipients == 0 <==> r@.len() == 0,
        r@.len() > 0 ==> r@[0].0 == 0 && r@.last().1 == num_recipients,
        forall|i: int| 0 <= i < r@.len() - 1 ==> #[trigger] r@[i].1 == r@[i + 1].0,
        forall|i: int|
            0 <= i < r@.len() ==> #[trigger] r@[i].0 < r@[i].1 && r@[i].1 - r@[i].0 <= batch_size,
        forall|i: int| 0 <= i < r@.len() - 1 ==> #[trigger] r@[i].1 - r@[i].0 == batch_size,
{
    let mut r: Vec<(usize, usize)> = Vec::new();
    let mut start: usize = 0;
    while start < num_recipients
        invariant
            start <= num_recipients,
            batch_size > 0,
            r@.len() == 0 <==> start == 0,
            r@.len() > 0 ==> r@[0].0 == 0 && r@.last().1 == start,
            forall|i: int| 0 <= i < r@.len() - 1 ==> #[trigger] r@[i].1 == r@[i + 1].0,
            forall|i: int|
                0 <= i < r@.len() ==> #[trigger] r@[i].0 < r@[i].1 && r@[i].1 - r@[i].0 <= batch_size,
            forall|i: int| 0 <= i < r@.len() - 1 ==> #[trigger] r@[i].1 - r@[i].0 == batch_size,
            r@.len() > 0 ==> r@.last().1 - r@.last().0 == batch_size || r@.last().1 == num_recipients,
        decreases num_recipients - start,
    {
        let end = if num_recipients - start > batch_size { start + batch_size } else { num_recipients };
        let ghost prev = r@;
        r.push((start, end));
        proof {
            assert forall|i: int| 0 <= i < r@.len() - 1 implies #[trigger] r@[i].1 == r@[i + 1].0 by {
                if i < prev.len() - 1 {
                    assert(r@[i] == prev[i] && r@[i + 1] == prev[i + 1]);
                } else {
                    assert(r@[i] == prev.last());
                }
            }
            assert forall|i: int| 0 <= i < r@.len() - 1 implies #[trigger] r@[i].1 - r@[i].0 == batch_size by {
                if i < prev.len() - 1 {
                    assert(r@[i] == prev[i]);
                } else {
                    assert(r@[i] == prev.last());
                }
            }
        }
        start = end;
    }
    r
}

/// How far a request has got.
#[derive(Debug, Clone, Copy, PartialEq, Eq, Structural)]
pub enum RequestPhase {
    /// Nothing done yet
    Start,
    /// The request's hash is known
    Hashed,
    /// The request is registered under its hash (joining an identical one in flight)
    Registered,
    /// The request message is serialized
    Serialized,
    /// The recipients expected to answer a batched request are known
    RespondersKnown,
    /// The request went out (or its batches are being sent)
    Sent,
}

/// What to do next for a request.
#[derive(Debug, Clone, Copy, PartialEq, Eq, Structural)]
pub enum RequestAction {
    /// Hash the request's bytes
    Hash,
    /// Register the request under its hash, or join the one already registered
    Register,
    /// Serialize the request message
    Serialize,
    /// Send the message to every participant at once
    SendBroadcast,
    /// Ask which participants are expected to answer
    FetchResponders,
    /// Send the message to the (shuffled) responders in batches, until the deadline
    SendBatches,
    /// Wait for a response on the registered request's channel
    AwaitResponse,
}

/// The order of a request's steps: hash, register, serialize; then a broadcast request
/// is sent to all at once, while a batched one first learns its responders and is then
/// sent in batches; then the response is awaited.
pub fn next_request_action(request_type: RequestType, phase: RequestPhase) -> (r: RequestAction)
    ensures
        r == match phase {
            RequestPhase::Start => RequestAction::Hash,
            RequestPhase::Hashed => RequestAction::Register,
            RequestPhase::Registered => RequestAction::Serialize,
            RequestPhase::Serialized => if request_type == RequestType::Broadcast {
                RequestAction::SendBroadcast
            } else {
                RequestAction::FetchResponders
            },
            RequestPhase::RespondersKnown => RequestAction::SendBatches,
            RequestPhase::Sent => RequestAction::AwaitResponse,
        },
{
    match phase {
        RequestPhase::Start => RequestAction::Hash,
        RequestPhase::Hashed => RequestAction::Register,
        RequestPhase::Registered => RequestAction::Serialize,
        RequestPhase::Serialized => match request_type {
            RequestType::Broadcast => RequestAction::SendBroadcast,
            RequestType::Batched => RequestAction::FetchResponders,
        },
        RequestPhase::RespondersKnown => RequestAction::SendBatches,
        RequestPhase::Sent => RequestAction::AwaitResponse,
    }
}

/// The phase a request reaches when `action` succeeds.
pub fn after_request_action(action: RequestAction) -> (r: Option<RequestPhase>)
    ensures
        r == match action {
            RequestAction::Hash => Some(RequestPhase::Hashed),
            RequestAction::Register => Some(RequestPhase::Registered),
            RequestAction::Serialize => Some(RequestPhase::Serialized),
            RequestAction::SendBroadcast => Some(RequestPhase::Sent),
            RequestAction::FetchResponders => Some(RequestPhase::RespondersKnown),
            RequestAction::SendBatches => Some(RequestPhase::Sent),
            RequestAction::AwaitResponse => None::<RequestPhase>,
        },
{
    match action {
        RequestAction::Hash => Some(RequestPhase::Hashed),
        RequestAction::Register => Some(RequestPhase::Registered),
        RequestAction::Serialize => Some(RequestPhase::Serialized),
        RequestAction::SendBroadcast => Some(RequestPhase::Sent),
        RequestAction::FetchResponders => Some(RequestPhase::RespondersKnown),
        RequestAction::SendBatches => Some(RequestPhase::Sent),
        RequestAction::AwaitResponse => None,
    }
}

/// A step of a request that failed, with what the failing call said.
#[derive(Debug, Clone, PartialEq, Eq)]
pub enum RequestFailure {
    /// The request or its message could not be serialized
    Serialize(String),
    /// The broadcast could not be sent
    Broadcast(String),
    /// The expected responders could not be found
    Responders(String),
    /// The response channel closed
    ChannelClosed,
    /// No response came before the deadline
    Deadline,
    /// The response was not of the expected type
    Downcast(String),
}

/// `prefix` followed by `m`.
fn prefixed(prefix: &str, m: &str) -> (r: String)
    ensures
        r@ == prefix@ + m@,
{
    let mut s = prefix.to_string();
    s.append(m);
    s
}

/// The error a request ends with when a step fails: a request that cannot be
/// serialized or has no known responders is invalid; missing the deadline is a timeout;
/// anything else is another error.
pub fn request_error(failure: RequestFailure) -> (r: RequestError)
    ensures
        match failure {
            RequestFailure::Serialize(m) => r matches RequestError::InvalidRequest(s) && s@
                == "failed to serialize request message: "@ + m@,
            RequestFailure::Responders(m) => r matches RequestError::InvalidRequest(s) && s@
                == "failed to get expected responders for request: "@ + m@,
            RequestFailure::Broadcast(m) => r matches RequestError::Other(s) && s@
                == "failed to send broadcast message: "@ + m@,
            RequestFailure::ChannelClosed => r matches RequestError::Other(s) && s@
                == "channel was closed"@,
            RequestFailure::Deadline => r == RequestError::Timeout,
            RequestFailure::Downcast(m) => r matches RequestError::Other(s) && s@
                == "failed to downcast response to expected type: "@ + m@,
        },
{
    match failure {
        RequestFailure::Serialize(m) => RequestError::InvalidRequest(
            prefixed("failed to serialize request message: ", m.as_str()),
        ),
        RequestFailure::Responders(m) => RequestError::InvalidRequest(
            prefixed("failed to get expected responders for request: ", m.as_str()),
        ),
        RequestFailure::Broadcast(m) => RequestError::Other(
            prefixed("failed to send broadcast message: ", m.as_str()),
        ),
        RequestFailure::ChannelClosed => RequestError::Other(String::from_str("channel was closed")),
        RequestFailure::Deadline => RequestError::Timeout,
        RequestFailure::Downcast(m) => RequestError::Other(
            prefixed("failed to downcast response to expected type: ", m.as_str()),
        ),
    }
}

/// The next move of an indefinite request.
#[derive(Debug, PartialEq, Eq)]
pub enum IndefiniteStep<O> {
    /// Make one request with the freshly signed message
    MakeRequest,
    /// The request timed out: sign a fresh message and try again
    Retry,
    /// The indefinite request ends with this
    Finish(Result<O, RequestError>),
}

/// After signing a fresh request message: a message that cannot be signed ends the
/// indefinite request as an invalid request, before any request is made.
pub fn after_signing<O>(signed: Result<(), String>) -> (r: IndefiniteStep<O>)
    ensures
        signed is Ok ==> r == IndefiniteStep::<O>::MakeRequest,
        signed matches Err(m) ==> (r matches IndefiniteStep::Finish(Err(RequestError::InvalidRequest(s)))
            && s@ == "failed to sign request message: "@ + m@),
{
    match signed {
        Ok(()) => IndefiniteStep::MakeRequest,
        Err(m) => IndefiniteStep::Finish(
            Err(RequestError::InvalidRequest(prefixed("failed to sign request message: ", m.as_str()))),
        ),
    }
}

/// After one request: a timeout is retried; any other outcome ends the indefinite
/// request with it, so an indefinite request never ends in a timeout.
pub fn after_attempt<O>(outcome: Result<O, RequestError>) -> (r: IndefiniteStep<O>)
    ensures
        outcome == Err::<O, RequestError>(RequestError::Timeout) ==> r == IndefiniteStep::<O>::Retry,
        outcome != Err::<O, RequestError>(RequestError::Timeout) ==> r == IndefiniteStep::Finish(
            outcome,
        ),
        r matches IndefiniteStep::Finish(x) ==> x != Err::<O, RequestError>(RequestError::Timeout),
{
    match outcome {
        Err(RequestError::Timeout) => IndefiniteStep::Retry,
        other => IndefiniteStep::Finish(other),
    }
}


/// What one attempt of an indefinite request came to: the fresh request message could
/// not be signed (no request is made then), or a request was made and ended thus.
#[derive(Debug, PartialEq, Eq)]
pub enum AttemptRecord<O> {
    SigningFailed(String),
    Answered(Result<O, RequestError>),
}

/// Whether an indefinite request ends at this attempt: at a signing failure, or at a
/// request that did not time out.
pub open spec fn ends_indefinite<O>(a: AttemptRecord<O>) -> bool {
    match a {
        AttemptRecord::SigningFailed(_) => true,
        AttemptRecord::Answered(x) => x != Err::<O, RequestError>(RequestError::Timeout),
    }
}

/// The first attempt, from `i` on, at which an indefinite request ends.
pub open spec fn first_end<O>(attempts: Seq<AttemptRecord<O>>, i: int) -> Option<int>
    decreases attempts.len() - i,
{
    if i < 0 || i >= attempts.len() {
        None
    } else if ends_indefinite(attempts[i]) {
        Some(i)
    } else {
        first_end(attempts, i + 1)
    }
}

/// How an indefinite request goes over a run of attempts, and how many requests it
/// makes: it ends at the first attempt that fails to sign (as an invalid request, with
/// no request made for that attempt) or whose request does not time out (with that
/// request's outcome); every attempt before it timed out. It never ends in a timeout;
/// when every attempt timed out, it has not ended (`None`) and made one request each.
pub fn indefinite_outcome<O>(attempts: Vec<AttemptRecord<O>>) -> (r: (
    Option<Result<O, RequestError>>,
    usize,
))
    ensures
        r.0 is None <==> first_end(attempts@, 0) is None,
        r.0 matches Some(x) ==> x != Err::<O, RequestError>(RequestError::Timeout),
        first_end(attempts@, 0) is None ==> r.1 == attempts@.len(),
        first_end(attempts@, 0) matches Some(k) ==> {
            &&& forall|j: int| 0 <= j < k ==> #[trigger] attempts@[j]
                == AttemptRecord::<O>::Answered(Err(RequestError::Timeout))
            &&& match attempts@[k] {
                AttemptRecord::SigningFailed(m) => {
                    &&& r.0 matches Some(Err(RequestError::InvalidRequest(s)))
                    &&& s@ == "failed to sign request message: "@ + m@
                    &&& r.1 == k
                },
                AttemptRecord::Answered(x) => r.0 == Some(x) && r.1 == k + 1,
            }
        },
{
    let ghost all = attempts@;
    let mut rest = attempts;
    let total: usize = rest.len();
    let mut made: usize = 0;
    while rest.len() > 0
        invariant
            all == attempts@,
            all.len() == total,
            0 <= made <= all.len(),
            rest@ == all.subrange(made as int, all.len() as int),
            first_end(all, 0) == first_end(all, made as int),
            forall|j: int| 0 <= j < made ==> #[trigger] all[j]
                == AttemptRecord::<O>::Answered(Err(RequestError::Timeout)),
        decreases rest@.len(),
    {
        let a = rest.remove(0);
        assert(a == all[made as int]);
        match a {
            AttemptRecord::SigningFailed(m) => {
                assert(first_end(all, made as int) == Some(made as int));
                match after_signing::<O>(Err(m)) {
                    IndefiniteStep::Finish(x) => {
                        return (Some(x), made);
                    },
                    _ => {
                        assert(false);
                        return (None, made);
                    },
                }
            },
            AttemptRecord::Answered(x) => {
                let signed = after_signing::<O>(Ok(()));
                assert(signed == IndefiniteStep::<O>::MakeRequest);
                let ghost gx = x;
                match after_attempt(x) {
                    IndefiniteStep::Finish(y) => {
                        assert(first_end(all, made as int) == Some(made as int));
                        return (Some(y), made + 1);
                    },
                    _ => {
                        assert(gx == Err::<O, RequestError>(RequestError::Timeout));
                        proof {
                            assert(first_end(all, made as int) == first_end(all, made + 1));
                        }
                        made = made + 1;
                        proof {
                            assert(rest@ =~= all.subrange(made as int, all.len() as int));
                        }
                    },
                }
            },
        }
    }
    assert(made == all.len());
    (None, made)
}

} // verus!
