use espresso_core::named_semaphore::NamedSemaphore;
use espresso_core::outgoing::{request_hash_of, OutgoingRequests};
use espresso_core::protocol::{
    after_attempt, after_signing, indefinite_outcome, AttemptRecord, IndefiniteStep, RequestError,
    Serializable,
};
use espresso_core::serving::{
    admit_response, deliver_response, finish_request, handle_request, handle_response,
    response_to_send, ResponseMessage,
};

struct Req(Vec<u8>);

impl Serializable for Req {
    fn to_bytes(&self) -> Result<Vec<u8>, String> {
        if self.0.is_empty() { Err("empty".to_string()) } else { Ok(self.0.clone()) }
    }
    fn from_bytes(bytes: &[u8]) -> Result<Self, String> {
        Ok(Req(bytes.to_vec()))
    }
}

#[test]
fn responses_carry_the_request_hash_after_validation() {
    let req = Req(vec![1, 2, 3]);
    assert_eq!(
        response_to_send(&req, 7u8, true, Some("data")),
        Some((7u8, ResponseMessage { request_hash: request_hash_of(&[1, 2, 3]), response: "data" }))
    );
    assert_eq!(response_to_send(&req, 7u8, false, Some("data")), None);
    assert_eq!(response_to_send::<Req, u8, &str>(&req, 7u8, true, None), None);
    assert_eq!(response_to_send(&Req(vec![]), 7u8, true, Some("data")), None);
}

#[test]
fn responses_need_a_pending_request_and_a_permit() {
    let mut outgoing = OutgoingRequests::new();
    let h = request_hash_of(b"x");
    let mut permits = NamedSemaphore::new(1, None);
    assert!(admit_response(&outgoing, &mut permits, &h).is_none());
    assert_eq!(permits.total_num_permits_held(), 0);
    outgoing.join_or_create(h);
    let p = admit_response(&outgoing, &mut permits, &h).unwrap();
    assert!(admit_response(&outgoing, &mut permits, &h).is_none());
    permits.release(p);
    assert!(admit_response(&outgoing, &mut permits, &h).is_some());
    assert_eq!(deliver_response::<u8, String>(Ok(4)), Some(4));
    assert_eq!(deliver_response::<u8, String>(Err("bad".to_string())), None);
}

#[test]
fn indefinite_requests_retry_only_timeouts() {
    assert_eq!(after_signing::<u8>(Ok(())), IndefiniteStep::MakeRequest);
    assert_eq!(
        after_signing::<u8>(Err("no key".to_string())),
        IndefiniteStep::Finish(Err(RequestError::InvalidRequest(
            "failed to sign request message: no key".to_string()
        )))
    );
    assert_eq!(after_attempt::<u8>(Err(RequestError::Timeout)), IndefiniteStep::Retry);
    assert_eq!(after_attempt::<u8>(Ok(3)), IndefiniteStep::Finish(Ok(3)));
    assert_eq!(
        after_attempt::<u8>(Err(RequestError::Other("x".to_string()))),
        IndefiniteStep::Finish(Err(RequestError::Other("x".to_string())))
    );
}

#[test]
fn indefinite_request_ends_at_the_first_non_timeout() {
    let timeout = || AttemptRecord::<u8>::Answered(Err(RequestError::Timeout));
    assert_eq!(
        indefinite_outcome(vec![timeout(), timeout(), AttemptRecord::Answered(Ok(9)), timeout()]),
        (Some(Ok(9)), 3)
    );
    assert_eq!(
        indefinite_outcome(vec![
            timeout(),
            AttemptRecord::Answered(Err(RequestError::Other("closed".to_string()))),
            AttemptRecord::Answered(Ok(1)),
        ]),
        (Some(Err(RequestError::Other("closed".to_string()))), 2)
    );
    assert_eq!(indefinite_outcome(vec![timeout(), timeout()]), (None, 2));
    assert_eq!(indefinite_outcome::<u8>(vec![]), (None, 0));
}

#[test]
fn signing_failure_ends_before_any_request() {
    assert_eq!(
        indefinite_outcome::<u8>(vec![
            AttemptRecord::SigningFailed("no key".to_string()),
            AttemptRecord::Answered(Ok(1)),
        ]),
        (
            Some(Err(RequestError::InvalidRequest(
                "failed to sign request message: no key".to_string()
            ))),
            0
        )
    );
}

#[test]
fn requests_without_a_permit_get_no_response() {
    let req = Req(vec![5]);
    let mut permits = NamedSemaphore::new(1, Some(1));
    let held = permits.try_acquire(3u8).unwrap();
    assert_eq!(handle_request(&mut permits, 4u8, &req, true, Some("data")), None);
    assert_eq!(permits.total_num_permits_held(), 1);
    let reply = finish_request(&mut permits, held, &req, true, Some("old"));
    assert_eq!(
        reply,
        Some((3u8, ResponseMessage { request_hash: request_hash_of(&[5]), response: "old" }))
    );
    assert_eq!(permits.total_num_permits_held(), 0);
    assert_eq!(
        handle_request(&mut permits, 4u8, &req, true, Some("data")),
        Some((4u8, ResponseMessage { request_hash: request_hash_of(&[5]), response: "data" }))
    );
    assert_eq!(handle_request(&mut permits, 4u8, &req, false, Some("data")), None);
    assert_eq!(permits.total_num_permits_held(), 0);
}

#[test]
fn only_validated_responses_reach_waiters() {
    let mut outgoing = OutgoingRequests::new();
    let h = request_hash_of(b"y");
    let mut permits = NamedSemaphore::new(1, None);
    assert_eq!(handle_response::<u8, String>(&outgoing, &mut permits, &h, Ok(1)), None);
    outgoing.join_or_create(h);
    assert_eq!(handle_response::<u8, String>(&outgoing, &mut permits, &h, Ok(1)), Some(1));
    assert_eq!(
        handle_response::<u8, String>(&outgoing, &mut permits, &h, Err("bad".to_string())),
        None
    );
    let busy = admit_response(&outgoing, &mut permits, &h).unwrap();
    assert_eq!(handle_response::<u8, String>(&outgoing, &mut permits, &h, Ok(2)), None);
    permits.release(busy);
    assert_eq!(permits.total_num_permits_held(), 0);
}
