use espresso_core::outgoing::{request_hash, request_hash_of, OutgoingRequests};
use espresso_core::protocol::{RequestError, Serializable};

/// This test makes sure that when all references to an outgoing request are dropped, it is
/// removed from the outgoing requests map
#[test]
fn test_outgoing_request_drop() {
    // Create an outgoing requests map
    let mut outgoing_requests = OutgoingRequests::new();

    // Create an outgoing request and insert it into the map
    let request_hash = request_hash_of(&[1, 2, 3]);
    assert!(!outgoing_requests.join_or_create(request_hash));

    // Clone the outgoing request
    assert!(outgoing_requests.join_or_create(request_hash));

    // Drop the outgoing request
    outgoing_requests.drop_handle(request_hash);

    // Make sure nothing has been removed
    assert_eq!(outgoing_requests.len(), 1);

    // Drop the clone
    outgoing_requests.drop_handle(request_hash);

    // Make sure it has been removed
    assert_eq!(outgoing_requests.len(), 0);
}

#[test]
fn request_hash_is_blake3_of_the_bytes() {
    let expected: [u8; 32] = blake3::hash(&[1, 2, 3]).into();
    assert_eq!(request_hash_of(&[1, 2, 3]), expected);
    assert_ne!(request_hash_of(&[1, 2, 3]), request_hash_of(&[1, 2, 4]));
}

struct TestRequest(Vec<u8>);

impl Serializable for TestRequest {
    fn to_bytes(&self) -> Result<Vec<u8>, String> {
        if self.0.is_empty() {
            Err("empty".to_string())
        } else {
            Ok(self.0.clone())
        }
    }

    fn from_bytes(bytes: &[u8]) -> Result<Self, String> {
        Ok(TestRequest(bytes.to_vec()))
    }
}

#[test]
fn requests_are_identified_by_their_bytes() {
    assert_eq!(request_hash(&TestRequest(vec![1, 2, 3])), Ok(request_hash_of(&[1, 2, 3])));
    assert_eq!(
        request_hash(&TestRequest(vec![])),
        Err(RequestError::InvalidRequest(
            "failed to serialize request message: empty".to_string()
        ))
    );
}

#[test]
fn distinct_requests_are_tracked_apart() {
    let mut reqs = OutgoingRequests::new();
    let a = request_hash_of(b"a");
    let b = request_hash_of(b"b");
    assert!(!reqs.join_or_create(a));
    assert!(!reqs.join_or_create(b));
    assert_eq!(reqs.len(), 2);
    assert!(reqs.is_pending(&a) && reqs.is_pending(&b));
    reqs.drop_handle(a);
    assert!(!reqs.is_pending(&a));
    assert!(reqs.is_pending(&b));
    assert_eq!(reqs.len(), 1);
}
