use committable::{Commitment, Committable, RawCommitmentBuilder};
use espresso_core::transaction::{NamespaceId, NamespaceIdTooLarge, Transaction};

struct Reference {
    namespace: u64,
    payload: Vec<u8>,
}

impl Committable for Reference {
    fn commit(&self) -> Commitment<Self> {
        RawCommitmentBuilder::new("Transaction")
            .u64_field("namespace", self.namespace)
            .var_size_bytes(&self.payload)
            .finalize()
    }
}

#[test]
fn transaction_accessors() {
    let tx = Transaction::new(NamespaceId(7), vec![1, 2, 3]);
    assert_eq!(tx.namespace(), NamespaceId(7));
    assert_eq!(tx.namespace_id(), NamespaceId(7));
    assert_eq!(tx.payload(), &[1u8, 2, 3][..]);
    assert_eq!(tx.payload_size(), 3);
    assert_eq!(tx.clone().into_payload(), vec![1, 2, 3]);
}

#[test]
fn transaction_sizes() {
    let tx = Transaction::new(NamespaceId(1), vec![0u8; 10]);
    assert_eq!(tx.minimum_block_size(), 18);
    assert_eq!(tx.size_in_block(true), 18);
    assert_eq!(tx.size_in_block(false), 14);
    let empty = Transaction::new(NamespaceId(1), vec![]);
    assert_eq!(empty.size_in_block(true), 8);
    assert_eq!(empty.size_in_block(false), 4);
}

#[test]
fn transaction_commitment_matches_committable() {
    for (ns, payload) in [(0u64, vec![]), (42, vec![9u8; 33]), (u32::MAX as u64, b"hello".to_vec())] {
        let tx = Transaction::new(NamespaceId(ns), payload.clone());
        let expected: [u8; 32] = Reference { namespace: ns, payload }.commit().into();
        assert_eq!(tx.commit(), expected);
    }
}

#[test]
fn transaction_commitment_depends_on_fields() {
    let a = Transaction::new(NamespaceId(1), vec![1]);
    let b = Transaction::new(NamespaceId(2), vec![1]);
    let c = Transaction::new(NamespaceId(1), vec![2]);
    assert_ne!(a.commit(), b.commit());
    assert_ne!(a.commit(), c.commit());
}

#[test]
fn transaction_commit_preimage_layout() {
    let tx = Transaction::new(NamespaceId(0x0102), vec![0xAA]);
    let mut expected = b"Transaction".to_vec();
    expected.extend_from_slice(&[0xC0, 0x7F]);
    expected.extend_from_slice(b"namespace");
    expected.extend_from_slice(&[0xC0, 0x7F]);
    expected.extend_from_slice(&0x0102u64.to_le_bytes());
    expected.extend_from_slice(&1u64.to_le_bytes());
    expected.push(0xAA);
    assert_eq!(tx.commit_preimage(), expected);
}

#[test]
fn transaction_tag() {
    assert_eq!(Transaction::tag(), "TX");
}

#[test]
fn namespace_id_conversions() {
    assert_eq!(NamespaceId::from(5u32), NamespaceId(5));
    assert_eq!(u32::from(NamespaceId(5)), 5);
    assert_eq!(u32::from(NamespaceId((1u64 << 32) + 3)), 3);
    assert_eq!(NamespaceId::from(-1i64), NamespaceId(u64::MAX));
    assert_eq!(i64::from(NamespaceId(u64::MAX)), -1);
    assert_eq!(i64::from(NamespaceId::from(123i64)), 123);
}

#[test]
fn namespace_id_range_check() {
    assert_eq!(NamespaceId::try_from_u64(0), Ok(NamespaceId(0)));
    assert_eq!(NamespaceId::try_from_u64(u32::MAX as u64), Ok(NamespaceId(u32::MAX as u64)));
    assert_eq!(
        NamespaceId::try_from_u64(u32::MAX as u64 + 1),
        Err(NamespaceIdTooLarge(u32::MAX as u64 + 1))
    );
}

#[test]
fn namespace_id_round_trips() {
    for v in [0u32, 1, 77, u32::MAX] {
        assert_eq!(u32::from(NamespaceId::from(v)), v);
    }
    for n in [0u64, 5, 1 << 40, u64::MAX] {
        assert_eq!(NamespaceId::from(i64::from(NamespaceId(n))), NamespaceId(n));
    }
}
