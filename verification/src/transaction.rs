use sha3::Digest;
use vstd::prelude::*;

verus! {

/// Bytes taken by one entry of a namespace's transaction table (a transaction's end
/// offset).
pub const TX_TABLE_ENTRY_BYTE_LEN: usize = 4;

/// Bytes taken by the header of a namespace's transaction table (the number of
/// transactions).
pub const TX_TABLE_HEADER_BYTE_LEN: usize = 4;

/// Identifier of a namespace. Valid identifiers fit in 32 bits.
#[derive(Clone, Copy, Debug, PartialEq, Eq, Hash, Structural)]
pub struct NamespaceId(pub u64);

/// A namespace identifier that does not fit in 32 bits.
#[derive(Clone, Copy, Debug, PartialEq, Eq, Structural)]
pub struct NamespaceIdTooLarge(pub u64);

impl NamespaceId {
    /// Accept a raw identifier read from the wire: at most `u32::MAX`.
    pub fn try_from_u64(ns_id: u64) -> (r: Result<NamespaceId, NamespaceIdTooLarge>)
        ensures
            ns_id <= u32::MAX ==> r == Ok::<NamespaceId, NamespaceIdTooLarge>(NamespaceId(ns_id)),
            ns_id > u32::MAX ==> r == Err::<NamespaceId, NamespaceIdTooLarge>(NamespaceIdTooLarge(ns_id)),
    {
        if ns_id > u32::MAX as u64 {
            Err(NamespaceIdTooLarge(ns_id))
        } else {
            Ok(NamespaceId(ns_id))
        }
    }
}

impl From<u32> for NamespaceId {
    fn from(value: u32) -> (r: Self) {
        Self(value as u64)
    }
}

impl vstd::std_specs::convert::FromSpecImpl<u32> for NamespaceId {
    open spec fn obeys_from_spec() -> bool {
        true
    }

    open spec fn from_spec(value: u32) -> Self {
        NamespaceId(value as u64)
    }
}

impl From<NamespaceId> for u32 {
    /// Keeps the low 32 bits of the identifier.
    fn from(value: NamespaceId) -> (r: Self) {
        value.0 as u32
    }
}

impl vstd::std_specs::convert::FromSpecImpl<NamespaceId> for u32 {
    open spec fn obeys_from_spec() -> bool {
        true
    }

    open spec fn from_spec(value: NamespaceId) -> Self {
        value.0 as u32
    }
}

impl From<i64> for NamespaceId {
    /// Reinterprets the two's-complement bits of `value`.
    fn from(value: i64) -> (r: Self) {
        Self(value as u64)
    }
}

impl vstd::std_specs::convert::FromSpecImpl<i64> for NamespaceId {
    open spec fn obeys_from_spec() -> bool {
        true
    }

    open spec fn from_spec(value: i64) -> Self {
        NamespaceId(value as u64)
    }
}

impl From<NamespaceId> for i64 {
    /// Reinterprets the bits of the identifier as a signed integer.
    fn from(value: NamespaceId) -> (r: Self) {
        value.0 as i64
    }
}

impl vstd::std_specs::convert::FromSpecImpl<NamespaceId> for i64 {
    open spec fn obeys_from_spec() -> bool {
        true
    }

    open spec fn from_spec(value: NamespaceId) -> Self {
        value.0 as i64
    }
}

/// Turning a 32-bit value into a namespace identifier and back gives the value again.
pub proof fn lemma_u32_round_trip(v: u32)
    ensures
        <u32 as vstd::std_specs::convert::FromSpec<NamespaceId>>::from_spec(
            <NamespaceId as vstd::std_specs::convert::FromSpec<u32>>::from_spec(v),
        ) == v,
{
    assert((v as u64) as u32 == v) by (bit_vector);
}

/// Turning a namespace identifier into a signed integer and back gives the identifier
/// again, whatever its value.
pub proof fn lemma_i64_round_trip(n: NamespaceId)
    ensures
        <NamespaceId as vstd::std_specs::convert::FromSpec<i64>>::from_spec(
            <i64 as vstd::std_specs::convert::FromSpec<NamespaceId>>::from_spec(n),
        ) == n,
{
    let x = n.0;
    assert((x as i64) as u64 == x) by (bit_vector);
}

/// The fewest bytes a block holding a transaction with a payload of `payload_len` bytes
/// takes: the payload, its transaction table entry and the table's header.
pub open spec fn minimum_block_size_spec(payload_len: nat) -> nat {
    payload_len + TX_TABLE_ENTRY_BYTE_LEN as nat + TX_TABLE_HEADER_BYTE_LEN as nat
}

/// The bytes such a transaction adds to a block: the table header counts only when the
/// namespace is new to the block.
pub open spec fn size_in_block_spec(payload_len: nat, new_ns: bool) -> nat {
    if new_ns {
        minimum_block_size_spec(payload_len)
    } else {
        payload_len + TX_TABLE_ENTRY_BYTE_LEN as nat
    }
}

/// A transaction in a new namespace takes its minimum block size, exactly the table
/// header more than in a namespace already in the block.
pub proof fn lemma_size_in_block(t: Transaction)
    ensures
        size_in_block_spec(t.payload_spec().len(), true) == minimum_block_size_spec(
            t.payload_spec().len(),
        ),
        size_in_block_spec(t.payload_spec().len(), true) == size_in_block_spec(
            t.payload_spec().len(),
            false,
        ) + TX_TABLE_HEADER_BYTE_LEN,
        size_in_block_spec(t.payload_spec().len(), true) - size_in_block_spec(
            t.payload_spec().len(),
            false,
        ) == TX_TABLE_HEADER_BYTE_LEN,
{
}

/// A transaction: an opaque payload addressed to one namespace.
#[derive(Clone, Debug, PartialEq, Eq, Hash)]
pub struct Transaction {
    namespace: NamespaceId,
    payload: Vec<u8>,
}

/// The name of the Keccak-256 digest of a byte string.
pub uninterp spec fn keccak256_digest(data: Seq<u8>) -> Seq<u8>;

/// Keccak-256 of `data`, computed by the `sha3` crate.
///
/// Trusted: the digest is `sha3::Keccak256` applied to exactly the bytes of `data`; its
/// value is only named, never stated.
#[verifier::external_body]
fn keccak256(data: &[u8]) -> (r: [u8; 32])
    ensures
        r@ == keccak256_digest(data@),
{
    let mut hasher = sha3::Keccak256::new();
    hasher.update(data);
    hasher.finalize().into()
}

/// The two bytes that terminate every string written into a commitment; they never
/// occur in valid UTF-8, so a string cannot run into the field after it.
pub open spec fn commit_separator() -> Seq<u8> {
    seq![0xC0u8, 0x7Fu8]
}

/// The `n` low bytes of `v`, least significant first.
pub open spec fn le_bytes(v: nat, n: nat) -> Seq<u8>
    decreases n,
{
    if n == 0 {
        Seq::empty()
    } else {
        seq![(v % 256) as u8] + le_bytes(v / 256, (n - 1) as nat)
    }
}

/// The bytes hashed to commit to a transaction: the type's tag, then the namespace as a
/// named 64-bit field, then the payload prefixed with its 64-bit length.
pub open spec fn transaction_commit_preimage(namespace: u64, payload: Seq<u8>) -> Seq<u8> {
    "Transaction"@.map_values(|c: char| c as u8) + commit_separator()
        + "namespace"@.map_values(|c: char| c as u8) + commit_separator()
        + le_bytes(namespace as nat, 8) + le_bytes(payload.len(), 8) + payload
}

/// Append the 8 little-endian bytes of `v` to `out`.
fn push_u64_le(out: &mut Vec<u8>, v: u64)
    ensures
        final(out)@ == old(out)@ + le_bytes(v as nat, 8),
{
    let mut x: u64 = v;
    let mut i: usize = 0;
    let ghost start = out@;
    while i < 8
        invariant
            i <= 8,
            start + le_bytes(v as nat, 8) == out@ + le_bytes(x as nat, (8 - i) as nat),
        decreases 8 - i,
    {
        proof {
            let rest = le_bytes(x as nat, (8 - i) as nat);
            assert(rest == seq![(x % 256) as u8] + le_bytes((x / 256) as nat, (8 - i - 1) as nat));
            assert(out@.push((x % 256) as u8) + le_bytes((x / 256) as nat, (8 - i - 1) as nat)
                =~= out@ + rest);
        }
        out.push((x % 256) as u8);
        x = x / 256;
        i = i + 1;
    }
    proof {
        assert(le_bytes(x as nat, 0) =~= Seq::<u8>::empty());
        assert(out@ + le_bytes(x as nat, 0) =~= out@);
    }
}

/// Append an ASCII string followed by the commitment separator.
fn push_tag(out: &mut Vec<u8>, s: &str)
    requires
        vstd::string::is_ascii(s),
    ensures
        final(out)@ == old(out)@ + s@.map_values(|c: char| c as u8) + commit_separator(),
{
    let bytes = s.as_bytes();
    proof {
        broadcast use vstd::string::is_ascii_spec_bytes;
        assert(bytes@ =~= s@.map_values(|c: char| c as u8));
    }
    let mut i: usize = 0;
    let ghost start = out@;
    while i < bytes.len()
        invariant
            i <= bytes@.len(),
            out@ == start + bytes@.subrange(0, i as int),
        decreases bytes@.len() - i,
    {
        out.push(bytes[i]);
        proof {
            assert(bytes@.subrange(0, i + 1) =~= bytes@.subrange(0, i as int).push(bytes@[i as int]));
        }
        i = i + 1;
    }
    proof {
        assert(bytes@.subrange(0, bytes@.len() as int) =~= bytes@);
    }
    out.push(0xC0u8);
    out.push(0x7Fu8);
    proof {
        assert(out@ =~= start + s@.map_values(|c: char| c as u8) + commit_separator());
    }
}

impl Transaction {
    /// The namespace the transaction is addressed to.
    pub closed spec fn namespace_spec(&self) -> NamespaceId {
        self.namespace
    }

    /// The payload bytes.
    pub closed spec fn payload_spec(&self) -> Seq<u8> {
        self.payload@
    }

    pub fn new(namespace: NamespaceId, payload: Vec<u8>) -> (r: Self)
        ensures
            r.namespace_spec() == namespace,
            r.payload_spec() == payload@,
    {
        Self { namespace, payload }
    }

    pub fn namespace(&self) -> (r: NamespaceId)
        ensures
            r == self.namespace_spec(),
    {
        self.namespace
    }

    pub fn payload(&self) -> (r: &[u8])
        ensures
            r@ == self.payload_spec(),
    {
        self.payload.as_slice()
    }

    pub fn into_payload(self) -> (r: Vec<u8>)
        ensures
            r@ == self.payload_spec(),
    {
        self.payload
    }

    /// The namespace, as the block explorer reports it.
    pub fn namespace_id(&self) -> (r: NamespaceId)
        ensures
            r == self.namespace_spec(),
    {
        self.namespace
    }

    /// The payload length in bytes, as the block explorer reports it.
    pub fn payload_size(&self) -> (r: u64)
        requires
            self.payload_spec().len() <= u64::MAX,
        ensures
            r == self.payload_spec().len(),
    {
        self.payload.len() as u64
    }

    /// The fewest bytes a block holding this transaction can take: the payload, its
    /// entry in the namespace's transaction table and that table's header. The
    /// namespace table entry lives in the header, not the payload, and is not counted.
    pub fn minimum_block_size(&self) -> (r: u64)
        requires
            self.payload_spec().len() + TX_TABLE_ENTRY_BYTE_LEN + TX_TABLE_HEADER_BYTE_LEN <= u64::MAX,
        ensures
            r == minimum_block_size_spec(self.payload_spec().len()),
    {
        self.payload.len() as u64 + TX_TABLE_ENTRY_BYTE_LEN as u64 + TX_TABLE_HEADER_BYTE_LEN as u64
    }

    /// Bytes the transaction adds to a block: with `new_ns` its namespace is not yet in
    /// the block, so the transaction table header is counted too.
    pub fn size_in_block(&self, new_ns: bool) -> (r: u64)
        requires
            self.payload_spec().len() + TX_TABLE_ENTRY_BYTE_LEN + TX_TABLE_HEADER_BYTE_LEN <= u64::MAX,
        ensures
            r == size_in_block_spec(self.payload_spec().len(), new_ns),
            new_ns ==> r == minimum_block_size_spec(self.payload_spec().len()),
            new_ns ==> r == size_in_block_spec(self.payload_spec().len(), false)
                + TX_TABLE_HEADER_BYTE_LEN,
            !new_ns ==> r == size_in_block_spec(self.payload_spec().len(), true)
                - TX_TABLE_HEADER_BYTE_LEN,
    {
        if new_ns {
            self.minimum_block_size()
        } else {
            self.payload.len() as u64 + TX_TABLE_ENTRY_BYTE_LEN as u64
        }
    }

    /// The bytes that are hashed to commit to this transaction.
    pub fn commit_preimage(&self) -> (r: Vec<u8>)
        ensures
            r@ == transaction_commit_preimage(self.namespace_spec().0, self.payload_spec()),
    {
        let mut out: Vec<u8> = Vec::new();
        proof {
            reveal_strlit("Transaction");
            reveal_strlit("namespace");
            assert(vstd::string::is_ascii("Transaction"));
            assert(vstd::string::is_ascii("namespace"));
        }
        push_tag(&mut out, "Transaction");
        push_tag(&mut out, "namespace");
        push_u64_le(&mut out, self.namespace.0);
        push_u64_le(&mut out, self.payload.len() as u64);
        let mut i: usize = 0;
        let ghost start = out@;
        while i < self.payload.len()
            invariant
                i <= self.payload@.len(),
                out@ == start + self.payload@.subrange(0, i as int),
            decreases self.payload@.len() - i,
        {
            out.push(self.payload[i]);
            proof {
                assert(self.payload@.subrange(0, i + 1) =~= self.payload@.subrange(0, i as int).push(
                    self.payload@[i as int],
                ));
            }
            i = i + 1;
        }
        proof {
            assert(self.payload@.subrange(0, self.payload@.len() as int) =~= self.payload@);
            assert(out@ =~= transaction_commit_preimage(self.namespace.0, self.payload@));
        }
        out
    }

    /// A binding commitment to the transaction: the Keccak-256 digest of its preimage.
    pub fn commit(&self) -> (r: [u8; 32])
        ensures
            r@ == keccak256_digest(transaction_commit_preimage(self.namespace_spec().0, self.payload_spec())),
    {
        let bytes = self.commit_preimage();
        keccak256(bytes.as_slice())
    }

    /// The tag used when a transaction commitment is serialized.
    pub fn tag() -> (r: String)
        ensures
            r@ == "TX"@,
    {
        String::from_str("TX")
    }
}

} // verus!
