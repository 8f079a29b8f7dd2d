use vstd::prelude::*;

verus! {

/// A builder's offer of a block header input: its signature over the fee (with the
/// payload's commitment and metadata) and its key.
#[derive(Clone, Debug, PartialEq, Eq)]
pub struct AvailableBlockHeaderInputV2<S, K> {
    pub fee_signature: S,
    pub sender: K,
}

/// The earlier form of the same offer, which also carries the payload's commitment and
/// a signature over it.
#[derive(Clone, Debug, PartialEq, Eq)]
pub struct AvailableBlockHeaderInputV2Legacy<C, S, K> {
    pub vid_commitment: C,
    pub fee_signature: S,
    pub message_signature: S,
    pub sender: K,
}

/// Either form of the offer.
#[derive(Clone, Debug, PartialEq, Eq)]
pub enum AvailableBlockHeaderInputV2Either<C, S, K> {
    Current(AvailableBlockHeaderInputV2<S, K>),
    Legacy(AvailableBlockHeaderInputV2Legacy<C, S, K>),
}

impl<C, S: Clone, K: Clone> AvailableBlockHeaderInputV2Either<C, S, K> {
    /// The offer in its current form, when its signatures hold.
    ///
    /// `fee_signature_valid` is whether the sender's fee signature checks against the
    /// offered fee and the metadata; `legacy_signatures_valid` is whether an offer in the
    /// earlier form checks in that form (its signature over the commitment, and its fee
    /// signature with the commitment). An offer in the earlier form is accepted when
    /// either holds, and is then turned into the current form; one in the current form
    /// only on its fee signature.
    pub fn validate_signature_and_get_input(
        &self,
        fee_signature_valid: bool,
        legacy_signatures_valid: bool,
    ) -> (r: Option<AvailableBlockHeaderInputV2<S, K>>)
        ensures
            match self {
                AvailableBlockHeaderInputV2Either::Current(current) => {
                    &&& fee_signature_valid <==> r is Some
                    &&& r matches Some(v) ==> cloned(current.fee_signature, v.fee_signature)
                        && cloned(current.sender, v.sender)
                },
                AvailableBlockHeaderInputV2Either::Legacy(legacy) => {
                    &&& (fee_signature_valid || legacy_signatures_valid) <==> r is Some
                    &&& r matches Some(v) ==> cloned(legacy.fee_signature, v.fee_signature)
                        && cloned(legacy.sender, v.sender)
                },
            },
    {
        match self {
            AvailableBlockHeaderInputV2Either::Legacy(legacy) => {
                if fee_signature_valid || legacy_signatures_valid {
                    Some(
                        AvailableBlockHeaderInputV2 {
                            fee_signature: legacy.fee_signature.clone(),
                            sender: legacy.sender.clone(),
                        },
                    )
                } else {
                    None
                }
            },
            AvailableBlockHeaderInputV2Either::Current(current) => {
                if fee_signature_valid {
                    Some(
                        AvailableBlockHeaderInputV2 {
                            fee_signature: current.fee_signature.clone(),
                            sender: current.sender.clone(),
                        },
                    )
                } else {
                    None
                }
            },
        }
    }
}

} // verus!
