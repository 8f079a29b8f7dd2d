use vstd::prelude::*;

verus! {

/// The gas price is above the configured maximum: no state update is sent.
#[derive(Debug, Clone, Copy, PartialEq, Eq, Structural)]
pub struct GasPriceTooHigh {
    pub current: u128,
    pub max: u128,
}

/// Send a light client update only when the gas price is sane: at most the configured
/// maximum, if one is configured.
pub fn check_gas_price(max_gas_price: Option<u128>, current: u128) -> (r: Result<(), GasPriceTooHigh>)
    ensures
        match max_gas_price {
            None => r is Ok,
            Some(m) => if current > m {
                r == Err::<(), GasPriceTooHigh>(GasPriceTooHigh { current, max: m })
            } else {
                r is Ok
            },
        },
{
    match max_gas_price {
        None => Ok(()),
        Some(m) => {
            if current > m {
                Err(GasPriceTooHigh { current, max: m })
            } else {
                Ok(())
            }
        },
    }
}

/// The contract needs a new state only when the latest finalized block is higher than
/// the one it holds.
pub fn needs_update(contract_block_height: u64, latest_block_height: u64) -> (r: bool)
    ensures
        r <==> contract_block_height < latest_block_height,
{
    contract_block_height < latest_block_height
}

} // verus!
