use crate::encoding::settlement_bytes;
use crate::order::{match_order, match_orders, MatchError, Order, ProposedSettlement};
use crate::signer::{keccak_of, settlement_digest};
use vstd::prelude::*;

verus! {

/// A settlement ready for the operator to sign, with the digest that the signature covers.
pub struct PreparedResponse {
    pub settlement: ProposedSettlement,
    pub digest: [u8; 32],
}

/// An operator's work on a new task: match the task's order against its book and digest the
/// proposed settlement for signing.
pub fn order_eigen(order: &Order, orderbook: &Vec<Order>, task_index: u32) -> (r: Result<
    PreparedResponse,
    MatchError,
>)
    ensures
        match match_orders(task_index, *order, orderbook@) {
            Err(e) => r == Err::<PreparedResponse, MatchError>(e),
            Ok(s) => r matches Ok(prepared) && prepared.settlement == s && prepared.digest@
                == keccak_of(settlement_bytes(s)),
        },
{
    let settlement = match_order(task_index, order, orderbook)?;
    let digest = settlement_digest(&settlement);
    Ok(PreparedResponse { settlement, digest })
}

} // verus!
