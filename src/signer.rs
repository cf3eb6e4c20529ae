use crate::encoding::{encode_settlement, settlement_bytes};
use crate::order::ProposedSettlement;
use vstd::prelude::*;

verus! {

/// The Keccak-256 digest of a byte string.
pub uninterp spec fn keccak_of(bytes: Seq<u8>) -> Seq<u8>;

/// `b` without its leading zero bytes.
pub open spec fn strip_leading_zeros(b: Seq<u8>) -> Seq<u8>
    decreases b.len(),
{
    if b.len() > 0 && b[0] == 0 {
        strip_leading_zeros(b.drop_first())
    } else {
        b
    }
}

/// The shortest big-endian form of the number that `b` holds big-endian: one zero byte for zero.
pub open spec fn shortest_be(b: Seq<u8>) -> Seq<u8> {
    let s = strip_leading_zeros(b);
    if s.len() == 0 {
        seq![0u8]
    } else {
        s
    }
}

/// Relies on alloy_primitives::keccak256 for the 32-byte Keccak-256 digest of the bytes.
#[verifier::external_body]
fn keccak(bytes: &[u8]) -> (r: [u8; 32])
    ensures
        r@ == keccak_of(bytes@),
{
    alloy_primitives::keccak256(bytes).0
}

/// Relies on num_bigint::BigUint::to_bytes_be (on the number that BigUint::from_bytes_be reads):
/// the number's big-endian bytes without leading zeros, a single zero byte for zero.
#[verifier::external_body]
fn shortest_big_endian(bytes: &[u8]) -> (r: Vec<u8>)
    ensures
        r@ == shortest_be(bytes@),
{
    num_bigint::BigUint::from_bytes_be(bytes).to_bytes_be()
}

/// A stable operator identifier derived from the operator's public key.
#[derive(Clone, Copy, Debug)]
pub struct OperatorId {
    pub bytes: [u8; 32],
}

impl View for OperatorId {
    type V = Seq<u8>;

    open spec fn view(&self) -> Seq<u8> {
        self.bytes@
    }
}

impl OperatorId {
    pub fn from_bytes(bytes: [u8; 32]) -> (r: OperatorId)
        ensures
            r.bytes@ == bytes@,
    {
        OperatorId { bytes }
    }

    /// Whether two identifiers are the same bytes.
    pub fn same(&self, other: &OperatorId) -> (r: bool)
        ensures
            r == (self@ == other@),
    {
        let mut i: usize = 0;
        while i < 32
            invariant
                0 <= i <= 32,
                forall|k: int| 0 <= k < i ==> self.bytes@[k] == other.bytes@[k],
            decreases 32 - i,
        {
            if self.bytes[i] != other.bytes[i] {
                return false;
            }
            i = i + 1;
        }
        assert(self.bytes@ =~= other.bytes@);
        true
    }
}

/// The identifier of the operator whose public key has affine coordinates `x` and `y`, each
/// given big-endian: the digest of the two coordinates in their shortest big-endian forms.
pub fn operator_id_from_key(x: &[u8], y: &[u8]) -> (r: OperatorId)
    ensures
        r@ == keccak_of(shortest_be(x@) + shortest_be(y@)),
{
    let mut joined = shortest_big_endian(x);
    let mut tail = shortest_big_endian(y);
    joined.append(&mut tail);
    OperatorId { bytes: keccak(joined.as_slice()) }
}

/// The digest that an operator signs for a proposed settlement.
pub fn settlement_digest(p: &ProposedSettlement) -> (r: [u8; 32])
    ensures
        r@ == keccak_of(settlement_bytes(*p)),
{
    let bytes = encode_settlement(p);
    keccak(bytes.as_slice())
}

} // verus!
