use crate::order::{Address, Order, ProposedSettlement};
use vstd::prelude::*;

verus! {

/// The low `len` bytes of `n`, most significant first.
pub open spec fn be_bytes(n: nat, len: nat) -> Seq<u8>
    decreases len,
{
    if len == 0 {
        seq![]
    } else {
        be_bytes(n / 256, (len - 1) as nat).push((n % 256) as u8)
    }
}

pub open spec fn zeros(len: nat) -> Seq<u8> {
    be_bytes(0, len)
}

/// A 32-byte word holding an address in its low twenty bytes.
pub open spec fn address_word(a: Address) -> Seq<u8> {
    zeros(12) + be_bytes(a.high as nat, 4) + be_bytes(a.low as nat, 16)
}

pub open spec fn amount_word(x: u128) -> Seq<u8> {
    zeros(16) + be_bytes(x as nat, 16)
}

pub open spec fn flag_word(b: bool) -> Seq<u8> {
    zeros(31).push(if b { 1u8 } else { 0u8 })
}

pub open spec fn index_word(i: u64) -> Seq<u8> {
    zeros(24) + be_bytes(i as nat, 8)
}

pub open spec fn task_word(t: u32) -> Seq<u8> {
    zeros(28) + be_bytes(t as nat, 4)
}

/// An order as eight words, in field order.
pub open spec fn order_bytes(o: Order) -> Seq<u8> {
    address_word(o.owner) + address_word(o.asset_offered) + amount_word(o.amount_offered)
        + address_word(o.asset_wanted) + amount_word(o.amount_wanted) + amount_word(o.slippage)
        + flag_word(o.filled) + flag_word(o.partially_filled)
}

/// The canonical encoding that operators sign: the task index, the two orders and the matched
/// index, one word each field, with an absent index written as zero.
pub open spec fn settlement_bytes(p: ProposedSettlement) -> Seq<u8> {
    task_word(p.task_index) + order_bytes(p.incoming) + order_bytes(p.counter) + index_word(
        match p.matched_index {
            Some(i) => i,
            None => 0u64,
        },
    )
}

fn push_be(out: &mut Vec<u8>, x: u128, len: usize)
    ensures
        final(out)@ == old(out)@ + be_bytes(x as nat, len as nat),
    decreases len,
{
    if len == 0 {
        assert(old(out)@ + be_bytes(x as nat, 0) =~= old(out)@);
        return ;
    }
    push_be(out, x / 256, len - 1);
    out.push((x % 256) as u8);
    assert(out@ =~= old(out)@ + be_bytes(x as nat, len as nat));
}

fn push_address(out: &mut Vec<u8>, a: &Address)
    ensures
        final(out)@ == old(out)@ + address_word(*a),
{
    push_be(out, 0, 12);
    push_be(out, a.high as u128, 4);
    push_be(out, a.low, 16);
    assert(out@ =~= old(out)@ + address_word(*a));
}

fn push_amount(out: &mut Vec<u8>, x: u128)
    ensures
        final(out)@ == old(out)@ + amount_word(x),
{
    push_be(out, 0, 16);
    push_be(out, x, 16);
    assert(out@ =~= old(out)@ + amount_word(x));
}

fn push_flag(out: &mut Vec<u8>, b: bool)
    ensures
        final(out)@ == old(out)@ + flag_word(b),
{
    push_be(out, 0, 31);
    out.push(if b { 1u8 } else { 0u8 });
    assert(out@ =~= old(out)@ + flag_word(b));
}

fn push_order(out: &mut Vec<u8>, o: &Order)
    ensures
        final(out)@ == old(out)@ + order_bytes(*o),
{
    push_address(out, &o.owner);
    push_address(out, &o.asset_offered);
    push_amount(out, o.amount_offered);
    push_address(out, &o.asset_wanted);
    push_amount(out, o.amount_wanted);
    push_amount(out, o.slippage);
    push_flag(out, o.filled);
    push_flag(out, o.partially_filled);
    assert(out@ =~= old(out)@ + order_bytes(*o));
}

/// Encodes a proposed settlement in the canonical form that every operator signs.
pub fn encode_settlement(p: &ProposedSettlement) -> (r: Vec<u8>)
    ensures
        r@ == settlement_bytes(*p),
{
    let mut out: Vec<u8> = Vec::new();
    push_be(&mut out, 0, 28);
    push_be(&mut out, p.task_index as u128, 4);
    push_order(&mut out, &p.incoming);
    push_order(&mut out, &p.counter);
    let index: u64 = match p.matched_index {
        Some(i) => i,
        None => 0,
    };
    push_be(&mut out, 0, 24);
    push_be(&mut out, index as u128, 8);
    assert(out@ =~= settlement_bytes(*p));
    out
}

} // verus!
