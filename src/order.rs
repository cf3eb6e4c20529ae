use vstd::arithmetic::div_mod::lemma_div_is_ordered;
use vstd::prelude::*;

verus! {

/// A 20-byte on-chain address, held as its top four bytes and its low sixteen bytes.
#[derive(Clone, Copy, Debug, PartialEq, Eq, Structural)]
pub struct Address {
    pub high: u32,
    pub low: u128,
}

impl Address {
    pub fn new(high: u32, low: u128) -> (r: Address)
        ensures
            r.high == high,
            r.low == low,
    {
        Address { high, low }
    }
}

/// A limit order: what its owner offers, what it wants in return, and how far it has been filled.
#[derive(Clone, Copy, Debug, PartialEq, Eq, Structural)]
pub struct Order {
    pub owner: Address,
    pub asset_offered: Address,
    pub amount_offered: u128,
    pub asset_wanted: Address,
    pub amount_wanted: u128,
    /// Largest price deviation, in percent, that the owner accepts.
    pub slippage: u128,
    pub filled: bool,
    pub partially_filled: bool,
}

/// What one operator proposes for one task: the incoming order and the counter-order after
/// settlement, and where the counter-order stood in the book (`None` when nothing matched, in
/// which case both orders are the incoming order unchanged).
#[derive(Clone, Copy, Debug, PartialEq, Eq, Structural)]
pub struct ProposedSettlement {
    pub task_index: u32,
    pub incoming: Order,
    pub counter: Order,
    pub matched_index: Option<u64>,
}

#[derive(Clone, Copy, Debug, PartialEq, Eq, Structural)]
pub enum MatchError {
    /// An order that reached the price computation has a zero amount, or the two prices
    /// average to zero.
    MatchingPrecondition,
}

/// How the scan treats one candidate of the book.
#[derive(Clone, Copy, Debug, PartialEq, Eq, Structural)]
pub enum Verdict {
    Skip,
    Take,
    Fault,
}

/// Units of the offered asset that the incoming order gives per unit it wants.
pub open spec fn limit_price(o: Order) -> int {
    o.amount_offered as int / o.amount_wanted as int
}

/// Units of the incoming order's offered asset that a counter-order asks per unit it gives.
pub open spec fn asking_price(c: Order) -> int {
    c.amount_wanted as int / c.amount_offered as int
}

pub open spec fn price_gap(a: int, b: int) -> int {
    if a >= b {
        a - b
    } else {
        b - a
    }
}

pub open spec fn price_midpoint(a: int, b: int) -> int {
    (a + b) / 2
}

/// Percentage deviation between the two prices, each division truncating.
pub open spec fn deviation(incoming: Order, c: Order) -> int {
    let a = limit_price(incoming);
    let b = asking_price(c);
    (price_gap(a, b) / price_midpoint(a, b)) * 100
}

/// Owners differ, neither order is filled, and the asset pairs are opposite.
pub open spec fn pairs_with(incoming: Order, c: Order) -> bool {
    &&& c.owner != incoming.owner
    &&& !incoming.filled
    &&& !c.filled
    &&& c.asset_offered == incoming.asset_wanted
    &&& c.asset_wanted == incoming.asset_offered
}

pub open spec fn judge(incoming: Order, c: Order) -> Verdict {
    if !pairs_with(incoming, c) {
        Verdict::Skip
    } else if c.amount_offered == 0 || c.amount_wanted == 0 {
        Verdict::Fault
    } else if asking_price(c) > limit_price(incoming) {
        Verdict::Skip
    } else if price_midpoint(limit_price(incoming), asking_price(c)) == 0 {
        Verdict::Fault
    } else if deviation(incoming, c) > incoming.slippage {
        Verdict::Skip
    } else {
        Verdict::Take
    }
}

/// The first candidate at or after `i` that the incoming order takes, or a fault met before it.
pub open spec fn scan(incoming: Order, book: Seq<Order>, i: int) -> Result<Option<int>, MatchError>
    decreases book.len() - i,
{
    if i < 0 || i >= book.len() {
        Ok(None)
    } else {
        match judge(incoming, book[i]) {
            Verdict::Skip => scan(incoming, book, i + 1),
            Verdict::Fault => Err(MatchError::MatchingPrecondition),
            Verdict::Take => Ok(Some(i)),
        }
    }
}

pub open spec fn fill(o: Order) -> Order {
    Order { filled: true, amount_wanted: 0, ..o }
}

pub open spec fn reduce(o: Order, by: u128) -> Order {
    Order { partially_filled: true, amount_wanted: (o.amount_wanted - by) as u128, ..o }
}

/// Settles the incoming order against the counter-order at `index` by their wanted amounts.
pub open spec fn settle(task_index: u32, incoming: Order, c: Order, index: int) -> ProposedSettlement {
    let a = incoming.amount_wanted;
    let b = c.amount_wanted;
    let (n, m) = if a == b {
        (fill(incoming), fill(c))
    } else if b > a {
        (fill(incoming), reduce(c, a))
    } else {
        (reduce(incoming, b), fill(c))
    };
    ProposedSettlement { task_index, incoming: n, counter: m, matched_index: Some(index as u64) }
}

pub open spec fn no_match(task_index: u32, incoming: Order) -> ProposedSettlement {
    ProposedSettlement { task_index, incoming, counter: incoming, matched_index: None }
}

/// The settlement that matching proposes for `incoming` against `book`.
pub open spec fn match_orders(task_index: u32, incoming: Order, book: Seq<Order>) -> Result<
    ProposedSettlement,
    MatchError,
> {
    if incoming.amount_wanted == 0 {
        Err(MatchError::MatchingPrecondition)
    } else {
        match scan(incoming, book, 0) {
            Err(e) => Err(e),
            Ok(None) => Ok(no_match(task_index, incoming)),
            Ok(Some(i)) => Ok(settle(task_index, incoming, book[i], i)),
        }
    }
}

fn same_address(a: &Address, b: &Address) -> (r: bool)
    ensures
        r == (*a == *b),
{
    a.high == b.high && a.low == b.low
}

proof fn lemma_quotient_at_most_three(gap: int, mid: int)
    requires
        0 <= gap <= 3 * mid,
        mid > 0,
    ensures
        gap / mid <= 3,
{
    lemma_div_is_ordered(gap, 3 * mid, mid);
    assert((3 * mid) / mid == 3) by (nonlinear_arith)
        requires
            mid > 0,
    ;
}

/// Decides how the incoming order treats one candidate.
pub fn judge_candidate(incoming: &Order, c: &Order) -> (r: Verdict)
    requires
        incoming.amount_wanted != 0,
    ensures
        r == judge(*incoming, *c),
{
    if same_address(&c.owner, &incoming.owner) || incoming.filled || c.filled || !same_address(
        &c.asset_offered,
        &incoming.asset_wanted,
    ) || !same_address(&c.asset_wanted, &incoming.asset_offered) {
        return Verdict::Skip;
    }
    if c.amount_offered == 0 || c.amount_wanted == 0 {
        return Verdict::Fault;
    }
    let a: u128 = incoming.amount_offered / incoming.amount_wanted;
    let b: u128 = c.amount_wanted / c.amount_offered;
    if b > a {
        return Verdict::Skip;
    }
    let mid: u128 = a / 2 + b / 2 + (a % 2 + b % 2) / 2;
    assert(mid as int == price_midpoint(a as int, b as int));
    if mid == 0 {
        return Verdict::Fault;
    }
    let gap: u128 = a - b;
    assert(gap as int == price_gap(a as int, b as int));
    proof {
        lemma_quotient_at_most_three(gap as int, mid as int);
    }
    let percent: u128 = (gap / mid) * 100;
    if percent > incoming.slippage {
        Verdict::Skip
    } else {
        Verdict::Take
    }
}

fn fill_order(o: &Order) -> (r: Order)
    ensures
        r == fill(*o),
{
    let mut r = *o;
    r.filled = true;
    r.amount_wanted = 0;
    r
}

fn reduce_order(o: &Order, by: u128) -> (r: Order)
    requires
        by <= o.amount_wanted,
    ensures
        r == reduce(*o, by),
{
    let mut r = *o;
    r.partially_filled = true;
    r.amount_wanted = o.amount_wanted - by;
    r
}

/// Settles `incoming` against the counter-order `c` found at `index` of the book.
pub fn settle_orders(task_index: u32, incoming: &Order, c: &Order, index: usize) -> (r:
    ProposedSettlement)
    ensures
        r == settle(task_index, *incoming, *c, index as int),
{
    let a = incoming.amount_wanted;
    let b = c.amount_wanted;
    let (n, m) = if a == b {
        (fill_order(incoming), fill_order(c))
    } else if b > a {
        (fill_order(incoming), reduce_order(c, a))
    } else {
        (reduce_order(incoming, b), fill_order(c))
    };
    ProposedSettlement { task_index, incoming: n, counter: m, matched_index: Some(index as u64) }
}

/// Matches `incoming` against the book: the first candidate in book order that pairs with it, is
/// priced at least as well as its limit and lies within its slippage is settled against it.
/// Fails when the incoming order wants nothing, or when a paired candidate met before the match
/// has a zero amount or a price midpoint of zero.
pub fn match_order(task_index: u32, incoming: &Order, book: &Vec<Order>) -> (r: Result<
    ProposedSettlement,
    MatchError,
>)
    ensures
        r == match_orders(task_index, *incoming, book@),
{
    if incoming.amount_wanted == 0 {
        return Err(MatchError::MatchingPrecondition);
    }
    let mut i: usize = 0;
    while i < book.len()
        invariant
            0 <= i <= book.len(),
            incoming.amount_wanted != 0,
            scan(*incoming, book@, 0) == scan(*incoming, book@, i as int),
        decreases book.len() - i,
    {
        match judge_candidate(incoming, &book[i]) {
            Verdict::Skip => {
                i = i + 1;
            },
            Verdict::Fault => {
                return Err(MatchError::MatchingPrecondition);
            },
            Verdict::Take => {
                return Ok(settle_orders(task_index, incoming, &book[i], i));
            },
        }
    }
    Ok(ProposedSettlement {
        task_index,
        incoming: *incoming,
        counter: *incoming,
        matched_index: None,
    })
}

proof fn lemma_scan_takes(incoming: Order, book: Seq<Order>, i: int, j: int)
    requires
        0 <= i,
        scan(incoming, book, i) == Ok::<Option<int>, MatchError>(Some(j)),
    ensures
        i <= j < book.len(),
        judge(incoming, book[j]) == Verdict::Take,
    decreases book.len() - i,
{
    if i < book.len() && judge(incoming, book[i]) == Verdict::Skip {
        lemma_scan_takes(incoming, book, i + 1, j);
    }
}

/// Matching is a function of its inputs: equal inputs give equal settlements.
pub proof fn lemma_matching_deterministic(
    task_a: u32,
    incoming_a: Order,
    book_a: Seq<Order>,
    task_b: u32,
    incoming_b: Order,
    book_b: Seq<Order>,
)
    requires
        task_a == task_b,
        incoming_a == incoming_b,
        book_a =~= book_b,
    ensures
        match_orders(task_a, incoming_a, book_a) == match_orders(task_b, incoming_b, book_b),
{
}

/// A settlement that names a counter-order names one of the book whose owner is not the
/// incoming order's owner.
pub proof fn lemma_no_self_match(task_index: u32, incoming: Order, book: Seq<Order>, j: u64)
    requires
        book.len() <= u64::MAX,
        match_orders(task_index, incoming, book) matches Ok(s) && s.matched_index == Some(j),
    ensures
        j < book.len(),
        book[j as int].owner != incoming.owner,
{
    let s = scan(incoming, book, 0);
    if let Ok(Some(k)) = s {
        lemma_scan_takes(incoming, book, 0, k);
    }
}

/// A produced match lies within the incoming order's slippage.
pub proof fn lemma_slippage_bound(task_index: u32, incoming: Order, book: Seq<Order>, j: u64)
    requires
        book.len() <= u64::MAX,
        match_orders(task_index, incoming, book) matches Ok(s) && s.matched_index == Some(j),
    ensures
        j < book.len(),
        deviation(incoming, book[j as int]) <= incoming.slippage,
{
    let s = scan(incoming, book, 0);
    if let Ok(Some(k)) = s {
        lemma_scan_takes(incoming, book, 0, k);
    }
}

/// In a match both sides are filled by the smaller of the two wanted amounts: the side that
/// wanted less is left wanting nothing, the other is left wanting the difference.
pub proof fn lemma_conservation(task_index: u32, incoming: Order, book: Seq<Order>, j: u64)
    requires
        book.len() <= u64::MAX,
        match_orders(task_index, incoming, book) matches Ok(s) && s.matched_index == Some(j),
    ensures
        j < book.len(),
        ({
            let s = match_orders(task_index, incoming, book)->Ok_0;
            let a = incoming.amount_wanted as int;
            let b = book[j as int].amount_wanted as int;
            let least = if a <= b { a } else { b };
            &&& a - s.incoming.amount_wanted == least
            &&& b - s.counter.amount_wanted == least
            &&& a == b ==> s.incoming.filled && s.counter.filled
            &&& a < b ==> s.incoming.filled && s.counter.partially_filled
                && s.counter.amount_wanted == b - a
            &&& b < a ==> s.counter.filled && s.incoming.partially_filled
                && s.incoming.amount_wanted == a - b
        }),
{
    let s = scan(incoming, book, 0);
    if let Ok(Some(k)) = s {
        lemma_scan_takes(incoming, book, 0, k);
    }
}

} // verus!
