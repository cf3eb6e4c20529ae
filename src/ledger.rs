use crate::order::ProposedSettlement;
use crate::signer::OperatorId;
use vstd::prelude::*;

verus! {

/// A proposed settlement with an operator's signature over its canonical encoding.
pub struct SignedProposal {
    pub settlement: ProposedSettlement,
    pub signature: Vec<u8>,
    pub operator: OperatorId,
}

pub ghost struct ProposalView {
    pub settlement: ProposedSettlement,
    pub signature: Seq<u8>,
    pub operator: Seq<u8>,
}

impl View for SignedProposal {
    type V = ProposalView;

    open spec fn view(&self) -> ProposalView {
        ProposalView {
            settlement: self.settlement,
            signature: self.signature@,
            operator: self.operator@,
        }
    }
}

/// The record that a task's entry keeps: the contributions that count (one per operator), the
/// proposals kept only for audit, and whether quorum has been reached.
pub ghost struct EntryView {
    pub task_index: u32,
    pub threshold_percentage: u8,
    pub operator_count: u64,
    /// When the entry was opened, in the caller's clock.
    pub opened_at: u64,
    pub counted: Seq<ProposalView>,
    pub audit: Seq<ProposalView>,
    pub finalized: bool,
}

/// What a submission did to a task's entry.
#[derive(Clone, Copy, Debug, PartialEq, Eq, Structural)]
pub enum SubmitOutcome {
    /// A new operator's proposal counts, and quorum is not yet reached.
    Recorded,
    /// A new operator's proposal counts, and with it quorum is reached.
    Finalized,
    /// The operator sent the same content again: its contribution is replaced, still counted once.
    Duplicate,
    /// The operator sent different content: kept for audit, not counted.
    Conflicting,
    /// A new operator's proposal after quorum: kept for audit, not counted.
    Late,
}

/// The first index at or after `i` of a contribution by `operator`.
pub open spec fn find_operator(s: Seq<ProposalView>, operator: Seq<u8>, i: int) -> Option<int>
    decreases s.len() - i,
{
    if i < 0 || i >= s.len() {
        None
    } else if s[i].operator == operator {
        Some(i)
    } else {
        find_operator(s, operator, i + 1)
    }
}

/// The contributions whose content is `c`, in the order they arrived.
pub open spec fn supporters(s: Seq<ProposalView>, c: ProposedSettlement) -> Seq<ProposalView>
    decreases s.len(),
{
    if s.len() == 0 {
        seq![]
    } else {
        let rest = supporters(s.drop_last(), c);
        if s.last().settlement == c {
            rest.push(s.last())
        } else {
            rest
        }
    }
}

/// Whether `n` of `operator_count` operators reach `threshold_percentage` percent.
pub open spec fn quorum_met(n: nat, threshold_percentage: u8, operator_count: u64) -> bool {
    operator_count > 0 && n * 100 >= threshold_percentage * operator_count
}

/// No operator has two counted contributions.
pub open spec fn distinct_operators(s: Seq<ProposalView>) -> bool {
    forall|i: int, j: int| 0 <= i < j < s.len() ==> s[i].operator != s[j].operator
}

/// One submission to a task's entry.
pub open spec fn step(e: EntryView, p: ProposalView) -> (EntryView, SubmitOutcome) {
    match find_operator(e.counted, p.operator, 0) {
        Some(i) => if e.counted[i].settlement == p.settlement {
            (EntryView { counted: e.counted.update(i, p), ..e }, SubmitOutcome::Duplicate)
        } else {
            (EntryView { audit: e.audit.push(p), ..e }, SubmitOutcome::Conflicting)
        },
        None => if e.finalized {
            (EntryView { audit: e.audit.push(p), ..e }, SubmitOutcome::Late)
        } else {
            let counted = e.counted.push(p);
            if quorum_met(
                supporters(counted, p.settlement).len(),
                e.threshold_percentage,
                e.operator_count,
            ) {
                (EntryView { counted, finalized: true, ..e }, SubmitOutcome::Finalized)
            } else {
                (EntryView { counted, ..e }, SubmitOutcome::Recorded)
            }
        },
    }
}

/// Submissions in arrival order: the entry they leave and how many of them finalized it.
pub open spec fn run(e: EntryView, ps: Seq<ProposalView>) -> (EntryView, nat)
    decreases ps.len(),
{
    if ps.len() == 0 {
        (e, 0)
    } else {
        let (e1, o) = step(e, ps[0]);
        let (e2, n) = run(e1, ps.drop_first());
        (e2, n + if o == SubmitOutcome::Finalized {
            1nat
        } else {
            0nat
        })
    }
}

proof fn lemma_find_some(s: Seq<ProposalView>, operator: Seq<u8>, i: int, k: int)
    requires
        find_operator(s, operator, i) == Some(k),
    ensures
        0 <= i <= k < s.len(),
        s[k].operator == operator,
    decreases s.len() - i,
{
    if s[i].operator != operator {
        lemma_find_some(s, operator, i + 1, k);
    }
}

proof fn lemma_find_none(s: Seq<ProposalView>, operator: Seq<u8>, i: int, k: int)
    requires
        0 <= i <= k < s.len(),
        find_operator(s, operator, i) == None::<int>,
    ensures
        s[k].operator != operator,
    decreases k - i,
{
    if i < k {
        lemma_find_none(s, operator, i + 1, k);
    }
}

proof fn lemma_find_pushed(s: Seq<ProposalView>, p: ProposalView, i: int)
    requires
        0 <= i <= s.len(),
        find_operator(s, p.operator, i) == None::<int>,
    ensures
        find_operator(s.push(p), p.operator, i) == Some(s.len() as int),
    decreases s.len() - i,
{
    if i < s.len() {
        lemma_find_pushed(s, p, i + 1);
    }
}

proof fn lemma_find_unique(s: Seq<ProposalView>, operator: Seq<u8>, k: int)
    requires
        distinct_operators(s),
        0 <= k < s.len(),
        s[k].operator == operator,
    ensures
        find_operator(s, operator, 0) == Some(k),
{
    match find_operator(s, operator, 0) {
        Some(j) => {
            lemma_find_some(s, operator, 0, j);
        },
        None => {
            lemma_find_none(s, operator, 0, k);
        },
    }
}

/// A submission never gives an operator a second counted contribution.
pub proof fn lemma_step_keeps_operators_distinct(e: EntryView, p: ProposalView)
    requires
        distinct_operators(e.counted),
    ensures
        distinct_operators(step(e, p).0.counted),
{
    match find_operator(e.counted, p.operator, 0) {
        Some(i) => {
            lemma_find_some(e.counted, p.operator, 0, i);
        },
        None => {
            assert forall|k: int| 0 <= k < e.counted.len() implies e.counted[k].operator
                != p.operator by {
                lemma_find_none(e.counted, p.operator, 0, k);
            }
        },
    }
}

/// A submission finalizes an entry exactly when it was not finalized before and is after, and
/// a finalized entry stays finalized.
pub proof fn lemma_step_finalizes_once(e: EntryView, p: ProposalView)
    ensures
        e.finalized ==> step(e, p).0.finalized,
        (step(e, p).1 == SubmitOutcome::Finalized) == (!e.finalized && step(e, p).0.finalized),
{
}

/// However proposals for one task arrive, the entry is finalized at most once, and exactly once
/// when it ends finalized having started open; an entry already finalized is never finalized again.
pub proof fn lemma_quorum_exactly_once(e: EntryView, ps: Seq<ProposalView>)
    ensures
        run(e, ps).1 <= 1,
        e.finalized ==> run(e, ps).0.finalized && run(e, ps).1 == 0,
        !e.finalized ==> (run(e, ps).1 == 1) == run(e, ps).0.finalized,
    decreases ps.len(),
{
    if ps.len() > 0 {
        lemma_step_finalizes_once(e, ps[0]);
        lemma_quorum_exactly_once(step(e, ps[0]).0, ps.drop_first());
    }
}

/// The same proposal sent twice counts once: the second submission leaves the counted
/// contributions as the first left them and finalizes nothing.
pub proof fn lemma_identical_resubmission(e: EntryView, p: ProposalView)
    requires
        distinct_operators(e.counted),
    ensures
        step(step(e, p).0, p).0.counted == step(e, p).0.counted,
        step(step(e, p).0, p).0.finalized == step(e, p).0.finalized,
        step(step(e, p).0, p).1 != SubmitOutcome::Finalized,
        step(e, p).1 != SubmitOutcome::Conflicting && step(e, p).1 != SubmitOutcome::Late
            ==> step(step(e, p).0, p).1 == SubmitOutcome::Duplicate,
{
    let e1 = step(e, p).0;
    lemma_step_keeps_operators_distinct(e, p);
    match find_operator(e.counted, p.operator, 0) {
        Some(i) => {
            lemma_find_some(e.counted, p.operator, 0, i);
            if e.counted[i].settlement == p.settlement {
                lemma_find_unique(e1.counted, p.operator, i);
                assert(e1.counted.update(i, p) =~= e1.counted);
            }
        },
        None => {
            if !e.finalized {
                lemma_find_pushed(e.counted, p, 0);
                assert(e1.counted.update(e.counted.len() as int, p) =~= e1.counted);
            }
        },
    }
}

/// Two different proposals from one operator not yet counted: the first counts, the second is
/// kept for audit only and reported as conflicting.
pub proof fn lemma_conflict_detected(e: EntryView, p1: ProposalView, p2: ProposalView)
    requires
        p1.operator == p2.operator,
        p1.settlement != p2.settlement,
        find_operator(e.counted, p1.operator, 0) == None::<int>,
        !e.finalized,
    ensures
        step(e, p1).0.counted == e.counted.push(p1),
        step(step(e, p1).0, p2).1 == SubmitOutcome::Conflicting,
        step(step(e, p1).0, p2).0.counted == step(e, p1).0.counted,
        step(step(e, p1).0, p2).0.audit == step(e, p1).0.audit.push(p2),
{
    lemma_find_pushed(e.counted, p1, 0);
}

/// The response that a finalized task sends on: the agreed content, and the operators that
/// proposed it with their signatures, in arrival order. The signatures are combined into one
/// aggregate signature, which verifies against the combined keys of these operators.
pub struct AggregateResponse {
    pub task_index: u32,
    pub settlement: ProposedSettlement,
    pub operators: Vec<OperatorId>,
    pub signatures: Vec<Vec<u8>>,
}

/// `operators` and `signatures` list the contributions of `sup`, one for one.
pub open spec fn lists_supporters(
    operators: Seq<OperatorId>,
    signatures: Seq<Vec<u8>>,
    sup: Seq<ProposalView>,
) -> bool {
    &&& operators.len() == sup.len()
    &&& signatures.len() == sup.len()
    &&& forall|i: int|
        0 <= i < sup.len() ==> operators[i]@ == sup[i].operator && signatures[i]@
            == sup[i].signature
}

/// `a` is the response of the entry `e` for the content `c`.
pub open spec fn aggregate_of(a: AggregateResponse, e: EntryView, c: ProposedSettlement) -> bool {
    &&& a.task_index == e.task_index
    &&& a.settlement == c
    &&& lists_supporters(a.operators@, a.signatures@, supporters(e.counted, c))
}

/// How a submission is acknowledged.
pub enum Ack {
    Recorded,
    Duplicate,
    Finalized(AggregateResponse),
}

/// Why a submission is refused.
#[derive(Clone, Copy, Debug, PartialEq, Eq, Structural)]
pub enum SubmitError {
    /// No entry is open for the proposal's task index.
    UnknownTask,
    /// The operator already contributed different content; the proposal is kept for audit.
    ConflictingProposal,
    /// The task is already finalized; the proposal is kept for audit.
    AlreadyFinalized,
}

/// The outcome that a result reports; an entry never refuses a task as unknown.
pub open spec fn outcome_of(r: Result<Ack, SubmitError>) -> SubmitOutcome {
    match r {
        Ok(Ack::Recorded) => SubmitOutcome::Recorded,
        Ok(Ack::Duplicate) => SubmitOutcome::Duplicate,
        Ok(Ack::Finalized(_)) => SubmitOutcome::Finalized,
        Err(SubmitError::ConflictingProposal) => SubmitOutcome::Conflicting,
        Err(_) => SubmitOutcome::Late,
    }
}

/// The stated result of a submission to an entry: the outcome of `step`, and on finalizing the
/// response for the submitted content.
pub open spec fn submit_result(
    r: Result<Ack, SubmitError>,
    before: EntryView,
    after: EntryView,
    p: ProposalView,
) -> bool {
    &&& after == step(before, p).0
    &&& outcome_of(r) == step(before, p).1
    &&& r != Err::<Ack, SubmitError>(SubmitError::UnknownTask)
    &&& (r matches Ok(Ack::Finalized(a)) ==> aggregate_of(a, after, p.settlement) && quorum_met(
        a.operators@.len(),
        before.threshold_percentage,
        before.operator_count,
    ))
}

fn copy_bytes(v: &Vec<u8>) -> (r: Vec<u8>)
    ensures
        r@ == v@,
{
    let mut r: Vec<u8> = Vec::new();
    let mut i: usize = 0;
    while i < v.len()
        invariant
            0 <= i <= v.len(),
            r@ == v@.take(i as int),
        decreases v.len() - i,
    {
        r.push(v[i]);
        i = i + 1;
        assert(r@ =~= v@.take(i as int));
    }
    assert(v@.take(v.len() as int) =~= v@);
    r
}

/// Whether `n` of `operator_count` operators reach `threshold_percentage` percent.
pub fn quorum_reached(n: usize, threshold_percentage: u8, operator_count: u64) -> (r: bool)
    ensures
        r == quorum_met(n as nat, threshold_percentage, operator_count),
{
    let supporting: u128 = (n as u128) * 100;
    let t: u128 = threshold_percentage as u128;
    let m: u128 = operator_count as u128;
    assert(t * m <= 255 * 0xffff_ffff_ffff_ffff) by (nonlinear_arith)
        requires
            t <= 255,
            m <= 0xffff_ffff_ffff_ffff,
    ;
    operator_count > 0 && supporting >= t * m
}

/// One task's ledger entry.
pub struct TaskLedgerEntry {
    task_index: u32,
    threshold_percentage: u8,
    operator_count: u64,
    opened_at: u64,
    counted: Vec<SignedProposal>,
    audit: Vec<SignedProposal>,
    finalized: bool,
}

pub open spec fn proposal_views(v: Seq<SignedProposal>) -> Seq<ProposalView> {
    v.map_values(|p: SignedProposal| p@)
}

impl View for TaskLedgerEntry {
    type V = EntryView;

    closed spec fn view(&self) -> EntryView {
        EntryView {
            task_index: self.task_index,
            threshold_percentage: self.threshold_percentage,
            operator_count: self.operator_count,
            opened_at: self.opened_at,
            counted: proposal_views(self.counted@),
            audit: proposal_views(self.audit@),
            finalized: self.finalized,
        }
    }
}

impl TaskLedgerEntry {
    /// Each operator has at most one counted contribution.
    pub open spec fn wf(&self) -> bool {
        distinct_operators(self@.counted)
    }

    /// An open entry with nothing recorded.
    pub fn new(task_index: u32, threshold_percentage: u8, operator_count: u64, opened_at: u64) -> (r:
        TaskLedgerEntry)
        ensures
            r.wf(),
            r@ == fresh_entry(task_index, threshold_percentage, operator_count, opened_at),
    {
        let r = TaskLedgerEntry {
            task_index,
            threshold_percentage,
            operator_count,
            opened_at,
            counted: Vec::new(),
            audit: Vec::new(),
            finalized: false,
        };
        assert(r@.counted =~= seq![]);
        assert(r@.audit =~= seq![]);
        r
    }

    pub fn task_index(&self) -> (r: u32)
        ensures
            r == self@.task_index,
    {
        self.task_index
    }

    pub fn is_finalized(&self) -> (r: bool)
        ensures
            r == self@.finalized,
    {
        self.finalized
    }

    /// Whether the entry's retention window has passed by `now` without quorum.
    pub fn is_expired(&self, now: u64, retention: u64) -> (r: bool)
        ensures
            r == expired(self@, now, retention),
    {
        !self.finalized && now >= self.opened_at && now - self.opened_at >= retention
    }

    /// How many operators have a counted contribution.
    pub fn counted_len(&self) -> (r: usize)
        ensures
            r == self@.counted.len(),
    {
        self.counted.len()
    }

    /// How many proposals are kept for audit only.
    pub fn audit_len(&self) -> (r: usize)
        ensures
            r == self@.audit.len(),
    {
        self.audit.len()
    }

    fn find(&self, operator: &OperatorId) -> (r: Option<usize>)
        ensures
            r matches Some(i) ==> find_operator(self@.counted, operator@, 0) == Some(i as int),
            r is None ==> find_operator(self@.counted, operator@, 0) is None,
    {
        let mut i: usize = 0;
        while i < self.counted.len()
            invariant
                0 <= i <= self.counted@.len(),
                find_operator(self@.counted, operator@, 0) == find_operator(
                    self@.counted,
                    operator@,
                    i as int,
                ),
            decreases self.counted.len() - i,
        {
            if self.counted[i].operator.same(operator) {
                return Some(i);
            }
            i = i + 1;
        }
        None
    }

    /// The response for the content `c`: the contributions that propose it.
    fn aggregate(&self, c: &ProposedSettlement) -> (r: AggregateResponse)
        ensures
            aggregate_of(r, self@, *c),
    {
        let mut operators: Vec<OperatorId> = Vec::new();
        let mut signatures: Vec<Vec<u8>> = Vec::new();
        let mut i: usize = 0;
        while i < self.counted.len()
            invariant
                0 <= i <= self.counted@.len(),
                lists_supporters(
                    operators@,
                    signatures@,
                    supporters(self@.counted.take(i as int), *c),
                ),
            decreases self.counted.len() - i,
        {
            let p = &self.counted[i];
            assert(self@.counted.take(i + 1).drop_last() =~= self@.counted.take(i as int));
            if p.settlement == *c {
                operators.push(p.operator);
                signatures.push(copy_bytes(&p.signature));
            }
            i = i + 1;
        }
        assert(self@.counted.take(self.counted@.len() as int) =~= self@.counted);
        AggregateResponse { task_index: self.task_index, settlement: *c, operators, signatures }
    }

    /// Records one signed proposal: a new operator's proposal counts and may finalize the entry;
    /// the same content again replaces the operator's contribution; different content, or a new
    /// operator after finalizing, is kept for audit only.
    pub fn submit(&mut self, p: SignedProposal) -> (r: Result<Ack, SubmitError>)
        requires
            old(self).wf(),
        ensures
            final(self).wf(),
            submit_result(r, old(self)@, final(self)@, p@),
    {
        proof {
            lemma_step_keeps_operators_distinct(self@, p@);
        }
        match self.find(&p.operator) {
            Some(i) => {
                proof {
                    lemma_find_some(self@.counted, p@.operator, 0, i as int);
                }
                if self.counted[i].settlement == p.settlement {
                    self.counted.set(i, p);
                    assert(self@.counted =~= old(self)@.counted.update(i as int, p@));
                    Ok(Ack::Duplicate)
                } else {
                    self.audit.push(p);
                    assert(self@.audit =~= old(self)@.audit.push(p@));
                    Err(SubmitError::ConflictingProposal)
                }
            },
            None => {
                if self.finalized {
                    self.audit.push(p);
                    assert(self@.audit =~= old(self)@.audit.push(p@));
                    return Err(SubmitError::AlreadyFinalized);
                }
                let c = p.settlement;
                self.counted.push(p);
                assert(self@.counted =~= old(self)@.counted.push(p@));
                let a = self.aggregate(&c);
                if quorum_reached(a.operators.len(), self.threshold_percentage, self.operator_count) {
                    self.finalized = true;
                    Ok(Ack::Finalized(a))
                } else {
                    Ok(Ack::Recorded)
                }
            },
        }
    }
}

/// The first index at or after `i` of the entry for `task_index`.
pub open spec fn find_task(s: Seq<EntryView>, task_index: u32, i: int) -> Option<int>
    decreases s.len() - i,
{
    if i < 0 || i >= s.len() {
        None
    } else if s[i].task_index == task_index {
        Some(i)
    } else {
        find_task(s, task_index, i + 1)
    }
}

/// No task index has two entries.
pub open spec fn distinct_tasks(s: Seq<EntryView>) -> bool {
    forall|i: int, j: int| 0 <= i < j < s.len() ==> s[i].task_index != s[j].task_index
}

pub open spec fn fresh_entry(
    task_index: u32,
    threshold_percentage: u8,
    operator_count: u64,
    opened_at: u64,
) -> EntryView {
    EntryView {
        task_index,
        threshold_percentage,
        operator_count,
        opened_at,
        counted: seq![],
        audit: seq![],
        finalized: false,
    }
}

proof fn lemma_find_task_some(s: Seq<EntryView>, task_index: u32, i: int, k: int)
    requires
        find_task(s, task_index, i) == Some(k),
    ensures
        0 <= i <= k < s.len(),
        s[k].task_index == task_index,
    decreases s.len() - i,
{
    if s[i].task_index != task_index {
        lemma_find_task_some(s, task_index, i + 1, k);
    }
}

proof fn lemma_find_task_none(s: Seq<EntryView>, task_index: u32, i: int, k: int)
    requires
        0 <= i <= k < s.len(),
        find_task(s, task_index, i) == None::<int>,
    ensures
        s[k].task_index != task_index,
    decreases k - i,
{
    if i < k {
        lemma_find_task_none(s, task_index, i + 1, k);
    }
}

/// An open entry whose retention window of `retention` has passed by `now` without quorum.
pub open spec fn expired(e: EntryView, now: u64, retention: u64) -> bool {
    !e.finalized && e.opened_at + retention <= now
}

/// The first index at or after `i` of an expired entry.
pub open spec fn find_expired(s: Seq<EntryView>, now: u64, retention: u64, i: int) -> Option<int>
    decreases s.len() - i,
{
    if i < 0 || i >= s.len() {
        None
    } else if expired(s[i], now, retention) {
        Some(i)
    } else {
        find_expired(s, now, retention, i + 1)
    }
}

proof fn lemma_find_expired_some(s: Seq<EntryView>, now: u64, retention: u64, i: int, k: int)
    requires
        find_expired(s, now, retention, i) == Some(k),
    ensures
        0 <= i <= k < s.len(),
        expired(s[k], now, retention),
    decreases s.len() - i,
{
    if !expired(s[i], now, retention) {
        lemma_find_expired_some(s, now, retention, i + 1, k);
    }
}

/// The aggregator's ledger: at most one entry per task index, each serialized on its own.
pub struct AggregationLedger {
    entries: Vec<TaskLedgerEntry>,
}

impl View for AggregationLedger {
    type V = Seq<EntryView>;

    closed spec fn view(&self) -> Seq<EntryView> {
        self.entries@.map_values(|e: TaskLedgerEntry| e@)
    }
}

impl AggregationLedger {
    /// One entry per task index, and each entry well formed.
    pub closed spec fn wf(&self) -> bool {
        &&& distinct_tasks(self@)
        &&& forall|i: int| 0 <= i < self.entries@.len() ==> (#[trigger] self.entries@[i]).wf()
    }

    pub fn new() -> (r: AggregationLedger)
        ensures
            r.wf(),
            r@ == Seq::<EntryView>::empty(),
    {
        let r = AggregationLedger { entries: Vec::new() };
        assert(r@ =~= Seq::<EntryView>::empty());
        r
    }

    fn find(&self, task_index: u32) -> (r: Option<usize>)
        ensures
            r matches Some(i) ==> find_task(self@, task_index, 0) == Some(i as int),
            r is None ==> find_task(self@, task_index, 0) is None,
    {
        let mut i: usize = 0;
        while i < self.entries.len()
            invariant
                0 <= i <= self.entries@.len(),
                find_task(self@, task_index, 0) == find_task(self@, task_index, i as int),
            decreases self.entries.len() - i,
        {
            if self.entries[i].task_index() == task_index {
                return Some(i);
            }
            i = i + 1;
        }
        None
    }

    /// Opens an entry for a newly announced task; a task index that already has one keeps it.
    pub fn register_task(
        &mut self,
        task_index: u32,
        threshold_percentage: u8,
        operator_count: u64,
        now: u64,
    ) -> (r: bool)
        requires
            old(self).wf(),
        ensures
            final(self).wf(),
            r == (find_task(old(self)@, task_index, 0) is None),
            r ==> final(self)@ == old(self)@.push(
                fresh_entry(task_index, threshold_percentage, operator_count, now),
            ),
            !r ==> final(self)@ == old(self)@,
    {
        match self.find(task_index) {
            Some(_) => false,
            None => {
                let e = TaskLedgerEntry::new(task_index, threshold_percentage, operator_count, now);
                proof {
                    assert forall|k: int| 0 <= k < self@.len() implies self@[k].task_index
                        != task_index by {
                        lemma_find_task_none(self@, task_index, 0, k);
                    }
                }
                self.entries.push(e);
                assert(self@ =~= old(self)@.push(
                    fresh_entry(task_index, threshold_percentage, operator_count, now),
                ));
                true
            },
        }
    }

    /// Whether the task has an entry, and if so whether it is finalized.
    pub fn is_finalized(&self, task_index: u32) -> (r: Option<bool>)
        ensures
            r == (match find_task(self@, task_index, 0) {
                Some(i) => Some(self@[i].finalized),
                None => None::<bool>,
            }),
    {
        match self.find(task_index) {
            Some(i) => {
                proof {
                    lemma_find_task_some(self@, task_index, 0, i as int);
                }
                Some(self.entries[i].is_finalized())
            },
            None => None,
        }
    }

    /// Routes a signed proposal to its task's entry by the task index of its content.
    pub fn submit(&mut self, p: SignedProposal) -> (r: Result<Ack, SubmitError>)
        requires
            old(self).wf(),
        ensures
            final(self).wf(),
            match find_task(old(self)@, p@.settlement.task_index, 0) {
                None => r == Err::<Ack, SubmitError>(SubmitError::UnknownTask) && final(self)@
                    == old(self)@,
                Some(i) => final(self)@ == old(self)@.update(i, step(old(self)@[i], p@).0)
                    && submit_result(r, old(self)@[i], final(self)@[i], p@),
            },
    {
        match self.find(p.settlement.task_index) {
            None => Err(SubmitError::UnknownTask),
            Some(i) => {
                proof {
                    lemma_find_task_some(self@, p@.settlement.task_index, 0, i as int);
                }
                let mut e = self.entries.remove(i);
                assert(self@ =~= old(self)@.remove(i as int));
                let r = e.submit(p);
                self.entries.insert(i, e);
                assert(self@ =~= old(self)@.update(i as int, step(old(self)@[i as int], p@).0));
                r
            },
        }
    }

    /// Takes the task's entry out of the ledger, to archive it once its response is sent or
    /// its retention window has passed.
    pub fn retire(&mut self, task_index: u32) -> (r: Option<TaskLedgerEntry>)
        requires
            old(self).wf(),
        ensures
            final(self).wf(),
            match find_task(old(self)@, task_index, 0) {
                None => r is None && final(self)@ == old(self)@,
                Some(i) => r matches Some(e) && e@ == old(self)@[i] && e.wf() && final(self)@
                    == old(self)@.remove(i),
            },
    {
        match self.find(task_index) {
            None => None,
            Some(i) => {
                proof {
                    lemma_find_task_some(self@, task_index, 0, i as int);
                }
                let e = self.entries.remove(i);
                assert(self@ =~= old(self)@.remove(i as int));
                Some(e)
            },
        }
    }

    /// Evicts the first open entry whose retention window has passed by `now`, and reports the
    /// timed-out task index; `None` when no entry has expired.
    pub fn evict_expired(&mut self, now: u64, retention: u64) -> (r: Option<u32>)
        requires
            old(self).wf(),
        ensures
            final(self).wf(),
            match find_expired(old(self)@, now, retention, 0) {
                None => r is None && final(self)@ == old(self)@,
                Some(i) => r == Some(old(self)@[i].task_index) && final(self)@ == old(self)@.remove(
                    i,
                ),
            },
    {
        let mut i: usize = 0;
        while i < self.entries.len()
            invariant
                0 <= i <= self.entries@.len(),
                self.wf(),
                self@ == old(self)@,
                find_expired(self@, now, retention, 0) == find_expired(
                    self@,
                    now,
                    retention,
                    i as int,
                ),
            decreases self.entries.len() - i,
        {
            if self.entries[i].is_expired(now, retention) {
                let e = self.entries.remove(i);
                assert(self@ =~= old(self)@.remove(i as int));
                return Some(e.task_index());
            }
            i = i + 1;
        }
        None
    }
}

} // verus!
