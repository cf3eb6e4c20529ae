use ob_avs::ledger::{quorum_reached, Ack, AggregationLedger, SignedProposal, SubmitError, TaskLedgerEntry};
use ob_avs::order::{Address, Order, ProposedSettlement};
use ob_avs::signer::OperatorId;

fn settlement(task_index: u32, wanted: u128) -> ProposedSettlement {
    let o = Order {
        owner: Address::new(0, 1),
        asset_offered: Address::new(0, 2),
        amount_offered: 100,
        asset_wanted: Address::new(0, 3),
        amount_wanted: wanted,
        slippage: 5,
        filled: false,
        partially_filled: false,
    };
    ProposedSettlement { task_index, incoming: o, counter: o, matched_index: None }
}

fn proposal(task_index: u32, wanted: u128, operator: u8) -> SignedProposal {
    SignedProposal {
        settlement: settlement(task_index, wanted),
        signature: vec![operator, 0xee],
        operator: OperatorId::from_bytes([operator; 32]),
    }
}

#[test]
fn quorum_scenario_finalizes_once() {
    let mut ledger = AggregationLedger::new();
    assert!(ledger.register_task(5, 66, 3, 100));
    assert!(matches!(ledger.submit(proposal(5, 10, 1)), Ok(Ack::Recorded)));
    assert_eq!(ledger.is_finalized(5), Some(false));
    match ledger.submit(proposal(5, 10, 2)) {
        Ok(Ack::Finalized(response)) => {
            assert_eq!(response.task_index, 5);
            assert_eq!(response.settlement, settlement(5, 10));
            assert_eq!(response.operators.len(), 2);
            assert_eq!(response.operators[0].bytes, [1u8; 32]);
            assert_eq!(response.operators[1].bytes, [2u8; 32]);
            assert_eq!(response.signatures, vec![vec![1u8, 0xee], vec![2u8, 0xee]]);
        }
        _ => panic!("second identical proposal should reach quorum"),
    }
    assert_eq!(ledger.is_finalized(5), Some(true));
    assert_eq!(ledger.submit(proposal(5, 10, 3)).err(), Some(SubmitError::AlreadyFinalized));
    assert_eq!(ledger.is_finalized(5), Some(true));
    let entry = ledger.retire(5).unwrap();
    assert_eq!(entry.counted_len(), 2);
    assert_eq!(entry.audit_len(), 1);
}

#[test]
fn two_of_three_fall_short_of_sixty_seven_percent() {
    let mut entry = TaskLedgerEntry::new(6, 67, 3, 0);
    assert!(matches!(entry.submit(proposal(6, 10, 1)), Ok(Ack::Recorded)));
    assert!(matches!(entry.submit(proposal(6, 10, 2)), Ok(Ack::Recorded)));
    assert!(!entry.is_finalized());
    assert!(matches!(entry.submit(proposal(6, 10, 3)), Ok(Ack::Finalized(_))));
}

#[test]
fn identical_resubmission_counts_once() {
    let mut entry = TaskLedgerEntry::new(1, 66, 3, 0);
    assert!(matches!(entry.submit(proposal(1, 10, 1)), Ok(Ack::Recorded)));
    assert!(matches!(entry.submit(proposal(1, 10, 1)), Ok(Ack::Duplicate)));
    assert_eq!(entry.counted_len(), 1);
    assert!(!entry.is_finalized());
    assert!(matches!(entry.submit(proposal(1, 10, 2)), Ok(Ack::Finalized(_))));
}

#[test]
fn conflicting_resubmission_is_kept_for_audit() {
    let mut entry = TaskLedgerEntry::new(1, 67, 3, 0);
    assert!(matches!(entry.submit(proposal(1, 10, 1)), Ok(Ack::Recorded)));
    assert_eq!(entry.submit(proposal(1, 11, 1)).err(), Some(SubmitError::ConflictingProposal));
    assert_eq!(entry.counted_len(), 1);
    assert_eq!(entry.audit_len(), 1);
    assert!(!entry.is_finalized());
}

#[test]
fn divergent_content_does_not_reach_quorum_together() {
    let mut entry = TaskLedgerEntry::new(2, 66, 3, 0);
    assert!(matches!(entry.submit(proposal(2, 10, 1)), Ok(Ack::Recorded)));
    assert!(matches!(entry.submit(proposal(2, 11, 2)), Ok(Ack::Recorded)));
    assert!(!entry.is_finalized());
    match entry.submit(proposal(2, 11, 3)) {
        Ok(Ack::Finalized(response)) => {
            assert_eq!(response.settlement, settlement(2, 11));
            assert_eq!(response.operators.len(), 2);
            assert_eq!(response.operators[0].bytes, [2u8; 32]);
        }
        _ => panic!("two of three operators agreeing should reach quorum"),
    }
}

#[test]
fn unknown_task_is_refused() {
    let mut ledger = AggregationLedger::new();
    assert!(ledger.register_task(1, 50, 2, 100));
    assert_eq!(ledger.submit(proposal(2, 10, 1)).err(), Some(SubmitError::UnknownTask));
    assert_eq!(ledger.is_finalized(2), None);
    assert!(ledger.retire(2).is_none());
}

#[test]
fn registering_twice_keeps_the_first_entry() {
    let mut ledger = AggregationLedger::new();
    assert!(ledger.register_task(1, 100, 1, 100));
    assert!(!ledger.register_task(1, 50, 4, 100));
    assert!(matches!(ledger.submit(proposal(1, 10, 1)), Ok(Ack::Finalized(_))));
}

#[test]
fn tasks_are_independent() {
    let mut ledger = AggregationLedger::new();
    assert!(ledger.register_task(1, 100, 2, 100));
    assert!(ledger.register_task(2, 50, 2, 100));
    assert!(matches!(ledger.submit(proposal(1, 10, 1)), Ok(Ack::Recorded)));
    assert!(matches!(ledger.submit(proposal(2, 10, 1)), Ok(Ack::Finalized(_))));
    assert_eq!(ledger.is_finalized(1), Some(false));
    assert!(ledger.retire(2).is_some());
    assert_eq!(ledger.is_finalized(2), None);
    assert!(matches!(ledger.submit(proposal(1, 10, 2)), Ok(Ack::Finalized(_))));
}

#[test]
fn quorum_threshold_arithmetic() {
    assert!(quorum_reached(2, 66, 3));
    assert!(!quorum_reached(2, 67, 3));
    assert!(!quorum_reached(1, 66, 3));
    assert!(quorum_reached(3, 100, 3));
    assert!(!quorum_reached(0, 0, 0));
    assert!(quorum_reached(usize::MAX, 100, usize::MAX as u64));
    assert!(!quorum_reached(usize::MAX, 255, u64::MAX));
}

#[test]
fn open_entries_time_out_after_retention() {
    let mut ledger = AggregationLedger::new();
    assert!(ledger.register_task(1, 100, 2, 10));
    assert!(ledger.register_task(2, 50, 2, 20));
    assert!(ledger.register_task(3, 100, 2, 5));
    assert!(matches!(ledger.submit(proposal(3, 10, 1)), Ok(Ack::Recorded)));
    assert!(matches!(ledger.submit(proposal(2, 10, 1)), Ok(Ack::Finalized(_))));
    assert_eq!(ledger.evict_expired(14, 10), None);
    assert_eq!(ledger.evict_expired(15, 10), Some(3));
    assert_eq!(ledger.evict_expired(15, 10), None);
    assert_eq!(ledger.evict_expired(1000, 10), Some(1));
    // A finalized entry is retired, never timed out.
    assert_eq!(ledger.evict_expired(1000, 10), None);
    assert_eq!(ledger.is_finalized(2), Some(true));
    assert_eq!(ledger.submit(proposal(3, 10, 2)).err(), Some(SubmitError::UnknownTask));
}

#[test]
fn expiry_near_the_clock_limit() {
    let entry = TaskLedgerEntry::new(1, 50, 2, u64::MAX - 1);
    assert!(!entry.is_expired(u64::MAX, 2));
    assert!(entry.is_expired(u64::MAX, 1));
    assert!(!entry.is_expired(0, 0));
}
