use commitment::calendar::start_of_next_year;
use commitment::{Commitment, CommitmentError, CommitmentStatus, Customer, PurchaseInfo, Timestamp};
use uuid::Uuid;

/// 2020-09-13T12:26:40Z
const MID_2020: Timestamp = Timestamp { secs: 1_600_000_000, nanos: 0 };
/// 2021-01-01T00:00:00Z
const NEW_YEAR_2021: i64 = 1_609_459_200;
/// 2022-01-01T00:00:00Z
const NEW_YEAR_2022: i64 = 1_640_995_200;

fn at(secs: i64) -> Timestamp {
    Timestamp { secs, nanos: 0 }
}

fn entry(id: u128, gross: u32) -> PurchaseInfo {
    PurchaseInfo::new_at(id, 100, gross, 2, MID_2020)
}

#[test]
fn test_commitment_percentage() {
    assert!(Commitment::new(1000, 0, 0).is_ok());
    assert!(Commitment::new(1000, 1, 0).is_ok());
    assert!(Commitment::new(1000, 2, 0).is_ok());
    assert!(Commitment::new(1000, 3, 0).is_ok());
    assert!(Commitment::new(1000, 4, 0).is_ok());
    assert!(Commitment::new(1000, 5, 0).is_ok());
    assert!(Commitment::new(1000, 6, 0).is_ok());
    assert!(Commitment::new(1000, 7, 0).is_err());
    assert!(Commitment::new(1000, 8, 0).is_err());
    assert!(Commitment::new(1000, 9, 0).is_err());
}

#[test]
fn test_commitment_withdraw() {
    // Should be ok
    let mut c = Commitment::new(1000, 2, 0).unwrap();

    // Should be err
    assert!(c.remove_purchase(Uuid::default().as_u128()).is_err());

    let id1 = Uuid::new_v4().as_u128();
    let id2 = Uuid::new_v4().as_u128();
    let id3 = Uuid::new_v4().as_u128();

    assert!(c.add_purchase(PurchaseInfo::new(id1, 100, 127, 2)).is_ok());
    assert!(c.add_purchase(PurchaseInfo::new(id2, 100, 127, 2)).is_ok());
    assert!(c.add_purchase(PurchaseInfo::new(id3, 100, 127, 2)).is_ok());

    assert!(c.remove_purchase(id3).is_ok());

    let _c2 = c.withdraw(1000, 0, 0).unwrap();

    assert!(!c.is_active());
}

#[test]
fn discount_range_decides_creation() {
    for d in 0..=6u32 {
        assert!(Commitment::new_at(1000, d, 0, MID_2020, 1).is_ok());
    }
    for d in [7u32, 8, 100, u32::MAX] {
        assert_eq!(Commitment::new_at(1000, d, 0, MID_2020, 1).unwrap_err(), CommitmentError::Validation);
    }
}

#[test]
fn scenario_discount_three_ok_seven_rejected() {
    assert!(Commitment::new(1000, 3, 0).is_ok());
    assert_eq!(Commitment::new(1000, 7, 0).unwrap_err(), CommitmentError::Validation);
}

#[test]
fn valid_till_is_next_new_year() {
    let c = Commitment::new_at(1000, 3, 9, Timestamp { secs: 1_600_000_000, nanos: 5 }, 42).unwrap();
    assert_eq!(c.valid_till, at(NEW_YEAR_2021));
    assert_eq!(c.commitment_id, 42);
    assert_eq!(c.created_by, 9);
    assert_eq!(c.balance, 0);
    assert!(c.purchase_log.is_empty());
    assert_eq!(c.status, CommitmentStatus::Valid);
    // the last second of a year, and the first of the next
    assert_eq!(start_of_next_year(at(NEW_YEAR_2021 - 1)), at(NEW_YEAR_2021));
    assert_eq!(start_of_next_year(at(NEW_YEAR_2021)), at(NEW_YEAR_2022));
    // before the epoch: 1969-06-01
    assert_eq!(start_of_next_year(at(-18_316_800)), at(0));
    // a leap year: 2024-02-29T00:00:00Z
    assert_eq!(start_of_next_year(at(1_709_164_800)), at(1_735_689_600));
}

#[test]
fn clock_backed_creation_expires_at_new_year() {
    let c = Commitment::new(1000, 3, 0).unwrap();
    assert_eq!(start_of_next_year(c.created_at), c.valid_till);
    assert!(c.created_at.secs > 1_600_000_000);
    assert!(c.is_active());
}

#[test]
fn fresh_ids_differ() {
    let a = Commitment::new(1000, 1, 0).unwrap();
    let b = Commitment::new(1000, 1, 0).unwrap();
    assert_ne!(a.commitment_id, b.commitment_id);
}

#[test]
fn activity_follows_status_and_time() {
    let mut c = Commitment::new_at(1000, 2, 0, MID_2020, 1).unwrap();
    assert!(c.is_active_at(MID_2020));
    assert!(c.is_active_at(at(NEW_YEAR_2021)));
    assert!(!c.is_active_at(Timestamp { secs: NEW_YEAR_2021, nanos: 1 }));
    let _next = c.withdraw_at(1000, 1, 0, MID_2020, 2).unwrap();
    assert!(!c.is_active_at(MID_2020));
}

#[test]
fn ledger_add_and_remove() {
    let mut c = Commitment::new_at(1000, 2, 0, MID_2020, 1).unwrap();
    assert_eq!(c.add_purchase(entry(10, 127)), Ok(()));
    assert_eq!(c.add_purchase(entry(11, 50)), Ok(()));
    assert_eq!(c.balance, 177);
    assert_eq!(c.add_purchase(entry(10, 999)), Err(CommitmentError::Duplicate));
    assert_eq!(c.balance, 177);
    assert_eq!(c.purchase_log.len(), 2);
    assert_eq!(c.remove_purchase(12), Err(CommitmentError::NotFound));
    assert_eq!(c.remove_purchase(10), Ok(()));
    assert_eq!(c.balance, 50);
    assert!(c.purchase_log[0].removed);
    assert_eq!(c.purchase_log.len(), 2);
    // a removed entry still blocks its id
    assert_eq!(c.add_purchase(entry(10, 1)), Err(CommitmentError::Duplicate));
}

#[test]
fn add_then_remove_restores_balance() {
    let mut c = Commitment::new_at(1000, 2, 0, MID_2020, 1).unwrap();
    c.add_purchase(entry(10, 300)).unwrap();
    let before = c.balance;
    c.add_purchase(entry(11, 127)).unwrap();
    c.remove_purchase(11).unwrap();
    assert_eq!(c.balance, before);
}

#[test]
fn removing_twice_subtracts_once() {
    let mut c = Commitment::new_at(1000, 2, 0, MID_2020, 1).unwrap();
    c.add_purchase(entry(10, 300)).unwrap();
    c.add_purchase(entry(11, 127)).unwrap();
    assert_eq!(c.remove_purchase(11), Ok(()));
    assert_eq!(c.remove_purchase(11), Ok(()));
    assert_eq!(c.balance, 300);
}

#[test]
fn withdraw_carries_ledger_forward() {
    let mut a = Commitment::new_at(1000, 2, 0, MID_2020, 1).unwrap();
    a.add_purchase(entry(10, 127)).unwrap();
    a.add_purchase(entry(11, 3)).unwrap();
    a.remove_purchase(11).unwrap();
    let later = at(NEW_YEAR_2021 + 100);
    let b = a.withdraw_at(2000, 1, 7, later, 2).unwrap();
    assert_eq!(a.status, CommitmentStatus::Withdrawn { successor: 2 });
    assert_eq!(b.balance, 127);
    assert_eq!(b.purchase_log, a.purchase_log);
    assert_eq!(b.created_at, later);
    assert_eq!(b.created_by, 7);
    assert_eq!(b.valid_till, at(NEW_YEAR_2022));
    let mut c = Commitment::new_at(1000, 2, 0, MID_2020, 3).unwrap();
    assert_eq!(c.withdraw_at(1000, 9, 0, MID_2020, 4).unwrap_err(), CommitmentError::Validation);
    assert_eq!(c.status, CommitmentStatus::Valid);
}

#[test]
fn purchase_info_constructors() {
    let p = PurchaseInfo::new(5, 100, 127, 2);
    assert_eq!((p.purchase_id, p.total_net, p.total_gross, p.applied_discount, p.removed), (5, 100, 127, 2, false));
    let mut q = entry(6, 10);
    q.set_removed();
    assert!(q.removed);
    assert_eq!(q.total_gross, 10);
}

fn customer_with_purchase() -> Customer {
    let mut cu = Customer::new_at(7, 1000, 3, 1, MID_2020, 100).unwrap();
    assert_eq!(cu.add_purchase_at(100, entry(10, 127), MID_2020), Ok(()));
    cu
}

#[test]
fn scenario_withdrawal_copies_balance_and_log() {
    let mut cu = customer_with_purchase();
    assert_eq!(cu.commitments[0].balance, 127);
    assert_eq!(cu.add_commitment_at(2000, 1, 5, MID_2020, 200), Ok(()));
    assert_eq!(cu.commitments.len(), 2);
    assert_eq!(cu.commitments[0].status, CommitmentStatus::Withdrawn { successor: 200 });
    let b = &cu.commitments[1];
    assert_eq!(b.commitment_id, 200);
    assert_eq!(b.balance, 127);
    assert_eq!(b.purchase_log, vec![entry(10, 127)]);
    assert_eq!(b.target, 2000);
    assert_eq!(b.discount_percentage, 1);
}

#[test]
fn scenario_remove_along_chain() {
    let mut cu = customer_with_purchase();
    cu.add_commitment_at(2000, 1, 5, MID_2020, 200).unwrap();
    assert_eq!(cu.remove_purchase(100, 10), Ok(()));
    assert_eq!(cu.commitments[0].balance, 0);
    assert_eq!(cu.commitments[1].balance, 0);
    assert!(cu.commitments[0].purchase_log[0].removed);
    assert!(cu.commitments[1].purchase_log[0].removed);
}

#[test]
fn scenario_superseded_commitment_refuses_purchase() {
    let mut cu = customer_with_purchase();
    cu.add_commitment_at(2000, 1, 5, MID_2020, 200).unwrap();
    assert_eq!(cu.add_purchase_at(100, entry(11, 50), MID_2020), Err(CommitmentError::StateConflict));
    assert_eq!(cu.commitments.len(), 2);
    assert_eq!(cu.commitments[0].purchase_log.len(), 1);
    assert_eq!(cu.commitments[1].purchase_log.len(), 1);
    assert_eq!(cu.commitments[0].balance, 127);
    assert_eq!(cu.commitments[1].balance, 127);
}

#[test]
fn scenario_unknown_purchase_on_head() {
    let mut cu = customer_with_purchase();
    cu.add_commitment_at(2000, 1, 5, MID_2020, 200).unwrap();
    assert_eq!(cu.remove_purchase(200, 999), Err(CommitmentError::NotFound));
    assert_eq!(cu.commitments[1].balance, 127);
    assert!(!cu.commitments[1].purchase_log[0].removed);
    assert_eq!(cu.commitments[0].balance, 127);
}

#[test]
fn chain_miss_at_withdrawn_link_is_not_an_error() {
    let mut cu = Customer::new_at(7, 1000, 3, 1, MID_2020, 100).unwrap();
    cu.add_commitment_at(2000, 1, 5, MID_2020, 200).unwrap();
    cu.add_purchase_at(200, entry(10, 40), MID_2020).unwrap();
    assert_eq!(cu.remove_purchase(100, 10), Ok(()));
    assert_eq!(cu.commitments[1].balance, 0);
    assert_eq!(cu.remove_purchase(300, 10), Err(CommitmentError::NotFound));
}

#[test]
fn only_the_last_commitment_is_active() {
    let mut cu = customer_with_purchase();
    cu.add_commitment_at(2000, 1, 5, MID_2020, 200).unwrap();
    cu.add_commitment_at(3000, 2, 5, MID_2020, 300).unwrap();
    let active: Vec<bool> = cu.commitments.iter().map(|c| c.is_active_at(MID_2020)).collect();
    assert_eq!(active, vec![false, false, true]);
    assert_eq!(cu.get_active_commitment_at(MID_2020).unwrap().commitment_id, 300);
    assert!(cu.has_active_commitment_at(MID_2020));
}

#[test]
fn expired_head_gets_a_fresh_commitment() {
    let mut cu = customer_with_purchase();
    let next_year = at(NEW_YEAR_2021 + 10);
    assert!(cu.get_active_commitment_at(next_year).is_none());
    assert_eq!(cu.add_purchase_at(100, entry(11, 1), next_year), Err(CommitmentError::StateConflict));
    cu.add_commitment_at(500, 4, 2, next_year, 200).unwrap();
    assert_eq!(cu.commitments[0].status, CommitmentStatus::Valid);
    assert_eq!(cu.commitments[1].balance, 0);
    assert!(cu.commitments[1].purchase_log.is_empty());
    assert_eq!(cu.commitments[1].valid_till, at(NEW_YEAR_2022));
    let active: Vec<bool> = cu.commitments.iter().map(|c| c.is_active_at(next_year)).collect();
    assert_eq!(active, vec![false, true]);
}

#[test]
fn customer_lookups_and_errors() {
    let mut cu = customer_with_purchase();
    assert_eq!(*cu.get_id(), 7);
    assert!(cu.has_commitment(100));
    assert!(!cu.has_commitment(101));
    assert_eq!(cu.get_commitment(100).unwrap().balance, 127);
    assert_eq!(cu.get_commitment(101).unwrap_err(), CommitmentError::NotFound);
    assert_eq!(cu.add_purchase_at(101, entry(11, 1), MID_2020), Err(CommitmentError::NotFound));
    assert_eq!(cu.add_purchase_at(100, entry(10, 1), MID_2020), Err(CommitmentError::Duplicate));
    assert_eq!(cu.remove_purchase(101, 10), Err(CommitmentError::NotFound));
    assert_eq!(cu.add_commitment_at(1, 7, 0, MID_2020, 200), Err(CommitmentError::Validation));
    assert_eq!(cu.commitments.len(), 1);
    assert_eq!(Customer::new_at(1, 1000, 7, 0, MID_2020, 1).unwrap_err(), CommitmentError::Validation);
}

#[test]
fn clock_backed_customer_flow() {
    let mut cu = Customer::new(3, 1000, 2, 1).unwrap();
    let a = cu.commitments[0].commitment_id;
    assert!(cu.get_active_commitment().is_some());
    assert_eq!(cu.add_purchase(a, PurchaseInfo::new(1, 100, 127, 2)), Ok(()));
    assert_eq!(cu.add_commitment(2000, 1, 1), Ok(()));
    assert_eq!(cu.commitments[1].balance, 127);
    assert_eq!(cu.add_commitment(2000, 7, 1), Err(CommitmentError::Validation));
    assert!(Customer::new(3, 1000, 9, 1).is_err());
}

#[test]
fn defaults() {
    assert_eq!(CommitmentStatus::default(), CommitmentStatus::Valid);
    let c = Commitment::default();
    assert_eq!((c.commitment_id, c.balance, c.valid_till), (0, 0, c.created_at));
    let cu = Customer::default();
    assert!(cu.commitments.is_empty());
    assert_eq!(PurchaseInfo::default().purchase_id, 0);
}

#[test]
fn timestamps_order_by_seconds_then_nanos() {
    let a = Timestamp { secs: 5, nanos: 10 };
    assert!(a.le(&a));
    assert!(a.le(&Timestamp { secs: 5, nanos: 11 }));
    assert!(!a.le(&Timestamp { secs: 5, nanos: 9 }));
    assert!(a.le(&Timestamp { secs: 6, nanos: 0 }));
    assert!(!Timestamp { secs: 6, nanos: 0 }.le(&a));
}

#[test]
fn instants_outside_the_calendar_range_are_refused() {
    let early = at(-62_167_219_201);
    let late = at(253_402_300_800);
    assert_eq!(Commitment::new_at(1000, 3, 0, early, 1).unwrap_err(), CommitmentError::ClockOutOfRange);
    assert_eq!(Commitment::new_at(1000, 3, 0, late, 1).unwrap_err(), CommitmentError::ClockOutOfRange);
    assert_eq!(Commitment::new_at(1000, 7, 0, late, 1).unwrap_err(), CommitmentError::Validation);
    assert!(Commitment::new_at(1000, 3, 0, at(-62_167_219_200), 1).is_ok());
    assert_eq!(Customer::new_at(1, 1000, 3, 0, late, 1).unwrap_err(), CommitmentError::ClockOutOfRange);
    let mut c = Commitment::new_at(1000, 2, 0, MID_2020, 1).unwrap();
    assert_eq!(c.withdraw_at(1000, 1, 0, late, 2).unwrap_err(), CommitmentError::ClockOutOfRange);
    assert_eq!(c.status, CommitmentStatus::Valid);
    let mut cu = customer_with_purchase();
    assert_eq!(cu.add_commitment_at(2000, 1, 5, late, 200), Err(CommitmentError::ClockOutOfRange));
    assert_eq!(cu.commitments.len(), 1);
}

#[test]
fn a_taken_commitment_id_is_refused() {
    let mut cu = customer_with_purchase();
    assert_eq!(cu.add_commitment_at(2000, 1, 5, MID_2020, 100), Err(CommitmentError::IdTaken));
    assert_eq!(cu.commitments.len(), 1);
    assert_eq!(cu.commitments[0].status, CommitmentStatus::Valid);
}

#[test]
fn well_formedness_is_checked() {
    let mut cu = customer_with_purchase();
    cu.add_commitment_at(2000, 1, 5, MID_2020, 200).unwrap();
    assert!(cu.is_well_formed());
    assert!(Customer::default().is_well_formed());

    let mut bad_balance = cu.clone();
    bad_balance.commitments[1].balance = 5;
    assert!(!bad_balance.is_well_formed());

    let mut same_ids = cu.clone();
    same_ids.commitments[1].commitment_id = 100;
    assert!(!same_ids.is_well_formed());

    let mut dangling = cu.clone();
    dangling.commitments.pop();
    assert!(!dangling.is_well_formed());

    let mut two_live = cu.clone();
    two_live.commitments[0].status = CommitmentStatus::Valid;
    assert!(!two_live.is_well_formed());

    let mut twice_logged = cu.clone();
    twice_logged.commitments[1].purchase_log.push(entry(10, 0));
    assert!(!twice_logged.is_well_formed());
}
