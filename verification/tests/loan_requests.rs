use coop_finance::loan::{LoanContract, LoanError, LoanStatus};

fn acct(s: &str) -> String {
    s.to_string()
}

fn members() -> Vec<String> {
    vec![acct("A"), acct("B"), acct("BOB")]
}

fn setup() -> LoanContract {
    let mut l = LoanContract::new();
    l.initialize(acct("ADMIN"), acct("TREASURY"), acct("USDC")).unwrap();
    l
}

#[test]
fn request_records_pending_loan() {
    let mut l = setup();
    let id = l.request_loan(&members(), acct("BOB"), 500, acct("tractor"), 30, 1_000).unwrap();
    assert_eq!(id, 1);
    let loans = l.get_loans();
    assert_eq!(loans.len(), 1);
    let loan = &loans[0];
    assert_eq!(loan.id, 1);
    assert_eq!(loan.borrower, "BOB");
    assert_eq!(loan.amount, 500);
    assert_eq!(loan.interest_bps, 500);
    assert_eq!(loan.repayment_due, 1_000 + 30 * 86_400);
    assert_eq!(loan.amount_repaid, 0);
    assert_eq!(loan.status, LoanStatus::Pending);
    assert_eq!(loan.purpose, "tractor");
    assert_eq!(loan.requested_at, 1_000);
    assert_eq!(loan.approved_at, 0);
}

#[test]
fn loan_ids_are_consecutive() {
    let mut l = setup();
    assert_eq!(l.request_loan(&members(), acct("A"), 1, acct("x"), 1, 0), Ok(1));
    assert_eq!(l.request_loan(&members(), acct("B"), 2, acct("y"), 1, 0), Ok(2));
    let ids: Vec<u32> = l.get_loans().iter().map(|x| x.id).collect();
    assert_eq!(ids, vec![1, 2]);
    assert_eq!(l.loan_counter, 2);
}

#[test]
fn approval_pays_out_once() {
    let mut l = setup();
    let id = l.request_loan(&members(), acct("BOB"), 500, acct("tractor"), 30, 0).unwrap();
    let t = l.approve_loan(&acct("ADMIN"), id, 42).unwrap();
    assert_eq!(t.asset, "USDC");
    assert_eq!(t.account, "BOB");
    assert_eq!(t.amount, 500);
    let loan = &l.get_loans()[0];
    assert_eq!(loan.status, LoanStatus::Approved);
    assert_eq!(loan.approved_at, 42);
    assert_eq!(l.approve_loan(&acct("ADMIN"), id, 43).err(), Some(LoanError::NotPending));
    assert_eq!(l.get_loans()[0].approved_at, 42);
}

#[test]
fn approval_leaves_other_loans() {
    let mut l = setup();
    l.request_loan(&members(), acct("A"), 1, acct("x"), 1, 0).unwrap();
    l.request_loan(&members(), acct("B"), 2, acct("y"), 1, 0).unwrap();
    l.approve_loan(&acct("ADMIN"), 2, 5).unwrap();
    let loans = l.get_loans();
    assert_eq!(loans[0].status, LoanStatus::Pending);
    assert_eq!(loans[1].status, LoanStatus::Approved);
}

#[test]
fn non_positive_amount_is_refused() {
    let mut l = setup();
    assert_eq!(l.request_loan(&members(), acct("A"), 0, acct("x"), 1, 0), Err(LoanError::NonPositiveAmount));
    assert_eq!(l.request_loan(&members(), acct("A"), -3, acct("x"), 1, 0), Err(LoanError::NonPositiveAmount));
    assert!(l.get_loans().is_empty());
}

#[test]
fn second_initialize_is_refused() {
    let mut l = setup();
    assert_eq!(l.initialize(acct("EVE"), acct("T"), acct("X")), Err(LoanError::AlreadyInitialized));
    assert_eq!(l.config.as_ref().unwrap().admin, "ADMIN");
}

#[test]
fn requests_before_initialize_are_cleared_by_it() {
    let mut l = LoanContract::new();
    assert_eq!(l.request_loan(&members(), acct("A"), 1, acct("x"), 1, 0), Ok(1));
    assert_eq!(l.approve_loan(&acct("ADMIN"), 1, 0).err(), Some(LoanError::NotInitialized));
    l.initialize(acct("ADMIN"), acct("TREASURY"), acct("USDC")).unwrap();
    assert!(l.get_loans().is_empty());
    assert_eq!(l.request_loan(&members(), acct("A"), 1, acct("x"), 1, 0), Ok(1));
}

#[test]
fn approval_by_non_admin_is_refused() {
    let mut l = setup();
    let id = l.request_loan(&members(), acct("A"), 1, acct("x"), 1, 0).unwrap();
    assert_eq!(l.approve_loan(&acct("A"), id, 0).err(), Some(LoanError::Unauthorized));
    assert_eq!(l.get_loans()[0].status, LoanStatus::Pending);
}

#[test]
fn approval_of_unknown_loan_is_refused() {
    let mut l = setup();
    assert_eq!(l.approve_loan(&acct("ADMIN"), 7, 0).err(), Some(LoanError::LoanNotFound));
}

#[test]
fn loan_counter_overflow_is_refused() {
    let mut l = setup();
    l.loan_counter = u32::MAX;
    assert_eq!(l.request_loan(&members(), acct("A"), 1, acct("x"), 1, 0), Err(LoanError::CounterOverflow));
}

#[test]
fn due_date_overflow_is_refused() {
    let mut l = setup();
    assert_eq!(l.request_loan(&members(), acct("A"), 1, acct("x"), 2, u64::MAX - 86_400), Err(LoanError::DueDateOverflow));
}

#[test]
fn loan_request_by_non_member_is_refused() {
    let mut l = setup();
    assert_eq!(l.request_loan(&members(), acct("EVE"), 5, acct("x"), 1, 0), Err(LoanError::NotMember));
    assert_eq!(l.request_loan(&Vec::new(), acct("BOB"), 5, acct("x"), 1, 0), Err(LoanError::NotMember));
    assert!(l.get_loans().is_empty());
    assert_eq!(l.loan_counter, 0);
}

#[test]
fn approved_loan_stays_settled_through_later_calls() {
    let mut l = setup();
    let id = l.request_loan(&members(), acct("BOB"), 500, acct("tractor"), 30, 0).unwrap();
    l.approve_loan(&acct("ADMIN"), id, 1).unwrap();
    l.request_loan(&members(), acct("A"), 7, acct("seed"), 3, 2).unwrap();
    l.approve_loan(&acct("ADMIN"), 2, 3).unwrap();
    assert_eq!(l.initialize(acct("ADMIN"), acct("TREASURY"), acct("USDC")), Err(LoanError::AlreadyInitialized));
    l.request_loan(&members(), acct("B"), 9, acct("tools"), 3, 4).unwrap();
    assert_eq!(l.approve_loan(&acct("ADMIN"), id, 5).err(), Some(LoanError::NotPending));
    assert_eq!(l.get_loans()[0].approved_at, 1);
}
