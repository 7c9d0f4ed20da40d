use coop_finance::dividend::{DividendContract, DividendError};

fn acct(s: &str) -> String {
    s.to_string()
}

fn setup() -> DividendContract {
    let mut d = DividendContract::new();
    d.initialize(acct("ADMIN"), acct("USDC"), acct("TREASURY"));
    d
}

fn accts(names: &[&str]) -> Vec<String> {
    names.iter().map(|s| s.to_string()).collect()
}

#[test]
fn distribute_is_proportional() {
    let mut d = setup();
    let (id, transfers) = d
        .distribute(&acct("ADMIN"), accts(&["A", "B", "C"]), vec![1, 2, 3], 600, acct("2024-Q1"), 77)
        .unwrap();
    assert_eq!(id, 1);
    assert_eq!(transfers.len(), 3);
    let got: Vec<(String, i128)> = transfers.iter().map(|t| (t.account.clone(), t.amount)).collect();
    assert_eq!(got, vec![(acct("A"), 100), (acct("B"), 200), (acct("C"), 300)]);
    assert!(transfers.iter().all(|t| t.asset == "USDC"));
    let all = d.get_distributions();
    assert_eq!(all.len(), 1);
    assert_eq!(all[0].id, 1);
    assert_eq!(all[0].total_profit, 600);
    assert_eq!(all[0].total_shares, 6);
    assert_eq!(all[0].amounts, vec![100, 200, 300]);
    assert_eq!(all[0].recipients, accts(&["A", "B", "C"]));
    assert_eq!(all[0].executed_at, 77);
    assert_eq!(all[0].period, "2024-Q1");
    assert_eq!(d.distribution_counter, 1);
}

#[test]
fn rounding_loses_less_than_one_per_recipient() {
    let mut d = setup();
    let (_, transfers) = d
        .distribute(&acct("ADMIN"), accts(&["A", "B", "C"]), vec![1, 1, 1], 100, acct("p"), 0)
        .unwrap();
    let paid: i128 = transfers.iter().map(|t| t.amount).sum();
    assert_eq!(paid, 99);
    assert!(paid <= 100 && 100 - 3 < paid);
    assert_eq!(d.get_distributions()[0].amounts, vec![33, 33, 33]);
}

#[test]
fn zero_payout_is_recorded_but_not_transferred() {
    let mut d = setup();
    let (_, transfers) = d
        .distribute(&acct("ADMIN"), accts(&["A", "B"]), vec![0, 5], 10, acct("p"), 0)
        .unwrap();
    assert_eq!(transfers.len(), 1);
    assert_eq!(transfers[0].account, "B");
    assert_eq!(transfers[0].amount, 10);
    assert_eq!(d.get_distributions()[0].amounts, vec![0, 10]);
}

#[test]
fn negative_share_rounds_towards_zero() {
    let mut d = setup();
    let (_, transfers) = d
        .distribute(&acct("ADMIN"), accts(&["A", "B"]), vec![5, -2], 1, acct("p"), 0)
        .unwrap();
    assert_eq!(d.get_distributions()[0].amounts, vec![1, 0]);
    assert_eq!(transfers.len(), 1);
    let (_, transfers) = d
        .distribute(&acct("ADMIN"), accts(&["A", "B"]), vec![3, -1], 10, acct("p"), 0)
        .unwrap();
    assert_eq!(d.get_distributions()[1].amounts, vec![15, -5]);
    assert_eq!(transfers.len(), 1);
    assert_eq!(transfers[0].amount, 15);
}

#[test]
fn distribution_ids_are_consecutive() {
    let mut d = setup();
    for expected in 1..=3u32 {
        let (id, _) = d.distribute(&acct("ADMIN"), accts(&["A"]), vec![1], 5, acct("p"), 0).unwrap();
        assert_eq!(id, expected);
    }
    let ids: Vec<u32> = d.get_distributions().iter().map(|x| x.id).collect();
    assert_eq!(ids, vec![1, 2, 3]);
    d.initialize(acct("ADMIN"), acct("USDC"), acct("TREASURY"));
    assert!(d.get_distributions().is_empty());
    let (id, _) = d.distribute(&acct("ADMIN"), accts(&["A"]), vec![1], 5, acct("p"), 0).unwrap();
    assert_eq!(id, 1);
}

#[test]
fn distribute_before_initialize_is_refused() {
    let mut d = DividendContract::new();
    let r = d.distribute(&acct("ADMIN"), accts(&["A"]), vec![1], 5, acct("p"), 0);
    assert_eq!(r.err(), Some(DividendError::NotInitialized));
}

#[test]
fn distribute_by_non_admin_is_refused() {
    let mut d = setup();
    let r = d.distribute(&acct("EVE"), accts(&["A"]), vec![1], 5, acct("p"), 0);
    assert_eq!(r.err(), Some(DividendError::Unauthorized));
    assert!(d.get_distributions().is_empty());
}

#[test]
fn length_mismatch_is_refused() {
    let mut d = setup();
    let r = d.distribute(&acct("ADMIN"), accts(&["A", "B"]), vec![1], 5, acct("p"), 0);
    assert_eq!(r.err(), Some(DividendError::LengthMismatch));
}

#[test]
fn non_positive_profit_is_refused() {
    let mut d = setup();
    let r = d.distribute(&acct("ADMIN"), accts(&["A"]), vec![1], 0, acct("p"), 0);
    assert_eq!(r.err(), Some(DividendError::NonPositiveProfit));
    let r = d.distribute(&acct("ADMIN"), accts(&["A"]), vec![1], -5, acct("p"), 0);
    assert_eq!(r.err(), Some(DividendError::NonPositiveProfit));
}

#[test]
fn shares_overflow_is_refused() {
    let mut d = setup();
    let r = d.distribute(&acct("ADMIN"), accts(&["A", "B", "C"]), vec![i128::MAX, 1, -1], 5, acct("p"), 0);
    assert_eq!(r.err(), Some(DividendError::SharesOverflow));
}

#[test]
fn zero_total_shares_is_refused() {
    let mut d = setup();
    let r = d.distribute(&acct("ADMIN"), accts(&["A", "B"]), vec![1, -1], 5, acct("p"), 0);
    assert_eq!(r.err(), Some(DividendError::ZeroTotalShares));
    let r = d.distribute(&acct("ADMIN"), Vec::new(), Vec::new(), 5, acct("p"), 0);
    assert_eq!(r.err(), Some(DividendError::ZeroTotalShares));
}

#[test]
fn payout_overflow_is_refused() {
    let mut d = setup();
    let r = d.distribute(&acct("ADMIN"), accts(&["A", "B"]), vec![2, -1], i128::MAX, acct("p"), 0);
    assert_eq!(r.err(), Some(DividendError::PayoutOverflow));
    assert!(d.get_distributions().is_empty());
}

#[test]
fn distribution_counter_overflow_is_refused() {
    let mut d = setup();
    d.distribution_counter = u32::MAX;
    let r = d.distribute(&acct("ADMIN"), accts(&["A"]), vec![1], 5, acct("p"), 0);
    assert_eq!(r.err(), Some(DividendError::CounterOverflow));
}
