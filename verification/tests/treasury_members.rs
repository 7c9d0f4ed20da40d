use coop_finance::treasury::{TreasuryContract, TreasuryError};

fn acct(s: &str) -> String {
    s.to_string()
}

fn setup() -> TreasuryContract {
    let mut t = TreasuryContract::new();
    t.initialize(acct("ADMIN"), acct("Harvest Group"), acct("USDC")).unwrap();
    t
}

#[test]
fn initialize_returns_group_info() {
    let mut t = TreasuryContract::new();
    assert!(t.get_group_info().is_none());
    let info = t.initialize(acct("ADMIN"), acct("Harvest Group"), acct("USDC")).unwrap();
    assert_eq!(info.name, "Harvest Group");
    assert_eq!(info.admin, "ADMIN");
    assert_eq!(info.asset, "USDC");
    assert_eq!(info.total_contributions, 0);
    assert_eq!(info.member_count, 0);
    assert!(info.is_active);
    let read = t.get_group_info().unwrap();
    assert_eq!(read.name, info.name);
    assert_eq!(read.admin, info.admin);
    assert_eq!(read.asset, info.asset);
    assert_eq!(read.total_contributions, info.total_contributions);
    assert_eq!(read.member_count, info.member_count);
    assert_eq!(read.is_active, info.is_active);
}

#[test]
fn second_treasury_initialize_is_refused() {
    let mut t = setup();
    let r = t.initialize(acct("EVE"), acct("Other"), acct("XLM"));
    assert_eq!(r.err(), Some(TreasuryError::AlreadyInitialized));
    assert_eq!(t.get_group_info().unwrap().admin, "ADMIN");
}

#[test]
fn members_are_added_once() {
    let mut t = setup();
    assert_eq!(t.add_member(&acct("ADMIN"), acct("ALICE")), Ok(true));
    assert_eq!(t.add_member(&acct("ADMIN"), acct("BOB")), Ok(true));
    assert_eq!(t.add_member(&acct("ADMIN"), acct("ALICE")), Ok(false));
    assert_eq!(t.get_group_info().unwrap().member_count, 2);
}

#[test]
fn add_member_by_non_admin_is_refused() {
    let mut t = setup();
    assert_eq!(t.add_member(&acct("ALICE"), acct("ALICE")), Err(TreasuryError::Unauthorized));
    assert_eq!(t.get_group_info().unwrap().member_count, 0);
}

#[test]
fn add_member_before_initialize_is_refused() {
    let mut t = TreasuryContract::new();
    assert_eq!(t.add_member(&acct("ADMIN"), acct("ALICE")), Err(TreasuryError::NotInitialized));
}

#[test]
fn contributions_are_recorded_and_totalled() {
    let mut t = setup();
    t.add_member(&acct("ADMIN"), acct("ALICE")).unwrap();
    t.add_member(&acct("ADMIN"), acct("BOB")).unwrap();
    let tr = t.contribute(acct("ALICE"), 100, 1, 10).unwrap();
    assert_eq!(tr.asset, "USDC");
    assert_eq!(tr.account, "ALICE");
    assert_eq!(tr.amount, 100);
    t.contribute(acct("BOB"), 50, 1, 11).unwrap();
    t.contribute(acct("ALICE"), 25, 2, 12).unwrap();
    assert_eq!(t.get_group_info().unwrap().total_contributions, 175);
    let alice = t.history_of(&acct("ALICE"));
    assert_eq!(alice.len(), 2);
    assert_eq!((alice[0].amount, alice[0].period, alice[0].timestamp), (100, 1, 10));
    assert_eq!((alice[1].amount, alice[1].period, alice[1].timestamp), (25, 2, 12));
    assert!(alice.iter().all(|r| r.member == "ALICE"));
    let bob = t.history_of(&acct("BOB"));
    assert_eq!(bob.len(), 1);
    assert_eq!(bob[0].amount, 50);
    assert!(t.history_of(&acct("CAROL")).is_empty());
}

#[test]
fn contribution_by_non_member_is_refused() {
    let mut t = setup();
    assert_eq!(t.contribute(acct("ALICE"), 100, 1, 0).err(), Some(TreasuryError::NotMember));
    let mut fresh = TreasuryContract::new();
    assert_eq!(fresh.contribute(acct("ALICE"), 100, 1, 0).err(), Some(TreasuryError::NotInitialized));
}

#[test]
fn non_positive_contribution_is_refused() {
    let mut t = setup();
    t.add_member(&acct("ADMIN"), acct("ALICE")).unwrap();
    assert_eq!(t.contribute(acct("ALICE"), 0, 1, 0).err(), Some(TreasuryError::NonPositiveAmount));
    assert_eq!(t.contribute(acct("ALICE"), -1, 1, 0).err(), Some(TreasuryError::NonPositiveAmount));
    assert!(t.history_of(&acct("ALICE")).is_empty());
}

#[test]
fn contribution_total_overflow_is_refused() {
    let mut t = setup();
    t.add_member(&acct("ADMIN"), acct("ALICE")).unwrap();
    t.contribute(acct("ALICE"), i128::MAX, 1, 0).unwrap();
    assert_eq!(t.contribute(acct("ALICE"), 1, 2, 0).err(), Some(TreasuryError::Overflow));
    assert_eq!(t.get_group_info().unwrap().total_contributions, i128::MAX);
    assert_eq!(t.history_of(&acct("ALICE")).len(), 1);
}

#[test]
fn member_count_counts_distinct_members_added() {
    let mut t = setup();
    t.add_member(&acct("ADMIN"), acct("ALICE")).unwrap();
    t.add_member(&acct("ADMIN"), acct("BOB")).unwrap();
    t.contribute(acct("ALICE"), 10, 1, 1).unwrap();
    t.add_member(&acct("ADMIN"), acct("ALICE")).unwrap();
    t.add_member(&acct("ADMIN"), acct("CAROL")).unwrap();
    t.contribute(acct("CAROL"), 5, 1, 2).unwrap();
    t.add_member(&acct("ADMIN"), acct("BOB")).unwrap();
    t.contribute(acct("BOB"), 7, 2, 3).unwrap();
    let info = t.get_group_info().unwrap();
    assert_eq!(info.member_count, 3);
    assert_eq!(info.total_contributions, 22);
    assert_eq!(t.get_members(), vec![acct("ALICE"), acct("BOB"), acct("CAROL")]);
}

#[test]
fn members_are_empty_before_initialize() {
    let t = TreasuryContract::new();
    assert!(t.get_members().is_empty());
}
