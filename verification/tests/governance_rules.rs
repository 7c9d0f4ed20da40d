use coop_finance::governance::{CoopRules, GovernanceContract, GovernanceError};

fn acct(s: &str) -> String {
    s.to_string()
}

fn custom_rules() -> CoopRules {
    CoopRules {
        min_contribution: 5,
        contribution_period_days: 14,
        max_loan_multiplier: 2,
        loan_interest_bps: 750,
        voting_quorum: 5,
        voting_period_days: 3,
        late_penalty_bps: 100,
    }
}

fn setup() -> GovernanceContract {
    let mut g = GovernanceContract::new();
    g.initialize(acct("ADMIN"), acct("VOTING"), acct("LOAN"), acct("TREASURY"));
    g
}

#[test]
fn rules_absent_before_initialize() {
    let g = GovernanceContract::new();
    assert!(g.get_rules().is_none());
}

#[test]
fn initialize_sets_default_rules() {
    let g = setup();
    let r = g.get_rules().unwrap();
    assert_eq!(r.min_contribution, 10_000_000);
    assert_eq!(r.contribution_period_days, 30);
    assert_eq!(r.max_loan_multiplier, 3);
    assert_eq!(r.loan_interest_bps, 500);
    assert_eq!(r.voting_quorum, 3);
    assert_eq!(r.voting_period_days, 7);
    assert_eq!(r.late_penalty_bps, 200);
    assert_eq!(r, GovernanceContract::default_rules());
    let c = g.config.as_ref().unwrap();
    assert_eq!(c.admin, "ADMIN");
    assert_eq!(c.voting, "VOTING");
    assert_eq!(c.loan, "LOAN");
    assert_eq!(c.treasury, "TREASURY");
}

#[test]
fn admin_update_is_read_back() {
    let mut g = setup();
    assert_eq!(g.update_rules(&acct("ADMIN"), custom_rules()), Ok(()));
    assert_eq!(g.get_rules(), Some(custom_rules()));
}

#[test]
fn non_admin_update_is_refused() {
    let mut g = setup();
    assert_eq!(g.update_rules(&acct("MALLORY"), custom_rules()), Err(GovernanceError::Unauthorized));
    assert_eq!(g.get_rules(), Some(GovernanceContract::default_rules()));
}

#[test]
fn update_before_initialize_is_refused() {
    let mut g = GovernanceContract::new();
    assert_eq!(g.update_rules(&acct("ADMIN"), custom_rules()), Err(GovernanceError::NotInitialized));
    assert!(g.get_rules().is_none());
}

#[test]
fn last_update_wins() {
    let mut g = setup();
    g.update_rules(&acct("ADMIN"), custom_rules()).unwrap();
    let mut second = custom_rules();
    second.voting_quorum = 9;
    g.update_rules(&acct("ADMIN"), second).unwrap();
    assert_eq!(g.get_rules().unwrap().voting_quorum, 9);
}

#[test]
fn reinitialize_restores_defaults() {
    let mut g = setup();
    g.update_rules(&acct("ADMIN"), custom_rules()).unwrap();
    g.initialize(acct("NEW"), acct("VOTING"), acct("LOAN"), acct("TREASURY"));
    assert_eq!(g.get_rules(), Some(GovernanceContract::default_rules()));
    assert_eq!(g.update_rules(&acct("ADMIN"), custom_rules()), Err(GovernanceError::Unauthorized));
}
