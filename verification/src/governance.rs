//! Governance: the cooperative's rules, which only the registered admin may
//! change, and the addresses of the contracts that it oversees.

use vstd::prelude::*;

use crate::common::AccountId;

verus! {

/// The rules of the cooperative.
#[derive(Clone, Copy, Debug, PartialEq, Eq, Structural)]
pub struct CoopRules {
    pub min_contribution: i128,
    pub contribution_period_days: u32,
    pub max_loan_multiplier: u32,
    pub loan_interest_bps: u32,
    pub voting_quorum: u32,
    pub voting_period_days: u32,
    pub late_penalty_bps: u32,
}

/// The rules that `initialize` sets.
pub open spec fn default_rules_spec() -> CoopRules {
    CoopRules {
        min_contribution: 10_000_000,
        contribution_period_days: 30,
        max_loan_multiplier: 3,
        loan_interest_bps: 500,
        voting_quorum: 3,
        voting_period_days: 7,
        late_penalty_bps: 200,
    }
}

/// The addresses that `initialize` registers.
pub struct GovernanceConfig {
    pub admin: AccountId,
    pub voting: AccountId,
    pub loan: AccountId,
    pub treasury: AccountId,
}

/// Why an operation of the governance contract was refused.
#[derive(Clone, Copy, Debug, PartialEq, Eq, Structural)]
pub enum GovernanceError {
    /// No admin is registered yet.
    NotInitialized,
    /// The caller is not the registered admin.
    Unauthorized,
}

/// The stored state of the governance contract: its registered addresses and
/// its rules, each absent until `initialize`.
pub struct GovernanceContract {
    pub config: Option<GovernanceConfig>,
    pub rules: Option<CoopRules>,
}

impl GovernanceContract {
    /// Whether `caller` may act as admin: refused before `initialize` and for
    /// any account but the registered admin.
    pub open spec fn admin_check(self, caller: Seq<char>) -> Result<(), GovernanceError> {
        match self.config {
            None => Err(GovernanceError::NotInitialized),
            Some(c) => if c.admin@ != caller {
                Err(GovernanceError::Unauthorized)
            } else {
                Ok(())
            },
        }
    }

    /// State and result of `update_rules`.
    pub open spec fn update_rules_spec(self, admin: Seq<char>, rules: CoopRules) -> (Self, Result<(), GovernanceError>) {
        match self.admin_check(admin) {
            Err(e) => (self, Err(e)),
            Ok(()) => (GovernanceContract { config: self.config, rules: Some(rules) }, Ok(())),
        }
    }

    /// The state of a contract that nothing has been stored in.
    pub fn new() -> (c: Self)
        ensures
            c.config is None,
            c.rules is None,
    {
        GovernanceContract { config: None, rules: None }
    }

    /// The rules that `initialize` sets.
    pub fn default_rules() -> (r: CoopRules)
        ensures
            r == default_rules_spec(),
    {
        CoopRules {
            min_contribution: 10_000_000,
            contribution_period_days: 30,
            max_loan_multiplier: 3,
            loan_interest_bps: 500,
            voting_quorum: 3,
            voting_period_days: 7,
            late_penalty_bps: 200,
        }
    }

    /// Registers the admin and the addresses of the other contracts and sets
    /// the default rules, replacing whatever was stored before.
    pub fn initialize(
        &mut self,
        admin: AccountId,
        voting: AccountId,
        loan: AccountId,
        treasury: AccountId,
    )
        ensures
            final(self).config == Some(
                (GovernanceConfig { admin: admin, voting: voting, loan: loan, treasury: treasury }),
            ),
            final(self).rules == Some(default_rules_spec()),
    {
        self.config = Some(GovernanceConfig { admin, voting, loan, treasury });
        self.rules = Some(Self::default_rules());
    }

    /// Checks that `caller` is the registered admin.
    fn require_admin(&self, caller: &AccountId) -> (r: Result<(), GovernanceError>)
        ensures
            r == self.admin_check(caller@),
    {
        match &self.config {
            None => Err(GovernanceError::NotInitialized),
            Some(c) => if c.admin == *caller {
                Ok(())
            } else {
                Err(GovernanceError::Unauthorized)
            },
        }
    }

    /// Replaces the rules; only the registered admin may.
    pub fn update_rules(&mut self, admin: &AccountId, rules: CoopRules) -> (r: Result<(), GovernanceError>)
        ensures
            (*final(self), r) == old(self).update_rules_spec(admin@, rules),
    {
        let checked = self.require_admin(admin);
        match checked {
            Err(e) => Err(e),
            Ok(()) => {
                self.rules = Some(rules);
                Ok(())
            },
        }
    }

    /// The current rules, if `initialize` has set them.
    pub fn get_rules(&self) -> (r: Option<CoopRules>)
        ensures
            r == self.rules,
    {
        self.rules
    }
}

/// Reading the rules after an update gives back exactly the rules written,
/// when the caller is the registered admin; any other caller is refused and
/// leaves the contract as it was.
pub proof fn law_rules_read_back_update(s: GovernanceContract, admin: Seq<char>, rules: CoopRules)
    ensures
        ({
            let (after, r) = s.update_rules_spec(admin, rules);
            &&& (r is Ok <==> (s.config is Some && s.config.unwrap().admin@ == admin))
            &&& r is Ok ==> after.rules == Some(rules) && after.config == s.config
            &&& r is Err ==> after == s
        }),
{
}

/// Updating the rules twice keeps only the second rules.
pub proof fn law_last_update_wins(s: GovernanceContract, admin: Seq<char>, first: CoopRules, second: CoopRules)
    requires
        s.update_rules_spec(admin, first).1 is Ok,
    ensures
        s.update_rules_spec(admin, first).0.update_rules_spec(admin, second)
            == s.update_rules_spec(admin, second),
{
}

} // verus!
