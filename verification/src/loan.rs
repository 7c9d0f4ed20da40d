//! Loans: members request loans, which the admin approves and pays out from
//! the contract.

use vstd::prelude::*;

use crate::common::{
    AccountId, Duplicate, Keyed, SECONDS_PER_DAY, Transfer, contains_account, copy_all, find_first,
    first_position, has_account, keys_of, lemma_first_position_props, lemma_first_position_push,
};

verus! {

/// Where a loan stands.
#[derive(Clone, Copy, Debug, PartialEq, Eq, Structural)]
pub enum LoanStatus {
    Pending,
    Approved,
    Repaid,
    Rejected,
    Defaulted,
}

/// The interest, in basis points, of every requested loan.
pub const LOAN_INTEREST_BPS: u32 = 500;

/// A loan and its state.
pub struct Loan {
    pub id: u32,
    pub borrower: AccountId,
    pub amount: i128,
    pub interest_bps: u32,
    pub repayment_due: u64,
    pub amount_repaid: i128,
    pub status: LoanStatus,
    pub purpose: String,
    pub requested_at: u64,
    pub approved_at: u64,
}

impl Keyed for Loan {
    open spec fn key(&self) -> u32 {
        self.id
    }

    fn get_key(&self) -> (k: u32) {
        self.id
    }
}

impl Duplicate for Loan {
    fn duplicate(&self) -> (l: Loan) {
        Loan {
            id: self.id,
            borrower: self.borrower.clone(),
            amount: self.amount,
            interest_bps: self.interest_bps,
            repayment_due: self.repayment_due,
            amount_repaid: self.amount_repaid,
            status: self.status,
            purpose: self.purpose.clone(),
            requested_at: self.requested_at,
            approved_at: self.approved_at,
        }
    }
}

/// The addresses that `initialize` registers.
pub struct LoanConfig {
    pub admin: AccountId,
    pub treasury: AccountId,
    pub asset: AccountId,
}

/// Why an operation of the loan contract was refused.
#[derive(Clone, Copy, Debug, PartialEq, Eq, Structural)]
pub enum LoanError {
    /// An admin is already registered.
    AlreadyInitialized,
    /// No admin is registered yet.
    NotInitialized,
    /// The caller is not the registered admin.
    Unauthorized,
    /// The borrower is not a member of the cooperative.
    NotMember,
    /// The requested amount is zero or negative.
    NonPositiveAmount,
    /// The loan counter is at its maximum.
    CounterOverflow,
    /// The repayment date would lie beyond the range of `u64` seconds.
    DueDateOverflow,
    /// No loan has the given id.
    LoanNotFound,
    /// The loan is not pending.
    NotPending,
}

/// The stored state of the loan contract: its addresses, its loan counter
/// (zero where none is stored) and its loans in order of request.
pub struct LoanContract {
    pub config: Option<LoanConfig>,
    pub loan_counter: u32,
    pub loans: Vec<Loan>,
}

/// The stored state of the loan contract, with its loans as a sequence.
pub struct LoanModel {
    pub config: Option<LoanConfig>,
    pub loan_counter: u32,
    pub loans: Seq<Loan>,
}

impl View for LoanContract {
    type V = LoanModel;

    open spec fn view(&self) -> LoanModel {
        LoanModel { config: self.config, loan_counter: self.loan_counter, loans: self.loans@ }
    }
}

/// The ids of a list of loans.
pub open spec fn loan_ids(ls: Seq<Loan>) -> Seq<u32> {
    ls.map_values(|l: Loan| l.id)
}

impl LoanModel {
    /// State and result of `initialize`.
    pub open spec fn initialize_spec(self, admin: AccountId, treasury: AccountId, asset: AccountId) -> (LoanModel, Result<(), LoanError>) {
        if self.config is Some {
            (self, Err(LoanError::AlreadyInitialized))
        } else {
            (
                LoanModel {
                    config: Some(LoanConfig { admin: admin, treasury: treasury, asset: asset }),
                    loan_counter: 0,
                    loans: Seq::empty(),
                },
                Ok(()),
            )
        }
    }

    /// State and result of `request_loan`.
    pub open spec fn request_loan_spec(
        self,
        members: Seq<AccountId>,
        borrower: AccountId,
        amount: i128,
        purpose: String,
        repayment_days: u32,
        now: u64,
    ) -> (LoanModel, Result<u32, LoanError>) {
        if !has_account(members, borrower@) {
            (self, Err(LoanError::NotMember))
        } else if amount <= 0 {
            (self, Err(LoanError::NonPositiveAmount))
        } else if self.loan_counter == u32::MAX {
            (self, Err(LoanError::CounterOverflow))
        } else if now + repayment_days * SECONDS_PER_DAY > u64::MAX {
            (self, Err(LoanError::DueDateOverflow))
        } else {
            let id = (self.loan_counter + 1) as u32;
            let loan = Loan {
                id: id,
                borrower: borrower,
                amount: amount,
                interest_bps: LOAN_INTEREST_BPS,
                repayment_due: (now + repayment_days * SECONDS_PER_DAY) as u64,
                amount_repaid: 0,
                status: LoanStatus::Pending,
                purpose: purpose,
                requested_at: now,
                approved_at: 0,
            };
            (LoanModel { config: self.config, loan_counter: id, loans: self.loans.push(loan) }, Ok(id))
        }
    }

    /// State and result of `approve_loan`.
    pub open spec fn approve_loan_spec(self, admin: Seq<char>, loan_id: u32, now: u64) -> (LoanModel, Result<Transfer, LoanError>) {
        match self.config {
            None => (self, Err(LoanError::NotInitialized)),
            Some(c) => if c.admin@ != admin {
                (self, Err(LoanError::Unauthorized))
            } else {
                match first_position(loan_ids(self.loans), loan_id) {
                    None => (self, Err(LoanError::LoanNotFound)),
                    Some(i) => {
                        let l = self.loans[i];
                        if l.status != LoanStatus::Pending {
                            (self, Err(LoanError::NotPending))
                        } else {
                            (
                                LoanModel {
                                    config: self.config,
                                    loan_counter: self.loan_counter,
                                    loans: self.loans.update(i, Loan { status: LoanStatus::Approved, approved_at: now, ..l }),
                                },
                                Ok(Transfer { asset: c.asset, account: l.borrower, amount: l.amount }),
                            )
                        }
                    },
                }
            },
        }
    }

    /// Loan `i` has id `i + 1`, the counter counts the loans, and every loan
    /// is for a positive amount at the fixed interest.
    pub open spec fn well_formed(self) -> bool {
        &&& self.loan_counter == self.loans.len()
        &&& forall|i: int|
            0 <= i < self.loans.len() ==> {
                &&& (#[trigger] self.loans[i]).id == i + 1
                &&& self.loans[i].amount > 0
                &&& self.loans[i].interest_bps == LOAN_INTEREST_BPS
            }
    }
}


impl LoanContract {
    /// The state of a contract that nothing has been stored in.
    pub fn new() -> (c: Self)
        ensures
            c@.config is None,
            c@.loan_counter == 0,
            c@.loans.len() == 0,
    {
        LoanContract { config: None, loan_counter: 0, loans: Vec::new() }
    }

    /// Registers the admin, the treasury and the token lent, and starts over
    /// with no loans and the counter at zero; refused once an admin is
    /// registered.
    pub fn initialize(&mut self, admin: AccountId, treasury: AccountId, asset: AccountId) -> (r: Result<(), LoanError>)
        ensures
            (final(self)@, r) == old(self)@.initialize_spec(admin, treasury, asset),
    {
        if self.config.is_some() {
            return Err(LoanError::AlreadyInitialized);
        }
        self.config = Some(LoanConfig { admin, treasury, asset });
        self.loan_counter = 0;
        self.loans = Vec::new();
        assert(self.loans@ =~= Seq::<Loan>::empty());
        Ok(())
    }

    /// Records a pending loan of `amount` for `borrower`, who must be one of
    /// `members` (the members of the cooperative's treasury), under the next
    /// id, at the fixed interest, requested at `now` (the ledger time) and
    /// due `repayment_days` days later; returns its id.
    pub fn request_loan(
        &mut self,
        members: &Vec<AccountId>,
        borrower: AccountId,
        amount: i128,
        purpose: String,
        repayment_days: u32,
        now: u64,
    ) -> (r: Result<u32, LoanError>)
        ensures
            (final(self)@, r) == old(self)@.request_loan_spec(members@, borrower, amount, purpose, repayment_days, now),
    {
        if !contains_account(members, &borrower) {
            return Err(LoanError::NotMember);
        }
        if amount <= 0 {
            return Err(LoanError::NonPositiveAmount);
        }
        if self.loan_counter == u32::MAX {
            return Err(LoanError::CounterOverflow);
        }
        let id = self.loan_counter + 1;
        let period = (repayment_days as u64) * SECONDS_PER_DAY;
        let due = match now.checked_add(period) {
            None => {
                return Err(LoanError::DueDateOverflow);
            },
            Some(d) => d,
        };
        let loan = Loan {
            id,
            borrower,
            amount,
            interest_bps: LOAN_INTEREST_BPS,
            repayment_due: due,
            amount_repaid: 0,
            status: LoanStatus::Pending,
            purpose,
            requested_at: now,
            approved_at: 0,
        };
        self.loans.push(loan);
        self.loan_counter = id;
        Ok(id)
    }

    /// Approves the pending loan `loan_id` at `now` (the ledger time), admin
    /// only; the result is the transfer of the loan's amount from the
    /// contract to the borrower.
    pub fn approve_loan(&mut self, admin: &AccountId, loan_id: u32, now: u64) -> (r: Result<Transfer, LoanError>)
        ensures
            (final(self)@, r) == old(self)@.approve_loan_spec(admin@, loan_id, now),
    {
        let asset = match self.require_admin(admin) {
            Err(e) => {
                return Err(e);
            },
            Ok(a) => a,
        };
        assert(keys_of(self.loans@) =~= loan_ids(self.loans@));
        let i = match find_first(&self.loans, loan_id) {
            None => {
                return Err(LoanError::LoanNotFound);
            },
            Some(i) => i,
        };
        proof {
            lemma_first_position_props(loan_ids(self.loans@), loan_id);
        }
        let l = self.loans[i].duplicate();
        if l.status != LoanStatus::Pending {
            return Err(LoanError::NotPending);
        }
        let transfer = Transfer { asset, account: l.borrower.clone(), amount: l.amount };
        let approved = Loan { status: LoanStatus::Approved, approved_at: now, ..l };
        self.loans.set(i, approved);
        Ok(transfer)
    }

    /// Every loan, in order of request.
    pub fn get_loans(&self) -> (r: Vec<Loan>)
        ensures
            r@ == self@.loans,
    {
        copy_all(&self.loans)
    }

    /// Checks that `caller` is the registered admin, and gives the token lent.
    fn require_admin(&self, caller: &AccountId) -> (r: Result<AccountId, LoanError>)
        ensures
            match self.config {
                None => r == Err::<AccountId, LoanError>(LoanError::NotInitialized),
                Some(c) => if c.admin@ != caller@ {
                    r == Err::<AccountId, LoanError>(LoanError::Unauthorized)
                } else {
                    r == Ok::<AccountId, LoanError>(c.asset)
                },
            },
    {
        match &self.config {
            None => Err(LoanError::NotInitialized),
            Some(c) => if c.admin == *caller {
                Ok(c.asset.clone())
            } else {
                Err(LoanError::Unauthorized)
            },
        }
    }
}

/// Every operation keeps the loan book well formed: loan `i` has id `i + 1`,
/// the counter counts the loans, and each is for a positive amount at the
/// fixed interest.
pub proof fn law_loans_stay_well_formed(
    s: LoanModel,
    admin: AccountId,
    treasury: AccountId,
    asset: AccountId,
    members: Seq<AccountId>,
    borrower: AccountId,
    amount: i128,
    purpose: String,
    repayment_days: u32,
    loan_id: u32,
    now: u64,
)
    requires
        s.well_formed(),
    ensures
        s.initialize_spec(admin, treasury, asset).0.well_formed(),
        s.request_loan_spec(members, borrower, amount, purpose, repayment_days, now).0.well_formed(),
        s.approve_loan_spec(admin@, loan_id, now).0.well_formed(),
{
    let (after, r) = s.request_loan_spec(members, borrower, amount, purpose, repayment_days, now);
    if r is Ok {
        assert forall|i: int| 0 <= i < after.loans.len() implies {
            &&& (#[trigger] after.loans[i]).id == i + 1
            &&& after.loans[i].amount > 0
            &&& after.loans[i].interest_bps == LOAN_INTEREST_BPS
        } by {
            if i < s.loans.len() {
                assert(after.loans[i] == s.loans[i]);
            }
        }
    }
    let (after2, r2) = s.approve_loan_spec(admin@, loan_id, now);
    if r2 is Ok {
        lemma_first_position_props(loan_ids(s.loans), loan_id);
        let k = first_position(loan_ids(s.loans), loan_id).unwrap();
        assert forall|i: int| 0 <= i < after2.loans.len() implies {
            &&& (#[trigger] after2.loans[i]).id == i + 1
            &&& after2.loans[i].amount > 0
            &&& after2.loans[i].interest_bps == LOAN_INTEREST_BPS
        } by {
            if i != k {
                assert(after2.loans[i] == s.loans[i]);
            } else {
                assert(s.loans[k].id == k + 1);
            }
        }
    }
}

impl LoanModel {
    /// Loan `loan_id` has been approved (or has otherwise left the pending
    /// state) in a contract that is set up.
    pub open spec fn is_settled(self, loan_id: u32) -> bool {
        &&& self.config is Some
        &&& match first_position(loan_ids(self.loans), loan_id) {
            Some(i) => self.loans[i].status != LoanStatus::Pending,
            None => false,
        }
    }
}

/// An accepted approval settles the loan.
pub proof fn law_approval_settles(s: LoanModel, admin: Seq<char>, loan_id: u32, now: u64)
    ensures
        s.approve_loan_spec(admin, loan_id, now).1 is Ok ==> s.approve_loan_spec(admin, loan_id, now).0.is_settled(loan_id),
{
    lemma_first_position_props(loan_ids(s.loans), loan_id);
    let after = s.approve_loan_spec(admin, loan_id, now).0;
    assert(loan_ids(after.loans) =~= loan_ids(s.loans));
}

/// A settled loan stays settled, whatever is called meanwhile: a second
/// `initialize` is refused, requests only add loans after it, and approvals
/// only change pending loans.
pub proof fn law_settled_stays_settled(
    s: LoanModel,
    loan_id: u32,
    admin: AccountId,
    treasury: AccountId,
    asset: AccountId,
    members: Seq<AccountId>,
    borrower: AccountId,
    amount: i128,
    purpose: String,
    repayment_days: u32,
    caller: Seq<char>,
    other_id: u32,
    now: u64,
)
    requires
        s.is_settled(loan_id),
    ensures
        s.initialize_spec(admin, treasury, asset).0.is_settled(loan_id),
        s.request_loan_spec(members, borrower, amount, purpose, repayment_days, now).0.is_settled(loan_id),
        s.approve_loan_spec(caller, other_id, now).0.is_settled(loan_id),
{
    let ids = loan_ids(s.loans);
    lemma_first_position_props(ids, loan_id);
    let (a1, r1) = s.request_loan_spec(members, borrower, amount, purpose, repayment_days, now);
    if r1 is Ok {
        let l = a1.loans.last();
        assert(loan_ids(a1.loans) =~= ids.push(l.id));
        lemma_first_position_push(ids, l.id, loan_id);
    }
    let (a2, r2) = s.approve_loan_spec(caller, other_id, now);
    if r2 is Ok {
        lemma_first_position_props(ids, other_id);
        assert(loan_ids(a2.loans) =~= ids);
    }
}

/// A settled loan is paid out no more: approving it again is refused, at
/// any time and by any caller, and changes nothing.
pub proof fn law_settled_not_approved_again(s: LoanModel, caller: Seq<char>, loan_id: u32, now: u64)
    requires
        s.is_settled(loan_id),
    ensures
        s.approve_loan_spec(caller, loan_id, now).1 is Err,
        s.approve_loan_spec(caller, loan_id, now).0 == s,
{
}

/// The loan contract is set up once: after a successful `initialize`, a
/// second one is refused and changes nothing.
pub proof fn law_initialize_once(
    s: LoanModel,
    admin: AccountId,
    treasury: AccountId,
    asset: AccountId,
    admin2: AccountId,
    treasury2: AccountId,
    asset2: AccountId,
)
    requires
        s.initialize_spec(admin, treasury, asset).1 is Ok,
    ensures
        ({
            let after = s.initialize_spec(admin, treasury, asset).0;
            after.initialize_spec(admin2, treasury2, asset2) == (after, Err::<(), LoanError>(LoanError::AlreadyInitialized))
        }),
{
}

/// Only the admin approves loans: whenever `approve_loan` is accepted, the
/// caller is the registered admin, and the loan was pending; a refusal
/// changes nothing.
pub proof fn law_only_admin_approves(s: LoanModel, caller: Seq<char>, loan_id: u32, now: u64)
    ensures
        ({
            let (after, r) = s.approve_loan_spec(caller, loan_id, now);
            &&& r is Ok ==> s.config is Some && s.config.unwrap().admin@ == caller
            &&& r is Ok ==> (first_position(loan_ids(s.loans), loan_id) matches Some(i)
                && s.loans[i].status == LoanStatus::Pending
                && after.loans[i].status == LoanStatus::Approved)
            &&& r is Err ==> after == s
        }),
{
    lemma_first_position_props(loan_ids(s.loans), loan_id);
}

/// A requested loan is listed last, under the id returned, pending, for the
/// amount asked at the fixed interest and due `repayment_days` days after
/// the request; the loans listed before are unchanged.
pub proof fn law_requested_loan_is_listed(
    s: LoanModel,
    members: Seq<AccountId>,
    borrower: AccountId,
    amount: i128,
    purpose: String,
    repayment_days: u32,
    now: u64,
)
    ensures
        ({
            let (after, r) = s.request_loan_spec(members, borrower, amount, purpose, repayment_days, now);
            r matches Ok(id) ==> {
                let l = after.loans.last();
                &&& after.loans.len() == s.loans.len() + 1
                &&& after.loans.subrange(0, s.loans.len() as int) == s.loans
                &&& l.id == id && l.borrower == borrower && l.amount == amount && l.purpose == purpose
                &&& l.interest_bps == LOAN_INTEREST_BPS && l.status == LoanStatus::Pending
                &&& l.amount_repaid == 0 && l.requested_at == now && l.approved_at == 0
                &&& l.repayment_due == now + repayment_days * SECONDS_PER_DAY
            }
        }),
{
    let (after, r) = s.request_loan_spec(members, borrower, amount, purpose, repayment_days, now);
    if r is Ok {
        assert(after.loans.subrange(0, s.loans.len() as int) =~= s.loans);
    }
}

/// An accepted approval pays out the loan it approves: the first loan with
/// the given id, which was pending, becomes approved at `now`, and the
/// transfer sends exactly its amount, in the contract's token, to its
/// borrower; no other loan changes.
pub proof fn law_approval_pays_the_approved_loan(s: LoanModel, admin: Seq<char>, loan_id: u32, now: u64)
    ensures
        ({
            let (after, r) = s.approve_loan_spec(admin, loan_id, now);
            r is Ok ==> exists|i: int| {
                &&& 0 <= i < s.loans.len()
                &&& (#[trigger] s.loans[i]).id == loan_id
                &&& (forall|j: int| 0 <= j < i ==> s.loans[j].id != loan_id)
                &&& s.loans[i].status == LoanStatus::Pending
                &&& r.unwrap().account == s.loans[i].borrower
                &&& r.unwrap().amount == s.loans[i].amount
                &&& r.unwrap().asset == s.config.unwrap().asset
                &&& after.loans.len() == s.loans.len()
                &&& after.loans[i] == (Loan { status: LoanStatus::Approved, approved_at: now, ..s.loans[i] })
                &&& (forall|j: int| 0 <= j < s.loans.len() && j != i ==> after.loans[j] == s.loans[j])
            }
        }),
{
    let (after, r) = s.approve_loan_spec(admin, loan_id, now);
    if r is Ok {
        let ids = loan_ids(s.loans);
        lemma_first_position_props(ids, loan_id);
        let i = first_position(ids, loan_id).unwrap();
        assert(forall|j: int| 0 <= j < i ==> s.loans[j].id != loan_id) by {
            assert forall|j: int| 0 <= j < i implies s.loans[j].id != loan_id by {
                assert(ids[j] == s.loans[j].id);
            }
        }
        assert(s.loans[i].id == loan_id);
    }
}

/// A loan is requested by exactly the members: the request is refused as
/// `NotMember` precisely when the borrower is nowhere in the member list;
/// a member's request for a positive amount is accepted, under the next id,
/// whenever the counter can still count and the due date fits in `u64`.
pub proof fn law_members_may_borrow(
    s: LoanModel,
    members: Seq<AccountId>,
    borrower: AccountId,
    amount: i128,
    purpose: String,
    repayment_days: u32,
    now: u64,
)
    ensures
        ({
            let (after, r) = s.request_loan_spec(members, borrower, amount, purpose, repayment_days, now);
            &&& (r == Err::<u32, LoanError>(LoanError::NotMember)) <==> !(exists|k: int| 0 <= k < members.len() && (#[trigger] members[k])@ == borrower@)
            &&& r is Err ==> after == s
            &&& ((exists|k: int| 0 <= k < members.len() && (#[trigger] members[k])@ == borrower@)
                && amount > 0
                && s.loan_counter < u32::MAX
                && now + repayment_days * 86_400 <= u64::MAX) ==> r == Ok::<u32, LoanError>((s.loan_counter + 1) as u32)
        }),
{
}

/// Setting up the loan contract is accepted exactly when no admin is
/// registered; it registers the given addresses and starts over with no
/// loans and the counter at zero.
pub proof fn law_initialize_registers(s: LoanModel, admin: AccountId, treasury: AccountId, asset: AccountId)
    ensures
        ({
            let (after, r) = s.initialize_spec(admin, treasury, asset);
            &&& (r is Ok <==> s.config is None)
            &&& r is Err ==> after == s
            &&& r is Ok ==> {
                &&& after.config.unwrap().admin == admin
                &&& after.config.unwrap().treasury == treasury
                &&& after.config.unwrap().asset == asset
                &&& after.loan_counter == 0
                &&& after.loans.len() == 0
            }
        }),
{
}

} // verus!
