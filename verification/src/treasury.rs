//! Treasury: a group of members, administered by its admin, whose
//! contributions are paid into the contract and recorded.

use vstd::prelude::*;

use crate::common::{AccountId, Duplicate, Transfer, contains_account, copy_all, has_account};

verus! {

/// One contribution of a member.
pub struct ContributionRecord {
    pub member: AccountId,
    pub amount: i128,
    pub timestamp: u64,
    pub period: u32,
}

impl Duplicate for ContributionRecord {
    fn duplicate(&self) -> (r: ContributionRecord) {
        ContributionRecord { member: self.member.clone(), amount: self.amount, timestamp: self.timestamp, period: self.period }
    }
}

/// What the treasury tells of its group.
pub struct GroupInfo {
    pub name: String,
    pub admin: AccountId,
    pub asset: AccountId,
    pub total_contributions: i128,
    pub member_count: u32,
    pub is_active: bool,
}

/// What can be told of one member.
pub struct MemberSummary {
    pub address: AccountId,
    pub is_member: bool,
    pub total_contributed: i128,
    pub contribution_count: u32,
    pub last_period: u32,
    pub last_contributed_at: u64,
}

/// The group that `initialize` sets up.
pub struct Group {
    pub admin: AccountId,
    pub name: String,
    pub asset: AccountId,
    pub total_contributions: i128,
    pub is_active: bool,
    pub members: Vec<AccountId>,
}

/// The group, with its members as a sequence.
pub struct GroupModel {
    pub admin: AccountId,
    pub name: String,
    pub asset: AccountId,
    pub total_contributions: i128,
    pub is_active: bool,
    pub members: Seq<AccountId>,
}

impl View for Group {
    type V = GroupModel;

    open spec fn view(&self) -> GroupModel {
        GroupModel {
            admin: self.admin,
            name: self.name,
            asset: self.asset,
            total_contributions: self.total_contributions,
            is_active: self.is_active,
            members: self.members@,
        }
    }
}

/// Why an operation of the treasury was refused.
#[derive(Clone, Copy, Debug, PartialEq, Eq, Structural)]
pub enum TreasuryError {
    /// The group is already set up.
    AlreadyInitialized,
    /// The group is not set up yet.
    NotInitialized,
    /// The caller is not the group's admin.
    Unauthorized,
    /// The caller is not a member of the group.
    NotMember,
    /// The amount is zero or negative.
    NonPositiveAmount,
    /// The total of contributions would leave the range of `i128`.
    Overflow,
}

/// The stored state of the treasury: its group, once set up, and every
/// contribution in the order made (the history of one member is the
/// records that name it).
pub struct TreasuryContract {
    pub group: Option<Group>,
    pub contributions: Vec<ContributionRecord>,
}

/// The stored state of the treasury, with its lists as sequences.
pub struct TreasuryModel {
    pub group: Option<GroupModel>,
    pub contributions: Seq<ContributionRecord>,
}

impl View for TreasuryContract {
    type V = TreasuryModel;

    open spec fn view(&self) -> TreasuryModel {
        TreasuryModel {
            group: match self.group {
                Some(g) => Some(g@),
                None => None,
            },
            contributions: self.contributions@,
        }
    }
}

/// The records of `member`, in the order made.
pub open spec fn records_of(records: Seq<ContributionRecord>, member: Seq<char>) -> Seq<ContributionRecord>
    decreases records.len(),
{
    if records.len() == 0 {
        Seq::empty()
    } else {
        let before = records_of(records.drop_last(), member);
        if records.last().member@ == member {
            before.push(records.last())
        } else {
            before
        }
    }
}

/// The sum of the amounts of `records`.
pub open spec fn records_total(records: Seq<ContributionRecord>) -> int
    decreases records.len(),
{
    if records.len() == 0 {
        0
    } else {
        records_total(records.drop_last()) + records.last().amount
    }
}

/// No account occurs twice in `list`.
pub open spec fn accounts_distinct(list: Seq<AccountId>) -> bool {
    forall|i: int, j: int| 0 <= i < j < list.len() ==> (#[trigger] list[i])@ != (#[trigger] list[j])@
}

impl TreasuryModel {
    /// State and result of `initialize`.
    pub open spec fn initialize_spec(self, admin: AccountId, group_name: String, asset: AccountId) -> (TreasuryModel, Result<GroupInfo, TreasuryError>) {
        if self.group is Some {
            (self, Err(TreasuryError::AlreadyInitialized))
        } else {
            (
                TreasuryModel {
                    group: Some(
                        GroupModel {
                            admin: admin,
                            name: group_name,
                            asset: asset,
                            total_contributions: 0,
                            is_active: true,
                            members: Seq::empty(),
                        },
                    ),
                    contributions: self.contributions,
                },
                Ok(
                    GroupInfo {
                        name: group_name,
                        admin: admin,
                        asset: asset,
                        total_contributions: 0,
                        member_count: 0,
                        is_active: true,
                    },
                ),
            )
        }
    }

    /// State and result of `add_member`: whether the member was added.
    pub open spec fn add_member_spec(self, admin: Seq<char>, member: AccountId) -> (TreasuryModel, Result<bool, TreasuryError>) {
        match self.group {
            None => (self, Err(TreasuryError::NotInitialized)),
            Some(g) => if g.admin@ != admin {
                (self, Err(TreasuryError::Unauthorized))
            } else if has_account(g.members, member@) {
                (self, Ok(false))
            } else {
                (
                    TreasuryModel {
                        group: Some(GroupModel { members: g.members.push(member), ..g }),
                        contributions: self.contributions,
                    },
                    Ok(true),
                )
            },
        }
    }

    /// State and result of `contribute`.
    pub open spec fn contribute_spec(self, member: AccountId, amount: i128, period: u32, now: u64) -> (TreasuryModel, Result<Transfer, TreasuryError>) {
        match self.group {
            None => (self, Err(TreasuryError::NotInitialized)),
            Some(g) => if !has_account(g.members, member@) {
                (self, Err(TreasuryError::NotMember))
            } else if amount <= 0 {
                (self, Err(TreasuryError::NonPositiveAmount))
            } else if g.total_contributions + amount > i128::MAX {
                (self, Err(TreasuryError::Overflow))
            } else {
                let record = ContributionRecord { member: member, amount: amount, timestamp: now, period: period };
                (
                    TreasuryModel {
                        group: Some(GroupModel { total_contributions: (g.total_contributions + amount) as i128, ..g }),
                        contributions: self.contributions.push(record),
                    },
                    Ok(Transfer { asset: g.asset, account: member, amount: amount }),
                )
            },
        }
    }

    /// Result of `get_group_info`.
    pub open spec fn group_info_spec(self) -> Option<GroupInfo> {
        match self.group {
            None => None,
            Some(g) => Some(
                GroupInfo {
                    name: g.name,
                    admin: g.admin,
                    asset: g.asset,
                    total_contributions: g.total_contributions,
                    member_count: g.members.len() as u32,
                    is_active: g.is_active,
                },
            ),
        }
    }

    /// The group's total is the sum of all contributions, each positive and
    /// made by a member; no member is listed twice; the group is active;
    /// and there are no contributions before the group is set up.
    pub open spec fn well_formed(self) -> bool {
        match self.group {
            None => self.contributions.len() == 0,
            Some(g) => {
                &&& g.total_contributions == records_total(self.contributions)
                &&& g.is_active
                &&& accounts_distinct(g.members)
                &&& forall|i: int|
                    0 <= i < self.contributions.len() ==> {
                        &&& (#[trigger] self.contributions[i]).amount > 0
                        &&& has_account(g.members, self.contributions[i].member@)
                    }
            },
        }
    }
}

impl TreasuryContract {
    /// The state of a treasury that nothing has been stored in.
    pub fn new() -> (c: Self)
        ensures
            c@.group is None,
            c@.contributions.len() == 0,
    {
        TreasuryContract { group: None, contributions: Vec::new() }
    }

    /// Sets up the group with its admin, name and token, active, with no
    /// members and a zero total; returns what it then tells of the group.
    /// Refused once the group is set up.
    pub fn initialize(&mut self, admin: AccountId, group_name: String, asset: AccountId) -> (r: Result<GroupInfo, TreasuryError>)
        ensures
            (final(self)@, r) == old(self)@.initialize_spec(admin, group_name, asset),
    {
        if self.group.is_some() {
            return Err(TreasuryError::AlreadyInitialized);
        }
        let info = GroupInfo {
            name: group_name.clone(),
            admin: admin.clone(),
            asset: asset.clone(),
            total_contributions: 0,
            member_count: 0,
            is_active: true,
        };
        let members: Vec<AccountId> = Vec::new();
        assert(members@ =~= Seq::<AccountId>::empty());
        self.group = Some(
            Group { admin, name: group_name, asset, total_contributions: 0, is_active: true, members },
        );
        Ok(info)
    }

    /// Checks that `caller` is the group's admin.
    fn require_admin(&self, caller: &AccountId) -> (r: Result<(), TreasuryError>)
        ensures
            match self@.group {
                None => r == Err::<(), TreasuryError>(TreasuryError::NotInitialized),
                Some(g) => if g.admin@ != caller@ {
                    r == Err::<(), TreasuryError>(TreasuryError::Unauthorized)
                } else {
                    r is Ok
                },
            },
    {
        match &self.group {
            None => Err(TreasuryError::NotInitialized),
            Some(g) => if g.admin == *caller {
                Ok(())
            } else {
                Err(TreasuryError::Unauthorized)
            },
        }
    }

    /// Checks that `caller` is a member of the group.
    fn require_member(&self, caller: &AccountId) -> (r: Result<(), TreasuryError>)
        ensures
            match self@.group {
                None => r == Err::<(), TreasuryError>(TreasuryError::NotInitialized),
                Some(g) => if !has_account(g.members, caller@) {
                    r == Err::<(), TreasuryError>(TreasuryError::NotMember)
                } else {
                    r is Ok
                },
            },
    {
        match &self.group {
            None => Err(TreasuryError::NotInitialized),
            Some(g) => if contains_account(&g.members, caller) {
                Ok(())
            } else {
                Err(TreasuryError::NotMember)
            },
        }
    }

    /// Adds `member` to the group (admin only); returns whether it was added,
    /// which it is not when it is a member already.
    pub fn add_member(&mut self, admin: &AccountId, member: AccountId) -> (r: Result<bool, TreasuryError>)
        ensures
            (final(self)@, r) == old(self)@.add_member_spec(admin@, member),
    {
        match self.require_admin(admin) {
            Err(e) => {
                return Err(e);
            },
            Ok(()) => {},
        }
        let mut group = self.group.take().unwrap();
        if contains_account(&group.members, &member) {
            self.group = Some(group);
            return Ok(false);
        }
        group.members.push(member);
        self.group = Some(group);
        Ok(true)
    }

    /// Records a contribution of `amount` by `member` for `period` at `now`
    /// (the ledger time) and adds it to the total; the result is the
    /// transfer of `amount` from the member to the contract.
    pub fn contribute(&mut self, member: AccountId, amount: i128, period: u32, now: u64) -> (r: Result<Transfer, TreasuryError>)
        ensures
            (final(self)@, r) == old(self)@.contribute_spec(member, amount, period, now),
    {
        match self.require_member(&member) {
            Err(e) => {
                return Err(e);
            },
            Ok(()) => {},
        }
        if amount <= 0 {
            return Err(TreasuryError::NonPositiveAmount);
        }
        let mut group = self.group.take().unwrap();
        let total = match group.total_contributions.checked_add(amount) {
            None => {
                self.group = Some(group);
                return Err(TreasuryError::Overflow);
            },
            Some(t) => t,
        };
        let transfer = Transfer { asset: group.asset.clone(), account: member.clone(), amount };
        group.total_contributions = total;
        self.group = Some(group);
        self.contributions.push(ContributionRecord { member, amount, timestamp: now, period });
        Ok(transfer)
    }

    /// What the treasury tells of its group, once set up.
    pub fn get_group_info(&self) -> (r: Option<GroupInfo>)
        ensures
            r == self@.group_info_spec(),
    {
        match &self.group {
            None => None,
            Some(g) => Some(
                GroupInfo {
                    name: g.name.clone(),
                    admin: g.admin.clone(),
                    asset: g.asset.clone(),
                    total_contributions: g.total_contributions,
                    member_count: #[verifier::truncate] (g.members.len() as u32),
                    is_active: g.is_active,
                },
            ),
        }
    }

    /// The members of the group, in the order added; none before the group
    /// is set up.
    pub fn get_members(&self) -> (r: Vec<AccountId>)
        ensures
            r@ == match self@.group {
                Some(g) => g.members,
                None => Seq::<AccountId>::empty(),
            },
    {
        match &self.group {
            Some(g) => copy_all(&g.members),
            None => Vec::new(),
        }
    }

    /// The contributions of `member`, in the order made.
    pub fn history_of(&self, member: &AccountId) -> (r: Vec<ContributionRecord>)
        ensures
            r@ == records_of(self@.contributions, member@),
    {
        let mut r: Vec<ContributionRecord> = Vec::new();
        let mut i: usize = 0;
        while i < self.contributions.len()
            invariant
                i <= self.contributions.len(),
                r@ == records_of(self.contributions@.take(i as int), member@),
            decreases self.contributions.len() - i,
        {
            assert(self.contributions@.take(i + 1).drop_last() =~= self.contributions@.take(i as int));
            if self.contributions[i].member == *member {
                r.push(self.contributions[i].duplicate());
            }
            i = i + 1;
        }
        assert(self.contributions@.take(self.contributions.len() as int) =~= self.contributions@);
        r
    }
}

/// An account of a list is still one after another account is appended.
proof fn lemma_has_account_push(list: Seq<AccountId>, extra: AccountId, a: Seq<char>)
    requires
        has_account(list, a),
    ensures
        has_account(list.push(extra), a),
{
    let i = choose|i: int| 0 <= i < list.len() && (#[trigger] list[i])@ == a;
    assert(list.push(extra)[i] == list[i]);
}

/// Every operation keeps the treasury well formed: the total stays the sum
/// of the recorded contributions, each positive and made by a member, and
/// no member is listed twice.
pub proof fn law_treasury_stays_well_formed(
    s: TreasuryModel,
    admin: AccountId,
    group_name: String,
    asset: AccountId,
    member: AccountId,
    amount: i128,
    period: u32,
    now: u64,
)
    requires
        s.well_formed(),
    ensures
        s.initialize_spec(admin, group_name, asset).0.well_formed(),
        s.add_member_spec(admin@, member).0.well_formed(),
        s.contribute_spec(member, amount, period, now).0.well_formed(),
{
    let (a1, r1) = s.add_member_spec(admin@, member);
    if r1 == Ok::<bool, TreasuryError>(true) {
        let g = s.group.unwrap();
        let g1 = a1.group.unwrap();
        assert forall|i: int, j: int| 0 <= i < j < g1.members.len() implies (#[trigger] g1.members[i])@ != (#[trigger] g1.members[j])@ by {
            if j == g.members.len() {
                assert(g1.members[i] == g.members[i]);
                if g.members[i]@ == member@ {
                    assert(has_account(g.members, member@));
                }
            } else {
                assert(g1.members[i] == g.members[i]);
                assert(g1.members[j] == g.members[j]);
            }
        }
        assert forall|i: int| 0 <= i < a1.contributions.len() implies {
            &&& (#[trigger] a1.contributions[i]).amount > 0
            &&& has_account(g1.members, a1.contributions[i].member@)
        } by {
            lemma_has_account_push(g.members, member, s.contributions[i].member@);
        }
    }
    let (a2, r2) = s.contribute_spec(member, amount, period, now);
    if r2 is Ok {
        let g = s.group.unwrap();
        let record = ContributionRecord { member: member, amount: amount, timestamp: now, period: period };
        assert(a2.contributions.drop_last() =~= s.contributions);
        assert forall|i: int| 0 <= i < a2.contributions.len() implies {
            &&& (#[trigger] a2.contributions[i]).amount > 0
            &&& has_account(g.members, a2.contributions[i].member@)
        } by {
            if i < s.contributions.len() {
                assert(a2.contributions[i] == s.contributions[i]);
            }
        }
    }
}

/// After the group is set up, the treasury tells exactly what `initialize`
/// returned.
pub proof fn law_group_info_after_initialize(s: TreasuryModel, admin: AccountId, group_name: String, asset: AccountId)
    ensures
        ({
            let (after, r) = s.initialize_spec(admin, group_name, asset);
            r matches Ok(info) ==> after.group_info_spec() == Some(info)
        }),
{
}

/// Adding a member who is already one is accepted, reports that nothing was
/// added, and changes nothing; so adding the same member twice adds it once.
pub proof fn law_add_member_idempotent(s: TreasuryModel, admin: Seq<char>, member: AccountId)
    requires
        s.add_member_spec(admin, member).1 is Ok,
    ensures
        ({
            let after = s.add_member_spec(admin, member).0;
            after.add_member_spec(admin, member) == (after, Ok::<bool, TreasuryError>(false))
        }),
{
    let (after, r) = s.add_member_spec(admin, member);
    if r == Ok::<bool, TreasuryError>(true) {
        let m = after.group.unwrap().members;
        assert(m[m.len() - 1]@ == member@);
    }
}

/// A contribution is added to the history of its member, and to no other.
pub proof fn law_history_after_contribute(s: TreasuryModel, member: AccountId, amount: i128, period: u32, now: u64, other: Seq<char>)
    requires
        s.contribute_spec(member, amount, period, now).1 is Ok,
    ensures
        ({
            let after = s.contribute_spec(member, amount, period, now).0;
            let record = ContributionRecord { member: member, amount: amount, timestamp: now, period: period };
            &&& records_of(after.contributions, member@) == records_of(s.contributions, member@).push(record)
            &&& other != member@ ==> records_of(after.contributions, other) == records_of(s.contributions, other)
        }),
{
    let after = s.contribute_spec(member, amount, period, now).0;
    assert(after.contributions.drop_last() =~= s.contributions);
}

/// The group is set up once: after a successful `initialize`, a second one
/// is refused and changes nothing.
pub proof fn law_initialize_once(
    s: TreasuryModel,
    admin: AccountId,
    group_name: String,
    asset: AccountId,
    admin2: AccountId,
    group_name2: String,
    asset2: AccountId,
)
    requires
        s.initialize_spec(admin, group_name, asset).1 is Ok,
    ensures
        ({
            let after = s.initialize_spec(admin, group_name, asset).0;
            after.initialize_spec(admin2, group_name2, asset2) == (after, Err::<GroupInfo, TreasuryError>(TreasuryError::AlreadyInitialized))
        }),
{
}

/// Only the admin changes the membership: whenever `add_member` is
/// accepted, the caller is the group's admin.
pub proof fn law_only_admin_adds_members(s: TreasuryModel, caller: Seq<char>, member: AccountId)
    ensures
        s.add_member_spec(caller, member).1 is Ok ==> s.group is Some && s.group.unwrap().admin@ == caller,
        s.add_member_spec(caller, member).1 is Err ==> s.add_member_spec(caller, member).0 == s,
{
}

/// One call made on the treasury by its admin or a member, after it is set
/// up: the admin adding a member, or a member contributing.
pub enum TreasuryCall {
    AddMember(AccountId),
    Contribute { member: AccountId, amount: i128, period: u32, now: u64 },
}

impl TreasuryModel {
    /// State after `call`, made with `admin` as the admin, and whether it
    /// was accepted.
    pub open spec fn apply_call(self, admin: Seq<char>, call: TreasuryCall) -> (TreasuryModel, bool) {
        match call {
            TreasuryCall::AddMember(m) => {
                let (after, r) = self.add_member_spec(admin, m);
                (after, r is Ok)
            },
            TreasuryCall::Contribute { member, amount, period, now } => {
                let (after, r) = self.contribute_spec(member, amount, period, now);
                (after, r is Ok)
            },
        }
    }
}

/// State after `calls`, made in order.
pub open spec fn run_calls(s: TreasuryModel, admin: Seq<char>, calls: Seq<TreasuryCall>) -> TreasuryModel
    decreases calls.len(),
{
    if calls.len() == 0 {
        s
    } else {
        run_calls(s, admin, calls.drop_last()).apply_call(admin, calls.last()).0
    }
}

/// Every one of `calls`, made in order, is accepted.
pub open spec fn all_accepted(s: TreasuryModel, admin: Seq<char>, calls: Seq<TreasuryCall>) -> bool
    decreases calls.len(),
{
    calls.len() == 0 || (all_accepted(s, admin, calls.drop_last())
        && run_calls(s, admin, calls.drop_last()).apply_call(admin, calls.last()).1)
}

/// The distinct accounts that `calls` add as members.
pub open spec fn added_members(calls: Seq<TreasuryCall>) -> Set<Seq<char>>
    decreases calls.len(),
{
    if calls.len() == 0 {
        Set::empty()
    } else {
        match calls.last() {
            TreasuryCall::AddMember(m) => added_members(calls.drop_last()).insert(m@),
            TreasuryCall::Contribute { .. } => added_members(calls.drop_last()),
        }
    }
}

/// The sum of the amounts that `calls` contribute.
pub open spec fn contributed(calls: Seq<TreasuryCall>) -> int
    decreases calls.len(),
{
    if calls.len() == 0 {
        0
    } else {
        match calls.last() {
            TreasuryCall::AddMember(_) => contributed(calls.drop_last()),
            TreasuryCall::Contribute { amount, .. } => contributed(calls.drop_last()) + amount,
        }
    }
}

/// Over accepted calls on a freshly set-up group, the members are exactly
/// the accounts added, each listed once, and the total is the sum of the
/// contributions.
proof fn lemma_run_calls(s: TreasuryModel, admin: Seq<char>, calls: Seq<TreasuryCall>)
    requires
        s.group is Some,
        s.group.unwrap().admin@ == admin,
        s.group.unwrap().members.len() == 0,
        s.group.unwrap().total_contributions == 0,
        all_accepted(s, admin, calls),
    ensures
        ({
            let f = run_calls(s, admin, calls);
            &&& f.group is Some
            &&& f.group.unwrap().admin@ == admin
            &&& accounts_distinct(f.group.unwrap().members)
            &&& forall|x: Seq<char>| has_account(f.group.unwrap().members, x) <==> added_members(calls).contains(x)
            &&& f.group.unwrap().total_contributions == contributed(calls)
        }),
    decreases calls.len(),
{
    if calls.len() > 0 {
        let before = calls.drop_last();
        lemma_run_calls(s, admin, before);
        let p = run_calls(s, admin, before);
        let g = p.group.unwrap();
        match calls.last() {
            TreasuryCall::AddMember(m) => {
                assert(added_members(calls) == added_members(before).insert(m@));
                assert(contributed(calls) == contributed(before));
                if has_account(g.members, m@) {
                    assert forall|x: Seq<char>| has_account(g.members, x) <==> added_members(calls).contains(x) by {}
                } else {
                    let h = p.add_member_spec(admin, m).0.group.unwrap();
                    assert forall|i: int, j: int| 0 <= i < j < h.members.len() implies (#[trigger] h.members[i])@ != (#[trigger] h.members[j])@ by {
                        assert(h.members[i] == g.members[i]);
                        if j < g.members.len() {
                            assert(h.members[j] == g.members[j]);
                        } else if g.members[i]@ == m@ {
                            assert(has_account(g.members, m@));
                        }
                    }
                    assert forall|x: Seq<char>| has_account(h.members, x) <==> added_members(calls).contains(x) by {
                        if has_account(g.members, x) {
                            lemma_has_account_push(g.members, m, x);
                        }
                        if has_account(h.members, x) {
                            let i = choose|i: int| 0 <= i < h.members.len() && (#[trigger] h.members[i])@ == x;
                            if i < g.members.len() {
                                assert(h.members[i] == g.members[i]);
                            }
                        }
                        if x == m@ {
                            assert(h.members[h.members.len() - 1] == m);
                            assert(has_account(h.members, x));
                        }
                    }
                }
            },
            TreasuryCall::Contribute { member, amount, period, now } => {
                assert(added_members(calls) == added_members(before));
                assert(contributed(calls) == contributed(before) + amount);
            },
        }
    }
}

/// What the treasury tells of its group after it is set up and then any
/// accepted calls of `add_member` (repeats allowed) and `contribute`: the
/// member count is the number of distinct accounts added, and the total is
/// the sum of the amounts contributed.
pub proof fn law_group_info_counts_calls(
    s: TreasuryModel,
    admin: AccountId,
    group_name: String,
    asset: AccountId,
    calls: Seq<TreasuryCall>,
)
    requires
        s.initialize_spec(admin, group_name, asset).1 is Ok,
        all_accepted(s.initialize_spec(admin, group_name, asset).0, admin@, calls),
    ensures
        ({
            let f = run_calls(s.initialize_spec(admin, group_name, asset).0, admin@, calls);
            let info = f.group_info_spec().unwrap();
            &&& f.group.unwrap().members.len() == added_members(calls).len()
            &&& info.member_count == added_members(calls).len() as u32
            &&& info.total_contributions == contributed(calls)
        }),
{
    let s1 = s.initialize_spec(admin, group_name, asset).0;
    lemma_run_calls(s1, admin@, calls);
    let f = run_calls(s1, admin@, calls);
    let members = f.group.unwrap().members;
    let views = members.map_values(|a: AccountId| a@);
    assert(views.no_duplicates()) by {
        assert forall|i: int, j: int| 0 <= i < views.len() && 0 <= j < views.len() && i != j implies views[i] != views[j] by {
            if i < j {
                assert(members[i]@ != members[j]@);
            } else {
                assert(members[j]@ != members[i]@);
            }
        }
    }
    assert(views.to_set() =~= added_members(calls)) by {
        assert forall|x: Seq<char>| views.to_set().contains(x) <==> added_members(calls).contains(x) by {
            if views.contains(x) {
                let i = choose|i: int| 0 <= i < views.len() && views[i] == x;
                assert(members[i]@ == x);
            }
            if has_account(members, x) {
                let i = choose|i: int| 0 <= i < members.len() && (#[trigger] members[i])@ == x;
                assert(views[i] == x);
            }
        }
    }
    views.unique_seq_to_set();
}

/// A member's contribution of a positive amount is accepted whenever the
/// new total fits in `i128`, and then the member is charged exactly that
/// amount, in the group's token; the record added names the member, the
/// amount, the period and the time, and the total grows by the amount.
pub proof fn law_contribution_charges_its_amount(s: TreasuryModel, member: AccountId, amount: i128, period: u32, now: u64)
    ensures
        ({
            let (after, r) = s.contribute_spec(member, amount, period, now);
            &&& (s.group is Some
                && (exists|k: int| 0 <= k < s.group.unwrap().members.len() && (#[trigger] s.group.unwrap().members[k])@ == member@)
                && amount > 0
                && s.group.unwrap().total_contributions + amount <= i128::MAX) ==> r is Ok
            &&& r is Ok ==> {
                &&& r.unwrap().account == member
                &&& r.unwrap().amount == amount
                &&& r.unwrap().asset == s.group.unwrap().asset
                &&& amount > 0
                &&& after.contributions.len() == s.contributions.len() + 1
                &&& after.contributions.last() == (ContributionRecord { member: member, amount: amount, timestamp: now, period: period })
                &&& (forall|j: int| 0 <= j < s.contributions.len() ==> after.contributions[j] == s.contributions[j])
                &&& after.group.unwrap().total_contributions == s.group.unwrap().total_contributions + amount
                &&& after.group.unwrap().members == s.group.unwrap().members
            }
            &&& r is Err ==> after == s
        }),
{
}

/// Setting up the group is accepted exactly when it is not set up yet; the
/// group then has the given admin, name and token, is active, has no
/// members and a zero total, and `initialize` reports exactly that.
pub proof fn law_initialize_sets_up_group(s: TreasuryModel, admin: AccountId, group_name: String, asset: AccountId)
    ensures
        ({
            let (after, r) = s.initialize_spec(admin, group_name, asset);
            &&& (r is Ok <==> s.group is None)
            &&& r is Err ==> after == s
            &&& r is Ok ==> {
                let g = after.group.unwrap();
                let info = r.unwrap();
                &&& g.admin == admin && g.name == group_name && g.asset == asset
                &&& g.is_active && g.total_contributions == 0 && g.members.len() == 0
                &&& info.admin == admin && info.name == group_name && info.asset == asset
                &&& info.is_active && info.total_contributions == 0 && info.member_count == 0
                &&& after.contributions == s.contributions
            }
        }),
{
}

/// The admin's `add_member` appends the account when it is not yet a member
/// (reporting `true`) and leaves the group as it was when it is (reporting
/// `false`); the admin, name, token and total never change.
pub proof fn law_add_member_appends_new_members(s: TreasuryModel, member: AccountId)
    requires
        s.group is Some,
    ensures
        ({
            let g = s.group.unwrap();
            let (after, r) = s.add_member_spec(g.admin@, member);
            let known = exists|k: int| 0 <= k < g.members.len() && (#[trigger] g.members[k])@ == member@;
            &&& known ==> r == Ok::<bool, TreasuryError>(false) && after == s
            &&& !known ==> {
                &&& r == Ok::<bool, TreasuryError>(true)
                &&& after.group.unwrap().members == g.members.push(member)
                &&& after.group.unwrap().admin == g.admin
                &&& after.group.unwrap().name == g.name
                &&& after.group.unwrap().asset == g.asset
                &&& after.group.unwrap().total_contributions == g.total_contributions
                &&& after.contributions == s.contributions
            }
        }),
{
}

} // verus!
