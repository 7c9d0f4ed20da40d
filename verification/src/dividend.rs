//! Dividends: the admin shares a profit among members in proportion to their
//! share weights; each distribution is recorded with the amount computed for
//! every recipient.

use vstd::prelude::*;
use vstd::arithmetic::div_mod::{lemma_fundamental_div_mod, lemma_mod_bound, lemma_div_pos_is_pos};

use crate::common::{AccountId, Transfer, copy_all};

verus! {

/// The addresses that `initialize` registers.
pub struct DividendConfig {
    pub admin: AccountId,
    pub asset: AccountId,
    pub treasury: AccountId,
}

/// One recorded distribution: `amounts[i]` was computed for `recipients[i]`.
pub struct Distribution {
    pub id: u32,
    pub total_profit: i128,
    pub total_shares: i128,
    pub recipients: Vec<AccountId>,
    pub amounts: Vec<i128>,
    pub executed_at: u64,
    pub period: String,
}

/// A recorded distribution, with its lists as sequences.
pub struct DistributionModel {
    pub id: u32,
    pub total_profit: i128,
    pub total_shares: i128,
    pub recipients: Seq<AccountId>,
    pub amounts: Seq<i128>,
    pub executed_at: u64,
    pub period: String,
}

impl View for Distribution {
    type V = DistributionModel;

    open spec fn view(&self) -> DistributionModel {
        DistributionModel {
            id: self.id,
            total_profit: self.total_profit,
            total_shares: self.total_shares,
            recipients: self.recipients@,
            amounts: self.amounts@,
            executed_at: self.executed_at,
            period: self.period,
        }
    }
}

/// Why an operation of the dividend contract was refused.
#[derive(Clone, Copy, Debug, PartialEq, Eq, Structural)]
pub enum DividendError {
    /// No admin is registered yet.
    NotInitialized,
    /// The caller is not the registered admin.
    Unauthorized,
    /// `recipients` and `shares` differ in length.
    LengthMismatch,
    /// The profit is zero or negative.
    NonPositiveProfit,
    /// Adding up the shares, in order, leaves the range of `i128`.
    SharesOverflow,
    /// The shares add up to zero.
    ZeroTotalShares,
    /// A payout `profit * share / total` leaves the range of `i128`.
    PayoutOverflow,
    /// The distribution counter is at its maximum.
    CounterOverflow,
}

/// The stored state of the dividend contract.
pub struct DividendContract {
    pub config: Option<DividendConfig>,
    pub distribution_counter: u32,
    pub distributions: Vec<Distribution>,
}

/// The stored state of the dividend contract, with its lists as sequences.
pub struct DividendModel {
    pub config: Option<DividendConfig>,
    pub distribution_counter: u32,
    pub distributions: Seq<DistributionModel>,
}

impl View for DividendContract {
    type V = DividendModel;

    open spec fn view(&self) -> DividendModel {
        DividendModel {
            config: self.config,
            distribution_counter: self.distribution_counter,
            distributions: self.distributions@.map_values(|d: Distribution| d@),
        }
    }
}

/// The sum of the first `n` elements of `s`.
pub open spec fn sum_first(s: Seq<i128>, n: nat) -> int
    decreases n,
{
    if n == 0 {
        0
    } else {
        sum_first(s, (n - 1) as nat) + s[n - 1]
    }
}

/// The sum of all elements of `s`.
pub open spec fn seq_sum(s: Seq<i128>) -> int {
    sum_first(s, s.len())
}

/// Every running total met while adding up `s` from the front fits in `i128`.
pub open spec fn running_sums_fit(s: Seq<i128>) -> bool {
    forall|k: nat| k <= s.len() ==> i128::MIN <= #[trigger] sum_first(s, k) <= i128::MAX
}

/// Integer division rounded towards zero, as Rust's `/` on `i128` does.
pub open spec fn trunc_div(x: int, d: int) -> int {
    if x == 0 {
        0
    } else if x > 0 && d > 0 {
        x / d
    } else if x < 0 && d < 0 {
        (x * -1) / (d * -1)
    } else if x < 0 {
        ((x * -1) / d) * -1
    } else {
        (x / (d * -1)) * -1
    }
}

/// The payout of one recipient, `profit * share / total` rounded towards
/// zero, if every step of it fits in `i128`.
pub open spec fn payout_spec(profit: i128, share: i128, total: i128) -> Option<i128> {
    let product = profit * share;
    if product < i128::MIN || product > i128::MAX {
        None
    } else {
        let q = trunc_div(product, total as int);
        if q < i128::MIN || q > i128::MAX {
            None
        } else {
            Some(q as i128)
        }
    }
}

/// Every payout of the distribution fits in `i128`.
pub open spec fn payouts_fit(shares: Seq<i128>, profit: i128, total: i128) -> bool {
    forall|i: int| 0 <= i < shares.len() ==> (#[trigger] payout_spec(profit, shares[i], total)) is Some
}

/// The payouts of a distribution, one for each share.
pub open spec fn payouts(shares: Seq<i128>, profit: i128, total: i128) -> Seq<i128> {
    Seq::new(shares.len(), |i: int| payout_spec(profit, shares[i], total).unwrap())
}

/// The transfers for the first `n` payouts: one to each recipient whose
/// payout is positive, in the order of the recipients.
pub open spec fn positive_transfers(
    asset: AccountId,
    recipients: Seq<AccountId>,
    amounts: Seq<i128>,
    n: nat,
) -> Seq<Transfer>
    decreases n,
{
    if n == 0 {
        Seq::empty()
    } else {
        let before = positive_transfers(asset, recipients, amounts, (n - 1) as nat);
        if amounts[n - 1] > 0 {
            before.push(Transfer { asset: asset, account: recipients[n - 1], amount: amounts[n - 1] })
        } else {
            before
        }
    }
}

/// The total amount of a list of transfers.
pub open spec fn transfer_total(ts: Seq<Transfer>) -> int
    decreases ts.len(),
{
    if ts.len() == 0 {
        0
    } else {
        transfer_total(ts.drop_last()) + ts.last().amount
    }
}

/// The result of `distribute`, with its list of transfers as a sequence.
pub open spec fn distribute_result_view(r: Result<(u32, Vec<Transfer>), DividendError>) -> Result<(u32, Seq<Transfer>), DividendError> {
    match r {
        Ok((id, ts)) => Ok((id, ts@)),
        Err(e) => Err(e),
    }
}

impl DividendModel {
    /// State and result of `distribute`.
    pub open spec fn distribute_spec(
        self,
        admin: Seq<char>,
        recipients: Seq<AccountId>,
        shares: Seq<i128>,
        total_profit: i128,
        period: String,
        now: u64,
    ) -> (DividendModel, Result<(u32, Seq<Transfer>), DividendError>) {
        match self.config {
            None => (self, Err(DividendError::NotInitialized)),
            Some(c) => if c.admin@ != admin {
                (self, Err(DividendError::Unauthorized))
            } else if recipients.len() != shares.len() {
                (self, Err(DividendError::LengthMismatch))
            } else if total_profit <= 0 {
                (self, Err(DividendError::NonPositiveProfit))
            } else if !running_sums_fit(shares) {
                (self, Err(DividendError::SharesOverflow))
            } else if seq_sum(shares) == 0 {
                (self, Err(DividendError::ZeroTotalShares))
            } else if !payouts_fit(shares, total_profit, seq_sum(shares) as i128) {
                (self, Err(DividendError::PayoutOverflow))
            } else if self.distribution_counter == u32::MAX {
                (self, Err(DividendError::CounterOverflow))
            } else {
                let total = seq_sum(shares) as i128;
                let amounts = payouts(shares, total_profit, total);
                let id = (self.distribution_counter + 1) as u32;
                let d = DistributionModel {
                    id: id,
                    total_profit: total_profit,
                    total_shares: total,
                    recipients: recipients,
                    amounts: amounts,
                    executed_at: now,
                    period: period,
                };
                (
                    DividendModel {
                        config: self.config,
                        distribution_counter: id,
                        distributions: self.distributions.push(d),
                    },
                    Ok((id, positive_transfers(c.asset, recipients, amounts, recipients.len()))),
                )
            },
        }
    }

    /// Distribution `i` has id `i + 1`, and the counter is the number of
    /// distributions.
    pub open spec fn ids_are_consecutive(self) -> bool {
        &&& self.distribution_counter == self.distributions.len()
        &&& forall|i: int| 0 <= i < self.distributions.len() ==> (#[trigger] self.distributions[i]).id == i + 1
    }
}

impl Distribution {
    /// A copy of the record.
    pub fn duplicate(&self) -> (d: Distribution)
        ensures
            d@ == self@,
    {
        Distribution {
            id: self.id,
            total_profit: self.total_profit,
            total_shares: self.total_shares,
            recipients: copy_all(&self.recipients),
            amounts: copy_all(&self.amounts),
            executed_at: self.executed_at,
            period: self.period.clone(),
        }
    }
}

impl DividendContract {
    /// The state of a contract that nothing has been stored in.
    pub fn new() -> (c: Self)
        ensures
            c@.config is None,
            c@.distribution_counter == 0,
            c@.distributions.len() == 0,
    {
        DividendContract { config: None, distribution_counter: 0, distributions: Vec::new() }
    }

    /// Registers the admin, the token paid out and the treasury, and starts
    /// with no distributions, replacing whatever was stored before.
    pub fn initialize(&mut self, admin: AccountId, asset: AccountId, treasury: AccountId)
        ensures
            final(self)@.config == Some((DividendConfig { admin: admin, asset: asset, treasury: treasury })),
            final(self)@.distribution_counter == 0,
            final(self)@.distributions == Seq::<DistributionModel>::empty(),
    {
        self.config = Some(DividendConfig { admin, asset, treasury });
        self.distribution_counter = 0;
        self.distributions = Vec::new();
        assert(self@.distributions =~= Seq::<DistributionModel>::empty());
    }

    /// Checks that `caller` is the registered admin, and gives the token paid out.
    fn require_admin(&self, caller: &AccountId) -> (r: Result<AccountId, DividendError>)
        ensures
            match self.config {
                None => r == Err::<AccountId, DividendError>(DividendError::NotInitialized),
                Some(c) => if c.admin@ != caller@ {
                    r == Err::<AccountId, DividendError>(DividendError::Unauthorized)
                } else {
                    r == Ok::<AccountId, DividendError>(c.asset)
                },
            },
    {
        match &self.config {
            None => Err(DividendError::NotInitialized),
            Some(c) => if c.admin == *caller {
                Ok(c.asset.clone())
            } else {
                Err(DividendError::Unauthorized)
            },
        }
    }

    /// Adds up the shares from the front; `None` where a running total
    /// leaves the range of `i128`.
    fn total_shares(shares: &Vec<i128>) -> (r: Option<i128>)
        ensures
            r is Some <==> running_sums_fit(shares@),
            r is Some ==> r.unwrap() == seq_sum(shares@),
    {
        let mut total: i128 = 0;
        let mut i: usize = 0;
        assert(sum_first(shares@, 0) == 0);
        while i < shares.len()
            invariant
                i <= shares.len(),
                total == sum_first(shares@, i as nat),
                forall|k: nat| k <= i ==> i128::MIN <= #[trigger] sum_first(shares@, k) <= i128::MAX,
            decreases shares.len() - i,
        {
            assert(sum_first(shares@, (i + 1) as nat) == total + shares@[i as int]);
            match total.checked_add(shares[i]) {
                None => {
                    assert(!(i128::MIN <= sum_first(shares@, (i + 1) as nat) <= i128::MAX));
                    return None;
                },
                Some(t) => {
                    total = t;
                },
            }
            i = i + 1;
            assert forall|k: nat| k <= i implies i128::MIN <= #[trigger] sum_first(shares@, k) <= i128::MAX by {
                if k < i {
                } else {
                    assert(k == i);
                }
            }
        }
        Some(total)
    }

    /// The payout of one share: `profit * share / total`, rounded towards zero.
    fn payout(profit: i128, share: i128, total: i128) -> (r: Option<i128>)
        requires
            total != 0,
        ensures
            r == payout_spec(profit, share, total),
    {
        match profit.checked_mul(share) {
            None => None,
            Some(product) => product.checked_div(total),
        }
    }

    /// Shares `total_profit` among `recipients` in proportion to `shares`
    /// (admin only). Recipient `i` is owed `total_profit * shares[i] /
    /// total`, rounded towards zero, where `total` is the sum of the shares;
    /// the distribution is recorded under the next id with every amount, and
    /// the result gives that id and the transfers to carry out, from the
    /// contract to each recipient whose amount is positive, in order.
    /// `now` is the ledger time. On a refusal nothing changes.
    pub fn distribute(
        &mut self,
        admin: &AccountId,
        recipients: Vec<AccountId>,
        shares: Vec<i128>,
        total_profit: i128,
        period: String,
        now: u64,
    ) -> (r: Result<(u32, Vec<Transfer>), DividendError>)
        ensures
            (final(self)@, distribute_result_view(r)) == old(self)@.distribute_spec(
                admin@,
                recipients@,
                shares@,
                total_profit,
                period,
                now,
            ),
    {
        let asset = match self.require_admin(admin) {
            Err(e) => {
                return Err(e);
            },
            Ok(a) => a,
        };
        if recipients.len() != shares.len() {
            return Err(DividendError::LengthMismatch);
        }
        if total_profit <= 0 {
            return Err(DividendError::NonPositiveProfit);
        }
        let total = match Self::total_shares(&shares) {
            None => {
                return Err(DividendError::SharesOverflow);
            },
            Some(t) => t,
        };
        if total == 0 {
            return Err(DividendError::ZeroTotalShares);
        }
        let ghost amounts_spec = payouts(shares@, total_profit, total);
        let mut amounts: Vec<i128> = Vec::new();
        let mut transfers: Vec<Transfer> = Vec::new();
        let mut i: usize = 0;
        #[verifier::loop_isolation(false)]
        while i < recipients.len()
            invariant
                i <= recipients.len(),
                recipients.len() == shares.len(),
                total != 0,
                amounts_spec == payouts(shares@, total_profit, total),
                amounts@ == amounts_spec.take(i as int),
                forall|j: int| 0 <= j < i ==> (#[trigger] payout_spec(total_profit, shares@[j], total)) is Some,
                transfers@ == positive_transfers(asset, recipients@, amounts_spec, i as nat),
            decreases recipients.len() - i,
        {
            let q = match Self::payout(total_profit, shares[i], total) {
                None => {
                    assert(payout_spec(total_profit, shares@[i as int], total) is None);
                    return Err(DividendError::PayoutOverflow);
                },
                Some(q) => q,
            };
            assert(amounts_spec[i as int] == q);
            if q > 0 {
                transfers.push(Transfer { asset: asset.clone(), account: recipients[i].clone(), amount: q });
            }
            amounts.push(q);
            i = i + 1;
            assert(amounts@ =~= amounts_spec.take(i as int));
        }
        assert(amounts@ =~= amounts_spec);
        if self.distribution_counter == u32::MAX {
            return Err(DividendError::CounterOverflow);
        }
        let id = self.distribution_counter + 1;
        let dist = Distribution {
            id,
            total_profit,
            total_shares: total,
            recipients,
            amounts,
            executed_at: now,
            period,
        };
        let ghost before = self.distributions@;
        self.distributions.push(dist);
        self.distribution_counter = id;
        assert(self.distributions@.map_values(|d: Distribution| d@)
            =~= before.map_values(|d: Distribution| d@).push(dist@));
        Ok((id, transfers))
    }

    /// Every recorded distribution, oldest first.
    pub fn get_distributions(&self) -> (r: Vec<Distribution>)
        ensures
            r@.map_values(|d: Distribution| d@) == self@.distributions,
    {
        let mut r: Vec<Distribution> = Vec::new();
        let mut i: usize = 0;
        while i < self.distributions.len()
            invariant
                i <= self.distributions.len(),
                r@.map_values(|d: Distribution| d@) == self@.distributions.take(i as int),
            decreases self.distributions.len() - i,
        {
            let ghost before = r@;
            let d = self.distributions[i].duplicate();
            r.push(d);
            assert(r@ == before.push(d));
            assert(r@.map_values(|d: Distribution| d@) =~= before.map_values(|d: Distribution| d@).push(d@));
            i = i + 1;
            assert(r@.map_values(|d: Distribution| d@) =~= self@.distributions.take(i as int));
        }
        assert(self@.distributions.take(self.distributions.len() as int) =~= self@.distributions);
        r
    }
}

/// One payout of a non-negative share: it is `profit * share / total`
/// rounded down, so it is non-negative and leaves a remainder below `total`.
proof fn lemma_one_payout(profit: i128, share: i128, total: i128)
    requires
        profit > 0,
        share >= 0,
        total > 0,
        payout_spec(profit, share, total) is Some,
    ensures
        ({
            let q = payout_spec(profit, share, total).unwrap();
            &&& q >= 0
            &&& 0 <= profit * share - total * q < total
        }),
{
    let x = profit * share;
    assert(x >= 0) by (nonlinear_arith)
        requires
            profit > 0,
            share >= 0,
            x == profit * share,
    ;
    lemma_fundamental_div_mod(x, total as int);
    lemma_mod_bound(x, total as int);
    lemma_div_pos_is_pos(x, total as int);
    if x == 0 {
        assert(0int / (total as int) == 0) by (nonlinear_arith)
            requires
                total > 0,
        ;
    }
    assert(trunc_div(x, total as int) == x / (total as int));
}

/// Over the first `n` shares, when all are non-negative, `profit` times
/// their sum exceeds `total` times the sum of their payouts by at least
/// zero and at most `n * (total - 1)`.
proof fn lemma_payout_remainders(shares: Seq<i128>, profit: i128, total: i128, n: nat)
    requires
        profit > 0,
        total > 0,
        n <= shares.len(),
        forall|i: int| 0 <= i < shares.len() ==> shares[i] >= 0,
        payouts_fit(shares, profit, total),
    ensures
        0 <= profit * sum_first(shares, n) - total * sum_first(payouts(shares, profit, total), n)
            <= n * (total - 1),
        sum_first(payouts(shares, profit, total), n) >= 0,
    decreases n,
{
    let a = payouts(shares, profit, total);
    if n > 0 {
        let m = (n - 1) as nat;
        lemma_payout_remainders(shares, profit, total, m);
        let s = shares[m as int];
        assert(payout_spec(profit, shares[m as int], total) is Some);
        lemma_one_payout(profit, s, total);
        let q = a[m as int];
        let s_before = sum_first(shares, m);
        let a_before = sum_first(a, m);
        assert(sum_first(shares, n) == s_before + s);
        assert(sum_first(a, n) == a_before + q);
        assert(profit * (s_before + s) - total * (a_before + q)
            == (profit * s_before - total * a_before) + (profit * s - total * q)) by (nonlinear_arith);
        assert(m * (total - 1) + (total - 1) == n * (total - 1)) by (nonlinear_arith)
            requires
                n == m + 1,
        ;
    }
}

/// When every share is non-negative, the amounts of a distribution are
/// non-negative, they add up to at most the profit, and rounding down loses
/// less than one unit per recipient; the transfers carry exactly the amounts
/// of the distribution, since only zero amounts are left out.
pub proof fn law_payouts_within_profit(shares: Seq<i128>, asset: AccountId, recipients: Seq<AccountId>, profit: i128)
    requires
        profit > 0,
        forall|i: int| 0 <= i < shares.len() ==> shares[i] >= 0,
        running_sums_fit(shares),
        seq_sum(shares) != 0,
        payouts_fit(shares, profit, seq_sum(shares) as i128),
    ensures
        ({
            let total = seq_sum(shares) as i128;
            let amounts = payouts(shares, profit, total);
            &&& forall|i: int| 0 <= i < amounts.len() ==> amounts[i] >= 0
            &&& seq_sum(amounts) <= profit
            &&& profit - shares.len() < seq_sum(amounts)
            &&& transfer_total(positive_transfers(asset, recipients, amounts, shares.len())) == seq_sum(amounts)
        }),
{
    let total = seq_sum(shares) as i128;
    let n = shares.len();
    let amounts = payouts(shares, profit, total);
    lemma_sum_nonnegative(shares, n);
    assert(total > 0);
    assert forall|i: int| 0 <= i < amounts.len() implies amounts[i] >= 0 by {
        assert(payout_spec(profit, shares[i], total) is Some);
        lemma_one_payout(profit, shares[i], total);
    }
    lemma_payout_remainders(shares, profit, total, n);
    let p_sum = seq_sum(amounts);
    assert(amounts.len() == n);
    let diff = profit - p_sum;
    assert(profit * total - total * p_sum == total * diff) by (nonlinear_arith)
        requires
            diff == profit - p_sum,
    ;
    assert(0 <= diff) by (nonlinear_arith)
        requires
            total > 0,
            0 <= total * diff,
    ;
    assert(n > 0) by {
        if n == 0 {
            assert(seq_sum(shares) == 0);
        }
    }
    assert(total * diff < total * n) by (nonlinear_arith)
        requires
            n > 0,
            total * diff <= n * (total - 1),
    ;
    assert(diff < n) by (nonlinear_arith)
        requires
            total > 0,
            total * diff < total * n,
    ;
    lemma_transfer_total(asset, recipients, amounts, n);
}

/// A sum of non-negative numbers is non-negative.
proof fn lemma_sum_nonnegative(s: Seq<i128>, n: nat)
    requires
        n <= s.len(),
        forall|i: int| 0 <= i < s.len() ==> s[i] >= 0,
    ensures
        sum_first(s, n) >= 0,
    decreases n,
{
    if n > 0 {
        lemma_sum_nonnegative(s, (n - 1) as nat);
    }
}

/// With non-negative amounts, the transfers for the first `n` amounts carry
/// their sum.
proof fn lemma_transfer_total(asset: AccountId, recipients: Seq<AccountId>, amounts: Seq<i128>, n: nat)
    requires
        n <= amounts.len(),
        forall|i: int| 0 <= i < amounts.len() ==> amounts[i] >= 0,
    ensures
        transfer_total(positive_transfers(asset, recipients, amounts, n)) == sum_first(amounts, n),
    decreases n,
{
    if n > 0 {
        let m = (n - 1) as nat;
        lemma_transfer_total(asset, recipients, amounts, m);
        let before = positive_transfers(asset, recipients, amounts, m);
        if amounts[m as int] > 0 {
            let t = Transfer { asset: asset, account: recipients[m as int], amount: amounts[m as int] };
            assert(before.push(t).drop_last() =~= before);
        }
    }
}

/// Each distribution gets the next id: when distribution `i` has id `i + 1`
/// and the counter counts them, a successful `distribute` keeps it so and
/// returns the id of the new record; `initialize` starts it over.
pub proof fn law_distribution_ids_consecutive(
    s: DividendModel,
    admin: Seq<char>,
    recipients: Seq<AccountId>,
    shares: Seq<i128>,
    total_profit: i128,
    period: String,
    now: u64,
)
    requires
        s.ids_are_consecutive(),
    ensures
        ({
            let (after, r) = s.distribute_spec(admin, recipients, shares, total_profit, period, now);
            &&& after.ids_are_consecutive()
            &&& r matches Ok((id, _)) ==> id == after.distributions.len()
                && after.distributions.last().id == id
        }),
{
    let (after, r) = s.distribute_spec(admin, recipients, shares, total_profit, period, now);
    if r is Ok {
        assert forall|i: int| 0 <= i < after.distributions.len() implies (#[trigger] after.distributions[i]).id == i + 1 by {
            if i < s.distributions.len() {
                assert(after.distributions[i] == s.distributions[i]);
            }
        }
    }
}

/// Only the admin distributes: whenever `distribute` is accepted, the
/// caller is the registered admin; a refusal changes nothing.
pub proof fn law_only_admin_distributes(
    s: DividendModel,
    caller: Seq<char>,
    recipients: Seq<AccountId>,
    shares: Seq<i128>,
    total_profit: i128,
    period: String,
    now: u64,
)
    ensures
        ({
            let (after, r) = s.distribute_spec(caller, recipients, shares, total_profit, period, now);
            &&& r is Ok ==> s.config is Some && s.config.unwrap().admin@ == caller
            &&& r is Err ==> after == s
        }),
{
}

/// A share whose product with the profit fits in `i128` gets the product
/// divided by the total, rounded down: a non-negative amount no larger than
/// the product.
proof fn lemma_fitting_payout(profit: i128, share: i128, total: i128)
    requires
        profit > 0,
        share >= 0,
        total > 0,
        profit * share <= i128::MAX,
    ensures
        payout_spec(profit, share, total) == Some(((profit * share) / (total as int)) as i128),
        0 <= (profit * share) / (total as int) <= profit * share,
{
    let x = profit * share;
    assert(x >= 0) by (nonlinear_arith)
        requires
            profit > 0,
            share >= 0,
            x == profit * share,
    ;
    lemma_div_pos_is_pos(x, total as int);
    assert(x / (total as int) <= x) by (nonlinear_arith)
        requires
            x >= 0,
            total > 0,
    ;
    if x == 0 {
        assert(0int / (total as int) == 0) by (nonlinear_arith)
            requires
                total > 0,
        ;
    }
}

/// Running totals of non-negative numbers lie between zero and the full sum.
proof fn lemma_running_sums_bounded(s: Seq<i128>, k: nat)
    requires
        k <= s.len(),
        forall|i: int| 0 <= i < s.len() ==> s[i] >= 0,
    ensures
        0 <= sum_first(s, k) <= sum_first(s, s.len()),
    decreases s.len() - k,
{
    lemma_sum_nonnegative(s, k);
    if k < s.len() {
        lemma_running_sums_bounded(s, k + 1);
    }
}

/// The admin's distribution of a positive profit over non-negative shares
/// is accepted whenever the shares add up to a positive total in `i128`,
/// every product `profit * share` fits in `i128`, and the counter can still
/// count; it is recorded under the next id, and each recipient is owed
/// `profit * share / total`, rounded down.
pub proof fn law_distribute_pays_each_share(
    s: DividendModel,
    admin: Seq<char>,
    recipients: Seq<AccountId>,
    shares: Seq<i128>,
    total_profit: i128,
    period: String,
    now: u64,
)
    requires
        s.config is Some,
        s.config.unwrap().admin@ == admin,
        recipients.len() == shares.len(),
        total_profit > 0,
        forall|i: int| 0 <= i < shares.len() ==> shares[i] >= 0,
        0 < sum_first(shares, shares.len()) <= i128::MAX,
        forall|i: int| 0 <= i < shares.len() ==> total_profit * shares[i] <= i128::MAX,
        s.distribution_counter < u32::MAX,
    ensures
        ({
            let (after, r) = s.distribute_spec(admin, recipients, shares, total_profit, period, now);
            let d = after.distributions.last();
            &&& r is Ok
            &&& r.unwrap().0 == s.distribution_counter + 1
            &&& after.distribution_counter == s.distribution_counter + 1
            &&& after.distributions.len() == s.distributions.len() + 1
            &&& forall|j: int| 0 <= j < s.distributions.len() ==> after.distributions[j] == s.distributions[j]
            &&& d.id == s.distribution_counter + 1
            &&& d.total_profit == total_profit
            &&& d.total_shares == sum_first(shares, shares.len())
            &&& d.recipients == recipients
            &&& d.period == period
            &&& d.executed_at == now
            &&& d.amounts.len() == shares.len()
            &&& forall|i: int| 0 <= i < shares.len() ==>
                d.amounts[i] == (total_profit * shares[i]) / sum_first(shares, shares.len())
        }),
{
    let total = seq_sum(shares) as i128;
    assert forall|k: nat| k <= shares.len() implies i128::MIN <= #[trigger] sum_first(shares, k) <= i128::MAX by {
        lemma_running_sums_bounded(shares, k);
    }
    assert forall|i: int| 0 <= i < shares.len() implies (#[trigger] payout_spec(total_profit, shares[i], total)) is Some by {
        lemma_fitting_payout(total_profit, shares[i], total);
    }
    let (after, r) = s.distribute_spec(admin, recipients, shares, total_profit, period, now);
    let d = after.distributions.last();
    assert forall|i: int| 0 <= i < shares.len() implies d.amounts[i] == (total_profit * shares[i]) / sum_first(shares, shares.len()) by {
        lemma_fitting_payout(total_profit, shares[i], total);
    }
}

/// The transfers of an accepted distribution go, in order, to exactly the
/// recipients whose recorded amount is positive, each for that amount, in
/// the token the contract pays out.
pub proof fn law_distribute_transfers_positive_amounts(
    s: DividendModel,
    admin: Seq<char>,
    recipients: Seq<AccountId>,
    shares: Seq<i128>,
    total_profit: i128,
    period: String,
    now: u64,
)
    ensures
        ({
            let (after, r) = s.distribute_spec(admin, recipients, shares, total_profit, period, now);
            r is Ok ==> {
                let d = after.distributions.last();
                let ts = r.unwrap().1;
                &&& forall|k: int| 0 <= k < ts.len() ==> (#[trigger] ts[k]).asset == s.config.unwrap().asset && ts[k].amount > 0
                &&& ts.len() == count_positive(d.amounts, d.amounts.len())
                &&& forall|i: int| 0 <= i < d.amounts.len() && d.amounts[i] > 0 ==> {
                    let k = count_positive(d.amounts, i as nat) as int;
                    &&& 0 <= k < ts.len()
                    &&& ts[k].account == d.recipients[i]
                    &&& ts[k].amount == d.amounts[i]
                }
            }
        }),
{
    let (after, r) = s.distribute_spec(admin, recipients, shares, total_profit, period, now);
    if r is Ok {
        let d = after.distributions.last();
        lemma_positive_transfers(s.config.unwrap().asset, recipients, d.amounts, recipients.len());
    }
}

/// The number of positive numbers among the first `n` of `s`.
pub open spec fn count_positive(s: Seq<i128>, n: nat) -> nat
    decreases n,
{
    if n == 0 {
        0
    } else {
        count_positive(s, (n - 1) as nat) + if s[n - 1] > 0 {
            1nat
        } else {
            0nat
        }
    }
}

/// The transfers for the first `n` amounts: one per positive amount, in order.
proof fn lemma_positive_transfers(asset: AccountId, recipients: Seq<AccountId>, amounts: Seq<i128>, n: nat)
    requires
        n <= amounts.len(),
        n <= recipients.len(),
    ensures
        ({
            let ts = positive_transfers(asset, recipients, amounts, n);
            &&& ts.len() == count_positive(amounts, n)
            &&& forall|k: int| 0 <= k < ts.len() ==> (#[trigger] ts[k]).asset == asset && ts[k].amount > 0
            &&& forall|i: int| 0 <= i < n && amounts[i] > 0 ==> {
                let k = count_positive(amounts, i as nat) as int;
                &&& 0 <= k < ts.len()
                &&& ts[k].account == recipients[i]
                &&& ts[k].amount == amounts[i]
            }
        }),
    decreases n,
{
    if n > 0 {
        let m = (n - 1) as nat;
        lemma_positive_transfers(asset, recipients, amounts, m);
        lemma_count_positive_monotone(amounts, m);
        let before = positive_transfers(asset, recipients, amounts, m);
        let ts = positive_transfers(asset, recipients, amounts, n);
        assert forall|i: int| 0 <= i < n && amounts[i] > 0 implies {
            let k = count_positive(amounts, i as nat) as int;
            &&& 0 <= k < ts.len()
            &&& ts[k].account == recipients[i]
            &&& ts[k].amount == amounts[i]
        } by {
            if i < m {
                lemma_count_positive_le(amounts, (i + 1) as nat, m);
                let k = count_positive(amounts, i as nat) as int;
                assert(ts[k] == before[k]);
            }
        }
    }
}

/// Counting positives over a longer prefix never gives fewer.
proof fn lemma_count_positive_le(s: Seq<i128>, a: nat, b: nat)
    requires
        a <= b <= s.len(),
    ensures
        count_positive(s, a) <= count_positive(s, b),
    decreases b - a,
{
    if a < b {
        lemma_count_positive_le(s, a, (b - 1) as nat);
    }
}

/// The count over the first `n` numbers includes the `n`-th when positive.
proof fn lemma_count_positive_monotone(s: Seq<i128>, n: nat)
    requires
        n < s.len(),
    ensures
        count_positive(s, n + 1) == count_positive(s, n) + if s[n as int] > 0 {
            1nat
        } else {
            0nat
        },
{
}

} // verus!
