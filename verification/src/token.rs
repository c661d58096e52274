//! The REBAZ token: a ledger with staking, reward accrual and slashing.
//!
//! The contract state lives in an explicit [`REBAZToken`] value; every entry
//! point is a method that either returns a typed [`Error`] and leaves the
//! state unchanged, or performs one atomic transition. Addresses are plain
//! `u64` identifiers; the host's caller authentication is represented by the
//! `caller` argument of the admin-only entry points, and the ledger clock by
//! an explicit `now` argument.
//!
//! The central invariant, [`REBAZToken::wf`], states supply conservation:
//! the total supply always equals the sum over all accounts of the liquid
//! balance plus the amounts of the stakes not yet withdrawn. Rewards minted
//! on withdrawal and administrative slashing are the only operations that
//! change that sum, and both move the total supply with it.

use vstd::prelude::*;

verus! {

/// Number of seconds in 365 days, the year length used by the reward math.
pub const SECONDS_PER_YEAR: u64 = 365 * 24 * 60 * 60;

/// Default minimum lock duration: 7 days.
pub const DEFAULT_MIN_STAKE_DURATION: u64 = 7 * 24 * 60 * 60;

/// Default maximum lock duration: 365 days.
pub const DEFAULT_MAX_STAKE_DURATION: u64 = 365 * 24 * 60 * 60;

/// Default base reward rate: 500 basis points (5%).
pub const DEFAULT_BASE_REWARD_RATE: u64 = 500;

/// One stake record. Once created it is never deleted: `withdrawn` is the
/// terminal marker, and slashing may lower `amount` (to zero at most).
#[derive(Clone, Copy)]
pub struct StakeInfo {
    pub amount: u64,
    pub start_time: u64,
    pub end_time: u64,
    pub withdrawn: bool,
}

/// Admin-configurable staking bounds and base reward rate (basis points).
#[derive(Clone, Copy)]
pub struct StakingParams {
    pub min_stake_duration: u64,
    pub max_stake_duration: u64,
    pub base_reward_rate: u64,
}

/// Governance configuration; stored and reported, not consumed by this core.
#[derive(Clone, Copy)]
pub struct GovernanceParams {
    pub proposal_threshold: u64,
    pub voting_period: u64,
    pub voting_delay: u64,
}

/// Typed failures. Every entry point either succeeds or returns one of these
/// with the state left exactly as it was.
#[derive(Clone, Copy, Debug, PartialEq, Eq, Structural)]
pub enum Error {
    InsufficientBalance,
    OnlyAdminCanMint,
    InsufficientBalanceToBurn,
    CannotStakeZero,
    StakingDurationTooShort,
    StakingDurationTooLong,
    StakeDoesNotExist,
    StakeAlreadyWithdrawn,
    OnlyAdminCanUpdateStakingParams,
    MinDurationGtMaxDuration,
    BaseRewardRateTooHigh,
    OnlyAdminCanUpdateGovernanceParams,
    ContractParamsNotSet,
    ContractPaused,
    OnlyAdminCanPause,
    OnlyAdminCanSlash,
    CannotSlashZero,
    SlashAmountTooHigh,
}

/// Reward rate in basis points for a lock of `duration` seconds: the base
/// rate, plus 100 bps from 180 days and another 200 bps from 365 days. The
/// two bonuses are cumulative, not a single-tier lookup.
pub open spec fn spec_reward_rate(duration: int, base_rate: u64) -> int {
    base_rate + (if duration >= 180 * 24 * 60 * 60 {
        100int
    } else {
        0int
    }) + (if duration >= 365 * 24 * 60 * 60 {
        200int
    } else {
        0int
    })
}

/// Elapsed years as a fixed-point value scaled by 10^4, truncated.
pub open spec fn spec_years_scaled(duration: int) -> int {
    duration * 10000 / (SECONDS_PER_YEAR as int)
}

/// The reward formula: multiply fully, then divide once by the two compounded
/// 10^4 scale factors (basis points and year fraction), truncating.
pub open spec fn spec_reward_formula(amount: u64, rate: int, duration: int) -> int {
    amount * rate * spec_years_scaled(duration) / ((10000 * 10000) as int)
}

/// Reward owed to a stake at time `now`: zero for an empty, withdrawn or not
/// yet matured stake, otherwise the formula over the full lock duration.
pub open spec fn spec_reward(st: StakeInfo, now: u64, params: StakingParams) -> int {
    if st.amount == 0 || st.withdrawn {
        0
    } else if now < st.end_time {
        0
    } else {
        let duration = st.end_time - st.start_time;
        spec_reward_formula(st.amount, spec_reward_rate(duration, params.base_reward_rate), duration)
    }
}

/// The reward computation stays within `u64` in the order the machine
/// performs it: scaled duration first, then amount times rate, then the full
/// product.
pub open spec fn reward_fits(st: StakeInfo, params: StakingParams) -> bool {
    let duration = st.end_time - st.start_time;
    let rate = spec_reward_rate(duration, params.base_reward_rate);
    &&& duration * 10000 <= u64::MAX
    &&& st.amount * rate <= u64::MAX
    &&& st.amount * rate * spec_years_scaled(duration) <= u64::MAX
}

/// The reward engine: a pure function of the stake record, the clock and the
/// staking parameters, matching [`spec_reward`] exactly, truncation included.
pub fn reward_for_stake(stake: &StakeInfo, now: u64, params: &StakingParams) -> (r: u64)
    requires
        stake.start_time <= stake.end_time,
        params.base_reward_rate <= 5000,
        (stake.amount > 0 && !stake.withdrawn && now >= stake.end_time) ==> reward_fits(
            *stake,
            *params,
        ),
    ensures
        r == spec_reward(*stake, now, *params),
{
    if stake.amount == 0 || stake.withdrawn {
        return 0;
    }
    if now < stake.end_time {
        return 0;
    }
    let duration = stake.end_time - stake.start_time;
    let years_scaled = duration * 10000 / SECONDS_PER_YEAR;
    let mut rate = params.base_reward_rate;
    if duration >= 180 * 24 * 60 * 60 {
        rate = rate + 100;
    }
    if duration >= 365 * 24 * 60 * 60 {
        rate = rate + 200;
    }
    stake.amount * rate * years_scaled / (10000 * 10000)
}

/// A stake pays nothing before its maturity, whatever its size or rate.
pub proof fn lemma_reward_zero_before_maturity(st: StakeInfo, now: u64, params: StakingParams)
    requires
        now < st.end_time,
    ensures
        spec_reward(st, now, params) == 0,
{
}

/// The scaled year fraction never decreases with the duration.
proof fn lemma_years_scaled_monotone(d1: int, d2: int)
    requires
        0 <= d1 <= d2,
    ensures
        0 <= spec_years_scaled(d1) <= spec_years_scaled(d2),
{
    vstd::arithmetic::div_mod::lemma_div_is_ordered(0, d1 * 10000, SECONDS_PER_YEAR as int);
    vstd::arithmetic::div_mod::lemma_div_is_ordered(
        d1 * 10000,
        d2 * 10000,
        SECONDS_PER_YEAR as int,
    );
}

/// For a fixed amount and a fixed rate, the reward never decreases as the
/// lock duration grows.
pub proof fn lemma_reward_formula_monotone_in_duration(amount: u64, rate: int, d1: int, d2: int)
    requires
        0 <= d1 <= d2,
        rate >= 0,
    ensures
        spec_reward_formula(amount, rate, d1) <= spec_reward_formula(amount, rate, d2),
{
    lemma_years_scaled_monotone(d1, d2);
    vstd::arithmetic::mul::lemma_mul_nonnegative(amount as int, rate);
    vstd::arithmetic::mul::lemma_mul_inequality(
        spec_years_scaled(d1),
        spec_years_scaled(d2),
        amount * rate,
    );
    vstd::arithmetic::mul::lemma_mul_is_commutative(spec_years_scaled(d1), amount * rate);
    vstd::arithmetic::mul::lemma_mul_is_commutative(spec_years_scaled(d2), amount * rate);
    vstd::arithmetic::div_mod::lemma_div_is_ordered(
        amount * rate * spec_years_scaled(d1),
        amount * rate * spec_years_scaled(d2),
        (10000 * 10000) as int,
    );
}

/// The rate tiers themselves never decrease with the duration, so the full
/// reward (rate tiers included) is monotone in the lock duration as well.
pub proof fn lemma_reward_monotone_in_duration(amount: u64, base_rate: u64, d1: int, d2: int)
    requires
        0 <= d1 <= d2,
    ensures
        spec_reward_rate(d1, base_rate) <= spec_reward_rate(d2, base_rate),
        spec_reward_formula(amount, spec_reward_rate(d1, base_rate), d1) <= spec_reward_formula(
            amount,
            spec_reward_rate(d2, base_rate),
            d2,
        ),
{
    let r1 = spec_reward_rate(d1, base_rate);
    let r2 = spec_reward_rate(d2, base_rate);
    lemma_reward_formula_monotone_in_duration(amount, r1, d1, d2);
    lemma_years_scaled_monotone(d2, d2);
    vstd::arithmetic::mul::lemma_mul_inequality(r1, r2, amount as int);
    vstd::arithmetic::mul::lemma_mul_is_commutative(r1, amount as int);
    vstd::arithmetic::mul::lemma_mul_is_commutative(r2, amount as int);
    vstd::arithmetic::mul::lemma_mul_inequality(
        amount * r1,
        amount * r2,
        spec_years_scaled(d2),
    );
    vstd::arithmetic::mul::lemma_mul_is_commutative(amount * r1, spec_years_scaled(d2));
    vstd::arithmetic::mul::lemma_mul_is_commutative(amount * r2, spec_years_scaled(d2));
    vstd::arithmetic::div_mod::lemma_div_is_ordered(
        amount * r1 * spec_years_scaled(d2),
        amount * r2 * spec_years_scaled(d2),
        (10000 * 10000) as int,
    );
}

/// The slashing cascade over a stake history, most recently created stake
/// first: each active stake loses `min(remaining, amount)`, is marked
/// withdrawn when emptied, and the pass stops once nothing remains to
/// recover. `.0` is the transformed history, `.1` what could not be covered.
pub open spec fn slash_cascade(stakes: Seq<StakeInfo>, remaining: int) -> (Seq<StakeInfo>, int)
    decreases stakes.len(),
{
    if stakes.len() == 0 || remaining <= 0 {
        (stakes, remaining)
    } else {
        let last = stakes.last();
        if last.withdrawn {
            let rec = slash_cascade(stakes.drop_last(), remaining);
            (rec.0.push(last), rec.1)
        } else {
            let take = if remaining < last.amount {
                remaining
            } else {
                last.amount as int
            };
            let new_last = StakeInfo {
                amount: (last.amount - take) as u64,
                withdrawn: last.amount == take,
                ..last
            };
            let rec = slash_cascade(stakes.drop_last(), remaining - take);
            (rec.0.push(new_last), rec.1)
        }
    }
}

/// What the slashing cascade does: it keeps the history's length and every
/// stake's lock window, never raises an amount, never clears a withdrawn
/// mark, recovers exactly `min(remaining, active sum)`, and leaves no active
/// stake empty.
proof fn lemma_slash_cascade(stakes: Seq<StakeInfo>, remaining: int)
    requires
        remaining >= 0,
        forall|j: int|
            0 <= j < stakes.len() && !(#[trigger] stakes[j]).withdrawn ==> stakes[j].amount > 0,
    ensures
        slash_cascade(stakes, remaining).0.len() == stakes.len(),
        slash_cascade(stakes, remaining).1 == (if remaining <= sum_active(stakes) {
            0int
        } else {
            remaining - sum_active(stakes)
        }),
        sum_active(slash_cascade(stakes, remaining).0) == sum_active(stakes) - (remaining
            - slash_cascade(stakes, remaining).1),
        forall|j: int|
            0 <= j < stakes.len() ==> {
                let prev = stakes[j];
                let cur = #[trigger] slash_cascade(stakes, remaining).0[j];
                &&& cur.start_time == prev.start_time
                &&& cur.end_time == prev.end_time
                &&& cur.amount <= prev.amount
                &&& (prev.withdrawn ==> cur == prev)
                &&& (!cur.withdrawn ==> cur.amount > 0)
            },
    decreases stakes.len(),
{
    lemma_sum_active_nonneg(stakes);
    if stakes.len() == 0 || remaining <= 0 {
    } else {
        let last = stakes.last();
        let pre = stakes.drop_last();
        lemma_sum_active_nonneg(pre);
        assert(forall|j: int|
            0 <= j < pre.len() && !(#[trigger] pre[j]).withdrawn ==> pre[j].amount > 0);
        if last.withdrawn {
            lemma_slash_cascade(pre, remaining);
            let rec = slash_cascade(pre, remaining);
            assert forall|j: int| 0 <= j < stakes.len() implies {
                let prev = stakes[j];
                let cur = #[trigger] slash_cascade(stakes, remaining).0[j];
                &&& cur.start_time == prev.start_time
                &&& cur.end_time == prev.end_time
                &&& cur.amount <= prev.amount
                &&& (prev.withdrawn ==> cur == prev)
                &&& (!cur.withdrawn ==> cur.amount > 0)
            } by {
                if j < stakes.len() - 1 {
                    assert(slash_cascade(stakes, remaining).0[j] == rec.0[j]);
                    assert(stakes[j] == pre[j]);
                } else {
                    assert(slash_cascade(stakes, remaining).0[j] == last);
                }
            }
            assert(sum_active(slash_cascade(stakes, remaining).0) == sum_active(rec.0.push(last)));
            lemma_sum_active_push(rec.0, last);
        } else {
            let take = if remaining < last.amount {
                remaining
            } else {
                last.amount as int
            };
            let new_last = StakeInfo {
                amount: (last.amount - take) as u64,
                withdrawn: last.amount == take,
                ..last
            };
            lemma_slash_cascade(pre, remaining - take);
            let rec = slash_cascade(pre, remaining - take);
            assert forall|j: int| 0 <= j < stakes.len() implies {
                let prev = stakes[j];
                let cur = #[trigger] slash_cascade(stakes, remaining).0[j];
                &&& cur.start_time == prev.start_time
                &&& cur.end_time == prev.end_time
                &&& cur.amount <= prev.amount
                &&& (prev.withdrawn ==> cur == prev)
                &&& (!cur.withdrawn ==> cur.amount > 0)
            } by {
                if j < stakes.len() - 1 {
                    assert(slash_cascade(stakes, remaining).0[j] == rec.0[j]);
                    assert(stakes[j] == pre[j]);
                } else {
                    assert(slash_cascade(stakes, remaining).0[j] == new_last);
                }
            }
            lemma_sum_active_push(rec.0, new_last);
        }
    }
}

/// Per-address state: liquid balance, the full stake history, and the cached
/// sum of the amounts of the stakes not yet withdrawn.
pub struct Account {
    pub addr: u64,
    pub balance: u64,
    pub staked_total: u64,
    pub stakes: Vec<StakeInfo>,
}

/// What an active stake adds to the escrowed pool: its amount if it is
/// still claimable, nothing once it is withdrawn.
pub open spec fn stake_weight(st: StakeInfo) -> int {
    if st.withdrawn {
        0
    } else {
        st.amount as int
    }
}

/// Sum of the amounts of the stakes not yet withdrawn.
pub open spec fn sum_active(stakes: Seq<StakeInfo>) -> int
    decreases stakes.len(),
{
    if stakes.len() == 0 {
        0
    } else {
        sum_active(stakes.drop_last()) + stake_weight(stakes.last())
    }
}

/// Well-formedness of one account: the cached staked total is exactly the sum
/// of the active stake amounts, stake times are ordered, a stake that is not
/// withdrawn holds a positive amount, and the history fits the `u32` counter.
pub open spec fn account_wf(a: Account) -> bool {
    &&& a.staked_total == sum_active(a.stakes@)
    &&& forall|j: int|
        0 <= j < a.stakes@.len() ==> (#[trigger] a.stakes@[j]).start_time <= a.stakes@[j].end_time
    &&& forall|j: int|
        0 <= j < a.stakes@.len() && !(#[trigger] a.stakes@[j]).withdrawn ==> a.stakes@[j].amount > 0
    &&& a.stakes@.len() <= u32::MAX
}

/// Everything an account holds, liquid or escrowed.
pub open spec fn holdings(a: Account) -> int {
    a.balance + sum_active(a.stakes@)
}

/// Sum of [`holdings`] over all accounts.
pub open spec fn total_assets(accs: Seq<Account>) -> int
    decreases accs.len(),
{
    if accs.len() == 0 {
        0
    } else {
        total_assets(accs.drop_last()) + holdings(accs.last())
    }
}

/// The account registered for `addr`, if any.
pub open spec fn lookup(accs: Seq<Account>, addr: u64) -> Option<Account>
    decreases accs.len(),
{
    if accs.len() == 0 {
        None
    } else if accs.last().addr == addr {
        Some(accs.last())
    } else {
        lookup(accs.drop_last(), addr)
    }
}

/// No two accounts share an address.
pub open spec fn addrs_unique(accs: Seq<Account>) -> bool {
    forall|i: int, j: int|
        0 <= i < j < accs.len() ==> (#[trigger] accs[i]).addr != (#[trigger] accs[j]).addr
}

/// The token contract state.
pub struct REBAZToken {
    pub admin: u64,
    pub total_supply: u64,
    pub accounts: Vec<Account>,
    pub staking_params: StakingParams,
    pub governance_params: GovernanceParams,
    pub paused: bool,
}

impl REBAZToken {
    /// Supply conservation: the scalar total supply equals the sum over all
    /// accounts of liquid balance plus active stake amounts.
    pub open spec fn supply_conserved(self) -> bool {
        self.total_supply == total_assets(self.accounts@)
    }

    /// Well-formedness: established by `init`, preserved by every entry point.
    pub open spec fn wf(self) -> bool {
        &&& addrs_unique(self.accounts@)
        &&& forall|i: int| 0 <= i < self.accounts@.len() ==> account_wf(#[trigger] self.accounts@[i])
        &&& self.supply_conserved()
        &&& self.staking_params.base_reward_rate <= 5000
        &&& self.staking_params.min_stake_duration <= self.staking_params.max_stake_duration
    }

    /// Liquid balance of `addr`; zero for an address never seen.
    pub open spec fn spec_balance(self, addr: u64) -> u64 {
        match lookup(self.accounts@, addr) {
            Some(a) => a.balance,
            None => 0,
        }
    }

    /// Cached sum of `addr`'s active stake amounts; zero for an address never seen.
    pub open spec fn spec_staked(self, addr: u64) -> u64 {
        match lookup(self.accounts@, addr) {
            Some(a) => a.staked_total,
            None => 0,
        }
    }

    /// Full stake history of `addr`, indexed by sequence id.
    pub open spec fn spec_stakes(self, addr: u64) -> Seq<StakeInfo> {
        match lookup(self.accounts@, addr) {
            Some(a) => a.stakes@,
            None => Seq::empty(),
        }
    }

    /// The stake record `stake_id` of `addr`, if it was ever created.
    pub open spec fn spec_stake(self, addr: u64, stake_id: u32) -> Option<StakeInfo> {
        if stake_id < self.spec_stakes(addr).len() {
            Some(self.spec_stakes(addr)[stake_id as int])
        } else {
            None
        }
    }

    /// One-time initialization: fixes the admin, hands it the whole initial
    /// supply, and installs the default staking and governance parameters.
    pub fn init(admin: u64, initial_supply: u64) -> (t: Self)
        ensures
            t.wf(),
            t.admin == admin,
            t.total_supply == initial_supply,
            t.spec_balance(admin) == initial_supply,
            forall|a: u64| a != admin ==> t.spec_balance(a) == 0,
            forall|a: u64| t.spec_stakes(a) == Seq::<StakeInfo>::empty(),
            forall|a: u64| t.spec_staked(a) == 0,
            t.staking_params == (StakingParams {
                min_stake_duration: DEFAULT_MIN_STAKE_DURATION,
                max_stake_duration: DEFAULT_MAX_STAKE_DURATION,
                base_reward_rate: DEFAULT_BASE_REWARD_RATE,
            }),
            t.governance_params == (GovernanceParams {
                proposal_threshold: 1000000000000,
                voting_period: 40320,
                voting_delay: 11520,
            }),
            !t.paused,
    {
        let mut accounts: Vec<Account> = Vec::new();
        accounts.push(Account { addr: admin, balance: initial_supply, staked_total: 0, stakes: Vec::new() });
        let t = REBAZToken {
            admin,
            total_supply: initial_supply,
            accounts,
            staking_params: StakingParams {
                min_stake_duration: DEFAULT_MIN_STAKE_DURATION,
                max_stake_duration: DEFAULT_MAX_STAKE_DURATION,
                base_reward_rate: DEFAULT_BASE_REWARD_RATE,
            },
            governance_params: GovernanceParams {
                proposal_threshold: 1000000000000,
                voting_period: 40320,
                voting_delay: 11520,
            },
            paused: false,
        };
        proof {
            let s = t.accounts@;
            assert(s.len() == 1);
            assert(s.last() == s[0]);
            assert(s.drop_last().len() == 0);
            assert(total_assets(s.drop_last()) == 0);
            assert(sum_active(s[0].stakes@) == 0);
            assert(total_assets(s) == holdings(s[0]));
            assert forall|a: u64| a != admin implies t.spec_balance(a) == 0 by {
                assert(lookup(s.drop_last(), a) == None::<Account>);
            }
            assert forall|a: u64| t.spec_staked(a) == 0 by {
                if a != admin {
                    assert(lookup(s.drop_last(), a) == None::<Account>);
                }
            }
            assert forall|a: u64| t.spec_stakes(a) == Seq::<StakeInfo>::empty() by {
                if a != admin {
                    assert(lookup(s.drop_last(), a) == None::<Account>);
                } else {
                    assert(t.spec_stakes(a) =~= Seq::<StakeInfo>::empty());
                }
            }
        }
        t
    }

    /// Current total supply.
    pub fn total_supply(&self) -> (r: u64)
        ensures
            r == self.total_supply,
    {
        self.total_supply
    }

    /// Whether the contract is paused.
    pub fn is_paused(&self) -> (r: bool)
        ensures
            r == self.paused,
    {
        self.paused
    }

    /// Index of the account registered for `addr`, if any.
    fn find_account(&self, addr: u64) -> (r: Option<usize>)
        ensures
            match r {
                Some(i) => i < self.accounts@.len() && self.accounts@[i as int].addr == addr,
                None => forall|j: int| 0 <= j < self.accounts@.len() ==> (#[trigger] self.accounts@[j]).addr != addr,
            },
    {
        let n = self.accounts.len();
        let mut i: usize = 0;
        while i < n
            invariant
                n == self.accounts@.len(),
                i <= n,
                forall|j: int| 0 <= j < i ==> (#[trigger] self.accounts@[j]).addr != addr,
            decreases n - i,
        {
            if self.accounts[i].addr == addr {
                return Some(i);
            }
            i = i + 1;
        }
        None
    }

    /// Liquid balance of `owner`.
    pub fn balance(&self, owner: u64) -> (r: u64)
        requires
            self.wf(),
        ensures
            r == self.spec_balance(owner),
    {
        match self.find_account(owner) {
            Some(i) => {
                proof {
                    lemma_lookup_at(self.accounts@, i as int);
                }
                self.accounts[i].balance
            },
            None => {
                proof {
                    lemma_lookup_none(self.accounts@, owner);
                }
                0
            },
        }
    }

    /// Escrows `amount` of `staker`'s liquid balance into a new stake record
    /// locked for `duration` seconds starting at `now`. The record gets the
    /// next sequence id for this staker; ids are never reused.
    pub fn stake(&mut self, staker: u64, amount: u64, duration: u64, now: u64) -> (r: Result<
        bool,
        Error,
    >)
        requires
            old(self).wf(),
            (!old(self).paused && amount > 0 && old(self).staking_params.min_stake_duration
                <= duration <= old(self).staking_params.max_stake_duration && old(
                self,
            ).spec_balance(staker) >= amount) ==> (now + duration <= u64::MAX && old(
                self,
            ).spec_stakes(staker).len() < u32::MAX),
        ensures
            final(self).wf(),
            final(self).admin == old(self).admin,
            final(self).total_supply == old(self).total_supply,
            final(self).staking_params == old(self).staking_params,
            final(self).governance_params == old(self).governance_params,
            final(self).paused == old(self).paused,
            r == (if old(self).paused {
                Err::<bool, Error>(Error::ContractPaused)
            } else if amount == 0 {
                Err::<bool, Error>(Error::CannotStakeZero)
            } else if duration < old(self).staking_params.min_stake_duration {
                Err::<bool, Error>(Error::StakingDurationTooShort)
            } else if duration > old(self).staking_params.max_stake_duration {
                Err::<bool, Error>(Error::StakingDurationTooLong)
            } else if old(self).spec_balance(staker) < amount {
                Err::<bool, Error>(Error::InsufficientBalance)
            } else {
                Ok::<bool, Error>(true)
            }),
            r is Err ==> *final(self) == *old(self),
            r is Ok ==> {
                &&& final(self).spec_balance(staker) == old(self).spec_balance(staker) - amount
                &&& final(self).spec_staked(staker) == old(self).spec_staked(staker) + amount
                &&& final(self).spec_stakes(staker) == old(self).spec_stakes(staker).push(
                    StakeInfo {
                        amount,
                        start_time: now,
                        end_time: (now + duration) as u64,
                        withdrawn: false,
                    },
                )
                &&& forall|a: u64|
                    a != staker ==> final(self).spec_balance(a) == old(self).spec_balance(a)
                &&& forall|a: u64|
                    a != staker ==> final(self).spec_staked(a) == old(self).spec_staked(a)
                &&& forall|a: u64|
                    a != staker ==> final(self).spec_stakes(a) == old(self).spec_stakes(a)
            },
    {
        if self.paused {
            return Err(Error::ContractPaused);
        }
        if amount == 0 {
            return Err(Error::CannotStakeZero);
        }
        if duration < self.staking_params.min_stake_duration {
            return Err(Error::StakingDurationTooShort);
        }
        if duration > self.staking_params.max_stake_duration {
            return Err(Error::StakingDurationTooLong);
        }
        let idx = match self.find_account(staker) {
            Some(i) => i,
            None => {
                proof {
                    lemma_lookup_none(self.accounts@, staker);
                }
                return Err(Error::InsufficientBalance);
            },
        };
        proof {
            lemma_lookup_at(self.accounts@, idx as int);
            lemma_holdings_le_total(self.accounts@, idx as int);
        }
        let bal = self.accounts[idx].balance;
        if bal < amount {
            return Err(Error::InsufficientBalance);
        }
        let ghost s0 = self.accounts@;
        let new_stake = StakeInfo {
            amount,
            start_time: now,
            end_time: now + duration,
            withdrawn: false,
        };
        let mut acct = blank_account();
        self.accounts.set_and_swap(idx, &mut acct);
        proof {
            lemma_sum_active_push(acct.stakes@, new_stake);
        }
        acct.balance = bal - amount;
        acct.stakes.push(new_stake);
        let staked = acct.staked_total;
        acct.staked_total = staked + amount;
        let ghost acct_new = acct;
        self.accounts.set(idx, acct);
        proof {
            assert(self.accounts@ =~= s0.update(idx as int, acct_new));
            lemma_lookup_update(s0, idx as int, acct_new);
            lemma_total_assets_update(s0, idx as int, acct_new);
            assert(account_wf(s0[idx as int]));
            assert(acct_new.stakes@ == s0[idx as int].stakes@.push(new_stake));
            assert forall|j: int| 0 <= j < acct_new.stakes@.len() implies (
            #[trigger] acct_new.stakes@[j]).start_time <= acct_new.stakes@[j].end_time && (!(
            acct_new.stakes@[j]).withdrawn ==> acct_new.stakes@[j].amount > 0) by {
                if j < s0[idx as int].stakes@.len() {
                    assert(acct_new.stakes@[j] == s0[idx as int].stakes@[j]);
                } else {
                    assert(acct_new.stakes@[j] == new_stake);
                }
            }
            assert(account_wf(acct_new));
        }
        Ok(true)
    }

    /// Closes stake `stake_id` of `staker`: marks it withdrawn, returns the
    /// principal to the liquid balance, and mints the reward owed at `now`
    /// (zero before maturity) on top of it. Deliberately not subject to pause:
    /// a staker can always exit a position.
    ///
    /// A record with a zero amount is reported as nonexistent, checked before
    /// the withdrawn mark. An active stake always holds a positive amount
    /// (part of [`account_wf`]), so the only zero-amount records are stakes
    /// emptied by slashing, and those are the ones this answers
    /// [`Error::StakeDoesNotExist`] for rather than
    /// [`Error::StakeAlreadyWithdrawn`].
    pub fn withdraw(&mut self, staker: u64, stake_id: u32, now: u64) -> (r: Result<
        (u64, u64),
        Error,
    >)
        requires
            old(self).wf(),
            match old(self).spec_stake(staker, stake_id) {
                Some(st) => (st.amount > 0 && !st.withdrawn && now >= st.end_time) ==> (reward_fits(
                    st,
                    old(self).staking_params,
                ) && old(self).total_supply + spec_reward(st, now, old(self).staking_params)
                    <= u64::MAX),
                None => true,
            },
        ensures
            final(self).wf(),
            final(self).admin == old(self).admin,
            final(self).staking_params == old(self).staking_params,
            final(self).governance_params == old(self).governance_params,
            final(self).paused == old(self).paused,
            forall|a: u64| a != staker ==> final(self).spec_balance(a) == old(self).spec_balance(a),
            forall|a: u64| a != staker ==> final(self).spec_staked(a) == old(self).spec_staked(a),
            forall|a: u64| a != staker ==> final(self).spec_stakes(a) == old(self).spec_stakes(a),
            forall|a: u64, j: int|
                0 <= j < old(self).spec_stakes(a).len() && (#[trigger] old(self).spec_stakes(
                    a,
                )[j]).withdrawn ==> final(self).spec_stakes(a)[j].withdrawn,
            match old(self).spec_stake(staker, stake_id) {
                None => r == Err::<(u64, u64), Error>(Error::StakeDoesNotExist) && *final(self)
                    == *old(self),
                Some(st) => {
                    if st.amount == 0 {
                        r == Err::<(u64, u64), Error>(Error::StakeDoesNotExist) && *final(self)
                            == *old(self)
                    } else if st.withdrawn {
                        r == Err::<(u64, u64), Error>(Error::StakeAlreadyWithdrawn) && *final(self)
                            == *old(self)
                    } else {
                        let reward = spec_reward(st, now, old(self).staking_params);
                        &&& r == Ok::<(u64, u64), Error>((st.amount, reward as u64))
                        &&& final(self).spec_balance(staker) == old(self).spec_balance(staker)
                            + st.amount + reward
                        &&& final(self).spec_staked(staker) == old(self).spec_staked(staker)
                            - st.amount
                        &&& final(self).total_supply == old(self).total_supply + reward
                        &&& final(self).spec_stakes(staker) == old(self).spec_stakes(
                            staker,
                        ).update(stake_id as int, (StakeInfo { withdrawn: true, ..st }))
                    }
                },
            },
    {
        let idx = match self.find_account(staker) {
            Some(i) => i,
            None => {
                proof {
                    lemma_lookup_none(self.accounts@, staker);
                }
                return Err(Error::StakeDoesNotExist);
            },
        };
        proof {
            lemma_lookup_at(self.accounts@, idx as int);
            lemma_holdings_le_total(self.accounts@, idx as int);
        }
        if stake_id as usize >= self.accounts[idx].stakes.len() {
            return Err(Error::StakeDoesNotExist);
        }
        let st = self.accounts[idx].stakes[stake_id as usize];
        if st.amount == 0 {
            return Err(Error::StakeDoesNotExist);
        }
        if st.withdrawn {
            return Err(Error::StakeAlreadyWithdrawn);
        }
        let reward = reward_for_stake(&st, now, &self.staking_params);
        proof {
            lemma_sum_active_at(self.accounts@[idx as int].stakes@, stake_id as int);
        }
        let ghost s0 = self.accounts@;
        let bal = self.accounts[idx].balance;
        let staked = self.accounts[idx].staked_total;
        let mut acct = blank_account();
        self.accounts.set_and_swap(idx, &mut acct);
        proof {
            lemma_sum_active_update(
                acct.stakes@,
                stake_id as int,
                (StakeInfo { withdrawn: true, ..st }),
            );
        }
        acct.stakes.set(stake_id as usize, StakeInfo { withdrawn: true, ..st });
        acct.balance = bal + st.amount + reward;
        acct.staked_total = staked - st.amount;
        let ghost acct_new = acct;
        self.accounts.set(idx, acct);
        self.total_supply = self.total_supply + reward;
        proof {
            assert(self.accounts@ =~= s0.update(idx as int, acct_new));
            lemma_lookup_update(s0, idx as int, acct_new);
            lemma_total_assets_update(s0, idx as int, acct_new);
            assert(account_wf(acct_new));
        }
        Ok((st.amount, reward))
    }

    /// Read-only projection of the reward engine for an existing stake at
    /// time `now`.
    pub fn calculate_reward(&self, staker: u64, stake_id: u32, now: u64) -> (r: Result<u64, Error>)
        requires
            self.wf(),
            match self.spec_stake(staker, stake_id) {
                Some(st) => (st.amount > 0 && !st.withdrawn && now >= st.end_time) ==> reward_fits(
                    st,
                    self.staking_params,
                ),
                None => true,
            },
        ensures
            r == match self.spec_stake(staker, stake_id) {
                None => Err::<u64, Error>(Error::StakeDoesNotExist),
                Some(st) => Ok::<u64, Error>(spec_reward(st, now, self.staking_params) as u64),
            },
    {
        let idx = match self.find_account(staker) {
            Some(i) => i,
            None => {
                proof {
                    lemma_lookup_none(self.accounts@, staker);
                }
                return Err(Error::StakeDoesNotExist);
            },
        };
        proof {
            lemma_lookup_at(self.accounts@, idx as int);
        }
        if stake_id as usize >= self.accounts[idx].stakes.len() {
            return Err(Error::StakeDoesNotExist);
        }
        let st = self.accounts[idx].stakes[stake_id as usize];
        Ok(reward_for_stake(&st, now, &self.staking_params))
    }

    /// Amount, lock window and currently pending reward of one stake record.
    pub fn get_stake_info(&self, user: u64, stake_id: u32, now: u64) -> (r: Result<
        (u64, u64, u64, u64),
        Error,
    >)
        requires
            self.wf(),
            match self.spec_stake(user, stake_id) {
                Some(st) => (st.amount > 0 && !st.withdrawn && now >= st.end_time) ==> reward_fits(
                    st,
                    self.staking_params,
                ),
                None => true,
            },
        ensures
            r == match self.spec_stake(user, stake_id) {
                None => Err::<(u64, u64, u64, u64), Error>(Error::StakeDoesNotExist),
                Some(st) => Ok::<(u64, u64, u64, u64), Error>(
                    (
                        st.amount,
                        st.start_time,
                        st.end_time,
                        spec_reward(st, now, self.staking_params) as u64,
                    ),
                ),
            },
    {
        let idx = match self.find_account(user) {
            Some(i) => i,
            None => {
                proof {
                    lemma_lookup_none(self.accounts@, user);
                }
                return Err(Error::StakeDoesNotExist);
            },
        };
        proof {
            lemma_lookup_at(self.accounts@, idx as int);
        }
        if stake_id as usize >= self.accounts[idx].stakes.len() {
            return Err(Error::StakeDoesNotExist);
        }
        let st = self.accounts[idx].stakes[stake_id as usize];
        let pending = if st.withdrawn {
            0
        } else {
            reward_for_stake(&st, now, &self.staking_params)
        };
        Ok((st.amount, st.start_time, st.end_time, pending))
    }

    /// Sum of `user`'s active stake amounts.
    pub fn get_total_staked(&self, user: u64) -> (r: u64)
        requires
            self.wf(),
        ensures
            r == self.spec_staked(user),
    {
        match self.find_account(user) {
            Some(i) => {
                proof {
                    lemma_lookup_at(self.accounts@, i as int);
                }
                self.accounts[i].staked_total
            },
            None => {
                proof {
                    lemma_lookup_none(self.accounts@, user);
                }
                0
            },
        }
    }

    /// Voting power: liquid balance plus staked amounts.
    pub fn get_voting_power(&self, user: u64) -> (r: u64)
        requires
            self.wf(),
        ensures
            r == self.spec_balance(user) + self.spec_staked(user),
    {
        match self.find_account(user) {
            Some(i) => {
                proof {
                    lemma_lookup_at(self.accounts@, i as int);
                    lemma_holdings_le_total(self.accounts@, i as int);
                }
                self.accounts[i].balance + self.accounts[i].staked_total
            },
            None => {
                proof {
                    lemma_lookup_none(self.accounts@, user);
                }
                0
            },
        }
    }

    /// How many stake records `user` has ever created.
    pub fn get_stake_count(&self, user: u64) -> (r: u32)
        requires
            self.wf(),
        ensures
            r == self.spec_stakes(user).len(),
    {
        match self.find_account(user) {
            Some(i) => {
                proof {
                    lemma_lookup_at(self.accounts@, i as int);
                }
                self.accounts[i].stakes.len() as u32
            },
            None => {
                proof {
                    lemma_lookup_none(self.accounts@, user);
                }
                0
            },
        }
    }

    /// Current staking parameters.
    pub fn get_staking_params(&self) -> (r: StakingParams)
        ensures
            r == self.staking_params,
    {
        self.staking_params
    }

    /// Current governance parameters.
    pub fn get_governance_params(&self) -> (r: GovernanceParams)
        ensures
            r == self.governance_params,
    {
        self.governance_params
    }

    /// Replaces the staking parameters. Admin-only; the bounds must be
    /// ordered and the base rate is capped at 5000 bps (50%).
    pub fn update_staking_params(
        &mut self,
        caller: u64,
        min_duration: u64,
        max_duration: u64,
        base_rate: u64,
    ) -> (r: Result<bool, Error>)
        requires
            old(self).wf(),
        ensures
            final(self).wf(),
            r == (if caller != old(self).admin {
                Err::<bool, Error>(Error::OnlyAdminCanUpdateStakingParams)
            } else if min_duration > max_duration {
                Err::<bool, Error>(Error::MinDurationGtMaxDuration)
            } else if base_rate > 5000 {
                Err::<bool, Error>(Error::BaseRewardRateTooHigh)
            } else {
                Ok::<bool, Error>(true)
            }),
            r is Err ==> *final(self) == *old(self),
            r is Ok ==> *final(self) == (REBAZToken {
                staking_params: StakingParams {
                    min_stake_duration: min_duration,
                    max_stake_duration: max_duration,
                    base_reward_rate: base_rate,
                },
                ..*old(self)
            }),
    {
        if caller != self.admin {
            return Err(Error::OnlyAdminCanUpdateStakingParams);
        }
        if min_duration > max_duration {
            return Err(Error::MinDurationGtMaxDuration);
        }
        if base_rate > 5000 {
            return Err(Error::BaseRewardRateTooHigh);
        }
        self.staking_params = StakingParams {
            min_stake_duration: min_duration,
            max_stake_duration: max_duration,
            base_reward_rate: base_rate,
        };
        Ok(true)
    }

    /// Replaces the governance parameters. Admin-only; no further validation.
    pub fn update_governance_params(
        &mut self,
        caller: u64,
        proposal_threshold: u64,
        voting_period: u64,
        voting_delay: u64,
    ) -> (r: Result<bool, Error>)
        requires
            old(self).wf(),
        ensures
            final(self).wf(),
            r == (if caller != old(self).admin {
                Err::<bool, Error>(Error::OnlyAdminCanUpdateGovernanceParams)
            } else {
                Ok::<bool, Error>(true)
            }),
            r is Err ==> *final(self) == *old(self),
            r is Ok ==> *final(self) == (REBAZToken {
                governance_params: GovernanceParams {
                    proposal_threshold,
                    voting_period,
                    voting_delay,
                },
                ..*old(self)
            }),
    {
        if caller != self.admin {
            return Err(Error::OnlyAdminCanUpdateGovernanceParams);
        }
        self.governance_params = GovernanceParams {
            proposal_threshold,
            voting_period,
            voting_delay,
        };
        Ok(true)
    }

    /// Pauses the contract. Admin-only.
    pub fn pause(&mut self, caller: u64) -> (r: Result<bool, Error>)
        requires
            old(self).wf(),
        ensures
            final(self).wf(),
            r == (if caller != old(self).admin {
                Err::<bool, Error>(Error::OnlyAdminCanPause)
            } else {
                Ok::<bool, Error>(true)
            }),
            r is Err ==> *final(self) == *old(self),
            r is Ok ==> *final(self) == (REBAZToken { paused: true, ..*old(self) }),
    {
        if caller != self.admin {
            return Err(Error::OnlyAdminCanPause);
        }
        self.paused = true;
        Ok(true)
    }

    /// Unpauses the contract. Admin-only.
    pub fn unpause(&mut self, caller: u64) -> (r: Result<bool, Error>)
        requires
            old(self).wf(),
        ensures
            final(self).wf(),
            r == (if caller != old(self).admin {
                Err::<bool, Error>(Error::OnlyAdminCanPause)
            } else {
                Ok::<bool, Error>(true)
            }),
            r is Err ==> *final(self) == *old(self),
            r is Ok ==> *final(self) == (REBAZToken { paused: false, ..*old(self) }),
    {
        if caller != self.admin {
            return Err(Error::OnlyAdminCanPause);
        }
        self.paused = false;
        Ok(true)
    }

    /// Destroys `amount` of `validator`'s funds: first from the liquid
    /// balance, then — most recently created stake first — from the active
    /// stakes, marking any stake emptied this way as withdrawn. The total
    /// supply shrinks by exactly `amount`, once: the balance draw and the
    /// stake draws are the two parts of that single reduction, never counted
    /// twice. Admin-only; deliberately possible while paused. Fails if the
    /// validator's balance plus staked total cannot cover the amount, leaving
    /// the state untouched.
    pub fn slash_validator(&mut self, caller: u64, validator: u64, amount: u64) -> (r: Result<
        bool,
        Error,
    >)
        requires
            old(self).wf(),
        ensures
            final(self).wf(),
            final(self).admin == old(self).admin,
            final(self).staking_params == old(self).staking_params,
            final(self).governance_params == old(self).governance_params,
            final(self).paused == old(self).paused,
            r == (if caller != old(self).admin {
                Err::<bool, Error>(Error::OnlyAdminCanSlash)
            } else if amount == 0 {
                Err::<bool, Error>(Error::CannotSlashZero)
            } else if old(self).spec_balance(validator) + old(self).spec_staked(validator)
                < amount {
                Err::<bool, Error>(Error::SlashAmountTooHigh)
            } else {
                Ok::<bool, Error>(true)
            }),
            r is Err ==> *final(self) == *old(self),
            forall|a: u64, j: int|
                0 <= j < old(self).spec_stakes(a).len() && (#[trigger] old(self).spec_stakes(
                    a,
                )[j]).withdrawn ==> final(self).spec_stakes(a)[j].withdrawn,
            r is Ok ==> {
                let from_balance = if amount <= old(self).spec_balance(validator) {
                    amount as int
                } else {
                    old(self).spec_balance(validator) as int
                };
                &&& final(self).total_supply == old(self).total_supply - amount
                &&& final(self).spec_balance(validator) == old(self).spec_balance(validator)
                    - from_balance
                &&& final(self).spec_staked(validator) == old(self).spec_staked(validator) - (
                amount - from_balance)
                &&& final(self).spec_balance(validator) + final(self).spec_staked(validator)
                    == old(self).spec_balance(validator) + old(self).spec_staked(validator)
                    - amount
                &&& final(self).spec_stakes(validator) == slash_cascade(
                    old(self).spec_stakes(validator),
                    amount - from_balance,
                ).0
                &&& forall|a: u64|
                    a != validator ==> final(self).spec_balance(a) == old(self).spec_balance(a)
                &&& forall|a: u64|
                    a != validator ==> final(self).spec_staked(a) == old(self).spec_staked(a)
                &&& forall|a: u64|
                    a != validator ==> final(self).spec_stakes(a) == old(self).spec_stakes(a)
            },
    {
        if caller != self.admin {
            return Err(Error::OnlyAdminCanSlash);
        }
        if amount == 0 {
            return Err(Error::CannotSlashZero);
        }
        let idx = match self.find_account(validator) {
            Some(i) => i,
            None => {
                proof {
                    lemma_lookup_none(self.accounts@, validator);
                }
                return Err(Error::SlashAmountTooHigh);
            },
        };
        proof {
            lemma_lookup_at(self.accounts@, idx as int);
            lemma_holdings_le_total(self.accounts@, idx as int);
        }
        let bal = self.accounts[idx].balance;
        let staked = self.accounts[idx].staked_total;
        if bal + staked < amount {
            return Err(Error::SlashAmountTooHigh);
        }
        let from_balance = if amount <= bal {
            amount
        } else {
            bal
        };
        let to_recover = amount - from_balance;
        let ghost s0 = self.accounts@;
        let mut acct = blank_account();
        self.accounts.set_and_swap(idx, &mut acct);
        acct.balance = bal - from_balance;
        let ghost orig_stakes = acct.stakes@;
        let mut remaining = to_recover;
        let n = acct.stakes.len();
        let mut i: usize = n;
        proof {
            assert(orig_stakes.subrange(0, n as int) =~= orig_stakes);
            assert(acct.stakes@.subrange(n as int, n as int) =~= Seq::<StakeInfo>::empty());
            assert(slash_cascade(orig_stakes, to_recover as int).0 =~= slash_cascade(
                orig_stakes.subrange(0, n as int),
                to_recover as int,
            ).0 + acct.stakes@.subrange(n as int, n as int));
        }
        while i > 0 && remaining > 0
            invariant
                i <= n,
                n == acct.stakes@.len(),
                n == orig_stakes.len(),
                idx < s0.len(),
                account_wf(s0[idx as int]),
                orig_stakes == s0[idx as int].stakes@,
                acct.addr == s0[idx as int].addr,
                acct.balance == bal - from_balance,
                acct.staked_total == s0[idx as int].staked_total,
                remaining <= sum_active(orig_stakes.subrange(0, i as int)),
                acct.stakes@.subrange(0, i as int) == orig_stakes.subrange(0, i as int),
                slash_cascade(orig_stakes, to_recover as int).0 == slash_cascade(
                    orig_stakes.subrange(0, i as int),
                    remaining as int,
                ).0 + acct.stakes@.subrange(i as int, n as int),
                slash_cascade(orig_stakes, to_recover as int).1 == slash_cascade(
                    orig_stakes.subrange(0, i as int),
                    remaining as int,
                ).1,
            decreases i,
        {
            let ghost pre = orig_stakes.subrange(0, i as int);
            let ghost stakes_before = acct.stakes@;
            let ghost rem_before = remaining;
            i = i - 1;
            proof {
                assert(acct.stakes@[i as int] == orig_stakes[i as int]);
                assert(pre.last() == orig_stakes[i as int]);
                assert(pre.drop_last() =~= orig_stakes.subrange(0, i as int));
            }
            let st = acct.stakes[i];
            if !st.withdrawn {
                let take = if remaining <= st.amount {
                    remaining
                } else {
                    st.amount
                };
                let new_st = StakeInfo {
                    amount: st.amount - take,
                    withdrawn: st.amount - take == 0,
                    start_time: st.start_time,
                    end_time: st.end_time,
                };
                acct.stakes.set(i, new_st);
                remaining = remaining - take;
                proof {
                    let reci = slash_cascade(orig_stakes.subrange(0, i as int), remaining as int);
                    assert(slash_cascade(pre, rem_before as int).0 == reci.0.push(new_st));
                    assert(slash_cascade(pre, rem_before as int).1 == reci.1);
                    assert(acct.stakes@.subrange(0, i as int) =~= orig_stakes.subrange(
                        0,
                        i as int,
                    ));
                    assert(acct.stakes@.subrange(i as int, n as int) =~= seq![new_st]
                        + stakes_before.subrange(i as int + 1, n as int));
                    assert(reci.0.push(new_st) + stakes_before.subrange(i as int + 1, n as int)
                        =~= reci.0 + acct.stakes@.subrange(i as int, n as int));
                    if take == st.amount {
                        assert(sum_active(pre) == sum_active(pre.drop_last()) + stake_weight(
                            pre.last(),
                        ));
                    } else {
                        lemma_sum_active_nonneg(orig_stakes.subrange(0, i as int));
                    }
                }
            } else {
                proof {
                    let reci = slash_cascade(orig_stakes.subrange(0, i as int), remaining as int);
                    assert(slash_cascade(pre, rem_before as int).0 == reci.0.push(st));
                    assert(slash_cascade(pre, rem_before as int).1 == reci.1);
                    assert(acct.stakes@.subrange(i as int, n as int) =~= seq![st]
                        + stakes_before.subrange(i as int + 1, n as int));
                    assert(reci.0.push(st) + stakes_before.subrange(i as int + 1, n as int)
                        =~= reci.0 + acct.stakes@.subrange(i as int, n as int));
                    assert(sum_active(pre) == sum_active(pre.drop_last()) + stake_weight(
                        pre.last(),
                    ));
                }
            }
        }
        proof {
            if i > 0 {
                assert(remaining == 0);
            } else {
                assert(orig_stakes.subrange(0, 0) =~= Seq::<StakeInfo>::empty());
                assert(sum_active(orig_stakes.subrange(0, 0)) == 0);
                assert(remaining == 0);
            }
            let pre = orig_stakes.subrange(0, i as int);
            assert(slash_cascade(pre, 0int).0 == pre);
            assert(acct.stakes@ =~= acct.stakes@.subrange(0, i as int) + acct.stakes@.subrange(
                i as int,
                n as int,
            ));
            assert(acct.stakes@ == slash_cascade(orig_stakes, to_recover as int).0);
            lemma_slash_cascade(orig_stakes, to_recover as int);
            assert(slash_cascade(orig_stakes, to_recover as int).1 == 0);
            assert(sum_active(acct.stakes@) == sum_active(orig_stakes) - to_recover);
        }
        acct.staked_total = staked - to_recover;
        let ghost acct_new = acct;
        self.accounts.set(idx, acct);
        self.total_supply = self.total_supply - amount;
        proof {
            assert(self.accounts@ =~= s0.update(idx as int, acct_new));
            lemma_lookup_update(s0, idx as int, acct_new);
            lemma_total_assets_update(s0, idx as int, acct_new);
            assert(account_wf(acct_new));
        }
        Ok(true)
    }

    /// Moves `amount` from `from` to `to`. A zero amount is a successful
    /// no-op; the contract must not be paused; the sender must hold the amount.
    /// A transfer to oneself leaves the state unchanged.
    pub fn transfer(&mut self, from: u64, to: u64, amount: u64) -> (r: Result<bool, Error>)
        requires
            old(self).wf(),
        ensures
            final(self).wf(),
            final(self).admin == old(self).admin,
            final(self).total_supply == old(self).total_supply,
            final(self).staking_params == old(self).staking_params,
            final(self).governance_params == old(self).governance_params,
            final(self).paused == old(self).paused,
            forall|a: u64| final(self).spec_stakes(a) == old(self).spec_stakes(a),
            forall|a: u64| final(self).spec_staked(a) == old(self).spec_staked(a),
            r == (if old(self).paused {
                Err::<bool, Error>(Error::ContractPaused)
            } else if amount == 0 {
                Ok::<bool, Error>(true)
            } else if old(self).spec_balance(from) < amount {
                Err::<bool, Error>(Error::InsufficientBalance)
            } else {
                Ok::<bool, Error>(true)
            }),
            (old(self).paused || amount == 0 || old(self).spec_balance(from) < amount || from == to)
                ==> *final(self) == *old(self),
            (!old(self).paused && amount > 0 && old(self).spec_balance(from) >= amount && from != to)
                ==> {
                &&& final(self).spec_balance(from) == old(self).spec_balance(from) - amount
                &&& final(self).spec_balance(to) == old(self).spec_balance(to) + amount
                &&& forall|a: u64|
                    a != from && a != to ==> final(self).spec_balance(a) == old(self).spec_balance(a)
            },
    {
        if self.paused {
            return Err(Error::ContractPaused);
        }
        if amount == 0 {
            return Ok(true);
        }
        let from_idx = match self.find_account(from) {
            Some(i) => i,
            None => {
                proof {
                    lemma_lookup_none(self.accounts@, from);
                }
                return Err(Error::InsufficientBalance);
            },
        };
        proof {
            lemma_lookup_at(self.accounts@, from_idx as int);
        }
        let from_bal = self.accounts[from_idx].balance;
        if from_bal < amount {
            return Err(Error::InsufficientBalance);
        }
        if from == to {
            return Ok(true);
        }
        let ghost s0 = self.accounts@;
        // Debit the sender.
        let mut from_acct = blank_account();
        self.accounts.set_and_swap(from_idx, &mut from_acct);
        from_acct.balance = from_bal - amount;
        let ghost from_new = from_acct;
        self.accounts.set(from_idx, from_acct);
        proof {
            assert(self.accounts@ =~= s0.update(from_idx as int, from_new));
            lemma_lookup_update(s0, from_idx as int, from_new);
            lemma_total_assets_update(s0, from_idx as int, from_new);
        }
        let ghost s1 = self.accounts@;
        // Credit the receiver.
        match self.find_account(to) {
            Some(to_idx) => {
                proof {
                    lemma_lookup_at(s1, to_idx as int);
                    lemma_holdings_le_total(s1, to_idx as int);
                }
                let to_bal = self.accounts[to_idx].balance;
                let mut to_acct = blank_account();
                self.accounts.set_and_swap(to_idx, &mut to_acct);
                to_acct.balance = to_bal + amount;
                let ghost to_new = to_acct;
                self.accounts.set(to_idx, to_acct);
                proof {
                    assert(self.accounts@ =~= s1.update(to_idx as int, to_new));
                    lemma_lookup_update(s1, to_idx as int, to_new);
                    lemma_total_assets_update(s1, to_idx as int, to_new);
                }
            },
            None => {
                proof {
                    lemma_lookup_none(s1, to);
                }
                let mut to_acct = blank_account();
                to_acct.addr = to;
                to_acct.balance = amount;
                let ghost to_new = to_acct;
                self.accounts.push(to_acct);
                proof {
                    assert(self.accounts@ =~= s1.push(to_new));
                    lemma_accounts_push(s1, to_new);
                    assert(sum_active(to_new.stakes@) == 0);
                    assert(self.spec_stakes(to) =~= Seq::<StakeInfo>::empty());
                }
            },
        }
        Ok(true)
    }

    /// Mints `amount` new tokens to `to`, growing the total supply. Only the
    /// admin may mint, and only while the contract is not paused.
    pub fn mint(&mut self, caller: u64, to: u64, amount: u64) -> (r: Result<bool, Error>)
        requires
            old(self).wf(),
            old(self).total_supply + amount <= u64::MAX,
        ensures
            final(self).wf(),
            final(self).admin == old(self).admin,
            final(self).staking_params == old(self).staking_params,
            final(self).governance_params == old(self).governance_params,
            final(self).paused == old(self).paused,
            forall|a: u64| final(self).spec_stakes(a) == old(self).spec_stakes(a),
            forall|a: u64| final(self).spec_staked(a) == old(self).spec_staked(a),
            r == (if old(self).paused {
                Err::<bool, Error>(Error::ContractPaused)
            } else if caller != old(self).admin {
                Err::<bool, Error>(Error::OnlyAdminCanMint)
            } else {
                Ok::<bool, Error>(true)
            }),
            r is Err ==> *final(self) == *old(self),
            r is Ok ==> {
                &&& final(self).total_supply == old(self).total_supply + amount
                &&& final(self).spec_balance(to) == old(self).spec_balance(to) + amount
                &&& forall|a: u64| a != to ==> final(self).spec_balance(a) == old(self).spec_balance(a)
            },
    {
        if self.paused {
            return Err(Error::ContractPaused);
        }
        if caller != self.admin {
            return Err(Error::OnlyAdminCanMint);
        }
        let ghost s0 = self.accounts@;
        match self.find_account(to) {
            Some(i) => {
                proof {
                    lemma_lookup_at(s0, i as int);
                    lemma_holdings_le_total(s0, i as int);
                }
                let to_bal = self.accounts[i].balance;
                let mut acct = blank_account();
                self.accounts.set_and_swap(i, &mut acct);
                acct.balance = to_bal + amount;
                let ghost acct_new = acct;
                self.accounts.set(i, acct);
                proof {
                    assert(self.accounts@ =~= s0.update(i as int, acct_new));
                    lemma_lookup_update(s0, i as int, acct_new);
                    lemma_total_assets_update(s0, i as int, acct_new);
                }
            },
            None => {
                proof {
                    lemma_lookup_none(s0, to);
                }
                let mut acct = blank_account();
                acct.addr = to;
                acct.balance = amount;
                let ghost acct_new = acct;
                self.accounts.push(acct);
                proof {
                    assert(self.accounts@ =~= s0.push(acct_new));
                    lemma_accounts_push(s0, acct_new);
                    assert(sum_active(acct_new.stakes@) == 0);
                    assert(self.spec_stakes(to) =~= Seq::<StakeInfo>::empty());
                }
            },
        }
        self.total_supply = self.total_supply + amount;
        Ok(true)
    }

    /// Burns `amount` of `from`'s liquid balance, shrinking the total supply.
    /// Requires the contract not paused and a sufficient balance.
    pub fn burn(&mut self, from: u64, amount: u64) -> (r: Result<bool, Error>)
        requires
            old(self).wf(),
        ensures
            final(self).wf(),
            final(self).admin == old(self).admin,
            final(self).staking_params == old(self).staking_params,
            final(self).governance_params == old(self).governance_params,
            final(self).paused == old(self).paused,
            forall|a: u64| final(self).spec_stakes(a) == old(self).spec_stakes(a),
            forall|a: u64| final(self).spec_staked(a) == old(self).spec_staked(a),
            r == (if old(self).paused {
                Err::<bool, Error>(Error::ContractPaused)
            } else if old(self).spec_balance(from) < amount {
                Err::<bool, Error>(Error::InsufficientBalanceToBurn)
            } else {
                Ok::<bool, Error>(true)
            }),
            r is Err ==> *final(self) == *old(self),
            r is Ok ==> {
                &&& final(self).total_supply == old(self).total_supply - amount
                &&& final(self).spec_balance(from) == old(self).spec_balance(from) - amount
                &&& forall|a: u64| a != from ==> final(self).spec_balance(a) == old(self).spec_balance(a)
            },
    {
        if self.paused {
            return Err(Error::ContractPaused);
        }
        let ghost s0 = self.accounts@;
        match self.find_account(from) {
            Some(i) => {
                proof {
                    lemma_lookup_at(s0, i as int);
                    lemma_holdings_le_total(s0, i as int);
                }
                let from_bal = self.accounts[i].balance;
                if from_bal < amount {
                    return Err(Error::InsufficientBalanceToBurn);
                }
                let mut acct = blank_account();
                self.accounts.set_and_swap(i, &mut acct);
                acct.balance = from_bal - amount;
                let ghost acct_new = acct;
                self.accounts.set(i, acct);
                proof {
                    assert(self.accounts@ =~= s0.update(i as int, acct_new));
                    lemma_lookup_update(s0, i as int, acct_new);
                    lemma_total_assets_update(s0, i as int, acct_new);
                    lemma_total_assets_nonneg(self.accounts@);
                }
                self.total_supply = self.total_supply - amount;
                Ok(true)
            },
            None => {
                proof {
                    lemma_lookup_none(s0, from);
                }
                if amount > 0 {
                    return Err(Error::InsufficientBalanceToBurn);
                }
                Ok(true)
            },
        }
    }
}

/// A placeholder account used while an entry is temporarily taken out of the
/// account table for in-place mutation.
fn blank_account() -> (a: Account)
    ensures
        a.addr == 0,
        a.balance == 0,
        a.staked_total == 0,
        a.stakes@ == Seq::<StakeInfo>::empty(),
{
    Account { addr: 0, balance: 0, staked_total: 0, stakes: Vec::new() }
}

/// The sum of active stake amounts is never negative.
proof fn lemma_sum_active_nonneg(s: Seq<StakeInfo>)
    ensures
        sum_active(s) >= 0,
    decreases s.len(),
{
    if s.len() > 0 {
        lemma_sum_active_nonneg(s.drop_last());
    }
}

/// Replacing one stake record moves the active sum by the difference of the
/// two records' weights.
proof fn lemma_sum_active_update(s: Seq<StakeInfo>, i: int, x: StakeInfo)
    requires
        0 <= i < s.len(),
    ensures
        sum_active(s.update(i, x)) == sum_active(s) - stake_weight(s[i]) + stake_weight(x),
    decreases s.len(),
{
    let u = s.update(i, x);
    if i == s.len() - 1 {
        assert(u.drop_last() =~= s.drop_last());
        assert(u.last() == x);
    } else {
        assert(u.drop_last() =~= s.drop_last().update(i, x));
        lemma_sum_active_update(s.drop_last(), i, x);
        assert(u.last() == s.last());
    }
}

/// Appending a stake record adds its weight to the active sum.
proof fn lemma_sum_active_push(s: Seq<StakeInfo>, x: StakeInfo)
    ensures
        sum_active(s.push(x)) == sum_active(s) + stake_weight(x),
{
    assert(s.push(x).drop_last() =~= s);
    assert(s.push(x).last() == x);
}

/// Each stake's weight is bounded by the active sum.
proof fn lemma_sum_active_at(s: Seq<StakeInfo>, j: int)
    requires
        0 <= j < s.len(),
    ensures
        stake_weight(s[j]) <= sum_active(s),
    decreases s.len(),
{
    if j == s.len() - 1 {
        lemma_sum_active_nonneg(s.drop_last());
    } else {
        lemma_sum_active_at(s.drop_last(), j);
        assert(s.drop_last()[j] == s[j]);
        assert(stake_weight(s.last()) >= 0);
    }
}

/// The total of all holdings is never negative.
proof fn lemma_total_assets_nonneg(accs: Seq<Account>)
    ensures
        total_assets(accs) >= 0,
    decreases accs.len(),
{
    if accs.len() > 0 {
        lemma_total_assets_nonneg(accs.drop_last());
        lemma_sum_active_nonneg(accs.last().stakes@);
    }
}

/// One account's holdings are bounded by the total over all accounts.
proof fn lemma_holdings_le_total(accs: Seq<Account>, i: int)
    requires
        0 <= i < accs.len(),
    ensures
        holdings(accs[i]) <= total_assets(accs),
        sum_active(accs[i].stakes@) >= 0,
    decreases accs.len(),
{
    lemma_sum_active_nonneg(accs[i].stakes@);
    if i == accs.len() - 1 {
        lemma_total_assets_nonneg(accs.drop_last());
    } else {
        lemma_holdings_le_total(accs.drop_last(), i);
        assert(accs.drop_last()[i] == accs[i]);
        lemma_sum_active_nonneg(accs.last().stakes@);
    }
}

/// Replacing one account moves the total by the difference of holdings.
proof fn lemma_total_assets_update(accs: Seq<Account>, i: int, a: Account)
    requires
        0 <= i < accs.len(),
    ensures
        total_assets(accs.update(i, a)) == total_assets(accs) - holdings(accs[i]) + holdings(a),
    decreases accs.len(),
{
    let u = accs.update(i, a);
    if i == accs.len() - 1 {
        assert(u.drop_last() =~= accs.drop_last());
        assert(u.last() == a);
    } else {
        assert(u.drop_last() =~= accs.drop_last().update(i, a));
        lemma_total_assets_update(accs.drop_last(), i, a);
        assert(u.last() == accs.last());
    }
}

/// Replacing account `i` by one with the same address keeps addresses unique,
/// redirects `lookup` for that address to the new record, and leaves every
/// other lookup unchanged.
proof fn lemma_lookup_update(accs: Seq<Account>, i: int, a: Account)
    requires
        addrs_unique(accs),
        0 <= i < accs.len(),
        a.addr == accs[i].addr,
    ensures
        addrs_unique(accs.update(i, a)),
        lookup(accs.update(i, a), a.addr) == Some(a),
        forall|x: u64| x != a.addr ==> lookup(accs.update(i, a), x) == lookup(accs, x),
    decreases accs.len(),
{
    let u = accs.update(i, a);
    assert(addrs_unique(u));
    lemma_lookup_at(u, i);
    if i < accs.len() - 1 {
        assert forall|p: int, q: int|
            0 <= p < q < accs.drop_last().len() implies (#[trigger] accs.drop_last()[p]).addr != (
        #[trigger] accs.drop_last()[q]).addr by {
            assert(accs.drop_last()[p] == accs[p]);
            assert(accs.drop_last()[q] == accs[q]);
        }
        assert(addrs_unique(accs.drop_last()));
        assert(accs.drop_last()[i] == accs[i]);
        lemma_lookup_update(accs.drop_last(), i, a);
    }
    assert forall|x: u64| x != a.addr implies lookup(u, x) == lookup(accs, x) by {
        if i == accs.len() - 1 {
            assert(u.drop_last() =~= accs.drop_last());
            assert(u.last() == a);
            assert(lookup(u, x) == lookup(u.drop_last(), x));
            assert(lookup(accs, x) == lookup(accs.drop_last(), x));
        } else {
            assert(u.drop_last() =~= accs.drop_last().update(i, a));
            assert(u.last() == accs.last());
            if accs.last().addr == x {
                assert(lookup(u, x) == Some(u.last()));
                assert(lookup(accs, x) == Some(accs.last()));
            } else {
                assert(lookup(accs.drop_last().update(i, a), x) == lookup(accs.drop_last(), x));
                assert(lookup(u, x) == lookup(u.drop_last(), x));
                assert(lookup(accs, x) == lookup(accs.drop_last(), x));
            }
        }
    }
}

/// Appending an account with a fresh address keeps addresses unique, makes its
/// address resolvable, adds its holdings to the total, and leaves every other
/// lookup unchanged.
proof fn lemma_accounts_push(accs: Seq<Account>, a: Account)
    requires
        addrs_unique(accs),
        forall|j: int| 0 <= j < accs.len() ==> (#[trigger] accs[j]).addr != a.addr,
    ensures
        addrs_unique(accs.push(a)),
        lookup(accs.push(a), a.addr) == Some(a),
        forall|x: u64| x != a.addr ==> lookup(accs.push(a), x) == lookup(accs, x),
        total_assets(accs.push(a)) == total_assets(accs) + holdings(a),
{
    let u = accs.push(a);
    assert(u.drop_last() =~= accs);
    assert(u.last() == a);
    assert forall|p: int, q: int| 0 <= p < q < u.len() implies u[p].addr != u[q].addr by {
        if q == u.len() - 1 {
            assert(u[p] == accs[p]);
        }
    }
}

/// If `accs[i]` carries `addr` and addresses are unique, `lookup` finds it.
proof fn lemma_lookup_at(accs: Seq<Account>, i: int)
    requires
        addrs_unique(accs),
        0 <= i < accs.len(),
    ensures
        lookup(accs, accs[i].addr) == Some(accs[i]),
    decreases accs.len(),
{
    if i == accs.len() - 1 {
    } else {
        assert(accs.last().addr != accs[i].addr);
        lemma_lookup_at(accs.drop_last(), i);
        assert(accs.drop_last()[i] == accs[i]);
    }
}

/// If no account carries `addr`, `lookup` reports none.
proof fn lemma_lookup_none(accs: Seq<Account>, addr: u64)
    requires
        forall|j: int| 0 <= j < accs.len() ==> (#[trigger] accs[j]).addr != addr,
    ensures
        lookup(accs, addr) == None::<Account>,
    decreases accs.len(),
{
    if accs.len() > 0 {
        lemma_lookup_none(accs.drop_last(), addr);
    }
}

} // verus!

