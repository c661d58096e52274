//! NFT staking with impact-weighted reward accrual.
//!
//! An [`ImpactProductStaking`] value holds the staking book for impact
//! product NFTs. The collaborating contracts stay outside the library: the
//! NFT registry's answer to "who owns this token" is passed into
//! [`ImpactProductStaking::stake_nft`], the impact oracle's
//! `(impact value, verified)` pair into the reward entry points, and the
//! reward returned by a successful claim is the amount the token contract is
//! then told to mint. The ledger clock is the explicit `now` argument.

use vstd::prelude::*;

verus! {

/// One staked NFT: its owner, lock window, claim cursor and the reward
/// multiplier fixed when the stake was created.
#[derive(Clone, Copy)]
pub struct NFTStake {
    pub token_id: u32,
    pub owner: u64,
    pub start_time: u64,
    pub lock_period: u64,
    pub lock_end_time: u64,
    pub last_claim_time: u64,
    pub multiplier: u32,
}

/// Admin-configurable bounds and base reward rate (basis points).
#[derive(Clone, Copy)]
pub struct StakingParams {
    pub base_reward_rate: u32,
    pub min_lock_period: u64,
    pub max_lock_period: u64,
}

/// Record of a successful parameter update, as the host would publish it.
#[derive(Clone, Copy, Debug, PartialEq, Eq, Structural)]
pub struct StakingParamsUpdatedEvent {
    pub base_reward_rate: u32,
    pub min_lock_period: u64,
    pub max_lock_period: u64,
}

/// Typed failures of the staking entry points.
#[derive(Clone, Copy, Debug, PartialEq, Eq, Structural)]
pub enum StakingError {
    InvalidLockPeriod,
    AlreadyStaked,
    NotTokenOwner,
    StakeNotFound,
    NotStakeOwner,
    NoRewardsToClaim,
    LockPeriodNotEnded,
    NotAdmin,
}

/// Reward multiplier tiers by lock period: 30 days gives 1200, 90 days 1500,
/// 180 days 2000, 365 days 3000, anything shorter 1000 (all per mille of the
/// base).
pub open spec fn spec_multiplier(lock_period: u64) -> u32 {
    if lock_period >= 365 * 24 * 60 * 60 {
        3000
    } else if lock_period >= 180 * 24 * 60 * 60 {
        2000
    } else if lock_period >= 90 * 24 * 60 * 60 {
        1500
    } else if lock_period >= 30 * 24 * 60 * 60 {
        1200
    } else {
        1000
    }
}

/// The tier table of [`spec_multiplier`], as executable code.
pub fn calculate_multiplier(lock_period: u64) -> (r: u32)
    ensures
        r == spec_multiplier(lock_period),
{
    if lock_period >= 365 * 24 * 60 * 60 {
        3000
    } else if lock_period >= 180 * 24 * 60 * 60 {
        2000
    } else if lock_period >= 90 * 24 * 60 * 60 {
        1500
    } else if lock_period >= 30 * 24 * 60 * 60 {
        1200
    } else {
        1000
    }
}

/// Impact value after the verification bonus: a verified token counts 120%.
pub open spec fn spec_adjusted_impact(impact_value: u64, verified: bool) -> int {
    if verified {
        impact_value * 120 / 100
    } else {
        impact_value as int
    }
}

/// Reward accrued by a stake since its last claim: the adjusted impact value
/// times the base rate, the stake's multiplier and the elapsed time as a
/// 10^4-scaled year fraction, divided by the two compounded 10^4 scale
/// factors, truncating.
pub open spec fn spec_nft_reward(
    stake: NFTStake,
    impact_value: u64,
    verified: bool,
    now: u64,
    base_reward_rate: u32,
) -> int {
    let impact = spec_adjusted_impact(impact_value, verified);
    let annual = (now - stake.last_claim_time) * 10000 / (31536000 as int);
    impact * base_reward_rate * stake.multiplier * annual / ((10000 * 10000) as int)
}

/// The reward computation stays within `u64` in the order the machine
/// performs it.
pub open spec fn nft_reward_fits(
    stake: NFTStake,
    impact_value: u64,
    verified: bool,
    now: u64,
    base_reward_rate: u32,
) -> bool {
    let impact = spec_adjusted_impact(impact_value, verified);
    let annual = (now - stake.last_claim_time) * 10000 / (31536000 as int);
    &&& (verified ==> impact_value * 120 <= u64::MAX)
    &&& (now - stake.last_claim_time) * 10000 <= u64::MAX
    &&& impact * base_reward_rate <= u64::MAX
    &&& impact * base_reward_rate * stake.multiplier <= u64::MAX
    &&& impact * base_reward_rate * stake.multiplier * annual <= u64::MAX
}

/// The reward engine: a pure function of the stake record, the impact data,
/// the clock and the base rate, matching [`spec_nft_reward`] exactly.
fn calculate_rewards(
    stake: &NFTStake,
    impact_value: u64,
    verified: bool,
    now: u64,
    params: &StakingParams,
) -> (r: u64)
    requires
        now >= stake.last_claim_time,
        nft_reward_fits(*stake, impact_value, verified, now, params.base_reward_rate),
    ensures
        r == spec_nft_reward(*stake, impact_value, verified, now, params.base_reward_rate),
{
    let impact = if verified {
        impact_value * 120 / 100
    } else {
        impact_value
    };
    let duration = now - stake.last_claim_time;
    let annual_equiv = duration * 10000 / 31536000;
    impact * (params.base_reward_rate as u64) * (stake.multiplier as u64) * annual_equiv / (10000
        * 10000)
}

/// Index of the stake for `token_id`, scanning from the most recent entry;
/// `-1` when the token is not staked.
pub open spec fn stake_index(s: Seq<NFTStake>, token_id: u32) -> int
    decreases s.len(),
{
    if s.len() == 0 {
        -1
    } else if s.last().token_id == token_id {
        s.len() - 1
    } else {
        stake_index(s.drop_last(), token_id)
    }
}

/// The stake record for `token_id`, if that token is currently staked.
pub open spec fn lookup_stake(s: Seq<NFTStake>, token_id: u32) -> Option<NFTStake> {
    if stake_index(s, token_id) >= 0 {
        Some(s[stake_index(s, token_id)])
    } else {
        None
    }
}

/// No two book entries concern the same token.
pub open spec fn token_ids_unique(s: Seq<NFTStake>) -> bool {
    forall|i: int, j: int|
        0 <= i < j < s.len() ==> (#[trigger] s[i]).token_id != (#[trigger] s[j]).token_id
}

/// Token ids of the stakes owned by `owner`, oldest first.
pub open spec fn staked_ids(s: Seq<NFTStake>, owner: u64) -> Seq<u32>
    decreases s.len(),
{
    if s.len() == 0 {
        Seq::empty()
    } else if s.last().owner == owner {
        staked_ids(s.drop_last(), owner).push(s.last().token_id)
    } else {
        staked_ids(s.drop_last(), owner)
    }
}

/// If entry `i` carries `token_id` and ids are unique, the index search
/// finds exactly that entry.
proof fn lemma_stake_index_at(s: Seq<NFTStake>, i: int)
    requires
        token_ids_unique(s),
        0 <= i < s.len(),
    ensures
        stake_index(s, s[i].token_id) == i,
    decreases s.len(),
{
    if i == s.len() - 1 {
    } else {
        assert(s.last().token_id != s[i].token_id);
        lemma_stake_index_at(s.drop_last(), i);
        assert(s.drop_last()[i] == s[i]);
    }
}

/// If no entry carries `token_id`, the index search reports none.
proof fn lemma_stake_index_none(s: Seq<NFTStake>, token_id: u32)
    requires
        forall|j: int| 0 <= j < s.len() ==> (#[trigger] s[j]).token_id != token_id,
    ensures
        stake_index(s, token_id) == -1,
    decreases s.len(),
{
    if s.len() > 0 {
        lemma_stake_index_none(s.drop_last(), token_id);
    }
}

/// Removing one entry keeps the remaining token ids unique.
proof fn lemma_unique_remove(s: Seq<NFTStake>, i: int)
    requires
        token_ids_unique(s),
        0 <= i < s.len(),
    ensures
        token_ids_unique(s.remove(i)),
{
    let u = s.remove(i);
    assert forall|p: int, q: int| 0 <= p < q < u.len() implies (#[trigger] u[p]).token_id != (
    #[trigger] u[q]).token_id by {
        let p0 = if p < i {
            p
        } else {
            p + 1
        };
        let q0 = if q < i {
            q
        } else {
            q + 1
        };
        assert(u[p] == s[p0]);
        assert(u[q] == s[q0]);
    }
}

/// The NFT staking contract state.
pub struct ImpactProductStaking {
    pub admin: u64,
    pub nft_contract: u64,
    pub rebaz_token: u64,
    pub params: StakingParams,
    pub stakes: Vec<NFTStake>,
}

impl ImpactProductStaking {
    /// Well-formedness: at most one book entry per token.
    pub open spec fn wf(self) -> bool {
        token_ids_unique(self.stakes@)
    }

    /// The stake for `token_id`, if any.
    pub open spec fn spec_stake(self, token_id: u32) -> Option<NFTStake> {
        lookup_stake(self.stakes@, token_id)
    }

    /// One-time initialization, fixing the collaborating contract addresses
    /// and the default parameters.
    pub fn initialize(admin: u64, nft_contract: u64, rebaz_token: u64) -> (s: Self)
        ensures
            s.wf(),
            s.admin == admin,
            s.nft_contract == nft_contract,
            s.rebaz_token == rebaz_token,
            s.params == (StakingParams {
                base_reward_rate: 1000u32,
                min_lock_period: (7 * 24 * 60 * 60) as u64,
                max_lock_period: (365 * 24 * 60 * 60) as u64,
            }),
            s.stakes@ == Seq::<NFTStake>::empty(),
    {
        let s = ImpactProductStaking {
            admin,
            nft_contract,
            rebaz_token,
            params: StakingParams {
                base_reward_rate: 1000,
                min_lock_period: 7 * 24 * 60 * 60,
                max_lock_period: 365 * 24 * 60 * 60,
            },
            stakes: Vec::new(),
        };
        proof {
            assert(s.stakes@ =~= Seq::<NFTStake>::empty());
        }
        s
    }

    /// Index of the book entry for `token_id`, if any.
    fn find_stake(&self, token_id: u32) -> (r: Option<usize>)
        ensures
            match r {
                Some(i) => i < self.stakes@.len() && self.stakes@[i as int].token_id == token_id,
                None => forall|j: int|
                    0 <= j < self.stakes@.len() ==> (#[trigger] self.stakes@[j]).token_id
                        != token_id,
            },
    {
        let n = self.stakes.len();
        let mut i: usize = 0;
        while i < n
            invariant
                n == self.stakes@.len(),
                i <= n,
                forall|j: int| 0 <= j < i ==> (#[trigger] self.stakes@[j]).token_id != token_id,
            decreases n - i,
        {
            if self.stakes[i].token_id == token_id {
                return Some(i);
            }
            i = i + 1;
        }
        None
    }

    /// Stakes `token_id` for `lock_period` seconds starting at `now`.
    /// `nft_owner` is the owner the NFT registry reports for the token; the
    /// registry transfers the NFT into custody as part of the same atomic
    /// call. The reward multiplier is fixed here from the lock period.
    pub fn stake_nft(
        &mut self,
        user: u64,
        token_id: u32,
        lock_period: u64,
        nft_owner: u64,
        now: u64,
    ) -> (r: Result<(), StakingError>)
        requires
            old(self).wf(),
            (old(self).params.min_lock_period <= lock_period <= old(self).params.max_lock_period
                && old(self).spec_stake(token_id) is None && nft_owner == user) ==> now
                + lock_period <= u64::MAX,
        ensures
            final(self).wf(),
            final(self).admin == old(self).admin,
            final(self).nft_contract == old(self).nft_contract,
            final(self).rebaz_token == old(self).rebaz_token,
            final(self).params == old(self).params,
            r == (if lock_period < old(self).params.min_lock_period || lock_period > old(
                self,
            ).params.max_lock_period {
                Err::<(), StakingError>(StakingError::InvalidLockPeriod)
            } else if old(self).spec_stake(token_id) is Some {
                Err::<(), StakingError>(StakingError::AlreadyStaked)
            } else if nft_owner != user {
                Err::<(), StakingError>(StakingError::NotTokenOwner)
            } else {
                Ok::<(), StakingError>(())
            }),
            r is Err ==> *final(self) == *old(self),
            r is Ok ==> final(self).stakes@ == old(self).stakes@.push(
                NFTStake {
                    token_id,
                    owner: user,
                    start_time: now,
                    lock_period,
                    lock_end_time: (now + lock_period) as u64,
                    last_claim_time: now,
                    multiplier: spec_multiplier(lock_period),
                },
            ),
    {
        if lock_period < self.params.min_lock_period || lock_period > self.params.max_lock_period {
            return Err(StakingError::InvalidLockPeriod);
        }
        match self.find_stake(token_id) {
            Some(i) => {
                proof {
                    lemma_stake_index_at(self.stakes@, i as int);
                }
                return Err(StakingError::AlreadyStaked);
            },
            None => {
                proof {
                    lemma_stake_index_none(self.stakes@, token_id);
                }
            },
        }
        if nft_owner != user {
            return Err(StakingError::NotTokenOwner);
        }
        let multiplier = calculate_multiplier(lock_period);
        let ghost s0 = self.stakes@;
        let stake = NFTStake {
            token_id,
            owner: user,
            start_time: now,
            lock_period,
            lock_end_time: now + lock_period,
            last_claim_time: now,
            multiplier,
        };
        self.stakes.push(stake);
        proof {
            assert forall|p: int, q: int| 0 <= p < q < self.stakes@.len() implies (
            #[trigger] self.stakes@[p]).token_id != (#[trigger] self.stakes@[q]).token_id by {
                if q == self.stakes@.len() - 1 {
                    assert(self.stakes@[p] == s0[p]);
                }
            }
        }
        Ok(())
    }

    /// Pays out the reward accrued by `token_id` since its last claim and
    /// moves the claim cursor to `now`. `(impact_value, verified)` is what
    /// the impact oracle reports for the token; the returned amount is what
    /// the token contract is told to mint for `user` in the same atomic
    /// call. A stake with nothing accrued cannot be claimed.
    pub fn claim_rewards(
        &mut self,
        user: u64,
        token_id: u32,
        impact_value: u64,
        verified: bool,
        now: u64,
    ) -> (r: Result<u64, StakingError>)
        requires
            old(self).wf(),
            match old(self).spec_stake(token_id) {
                Some(st) => st.owner == user ==> (now >= st.last_claim_time && nft_reward_fits(
                    st,
                    impact_value,
                    verified,
                    now,
                    old(self).params.base_reward_rate,
                )),
                None => true,
            },
        ensures
            final(self).wf(),
            final(self).admin == old(self).admin,
            final(self).nft_contract == old(self).nft_contract,
            final(self).rebaz_token == old(self).rebaz_token,
            final(self).params == old(self).params,
            r is Err ==> *final(self) == *old(self),
            match old(self).spec_stake(token_id) {
                None => r == Err::<u64, StakingError>(StakingError::StakeNotFound),
                Some(st) => {
                    if st.owner != user {
                        r == Err::<u64, StakingError>(StakingError::NotStakeOwner)
                    } else {
                        let reward = spec_nft_reward(
                            st,
                            impact_value,
                            verified,
                            now,
                            old(self).params.base_reward_rate,
                        );
                        if reward == 0 {
                            r == Err::<u64, StakingError>(StakingError::NoRewardsToClaim)
                        } else {
                            &&& r == Ok::<u64, StakingError>(reward as u64)
                            &&& final(self).stakes@ == old(self).stakes@.update(
                                stake_index(old(self).stakes@, token_id),
                                (NFTStake { last_claim_time: now, ..st }),
                            )
                        }
                    }
                },
            },
    {
        let i = match self.find_stake(token_id) {
            Some(i) => {
                proof {
                    lemma_stake_index_at(self.stakes@, i as int);
                }
                i
            },
            None => {
                proof {
                    lemma_stake_index_none(self.stakes@, token_id);
                }
                return Err(StakingError::StakeNotFound);
            },
        };
        let st = self.stakes[i];
        if st.owner != user {
            return Err(StakingError::NotStakeOwner);
        }
        let reward = calculate_rewards(&st, impact_value, verified, now, &self.params);
        if reward == 0 {
            return Err(StakingError::NoRewardsToClaim);
        }
        let ghost s0 = self.stakes@;
        self.stakes.set(i, NFTStake { last_claim_time: now, ..st });
        proof {
            assert forall|p: int, q: int| 0 <= p < q < self.stakes@.len() implies (
            #[trigger] self.stakes@[p]).token_id != (#[trigger] self.stakes@[q]).token_id by {
                assert(self.stakes@[p].token_id == s0[p].token_id);
                assert(self.stakes@[q].token_id == s0[q].token_id);
            }
        }
        Ok(reward)
    }

    /// Ends the stake of `token_id` after its lock has expired: pays the
    /// final claim, removes the book entry, and the NFT registry returns the
    /// token to `user` in the same atomic call. A stake whose final claim
    /// would be zero cannot be unstaked this way.
    pub fn unstake_nft(
        &mut self,
        user: u64,
        token_id: u32,
        impact_value: u64,
        verified: bool,
        now: u64,
    ) -> (r: Result<u64, StakingError>)
        requires
            old(self).wf(),
            match old(self).spec_stake(token_id) {
                Some(st) => (st.owner == user && now >= st.lock_end_time) ==> (now
                    >= st.last_claim_time && nft_reward_fits(
                    st,
                    impact_value,
                    verified,
                    now,
                    old(self).params.base_reward_rate,
                )),
                None => true,
            },
        ensures
            final(self).wf(),
            final(self).admin == old(self).admin,
            final(self).nft_contract == old(self).nft_contract,
            final(self).rebaz_token == old(self).rebaz_token,
            final(self).params == old(self).params,
            r is Err ==> *final(self) == *old(self),
            match old(self).spec_stake(token_id) {
                None => r == Err::<u64, StakingError>(StakingError::StakeNotFound),
                Some(st) => {
                    if st.owner != user {
                        r == Err::<u64, StakingError>(StakingError::NotStakeOwner)
                    } else if now < st.lock_end_time {
                        r == Err::<u64, StakingError>(StakingError::LockPeriodNotEnded)
                    } else {
                        let reward = spec_nft_reward(
                            st,
                            impact_value,
                            verified,
                            now,
                            old(self).params.base_reward_rate,
                        );
                        if reward == 0 {
                            r == Err::<u64, StakingError>(StakingError::NoRewardsToClaim)
                        } else {
                            &&& r == Ok::<u64, StakingError>(reward as u64)
                            &&& final(self).stakes@ == old(self).stakes@.remove(
                                stake_index(old(self).stakes@, token_id),
                            )
                            &&& final(self).spec_stake(token_id) is None
                        }
                    }
                },
            },
    {
        let i = match self.find_stake(token_id) {
            Some(i) => {
                proof {
                    lemma_stake_index_at(self.stakes@, i as int);
                }
                i
            },
            None => {
                proof {
                    lemma_stake_index_none(self.stakes@, token_id);
                }
                return Err(StakingError::StakeNotFound);
            },
        };
        let st = self.stakes[i];
        if st.owner != user {
            return Err(StakingError::NotStakeOwner);
        }
        if now < st.lock_end_time {
            return Err(StakingError::LockPeriodNotEnded);
        }
        let reward = calculate_rewards(&st, impact_value, verified, now, &self.params);
        if reward == 0 {
            return Err(StakingError::NoRewardsToClaim);
        }
        let ghost s0 = self.stakes@;
        let _ = self.stakes.remove(i);
        proof {
            lemma_unique_remove(s0, i as int);
            lemma_stake_index_none_after_remove(s0, i as int, token_id);
        }
        Ok(reward)
    }

    /// Token ids currently staked by `user`, oldest first.
    pub fn get_staked_nfts(&self, user: u64) -> (r: Vec<u32>)
        ensures
            r@ == staked_ids(self.stakes@, user),
    {
        let n = self.stakes.len();
        let mut out: Vec<u32> = Vec::new();
        let mut i: usize = 0;
        proof {
            assert(self.stakes@.subrange(0, 0) =~= Seq::<NFTStake>::empty());
            assert(out@ =~= staked_ids(self.stakes@.subrange(0, 0), user));
        }
        while i < n
            invariant
                n == self.stakes@.len(),
                i <= n,
                out@ == staked_ids(self.stakes@.subrange(0, i as int), user),
            decreases n - i,
        {
            proof {
                assert(self.stakes@.subrange(0, i as int + 1).drop_last() =~= self.stakes@.subrange(
                    0,
                    i as int,
                ));
                assert(self.stakes@.subrange(0, i as int + 1).last() == self.stakes@[i as int]);
            }
            if self.stakes[i].owner == user {
                out.push(self.stakes[i].token_id);
            }
            i = i + 1;
        }
        proof {
            assert(self.stakes@.subrange(0, n as int) =~= self.stakes@);
        }
        out
    }

    /// The book entry for `token_id`, if the token is currently staked.
    pub fn get_stake_info(&self, token_id: u32) -> (r: Option<NFTStake>)
        requires
            self.wf(),
        ensures
            r == self.spec_stake(token_id),
    {
        match self.find_stake(token_id) {
            Some(i) => {
                proof {
                    lemma_stake_index_at(self.stakes@, i as int);
                }
                Some(self.stakes[i])
            },
            None => {
                proof {
                    lemma_stake_index_none(self.stakes@, token_id);
                }
                None
            },
        }
    }

    /// Reward `token_id` would pay if claimed at `now`; zero for a token
    /// that is not staked.
    pub fn pending_rewards(&self, token_id: u32, impact_value: u64, verified: bool, now: u64) -> (r:
        u64)
        requires
            self.wf(),
            match self.spec_stake(token_id) {
                Some(st) => now >= st.last_claim_time && nft_reward_fits(
                    st,
                    impact_value,
                    verified,
                    now,
                    self.params.base_reward_rate,
                ),
                None => true,
            },
        ensures
            r == match self.spec_stake(token_id) {
                Some(st) => spec_nft_reward(
                    st,
                    impact_value,
                    verified,
                    now,
                    self.params.base_reward_rate,
                ) as u64,
                None => 0u64,
            },
    {
        match self.find_stake(token_id) {
            Some(i) => {
                proof {
                    lemma_stake_index_at(self.stakes@, i as int);
                }
                let st = self.stakes[i];
                calculate_rewards(&st, impact_value, verified, now, &self.params)
            },
            None => {
                proof {
                    lemma_stake_index_none(self.stakes@, token_id);
                }
                0
            },
        }
    }

    /// Replaces the staking parameters. Admin-only; the new values are
    /// stored as given, and the event the host would publish is returned.
    pub fn update_staking_params(
        &mut self,
        caller: u64,
        base_reward_rate: u32,
        min_lock_period: u64,
        max_lock_period: u64,
    ) -> (r: Result<StakingParamsUpdatedEvent, StakingError>)
        requires
            old(self).wf(),
        ensures
            final(self).wf(),
            r == (if caller != old(self).admin {
                Err::<StakingParamsUpdatedEvent, StakingError>(StakingError::NotAdmin)
            } else {
                Ok::<StakingParamsUpdatedEvent, StakingError>(
                    StakingParamsUpdatedEvent {
                        base_reward_rate,
                        min_lock_period,
                        max_lock_period,
                    },
                )
            }),
            r is Err ==> *final(self) == *old(self),
            r is Ok ==> *final(self) == (ImpactProductStaking {
                params: StakingParams { base_reward_rate, min_lock_period, max_lock_period },
                ..*old(self)
            }),
    {
        if caller != self.admin {
            return Err(StakingError::NotAdmin);
        }
        self.params = StakingParams { base_reward_rate, min_lock_period, max_lock_period };
        Ok(StakingParamsUpdatedEvent { base_reward_rate, min_lock_period, max_lock_period })
    }
}

/// After removing the only entry for `token_id`, no entry carries that id.
proof fn lemma_stake_index_none_after_remove(s: Seq<NFTStake>, i: int, token_id: u32)
    requires
        token_ids_unique(s),
        0 <= i < s.len(),
        s[i].token_id == token_id,
    ensures
        stake_index(s.remove(i), token_id) == -1,
{
    let u = s.remove(i);
    assert forall|j: int| 0 <= j < u.len() implies (#[trigger] u[j]).token_id != token_id by {
        let j0 = if j < i {
            j
        } else {
            j + 1
        };
        assert(u[j] == s[j0]);
    }
    lemma_stake_index_none(u, token_id);
}

} // verus!
