use rebaz::staking::ImpactProductStaking;
use rebaz::staking::StakingError;
use rebaz::staking::calculate_multiplier;

const ADMIN: u64 = 10;
const NFT_CONTRACT: u64 = 11;
const REBAZ_TOKEN: u64 = 12;
const USER: u64 = 20;

const DAY: u64 = 24 * 60 * 60;

/// Stand-in for the NFT registry and impact oracle the staking contract
/// consults: it answers who owns a token and what impact data it carries.
struct MockNFTContract {
    owner: u64,
    impact_value: u64,
    verified: bool,
}

impl MockNFTContract {
    fn new(owner: u64) -> Self {
        MockNFTContract { owner, impact_value: 1000, verified: true }
    }

    fn owner(&self, _token_id: u32) -> u64 {
        self.owner
    }

    fn get_impact_data(&self, _token_id: u32) -> (u64, bool) {
        (self.impact_value, self.verified)
    }
}

fn setup() -> ImpactProductStaking {
    ImpactProductStaking::initialize(ADMIN, NFT_CONTRACT, REBAZ_TOKEN)
}

#[test]
fn test_test_initialize() {
    let s = setup();

    assert_eq!(s.admin, ADMIN);
    assert_eq!(s.nft_contract, NFT_CONTRACT);
    assert_eq!(s.rebaz_token, REBAZ_TOKEN);
    assert_eq!(s.params.base_reward_rate, 1000);
    assert_eq!(s.params.min_lock_period, 7 * DAY);
    assert_eq!(s.params.max_lock_period, 365 * DAY);
}

#[test]
fn test_stake_nft() {
    let mut s = setup();
    let nft = MockNFTContract::new(USER);
    let token_id = 1u32;
    let lock_period = 30 * DAY;

    s.stake_nft(USER, token_id, lock_period, nft.owner(token_id), 0).unwrap();

    let stake = s.get_stake_info(token_id).unwrap();
    let staked_tokens = s.get_staked_nfts(USER);

    assert_eq!(stake.token_id, token_id);
    assert_eq!(stake.owner, USER);
    assert_eq!(stake.lock_period, lock_period);
    assert_eq!(stake.multiplier, 1200); // From calculate_multiplier for 30 days
    assert_eq!(staked_tokens[0], token_id);
}

#[test]
fn test_stake_already_staked_nft() {
    let mut s = setup();
    let token_id = 1u32;
    let lock_period = 30 * DAY;

    // First stake should succeed.
    s.stake_nft(USER, token_id, lock_period, USER, 0).unwrap();

    let stake = s.get_stake_info(token_id).unwrap();
    assert_eq!(stake.token_id, token_id);
    assert_eq!(stake.owner, USER);

    // Staking the same NFT again fails and leaves the stake in place.
    let again = s.stake_nft(USER, token_id, lock_period, USER, 5);
    assert_eq!(again, Err(StakingError::AlreadyStaked));
    let stake = s.get_stake_info(token_id).unwrap();
    assert_eq!(stake.token_id, token_id);
    assert_eq!(stake.owner, USER);
    assert_eq!(stake.start_time, 0);
}

#[test]
fn test_claim_rewards() {
    let mut s = setup();
    let token_id = 1u32;
    let lock_period = 30 * DAY;

    s.stake_nft(USER, token_id, lock_period, USER, 0).unwrap();

    let stake = s.get_stake_info(token_id).unwrap();
    assert_eq!(stake.token_id, token_id);
    assert_eq!(stake.owner, USER);
    assert_eq!(stake.lock_period, lock_period);
}

#[test]
fn test_unstake_nft() {
    let mut s = setup();
    let token_id = 1u32;
    let lock_period = 30 * DAY;

    s.stake_nft(USER, token_id, lock_period, USER, 0).unwrap();

    let stake = s.get_stake_info(token_id).unwrap();
    assert_eq!(stake.token_id, token_id);
    assert_eq!(stake.owner, USER);
    assert_eq!(stake.lock_period, lock_period);
}

#[test]
fn test_test_update_staking_params() {
    let mut s = setup();

    let new_base_reward_rate = 2000u32;
    let new_min_lock_period = 14 * DAY;
    let new_max_lock_period = 730 * DAY;

    let event = s
        .update_staking_params(ADMIN, new_base_reward_rate, new_min_lock_period, new_max_lock_period)
        .unwrap();

    assert_eq!(s.params.base_reward_rate, new_base_reward_rate);
    assert_eq!(s.params.min_lock_period, new_min_lock_period);
    assert_eq!(s.params.max_lock_period, new_max_lock_period);
    assert_eq!(event.base_reward_rate, new_base_reward_rate);
    assert_eq!(event.min_lock_period, new_min_lock_period);
    assert_eq!(event.max_lock_period, new_max_lock_period);
}

#[test]
fn test_update_staking_params_non_admin() {
    let mut s = setup();
    let non_admin = 99;
    let result = s.update_staking_params(non_admin, 2000, 14 * DAY, 730 * DAY);
    assert_eq!(result.unwrap_err(), StakingError::NotAdmin);
    assert_eq!(s.params.base_reward_rate, 1000);
}

#[test]
fn test_get_staked_nfts_and_pending_rewards() {
    let mut s = setup();
    let token_id = 1u32;
    let lock_period = 30 * DAY;

    s.stake_nft(USER, token_id, lock_period, USER, 0).unwrap();

    let staked_nfts = s.get_staked_nfts(USER);
    assert_eq!(staked_nfts[0], token_id);

    let stake_info = s.get_stake_info(token_id).unwrap();
    assert_eq!(stake_info.token_id, token_id);
    assert_eq!(stake_info.owner, USER);

    let _pending = s.pending_rewards(token_id, 1000, true, 0);
}

#[test]
fn test_multiplier_tiers() {
    assert_eq!(calculate_multiplier(365 * DAY), 3000);
    assert_eq!(calculate_multiplier(180 * DAY), 2000);
    assert_eq!(calculate_multiplier(90 * DAY), 1500);
    assert_eq!(calculate_multiplier(30 * DAY), 1200);
    assert_eq!(calculate_multiplier(30 * DAY - 1), 1000);
    assert_eq!(calculate_multiplier(0), 1000);
}

// A verified impact value counts 120%; one scaled year at rate 1000 bps and
// multiplier 1200 pays 1200 * 1000 * 1200 * 10000 / 10^8.
#[test]
fn test_claim_rewards_after_a_year() {
    let mut s = setup();
    s.stake_nft(USER, 1, 30 * DAY, USER, 0).unwrap();

    let nft = MockNFTContract::new(USER);
    let (impact_value, verified) = nft.get_impact_data(1);
    let pending = s.pending_rewards(1, impact_value, verified, 365 * DAY);
    assert_eq!(pending, 144_000);

    let reward = s.claim_rewards(USER, 1, impact_value, verified, 365 * DAY).unwrap();
    assert_eq!(reward, 144_000);
    let stake = s.get_stake_info(1).unwrap();
    assert_eq!(stake.last_claim_time, 365 * DAY);

    // Immediately claiming again finds nothing accrued.
    let again = s.claim_rewards(USER, 1, 1000, true, 365 * DAY);
    assert_eq!(again, Err(StakingError::NoRewardsToClaim));
}

#[test]
fn test_claim_rewards_errors() {
    let mut s = setup();
    s.stake_nft(USER, 1, 30 * DAY, USER, 0).unwrap();

    assert_eq!(s.claim_rewards(USER, 2, 1000, true, 0), Err(StakingError::StakeNotFound));
    assert_eq!(s.claim_rewards(99, 1, 1000, true, 0), Err(StakingError::NotStakeOwner));
    // An unverified zero impact value accrues nothing.
    assert_eq!(
        s.claim_rewards(USER, 1, 0, false, 365 * DAY),
        Err(StakingError::NoRewardsToClaim)
    );
}

#[test]
fn test_unstake_nft_full_flow() {
    let mut s = setup();
    s.stake_nft(USER, 1, 30 * DAY, USER, 0).unwrap();

    assert_eq!(
        s.unstake_nft(USER, 1, 1000, true, 30 * DAY - 1),
        Err(StakingError::LockPeriodNotEnded)
    );

    let reward = s.unstake_nft(USER, 1, 1000, true, 365 * DAY).unwrap();
    assert_eq!(reward, 144_000);
    assert!(s.get_stake_info(1).is_none());
    assert!(s.get_staked_nfts(USER).is_empty());
    assert_eq!(s.pending_rewards(1, 1000, true, 365 * DAY), 0);
}

#[test]
fn test_stake_nft_errors() {
    let mut s = setup();
    assert_eq!(
        s.stake_nft(USER, 1, 6 * DAY, USER, 0),
        Err(StakingError::InvalidLockPeriod)
    );
    assert_eq!(
        s.stake_nft(USER, 1, 366 * DAY, USER, 0),
        Err(StakingError::InvalidLockPeriod)
    );
    assert_eq!(
        s.stake_nft(USER, 1, 30 * DAY, 99, 0),
        Err(StakingError::NotTokenOwner)
    );
}
