use rebaz::token::Error;
use rebaz::token::REBAZToken;

const ADMIN: u64 = 1;
const USER1: u64 = 2;
const USER2: u64 = 3;

const DAY: u64 = 24 * 60 * 60;

#[test]
fn test_init() {
    let initial_supply = 1000000 * 10_u64.pow(7);
    let token = REBAZToken::init(ADMIN, initial_supply);

    assert_eq!(token.total_supply(), initial_supply);
    assert_eq!(token.balance(ADMIN), initial_supply);
}

#[test]
fn test_transfer() {
    let initial_supply = 1000000 * 10_u64.pow(7);
    let mut token = REBAZToken::init(ADMIN, initial_supply);

    let transfer_amount = 1000 * 10_u64.pow(7);
    let result = token.transfer(ADMIN, USER1, transfer_amount);
    assert!(result.unwrap());

    assert_eq!(token.balance(ADMIN), initial_supply - transfer_amount);
    assert_eq!(token.balance(USER1), transfer_amount);

    let transfer_amount2 = 500 * 10_u64.pow(7);
    let result2 = token.transfer(USER1, USER2, transfer_amount2);
    assert!(result2.unwrap());

    assert_eq!(token.balance(USER1), transfer_amount - transfer_amount2);
    assert_eq!(token.balance(USER2), transfer_amount2);
}

#[test]
fn test_transfer_insufficient_balance() {
    let initial_supply = 1000000 * 10_u64.pow(7);
    let mut token = REBAZToken::init(ADMIN, initial_supply);

    let transfer_amount = 1000 * 10_u64.pow(7);
    let result = token.transfer(USER1, USER2, transfer_amount);
    assert_eq!(result, Err(Error::InsufficientBalance));
    assert_eq!(token.balance(USER2), 0);
}

#[test]
fn test_mint() {
    let initial_supply = 1000000 * 10_u64.pow(7);
    let mut token = REBAZToken::init(ADMIN, initial_supply);

    let mint_amount = 1000 * 10_u64.pow(7);
    let result = token.mint(ADMIN, USER1, mint_amount);
    assert!(result.unwrap());

    assert_eq!(token.total_supply(), initial_supply + mint_amount);
    assert_eq!(token.balance(USER1), mint_amount);
}

#[test]
fn test_mint_not_admin() {
    let mut token = REBAZToken::init(ADMIN, 1000);
    assert_eq!(token.mint(USER1, USER1, 50), Err(Error::OnlyAdminCanMint));
    assert_eq!(token.total_supply(), 1000);
}

#[test]
fn test_burn() {
    let initial_supply = 1000000 * 10_u64.pow(7);
    let mut token = REBAZToken::init(ADMIN, initial_supply);

    let burn_amount = 1000 * 10_u64.pow(7);
    let result = token.burn(ADMIN, burn_amount);
    assert!(result.unwrap());

    assert_eq!(token.total_supply(), initial_supply - burn_amount);
    assert_eq!(token.balance(ADMIN), initial_supply - burn_amount);
}

#[test]
fn test_burn_insufficient_balance() {
    let mut token = REBAZToken::init(ADMIN, 1000);
    assert_eq!(token.burn(USER1, 1), Err(Error::InsufficientBalanceToBurn));
    assert_eq!(token.total_supply(), 1000);
}

#[test]
fn test_stake() {
    let initial_supply = 1000000 * 10_u64.pow(7);
    let mut token = REBAZToken::init(ADMIN, initial_supply);

    let transfer_amount = 10000 * 10_u64.pow(7);
    token.transfer(ADMIN, USER1, transfer_amount).unwrap();

    let stake_amount = 5000 * 10_u64.pow(7);
    let stake_duration = 7 * DAY;
    let result = token.stake(USER1, stake_amount, stake_duration, 0);
    assert!(result.unwrap());

    assert_eq!(token.balance(USER1), transfer_amount - stake_amount);
    assert_eq!(token.get_total_staked(USER1), stake_amount);
    assert_eq!(token.get_stake_count(USER1), 1);
}

#[test]
fn test_stake_insufficient_balance() {
    let mut token = REBAZToken::init(ADMIN, 1000000);
    let result = token.stake(USER1, 10000, 7 * DAY, 0);
    assert_eq!(result, Err(Error::InsufficientBalance));
    assert_eq!(token.get_stake_count(USER1), 0);
}

#[test]
fn test_stake_duration_too_short() {
    let mut token = REBAZToken::init(ADMIN, 1000000);
    token.transfer(ADMIN, USER1, 10000).unwrap();
    let result = token.stake(USER1, 5000, 1 * DAY, 0);
    assert_eq!(result, Err(Error::StakingDurationTooShort));
}

#[test]
fn test_stake_duration_too_long() {
    let mut token = REBAZToken::init(ADMIN, 1000000);
    token.transfer(ADMIN, USER1, 10000).unwrap();
    let result = token.stake(USER1, 5000, 366 * DAY, 0);
    assert_eq!(result, Err(Error::StakingDurationTooLong));
}

#[test]
fn test_stake_zero() {
    let mut token = REBAZToken::init(ADMIN, 1000000);
    assert_eq!(token.stake(ADMIN, 0, 7 * DAY, 0), Err(Error::CannotStakeZero));
}

#[test]
fn test_withdraw() {
    let initial_supply = 1000000 * 10_u64.pow(7);
    let mut token = REBAZToken::init(ADMIN, initial_supply);

    let transfer_amount = 10000 * 10_u64.pow(7);
    token.transfer(ADMIN, USER1, transfer_amount).unwrap();

    let stake_amount = 5000 * 10_u64.pow(7);
    let stake_duration = 7 * DAY;
    token.stake(USER1, stake_amount, stake_duration, 0).unwrap();

    let (withdrawn_amount, reward) = token.withdraw(USER1, 0, 0).unwrap();

    assert_eq!(withdrawn_amount, stake_amount);
    assert_eq!(reward, 0);
    assert_eq!(token.get_total_staked(USER1), 0);
}

#[test]
fn test_calculate_reward() {
    let initial_supply = 1000000 * 10_u64.pow(7);
    let mut token = REBAZToken::init(ADMIN, initial_supply);

    let transfer_amount = 10000 * 10_u64.pow(7);
    token.transfer(ADMIN, USER1, transfer_amount).unwrap();

    let stake_amount = 5000 * 10_u64.pow(7);
    let stake_duration = 7 * DAY;
    token.stake(USER1, stake_amount, stake_duration, 0).unwrap();

    let reward = token.calculate_reward(USER1, 0, 0).unwrap();
    assert_eq!(reward, 0);
}

#[test]
fn test_get_voting_power() {
    let initial_supply = 1000000 * 10_u64.pow(7);
    let mut token = REBAZToken::init(ADMIN, initial_supply);

    let transfer_amount = 10000 * 10_u64.pow(7);
    token.transfer(ADMIN, USER1, transfer_amount).unwrap();

    let stake_amount = 5000 * 10_u64.pow(7);
    let stake_duration = 7 * DAY;
    token.stake(USER1, stake_amount, stake_duration, 0).unwrap();

    let voting_power = token.get_voting_power(USER1);
    assert_eq!(voting_power, transfer_amount - stake_amount + stake_amount);
}

#[test]
fn test_update_staking_params() {
    let initial_supply = 1000000 * 10_u64.pow(7);
    let mut token = REBAZToken::init(ADMIN, initial_supply);

    let min_duration = 10 * DAY;
    let max_duration = 400 * DAY;
    let base_rate = 600;
    let result = token.update_staking_params(ADMIN, min_duration, max_duration, base_rate);
    assert!(result.unwrap());

    let params = token.get_staking_params();
    assert_eq!(params.min_stake_duration, min_duration);
    assert_eq!(params.max_stake_duration, max_duration);
    assert_eq!(params.base_reward_rate, base_rate);
}

#[test]
fn test_update_staking_params_errors() {
    let mut token = REBAZToken::init(ADMIN, 1000);
    assert_eq!(
        token.update_staking_params(USER1, DAY, 2 * DAY, 100),
        Err(Error::OnlyAdminCanUpdateStakingParams)
    );
    assert_eq!(
        token.update_staking_params(ADMIN, 2 * DAY, DAY, 100),
        Err(Error::MinDurationGtMaxDuration)
    );
    assert_eq!(
        token.update_staking_params(ADMIN, DAY, 2 * DAY, 5001),
        Err(Error::BaseRewardRateTooHigh)
    );
}

#[test]
fn test_update_governance_params() {
    let initial_supply = 1000000 * 10_u64.pow(7);
    let mut token = REBAZToken::init(ADMIN, initial_supply);

    let proposal_threshold = 200000 * 10_u64.pow(7);
    let voting_period = 50000;
    let voting_delay = 20000;
    let result =
        token.update_governance_params(ADMIN, proposal_threshold, voting_period, voting_delay);
    assert!(result.unwrap());

    let params = token.get_governance_params();
    assert_eq!(params.proposal_threshold, proposal_threshold);
    assert_eq!(params.voting_period, voting_period);
    assert_eq!(params.voting_delay, voting_delay);
}

#[test]
fn test_update_governance_params_not_admin() {
    let mut token = REBAZToken::init(ADMIN, 1000);
    assert_eq!(
        token.update_governance_params(USER1, 1, 2, 3),
        Err(Error::OnlyAdminCanUpdateGovernanceParams)
    );
}

#[test]
fn test_pause_blocks_transfers_not_exits() {
    let mut token = REBAZToken::init(ADMIN, 1_000_000);
    token.transfer(ADMIN, USER1, 10_000).unwrap();
    token.stake(USER1, 5_000, 7 * DAY, 0).unwrap();

    assert_eq!(token.pause(USER1), Err(Error::OnlyAdminCanPause));
    assert!(token.pause(ADMIN).unwrap());
    assert!(token.is_paused());

    // Rejected while paused: transfer, mint, burn, stake.
    assert_eq!(token.transfer(ADMIN, USER1, 1), Err(Error::ContractPaused));
    assert_eq!(token.mint(ADMIN, USER1, 1), Err(Error::ContractPaused));
    assert_eq!(token.burn(ADMIN, 1), Err(Error::ContractPaused));
    assert_eq!(token.stake(USER1, 1_000, 7 * DAY, 0), Err(Error::ContractPaused));

    // Deliberately still possible: withdraw and slashing.
    let (principal, reward) = token.withdraw(USER1, 0, 0).unwrap();
    assert_eq!((principal, reward), (5_000, 0));
    assert!(token.slash_validator(ADMIN, USER1, 100).unwrap());

    assert!(token.unpause(ADMIN).unwrap());
    assert!(!token.is_paused());
    assert!(token.transfer(ADMIN, USER1, 1).unwrap());
}

#[test]
fn test_withdraw_errors() {
    let mut token = REBAZToken::init(ADMIN, 1_000_000);
    token.transfer(ADMIN, USER1, 10_000).unwrap();
    token.stake(USER1, 5_000, 7 * DAY, 0).unwrap();

    assert_eq!(token.withdraw(USER1, 1, 0), Err(Error::StakeDoesNotExist));
    assert_eq!(token.withdraw(USER2, 0, 0), Err(Error::StakeDoesNotExist));
    token.withdraw(USER1, 0, 0).unwrap();
    assert_eq!(token.withdraw(USER1, 0, 0), Err(Error::StakeAlreadyWithdrawn));
}

// With the default 500 bps base rate, a 365-day stake earns the two bonuses
// (total 800 bps) over exactly one scaled year: 5000 * 800 * 10000 / 10^8.
#[test]
fn test_withdraw_full_year_reward() {
    let mut token = REBAZToken::init(ADMIN, 1_000_000);
    token.transfer(ADMIN, USER1, 10_000).unwrap();
    token.stake(USER1, 5_000, 365 * DAY, 0).unwrap();

    let supply_before = token.total_supply();
    let (_, _, end_time, _) = token.get_stake_info(USER1, 0, 0).unwrap();
    assert_eq!(end_time, 365 * DAY);

    let (principal, reward) = token.withdraw(USER1, 0, 365 * DAY).unwrap();
    assert_eq!(principal, 5_000);
    assert_eq!(reward, 400);
    assert_eq!(token.total_supply(), supply_before + 400);
    assert_eq!(token.balance(USER1), 5_000 + 5_000 + 400);
}

// The 180-day bonus alone: 600 bps over 180/365 scaled years (4931).
#[test]
fn test_reward_180_day_tier() {
    let mut token = REBAZToken::init(ADMIN, 10_000_000);
    token.transfer(ADMIN, USER1, 2_000_000).unwrap();
    token.stake(USER1, 1_000_000, 180 * DAY, 0).unwrap();

    let reward = token.calculate_reward(USER1, 0, 180 * DAY).unwrap();
    // duration_in_years_scaled = 180 * 86400 * 10000 / 31536000 = 4931
    assert_eq!(reward, 1_000_000 * 600 * 4931 / 100_000_000);
    assert_eq!(reward, 29_586);
}

#[test]
fn test_reward_zero_before_maturity() {
    let mut token = REBAZToken::init(ADMIN, 1_000_000);
    token.transfer(ADMIN, USER1, 10_000).unwrap();
    token.stake(USER1, 5_000, 365 * DAY, 0).unwrap();
    assert_eq!(token.calculate_reward(USER1, 0, 365 * DAY - 1).unwrap(), 0);
    assert_eq!(token.calculate_reward(USER1, 0, 365 * DAY).unwrap(), 400);
}

// Longer locks never pay less, for a fixed amount and base rate.
#[test]
fn test_reward_monotone_in_duration() {
    let durations = [7, 30, 90, 179, 180, 181, 364, 365];
    let mut last = 0u64;
    for days in durations {
        let mut token = REBAZToken::init(ADMIN, 1_000_000);
        token.transfer(ADMIN, USER1, 10_000).unwrap();
        token.stake(USER1, 5_000, days * DAY, 0).unwrap();
        let reward = token.calculate_reward(USER1, 0, days * DAY).unwrap();
        assert!(reward >= last);
        last = reward;
    }
}

#[test]
fn test_initial_scenario() {
    let token = REBAZToken::init(ADMIN, 1_000_000);
    assert_eq!(token.balance(ADMIN), 1_000_000);
    assert_eq!(token.total_supply(), 1_000_000);
}

#[test]
fn test_stake_then_early_withdraw_scenario() {
    let mut token = REBAZToken::init(ADMIN, 1_000_000);
    token.transfer(ADMIN, USER1, 10_000).unwrap();
    token.stake(USER1, 5_000, 7 * DAY, 0).unwrap();

    assert_eq!(token.balance(USER1), 5_000);
    assert_eq!(token.get_total_staked(USER1), 5_000);
    assert_eq!(token.get_stake_count(USER1), 1);

    let (principal, reward) = token.withdraw(USER1, 0, 0).unwrap();
    assert_eq!((principal, reward), (5_000, 0));
    assert_eq!(token.balance(USER1), 10_000);
    assert_eq!(token.get_total_staked(USER1), 0);
    assert_eq!(token.withdraw(USER1, 0, 7 * DAY), Err(Error::StakeAlreadyWithdrawn));
}

// Slashing 1000 from a validator with balance 200 and one active stake of
// 5000 empties the balance and takes the remaining 800 from the stake.
#[test]
fn test_slash_validator() {
    let mut token = REBAZToken::init(ADMIN, 1_000_000);
    token.transfer(ADMIN, USER1, 5_200).unwrap();
    token.stake(USER1, 5_000, 7 * DAY, 0).unwrap();
    assert_eq!(token.balance(USER1), 200);

    let supply_before = token.total_supply();
    assert!(token.slash_validator(ADMIN, USER1, 1_000).unwrap());

    assert_eq!(token.balance(USER1), 0);
    let (amount, _, _, _) = token.get_stake_info(USER1, 0, 0).unwrap();
    assert_eq!(amount, 4_200);
    assert_eq!(token.get_total_staked(USER1), 4_200);
    assert_eq!(token.total_supply(), supply_before - 1_000);
}

#[test]
fn test_slash_too_high() {
    let mut token = REBAZToken::init(ADMIN, 1_000_000);
    token.transfer(ADMIN, USER1, 5_200).unwrap();
    token.stake(USER1, 5_000, 7 * DAY, 0).unwrap();

    let result = token.slash_validator(ADMIN, USER1, 5_201);
    assert_eq!(result, Err(Error::SlashAmountTooHigh));
    assert_eq!(token.balance(USER1), 200);
    assert_eq!(token.get_total_staked(USER1), 5_000);
    assert_eq!(token.total_supply(), 1_000_000);
}

#[test]
fn test_slash_errors() {
    let mut token = REBAZToken::init(ADMIN, 1_000_000);
    assert_eq!(token.slash_validator(USER1, ADMIN, 10), Err(Error::OnlyAdminCanSlash));
    assert_eq!(token.slash_validator(ADMIN, USER1, 0), Err(Error::CannotSlashZero));
}

// Slashing consumes stakes most-recently-created first and marks a stake
// withdrawn once it is emptied.
#[test]
fn test_slash_most_recent_first() {
    let mut token = REBAZToken::init(ADMIN, 1_000_000);
    token.transfer(ADMIN, USER1, 3_000).unwrap();
    token.stake(USER1, 1_000, 7 * DAY, 0).unwrap();
    token.stake(USER1, 2_000, 7 * DAY, 0).unwrap();
    assert_eq!(token.balance(USER1), 0);

    assert!(token.slash_validator(ADMIN, USER1, 2_500).unwrap());

    // Stake 1 (the newer one, 2000) is fully consumed and closed; stake 0
    // loses the remaining 500.
    let (amount1, _, _, _) = token.get_stake_info(USER1, 1, 0).unwrap();
    assert_eq!(amount1, 0);
    assert_eq!(token.withdraw(USER1, 1, 0), Err(Error::StakeDoesNotExist));
    let (amount0, _, _, _) = token.get_stake_info(USER1, 0, 0).unwrap();
    assert_eq!(amount0, 500);
    assert_eq!(token.get_total_staked(USER1), 500);
    assert_eq!(token.total_supply(), 1_000_000 - 2_500);
}

// A zero-amount transfer succeeds without moving anything.
#[test]
fn test_transfer_zero_noop() {
    let mut token = REBAZToken::init(ADMIN, 1_000);
    assert!(token.transfer(USER1, USER2, 0).unwrap());
    assert_eq!(token.balance(USER1), 0);
    assert_eq!(token.balance(USER2), 0);
}

// Sequence ids are never reused: after a withdraw, a new stake gets the
// next id and the old record keeps its history.
#[test]
fn test_stake_ids_never_reused() {
    let mut token = REBAZToken::init(ADMIN, 1_000_000);
    token.transfer(ADMIN, USER1, 10_000).unwrap();
    token.stake(USER1, 1_000, 7 * DAY, 0).unwrap();
    token.withdraw(USER1, 0, 0).unwrap();
    token.stake(USER1, 2_000, 7 * DAY, 100).unwrap();
    assert_eq!(token.get_stake_count(USER1), 2);
    let (amount, start, _, _) = token.get_stake_info(USER1, 1, 100).unwrap();
    assert_eq!((amount, start), (2_000, 100));
}
