use fantasy_engine::errors::FantasyError;
use fantasy_engine::rewards::{PrizeDistribution, RewardStatus, RewardStore, TransactionStatus, TransactionType};
use fantasy_engine::users::UserStore;

fn users_with(ids: &[u64]) -> UserStore {
    let mut users = UserStore::new();
    for &id in ids {
        users
            .register_user(id, format!("user{}", id), None, None, 10)
            .unwrap();
    }
    users
}

#[test]
fn prize_pool_create_and_overwrite() {
    let mut rewards = RewardStore::new();
    rewards.create_prize_pool(
        7,
        1_000,
        vec![PrizeDistribution { rank: 1, percentage: 10_000, amount: 1_000 }],
    );
    let p = rewards.get_prize_pool(7).unwrap();
    assert_eq!(p.total_amount, 1_000);
    assert!(!p.distributed);
    assert_eq!(p.distribution.len(), 1);
    rewards.create_prize_pool(7, 2_000, Vec::new());
    let p2 = rewards.get_prize_pool(7).unwrap();
    assert_eq!(p2.total_amount, 2_000);
    assert!(p2.distribution.is_empty());
    assert!(rewards.get_prize_pool(8).is_none());
}

#[test]
fn distribute_creates_pending_rewards_and_flags_pool() {
    let mut rewards = RewardStore::new();
    rewards.create_prize_pool(7, 300, Vec::new());
    let winners = vec![(1u64, 1u32, 200u64), (2u64, 2u32, 100u64)];
    let created = rewards.distribute_contest_rewards(7, &winners, 500);
    assert_eq!(created.len(), 2);
    assert_eq!(created[0].user_id, 1);
    assert_eq!(created[0].rank, 1);
    assert_eq!(created[0].amount, 200);
    assert_eq!(created[0].status, RewardStatus::Pending);
    assert_eq!(created[0].contest_id, Some(7));
    assert_eq!(created[0].claimed_at, None);
    assert_eq!(created[1].id, created[0].id + 1);
    assert!(rewards.get_prize_pool(7).unwrap().distributed);
    assert_eq!(rewards.get_reward_count(), 2);
}

#[test]
fn distribute_with_no_winners_still_flags_pool() {
    let mut rewards = RewardStore::new();
    rewards.create_prize_pool(9, 300, Vec::new());
    let created = rewards.distribute_contest_rewards(9, &Vec::new(), 500);
    assert!(created.is_empty());
    assert_eq!(rewards.get_reward_count(), 0);
    // The flag flips unconditionally, even with nothing distributed.
    assert!(rewards.get_prize_pool(9).unwrap().distributed);
}

#[test]
fn claim_credits_the_beneficiary_once() {
    let mut rewards = RewardStore::new();
    let mut users = users_with(&[1]);
    let created = rewards.distribute_contest_rewards(7, &vec![(1u64, 1u32, 250u64)], 500);
    let rid = created[0].id;
    let claimed = rewards.claim_reward(&mut users, rid, 600).unwrap();
    assert_eq!(claimed.status, RewardStatus::Claimed);
    assert_eq!(claimed.claimed_at, Some(600));
    assert_eq!(users.get_user_profile(1).unwrap().balance, 1_250);
    let stored = rewards.find_user_reward(rid).unwrap();
    assert_eq!(stored.status, RewardStatus::Claimed);
}

#[test]
fn claim_of_claimed_reward_fails_without_mutation() {
    let mut rewards = RewardStore::new();
    let mut users = users_with(&[1]);
    let created = rewards.distribute_contest_rewards(7, &vec![(1u64, 1u32, 250u64)], 500);
    let rid = created[0].id;
    rewards.claim_reward(&mut users, rid, 600).unwrap();
    let balance_after_first = users.get_user_profile(1).unwrap().balance;
    let r = rewards.claim_reward(&mut users, rid, 700);
    assert_eq!(r, Err(FantasyError::AlreadyClaimedOrFailed));
    // No second credit, no new claim time.
    assert_eq!(users.get_user_profile(1).unwrap().balance, balance_after_first);
    assert_eq!(rewards.find_user_reward(rid).unwrap().claimed_at, Some(600));
}

#[test]
fn claim_of_unknown_reward_fails() {
    let mut rewards = RewardStore::new();
    let mut users = users_with(&[1]);
    assert_eq!(
        rewards.claim_reward(&mut users, 123, 600),
        Err(FantasyError::RewardNotFound)
    );
    assert_eq!(users.get_user_profile(1).unwrap().balance, 1_000);
}

#[test]
fn claim_for_unknown_identity_flips_status_without_credit() {
    let mut rewards = RewardStore::new();
    let mut users = users_with(&[1]);
    // The reward's beneficiary never registered: the credit fails, the
    // status flip stays with nothing compensated.
    let created = rewards.distribute_contest_rewards(7, &vec![(55u64, 1u32, 250u64)], 500);
    let rid = created[0].id;
    let claimed = rewards.claim_reward(&mut users, rid, 600).unwrap();
    assert_eq!(claimed.status, RewardStatus::Claimed);
    assert_eq!(users.get_user_count(), 1);
    assert_eq!(users.get_user_profile(1).unwrap().balance, 1_000);
}

#[test]
fn pending_rewards_filter_out_claimed_ones() {
    let mut rewards = RewardStore::new();
    let mut users = users_with(&[1]);
    let created =
        rewards.distribute_contest_rewards(7, &vec![(1u64, 1u32, 100u64), (1u64, 2u32, 50u64)], 500);
    rewards.claim_reward(&mut users, created[0].id, 600).unwrap();
    let pending = rewards.get_pending_rewards(1);
    assert_eq!(pending.len(), 1);
    assert_eq!(pending[0].id, created[1].id);
    assert_eq!(rewards.get_user_rewards(1).len(), 2);
}

#[test]
fn bonus_reward_writes_a_ledger_line() {
    let mut rewards = RewardStore::new();
    let bonus = rewards.create_bonus_reward(4, 77, "signup gift".to_string(), 900);
    assert_eq!(bonus.contest_id, None);
    assert_eq!(bonus.rank, 0);
    assert_eq!(bonus.status, RewardStatus::Pending);
    assert_eq!(rewards.get_reward_count(), 1);
    assert_eq!(rewards.get_transaction_count(), 1);
    let lines = rewards.get_user_transactions(4);
    assert_eq!(lines.len(), 1);
    assert_eq!(lines[0].amount, 77);
    assert_eq!(lines[0].transaction_type, TransactionType::Bonus);
    assert_eq!(lines[0].status, TransactionStatus::Pending);
    assert_eq!(lines[0].completed_at, None);
    assert!(rewards.get_user_transactions(5).is_empty());
}

#[test]
fn total_distributed_counts_claimed_amounts_only() {
    let mut rewards = RewardStore::new();
    let mut users = users_with(&[1, 2]);
    let created =
        rewards.distribute_contest_rewards(7, &vec![(1u64, 1u32, 300u64), (2u64, 2u32, 120u64)], 500);
    assert_eq!(rewards.get_total_rewards_distributed(), 0);
    rewards.claim_reward(&mut users, created[0].id, 600).unwrap();
    assert_eq!(rewards.get_total_rewards_distributed(), 300);
    rewards.claim_reward(&mut users, created[1].id, 601).unwrap();
    assert_eq!(rewards.get_total_rewards_distributed(), 420);
}
