//! The reward distributor: prize pools, per-winner payouts, the claim
//! operation, and the transaction ledger.
//!
//! A `UserReward` walks `Pending -> Claimed`, the only user-triggered
//! transition; `Failed` is terminal. Claiming flips the status and then
//! credits the beneficiary's balance; a credit that fails (an unknown
//! identity) is not compensated — the status stays flipped, mirroring the
//! documented partial-failure hazard. The ledger records balance-affecting
//! events independently of reward state.

use vstd::prelude::*;
use vstd::pervasive::VecAdditionalExecFns;
use crate::errors::FantasyError;
use crate::users::UserProfile;
use crate::users::UserStore;
use crate::users::has_user;
use crate::users::user_idx;

verus! {

broadcast use vstd::prelude::Seq::lemma_filter_push;

/// Claim state of a reward. `Pending -> Claimed` is one-way; `Failed` is
/// terminal.
#[derive(Clone, Copy, PartialEq, Eq, Structural, Debug)]
pub enum RewardStatus {
    Pending,
    Claimed,
    Failed,
}

/// Kind of a ledger event.
#[derive(Clone, Copy, PartialEq, Eq, Structural, Debug)]
pub enum TransactionType {
    ContestWin,
    ContestEntry,
    Withdrawal,
    Deposit,
    Bonus,
}

/// Settlement state of a ledger event.
#[derive(Clone, Copy, PartialEq, Eq, Structural, Debug)]
pub enum TransactionStatus {
    Pending,
    Completed,
    Failed,
    Cancelled,
}

/// A payout owed to one contest winner. `contest_id` is `None` for bonus
/// rewards, which come from no contest.
#[derive(Clone, Copy, PartialEq, Eq, Debug)]
pub struct UserReward {
    pub id: u64,
    pub user_id: u64,
    pub contest_id: Option<u64>,
    pub amount: u64,
    pub rank: u32,
    pub status: RewardStatus,
    pub created_at: u64,
    pub claimed_at: Option<u64>,
}

/// One ledger line for a balance-affecting event, independent of any
/// reward's lifecycle.
#[derive(Clone, Copy, Debug)]
pub struct RewardTransaction {
    pub id: u64,
    pub user_id: u64,
    pub amount: u64,
    pub transaction_type: TransactionType,
    pub status: TransactionStatus,
    pub created_at: u64,
    pub completed_at: Option<u64>,
}

/// One row of a prize pool's distribution table. `percentage` is in
/// hundredths of a percent (basis points).
#[derive(Clone, Copy, Debug)]
pub struct PrizeDistribution {
    pub rank: u32,
    pub percentage: u32,
    pub amount: u64,
}

/// A contest's prize pool and its write-once `distributed` flag.
pub struct PrizePool {
    pub contest_id: u64,
    pub total_amount: u64,
    pub distribution: Vec<PrizeDistribution>,
    pub distributed: bool,
}

/// There is a prize pool for this contest.
pub open spec fn has_pool(ps: Seq<PrizePool>, contest_id: u64) -> bool {
    exists|i: int| 0 <= i < ps.len() && ps[i].contest_id == contest_id
}

/// The index of the prize pool for this contest.
pub open spec fn pool_idx(ps: Seq<PrizePool>, contest_id: u64) -> int {
    choose|i: int| 0 <= i < ps.len() && ps[i].contest_id == contest_id
}

/// There is a reward with this id.
pub open spec fn has_reward(rs: Seq<UserReward>, id: u64) -> bool {
    exists|i: int| 0 <= i < rs.len() && rs[i].id == id
}

/// The index of the reward with this id.
pub open spec fn reward_idx(rs: Seq<UserReward>, id: u64) -> int {
    choose|i: int| 0 <= i < rs.len() && rs[i].id == id
}

/// The summed amount of every claimed reward.
pub open spec fn total_claimed(rs: Seq<UserReward>) -> int
    decreases rs.len(),
{
    if rs.len() == 0 {
        0
    } else {
        total_claimed(rs.drop_last()) + if rs.last().status == RewardStatus::Claimed {
            rs.last().amount as int
        } else {
            0
        }
    }
}

/// Prize pools, rewards, and the transaction ledger.
pub struct RewardStore {
    pub prize_pools: Vec<PrizePool>,
    pub rewards: Vec<UserReward>,
    pub transactions: Vec<RewardTransaction>,
    pub next_reward_id: u64,
    pub next_transaction_id: u64,
}

impl RewardStore {
    /// Table invariant: pool contest ids are unique; reward and
    /// transaction ids are unique and below their counters.
    pub open spec fn wf(self) -> bool {
        &&& forall|i: int, j: int|
            0 <= i < j < self.prize_pools@.len() ==> self.prize_pools@[i].contest_id
                != self.prize_pools@[j].contest_id
        &&& forall|i: int, j: int|
            0 <= i < j < self.rewards@.len() ==> self.rewards@[i].id != self.rewards@[j].id
        &&& forall|i: int|
            0 <= i < self.rewards@.len() ==> self.rewards@[i].id < self.next_reward_id
        &&& forall|i: int, j: int|
            0 <= i < j < self.transactions@.len() ==> self.transactions@[i].id
                != self.transactions@[j].id
        &&& forall|i: int|
            0 <= i < self.transactions@.len() ==> self.transactions@[i].id
                < self.next_transaction_id
    }

    /// An empty store.
    pub fn new() -> (r: Self)
        ensures
            r.wf(),
            r.prize_pools@ =~= Seq::<PrizePool>::empty(),
            r.rewards@ =~= Seq::<UserReward>::empty(),
            r.transactions@ =~= Seq::<RewardTransaction>::empty(),
            r.next_reward_id == 0,
            r.next_transaction_id == 0,
    {
        RewardStore {
            prize_pools: Vec::new(),
            rewards: Vec::new(),
            transactions: Vec::new(),
            next_reward_id: 0,
            next_transaction_id: 0,
        }
    }

    /// Create (or overwrite) the prize pool of a contest, with the
    /// `distributed` flag cleared.
    pub fn create_prize_pool(
        &mut self,
        contest_id: u64,
        total_amount: u64,
        distribution: Vec<PrizeDistribution>,
    )
        requires
            old(self).wf(),
        ensures
            final(self).wf(),
            final(self).rewards@ == old(self).rewards@,
            final(self).transactions@ == old(self).transactions@,
            final(self).next_reward_id == old(self).next_reward_id,
            final(self).next_transaction_id == old(self).next_transaction_id,
            final(self).prize_pools@.len() == if has_pool(old(self).prize_pools@, contest_id) {
                old(self).prize_pools@.len()
            } else {
                old(self).prize_pools@.len() + 1
            },
            ({
                let i = if has_pool(old(self).prize_pools@, contest_id) {
                    pool_idx(old(self).prize_pools@, contest_id)
                } else {
                    old(self).prize_pools@.len() as int
                };
                &&& forall|j: int|
                    0 <= j < old(self).prize_pools@.len() && j != i ==> final(self).prize_pools@[j] == old(self).prize_pools@[j]
                &&& final(self).prize_pools@[i].contest_id == contest_id
                &&& final(self).prize_pools@[i].total_amount == total_amount
                &&& final(self).prize_pools@[i].distribution@ == distribution@
                &&& final(self).prize_pools@[i].distributed == false
            }),
    {
        let pool = PrizePool { contest_id, total_amount, distribution, distributed: false };
        let mut i: usize = 0;
        let mut found: Option<usize> = None;
        #[verifier::loop_isolation(false)]
        while i < self.prize_pools.len() && found.is_none()
            invariant
                i <= self.prize_pools@.len(),
                match found {
                    Some(k) => k < self.prize_pools@.len()
                        && self.prize_pools@[k as int].contest_id == contest_id,
                    None => forall|j: int|
                        0 <= j < i ==> self.prize_pools@[j].contest_id != contest_id,
                },
            decreases self.prize_pools@.len() - i, (if found is None { 1int } else { 0int }),
        {
            if self.prize_pools[i].contest_id == contest_id {
                found = Some(i);
            } else {
                i += 1;
            }
        }
        match found {
            Some(k) => {
                proof {
                    assert(has_pool(self.prize_pools@, contest_id));
                    assert(pool_idx(self.prize_pools@, contest_id) == k);
                }
                self.prize_pools.set(k, pool);
            },
            None => {
                self.prize_pools.push(pool);
            },
        }
    }

    /// Look a contest's prize pool up.
    pub fn get_prize_pool(&self, contest_id: u64) -> (r: Option<&PrizePool>)
        requires
            self.wf(),
        ensures
            match r {
                Some(p) => has_pool(self.prize_pools@, contest_id) && *p
                    == self.prize_pools@[pool_idx(self.prize_pools@, contest_id)],
                None => !has_pool(self.prize_pools@, contest_id),
            },
    {
        let mut i: usize = 0;
        #[verifier::loop_isolation(false)]
        while i < self.prize_pools.len()
            invariant
                i <= self.prize_pools@.len(),
                forall|j: int| 0 <= j < i ==> self.prize_pools@[j].contest_id != contest_id,
            decreases self.prize_pools@.len() - i,
        {
            if self.prize_pools[i].contest_id == contest_id {
                proof {
                    assert(has_pool(self.prize_pools@, contest_id));
                    assert(pool_idx(self.prize_pools@, contest_id) == i);
                }
                return Some(&self.prize_pools[i]);
            }
            i += 1;
        }
        None
    }

    /// Create a `Pending` reward for each caller-supplied winner (identity,
    /// rank, amount) and mark the contest's prize pool distributed —
    /// unconditionally, even when the winner list is empty. The winner list
    /// is not derived from finalization; the caller sequences the two.
    /// Returns the created rewards.
    pub fn distribute_contest_rewards(
        &mut self,
        contest_id: u64,
        winners: &Vec<(u64, u32, u64)>,
        now: u64,
    ) -> (r: Vec<UserReward>)
        requires
            old(self).wf(),
            old(self).next_reward_id + winners@.len() <= u64::MAX,
        ensures
            final(self).wf(),
            final(self).transactions@ == old(self).transactions@,
            final(self).next_transaction_id == old(self).next_transaction_id,
            final(self).next_reward_id == old(self).next_reward_id + winners@.len(),
            r@.len() == winners@.len(),
            forall|k: int|
                0 <= k < winners@.len() ==> r@[k] == (UserReward {
                    id: (old(self).next_reward_id + k) as u64,
                    user_id: winners@[k].0,
                    contest_id: Some(contest_id),
                    amount: winners@[k].2,
                    rank: winners@[k].1,
                    status: RewardStatus::Pending,
                    created_at: now,
                    claimed_at: None,
                }),
            final(self).rewards@ == old(self).rewards@ + r@,
            !has_pool(old(self).prize_pools@, contest_id) ==> final(self).prize_pools@ == old(
                self,
            ).prize_pools@,
            has_pool(old(self).prize_pools@, contest_id) ==> {
                let i = pool_idx(old(self).prize_pools@, contest_id);
                &&& final(self).prize_pools@.len() == old(self).prize_pools@.len()
                &&& forall|j: int|
                    0 <= j < old(self).prize_pools@.len() && j != i ==> final(self).prize_pools@[j] == old(self).prize_pools@[j]
                &&& final(self).prize_pools@[i].contest_id == contest_id
                &&& final(self).prize_pools@[i].total_amount == old(
                    self,
                ).prize_pools@[i].total_amount
                &&& final(self).prize_pools@[i].distribution@ == old(
                    self,
                ).prize_pools@[i].distribution@
                &&& final(self).prize_pools@[i].distributed == true
            },
    {
        let mut created: Vec<UserReward> = Vec::new();
        let mut k: usize = 0;
        #[verifier::loop_isolation(false)]
        while k < winners.len()
            invariant
                k <= winners@.len(),
                self.next_reward_id == old(self).next_reward_id + k,
                created@.len() == k,
                forall|q: int|
                    0 <= q < k ==> created@[q] == (UserReward {
                        id: (old(self).next_reward_id + q) as u64,
                        user_id: winners@[q].0,
                        contest_id: Some(contest_id),
                        amount: winners@[q].2,
                        rank: winners@[q].1,
                        status: RewardStatus::Pending,
                        created_at: now,
                        claimed_at: None,
                    }),
                self.rewards@ == old(self).rewards@ + created@,
                self.prize_pools@ == old(self).prize_pools@,
                self.transactions@ == old(self).transactions@,
                self.next_transaction_id == old(self).next_transaction_id,
            decreases winners@.len() - k,
        {
            let (user_id, rank, amount) = winners[k];
            let id = self.next_reward_id;
            self.next_reward_id = id + 1;
            let reward = UserReward {
                id,
                user_id,
                contest_id: Some(contest_id),
                amount,
                rank,
                status: RewardStatus::Pending,
                created_at: now,
                claimed_at: None,
            };
            self.rewards.push(reward);
            created.push(reward);
            proof {
                assert(self.rewards@ =~= old(self).rewards@ + created@);
            }
            k += 1;
        }
        let mut i: usize = 0;
        let mut found: Option<usize> = None;
        #[verifier::loop_isolation(false)]
        while i < self.prize_pools.len() && found.is_none()
            invariant
                i <= self.prize_pools@.len(),
                match found {
                    Some(k2) => k2 < self.prize_pools@.len()
                        && self.prize_pools@[k2 as int].contest_id == contest_id,
                    None => forall|j: int|
                        0 <= j < i ==> self.prize_pools@[j].contest_id != contest_id,
                },
            decreases self.prize_pools@.len() - i, (if found is None { 1int } else { 0int }),
        {
            if self.prize_pools[i].contest_id == contest_id {
                found = Some(i);
            } else {
                i += 1;
            }
        }
        match found {
            None => {
                proof {
                    assert(!has_pool(self.prize_pools@, contest_id));
                }
            },
            Some(pi) => {
                proof {
                    assert(has_pool(self.prize_pools@, contest_id));
                    assert(pool_idx(self.prize_pools@, contest_id) == pi);
                }
                let mut pool = self.prize_pools.remove(pi);
                pool.distributed = true;
                self.prize_pools.insert(pi, pool);
                proof {
                    assert(self.prize_pools@ =~= old(self).prize_pools@.update(
                        pi as int,
                        self.prize_pools@[pi as int],
                    ));
                }
            },
        }
        created
    }

    /// Locate a reward by id across every user's rewards (the linear
    /// scan).
    pub fn find_user_reward(&self, reward_id: u64) -> (r: Option<UserReward>)
        requires
            self.wf(),
        ensures
            match r {
                Some(w) => has_reward(self.rewards@, reward_id) && w == self.rewards@[reward_idx(
                    self.rewards@,
                    reward_id,
                )],
                None => !has_reward(self.rewards@, reward_id),
            },
    {
        let mut i: usize = 0;
        #[verifier::loop_isolation(false)]
        while i < self.rewards.len()
            invariant
                i <= self.rewards@.len(),
                forall|j: int| 0 <= j < i ==> self.rewards@[j].id != reward_id,
            decreases self.rewards@.len() - i,
        {
            if self.rewards[i].id == reward_id {
                proof {
                    assert(has_reward(self.rewards@, reward_id));
                    assert(reward_idx(self.rewards@, reward_id) == i);
                }
                return Some(self.rewards[i]);
            }
            i += 1;
        }
        None
    }

    /// Replace the stored reward that shares the given record's id; a
    /// record with an unknown id changes nothing.
    fn update_user_reward(&mut self, updated: UserReward)
        requires
            old(self).wf(),
        ensures
            final(self).wf(),
            final(self).prize_pools@ == old(self).prize_pools@,
            final(self).transactions@ == old(self).transactions@,
            final(self).next_reward_id == old(self).next_reward_id,
            final(self).next_transaction_id == old(self).next_transaction_id,
            !has_reward(old(self).rewards@, updated.id) ==> final(self).rewards@ == old(
                self,
            ).rewards@,
            has_reward(old(self).rewards@, updated.id) ==> final(self).rewards@ == old(
                self,
            ).rewards@.update(reward_idx(old(self).rewards@, updated.id), updated),
    {
        let mut i: usize = 0;
        let mut found: Option<usize> = None;
        #[verifier::loop_isolation(false)]
        while i < self.rewards.len() && found.is_none()
            invariant
                i <= self.rewards@.len(),
                match found {
                    Some(k) => k < self.rewards@.len() && self.rewards@[k as int].id
                        == updated.id,
                    None => forall|j: int| 0 <= j < i ==> self.rewards@[j].id != updated.id,
                },
            decreases self.rewards@.len() - i, (if found is None { 1int } else { 0int }),
        {
            if self.rewards[i].id == updated.id {
                found = Some(i);
            } else {
                i += 1;
            }
        }
        match found {
            None => {},
            Some(k) => {
                proof {
                    assert(has_reward(self.rewards@, updated.id));
                    assert(reward_idx(self.rewards@, updated.id) == k);
                }
                self.rewards.set(k, updated);
            },
        }
    }

    /// Claim a reward as its beneficiary's payout.
    ///
    /// Fails `RewardNotFound` for an unknown id and `AlreadyClaimedOrFailed`
    /// unless the status is `Pending`; neither failure mutates anything.
    /// Otherwise the status flips to `Claimed`, the claim time is stamped,
    /// and the beneficiary's balance is credited — a credit to an unknown
    /// identity fails silently with no rollback of the status flip, so a
    /// claimed reward can be left uncredited.
    pub fn claim_reward(&mut self, users: &mut UserStore, reward_id: u64, now: u64) -> (r: Result<
        UserReward,
        FantasyError,
    >)
        requires
            old(self).wf(),
            old(users).wf(),
            has_reward(old(self).rewards@, reward_id) && has_user(
                old(users).users@,
                old(self).rewards@[reward_idx(old(self).rewards@, reward_id)].user_id,
            ) ==> old(users).users@[user_idx(
                old(users).users@,
                old(self).rewards@[reward_idx(old(self).rewards@, reward_id)].user_id,
            )].balance + old(self).rewards@[reward_idx(old(self).rewards@, reward_id)].amount
                <= u64::MAX,
        ensures
            final(self).wf(),
            final(users).wf(),
            final(self).prize_pools@ == old(self).prize_pools@,
            final(self).transactions@ == old(self).transactions@,
            final(self).next_reward_id == old(self).next_reward_id,
            final(self).next_transaction_id == old(self).next_transaction_id,
            final(users).notifications@ == old(users).notifications@,
            final(users).next_notification_id == old(users).next_notification_id,
            !has_reward(old(self).rewards@, reward_id) ==> r == Err::<UserReward, FantasyError>(
                FantasyError::RewardNotFound,
            ) && final(self).rewards@ == old(self).rewards@ && final(users).users@ == old(
                users,
            ).users@,
            ({
                let i = reward_idx(old(self).rewards@, reward_id);
                let w = old(self).rewards@[i];
                &&& (has_reward(old(self).rewards@, reward_id) && w.status
                    != RewardStatus::Pending ==> r == Err::<UserReward, FantasyError>(
                    FantasyError::AlreadyClaimedOrFailed,
                ) && final(self).rewards@ == old(self).rewards@ && final(users).users@ == old(
                    users,
                ).users@)
                &&& (has_reward(old(self).rewards@, reward_id) && w.status
                    == RewardStatus::Pending ==> {
                    let claimed = UserReward {
                        status: RewardStatus::Claimed,
                        claimed_at: Some(now),
                        ..w
                    };
                    &&& r == Ok::<UserReward, FantasyError>(claimed)
                    &&& final(self).rewards@ == old(self).rewards@.update(i, claimed)
                    &&& (!has_user(old(users).users@, w.user_id) ==> final(users).users@ == old(
                        users,
                    ).users@)
                    &&& (has_user(old(users).users@, w.user_id) ==> {
                        let ui = user_idx(old(users).users@, w.user_id);
                        let p = old(users).users@[ui];
                        final(users).users@ == old(users).users@.update(
                            ui,
                            (UserProfile {
                                balance: (p.balance + w.amount) as u64,
                                updated_at: now,
                                ..p
                            }),
                        )
                    })
                })
            }),
    {
        let reward = match self.find_user_reward(reward_id) {
            None => {
                return Err(FantasyError::RewardNotFound);
            },
            Some(w) => w,
        };
        if !matches!(reward.status, RewardStatus::Pending) {
            return Err(FantasyError::AlreadyClaimedOrFailed);
        }
        let claimed = UserReward {
            id: reward.id,
            user_id: reward.user_id,
            contest_id: reward.contest_id,
            amount: reward.amount,
            rank: reward.rank,
            status: RewardStatus::Claimed,
            created_at: reward.created_at,
            claimed_at: Some(now),
        };
        self.update_user_reward(claimed);
        match users.add_balance(reward.user_id, reward.amount, now) {
            Ok(()) => {},
            Err(_) => {},
        }
        Ok(claimed)
    }

    /// The rewards of one user, in creation order.
    pub fn get_user_rewards(&self, user_id: u64) -> (r: Vec<UserReward>)
        ensures
            r@ == self.rewards@.filter(|w: UserReward| w.user_id == user_id),
    {
        let ghost pred = |w: UserReward| w.user_id == user_id;
        let mut out: Vec<UserReward> = Vec::new();
        let mut i: usize = 0;
        #[verifier::loop_isolation(false)]
        while i < self.rewards.len()
            invariant
                i <= self.rewards@.len(),
                out@ == self.rewards@.take(i as int).filter(pred),
            decreases self.rewards@.len() - i,
        {
            proof {
                let s = self.rewards@;
                assert(s.take(i + 1) =~= s.take(i as int).push(s[i as int]));
                s.take(i as int).lemma_filter_push(s[i as int], pred);
            }
            if self.rewards[i].user_id == user_id {
                out.push(self.rewards[i]);
            }
            i += 1;
        }
        proof {
            assert(self.rewards@.take(self.rewards@.len() as int) =~= self.rewards@);
        }
        out
    }

    /// The ledger lines of one user, in creation order.
    pub fn get_user_transactions(&self, user_id: u64) -> (r: Vec<RewardTransaction>)
        ensures
            r@ == self.transactions@.filter(|t: RewardTransaction| t.user_id == user_id),
    {
        let ghost pred = |t: RewardTransaction| t.user_id == user_id;
        let mut out: Vec<RewardTransaction> = Vec::new();
        let mut i: usize = 0;
        #[verifier::loop_isolation(false)]
        while i < self.transactions.len()
            invariant
                i <= self.transactions@.len(),
                out@ == self.transactions@.take(i as int).filter(pred),
            decreases self.transactions@.len() - i,
        {
            proof {
                let s = self.transactions@;
                assert(s.take(i + 1) =~= s.take(i as int).push(s[i as int]));
                s.take(i as int).lemma_filter_push(s[i as int], pred);
            }
            if self.transactions[i].user_id == user_id {
                out.push(self.transactions[i]);
            }
            i += 1;
        }
        proof {
            assert(self.transactions@.take(self.transactions@.len() as int)
                =~= self.transactions@);
        }
        out
    }

    /// The still-pending rewards of one user, in creation order.
    pub fn get_pending_rewards(&self, user_id: u64) -> (r: Vec<UserReward>)
        ensures
            r@ == self.rewards@.filter(
                |w: UserReward| w.user_id == user_id && w.status == RewardStatus::Pending,
            ),
    {
        let ghost pred = |w: UserReward|
            w.user_id == user_id && w.status == RewardStatus::Pending;
        let mut out: Vec<UserReward> = Vec::new();
        let mut i: usize = 0;
        #[verifier::loop_isolation(false)]
        while i < self.rewards.len()
            invariant
                i <= self.rewards@.len(),
                out@ == self.rewards@.take(i as int).filter(pred),
            decreases self.rewards@.len() - i,
        {
            proof {
                let s = self.rewards@;
                assert(s.take(i + 1) =~= s.take(i as int).push(s[i as int]));
                s.take(i as int).lemma_filter_push(s[i as int], pred);
            }
            if self.rewards[i].user_id == user_id && matches!(
                self.rewards[i].status,
                RewardStatus::Pending,
            ) {
                out.push(self.rewards[i]);
            }
            i += 1;
        }
        proof {
            assert(self.rewards@.take(self.rewards@.len() as int) =~= self.rewards@);
        }
        out
    }

    /// Record one ledger line; returns its fresh id.
    fn create_transaction(
        &mut self,
        user_id: u64,
        amount: u64,
        transaction_type: TransactionType,
        status: TransactionStatus,
        now: u64,
    ) -> (r: u64)
        requires
            old(self).wf(),
            old(self).next_transaction_id < u64::MAX,
        ensures
            final(self).wf(),
            final(self).prize_pools@ == old(self).prize_pools@,
            final(self).rewards@ == old(self).rewards@,
            final(self).next_reward_id == old(self).next_reward_id,
            r == old(self).next_transaction_id,
            final(self).next_transaction_id == old(self).next_transaction_id + 1,
            final(self).transactions@ == old(self).transactions@.push(
                (RewardTransaction {
                    id: r,
                    user_id: user_id,
                    amount: amount,
                    transaction_type: transaction_type,
                    status: status,
                    created_at: now,
                    completed_at: None,
                }),
            ),
    {
        let id = self.next_transaction_id;
        self.next_transaction_id = id + 1;
        let t = RewardTransaction {
            id,
            user_id,
            amount,
            transaction_type,
            status,
            created_at: now,
            completed_at: None,
        };
        self.transactions.push(t);
        id
    }

    /// Grant a user a pending bonus reward tied to no contest, and record
    /// a pending bonus ledger line. The reason is advisory and not stored.
    pub fn create_bonus_reward(&mut self, user_id: u64, amount: u64, reason: String, now: u64) -> (
        r: UserReward)
        requires
            old(self).wf(),
            old(self).next_reward_id < u64::MAX,
            old(self).next_transaction_id < u64::MAX,
        ensures
            final(self).wf(),
            final(self).prize_pools@ == old(self).prize_pools@,
            r == (UserReward {
                id: old(self).next_reward_id,
                user_id: user_id,
                contest_id: None,
                amount: amount,
                rank: 0,
                status: RewardStatus::Pending,
                created_at: now,
                claimed_at: None,
            }),
            final(self).rewards@ == old(self).rewards@.push(r),
            final(self).next_reward_id == old(self).next_reward_id + 1,
            final(self).next_transaction_id == old(self).next_transaction_id + 1,
            final(self).transactions@ == old(self).transactions@.push(
                (RewardTransaction {
                    id: old(self).next_transaction_id,
                    user_id: user_id,
                    amount: amount,
                    transaction_type: TransactionType::Bonus,
                    status: TransactionStatus::Pending,
                    created_at: now,
                    completed_at: None,
                }),
            ),
    {
        let _ = reason;
        let id = self.next_reward_id;
        self.next_reward_id = id + 1;
        let reward = UserReward {
            id,
            user_id,
            contest_id: None,
            amount,
            rank: 0,
            status: RewardStatus::Pending,
            created_at: now,
            claimed_at: None,
        };
        self.rewards.push(reward);
        self.create_transaction(
            user_id,
            amount,
            TransactionType::Bonus,
            TransactionStatus::Pending,
            now,
        );
        reward
    }

    /// The summed amount of every claimed reward.
    pub fn get_total_rewards_distributed(&self) -> (r: u128)
        ensures
            r == total_claimed(self.rewards@),
    {
        let mut total: u128 = 0;
        let mut i: usize = 0;
        #[verifier::loop_isolation(false)]
        while i < self.rewards.len()
            invariant
                i <= self.rewards@.len(),
                total == total_claimed(self.rewards@.take(i as int)),
                total <= (i as int) * (u64::MAX as int),
            decreases self.rewards@.len() - i,
        {
            proof {
                assert(self.rewards@.take(i + 1).drop_last() =~= self.rewards@.take(i as int));
                assert(self.rewards@.take(i + 1).last() == self.rewards@[i as int]);
            }
            if matches!(self.rewards[i].status, RewardStatus::Claimed) {
                total = total + (self.rewards[i].amount as u128);
            }
            i += 1;
        }
        proof {
            assert(self.rewards@.take(self.rewards@.len() as int) =~= self.rewards@);
        }
        total
    }

    /// How many rewards exist, over all users.
    pub fn get_reward_count(&self) -> (r: u64)
        ensures
            r == self.rewards@.len(),
    {
        self.rewards.len() as u64
    }

    /// How many ledger lines exist.
    pub fn get_transaction_count(&self) -> (r: u64)
        ensures
            r == self.transactions@.len(),
    {
        self.transactions.len() as u64
    }
}

} // verus!
