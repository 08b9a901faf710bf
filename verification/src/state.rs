//! The contract state: construction, read-only queries, the pending
//! event queue, and the reward-accrual engine.

use vstd::pervasive::VecAdditionalExecFns;
use vstd::prelude::*;

use crate::model::{
    accrue_overflows, accrue_transition, accrued, accrued_info, distinct_accounts, emitted_reward,
    has_staker, lemma_index_unique, lemma_sum_update, lemma_update_same_account, pending_rewards,
    staker_index, staker_lookup, staker_share, wf, LedgerV,
};
use crate::types::{AccountId, Balance, Error, Event, Proposal, StakerEntry, StakerInfo};

verus! {

/// DAO-governance contract state: a staking pool with proportional
/// time-weighted reward accrual, and timed, quorum-gated proposals.
///
/// The hosting environment passes the caller account and the current
/// value of its monotonic logical clock to each operation, and drains
/// [`Self::take_events`] after mutations commit.
pub struct DevKitShowcase {
    /// Governance-token reference, fixed at construction.
    pub governance_token: AccountId,
    /// Proposals; the proposal with id `i` is at index `i`.
    pub proposals: Vec<Proposal>,
    /// Number of proposals ever created; the next id.
    pub proposal_count: u32,
    /// Length of each proposal's voting window.
    pub voting_period: u64,
    /// Minimum combined tally for a proposal to be executable.
    pub quorum_threshold: Balance,
    /// Total staked principal over all records.
    pub staking_pool: Balance,
    /// Per-account stake records; accounts are distinct.
    pub stakers: Vec<StakerEntry>,
    /// Reward units emitted per unit time.
    pub reward_rate: Balance,
    /// Timestamp of the most recent global accrual pass.
    pub last_reward_update: u64,
    /// Observer notifications queued after commits.
    pub events: Vec<Event>,
}

impl View for DevKitShowcase {
    type V = LedgerV;

    open spec fn view(&self) -> LedgerV {
        LedgerV {
            governance_token: self.governance_token,
            proposals: self.proposals@.map_values(|p: Proposal| p@),
            proposal_count: self.proposal_count,
            voting_period: self.voting_period,
            quorum_threshold: self.quorum_threshold,
            staking_pool: self.staking_pool,
            stakers: self.stakers@,
            reward_rate: self.reward_rate,
            last_reward_update: self.last_reward_update,
        }
    }
}

impl DevKitShowcase {
    /// A fresh contract with an empty pool, no proposals and no pending
    /// events. `now` is the host clock at construction.
    pub fn new(
        governance_token: AccountId,
        voting_period: u64,
        quorum_threshold: Balance,
        reward_rate: Balance,
        now: u64,
    ) -> (r: Self)
        ensures
            wf(r@),
            r@ == (LedgerV {
                governance_token,
                proposals: Seq::empty(),
                proposal_count: 0,
                voting_period,
                quorum_threshold,
                staking_pool: 0,
                stakers: Seq::empty(),
                reward_rate,
                last_reward_update: now,
            }),
            r.events@ == Seq::<Event>::empty(),
    {
        let r = DevKitShowcase {
            governance_token,
            proposals: Vec::new(),
            proposal_count: 0,
            voting_period,
            quorum_threshold,
            staking_pool: 0,
            stakers: Vec::new(),
            reward_rate,
            last_reward_update: now,
            events: Vec::new(),
        };
        proof {
            assert(r@.proposals =~= Seq::<crate::types::ProposalV>::empty());
            assert(r@ =~= (LedgerV {
                governance_token,
                proposals: Seq::empty(),
                proposal_count: 0,
                voting_period,
                quorum_threshold,
                staking_pool: 0,
                stakers: Seq::empty(),
                reward_rate,
                last_reward_update: now,
            }));
        }
        r
    }

    /// Index of the caller's stake record, if one exists.
    pub(crate) fn find_staker(&self, account: AccountId) -> (r: Option<usize>)
        requires
            distinct_accounts(self.stakers@),
        ensures
            match r {
                Some(i) => i < self.stakers@.len() && self.stakers@[i as int].account == account
                    && has_staker(self.stakers@, account) && staker_index(self.stakers@, account)
                    == i,
                None => !has_staker(self.stakers@, account),
            },
    {
        let n = self.stakers.len();
        let mut i: usize = 0;
        while i < n
            invariant
                n == self.stakers@.len(),
                i <= n,
                distinct_accounts(self.stakers@),
                forall|j: int| 0 <= j < i ==> self.stakers@[j].account != account,
            decreases n - i,
        {
            if self.stakers[i].account == account {
                proof {
                    lemma_index_unique(self.stakers@, account, i as int);
                }
                return Some(i);
            }
            i = i + 1;
        }
        None
    }

    /// The accrued record for the staker at `i`, or the checked-arithmetic
    /// failure the accrual would hit. Computes only; commits nothing.
    pub(crate) fn accrue_existing(&self, i: usize, now: u64) -> (r: Result<StakerInfo, Error>)
        requires
            distinct_accounts(self.stakers@),
            i < self.stakers@.len(),
        ensures
            ({
                let a = self.stakers@[i as int].account;
                r == (if accrue_overflows(self@, a, now) {
                    Err::<StakerInfo, Error>(Error::ArithmeticOverflow)
                } else {
                    Ok::<StakerInfo, Error>(accrued_info(self@, a, now))
                })
            }),
    {
        proof {
            lemma_index_unique(self.stakers@, self.stakers@[i as int].account, i as int);
        }
        let info = self.stakers[i].info;
        let elapsed: u64 = if now >= self.last_reward_update {
            now - self.last_reward_update
        } else {
            0
        };
        if elapsed > 0 && self.staking_pool > 0 {
            let ghost a = self.stakers@[i as int].account;
            let emitted = match self.reward_rate.checked_mul(elapsed as u128) {
                Some(x) => x,
                None => {
                    return Err(Error::ArithmeticOverflow);
                },
            };
            proof {
                assert(emitted == emitted_reward(self@, now));
            }
            let share: u128 = if info.amount > 0 {
                let numerator = match info.amount.checked_mul(emitted) {
                    Some(x) => x,
                    None => {
                        return Err(Error::ArithmeticOverflow);
                    },
                };
                numerator / self.staking_pool
            } else {
                proof {
                    assert(info.amount * emitted_reward(self@, now) == 0) by (nonlinear_arith)
                        requires
                            info.amount == 0,
                    ;
                }
                0
            };
            proof {
                assert(share == staker_share(self@, a, now));
            }
            let new_debt = match info.reward_debt.checked_add(share) {
                Some(x) => x,
                None => {
                    return Err(Error::ArithmeticOverflow);
                },
            };
            Ok(StakerInfo { amount: info.amount, reward_debt: new_debt, last_update: now })
        } else {
            Ok(StakerInfo { amount: info.amount, reward_debt: info.reward_debt, last_update: now })
        }
    }

    /// For a caller without a record, accrual only checks the emission
    /// product; reports the failure the accrual pass would hit.
    pub(crate) fn check_emission(&self, account: AccountId, now: u64) -> (r: Result<(), Error>)
        requires
            !has_staker(self.stakers@, account),
        ensures
            r == (if accrue_overflows(self@, account, now) {
                Err::<(), Error>(Error::ArithmeticOverflow)
            } else {
                Ok::<(), Error>(())
            }),
    {
        let elapsed: u64 = if now >= self.last_reward_update {
            now - self.last_reward_update
        } else {
            0
        };
        if elapsed > 0 && self.staking_pool > 0 {
            if self.reward_rate.checked_mul(elapsed as u128).is_none() {
                return Err(Error::ArithmeticOverflow);
            }
        }
        Ok(())
    }

    /// Recompute the caller's reward entitlement at `now` and commit it:
    /// the elapsed share is added to the record's debt and both the pool
    /// and record timestamps advance. Idempotent at a fixed `now`; must
    /// run before any operation that reads or mutates stake or debt.
    pub fn accrue(&mut self, account: AccountId, now: u64) -> (r: Result<(), Error>)
        requires
            wf(old(self)@),
        ensures
            wf(final(self)@),
            match accrue_transition(old(self)@, account, now) {
                Ok(v) => r is Ok && final(self)@ == v && final(self).events@ == old(self).events@,
                Err(e) => r == Err::<(), Error>(e) && *final(self) == *old(self),
            },
    {
        match self.find_staker(account) {
            Some(i) => {
                let acc = match self.accrue_existing(i, now) {
                    Ok(a) => a,
                    Err(e) => {
                        return Err(e);
                    },
                };
                let ghost s0 = self@;
                self.stakers.set(i, StakerEntry { account, info: acc });
                self.last_reward_update = now;
                proof {
                    lemma_update_same_account(
                        s0.stakers,
                        i as int,
                        StakerEntry { account, info: acc },
                    );
                    lemma_sum_update(s0.stakers, i as int, StakerEntry { account, info: acc });
                    assert(self@ =~= accrued(s0, account, now));
                }
                Ok(())
            },
            None => {
                match self.check_emission(account, now) {
                    Ok(()) => (),
                    Err(e) => {
                        return Err(e);
                    },
                };
                let ghost s0 = self@;
                self.last_reward_update = now;
                proof {
                    assert(self@ =~= accrued(s0, account, now));
                }
                Ok(())
            },
        }
    }

    /// The proposal stored under `proposal_id`, if any.
    pub fn get_proposal(&self, proposal_id: u32) -> (r: Option<Proposal>)
        ensures
            match r {
                Some(p) => proposal_id < self@.proposals.len() && p@ == self@.proposals[
                    proposal_id as int
                ],
                None => proposal_id >= self@.proposals.len(),
            },
    {
        let i = proposal_id as usize;
        if i < self.proposals.len() {
            Some(self.proposals[i].clone())
        } else {
            None
        }
    }

    /// The caller's stake record, if any.
    pub fn get_staker_info(&self, staker: AccountId) -> (r: Option<StakerInfo>)
        requires
            wf(self@),
        ensures
            r == staker_lookup(self@.stakers, staker),
    {
        match self.find_staker(staker) {
            Some(i) => Some(self.stakers[i].info),
            None => None,
        }
    }

    /// Total staked principal over all records.
    pub fn get_staking_pool(&self) -> (r: Balance)
        ensures
            r == self@.staking_pool,
    {
        self.staking_pool
    }

    /// The caller's staked principal; zero without a record.
    pub fn get_staked_amount(&self, account: AccountId) -> (r: Balance)
        requires
            wf(self@),
        ensures
            r == match staker_lookup(self@.stakers, account) {
                Some(info) => info.amount,
                None => 0,
            },
    {
        match self.find_staker(account) {
            Some(i) => self.stakers[i].info.amount,
            None => 0,
        }
    }

    /// The caller's reward entitlement as of `now`: recorded debt plus
    /// the share a fresh accrual would add. Read-only and never fails;
    /// saturates when the prospective accrual would overflow.
    pub fn get_pending_rewards(&self, account: AccountId, now: u64) -> (r: Balance)
        requires
            wf(self@),
        ensures
            r == pending_rewards(self@, account, now),
    {
        match self.find_staker(account) {
            Some(i) => match self.accrue_existing(i, now) {
                Ok(acc) => acc.reward_debt,
                Err(_) => u128::MAX,
            },
            None => 0,
        }
    }

    /// Drain the queued observer notifications, oldest first.
    pub fn take_events(&mut self) -> (r: Vec<Event>)
        ensures
            r@ == old(self).events@,
            final(self).events@ == Seq::<Event>::empty(),
            final(self)@ == old(self)@,
    {
        let mut out: Vec<Event> = Vec::new();
        core::mem::swap(&mut out, &mut self.events);
        out
    }
}

} // verus!
