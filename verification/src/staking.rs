//! The stake ledger controller: stake, unstake and claim. Every
//! operation accrues rewards for the caller first, then commits all of
//! its effects at once; a failing call leaves the state untouched.

use vstd::pervasive::VecAdditionalExecFns;
use vstd::prelude::*;

use crate::model::{
    accrued, accrued_info, claim_transition, lemma_entry_le_sum, lemma_push_new_account,
    lemma_sum_push, lemma_sum_update, lemma_swap_remove, lemma_update_same_account,
    stake_transition, swap_removed, unstake_transition, upsert_staker, wf, LedgerV,
};
use crate::state::DevKitShowcase;
use crate::types::{
    AccountId, Balance, Error, Event, RewardsClaimed, Staked, StakerEntry, StakerInfo, Unstaked,
};

verus! {

impl DevKitShowcase {
    /// Deposit `amount` into the caller's stake. Rejects a zero amount;
    /// accrues the caller's reward on the pre-deposit weight; then adds
    /// the amount to the caller's record (creating it if absent) and to
    /// the pool total, and queues a stake notification.
    pub fn stake(&mut self, caller: AccountId, amount: Balance, now: u64) -> (r: Result<
        (),
        Error,
    >)
        requires
            wf(old(self)@),
        ensures
            wf(final(self)@),
            (match stake_transition(old(self)@, caller, amount, now) {
                Ok(v) => r is Ok && final(self)@ == v && final(self).events@ == old(self).events@
                    .push(Event::Staked(Staked { staker: caller, amount, timestamp: now })),
                Err(e) => r == Err::<(), Error>(e) && *final(self) == *old(self),
            }),
    {
        if amount == 0 {
            return Err(Error::InvalidAmount);
        }
        let ghost s0 = self@;
        match self.find_staker(caller) {
            Some(i) => {
                let acc = match self.accrue_existing(i, now) {
                    Ok(a) => a,
                    Err(e) => {
                        return Err(e);
                    },
                };
                proof {
                    lemma_update_same_account(
                        s0.stakers,
                        i as int,
                        StakerEntry { account: caller, info: accrued_info(s0, caller, now) },
                    );
                }
                let new_amount = match acc.amount.checked_add(amount) {
                    Some(x) => x,
                    None => {
                        return Err(Error::ArithmeticOverflow);
                    },
                };
                let new_pool = match self.staking_pool.checked_add(amount) {
                    Some(x) => x,
                    None => {
                        return Err(Error::ArithmeticOverflow);
                    },
                };
                let entry = StakerEntry {
                    account: caller,
                    info: StakerInfo {
                        amount: new_amount,
                        reward_debt: acc.reward_debt,
                        last_update: now,
                    },
                };
                self.stakers.set(i, entry);
                self.staking_pool = new_pool;
                self.last_reward_update = now;
                self.events.push(Event::Staked(Staked { staker: caller, amount, timestamp: now }));
                proof {
                    let t = accrued(s0, caller, now);
                    let acc_entry = StakerEntry {
                        account: caller,
                        info: accrued_info(s0, caller, now),
                    };
                    lemma_update_same_account(s0.stakers, i as int, acc_entry);
                    lemma_update_same_account(t.stakers, i as int, entry);
                    assert(t.stakers.update(i as int, entry) =~= s0.stakers.update(
                        i as int,
                        entry,
                    ));
                    lemma_sum_update(s0.stakers, i as int, entry);
                    assert(self@.stakers =~= upsert_staker(t.stakers, caller, entry.info));
                    assert(self@ =~= (LedgerV {
                        stakers: upsert_staker(t.stakers, caller, entry.info),
                        staking_pool: new_pool,
                        ..t
                    }));
                }
                Ok(())
            },
            None => {
                match self.check_emission(caller, now) {
                    Ok(()) => (),
                    Err(e) => {
                        return Err(e);
                    },
                };
                let new_pool = match self.staking_pool.checked_add(amount) {
                    Some(x) => x,
                    None => {
                        return Err(Error::ArithmeticOverflow);
                    },
                };
                let entry = StakerEntry {
                    account: caller,
                    info: StakerInfo { amount, reward_debt: 0, last_update: now },
                };
                self.stakers.push(entry);
                self.staking_pool = new_pool;
                self.last_reward_update = now;
                self.events.push(Event::Staked(Staked { staker: caller, amount, timestamp: now }));
                proof {
                    let t = accrued(s0, caller, now);
                    lemma_push_new_account(s0.stakers, entry);
                    lemma_sum_push(s0.stakers, entry);
                    assert(self@.stakers =~= upsert_staker(t.stakers, caller, entry.info));
                    assert(self@ =~= (LedgerV {
                        stakers: upsert_staker(t.stakers, caller, entry.info),
                        staking_pool: new_pool,
                        ..t
                    }));
                }
                Ok(())
            },
        }
    }

    /// Withdraw `amount` from the caller's stake. The success value is
    /// the accrued-but-unclaimed reward snapshot (informational only;
    /// claiming stays a separate step). Accrual runs on the
    /// pre-withdrawal weight; a record whose stake reaches zero is
    /// removed. Queues an unstake notification.
    pub fn unstake(&mut self, caller: AccountId, amount: Balance, now: u64) -> (r: Result<
        Balance,
        Error,
    >)
        requires
            wf(old(self)@),
        ensures
            wf(final(self)@),
            (match unstake_transition(old(self)@, caller, amount, now) {
                Ok((v, refund)) => r == Ok::<Balance, Error>(refund) && final(self)@ == v
                    && final(self).events@ == old(self).events@.push(
                    Event::Unstaked(
                        Unstaked { staker: caller, amount, reward_debt: refund, timestamp: now },
                    ),
                ),
                Err(e) => r == Err::<Balance, Error>(e) && *final(self) == *old(self),
            }),
    {
        let ghost s0 = self@;
        let i = match self.find_staker(caller) {
            Some(i) => i,
            None => {
                return Err(Error::NoStake);
            },
        };
        if amount > self.stakers[i].info.amount {
            return Err(Error::InsufficientStake);
        }
        let acc = match self.accrue_existing(i, now) {
            Ok(a) => a,
            Err(e) => {
                return Err(e);
            },
        };
        let refund = acc.reward_debt;
        proof {
            lemma_entry_le_sum(s0.stakers, i as int);
        }
        let remaining = acc.amount - amount;
        let new_pool = self.staking_pool - amount;
        let ghost t = accrued(s0, caller, now);
        let ghost acc_entry = StakerEntry { account: caller, info: accrued_info(s0, caller, now) };
        if remaining == 0 {
            let _removed = self.stakers.swap_remove(i);
            proof {
                lemma_update_same_account(s0.stakers, i as int, acc_entry);
                lemma_swap_remove(t.stakers, i as int);
                lemma_swap_remove(s0.stakers, i as int);
                assert(swap_removed(t.stakers, i as int) =~= swap_removed(s0.stakers, i as int));
                assert(self.stakers@ =~= swap_removed(t.stakers, i as int));
            }
        } else {
            let entry = StakerEntry {
                account: caller,
                info: StakerInfo {
                    amount: remaining,
                    reward_debt: acc.reward_debt,
                    last_update: now,
                },
            };
            self.stakers.set(i, entry);
            proof {
                lemma_update_same_account(s0.stakers, i as int, acc_entry);
                lemma_update_same_account(t.stakers, i as int, entry);
                assert(t.stakers.update(i as int, entry) =~= s0.stakers.update(i as int, entry));
                lemma_sum_update(s0.stakers, i as int, entry);
            }
        }
        self.staking_pool = new_pool;
        self.last_reward_update = now;
        self.events.push(
            Event::Unstaked(Unstaked { staker: caller, amount, reward_debt: refund, timestamp: now }),
        );
        proof {
            assert forall|k: int| 0 <= k < self.stakers@.len() implies self.stakers@[k].info.amount
                > 0 by {
                if remaining == 0 {
                    if k == i as int {
                        assert(self.stakers@[k] == s0.stakers[s0.stakers.len() - 1]);
                    } else {
                        assert(self.stakers@[k] == s0.stakers[k]);
                    }
                } else {
                    if k != i as int {
                        assert(self.stakers@[k] == s0.stakers[k]);
                    }
                }
            }
            if remaining == 0 {
                assert(self@ =~= (LedgerV {
                    stakers: swap_removed(t.stakers, i as int),
                    staking_pool: new_pool,
                    ..t
                }));
            } else {
                assert(self@ =~= (LedgerV {
                    stakers: t.stakers.update(
                        i as int,
                        StakerEntry {
                            account: caller,
                            info: StakerInfo {
                                amount: remaining,
                                reward_debt: acc.reward_debt,
                                last_update: now,
                            },
                        },
                    ),
                    staking_pool: new_pool,
                    ..t
                }));
            }
        }
        Ok(refund)
    }

    /// Claim the caller's accrued reward. Accrues first; fails when the
    /// resulting entitlement is zero; otherwise zeroes the debt, returns
    /// the claimed amount and queues a claim notification. Never touches
    /// the staked principal or the pool total.
    pub fn claim_rewards(&mut self, caller: AccountId, now: u64) -> (r: Result<Balance, Error>)
        requires
            wf(old(self)@),
        ensures
            wf(final(self)@),
            (match claim_transition(old(self)@, caller, now) {
                Ok((v, claimed)) => r == Ok::<Balance, Error>(claimed) && final(self)@ == v
                    && final(self).events@ == old(self).events@.push(
                    Event::RewardsClaimed(
                        RewardsClaimed { staker: caller, amount: claimed, timestamp: now },
                    ),
                ),
                Err(e) => r == Err::<Balance, Error>(e) && *final(self) == *old(self),
            }),
    {
        let ghost s0 = self@;
        let i = match self.find_staker(caller) {
            Some(i) => i,
            None => {
                return Err(Error::NoStake);
            },
        };
        let acc = match self.accrue_existing(i, now) {
            Ok(a) => a,
            Err(e) => {
                return Err(e);
            },
        };
        proof {
            lemma_update_same_account(
                s0.stakers,
                i as int,
                StakerEntry { account: caller, info: accrued_info(s0, caller, now) },
            );
        }
        if acc.reward_debt == 0 {
            return Err(Error::NoRewards);
        }
        let entry = StakerEntry {
            account: caller,
            info: StakerInfo { amount: acc.amount, reward_debt: 0, last_update: now },
        };
        self.stakers.set(i, entry);
        self.last_reward_update = now;
        self.events.push(
            Event::RewardsClaimed(
                RewardsClaimed { staker: caller, amount: acc.reward_debt, timestamp: now },
            ),
        );
        proof {
            let t = accrued(s0, caller, now);
            let acc_entry = StakerEntry { account: caller, info: accrued_info(s0, caller, now) };
            lemma_update_same_account(s0.stakers, i as int, acc_entry);
            lemma_update_same_account(t.stakers, i as int, entry);
            assert(t.stakers.update(i as int, entry) =~= s0.stakers.update(i as int, entry));
            lemma_sum_update(s0.stakers, i as int, entry);
            assert(self@ =~= (LedgerV { stakers: t.stakers.update(i as int, entry), ..t }));
        }
        Ok(acc.reward_debt)
    }
}

} // verus!
