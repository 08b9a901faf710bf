//! Proved properties that relate several operations: reward debt never
//! decreases outside a claim, execution is one-way, an immediate
//! stake/unstake pair restores the pool, and the voting deadline is
//! inclusive.

use vstd::arithmetic::div_mod::{
    lemma_div_is_ordered, lemma_div_multiples_vanish, lemma_div_pos_is_pos,
};
use vstd::arithmetic::mul::{lemma_mul_inequality, lemma_mul_nonnegative};
use vstd::prelude::*;

use crate::model::{
    accrue_overflows, accrue_transition, accrued, accrued_info, debt_of, elapsed_time,
    emitted_reward, execute_transition, has_staker, lemma_entry_le_sum, lemma_index_unique,
    lemma_push_new_account, lemma_swap_remove, lemma_update_same_account, stake_transition,
    staker_index, staker_lookup, staker_share, swap_removed, unstake_transition, vote_transition,
    voter_weight, wf, LedgerV,
};
use crate::types::{AccountId, Balance, Error, StakerEntry, StakerInfo};

verus! {

/// A staker's share of an emission is never negative.
proof fn lemma_share_nonneg(s: LedgerV, a: AccountId, now: u64)
    ensures
        staker_share(s, a, now) >= 0,
{
    if has_staker(s.stakers, a) && elapsed_time(s.last_reward_update, now) > 0
        && s.staking_pool > 0 {
        let info = s.stakers[staker_index(s.stakers, a)].info;
        lemma_mul_nonnegative(s.reward_rate as int, elapsed_time(s.last_reward_update, now));
        lemma_mul_nonnegative(info.amount as int, emitted_reward(s, now));
        lemma_div_pos_is_pos(info.amount * emitted_reward(s, now), s.staking_pool as int);
    }
}

/// One record's share of an accrual window never exceeds what the pool
/// emitted over that window: the share is the floor of a fraction of
/// the emission whose numerator is at most the pool total.
pub proof fn lemma_share_at_most_emission(s: LedgerV, a: AccountId, now: u64)
    requires
        wf(s),
    ensures
        staker_share(s, a, now) <= emitted_reward(s, now),
{
    let e = emitted_reward(s, now);
    lemma_mul_nonnegative(s.reward_rate as int, elapsed_time(s.last_reward_update, now));
    if has_staker(s.stakers, a) && elapsed_time(s.last_reward_update, now) > 0
        && s.staking_pool > 0 {
        let i = staker_index(s.stakers, a);
        let amt = s.stakers[i].info.amount as int;
        lemma_entry_le_sum(s.stakers, i);
        lemma_mul_inequality(amt, s.staking_pool as int, e);
        lemma_div_is_ordered(amt * e, (s.staking_pool as int) * e, s.staking_pool as int);
        lemma_div_multiples_vanish(e, s.staking_pool as int);
    }
}

/// A successful accrual never lowers any account's recorded debt: the
/// accrued account gains its (non-negative) share, everyone else is
/// untouched.
pub proof fn lemma_accrue_preserves_debt(s: LedgerV, a: AccountId, now: u64)
    requires
        wf(s),
    ensures
        (match accrue_transition(s, a, now) {
            Ok(v) => forall|b: AccountId|
                has_staker(v.stakers, b) ==> debt_of(v.stakers, b) >= debt_of(s.stakers, b),
            Err(_) => true,
        }),
{
    if !accrue_overflows(s, a, now) {
        let v = accrued(s, a, now);
        if has_staker(s.stakers, a) {
            let i = staker_index(s.stakers, a);
            let e = StakerEntry { account: a, info: accrued_info(s, a, now) };
            lemma_update_same_account(s.stakers, i, e);
            lemma_share_nonneg(s, a, now);
            assert(e.info.reward_debt >= s.stakers[i].info.reward_debt);
            assert forall|b: AccountId| has_staker(v.stakers, b) implies debt_of(v.stakers, b)
                >= debt_of(s.stakers, b) by {
                if b != a {
                    assert(staker_lookup(v.stakers, b) == staker_lookup(s.stakers, b));
                }
            }
        }
    }
}

/// A successful stake never lowers any account's recorded debt: the
/// caller's accrued debt is carried into the updated record, everyone
/// else is untouched.
pub proof fn lemma_stake_preserves_debt(s: LedgerV, caller: AccountId, amount: Balance, now: u64)
    requires
        wf(s),
    ensures
        (match stake_transition(s, caller, amount, now) {
            Ok(v) => forall|b: AccountId|
                has_staker(v.stakers, b) ==> debt_of(v.stakers, b) >= debt_of(s.stakers, b),
            Err(_) => true,
        }),
{
    if stake_transition(s, caller, amount, now) is Ok {
        let t = accrued(s, caller, now);
        lemma_accrue_preserves_debt(s, caller, now);
        let prev_debt: int = match staker_lookup(t.stakers, caller) {
            Some(info) => info.reward_debt as int,
            None => 0,
        };
        let prev_amount: int = match staker_lookup(t.stakers, caller) {
            Some(info) => info.amount as int,
            None => 0,
        };
        let entry = StakerEntry {
            account: caller,
            info: StakerInfo {
                amount: (prev_amount + amount) as u128,
                reward_debt: prev_debt as u128,
                last_update: now,
            },
        };
        if has_staker(s.stakers, caller) {
            let i = staker_index(s.stakers, caller);
            let e = StakerEntry { account: caller, info: accrued_info(s, caller, now) };
            lemma_update_same_account(s.stakers, i, e);
            lemma_update_same_account(t.stakers, i, entry);
            assert forall|b: AccountId|
                has_staker(t.stakers.update(i, entry), b) implies debt_of(
                t.stakers.update(i, entry),
                b,
            ) >= debt_of(s.stakers, b) by {
                if b != caller {
                    assert(staker_lookup(t.stakers.update(i, entry), b) == staker_lookup(
                        t.stakers,
                        b,
                    ));
                }
            }
        } else {
            lemma_push_new_account(t.stakers, entry);
            assert forall|b: AccountId|
                has_staker(t.stakers.push(entry), b) implies debt_of(t.stakers.push(entry), b)
                >= debt_of(s.stakers, b) by {
                if b != caller {
                    assert(staker_lookup(t.stakers.push(entry), b) == staker_lookup(t.stakers, b));
                }
            }
        }
    }
}

/// A successful unstake never lowers the recorded debt of any account
/// that still holds a record afterwards; a fully withdrawn record is
/// removed along with its debt snapshot, which the call returns.
pub proof fn lemma_unstake_preserves_debt(s: LedgerV, caller: AccountId, amount: Balance, now: u64)
    requires
        wf(s),
    ensures
        (match unstake_transition(s, caller, amount, now) {
            Ok((v, refund)) => forall|b: AccountId|
                has_staker(v.stakers, b) ==> debt_of(v.stakers, b) >= debt_of(s.stakers, b),
            Err(_) => true,
        }),
{
    if unstake_transition(s, caller, amount, now) is Ok {
        let t = accrued(s, caller, now);
        lemma_accrue_preserves_debt(s, caller, now);
        let i0 = staker_index(s.stakers, caller);
        let e = StakerEntry { account: caller, info: accrued_info(s, caller, now) };
        lemma_update_same_account(s.stakers, i0, e);
        let i = staker_index(t.stakers, caller);
        let info = t.stakers[i].info;
        if info.amount == amount {
            lemma_swap_remove(t.stakers, i);
            assert forall|b: AccountId|
                has_staker(swap_removed(t.stakers, i), b) implies debt_of(
                swap_removed(t.stakers, i),
                b,
            ) >= debt_of(s.stakers, b) by {
                if b != caller {
                    assert(staker_lookup(swap_removed(t.stakers, i), b) == staker_lookup(
                        t.stakers,
                        b,
                    ));
                }
            }
        } else {
            let entry = StakerEntry {
                account: caller,
                info: StakerInfo {
                    amount: (info.amount - amount) as u128,
                    reward_debt: info.reward_debt,
                    last_update: now,
                },
            };
            lemma_update_same_account(t.stakers, i, entry);
            assert forall|b: AccountId|
                has_staker(t.stakers.update(i, entry), b) implies debt_of(
                t.stakers.update(i, entry),
                b,
            ) >= debt_of(s.stakers, b) by {
                if b != caller {
                    assert(staker_lookup(t.stakers.update(i, entry), b) == staker_lookup(
                        t.stakers,
                        b,
                    ));
                }
            }
        }
    }
}

/// Execution is one-way: once `execute` has succeeded on a proposal,
/// every later `execute` on that proposal — at any time — reports
/// `AlreadyExecuted`. Together with the failure clause of
/// [`crate::state::DevKitShowcase::execute`] (a failing call leaves the
/// state, including the event queue, untouched) this means a second
/// execution never re-runs effects and never emits a second event.
pub proof fn lemma_execute_idempotent(s: LedgerV, proposal_id: u32, now: u64, later: u64)
    requires
        execute_transition(s, proposal_id, now) is Ok,
    ensures
        (match execute_transition(s, proposal_id, now) {
            Ok(v) => execute_transition(v, proposal_id, later) == Err::<LedgerV, Error>(
                Error::AlreadyExecuted,
            ),
            Err(_) => true,
        }),
{
}

/// Staking and then immediately unstaking the same amount, by an
/// account that held no record, restores the pool total and leaves the
/// account without a record, with the staker table as it was.
pub proof fn lemma_stake_unstake_round_trip(
    s: LedgerV,
    account: AccountId,
    amount: Balance,
    now: u64,
)
    requires
        wf(s),
        !has_staker(s.stakers, account),
        stake_transition(s, account, amount, now) is Ok,
    ensures
        (match stake_transition(s, account, amount, now) {
            Ok(v) => match unstake_transition(v, account, amount, now) {
                Ok((w, refund)) => w.staking_pool == s.staking_pool && !has_staker(
                    w.stakers,
                    account,
                ) && w.stakers == s.stakers && refund == 0,
                Err(_) => false,
            },
            Err(_) => true,
        }),
{
    let t = accrued(s, account, now);
    assert(t.stakers == s.stakers);
    let entry = StakerEntry {
        account,
        info: StakerInfo { amount, reward_debt: 0, last_update: now },
    };
    let v = match stake_transition(s, account, amount, now) {
        Ok(v) => v,
        Err(_) => s,
    };
    assert(v.stakers == s.stakers.push(entry));
    lemma_push_new_account(s.stakers, entry);
    let n = s.stakers.len() as int;
    assert(staker_index(v.stakers, account) == n);
    assert(elapsed_time(v.last_reward_update, now) == 0);
    assert(!accrue_overflows(v, account, now));
    let t2 = accrued(v, account, now);
    assert(accrued_info(v, account, now) == entry.info);
    assert(t2.stakers =~= v.stakers);
    lemma_index_unique(t2.stakers, account, n);
    assert(unstake_transition(v, account, amount, now) is Ok);
    assert(swap_removed(t2.stakers, n) =~= s.stakers);
}

/// The voting deadline is inclusive: a first vote cast exactly at
/// `end_time`, with tallies that have room for the voter's weight,
/// succeeds.
pub proof fn lemma_vote_at_deadline(
    s: LedgerV,
    proposal_id: u32,
    support: bool,
    caller: AccountId,
)
    requires
        proposal_id < s.proposals.len(),
        !s.proposals[proposal_id as int].voters.contains(caller),
        s.proposals[proposal_id as int].for_votes + voter_weight(caller) <= u128::MAX,
        s.proposals[proposal_id as int].against_votes + voter_weight(caller) <= u128::MAX,
    ensures
        vote_transition(
            s,
            proposal_id,
            support,
            caller,
            s.proposals[proposal_id as int].end_time,
        ) is Ok,
{
}

/// One tick past the deadline, and at every later instant, a vote on an
/// existing proposal fails with `VotingPeriodEnded`, whoever casts it.
pub proof fn lemma_vote_after_deadline(
    s: LedgerV,
    proposal_id: u32,
    support: bool,
    caller: AccountId,
    now: u64,
)
    requires
        proposal_id < s.proposals.len(),
        now > s.proposals[proposal_id as int].end_time,
    ensures
        vote_transition(s, proposal_id, support, caller, now) == Err::<LedgerV, Error>(
            Error::VotingPeriodEnded,
        ),
{
}

} // verus!
