//! Mathematical model of the ledger: the abstract state, the lookup and
//! summation functions over staker records, and one transition function
//! per operation. Every executable operation is specified as equal to its
//! transition function.

use vstd::prelude::*;

use crate::types::{AccountId, Balance, Error, ProposalV, StakerEntry, StakerInfo};

verus! {

/// Vote weight granted to every account by the (stubbed) voting-weight
/// source. A production deployment would query the governance token.
pub open spec fn voter_weight(account: AccountId) -> Balance {
    1000
}

/// Mathematical snapshot of the whole contract state, excluding the
/// pending event queue.
#[verifier::ext_equal]
pub struct LedgerV {
    pub governance_token: AccountId,
    pub proposals: Seq<ProposalV>,
    pub proposal_count: u32,
    pub voting_period: u64,
    pub quorum_threshold: Balance,
    pub staking_pool: Balance,
    pub stakers: Seq<StakerEntry>,
    pub reward_rate: Balance,
    pub last_reward_update: u64,
}

/// Some record in `s` belongs to `a`.
pub open spec fn has_staker(s: Seq<StakerEntry>, a: AccountId) -> bool {
    exists|i: int| 0 <= i < s.len() && s[i].account == a
}

/// Index of the record belonging to `a`; meaningful when `has_staker`
/// holds and the accounts are distinct.
pub open spec fn staker_index(s: Seq<StakerEntry>, a: AccountId) -> int {
    choose|i: int| 0 <= i < s.len() && s[i].account == a
}

/// The record belonging to `a`, if any.
pub open spec fn staker_lookup(s: Seq<StakerEntry>, a: AccountId) -> Option<StakerInfo> {
    if has_staker(s, a) {
        Some(s[staker_index(s, a)].info)
    } else {
        None
    }
}

/// The accrued-but-unclaimed reward recorded for `a`, zero when `a` has
/// no record.
pub open spec fn debt_of(s: Seq<StakerEntry>, a: AccountId) -> int {
    match staker_lookup(s, a) {
        Some(info) => info.reward_debt as int,
        None => 0,
    }
}

/// No two records belong to the same account.
pub open spec fn distinct_accounts(s: Seq<StakerEntry>) -> bool {
    forall|i: int, j: int| 0 <= i < j < s.len() ==> s[i].account != s[j].account
}

/// Total staked principal over all records.
pub open spec fn sum_amounts(s: Seq<StakerEntry>) -> int
    decreases s.len(),
{
    if s.len() == 0 {
        0
    } else {
        sum_amounts(s.drop_last()) + s.last().info.amount
    }
}

/// Well-formedness of the ledger: accounts are distinct, every record
/// holds positive principal (a record is removed when its stake reaches
/// zero), the pool total equals the sum over all records, and proposal
/// ids are exactly `0 .. proposal_count`.
pub open spec fn wf(s: LedgerV) -> bool {
    &&& distinct_accounts(s.stakers)
    &&& forall|i: int| 0 <= i < s.stakers.len() ==> s.stakers[i].info.amount > 0
    &&& s.staking_pool == sum_amounts(s.stakers)
    &&& s.proposal_count == s.proposals.len()
}

/// Time elapsed since the last global accrual, clamped at zero.
pub open spec fn elapsed_time(last: u64, now: u64) -> int {
    if now >= last {
        now - last
    } else {
        0
    }
}

/// Total reward emitted by the pool over the elapsed window.
pub open spec fn emitted_reward(s: LedgerV, now: u64) -> int {
    s.reward_rate * elapsed_time(s.last_reward_update, now)
}

/// The share of the emitted reward owed to `a`: principal times emission,
/// floor-divided by the pool total (multiply before divide).
pub open spec fn staker_share(s: LedgerV, a: AccountId, now: u64) -> int {
    if has_staker(s.stakers, a) && elapsed_time(s.last_reward_update, now) > 0
        && s.staking_pool > 0 {
        let info = s.stakers[staker_index(s.stakers, a)].info;
        (info.amount * emitted_reward(s, now)) / (s.staking_pool as int)
    } else {
        0
    }
}

/// Whether accruing for `a` at `now` hits checked-arithmetic failure:
/// the emission product, the share numerator, or the debt addition
/// exceeds the balance range.
pub open spec fn accrue_overflows(s: LedgerV, a: AccountId, now: u64) -> bool {
    elapsed_time(s.last_reward_update, now) > 0 && s.staking_pool > 0 && {
        ||| emitted_reward(s, now) > u128::MAX
        ||| (has_staker(s.stakers, a) && {
            let info = s.stakers[staker_index(s.stakers, a)].info;
            info.amount > 0 && (info.amount * emitted_reward(s, now) > u128::MAX
                || info.reward_debt + staker_share(s, a, now) > u128::MAX)
        })
    }
}

/// The record of `a` after a successful accrual at `now`; meaningful when
/// `a` has a record.
pub open spec fn accrued_info(s: LedgerV, a: AccountId, now: u64) -> StakerInfo {
    let info = s.stakers[staker_index(s.stakers, a)].info;
    StakerInfo {
        amount: info.amount,
        reward_debt: (info.reward_debt + staker_share(s, a, now)) as u128,
        last_update: now,
    }
}

/// The ledger after a successful accrual for `a` at `now`: the share is
/// added to `a`'s debt and both timestamps advance to `now`.
pub open spec fn accrued(s: LedgerV, a: AccountId, now: u64) -> LedgerV {
    LedgerV {
        stakers: if has_staker(s.stakers, a) {
            s.stakers.update(
                staker_index(s.stakers, a),
                StakerEntry { account: a, info: accrued_info(s, a, now) },
            )
        } else {
            s.stakers
        },
        last_reward_update: now,
        ..s
    }
}

/// `s` with `a`'s record replaced, or appended when absent.
pub open spec fn upsert_staker(s: Seq<StakerEntry>, a: AccountId, info: StakerInfo) -> Seq<
    StakerEntry,
> {
    if has_staker(s, a) {
        s.update(staker_index(s, a), StakerEntry { account: a, info })
    } else {
        s.push(StakerEntry { account: a, info })
    }
}

/// `s` with the record at `i` removed by swapping the last record into
/// its place.
pub open spec fn swap_removed(s: Seq<StakerEntry>, i: int) -> Seq<StakerEntry> {
    s.update(i, s.last()).drop_last()
}

/// Outcome of `accrue(a, now)`.
pub open spec fn accrue_transition(s: LedgerV, a: AccountId, now: u64) -> Result<
    LedgerV,
    Error,
> {
    if accrue_overflows(s, a, now) {
        Err(Error::ArithmeticOverflow)
    } else {
        Ok(accrued(s, a, now))
    }
}

/// Outcome of `stake(caller, amount, now)`: reject a zero amount, accrue
/// for the caller, then add the amount to the caller's principal and to
/// the pool, creating the record when absent.
pub open spec fn stake_transition(s: LedgerV, caller: AccountId, amount: Balance, now: u64) -> Result<
    LedgerV,
    Error,
> {
    if amount == 0 {
        Err(Error::InvalidAmount)
    } else if accrue_overflows(s, caller, now) {
        Err(Error::ArithmeticOverflow)
    } else {
        let t = accrued(s, caller, now);
        let prev_amount: int = match staker_lookup(t.stakers, caller) {
            Some(info) => info.amount as int,
            None => 0,
        };
        let prev_debt: int = match staker_lookup(t.stakers, caller) {
            Some(info) => info.reward_debt as int,
            None => 0,
        };
        if prev_amount + amount > u128::MAX || s.staking_pool + amount > u128::MAX {
            Err(Error::ArithmeticOverflow)
        } else {
            Ok(
                LedgerV {
                    stakers: upsert_staker(
                        t.stakers,
                        caller,
                        StakerInfo {
                            amount: (prev_amount + amount) as u128,
                            reward_debt: prev_debt as u128,
                            last_update: now,
                        },
                    ),
                    staking_pool: (s.staking_pool + amount) as u128,
                    ..t
                },
            )
        }
    }
}

/// Outcome of `unstake(caller, amount, now)`: the success value is the
/// accrued-but-unclaimed reward snapshot. Accrual runs on the
/// pre-withdrawal weight; a record whose stake reaches zero is removed.
pub open spec fn unstake_transition(s: LedgerV, caller: AccountId, amount: Balance, now: u64) -> Result<
    (LedgerV, Balance),
    Error,
> {
    if !has_staker(s.stakers, caller) {
        Err(Error::NoStake)
    } else if amount > s.stakers[staker_index(s.stakers, caller)].info.amount {
        Err(Error::InsufficientStake)
    } else if accrue_overflows(s, caller, now) {
        Err(Error::ArithmeticOverflow)
    } else {
        let t = accrued(s, caller, now);
        let i = staker_index(t.stakers, caller);
        let info = t.stakers[i].info;
        let stakers = if info.amount == amount {
            swap_removed(t.stakers, i)
        } else {
            t.stakers.update(
                i,
                StakerEntry {
                    account: caller,
                    info: StakerInfo {
                        amount: (info.amount - amount) as u128,
                        reward_debt: info.reward_debt,
                        last_update: now,
                    },
                },
            )
        };
        Ok(
            (
                LedgerV { stakers, staking_pool: (s.staking_pool - amount) as u128, ..t },
                info.reward_debt,
            ),
        )
    }
}

/// Outcome of `claim_rewards(caller, now)`: the success value is the
/// claimed amount; the caller's debt is zeroed and the principal is left
/// untouched.
pub open spec fn claim_transition(s: LedgerV, caller: AccountId, now: u64) -> Result<
    (LedgerV, Balance),
    Error,
> {
    if !has_staker(s.stakers, caller) {
        Err(Error::NoStake)
    } else if accrue_overflows(s, caller, now) {
        Err(Error::ArithmeticOverflow)
    } else {
        let t = accrued(s, caller, now);
        let i = staker_index(t.stakers, caller);
        let info = t.stakers[i].info;
        if info.reward_debt == 0 {
            Err(Error::NoRewards)
        } else {
            Ok(
                (
                    LedgerV {
                        stakers: t.stakers.update(
                            i,
                            StakerEntry {
                                account: caller,
                                info: StakerInfo {
                                    amount: info.amount,
                                    reward_debt: 0,
                                    last_update: now,
                                },
                            },
                        ),
                        ..t
                    },
                    info.reward_debt,
                ),
            )
        }
    }
}

/// Outcome of `propose(proposer, description, now)`: the success value is
/// the new sequential proposal id.
pub open spec fn propose_transition(
    s: LedgerV,
    proposer: AccountId,
    description: Seq<char>,
    now: u64,
) -> Result<(LedgerV, u32), Error> {
    if s.proposal_count == u32::MAX || now + s.voting_period > u64::MAX {
        Err(Error::ArithmeticOverflow)
    } else {
        let p = ProposalV {
            proposer,
            description,
            start_time: now,
            end_time: (now + s.voting_period) as u64,
            for_votes: 0,
            against_votes: 0,
            executed: false,
            voters: Seq::empty(),
        };
        Ok(
            (
                LedgerV {
                    proposals: s.proposals.push(p),
                    proposal_count: (s.proposal_count + 1) as u32,
                    ..s
                },
                s.proposal_count,
            ),
        )
    }
}

/// Outcome of `vote(proposal_id, support, caller, now)`. Voting at
/// `now == end_time` is still valid (inclusive upper bound); a repeated
/// vote by the same account is rejected.
pub open spec fn vote_transition(
    s: LedgerV,
    proposal_id: u32,
    support: bool,
    caller: AccountId,
    now: u64,
) -> Result<LedgerV, Error> {
    if proposal_id >= s.proposals.len() {
        Err(Error::ProposalNotFound)
    } else {
        let p = s.proposals[proposal_id as int];
        if now > p.end_time {
            Err(Error::VotingPeriodEnded)
        } else if p.voters.contains(caller) {
            Err(Error::AlreadyVoted)
        } else {
            let w = voter_weight(caller);
            let new_for: int = if support {
                p.for_votes + w
            } else {
                p.for_votes as int
            };
            let new_against: int = if support {
                p.against_votes as int
            } else {
                p.against_votes + w
            };
            if new_for > u128::MAX || new_against > u128::MAX {
                Err(Error::ArithmeticOverflow)
            } else {
                Ok(
                    LedgerV {
                        proposals: s.proposals.update(
                            proposal_id as int,
                            ProposalV {
                                for_votes: new_for as u128,
                                against_votes: new_against as u128,
                                voters: p.voters.push(caller),
                                ..p
                            },
                        ),
                        ..s
                    },
                )
            }
        }
    }
}

/// Outcome of `execute(proposal_id, now)`: requires the voting window to
/// have fully elapsed, the combined tally to reach quorum, and a strict
/// majority in favor; ties are rejections.
pub open spec fn execute_transition(s: LedgerV, proposal_id: u32, now: u64) -> Result<
    LedgerV,
    Error,
> {
    if proposal_id >= s.proposals.len() {
        Err(Error::ProposalNotFound)
    } else {
        let p = s.proposals[proposal_id as int];
        if p.executed {
            Err(Error::AlreadyExecuted)
        } else if now <= p.end_time {
            Err(Error::VotingPeriodActive)
        } else if p.for_votes + p.against_votes > u128::MAX {
            Err(Error::ArithmeticOverflow)
        } else if p.for_votes + p.against_votes < s.quorum_threshold {
            Err(Error::QuorumNotMet)
        } else if p.for_votes <= p.against_votes {
            Err(Error::ProposalRejected)
        } else {
            Ok(
                LedgerV {
                    proposals: s.proposals.update(
                        proposal_id as int,
                        ProposalV { executed: true, ..p },
                    ),
                    ..s
                },
            )
        }
    }
}

/// What the read-only pending-rewards query reports for `a` at `now`:
/// the recorded debt plus the prospective share, saturated to the balance
/// range when the prospective accrual would overflow. The query never
/// mutates and never fails; the mutating paths stay fail-loud.
pub open spec fn pending_rewards(s: LedgerV, a: AccountId, now: u64) -> Balance {
    if !has_staker(s.stakers, a) {
        0
    } else if accrue_overflows(s, a, now) {
        u128::MAX
    } else {
        (s.stakers[staker_index(s.stakers, a)].info.reward_debt + staker_share(s, a, now)) as u128
    }
}

/// A record found at a concrete index is the record the lookup functions
/// denote, provided accounts are distinct.
pub proof fn lemma_index_unique(s: Seq<StakerEntry>, a: AccountId, i: int)
    requires
        distinct_accounts(s),
        0 <= i < s.len(),
        s[i].account == a,
    ensures
        has_staker(s, a),
        staker_index(s, a) == i,
        staker_lookup(s, a) == Some(s[i].info),
{
    assert(has_staker(s, a));
    let j = staker_index(s, a);
    if i < j {
        assert(s[i].account != s[j].account);
    } else if j < i {
        assert(s[j].account != s[i].account);
    }
}

/// The sum of stake amounts is non-negative.
pub proof fn lemma_sum_nonneg(s: Seq<StakerEntry>)
    ensures
        sum_amounts(s) >= 0,
    decreases s.len(),
{
    if s.len() > 0 {
        lemma_sum_nonneg(s.drop_last());
    }
}

/// Each record's stake is at most the sum over all records.
pub proof fn lemma_entry_le_sum(s: Seq<StakerEntry>, i: int)
    requires
        0 <= i < s.len(),
    ensures
        s[i].info.amount <= sum_amounts(s),
    decreases s.len(),
{
    if i == s.len() - 1 {
        lemma_sum_nonneg(s.drop_last());
    } else {
        lemma_entry_le_sum(s.drop_last(), i);
    }
}

/// Effect of replacing one record on the sum of stake amounts.
pub proof fn lemma_sum_update(s: Seq<StakerEntry>, i: int, e: StakerEntry)
    requires
        0 <= i < s.len(),
    ensures
        sum_amounts(s.update(i, e)) == sum_amounts(s) - s[i].info.amount + e.info.amount,
    decreases s.len(),
{
    let t = s.update(i, e);
    if i == s.len() - 1 {
        assert(t.drop_last() =~= s.drop_last());
    } else {
        assert(t.drop_last() =~= s.drop_last().update(i, e));
        lemma_sum_update(s.drop_last(), i, e);
    }
}

/// Effect of appending a record on the sum of stake amounts.
pub proof fn lemma_sum_push(s: Seq<StakerEntry>, e: StakerEntry)
    ensures
        sum_amounts(s.push(e)) == sum_amounts(s) + e.info.amount,
{
    assert(s.push(e).drop_last() =~= s);
}

/// Replacing a record with one for the same account preserves
/// distinctness and leaves every other account's lookup unchanged.
pub proof fn lemma_update_same_account(s: Seq<StakerEntry>, i: int, e: StakerEntry)
    requires
        distinct_accounts(s),
        0 <= i < s.len(),
        e.account == s[i].account,
    ensures
        distinct_accounts(s.update(i, e)),
        has_staker(s.update(i, e), e.account),
        staker_index(s.update(i, e), e.account) == i,
        staker_lookup(s.update(i, e), e.account) == Some(e.info),
        forall|b: AccountId|
            b != e.account ==> staker_lookup(s.update(i, e), b) == staker_lookup(s, b),
{
    let t = s.update(i, e);
    assert(forall|k: int| 0 <= k < t.len() ==> t[k].account == s[k].account);
    lemma_index_unique(t, e.account, i);
    assert forall|b: AccountId| b != e.account implies staker_lookup(t, b) == staker_lookup(
        s,
        b,
    ) by {
        if has_staker(s, b) {
            let j = staker_index(s, b);
            lemma_index_unique(s, b, j);
            assert(t[j].account == b);
            lemma_index_unique(t, b, j);
            assert(j != i);
        } else {
            if has_staker(t, b) {
                let j = staker_index(t, b);
                assert(s[j].account == b);
            }
        }
    }
}

/// Appending a record for a fresh account preserves distinctness and
/// leaves every other account's lookup unchanged.
pub proof fn lemma_push_new_account(s: Seq<StakerEntry>, e: StakerEntry)
    requires
        distinct_accounts(s),
        !has_staker(s, e.account),
    ensures
        distinct_accounts(s.push(e)),
        has_staker(s.push(e), e.account),
        staker_index(s.push(e), e.account) == s.len(),
        staker_lookup(s.push(e), e.account) == Some(e.info),
        forall|b: AccountId| b != e.account ==> staker_lookup(s.push(e), b) == staker_lookup(s, b),
{
    let t = s.push(e);
    assert forall|x: int, y: int| 0 <= x < y < t.len() implies t[x].account != t[y].account by {
        if y == s.len() {
            assert(t[x] == s[x]);
            if s[x].account == e.account {
                assert(has_staker(s, e.account));
            }
        }
    }
    lemma_index_unique(t, e.account, s.len() as int);
    assert forall|b: AccountId| b != e.account implies staker_lookup(t, b) == staker_lookup(
        s,
        b,
    ) by {
        if has_staker(s, b) {
            let j = staker_index(s, b);
            lemma_index_unique(s, b, j);
            assert(t[j].account == b);
            lemma_index_unique(t, b, j);
        } else {
            if has_staker(t, b) {
                let j = staker_index(t, b);
                assert(0 <= j < s.len());
                assert(s[j].account == b);
            }
        }
    }
}

/// Removing the record at `i` by swapping in the last record: the owning
/// account disappears, every other account's lookup is unchanged, and
/// the sum drops by exactly the removed stake.
pub proof fn lemma_swap_remove(s: Seq<StakerEntry>, i: int)
    requires
        distinct_accounts(s),
        0 <= i < s.len(),
    ensures
        distinct_accounts(swap_removed(s, i)),
        !has_staker(swap_removed(s, i), s[i].account),
        forall|b: AccountId|
            b != s[i].account ==> staker_lookup(swap_removed(s, i), b) == staker_lookup(s, b),
        sum_amounts(swap_removed(s, i)) == sum_amounts(s) - s[i].info.amount,
{
    let u = s.update(i, s.last());
    let t = swap_removed(s, i);
    let n = s.len() as int;
    lemma_sum_update(s, i, s.last());
    assert(u.last() == s.last());
    assert(sum_amounts(u) == sum_amounts(u.drop_last()) + u.last().info.amount);
    assert(forall|k: int|
        0 <= k < n - 1 ==> t[k] == (if k == i {
            s[n - 1]
        } else {
            s[k]
        }));
    assert forall|x: int, y: int| 0 <= x < y < t.len() implies t[x].account != t[y].account by {
        let sx = if x == i {
            n - 1
        } else {
            x
        };
        let sy = if y == i {
            n - 1
        } else {
            y
        };
        assert(t[x] == s[sx] && t[y] == s[sy]);
        assert(sx != sy);
    }
    assert forall|k: int| 0 <= k < t.len() implies t[k].account != s[i].account by {
        let sk = if k == i {
            n - 1
        } else {
            k
        };
        assert(t[k] == s[sk]);
        if sk != i {
            assert(s[sk].account != s[i].account);
        }
    }
    assert forall|b: AccountId| b != s[i].account implies staker_lookup(t, b) == staker_lookup(
        s,
        b,
    ) by {
        if has_staker(s, b) {
            let j = staker_index(s, b);
            lemma_index_unique(s, b, j);
            let k = if j == n - 1 {
                i
            } else {
                j
            };
            if j == n - 1 && i == n - 1 {
                assert(b == s[i].account);
            } else {
                assert(0 <= k < t.len());
                assert(t[k] == s[j]);
                lemma_index_unique(t, b, k);
            }
        } else {
            if has_staker(t, b) {
                let j = staker_index(t, b);
                let sj = if j == i {
                    n - 1
                } else {
                    j
                };
                assert(t[j] == s[sj]);
                assert(has_staker(s, b));
            }
        }
    }
}

} // verus!
