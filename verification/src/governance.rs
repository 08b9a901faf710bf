//! The governance controller: propose, vote and execute. Proposal ids
//! are sequential, never reused and never deleted; the proposal with id
//! `i` sits at index `i` of the proposal store.

use vstd::prelude::*;

use crate::model::{
    execute_transition, propose_transition, vote_transition, voter_weight, wf, LedgerV,
};
use crate::state::DevKitShowcase;
use crate::types::{
    AccountId, Balance, Error, Event, Proposal, ProposalCreated, ProposalExecuted, ProposalV,
    Voted,
};

verus! {

/// Linear membership scan over a voter list.
fn contains_account(v: &Vec<AccountId>, account: AccountId) -> (r: bool)
    ensures
        r == v@.contains(account),
{
    let n = v.len();
    let mut i: usize = 0;
    while i < n
        invariant
            n == v@.len(),
            i <= n,
            forall|j: int| 0 <= j < i ==> v@[j] != account,
        decreases n - i,
    {
        if v[i] == account {
            assert(v@.contains(account));
            return true;
        }
        i = i + 1;
    }
    false
}

impl DevKitShowcase {
    /// Voting weight of `voter`, as reported by the voting-weight
    /// source. This deployment stubs the source with a fixed balance; a
    /// production build would query the governance token.
    fn get_voter_balance(&self, voter: AccountId) -> (r: Balance)
        ensures
            r == voter_weight(voter),
    {
        1000
    }

    /// Create a proposal owned by `proposer`, with a voting window of
    /// the configured period starting at `now`. Returns the new
    /// sequential id and queues a creation notification.
    pub fn propose(&mut self, proposer: AccountId, description: String, now: u64) -> (r: Result<
        u32,
        Error,
    >)
        requires
            wf(old(self)@),
        ensures
            wf(final(self)@),
            (match propose_transition(old(self)@, proposer, description@, now) {
                Ok((v, id)) => r == Ok::<u32, Error>(id) && final(self)@ == v
                    && final(self).events@ == old(self).events@.push(
                    Event::ProposalCreated(
                        ProposalCreated { proposal_id: id, proposer, description },
                    ),
                ),
                Err(e) => r == Err::<u32, Error>(e) && *final(self) == *old(self),
            }),
    {
        if self.proposal_count == u32::MAX {
            return Err(Error::ArithmeticOverflow);
        }
        let end_time = match now.checked_add(self.voting_period) {
            Some(x) => x,
            None => {
                return Err(Error::ArithmeticOverflow);
            },
        };
        let ghost s0 = self@;
        let proposal_id = self.proposal_count;
        let p = Proposal {
            proposer,
            description: description.clone(),
            start_time: now,
            end_time,
            for_votes: 0,
            against_votes: 0,
            executed: false,
            voters: Vec::new(),
        };
        self.proposals.push(p);
        self.proposal_count = self.proposal_count + 1;
        self.events.push(
            Event::ProposalCreated(ProposalCreated { proposal_id, proposer, description }),
        );
        proof {
            assert(self@.proposals =~= s0.proposals.push(
                ProposalV {
                    proposer,
                    description: description@,
                    start_time: now,
                    end_time,
                    for_votes: 0,
                    against_votes: 0,
                    executed: false,
                    voters: Seq::empty(),
                },
            ));
            assert(self@ =~= (LedgerV {
                proposals: self@.proposals,
                proposal_count: (s0.proposal_count + 1) as u32,
                ..s0
            }));
        }
        Ok(proposal_id)
    }

    /// Cast the caller's vote on a proposal. Voting is valid through
    /// `end_time` inclusive; an account may vote at most once per
    /// proposal. The caller's weight is added to the chosen tally and a
    /// vote notification is queued.
    pub fn vote(&mut self, proposal_id: u32, support: bool, caller: AccountId, now: u64) -> (r:
        Result<(), Error>)
        requires
            wf(old(self)@),
        ensures
            wf(final(self)@),
            (match vote_transition(old(self)@, proposal_id, support, caller, now) {
                Ok(v) => r is Ok && final(self)@ == v && final(self).events@ == old(self).events@
                    .push(
                    Event::Voted(
                        Voted { proposal_id, voter: caller, support, votes: voter_weight(caller) },
                    ),
                ),
                Err(e) => r == Err::<(), Error>(e) && *final(self) == *old(self),
            }),
    {
        let i = proposal_id as usize;
        if i >= self.proposals.len() {
            return Err(Error::ProposalNotFound);
        }
        let w = self.get_voter_balance(caller);
        {
            let p = &self.proposals[i];
            if now > p.end_time {
                return Err(Error::VotingPeriodEnded);
            }
            if contains_account(&p.voters, caller) {
                return Err(Error::AlreadyVoted);
            }
            if support {
                if p.for_votes.checked_add(w).is_none() {
                    return Err(Error::ArithmeticOverflow);
                }
            } else {
                if p.against_votes.checked_add(w).is_none() {
                    return Err(Error::ArithmeticOverflow);
                }
            }
        }
        let ghost s0 = self@;
        let mut p = self.proposals.remove(i);
        if support {
            p.for_votes = p.for_votes + w;
        } else {
            p.against_votes = p.against_votes + w;
        }
        p.voters.push(caller);
        self.proposals.insert(i, p);
        self.events.push(
            Event::Voted(Voted { proposal_id, voter: caller, support, votes: w }),
        );
        proof {
            let old_p = s0.proposals[proposal_id as int];
            let new_p = ProposalV {
                for_votes: if support {
                    (old_p.for_votes + voter_weight(caller)) as u128
                } else {
                    old_p.for_votes
                },
                against_votes: if support {
                    old_p.against_votes
                } else {
                    (old_p.against_votes + voter_weight(caller)) as u128
                },
                voters: old_p.voters.push(caller),
                ..old_p
            };
            assert(self@.proposals =~= s0.proposals.update(proposal_id as int, new_p));
            assert(self@ =~= (LedgerV { proposals: self@.proposals, ..s0 }));
        }
        Ok(())
    }

    /// Execute a proposal whose voting window has fully elapsed, whose
    /// combined tally reaches the quorum threshold, and whose votes in
    /// favor hold a strict majority (ties are rejections). Marks the
    /// proposal executed — a one-way step — and queues an execution
    /// notification. Re-running a closed, unexecuted proposal re-derives
    /// the same outcome; re-running an executed one always reports
    /// `AlreadyExecuted`.
    pub fn execute(&mut self, proposal_id: u32, now: u64) -> (r: Result<(), Error>)
        requires
            wf(old(self)@),
        ensures
            wf(final(self)@),
            (match execute_transition(old(self)@, proposal_id, now) {
                Ok(v) => r is Ok && final(self)@ == v && final(self).events@ == old(self).events@
                    .push(Event::ProposalExecuted(ProposalExecuted { proposal_id })),
                Err(e) => r == Err::<(), Error>(e) && *final(self) == *old(self),
            }),
    {
        let i = proposal_id as usize;
        if i >= self.proposals.len() {
            return Err(Error::ProposalNotFound);
        }
        {
            let p = &self.proposals[i];
            if p.executed {
                return Err(Error::AlreadyExecuted);
            }
            if now <= p.end_time {
                return Err(Error::VotingPeriodActive);
            }
            let total = match p.for_votes.checked_add(p.against_votes) {
                Some(x) => x,
                None => {
                    return Err(Error::ArithmeticOverflow);
                },
            };
            if total < self.quorum_threshold {
                return Err(Error::QuorumNotMet);
            }
            if p.for_votes <= p.against_votes {
                return Err(Error::ProposalRejected);
            }
        }
        let ghost s0 = self@;
        let mut p = self.proposals.remove(i);
        p.executed = true;
        self.proposals.insert(i, p);
        self.events.push(Event::ProposalExecuted(ProposalExecuted { proposal_id }));
        proof {
            let old_p = s0.proposals[proposal_id as int];
            assert(self@.proposals =~= s0.proposals.update(
                proposal_id as int,
                ProposalV { executed: true, ..old_p },
            ));
            assert(self@ =~= (LedgerV { proposals: self@.proposals, ..s0 }));
        }
        Ok(())
    }
}

} // verus!
