//! Data model: staker records, proposals, errors and events.

use vstd::prelude::*;

verus! {

/// Account identifier, supplied by the hosting environment with each call.
pub type AccountId = u64;

/// Abstract balance unit; staked principal, rewards and vote weights are
/// all tracked in this unit. Moving value in or out of the ledger is an
/// external concern.
pub type Balance = u128;

/// Per-account stake record.
#[derive(Debug, Clone, Copy, PartialEq, Eq, Structural)]
pub struct StakerInfo {
    /// Staked principal.
    pub amount: Balance,
    /// Accrued-but-unclaimed reward.
    pub reward_debt: Balance,
    /// Timestamp of the most recent accrual touching this record.
    pub last_update: u64,
}

/// A staker record together with the account that owns it.
#[derive(Debug, Clone, Copy, PartialEq, Eq, Structural)]
pub struct StakerEntry {
    pub account: AccountId,
    pub info: StakerInfo,
}

/// A governance proposal. `end_time` is fixed at creation; `executed` is
/// one-way; `voters` only grows.
#[derive(Debug)]
pub struct Proposal {
    pub proposer: AccountId,
    pub description: String,
    pub start_time: u64,
    pub end_time: u64,
    pub for_votes: Balance,
    pub against_votes: Balance,
    pub executed: bool,
    pub voters: Vec<AccountId>,
}

/// Mathematical view of a [`Proposal`].
#[verifier::ext_equal]
pub struct ProposalV {
    pub proposer: AccountId,
    pub description: Seq<char>,
    pub start_time: u64,
    pub end_time: u64,
    pub for_votes: Balance,
    pub against_votes: Balance,
    pub executed: bool,
    pub voters: Seq<AccountId>,
}

impl View for Proposal {
    type V = ProposalV;

    open spec fn view(&self) -> ProposalV {
        ProposalV {
            proposer: self.proposer,
            description: self.description@,
            start_time: self.start_time,
            end_time: self.end_time,
            for_votes: self.for_votes,
            against_votes: self.against_votes,
            executed: self.executed,
            voters: self.voters@,
        }
    }
}

impl Clone for Proposal {
    fn clone(&self) -> (r: Self)
        ensures
            r@ == self@,
    {
        let voters = self.voters.clone();
        proof {
            assert forall|i: int| 0 <= i < self.voters@.len() implies voters@[i]
                == self.voters@[i] by {
                assert(cloned::<AccountId>(self.voters@[i], voters@[i]));
            }
            assert(voters@ =~= self.voters@);
        }
        Proposal {
            proposer: self.proposer,
            description: self.description.clone(),
            start_time: self.start_time,
            end_time: self.end_time,
            for_votes: self.for_votes,
            against_votes: self.against_votes,
            executed: self.executed,
            voters,
        }
    }
}

/// Every way an operation can fail. A failed operation has no effect on
/// the ledger.
#[derive(Debug, Clone, Copy, PartialEq, Eq, Structural)]
pub enum Error {
    ProposalNotFound,
    VotingPeriodEnded,
    VotingPeriodActive,
    QuorumNotMet,
    ProposalRejected,
    AlreadyExecuted,
    AlreadyVoted,
    InvalidAmount,
    NoStake,
    InsufficientStake,
    NoRewards,
    ArithmeticOverflow,
}

/// A proposal was created.
#[derive(Debug, Clone)]
pub struct ProposalCreated {
    pub proposal_id: u32,
    pub proposer: AccountId,
    pub description: String,
}

/// A vote was cast.
#[derive(Debug, Clone, Copy, PartialEq, Eq, Structural)]
pub struct Voted {
    pub proposal_id: u32,
    pub voter: AccountId,
    pub support: bool,
    pub votes: Balance,
}

/// A proposal was executed.
#[derive(Debug, Clone, Copy, PartialEq, Eq, Structural)]
pub struct ProposalExecuted {
    pub proposal_id: u32,
}

/// Principal was staked.
#[derive(Debug, Clone, Copy, PartialEq, Eq, Structural)]
pub struct Staked {
    pub staker: AccountId,
    pub amount: Balance,
    pub timestamp: u64,
}

/// Principal was withdrawn. `reward_debt` is the accrued-but-unclaimed
/// reward snapshot at withdrawal time, carried for observers only.
#[derive(Debug, Clone, Copy, PartialEq, Eq, Structural)]
pub struct Unstaked {
    pub staker: AccountId,
    pub amount: Balance,
    pub reward_debt: Balance,
    pub timestamp: u64,
}

/// Accrued rewards were claimed.
#[derive(Debug, Clone, Copy, PartialEq, Eq, Structural)]
pub struct RewardsClaimed {
    pub staker: AccountId,
    pub amount: Balance,
    pub timestamp: u64,
}

/// Observer notification, queued after a mutation commits and drained by
/// the embedding layer. Delivery is not required for correctness.
#[derive(Debug, Clone)]
pub enum Event {
    ProposalCreated(ProposalCreated),
    Voted(Voted),
    ProposalExecuted(ProposalExecuted),
    Staked(Staked),
    Unstaked(Unstaked),
    RewardsClaimed(RewardsClaimed),
}

} // verus!
