use devkit_showcase::{DevKitShowcase, Error, Event};

fn gov_contract() -> DevKitShowcase {
    // token reference 9, voting period 100, quorum 1000, reward rate 0
    DevKitShowcase::new(9, 100, 1000, 0, 0)
}

#[test]
fn propose_assigns_sequential_ids() {
    let mut c = gov_contract();
    assert_eq!(c.propose(5, String::from("a"), 0), Ok(0));
    assert_eq!(c.propose(6, String::from("b"), 3), Ok(1));
    assert_eq!(c.propose(5, String::from("c"), 9), Ok(2));
}

#[test]
fn propose_stores_the_record() {
    let mut c = gov_contract();
    assert_eq!(c.propose(5, String::from("upgrade"), 7), Ok(0));
    let p = c.get_proposal(0).expect("proposal exists");
    assert_eq!(p.proposer, 5);
    assert_eq!(p.description, "upgrade");
    assert_eq!(p.start_time, 7);
    assert_eq!(p.end_time, 107);
    assert_eq!(p.for_votes, 0);
    assert_eq!(p.against_votes, 0);
    assert!(!p.executed);
    assert!(p.voters.is_empty());
    assert!(c.get_proposal(1).is_none());
}

#[test]
fn propose_end_time_overflow_is_reported() {
    let mut c = DevKitShowcase::new(9, u64::MAX, 1000, 0, 0);
    assert_eq!(c.propose(5, String::from("x"), 1), Err(Error::ArithmeticOverflow));
    assert!(c.get_proposal(0).is_none());
}

#[test]
fn vote_on_unknown_proposal_fails() {
    let mut c = gov_contract();
    assert_eq!(c.vote(0, true, 7, 0), Err(Error::ProposalNotFound));
}

#[test]
fn vote_tallies_weight_by_side() {
    let mut c = gov_contract();
    assert_eq!(c.propose(5, String::from("x"), 0), Ok(0));
    assert_eq!(c.vote(0, true, 7, 10), Ok(()));
    assert_eq!(c.vote(0, false, 8, 20), Ok(()));
    let p = c.get_proposal(0).unwrap();
    assert_eq!(p.for_votes, 1000);
    assert_eq!(p.against_votes, 1000);
    assert_eq!(p.voters, vec![7, 8]);
}

#[test]
fn vote_at_deadline_succeeds_one_tick_later_fails() {
    let mut c = gov_contract();
    assert_eq!(c.propose(5, String::from("x"), 0), Ok(0));
    // end_time is 100: the instant itself is still valid
    assert_eq!(c.vote(0, true, 7, 100), Ok(()));
    assert_eq!(c.vote(0, true, 8, 101), Err(Error::VotingPeriodEnded));
    let p = c.get_proposal(0).unwrap();
    assert_eq!(p.voters, vec![7]);
}

#[test]
fn double_vote_is_rejected() {
    let mut c = gov_contract();
    assert_eq!(c.propose(5, String::from("x"), 0), Ok(0));
    assert_eq!(c.vote(0, true, 7, 1), Ok(()));
    assert_eq!(c.vote(0, false, 7, 2), Err(Error::AlreadyVoted));
    let p = c.get_proposal(0).unwrap();
    assert_eq!(p.for_votes, 1000);
    assert_eq!(p.against_votes, 0);
    assert_eq!(p.voters, vec![7]);
}

#[test]
fn quorum_reached_majority_executes() {
    // quorum 1000; a single voter with weight 1000 voting in favor
    // reaches quorum, and execution succeeds once the window has passed
    let mut c = gov_contract();
    assert_eq!(c.propose(5, String::from("x"), 0), Ok(0));
    assert_eq!(c.vote(0, true, 7, 50), Ok(()));
    let p = c.get_proposal(0).unwrap();
    assert_eq!(p.for_votes, 1000);
    assert_eq!(p.against_votes, 0);
    assert_eq!(c.execute(0, 101), Ok(()));
    assert!(c.get_proposal(0).unwrap().executed);
}

#[test]
fn execute_before_deadline_fails() {
    let mut c = gov_contract();
    assert_eq!(c.propose(5, String::from("x"), 0), Ok(0));
    assert_eq!(c.vote(0, true, 7, 50), Ok(()));
    // the window is still open at end_time itself
    assert_eq!(c.execute(0, 100), Err(Error::VotingPeriodActive));
    assert!(!c.get_proposal(0).unwrap().executed);
}

#[test]
fn execute_without_quorum_fails() {
    let mut c = gov_contract();
    assert_eq!(c.propose(5, String::from("x"), 0), Ok(0));
    assert_eq!(c.execute(0, 101), Err(Error::QuorumNotMet));
}

#[test]
fn execute_tie_is_rejected() {
    let mut c = gov_contract();
    assert_eq!(c.propose(5, String::from("x"), 0), Ok(0));
    assert_eq!(c.vote(0, true, 7, 1), Ok(()));
    assert_eq!(c.vote(0, false, 8, 2), Ok(()));
    assert_eq!(c.execute(0, 101), Err(Error::ProposalRejected));
    // a closed, unexecuted proposal re-derives the same outcome
    assert_eq!(c.execute(0, 500), Err(Error::ProposalRejected));
}

#[test]
fn execute_majority_against_is_rejected() {
    let mut c = gov_contract();
    assert_eq!(c.propose(5, String::from("x"), 0), Ok(0));
    assert_eq!(c.vote(0, false, 7, 1), Ok(()));
    assert_eq!(c.execute(0, 101), Err(Error::ProposalRejected));
}

#[test]
fn execute_unknown_proposal_fails() {
    let mut c = gov_contract();
    assert_eq!(c.execute(3, 101), Err(Error::ProposalNotFound));
}

#[test]
fn execute_twice_reports_already_executed_and_emits_once() {
    let mut c = gov_contract();
    assert_eq!(c.propose(5, String::from("x"), 0), Ok(0));
    assert_eq!(c.vote(0, true, 7, 50), Ok(()));
    assert_eq!(c.execute(0, 101), Ok(()));
    let events = c.take_events();
    let executions = events
        .iter()
        .filter(|e| matches!(e, Event::ProposalExecuted(_)))
        .count();
    assert_eq!(executions, 1);
    assert_eq!(c.execute(0, 102), Err(Error::AlreadyExecuted));
    assert_eq!(c.execute(0, 500), Err(Error::AlreadyExecuted));
    assert!(c.take_events().is_empty());
    assert!(c.get_proposal(0).unwrap().executed);
}

#[test]
fn governance_events_carry_ids_and_weights() {
    let mut c = gov_contract();
    assert_eq!(c.propose(5, String::from("x"), 0), Ok(0));
    assert_eq!(c.vote(0, true, 7, 1), Ok(()));
    let events = c.take_events();
    assert_eq!(events.len(), 2);
    match &events[0] {
        Event::ProposalCreated(e) => {
            assert_eq!(e.proposal_id, 0);
            assert_eq!(e.proposer, 5);
            assert_eq!(e.description, "x");
        }
        other => panic!("expected a creation event, got {:?}", other),
    }
    match &events[1] {
        Event::Voted(e) => {
            assert_eq!(e.proposal_id, 0);
            assert_eq!(e.voter, 7);
            assert!(e.support);
            assert_eq!(e.votes, 1000);
        }
        other => panic!("expected a vote event, got {:?}", other),
    }
}

#[test]
fn governance_and_staking_coexist() {
    let mut c = DevKitShowcase::new(9, 100, 1000, 10, 0);
    assert_eq!(c.stake(1, 400, 0), Ok(()));
    assert_eq!(c.propose(1, String::from("x"), 0), Ok(0));
    assert_eq!(c.vote(0, true, 1, 10), Ok(()));
    assert_eq!(c.get_staking_pool(), 400);
    assert_eq!(c.get_pending_rewards(1, 10), 100);
    assert_eq!(c.execute(0, 101), Ok(()));
    assert_eq!(c.get_staked_amount(1), 400);
}
