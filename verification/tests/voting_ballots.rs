use coop_finance::voting::{ProposalStatus, ProposalType, VotingContract, VotingError};

fn acct(s: &str) -> String {
    s.to_string()
}

fn members() -> Vec<String> {
    vec![acct("ALICE"), acct("A"), acct("B"), acct("C")]
}

fn setup() -> VotingContract {
    let mut v = VotingContract::new();
    v.initialize(acct("ADMIN"), acct("TREASURY"));
    v
}

fn propose(v: &mut VotingContract, days: u32, now: u64) -> Result<u32, VotingError> {
    v.create_proposal(
        &members(),
        acct("ALICE"),
        ProposalType::TreasurySpend,
        acct("Buy seeds"),
        acct("Spend 100 on seeds"),
        days,
        3,
        acct("payload"),
        now,
    )
}

#[test]
fn proposal_fields_and_deadline() {
    let mut v = setup();
    let id = propose(&mut v, 7, 1_000).unwrap();
    assert_eq!(id, 1);
    let ps = v.get_proposals();
    assert_eq!(ps.len(), 1);
    let p = &ps[0];
    assert_eq!(p.id, 1);
    assert_eq!(p.proposer, "ALICE");
    assert_eq!(p.proposal_type, ProposalType::TreasurySpend);
    assert_eq!(p.title, "Buy seeds");
    assert_eq!(p.description, "Spend 100 on seeds");
    assert_eq!(p.votes_for, 0);
    assert_eq!(p.votes_against, 0);
    assert_eq!(p.quorum, 3);
    assert_eq!(p.deadline, 1_000 + 7 * 86_400);
    assert_eq!(p.status, ProposalStatus::Active);
    assert_eq!(p.created_at, 1_000);
    assert_eq!(p.payload, "payload");
}

#[test]
fn proposal_ids_are_consecutive() {
    let mut v = setup();
    assert_eq!(propose(&mut v, 1, 0), Ok(1));
    assert_eq!(propose(&mut v, 1, 0), Ok(2));
    assert_eq!(propose(&mut v, 1, 0), Ok(3));
    let ids: Vec<u32> = v.get_proposals().iter().map(|p| p.id).collect();
    assert_eq!(ids, vec![1, 2, 3]);
    assert_eq!(v.proposal_counter, 3);
}

#[test]
fn proposals_can_be_created_before_initialize() {
    let mut v = VotingContract::new();
    assert_eq!(propose(&mut v, 1, 0), Ok(1));
    v.initialize(acct("ADMIN"), acct("TREASURY"));
    assert!(v.get_proposals().is_empty());
    assert_eq!(propose(&mut v, 1, 0), Ok(1));
}

#[test]
fn votes_are_tallied() {
    let mut v = setup();
    let id = propose(&mut v, 7, 0).unwrap();
    assert_eq!(v.vote(&members(), acct("A"), id, true, 10), Ok(()));
    assert_eq!(v.vote(&members(), acct("B"), id, true, 10), Ok(()));
    assert_eq!(v.vote(&members(), acct("C"), id, false, 10), Ok(()));
    let p = &v.get_proposals()[0];
    assert_eq!(p.votes_for, 2);
    assert_eq!(p.votes_against, 1);
}

#[test]
fn second_vote_is_refused() {
    let mut v = setup();
    let id = propose(&mut v, 7, 0).unwrap();
    v.vote(&members(), acct("A"), id, true, 10).unwrap();
    assert_eq!(v.vote(&members(), acct("A"), id, false, 11), Err(VotingError::AlreadyVoted));
    assert_eq!(v.vote(&members(), acct("A"), id, true, 11), Err(VotingError::AlreadyVoted));
    let p = &v.get_proposals()[0];
    assert_eq!(p.votes_for, 1);
    assert_eq!(p.votes_against, 0);
}

#[test]
fn voter_may_vote_on_each_proposal() {
    let mut v = setup();
    let first = propose(&mut v, 7, 0).unwrap();
    let second = propose(&mut v, 7, 0).unwrap();
    assert_eq!(v.vote(&members(), acct("A"), first, true, 1), Ok(()));
    assert_eq!(v.vote(&members(), acct("A"), second, false, 1), Ok(()));
    let ps = v.get_proposals();
    assert_eq!((ps[0].votes_for, ps[0].votes_against), (1, 0));
    assert_eq!((ps[1].votes_for, ps[1].votes_against), (0, 1));
}

#[test]
fn vote_at_deadline_is_accepted_and_after_refused() {
    let mut v = setup();
    let id = propose(&mut v, 1, 100).unwrap();
    let deadline = 100 + 86_400;
    assert_eq!(v.vote(&members(), acct("A"), id, true, deadline), Ok(()));
    assert_eq!(v.vote(&members(), acct("B"), id, true, deadline + 1), Err(VotingError::VotingClosed));
}

#[test]
fn vote_on_unknown_proposal_is_refused() {
    let mut v = setup();
    assert_eq!(v.vote(&members(), acct("A"), 1, true, 0), Err(VotingError::ProposalNotFound));
    propose(&mut v, 1, 0).unwrap();
    assert_eq!(v.vote(&members(), acct("A"), 2, true, 0), Err(VotingError::ProposalNotFound));
}

#[test]
fn vote_on_inactive_proposal_is_refused() {
    let mut v = setup();
    let id = propose(&mut v, 1, 0).unwrap();
    v.proposals[0].status = ProposalStatus::Passed;
    assert_eq!(v.vote(&members(), acct("A"), id, true, 0), Err(VotingError::NotActive));
}

#[test]
fn vote_without_ballot_book_is_refused() {
    let mut v = setup();
    let id = propose(&mut v, 1, 0).unwrap();
    v.vote_books.clear();
    assert_eq!(v.vote(&members(), acct("A"), id, true, 0), Err(VotingError::BallotsMissing));
}

#[test]
fn full_tally_is_refused() {
    let mut v = setup();
    let id = propose(&mut v, 1, 0).unwrap();
    v.proposals[0].votes_for = u32::MAX;
    assert_eq!(v.vote(&members(), acct("A"), id, true, 0), Err(VotingError::TallyOverflow));
    assert_eq!(v.vote(&members(), acct("A"), id, false, 0), Ok(()));
}

#[test]
fn proposal_counter_overflow_is_refused() {
    let mut v = setup();
    v.proposal_counter = u32::MAX;
    assert_eq!(propose(&mut v, 1, 0), Err(VotingError::CounterOverflow));
}

#[test]
fn deadline_overflow_is_refused() {
    let mut v = setup();
    assert_eq!(propose(&mut v, 1, u64::MAX - 86_399), Err(VotingError::DeadlineOverflow));
    assert_eq!(propose(&mut v, 1, u64::MAX - 86_400), Ok(1));
}

#[test]
fn reinitialize_starts_over_with_fresh_ballots() {
    let mut v = setup();
    let id = propose(&mut v, 7, 0).unwrap();
    v.vote(&members(), acct("A"), id, true, 1).unwrap();
    v.initialize(acct("ADMIN"), acct("TREASURY"));
    assert!(v.get_proposals().is_empty());
    let again = propose(&mut v, 7, 0).unwrap();
    assert_eq!(again, 1);
    assert_eq!(v.vote(&members(), acct("A"), again, true, 1), Ok(()));
    assert_eq!(v.get_proposals()[0].votes_for, 1);
}

#[test]
fn proposal_by_non_member_is_refused() {
    let mut v = setup();
    let r = v.create_proposal(
        &members(),
        acct("EVE"),
        ProposalType::General,
        acct("t"),
        acct("d"),
        1,
        1,
        acct("p"),
        0,
    );
    assert_eq!(r, Err(VotingError::NotMember));
    assert!(v.get_proposals().is_empty());
    assert_eq!(v.proposal_counter, 0);
}

#[test]
fn vote_by_non_member_is_refused() {
    let mut v = setup();
    let id = propose(&mut v, 7, 0).unwrap();
    assert_eq!(v.vote(&members(), acct("EVE"), id, true, 1), Err(VotingError::NotMember));
    assert_eq!(v.vote(&Vec::new(), acct("A"), id, true, 1), Err(VotingError::NotMember));
    let p = &v.get_proposals()[0];
    assert_eq!((p.votes_for, p.votes_against), (0, 0));
}

#[test]
fn recorded_vote_blocks_later_votes_through_other_calls() {
    let mut v = setup();
    let id = propose(&mut v, 7, 0).unwrap();
    v.vote(&members(), acct("A"), id, true, 1).unwrap();
    let other = propose(&mut v, 7, 2).unwrap();
    v.vote(&members(), acct("B"), id, false, 3).unwrap();
    v.vote(&members(), acct("A"), other, true, 4).unwrap();
    assert_eq!(v.vote(&members(), acct("A"), id, false, 5), Err(VotingError::AlreadyVoted));
    let p = &v.get_proposals()[0];
    assert_eq!((p.votes_for, p.votes_against), (1, 1));
}
