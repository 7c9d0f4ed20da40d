//! Voting: members raise proposals and vote on them, once each, until a
//! proposal's deadline.

use vstd::prelude::*;

use crate::common::{
    AccountId, Duplicate, Keyed, SECONDS_PER_DAY, contains_account, copy_all, find_first, first_position,
    has_account, keys_of, lemma_first_position_at, lemma_first_position_props, lemma_first_position_push,
};

verus! {

/// Where a proposal stands.
#[derive(Clone, Copy, Debug, PartialEq, Eq, Structural)]
pub enum ProposalStatus {
    Active,
    Passed,
    Failed,
    Executed,
}

/// What a proposal is about.
#[derive(Clone, Copy, Debug, PartialEq, Eq, Structural)]
pub enum ProposalType {
    LoanApproval,
    TreasurySpend,
    AddMember,
    RemoveMember,
    UpdateRule,
    General,
}

/// A proposal and its running tally.
pub struct Proposal {
    pub id: u32,
    pub proposer: AccountId,
    pub proposal_type: ProposalType,
    pub title: String,
    pub description: String,
    pub votes_for: u32,
    pub votes_against: u32,
    pub quorum: u32,
    pub deadline: u64,
    pub status: ProposalStatus,
    pub created_at: u64,
    pub payload: String,
}

impl Keyed for Proposal {
    open spec fn key(&self) -> u32 {
        self.id
    }

    fn get_key(&self) -> (k: u32) {
        self.id
    }
}

impl Duplicate for Proposal {
    fn duplicate(&self) -> (p: Proposal) {
        Proposal {
            id: self.id,
            proposer: self.proposer.clone(),
            proposal_type: self.proposal_type,
            title: self.title.clone(),
            description: self.description.clone(),
            votes_for: self.votes_for,
            votes_against: self.votes_against,
            quorum: self.quorum,
            deadline: self.deadline,
            status: self.status,
            created_at: self.created_at,
            payload: self.payload.clone(),
        }
    }
}

/// One member's vote on a proposal.
pub struct Ballot {
    pub voter: AccountId,
    pub approve: bool,
}

impl Duplicate for Ballot {
    fn duplicate(&self) -> (b: Ballot) {
        Ballot { voter: self.voter.clone(), approve: self.approve }
    }
}

/// The ballots cast on the proposal with id `proposal_id`.
pub struct VoteBook {
    pub proposal_id: u32,
    pub ballots: Vec<Ballot>,
}

/// The ballots cast on one proposal, as a sequence.
pub struct VoteBookModel {
    pub proposal_id: u32,
    pub ballots: Seq<Ballot>,
}

impl Keyed for VoteBook {
    open spec fn key(&self) -> u32 {
        self.proposal_id
    }

    fn get_key(&self) -> (k: u32) {
        self.proposal_id
    }
}

impl View for VoteBook {
    type V = VoteBookModel;

    open spec fn view(&self) -> VoteBookModel {
        VoteBookModel { proposal_id: self.proposal_id, ballots: self.ballots@ }
    }
}

/// The addresses that `initialize` registers.
pub struct VotingConfig {
    pub admin: AccountId,
    pub treasury: AccountId,
}

/// Why an operation of the voting contract was refused.
#[derive(Clone, Copy, Debug, PartialEq, Eq, Structural)]
pub enum VotingError {
    /// The caller is not a member of the cooperative.
    NotMember,
    /// The proposal counter is at its maximum.
    CounterOverflow,
    /// The deadline would lie beyond the range of `u64` seconds.
    DeadlineOverflow,
    /// No proposal has the given id.
    ProposalNotFound,
    /// The proposal is no longer active.
    NotActive,
    /// The proposal's deadline has passed.
    VotingClosed,
    /// No ballots are stored for the proposal.
    BallotsMissing,
    /// The voter has already voted on the proposal.
    AlreadyVoted,
    /// The tally that the vote adds to is at its maximum.
    TallyOverflow,
}

/// The stored state of the voting contract: its addresses, its proposal
/// counter (zero where none is stored), its proposals in order of creation,
/// and a book of ballots for each proposal id.
pub struct VotingContract {
    pub config: Option<VotingConfig>,
    pub proposal_counter: u32,
    pub proposals: Vec<Proposal>,
    pub vote_books: Vec<VoteBook>,
}

/// The stored state of the voting contract, with its lists as sequences.
pub struct VotingModel {
    pub config: Option<VotingConfig>,
    pub proposal_counter: u32,
    pub proposals: Seq<Proposal>,
    pub vote_books: Seq<VoteBookModel>,
}

impl View for VotingContract {
    type V = VotingModel;

    open spec fn view(&self) -> VotingModel {
        VotingModel {
            config: self.config,
            proposal_counter: self.proposal_counter,
            proposals: self.proposals@,
            vote_books: self.vote_books@.map_values(|b: VoteBook| b@),
        }
    }
}

/// The ids of a list of proposals.
pub open spec fn proposal_ids(ps: Seq<Proposal>) -> Seq<u32> {
    ps.map_values(|p: Proposal| p.id)
}

/// The proposal ids of a list of ballot books.
pub open spec fn book_ids(bs: Seq<VoteBookModel>) -> Seq<u32> {
    bs.map_values(|b: VoteBookModel| b.proposal_id)
}

/// `voter` has cast one of `ballots`.
pub open spec fn has_voted(ballots: Seq<Ballot>, voter: Seq<char>) -> bool {
    exists|i: int| 0 <= i < ballots.len() && (#[trigger] ballots[i]).voter@ == voter
}

/// The number of ballots that approve (or reject, for `approve == false`).
pub open spec fn count_votes(ballots: Seq<Ballot>, approve: bool) -> nat
    decreases ballots.len(),
{
    if ballots.len() == 0 {
        0
    } else {
        count_votes(ballots.drop_last(), approve) + if ballots.last().approve == approve {
            1nat
        } else {
            0nat
        }
    }
}

/// No voter has cast two of `ballots`.
pub open spec fn voters_distinct(ballots: Seq<Ballot>) -> bool {
    forall|i: int, j: int|
        0 <= i < j < ballots.len() ==> (#[trigger] ballots[i]).voter@ != (#[trigger] ballots[j]).voter@
}

/// The tallies of `p` count `ballots`, which hold one vote per voter.
pub open spec fn tally_matches(p: Proposal, ballots: Seq<Ballot>) -> bool {
    &&& voters_distinct(ballots)
    &&& count_votes(ballots, true) == p.votes_for
    &&& count_votes(ballots, false) == p.votes_against
}

/// The books after the book of proposal `id` is set to `ballots`: the first
/// book with that id is replaced, or a new book is added.
pub open spec fn set_book(books: Seq<VoteBookModel>, id: u32, ballots: Seq<Ballot>) -> Seq<VoteBookModel> {
    match first_position(book_ids(books), id) {
        Some(b) => books.update(b, VoteBookModel { proposal_id: id, ballots: ballots }),
        None => books.push(VoteBookModel { proposal_id: id, ballots: ballots }),
    }
}

impl VotingModel {
    /// The book of ballots of proposal `id`, if one is stored.
    pub open spec fn book_of(self, id: u32) -> Option<VoteBookModel> {
        match first_position(book_ids(self.vote_books), id) {
            Some(b) => Some(self.vote_books[b]),
            None => None,
        }
    }

    /// State after `initialize`.
    pub open spec fn initialize_spec(self, admin: AccountId, treasury: AccountId) -> VotingModel {
        VotingModel {
            config: Some(VotingConfig { admin: admin, treasury: treasury }),
            proposal_counter: 0,
            proposals: Seq::empty(),
            vote_books: self.vote_books,
        }
    }

    /// State and result of `create_proposal`.
    pub open spec fn create_proposal_spec(
        self,
        members: Seq<AccountId>,
        proposer: AccountId,
        proposal_type: ProposalType,
        title: String,
        description: String,
        voting_days: u32,
        quorum: u32,
        payload: String,
        now: u64,
    ) -> (VotingModel, Result<u32, VotingError>) {
        if !has_account(members, proposer@) {
            (self, Err(VotingError::NotMember))
        } else if self.proposal_counter == u32::MAX {
            (self, Err(VotingError::CounterOverflow))
        } else if now + voting_days * SECONDS_PER_DAY > u64::MAX {
            (self, Err(VotingError::DeadlineOverflow))
        } else {
            let id = (self.proposal_counter + 1) as u32;
            let p = Proposal {
                id: id,
                proposer: proposer,
                proposal_type: proposal_type,
                title: title,
                description: description,
                votes_for: 0,
                votes_against: 0,
                quorum: quorum,
                deadline: (now + voting_days * SECONDS_PER_DAY) as u64,
                status: ProposalStatus::Active,
                created_at: now,
                payload: payload,
            };
            (
                VotingModel {
                    config: self.config,
                    proposal_counter: id,
                    proposals: self.proposals.push(p),
                    vote_books: set_book(self.vote_books, id, Seq::empty()),
                },
                Ok(id),
            )
        }
    }

    /// State and result of `vote`.
    pub open spec fn vote_spec(
        self,
        members: Seq<AccountId>,
        voter: AccountId,
        proposal_id: u32,
        approve: bool,
        now: u64,
    ) -> (VotingModel, Result<(), VotingError>) {
        if !has_account(members, voter@) {
            (self, Err(VotingError::NotMember))
        } else {
            match first_position(proposal_ids(self.proposals), proposal_id) {
                None => (self, Err(VotingError::ProposalNotFound)),
                Some(i) => {
                    let p = self.proposals[i];
                    if p.status != ProposalStatus::Active {
                        (self, Err(VotingError::NotActive))
                    } else if now > p.deadline {
                        (self, Err(VotingError::VotingClosed))
                    } else {
                        match first_position(book_ids(self.vote_books), proposal_id) {
                            None => (self, Err(VotingError::BallotsMissing)),
                            Some(b) => {
                                let ballots = self.vote_books[b].ballots;
                                if has_voted(ballots, voter@) {
                                    (self, Err(VotingError::AlreadyVoted))
                                } else if (approve && p.votes_for == u32::MAX) || (!approve && p.votes_against == u32::MAX) {
                                    (self, Err(VotingError::TallyOverflow))
                                } else {
                                    let updated = if approve {
                                        Proposal { votes_for: (p.votes_for + 1) as u32, ..p }
                                    } else {
                                        Proposal { votes_against: (p.votes_against + 1) as u32, ..p }
                                    };
                                    let book = VoteBookModel {
                                        proposal_id: proposal_id,
                                        ballots: ballots.push(Ballot { voter: voter, approve: approve }),
                                    };
                                    (
                                        VotingModel {
                                            config: self.config,
                                            proposal_counter: self.proposal_counter,
                                            proposals: self.proposals.update(i, updated),
                                            vote_books: self.vote_books.update(b, book),
                                        },
                                        Ok(()),
                                    )
                                }
                            },
                        }
                    }
                },
            }
        }
    }

    /// Proposal `i` has id `i + 1`, the counter counts the proposals, and
    /// each proposal has a book of ballots, one per voter, that its tallies
    /// count.
    pub open spec fn well_formed(self) -> bool {
        &&& self.proposal_counter == self.proposals.len()
        &&& forall|i: int| 0 <= i < self.proposals.len() ==> (#[trigger] self.proposals[i]).id == i + 1
        &&& forall|i: int|
            0 <= i < self.proposals.len() ==> {
                &&& (#[trigger] self.book_of(self.proposals[i].id)) is Some
                &&& tally_matches(self.proposals[i], self.book_of(self.proposals[i].id).unwrap().ballots)
            }
    }
}


/// Whether `voter` has cast one of `ballots`.
fn ballots_contain(ballots: &Vec<Ballot>, voter: &AccountId) -> (found: bool)
    ensures
        found == has_voted(ballots@, voter@),
{
    let mut i: usize = 0;
    while i < ballots.len()
        invariant
            i <= ballots.len(),
            forall|j: int| 0 <= j < i ==> (#[trigger] ballots@[j]).voter@ != voter@,
        decreases ballots.len() - i,
    {
        if ballots[i].voter == *voter {
            return true;
        }
        i = i + 1;
    }
    false
}

impl VotingContract {
    /// The state of a contract that nothing has been stored in.
    pub fn new() -> (c: Self)
        ensures
            c@.config is None,
            c@.proposal_counter == 0,
            c@.proposals.len() == 0,
            c@.vote_books.len() == 0,
    {
        VotingContract { config: None, proposal_counter: 0, proposals: Vec::new(), vote_books: Vec::new() }
    }

    /// Registers the admin and the treasury and starts over with no
    /// proposals and the counter at zero; books of ballots already stored
    /// stay, and each is replaced when a proposal with its id is created.
    pub fn initialize(&mut self, admin: AccountId, treasury: AccountId)
        ensures
            final(self)@ == old(self)@.initialize_spec(admin, treasury),
    {
        self.config = Some(VotingConfig { admin, treasury });
        self.proposal_counter = 0;
        self.proposals = Vec::new();
        assert(self.proposals@ =~= Seq::<Proposal>::empty());
    }

    /// Sets the book of ballots of proposal `id`.
    fn set_book(&mut self, id: u32, ballots: Vec<Ballot>)
        ensures
            final(self)@ == (VotingModel { vote_books: set_book(old(self)@.vote_books, id, ballots@), ..old(self)@ }),
    {
        let ghost before = self.vote_books@;
        proof {
            lemma_first_position_props(book_ids(self@.vote_books), id);
        }
        assert(keys_of(self.vote_books@) =~= book_ids(self@.vote_books));
        match find_first(&self.vote_books, id) {
            Some(b) => {
                let book = VoteBook { proposal_id: id, ballots };
                self.vote_books.set(b, book);
                assert(self.vote_books@.map_values(|b: VoteBook| b@)
                    =~= before.map_values(|b: VoteBook| b@).update(b as int, book@));
            },
            None => {
                let book = VoteBook { proposal_id: id, ballots };
                self.vote_books.push(book);
                assert(self.vote_books@.map_values(|b: VoteBook| b@)
                    =~= before.map_values(|b: VoteBook| b@).push(book@));
            },
        }
    }

    /// Creates a proposal by `proposer`, who must be one of `members` (the
    /// members of the cooperative's treasury), with the next id, active,
    /// with no votes, created at `now` (the ledger time) and open until
    /// `voting_days` days later, with an empty book of ballots; returns its
    /// id.
    pub fn create_proposal(
        &mut self,
        members: &Vec<AccountId>,
        proposer: AccountId,
        proposal_type: ProposalType,
        title: String,
        description: String,
        voting_days: u32,
        quorum: u32,
        payload: String,
        now: u64,
    ) -> (r: Result<u32, VotingError>)
        ensures
            (final(self)@, r) == old(self)@.create_proposal_spec(
                members@,
                proposer,
                proposal_type,
                title,
                description,
                voting_days,
                quorum,
                payload,
                now,
            ),
    {
        if !contains_account(members, &proposer) {
            return Err(VotingError::NotMember);
        }
        if self.proposal_counter == u32::MAX {
            return Err(VotingError::CounterOverflow);
        }
        let id = self.proposal_counter + 1;
        let period = (voting_days as u64) * SECONDS_PER_DAY;
        let deadline = match now.checked_add(period) {
            None => {
                return Err(VotingError::DeadlineOverflow);
            },
            Some(d) => d,
        };
        let proposal = Proposal {
            id,
            proposer,
            proposal_type,
            title,
            description,
            votes_for: 0,
            votes_against: 0,
            quorum,
            deadline,
            status: ProposalStatus::Active,
            created_at: now,
            payload,
        };
        self.proposals.push(proposal);
        self.proposal_counter = id;
        let empty: Vec<Ballot> = Vec::new();
        assert(empty@ =~= Seq::<Ballot>::empty());
        self.set_book(id, empty);
        Ok(id)
    }

    /// Casts `voter`'s vote on proposal `proposal_id` at time `now` (the
    /// ledger time): the voter must be one of `members` (the members of the
    /// cooperative's treasury), the proposal must exist, be active and not
    /// past its deadline, and the voter must not have voted on it; the
    /// ballot is added to its book and the matching tally goes up by one.
    pub fn vote(
        &mut self,
        members: &Vec<AccountId>,
        voter: AccountId,
        proposal_id: u32,
        approve: bool,
        now: u64,
    ) -> (r: Result<(), VotingError>)
        ensures
            (final(self)@, r) == old(self)@.vote_spec(members@, voter, proposal_id, approve, now),
    {
        if !contains_account(members, &voter) {
            return Err(VotingError::NotMember);
        }
        assert(keys_of(self.proposals@) =~= proposal_ids(self.proposals@));
        assert(keys_of(self.vote_books@) =~= book_ids(self@.vote_books));
        let i = match find_first(&self.proposals, proposal_id) {
            None => {
                return Err(VotingError::ProposalNotFound);
            },
            Some(i) => i,
        };
        proof {
            lemma_first_position_props(proposal_ids(self.proposals@), proposal_id);
            lemma_first_position_props(book_ids(self@.vote_books), proposal_id);
        }
        let p = self.proposals[i].duplicate();
        if p.status != ProposalStatus::Active {
            return Err(VotingError::NotActive);
        }
        if now > p.deadline {
            return Err(VotingError::VotingClosed);
        }
        let b = match find_first(&self.vote_books, proposal_id) {
            None => {
                return Err(VotingError::BallotsMissing);
            },
            Some(b) => b,
        };
        if ballots_contain(&self.vote_books[b].ballots, &voter) {
            return Err(VotingError::AlreadyVoted);
        }
        if approve && p.votes_for == u32::MAX {
            return Err(VotingError::TallyOverflow);
        }
        if !approve && p.votes_against == u32::MAX {
            return Err(VotingError::TallyOverflow);
        }
        let ghost books_before = self.vote_books@;
        let mut ballots = copy_all(&self.vote_books[b].ballots);
        ballots.push(Ballot { voter, approve });
        let book = VoteBook { proposal_id, ballots };
        self.vote_books.set(b, book);
        assert(self.vote_books@.map_values(|b: VoteBook| b@)
            =~= books_before.map_values(|b: VoteBook| b@).update(b as int, book@));
        let updated = if approve {
            Proposal { votes_for: p.votes_for + 1, ..p }
        } else {
            Proposal { votes_against: p.votes_against + 1, ..p }
        };
        self.proposals.set(i, updated);
        Ok(())
    }

    /// Every proposal, in order of creation.
    pub fn get_proposals(&self) -> (r: Vec<Proposal>)
        ensures
            r@ == self@.proposals,
    {
        copy_all(&self.proposals)
    }
}

/// Adding a ballot adds one to the count of its side.
proof fn lemma_count_push(ballots: Seq<Ballot>, x: Ballot, approve: bool)
    ensures
        count_votes(ballots.push(x), approve) == count_votes(ballots, approve) + if x.approve == approve {
            1nat
        } else {
            0nat
        },
{
    assert(ballots.push(x).drop_last() =~= ballots);
}

/// After `initialize` the voting state is well formed: no proposals and the
/// counter at zero.
pub proof fn law_initialize_well_formed(s: VotingModel, admin: AccountId, treasury: AccountId)
    ensures
        s.initialize_spec(admin, treasury).well_formed(),
{
}

/// Creating a proposal keeps the voting state well formed: the new proposal
/// gets the next id and an empty book, and no other proposal's book changes.
pub proof fn law_create_proposal_keeps_well_formed(
    s: VotingModel,
    members: Seq<AccountId>,
    proposer: AccountId,
    proposal_type: ProposalType,
    title: String,
    description: String,
    voting_days: u32,
    quorum: u32,
    payload: String,
    now: u64,
)
    requires
        s.well_formed(),
    ensures
        s.create_proposal_spec(members, proposer, proposal_type, title, description, voting_days, quorum, payload, now).0.well_formed(),
{
    let (after, r) = s.create_proposal_spec(members, proposer, proposal_type, title, description, voting_days, quorum, payload, now);
    if r is Ok {
        let id = r.unwrap();
        let ids = book_ids(s.vote_books);
        let new_ids = book_ids(after.vote_books);
        let nb = VoteBookModel { proposal_id: id, ballots: Seq::empty() };
        lemma_first_position_props(ids, id);
        match first_position(ids, id) {
            Some(k) => {
                assert(new_ids =~= ids);
            },
            None => {
                assert(new_ids =~= ids.push(id));
            },
        }
        assert forall|j: int| 0 <= j < after.proposals.len() implies {
            &&& (#[trigger] after.book_of(after.proposals[j].id)) is Some
            &&& tally_matches(after.proposals[j], after.book_of(after.proposals[j].id).unwrap().ballots)
        } by {
            let pid = after.proposals[j].id;
            match first_position(ids, id) {
                Some(k) => {
                    if j < s.proposals.len() {
                        assert(after.proposals[j] == s.proposals[j]);
                        assert(s.book_of(s.proposals[j].id) is Some);
                        let bj = first_position(ids, pid).unwrap();
                        lemma_first_position_props(ids, pid);
                        assert(bj != k);
                        assert(after.vote_books[bj] == s.vote_books[bj]);
                    } else {
                        assert(pid == id);
                        assert(after.vote_books[k] == nb);
                        assert(count_votes(Seq::<Ballot>::empty(), true) == 0);
                        assert(count_votes(Seq::<Ballot>::empty(), false) == 0);
                    }
                },
                None => {
                    lemma_first_position_push(ids, id, pid);
                    if j < s.proposals.len() {
                        assert(after.proposals[j] == s.proposals[j]);
                        assert(s.book_of(s.proposals[j].id) is Some);
                        let bj = first_position(ids, pid).unwrap();
                        lemma_first_position_props(ids, pid);
                        assert(after.vote_books[bj] == s.vote_books[bj]);
                    } else {
                        assert(pid == id);
                        assert(after.vote_books[s.vote_books.len() as int] == nb);
                        assert(count_votes(Seq::<Ballot>::empty(), true) == 0);
                        assert(count_votes(Seq::<Ballot>::empty(), false) == 0);
                    }
                },
            }
        }
    }
}

/// Casting a vote keeps the voting state well formed: the ballot is the
/// voter's only one on that proposal, and the tally it adds to goes up by
/// exactly one.
pub proof fn law_vote_keeps_well_formed(s: VotingModel, members: Seq<AccountId>, voter: AccountId, proposal_id: u32, approve: bool, now: u64)
    requires
        s.well_formed(),
    ensures
        s.vote_spec(members, voter, proposal_id, approve, now).0.well_formed(),
{
    let (after, r) = s.vote_spec(members, voter, proposal_id, approve, now);
    if r is Ok {
        let pids = proposal_ids(s.proposals);
        let ids = book_ids(s.vote_books);
        lemma_first_position_props(pids, proposal_id);
        lemma_first_position_props(ids, proposal_id);
        let i = first_position(pids, proposal_id).unwrap();
        let b = first_position(ids, proposal_id).unwrap();
        assert(book_ids(after.vote_books) =~= ids);
        let p = s.proposals[i];
        assert(p.id == proposal_id);
        assert(s.book_of(s.proposals[i].id) is Some);
        let ballots = s.vote_books[b].ballots;
        let x = Ballot { voter: voter, approve: approve };
        lemma_count_push(ballots, x, true);
        lemma_count_push(ballots, x, false);
        assert forall|j: int| 0 <= j < after.proposals.len() implies {
            &&& (#[trigger] after.book_of(after.proposals[j].id)) is Some
            &&& tally_matches(after.proposals[j], after.book_of(after.proposals[j].id).unwrap().ballots)
        } by {
            if j == i {
                let nb = ballots.push(x);
                assert(after.vote_books[b].ballots == nb);
                assert forall|m: int, n: int| 0 <= m < n < nb.len() implies (#[trigger] nb[m]).voter@ != (#[trigger] nb[n]).voter@ by {
                    if n == nb.len() - 1 {
                        assert(nb[m] == ballots[m]);
                        if ballots[m].voter@ == voter@ {
                            assert(has_voted(ballots, voter@));
                        }
                    } else {
                        assert(nb[m] == ballots[m]);
                        assert(nb[n] == ballots[n]);
                    }
                }
            } else {
                assert(after.proposals[j] == s.proposals[j]);
                assert(s.book_of(s.proposals[j].id) is Some);
                let pid = s.proposals[j].id;
                lemma_first_position_props(ids, pid);
                let bj = first_position(ids, pid).unwrap();
                assert(pid != proposal_id);
                assert(bj != b);
                assert(after.vote_books[bj] == s.vote_books[bj]);
            }
        }
    }
}

impl VotingModel {
    /// `voter` has a ballot in the book of the listed proposal `proposal_id`.
    pub open spec fn has_voted_on(self, voter: Seq<char>, proposal_id: u32) -> bool {
        &&& first_position(proposal_ids(self.proposals), proposal_id) is Some
        &&& match self.book_of(proposal_id) {
            Some(book) => has_voted(book.ballots, voter),
            None => false,
        }
    }
}

/// An accepted vote is recorded in the proposal's book.
pub proof fn law_vote_is_recorded(
    s: VotingModel,
    members: Seq<AccountId>,
    voter: AccountId,
    proposal_id: u32,
    approve: bool,
    now: u64,
)
    ensures
        s.vote_spec(members, voter, proposal_id, approve, now).1 is Ok
            ==> s.vote_spec(members, voter, proposal_id, approve, now).0.has_voted_on(voter@, proposal_id),
{
    let (after, r) = s.vote_spec(members, voter, proposal_id, approve, now);
    if r is Ok {
        let pids = proposal_ids(s.proposals);
        let ids = book_ids(s.vote_books);
        lemma_first_position_props(pids, proposal_id);
        lemma_first_position_props(ids, proposal_id);
        let b = first_position(ids, proposal_id).unwrap();
        assert(book_ids(after.vote_books) =~= ids);
        assert(proposal_ids(after.proposals) =~= pids);
        let nb = after.vote_books[b].ballots;
        assert(nb[nb.len() - 1].voter@ == voter@);
    }
}

/// A recorded vote stays recorded while proposals are created and votes
/// cast, in a well-formed state (only `initialize`, which starts the
/// proposals over, forgets it).
pub proof fn law_recorded_vote_stays(
    s: VotingModel,
    voter: Seq<char>,
    proposal_id: u32,
    members: Seq<AccountId>,
    proposer: AccountId,
    proposal_type: ProposalType,
    title: String,
    description: String,
    voting_days: u32,
    quorum: u32,
    payload: String,
    other_voter: AccountId,
    other_id: u32,
    approve: bool,
    now: u64,
)
    requires
        s.well_formed(),
        s.has_voted_on(voter, proposal_id),
    ensures
        s.create_proposal_spec(members, proposer, proposal_type, title, description, voting_days, quorum, payload, now).0.has_voted_on(voter, proposal_id),
        s.vote_spec(members, other_voter, other_id, approve, now).0.has_voted_on(voter, proposal_id),
{
    let pids = proposal_ids(s.proposals);
    let ids = book_ids(s.vote_books);
    lemma_first_position_props(pids, proposal_id);
    lemma_first_position_props(ids, proposal_id);
    let i = first_position(pids, proposal_id).unwrap();
    let b = first_position(ids, proposal_id).unwrap();
    let ballots = s.vote_books[b].ballots;
    let (a1, r1) = s.create_proposal_spec(members, proposer, proposal_type, title, description, voting_days, quorum, payload, now);
    if r1 is Ok {
        let id = r1.unwrap();
        assert(s.proposals[i].id == i + 1);
        assert(id != proposal_id);
        assert(proposal_ids(a1.proposals) =~= pids.push(id));
        lemma_first_position_push(pids, id, proposal_id);
        lemma_first_position_props(ids, id);
        match first_position(ids, id) {
            Some(k) => {
                assert(book_ids(a1.vote_books) =~= ids);
                assert(k != b);
                assert(a1.vote_books[b] == s.vote_books[b]);
            },
            None => {
                assert(book_ids(a1.vote_books) =~= ids.push(id));
                lemma_first_position_push(ids, id, proposal_id);
                assert(a1.vote_books[b] == s.vote_books[b]);
            },
        }
    }
    let (a2, r2) = s.vote_spec(members, other_voter, other_id, approve, now);
    if r2 is Ok {
        lemma_first_position_props(pids, other_id);
        lemma_first_position_props(ids, other_id);
        let b2 = first_position(ids, other_id).unwrap();
        assert(proposal_ids(a2.proposals) =~= pids);
        assert(book_ids(a2.vote_books) =~= ids);
        let w = choose|w: int| 0 <= w < ballots.len() && (#[trigger] ballots[w]).voter@ == voter;
        if b2 == b {
            let nb = a2.vote_books[b].ballots;
            assert(nb[w] == ballots[w]);
            assert(has_voted(nb, voter));
        } else {
            assert(a2.vote_books[b] == s.vote_books[b]);
        }
    }
}

/// A member votes at most once on a proposal: once their vote is recorded,
/// any further vote of theirs on it is refused and changes nothing.
pub proof fn law_recorded_voter_cannot_vote_again(
    s: VotingModel,
    members: Seq<AccountId>,
    voter: AccountId,
    proposal_id: u32,
    approve: bool,
    now: u64,
)
    requires
        s.has_voted_on(voter@, proposal_id),
    ensures
        s.vote_spec(members, voter, proposal_id, approve, now).1 is Err,
        s.vote_spec(members, voter, proposal_id, approve, now).0 == s,
{
}

/// A created proposal is listed last, under the id returned, active, with
/// no votes and open until `voting_days` days after its creation; the
/// proposals listed before are unchanged.
pub proof fn law_created_proposal_is_listed(
    s: VotingModel,
    members: Seq<AccountId>,
    proposer: AccountId,
    proposal_type: ProposalType,
    title: String,
    description: String,
    voting_days: u32,
    quorum: u32,
    payload: String,
    now: u64,
)
    ensures
        ({
            let (after, r) = s.create_proposal_spec(members, proposer, proposal_type, title, description, voting_days, quorum, payload, now);
            r matches Ok(id) ==> {
                let p = after.proposals.last();
                &&& after.proposals.len() == s.proposals.len() + 1
                &&& after.proposals.subrange(0, s.proposals.len() as int) == s.proposals
                &&& p.id == id && p.proposer == proposer && p.proposal_type == proposal_type
                &&& p.title == title && p.description == description && p.payload == payload
                &&& p.votes_for == 0 && p.votes_against == 0 && p.quorum == quorum
                &&& p.status == ProposalStatus::Active && p.created_at == now
                &&& p.deadline == now + voting_days * SECONDS_PER_DAY
                &&& after.book_of(id) matches Some(book) && book.ballots.len() == 0
            }
        }),
{
    let (after, r) = s.create_proposal_spec(members, proposer, proposal_type, title, description, voting_days, quorum, payload, now);
    if r is Ok {
        let id = r.unwrap();
        let ids = book_ids(s.vote_books);
        assert(after.proposals.subrange(0, s.proposals.len() as int) =~= s.proposals);
        lemma_first_position_props(ids, id);
        match first_position(ids, id) {
            Some(k) => {
                assert(book_ids(after.vote_books) =~= ids);
            },
            None => {
                assert(book_ids(after.vote_books) =~= ids.push(id));
                lemma_first_position_push(ids, id, id);
            },
        }
    }
}

/// A proposal is created by exactly the members: it is refused as
/// `NotMember` precisely when the proposer is nowhere in the member list,
/// and a member's proposal is accepted, under the next id, whenever the
/// counter can still count and the deadline fits in `u64`.
pub proof fn law_members_may_propose(
    s: VotingModel,
    members: Seq<AccountId>,
    proposer: AccountId,
    proposal_type: ProposalType,
    title: String,
    description: String,
    voting_days: u32,
    quorum: u32,
    payload: String,
    now: u64,
)
    ensures
        ({
            let (after, r) = s.create_proposal_spec(members, proposer, proposal_type, title, description, voting_days, quorum, payload, now);
            &&& (r == Err::<u32, VotingError>(VotingError::NotMember)) <==> !(exists|k: int| 0 <= k < members.len() && (#[trigger] members[k])@ == proposer@)
            &&& r == Err::<u32, VotingError>(VotingError::NotMember) ==> after == s
            &&& ((exists|k: int| 0 <= k < members.len() && (#[trigger] members[k])@ == proposer@)
                && s.proposal_counter < u32::MAX
                && now + voting_days * 86_400 <= u64::MAX) ==> r == Ok::<u32, VotingError>((s.proposal_counter + 1) as u32)
        }),
{
}

/// A member who has not yet voted on an existing, active proposal, voting
/// no later than its deadline, is accepted whatever the tallies and the
/// quorum are (as long as the tally voted for can still count): the tally
/// of the side voted for goes up by one, and nothing else of any proposal
/// changes.
pub proof fn law_member_vote_accepted(
    s: VotingModel,
    members: Seq<AccountId>,
    voter: AccountId,
    proposal_id: u32,
    approve: bool,
    now: u64,
    i: int,
)
    requires
        exists|k: int| 0 <= k < members.len() && (#[trigger] members[k])@ == voter@,
        0 <= i < s.proposals.len(),
        s.proposals[i].id == proposal_id,
        forall|j: int| 0 <= j < i ==> s.proposals[j].id != proposal_id,
        s.proposals[i].status == ProposalStatus::Active,
        now <= s.proposals[i].deadline,
        s.book_of(proposal_id) is Some,
        !(exists|k: int|
            0 <= k < s.book_of(proposal_id).unwrap().ballots.len()
                && (#[trigger] s.book_of(proposal_id).unwrap().ballots[k]).voter@ == voter@),
        approve ==> s.proposals[i].votes_for < u32::MAX,
        !approve ==> s.proposals[i].votes_against < u32::MAX,
    ensures
        ({
            let (after, r) = s.vote_spec(members, voter, proposal_id, approve, now);
            let p = s.proposals[i];
            let q = after.proposals[i];
            &&& r == Ok::<(), VotingError>(())
            &&& after.proposals.len() == s.proposals.len()
            &&& q.votes_for == p.votes_for + if approve { 1int } else { 0int }
            &&& q.votes_against == p.votes_against + if approve { 0int } else { 1int }
            &&& q.id == p.id && q.proposer == p.proposer && q.proposal_type == p.proposal_type
            &&& q.title == p.title && q.description == p.description && q.payload == p.payload
            &&& q.quorum == p.quorum && q.deadline == p.deadline && q.status == p.status
            &&& q.created_at == p.created_at
            &&& forall|j: int| 0 <= j < s.proposals.len() && j != i ==> after.proposals[j] == s.proposals[j]
            &&& after.proposal_counter == s.proposal_counter
        }),
{
    let pids = proposal_ids(s.proposals);
    assert(pids[i] == proposal_id);
    lemma_first_position_at(pids, proposal_id, i);
    let k = choose|k: int| 0 <= k < members.len() && (#[trigger] members[k])@ == voter@;
    assert(has_account(members, voter@));
    let ids = book_ids(s.vote_books);
    lemma_first_position_props(ids, proposal_id);
    let b = first_position(ids, proposal_id).unwrap();
    let ballots = s.vote_books[b].ballots;
    assert(ballots == s.book_of(proposal_id).unwrap().ballots);
    assert(!has_voted(ballots, voter@));
}

/// A vote is refused as `NotMember` precisely when the voter is nowhere in
/// the member list, and such a refusal changes nothing.
pub proof fn law_only_members_vote(
    s: VotingModel,
    members: Seq<AccountId>,
    voter: AccountId,
    proposal_id: u32,
    approve: bool,
    now: u64,
)
    ensures
        ({
            let (after, r) = s.vote_spec(members, voter, proposal_id, approve, now);
            &&& (r == Err::<(), VotingError>(VotingError::NotMember)) <==> !(exists|k: int| 0 <= k < members.len() && (#[trigger] members[k])@ == voter@)
            &&& r is Err ==> after == s
        }),
{
}

/// `initialize` registers the given addresses and starts over with no
/// proposals and the counter at zero, keeping the stored ballot books.
pub proof fn law_initialize_registers(s: VotingModel, admin: AccountId, treasury: AccountId)
    ensures
        ({
            let after = s.initialize_spec(admin, treasury);
            &&& after.config.unwrap().admin == admin
            &&& after.config.unwrap().treasury == treasury
            &&& after.proposal_counter == 0
            &&& after.proposals.len() == 0
            &&& after.vote_books == s.vote_books
        }),
{
}

} // verus!
