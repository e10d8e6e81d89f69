//! The hub's state as mathematical values: the records it keeps, the
//! invariants that tie them together, the outcome of each operation, and
//! the laws that follow from them.
use vstd::prelude::*;

use crate::power::{is_valid_lock_duration, scaled_power};
use crate::score_index::{ScoreKey, key_le, key_lt, strictly_sorted};
use crate::types::{Coin, ContractError, LockEntry, Proposal, Round, Vote};

verus! {

/// A lock of `owner`, under its lock id.
pub struct LockRecord {
    pub owner: String,
    pub lock_id: u64,
    pub entry: LockEntry,
}

impl Clone for LockRecord {
    fn clone(&self) -> (r: Self)
        ensures
            r == *self,
    {
        LockRecord { owner: self.owner.clone(), lock_id: self.lock_id, entry: self.entry.clone() }
    }
}

/// The vote of `voter` in round `round_id`.
pub struct VoteRecord {
    pub round_id: u64,
    pub voter: String,
    pub vote: Vote,
}

/// What the hub holds, as mathematical values.
pub struct GovernanceModel {
    pub denom: Seq<char>,
    pub round_length: u64,
    /// Round `i` is at position `i`; the last one is the current round.
    pub rounds: Seq<Round>,
    /// Proposal `i` is at position `i`.
    pub proposals: Seq<Proposal>,
    pub scores: Seq<ScoreKey>,
    pub votes: Seq<VoteRecord>,
    pub locks: Seq<LockRecord>,
    pub next_lock_id: u64,
}

/// The power that `rec` adds to proposal `prop` of `round`.
pub open spec fn contribution(rec: VoteRecord, round: u64, prop: int) -> int {
    if rec.round_id == round && rec.vote.prop_id as int == prop {
        rec.vote.power as int
    } else {
        0
    }
}

/// The power that taking back `prior` removes from proposal `prop`.
pub open spec fn withdrawn(prior: Option<Vote>, prop: int) -> int {
    match prior {
        Some(v) => if v.prop_id as int == prop {
            v.power as int
        } else {
            0
        },
        None => 0,
    }
}

/// The total power of the votes in `votes` cast on proposal `prop` of `round`.
pub open spec fn vote_total(votes: Seq<VoteRecord>, round: u64, prop: int) -> int
    decreases votes.len(),
{
    if votes.len() == 0 {
        0
    } else {
        vote_total(votes.drop_last(), round, prop) + contribution(votes.last(), round, prop)
    }
}

pub open spec fn is_vote_of(rec: VoteRecord, round: u64, voter: Seq<char>) -> bool {
    rec.round_id == round && rec.voter@ == voter
}

/// The vote of `voter` in `round`, if there is one.
pub open spec fn live_vote(votes: Seq<VoteRecord>, round: u64, voter: Seq<char>) -> Option<Vote>
    decreases votes.len(),
{
    if votes.len() == 0 {
        None
    } else if is_vote_of(votes.last(), round, voter) {
        Some(votes.last().vote)
    } else {
        live_vote(votes.drop_last(), round, voter)
    }
}

/// The power that a lock carries in a round that ends at `round_end`: scaled
/// by the time it stays locked after that end, none if it has ended by then.
pub open spec fn lock_power(entry: LockEntry, round_end: u64) -> int {
    scaled_power(entry.lock_end - round_end, entry.funds.amount as int)
}

/// The voting power of `owner` in a round that ends at `round_end`.
pub open spec fn account_power(locks: Seq<LockRecord>, owner: Seq<char>, round_end: u64) -> int
    decreases locks.len(),
{
    if locks.len() == 0 {
        0
    } else {
        account_power(locks.drop_last(), owner, round_end) + if locks.last().owner@ == owner {
            lock_power(locks.last().entry, round_end)
        } else {
            0
        }
    }
}

/// A lock that `owner` can take back at time `now`.
pub open spec fn matured(rec: LockRecord, owner: Seq<char>, now: u64) -> bool {
    rec.owner@ == owner && rec.entry.lock_end < now
}

/// The locks left after `owner` takes back what has matured at `now`.
pub open spec fn locks_kept(locks: Seq<LockRecord>, owner: Seq<char>, now: u64) -> Seq<LockRecord>
    decreases locks.len(),
{
    if locks.len() == 0 {
        Seq::empty()
    } else if matured(locks.last(), owner, now) {
        locks_kept(locks.drop_last(), owner, now)
    } else {
        locks_kept(locks.drop_last(), owner, now).push(locks.last())
    }
}

/// The funds of the locks that `owner` takes back at `now`, in lock order.
pub open spec fn funds_released(locks: Seq<LockRecord>, owner: Seq<char>, now: u64) -> Seq<Coin>
    decreases locks.len(),
{
    if locks.len() == 0 {
        Seq::empty()
    } else if matured(locks.last(), owner, now) {
        funds_released(locks.drop_last(), owner, now).push(locks.last().entry.funds)
    } else {
        funds_released(locks.drop_last(), owner, now)
    }
}

/// The key that proposal `i` has in the score index.
pub open spec fn score_key_of(proposals: Seq<Proposal>, i: int) -> ScoreKey {
    ScoreKey { round_id: proposals[i].round_id, power: proposals[i].power, prop_id: i as u64 }
}

impl GovernanceModel {
    pub open spec fn current_round_id(self) -> u64 {
        self.rounds.last().round_id
    }

    pub open spec fn current_round_end(self) -> u64 {
        self.rounds.last().round_end
    }

    pub open spec fn has_proposal(self, round: u64, prop_id: u64) -> bool {
        prop_id < self.proposals.len() && self.proposals[prop_id as int].round_id == round
    }

    /// Round `round` has at least one proposal.
    pub open spec fn round_has_proposals(self, round: u64) -> bool {
        exists|i: int| 0 <= i < self.proposals.len() && #[trigger] self.proposals[i].round_id == round
    }

    /// `prop_id` has the most power of the proposals of `round`; of two with
    /// equal power, the larger id wins.
    pub open spec fn is_winner(self, round: u64, prop_id: u64) -> bool {
        &&& self.has_proposal(round, prop_id)
        &&& forall|j: int|
            0 <= j < self.proposals.len() && #[trigger] self.proposals[j].round_id == round
                ==> key_le(score_key_of(self.proposals, j), score_key_of(self.proposals, prop_id as int))
    }

    pub open spec fn rounds_wf(self) -> bool {
        &&& self.rounds.len() >= 1
        &&& forall|i: int| 0 <= i < self.rounds.len() ==> (#[trigger] self.rounds[i]).round_id == i
        &&& forall|i: int|
            0 <= i < self.rounds.len() - 1 ==> (#[trigger] self.rounds[i]).round_end < self.rounds[i
                + 1].round_end
    }

    pub open spec fn proposals_wf(self) -> bool {
        &&& self.proposals.len() <= u64::MAX
        &&& forall|i: int|
            0 <= i < self.proposals.len() ==> (#[trigger] self.proposals[i]).round_id
                < self.rounds.len()
    }

    /// Each proposal's power is the total of the votes cast on it.
    pub open spec fn powers_match_votes(self) -> bool {
        forall|i: int|
            0 <= i < self.proposals.len() ==> (#[trigger] self.proposals[i]).power == vote_total(
                self.votes,
                self.proposals[i].round_id,
                i,
            )
    }

    /// The score index holds one key per proposal, at its current power,
    /// and nothing else.
    pub open spec fn scores_match_proposals(self) -> bool {
        &&& strictly_sorted(self.scores)
        &&& forall|k: ScoreKey| #[trigger]
            self.scores.contains(k) <==> (k.prop_id < self.proposals.len()
                && self.proposals[k.prop_id as int].round_id == k.round_id
                && self.proposals[k.prop_id as int].power == k.power)
    }

    pub open spec fn votes_wf(self) -> bool {
        &&& forall|i: int|
            0 <= i < self.votes.len() ==> self.has_proposal(
                (#[trigger] self.votes[i]).round_id,
                self.votes[i].vote.prop_id,
            )
        &&& forall|i: int, j: int|
            0 <= i < self.votes.len() && 0 <= j < self.votes.len() && i != j && (
            #[trigger] self.votes[i]).round_id == (#[trigger] self.votes[j]).round_id
                ==> self.votes[i].voter@ != self.votes[j].voter@
    }

    pub open spec fn locks_wf(self) -> bool {
        &&& forall|i: int|
            0 <= i < self.locks.len() ==> {
                let l = #[trigger] self.locks[i];
                &&& l.lock_id < self.next_lock_id
                &&& l.entry.lock_start < l.entry.lock_end
                &&& l.entry.funds.amount > 0
                &&& l.entry.funds.denom@ == self.denom
            }
        &&& forall|i: int, j: int|
            0 <= i < j < self.locks.len() ==> (#[trigger] self.locks[i]).lock_id < (
            #[trigger] self.locks[j]).lock_id
    }

    /// Every invariant but the score index's, which is derived from the
    /// proposals.
    pub open spec fn records_wf(self) -> bool {
        &&& self.round_length > 0
        &&& self.rounds_wf()
        &&& self.proposals_wf()
        &&& self.powers_match_votes()
        &&& self.votes_wf()
        &&& self.locks_wf()
    }

    pub open spec fn wf(self) -> bool {
        &&& self.round_length > 0
        &&& self.rounds_wf()
        &&& self.proposals_wf()
        &&& self.powers_match_votes()
        &&& self.scores_match_proposals()
        &&& self.votes_wf()
        &&& self.locks_wf()
    }
    /// What `vote(voter, prop_id)` does to a hub in this state, with result
    /// `r` and new state `post`.
    pub open spec fn vote_outcome(
        self,
        voter: Seq<char>,
        prop_id: u64,
        r: Result<u128, ContractError>,
        post: Self,
    ) -> bool {
        let round = self.current_round_id();
        let power = account_power(self.locks, voter, self.current_round_end());
        let prior = live_vote(self.votes, round, voter);
        if !self.has_proposal(round, prop_id) {
            r == Err::<u128, ContractError>(ContractError::ProposalNotFound) && post == self
        } else if self.proposals[prop_id as int].power - withdrawn(prior, prop_id as int) + power
            > u128::MAX {
            r == Err::<u128, ContractError>(ContractError::Overflow) && post == self
        } else {
            &&& r == Ok::<u128, ContractError>(power as u128)
            &&& post.proposals.len() == self.proposals.len()
            &&& forall|i: int|
                0 <= i < self.proposals.len() ==> #[trigger] post.proposals[i] == Proposal {
                    power: (self.proposals[i].power - withdrawn(prior, i) + if i == prop_id {
                        power
                    } else {
                        0
                    }) as u128,
                    ..self.proposals[i]
                }
            &&& live_vote(post.votes, round, voter) == Some(
                Vote { prop_id, power: power as u128 },
            )
            &&& forall|r2: u64, v2: Seq<char>|
                !(r2 == round && v2 == voter) ==> #[trigger] live_vote(post.votes, r2, v2)
                    == live_vote(self.votes, r2, v2)
            &&& post.denom == self.denom
            &&& post.round_length == self.round_length
            &&& post.rounds == self.rounds
            &&& post.locks == self.locks
            &&& post.next_lock_id == self.next_lock_id
        }
    }

    /// What `lock_tokens` answers for a deposit of `funds` for `duration`.
    pub open spec fn lock_result(self, funds: Seq<Coin>, duration: u64, now: u64) -> Result<
        u64,
        ContractError,
    > {
        if !is_valid_lock_duration(duration) {
            Err(ContractError::InvalidLockDuration)
        } else if !(funds.len() == 1 && funds[0].denom@ == self.denom && funds[0].amount > 0) {
            Err(ContractError::InvalidDeposit)
        } else if now + duration > u64::MAX || self.next_lock_id == u64::MAX {
            Err(ContractError::Overflow)
        } else {
            Ok(self.next_lock_id)
        }
    }

    /// What `end_round(now)` does to a hub in this state, with result `r`
    /// and new state `post`.
    pub open spec fn end_round_outcome(self, now: u64, r: Result<u64, ContractError>, post: Self) -> bool {
        if now < self.current_round_end() {
            r == Err::<u64, ContractError>(ContractError::RoundNotEnded) && post == self
        } else if now + self.round_length > u64::MAX || self.current_round_id() == u64::MAX {
            r == Err::<u64, ContractError>(ContractError::Overflow) && post == self
        } else {
            &&& r == Ok::<u64, ContractError>((self.current_round_id() + 1) as u64)
            &&& post == (GovernanceModel {
                rounds: self.rounds.push(
                    Round {
                        round_id: (self.current_round_id() + 1) as u64,
                        round_end: (now + self.round_length) as u64,
                    },
                ),
                ..self
            })
        }
    }

    /// What `lock_tokens` does to a hub in this state, with result `r` and
    /// new state `post`.
    pub open spec fn lock_outcome(
        self,
        owner: String,
        funds: Seq<Coin>,
        duration: u64,
        now: u64,
        r: Result<u64, ContractError>,
        post: Self,
    ) -> bool {
        &&& r == self.lock_result(funds, duration, now)
        &&& r is Err ==> post == self
        &&& r is Ok ==> post == (GovernanceModel {
            locks: self.locks.push(
                LockRecord {
                    owner,
                    lock_id: self.next_lock_id,
                    entry: LockEntry {
                        funds: funds[0],
                        lock_start: now,
                        lock_end: (now + duration) as u64,
                    },
                },
            ),
            next_lock_id: (self.next_lock_id + 1) as u64,
            ..self
        })
    }

    /// What `unlock_tokens` does to a hub in this state, with the funds
    /// `released` and new state `post`.
    pub open spec fn unlock_outcome(self, owner: Seq<char>, now: u64, released: Seq<Coin>, post: Self) -> bool {
        &&& released == funds_released(self.locks, owner, now)
        &&& post == (GovernanceModel { locks: locks_kept(self.locks, owner, now), ..self })
    }

    /// What `create_proposal` does to a hub in this state, with result `r`
    /// and new state `post`.
    pub open spec fn create_outcome(
        self,
        covenant_params: String,
        r: Result<u64, ContractError>,
        post: Self,
    ) -> bool {
        if self.proposals.len() == u64::MAX {
            r == Err::<u64, ContractError>(ContractError::Overflow) && post == self
        } else {
            &&& r == Ok::<u64, ContractError>(self.proposals.len() as u64)
            &&& post == (GovernanceModel {
                proposals: self.proposals.push(
                    Proposal {
                        round_id: self.current_round_id(),
                        covenant_params,
                        executed: false,
                        power: 0,
                    },
                ),
                scores: post.scores,
                ..self
            })
        }
    }

    /// What `execute_proposal` does to a hub in this state, with result `r`
    /// and new state `post`.
    pub open spec fn execute_outcome(self, proposal_id: u64, r: Result<String, ContractError>, post: Self) -> bool {
        let last = (self.current_round_id() - 1) as u64;
        if self.current_round_id() == 0 {
            r == Err::<String, ContractError>(ContractError::RoundNotFound) && post == self
        } else if !self.is_winner(last, proposal_id) {
            r == Err::<String, ContractError>(ContractError::ProposalDidNotWin) && post == self
        } else if self.proposals[proposal_id as int].executed {
            r == Err::<String, ContractError>(ContractError::AlreadyExecuted) && post == self
        } else {
            &&& r matches Ok(params) && params@ == self.proposals[proposal_id as int].covenant_params@
            &&& post == (GovernanceModel {
                proposals: self.proposals.update(
                    proposal_id as int,
                    Proposal { executed: true, ..self.proposals[proposal_id as int] },
                ),
                ..self
            })
        }
    }

}

pub(crate) proof fn lemma_vote_total_prefix(votes: Seq<VoteRecord>, i: int, round: u64, prop: int)
    requires
        0 <= i <= votes.len(),
    ensures
        0 <= vote_total(votes.subrange(0, i), round, prop) <= vote_total(votes, round, prop),
    decreases votes.len(),
{
    if i == votes.len() {
        assert(votes.subrange(0, i) =~= votes);
        if votes.len() > 0 {
            lemma_vote_total_prefix(votes.drop_last(), i - 1, round, prop);
            assert(votes.drop_last().subrange(0, i - 1) =~= votes.drop_last());
        }
    } else {
        lemma_vote_total_prefix(votes.drop_last(), i, round, prop);
        assert(votes.subrange(0, i) =~= votes.drop_last().subrange(0, i));
    }
}

pub(crate) proof fn lemma_account_power_prefix(locks: Seq<LockRecord>, i: int, owner: Seq<char>, round_end: u64)
    requires
        0 <= i <= locks.len(),
    ensures
        0 <= account_power(locks.subrange(0, i), owner, round_end) <= account_power(locks, owner, round_end),
    decreases locks.len(),
{
    if i == locks.len() {
        assert(locks.subrange(0, i) =~= locks);
        if locks.len() > 0 {
            lemma_account_power_prefix(locks.drop_last(), i - 1, owner, round_end);
            assert(locks.drop_last().subrange(0, i - 1) =~= locks.drop_last());
        }
    } else {
        lemma_account_power_prefix(locks.drop_last(), i, owner, round_end);
        assert(locks.subrange(0, i) =~= locks.drop_last().subrange(0, i));
    }
}

pub(crate) proof fn lemma_locks_kept_from(locks: Seq<LockRecord>, owner: Seq<char>, now: u64)
    ensures
        forall|i: int|
            0 <= i < locks_kept(locks, owner, now).len() ==> locks.contains(
                #[trigger] locks_kept(locks, owner, now)[i],
            ),
    decreases locks.len(),
{
    if locks.len() > 0 {
        let rest = locks.drop_last();
        lemma_locks_kept_from(rest, owner, now);
        let k = locks_kept(rest, owner, now);
        assert forall|i: int| 0 <= i < k.len() implies locks.contains(#[trigger] k[i]) by {
            let j = choose|j: int| 0 <= j < rest.len() && rest[j] == k[i];
            assert(locks[j] == k[i]);
        }
        assert(locks[locks.len() - 1] == locks.last());
    }
}

pub(crate) proof fn lemma_locks_kept_sorted(locks: Seq<LockRecord>, owner: Seq<char>, now: u64)
    requires
        forall|i: int, j: int| 0 <= i < j < locks.len() ==> (#[trigger] locks[i]).lock_id < (#[trigger] locks[j]).lock_id,
    ensures
        ({
            let k = locks_kept(locks, owner, now);
            forall|i: int, j: int| 0 <= i < j < k.len() ==> (#[trigger] k[i]).lock_id < (#[trigger] k[j]).lock_id
        }),
    decreases locks.len(),
{
    if locks.len() > 0 {
        let rest = locks.drop_last();
        lemma_locks_kept_sorted(rest, owner, now);
        lemma_locks_kept_from(rest, owner, now);
        let k = locks_kept(rest, owner, now);
        assert forall|i: int| 0 <= i < k.len() implies (#[trigger] k[i]).lock_id < locks.last().lock_id by {
            let j = choose|j: int| 0 <= j < rest.len() && rest[j] == k[i];
            assert(locks[j] == k[i]);
        }
    }
}

pub(crate) proof fn lemma_live_vote_index(votes: Seq<VoteRecord>, round: u64, voter: Seq<char>)
    requires
        live_vote(votes, round, voter) is Some,
    ensures
        exists|j: int|
            0 <= j < votes.len() && is_vote_of(#[trigger] votes[j], round, voter) && votes[j].vote
                == live_vote(votes, round, voter)->0,
    decreases votes.len(),
{
    if is_vote_of(votes.last(), round, voter) {
        assert(votes[votes.len() - 1] == votes.last());
    } else {
        lemma_live_vote_index(votes.drop_last(), round, voter);
        let j = choose|j: int|
            0 <= j < votes.len() - 1 && is_vote_of(#[trigger] votes.drop_last()[j], round, voter)
                && votes.drop_last()[j].vote == live_vote(votes.drop_last(), round, voter)->0;
        assert(votes[j] == votes.drop_last()[j]);
    }
}

/// A live vote goes to an existing proposal of its round, and never holds
/// more power than that proposal has.
pub proof fn lemma_vote_within_proposal(m: GovernanceModel, round: u64, voter: Seq<char>)
    requires
        m.wf(),
        live_vote(m.votes, round, voter) is Some,
    ensures
        ({
            let v = live_vote(m.votes, round, voter)->0;
            m.has_proposal(round, v.prop_id) && v.power <= m.proposals[v.prop_id as int].power
        }),
{
    lemma_live_vote_index(m.votes, round, voter);
    let j = choose|j: int|
        0 <= j < m.votes.len() && is_vote_of(#[trigger] m.votes[j], round, voter) && m.votes[j].vote
            == live_vote(m.votes, round, voter)->0;
    let q = m.votes[j].vote.prop_id as int;
    assert(m.has_proposal(m.votes[j].round_id, m.votes[j].vote.prop_id));
    lemma_vote_total_remove(m.votes, j, round, q);
    lemma_vote_total_nonneg(m.votes.remove(j), round, q);
}

/// A round has at most one winner.
pub proof fn lemma_winner_unique(m: GovernanceModel, round: u64, a: u64, b: u64)
    requires
        m.is_winner(round, a),
        m.is_winner(round, b),
    ensures
        a == b,
{
    assert(key_le(score_key_of(m.proposals, a as int), score_key_of(m.proposals, b as int)));
    assert(key_le(score_key_of(m.proposals, b as int), score_key_of(m.proposals, a as int)));
}

pub(crate) proof fn lemma_vote_total_nonneg(votes: Seq<VoteRecord>, round: u64, prop: int)
    ensures
        vote_total(votes, round, prop) >= 0,
    decreases votes.len(),
{
    if votes.len() > 0 {
        lemma_vote_total_nonneg(votes.drop_last(), round, prop);
    }
}

pub(crate) proof fn lemma_vote_total_none(votes: Seq<VoteRecord>, round: u64, prop: int)
    requires
        forall|i: int| 0 <= i < votes.len() ==> (#[trigger] votes[i]).vote.prop_id as int != prop,
    ensures
        vote_total(votes, round, prop) == 0,
    decreases votes.len(),
{
    if votes.len() > 0 {
        lemma_vote_total_none(votes.drop_last(), round, prop);
    }
}

pub(crate) proof fn lemma_vote_total_remove(votes: Seq<VoteRecord>, j: int, round: u64, prop: int)
    requires
        0 <= j < votes.len(),
    ensures
        vote_total(votes.remove(j), round, prop) == vote_total(votes, round, prop) - contribution(
            votes[j],
            round,
            prop,
        ),
    decreases votes.len(),
{
    if j == votes.len() - 1 {
        assert(votes.remove(j) =~= votes.drop_last());
    } else {
        lemma_vote_total_remove(votes.drop_last(), j, round, prop);
        assert(votes.remove(j) =~= votes.drop_last().remove(j).push(votes.last()));
        assert(votes.remove(j).drop_last() =~= votes.drop_last().remove(j));
    }
}

pub(crate) proof fn lemma_vote_total_push(votes: Seq<VoteRecord>, rec: VoteRecord, round: u64, prop: int)
    ensures
        vote_total(votes.push(rec), round, prop) == vote_total(votes, round, prop) + contribution(
            rec,
            round,
            prop,
        ),
{
    assert(votes.push(rec).drop_last() =~= votes);
}

pub(crate) proof fn lemma_live_vote_absent(votes: Seq<VoteRecord>, round: u64, voter: Seq<char>)
    requires
        forall|i: int| 0 <= i < votes.len() ==> !is_vote_of(#[trigger] votes[i], round, voter),
    ensures
        live_vote(votes, round, voter) is None,
    decreases votes.len(),
{
    if votes.len() > 0 {
        lemma_live_vote_absent(votes.drop_last(), round, voter);
    }
}

pub(crate) proof fn lemma_live_vote_at(votes: Seq<VoteRecord>, j: int, round: u64, voter: Seq<char>)
    requires
        0 <= j < votes.len(),
        is_vote_of(votes[j], round, voter),
        forall|i: int| 0 <= i < votes.len() && i != j ==> !is_vote_of(#[trigger] votes[i], round, voter),
    ensures
        live_vote(votes, round, voter) == Some(votes[j].vote),
    decreases votes.len(),
{
    if j < votes.len() - 1 {
        lemma_live_vote_at(votes.drop_last(), j, round, voter);
    }
}

pub(crate) proof fn lemma_live_vote_remove_other(votes: Seq<VoteRecord>, j: int, round: u64, voter: Seq<char>)
    requires
        0 <= j < votes.len(),
        !is_vote_of(votes[j], round, voter),
    ensures
        live_vote(votes.remove(j), round, voter) == live_vote(votes, round, voter),
    decreases votes.len(),
{
    if j == votes.len() - 1 {
        assert(votes.remove(j) =~= votes.drop_last());
    } else {
        lemma_live_vote_remove_other(votes.drop_last(), j, round, voter);
        assert(votes.remove(j) =~= votes.drop_last().remove(j).push(votes.last()));
        assert(votes.remove(j).drop_last() =~= votes.drop_last().remove(j));
    }
}

/// In every well-formed state, which every operation of the hub keeps, the
/// power of each proposal equals the total power of the votes cast on it in
/// its round.
pub proof fn lemma_power_is_vote_total(m: GovernanceModel, i: int)
    requires
        m.wf(),
        0 <= i < m.proposals.len(),
    ensures
        m.proposals[i].power == vote_total(m.votes, m.proposals[i].round_id, i),
{
}

/// In every well-formed state, the score index holds exactly one entry for
/// each proposal, keyed by the proposal's round and current power, no
/// entry for anything else, and no entry twice.
pub proof fn lemma_score_index_exact(m: GovernanceModel)
    requires
        m.wf(),
    ensures
        forall|i: int| 0 <= i < m.proposals.len() ==> m.scores.contains(#[trigger] score_key_of(m.proposals, i)),
        forall|k: ScoreKey| #[trigger]
            m.scores.contains(k) ==> k.prop_id < m.proposals.len() && k == score_key_of(
                m.proposals,
                k.prop_id as int,
            ),
        forall|a: int, b: int| 0 <= a < b < m.scores.len() ==> #[trigger] m.scores[a] != #[trigger] m.scores[b],
{
    assert forall|a: int, b: int| 0 <= a < b < m.scores.len() implies #[trigger] m.scores[a]
        != #[trigger] m.scores[b] by {
        assert(key_lt(m.scores[a], m.scores[b]));
    }
}

/// Ending a round always moves to the next round id and to a strictly later
/// end time, keeping every earlier round as it was; before the current
/// round's end time is reached it always fails with `RoundNotEnded` and
/// changes nothing. Once the end time is reached it succeeds whenever the
/// next round id and end time fit in a `u64`.
pub proof fn lemma_round_monotonic(
    pre: GovernanceModel,
    now: u64,
    r: Result<u64, ContractError>,
    post: GovernanceModel,
)
    requires
        pre.wf(),
        pre.end_round_outcome(now, r, post),
    ensures
        r is Ok ==> {
            &&& post.current_round_id() == pre.current_round_id() + 1
            &&& post.current_round_end() > pre.current_round_end()
            &&& post.current_round_end() == now + pre.round_length
            &&& post.rounds.len() == pre.rounds.len() + 1
            &&& forall|k: int| 0 <= k < pre.rounds.len() ==> #[trigger] post.rounds[k] == pre.rounds[k]
        },
        now < pre.current_round_end() ==> r == Err::<u64, ContractError>(ContractError::RoundNotEnded)
            && post == pre,
        now >= pre.current_round_end() && now + pre.round_length <= u64::MAX
            && pre.current_round_id() < u64::MAX ==> r == Ok::<u64, ContractError>(
            (pre.current_round_id() + 1) as u64,
        ),
{
}

/// An account without a vote in the current round votes for `a`, then
/// switches to `b`, both proposals of the current round with room for the
/// account's power: both votes succeed with that power, `a` is left with
/// exactly the power it had before the first vote and keeps its score entry
/// there, `b` gains exactly the account's power, and the account's one vote
/// is for `b`.
pub proof fn lemma_vote_switch(
    m0: GovernanceModel,
    m1: GovernanceModel,
    m2: GovernanceModel,
    voter: Seq<char>,
    a: u64,
    b: u64,
    r1: Result<u128, ContractError>,
    r2: Result<u128, ContractError>,
)
    requires
        m0.wf(),
        m2.wf(),
        live_vote(m0.votes, m0.current_round_id(), voter) is None,
        m0.has_proposal(m0.current_round_id(), a),
        m0.has_proposal(m0.current_round_id(), b),
        a != b,
        m0.proposals[a as int].power + account_power(m0.locks, voter, m0.current_round_end())
            <= u128::MAX,
        m0.proposals[b as int].power + account_power(m0.locks, voter, m0.current_round_end())
            <= u128::MAX,
        m0.vote_outcome(voter, a, r1, m1),
        m1.vote_outcome(voter, b, r2, m2),
    ensures
        ({
            let power = account_power(m0.locks, voter, m0.current_round_end());
            &&& r1 == Ok::<u128, ContractError>(power as u128)
            &&& r2 == Ok::<u128, ContractError>(power as u128)
            &&& m2.proposals[a as int].power == m0.proposals[a as int].power
            &&& m2.scores.contains(
                ScoreKey {
                    round_id: m0.current_round_id(),
                    power: m0.proposals[a as int].power,
                    prop_id: a,
                },
            )
            &&& m2.proposals[b as int].power == m0.proposals[b as int].power + power
            &&& live_vote(m2.votes, m2.current_round_id(), voter) == Some(
                Vote { prop_id: b, power: power as u128 },
            )
        }),
{
    let power = account_power(m0.locks, voter, m0.current_round_end());
    lemma_account_power_prefix(m0.locks, m0.locks.len() as int, voter, m0.current_round_end());
    assert(m0.locks.subrange(0, m0.locks.len() as int) =~= m0.locks);
    assert(r1 == Ok::<u128, ContractError>(power as u128));
    assert(m1.proposals[a as int].power == m0.proposals[a as int].power + power);
    assert(m1.proposals[b as int].power == m0.proposals[b as int].power);
    assert(m1.proposals[b as int].round_id == m0.proposals[b as int].round_id);
    assert(r2 == Ok::<u128, ContractError>(power as u128));
    assert(m2.proposals[a as int].power == m1.proposals[a as int].power - power);
    assert(m2.proposals[b as int].power == m1.proposals[b as int].power + power);
    assert(m2.proposals[a as int].round_id == m0.proposals[a as int].round_id);
}

} // verus!
