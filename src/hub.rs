//! The governance hub: the lock ledger, the round clock, the proposal
//! registry with its score index, and the vote ledger.
use vstd::prelude::*;

use crate::model::{
    GovernanceModel, LockRecord, VoteRecord, account_power, funds_released, is_vote_of,
    lemma_account_power_prefix, lemma_live_vote_absent, lemma_live_vote_at,
    lemma_live_vote_remove_other, lemma_locks_kept_from, lemma_locks_kept_sorted,
    lemma_vote_total_none, lemma_vote_total_nonneg, lemma_vote_total_push,
    lemma_vote_total_remove, lemma_winner_unique, live_vote, locks_kept, score_key_of, vote_total,
    withdrawn,
};
use crate::parts::{
    GovernanceParts, check_locks, check_powers, check_proposals, check_rounds, check_votes,
};
use crate::power::{scale_lockup_power, valid_lock_duration};
use crate::score_index::{ScoreIndex, ScoreKey, key_le};
use crate::types::{Coin, Constants, ContractError, LockEntry, Proposal, Round, Vote};

verus! {

/// The hub's state. Every operation checks its preconditions before it
/// writes anything, so a rejected operation leaves the state as it was.
pub struct Governance {
    constants: Constants,
    rounds: Vec<Round>,
    proposals: Vec<Proposal>,
    scores: ScoreIndex,
    votes: Vec<VoteRecord>,
    locks: Vec<LockRecord>,
    next_lock_id: u64,
}

impl View for Governance {
    type V = GovernanceModel;

    closed spec fn view(&self) -> GovernanceModel {
        GovernanceModel {
            denom: self.constants.denom@,
            round_length: self.constants.round_length,
            rounds: self.rounds@,
            proposals: self.proposals@,
            scores: self.scores@,
            votes: self.votes@,
            locks: self.locks@,
            next_lock_id: self.next_lock_id,
        }
    }
}

/// Covenant parameters are accepted as they are.
pub fn validate_covenant_params(covenant_params: &String) -> (r: Result<(), ContractError>)
    ensures
        r is Ok,
{
    Ok(())
}

impl Governance {
    pub open spec fn wf(&self) -> bool {
        self@.wf()
    }

    /// Starts the hub with round 0, which ends `round_length` after `now`.
    pub fn new(constants: Constants, now: u64) -> (r: Result<Governance, ContractError>)
        ensures
            constants.round_length == 0 ==> r == Err::<Governance, ContractError>(
                ContractError::InvalidRoundLength,
            ),
            constants.round_length > 0 && now + constants.round_length > u64::MAX ==> r == Err::<
                Governance,
                ContractError,
            >(ContractError::Overflow),
            r matches Ok(g) ==> {
                &&& g.wf()
                &&& g@.denom == constants.denom@
                &&& g@.round_length == constants.round_length
                &&& g@.rounds == seq![Round { round_id: 0, round_end: (now + constants.round_length) as u64 }]
                &&& g@.proposals.len() == 0
                &&& g@.votes.len() == 0
                &&& g@.locks.len() == 0
                &&& g@.next_lock_id == 0
            },
            constants.round_length > 0 && now + constants.round_length <= u64::MAX ==> r is Ok,
    {
        if constants.round_length == 0 {
            return Err(ContractError::InvalidRoundLength);
        }
        if now > u64::MAX - constants.round_length {
            return Err(ContractError::Overflow);
        }
        let round_end = now + constants.round_length;
        let mut rounds: Vec<Round> = Vec::new();
        rounds.push(Round { round_id: 0, round_end });
        let g = Governance {
            constants,
            rounds,
            proposals: Vec::new(),
            scores: ScoreIndex::new(),
            votes: Vec::new(),
            locks: Vec::new(),
            next_lock_id: 0,
        };
        assert(g@.rounds =~= seq![Round { round_id: 0, round_end }]);
        Ok(g)
    }

    pub fn current_round_id(&self) -> (r: u64)
        requires
            self.wf(),
        ensures
            r == self@.current_round_id(),
    {
        self.rounds[self.rounds.len() - 1].round_id
    }

    pub fn current_round_end(&self) -> (r: u64)
        requires
            self.wf(),
        ensures
            r == self@.current_round_end(),
    {
        self.rounds[self.rounds.len() - 1].round_end
    }

    /// Adds a proposal with no power to the current round, under the next
    /// proposal id, which it returns.
    pub fn create_proposal(&mut self, covenant_params: String) -> (r: Result<u64, ContractError>)
        requires
            old(self).wf(),
        ensures
            final(self).wf(),
            old(self)@.create_outcome(covenant_params, r, final(self)@),
            r is Err ==> final(self)@ == old(self)@,
    {
        let ghost m0 = self@;
        match validate_covenant_params(&covenant_params) {
            Ok(()) => {},
            Err(e) => return Err(e),
        }
        if self.proposals.len() as u64 == u64::MAX {
            return Err(ContractError::Overflow);
        }
        let round_id = self.current_round_id();
        let prop_id = self.proposals.len() as u64;
        let key = ScoreKey { round_id, power: 0, prop_id };
        assert(!self@.scores.contains(key));
        self.scores.insert(key);
        self.proposals.push(
            Proposal { round_id, covenant_params, executed: false, power: 0 },
        );
        let ghost m1 = self@;
        proof {
            assert(m1.locks == m0.locks && m1.next_lock_id == m0.next_lock_id && m1.denom == m0.denom);
            assert(m0.locks_wf());
            assert forall|i: int| 0 <= i < m1.proposals.len() implies (#[trigger] m1.proposals[i]).power
                == vote_total(m1.votes, m1.proposals[i].round_id, i) by {
                if i == prop_id {
                    assert forall|j: int| 0 <= j < m1.votes.len() implies (
                    #[trigger] m1.votes[j]).vote.prop_id as int != i by {
                        assert(m0.has_proposal(m0.votes[j].round_id, m0.votes[j].vote.prop_id));
                    }
                    lemma_vote_total_none(m1.votes, round_id, i);
                } else {
                    assert(m1.proposals[i] == m0.proposals[i]);
                }
            }
            assert forall|k: ScoreKey| #[trigger]
                m1.scores.contains(k) <==> (k.prop_id < m1.proposals.len()
                    && m1.proposals[k.prop_id as int].round_id == k.round_id
                    && m1.proposals[k.prop_id as int].power == k.power) by {
                if k.prop_id < m0.proposals.len() {
                    assert(m1.proposals[k.prop_id as int] == m0.proposals[k.prop_id as int]);
                }
            }
            assert forall|i: int| 0 <= i < m1.votes.len() implies m1.has_proposal(
                (#[trigger] m1.votes[i]).round_id,
                m1.votes[i].vote.prop_id,
            ) by {
                assert(m0.has_proposal(m0.votes[i].round_id, m0.votes[i].vote.prop_id));
                assert(m1.proposals[m1.votes[i].vote.prop_id as int] == m0.proposals[m0.votes[i].vote.prop_id as int]);
            }
        }
        Ok(prop_id)
    }

    /// The proposal of `round` with the most power, the larger id breaking
    /// ties; `None` where the round has no proposal. One lookup in the score
    /// index, whatever the number of proposals.
    pub fn winner_of(&self, round: u64) -> (r: Option<u64>)
        requires
            self.wf(),
        ensures
            r is None <==> !self@.round_has_proposals(round),
            r matches Some(p) ==> self@.is_winner(round, p),
    {
        let ghost m = self@;
        match self.scores.top(round) {
            None => {
                proof {
                    if m.round_has_proposals(round) {
                        let i = choose|i: int|
                            0 <= i < m.proposals.len() && #[trigger] m.proposals[i].round_id == round;
                        assert(m.scores.contains(score_key_of(m.proposals, i)));
                    }
                }
                None
            },
            Some(k) => {
                proof {
                    assert(m.proposals[k.prop_id as int].round_id == round);
                    assert forall|j: int|
                        0 <= j < m.proposals.len() && #[trigger] m.proposals[j].round_id == round
                            implies key_le(score_key_of(m.proposals, j), score_key_of(m.proposals, k.prop_id as int)) by {
                        assert(m.scores.contains(score_key_of(m.proposals, j)));
                    }
                }
                Some(k.prop_id)
            },
        }
    }
    /// Sets the power of proposal `i` and moves its score key with it.
    fn set_power(&mut self, i: usize, new_power: u128)
        requires
            i < old(self)@.proposals.len(),
            old(self)@.proposals_wf(),
            old(self)@.scores_match_proposals(),
        ensures
            final(self)@ == (GovernanceModel {
                proposals: old(self)@.proposals.update(
                    i as int,
                    Proposal { power: new_power, ..old(self)@.proposals[i as int] },
                ),
                scores: final(self)@.scores,
                ..old(self)@
            }),
            final(self)@.scores_match_proposals(),
    {
        let ghost m0 = self@;
        let round_id = self.proposals[i].round_id;
        let old_power = self.proposals[i].power;
        self.scores.update_power(round_id, i as u64, old_power, new_power);
        self.proposals[i].power = new_power;
        let ghost m1 = self@;
        assert(m1.proposals =~= m0.proposals.update(
            i as int,
            Proposal { power: new_power, ..m0.proposals[i as int] },
        ));
        assert forall|k: ScoreKey| #[trigger]
            m1.scores.contains(k) <==> (k.prop_id < m1.proposals.len()
                && m1.proposals[k.prop_id as int].round_id == k.round_id
                && m1.proposals[k.prop_id as int].power == k.power) by {
            if k.prop_id == i as u64 {
            } else if k.prop_id < m0.proposals.len() {
                assert(m1.proposals[k.prop_id as int] == m0.proposals[k.prop_id as int]);
            }
        }
    }

    /// The position of the vote of `voter` in `round`, if there is one.
    fn find_vote(&self, round: u64, voter: &String) -> (r: Option<usize>)
        ensures
            r matches Some(j) ==> j < self@.votes.len() && is_vote_of(self@.votes[j as int], round, voter@),
            r is None ==> forall|i: int|
                0 <= i < self@.votes.len() ==> !is_vote_of(#[trigger] self@.votes[i], round, voter@),
    {
        let mut i: usize = 0;
        while i < self.votes.len()
            invariant
                i <= self@.votes.len(),
                forall|k: int| 0 <= k < i ==> !is_vote_of(#[trigger] self@.votes[k], round, voter@),
            decreases self@.votes.len() - i,
        {
            if self.votes[i].round_id == round && self.votes[i].voter == *voter {
                return Some(i);
            }
            i = i + 1;
        }
        None
    }

    /// The voting power of `owner` in a round that ends at `round_end`;
    /// `None` where it does not fit in a `u128`.
    fn account_power_at(&self, owner: &String, round_end: u64) -> (r: Option<u128>)
        ensures
            r == (if account_power(self@.locks, owner@, round_end) <= u128::MAX {
                Some(account_power(self@.locks, owner@, round_end) as u128)
            } else {
                None
            }),
    {
        let ghost locks = self@.locks;
        let mut total: u128 = 0;
        let mut i: usize = 0;
        while i < self.locks.len()
            invariant
                locks == self@.locks,
                i <= locks.len(),
                total == account_power(locks.subrange(0, i as int), owner@, round_end),
            decreases locks.len() - i,
        {
            proof {
                assert(locks.subrange(0, i + 1).drop_last() =~= locks.subrange(0, i as int));
                lemma_account_power_prefix(locks, i + 1, owner@, round_end);
            }
            if self.locks[i].owner == *owner && self.locks[i].entry.lock_end > round_end {
                let entry = &self.locks[i].entry;
                match scale_lockup_power(entry.lock_end - round_end, entry.funds.amount) {
                    Some(p) => {
                        match total.checked_add(p) {
                            Some(t) => total = t,
                            None => return None,
                        }
                    },
                    None => return None,
                }
            }
            i = i + 1;
        }
        assert(locks.subrange(0, locks.len() as int) =~= locks);
        Some(total)
    }

    /// Takes back vote `j`: its power leaves its proposal and the record goes.
    fn withdraw_vote(&mut self, j: usize)
        requires
            old(self).wf(),
            j < old(self)@.votes.len(),
        ensures
            final(self).wf(),
            ({
                let m0 = old(self)@;
                let v = m0.votes[j as int].vote;
                &&& final(self)@ == (GovernanceModel {
                    proposals: m0.proposals.update(
                        v.prop_id as int,
                        Proposal {
                            power: (m0.proposals[v.prop_id as int].power - v.power) as u128,
                            ..m0.proposals[v.prop_id as int]
                        },
                    ),
                    scores: final(self)@.scores,
                    votes: m0.votes.remove(j as int),
                    ..m0
                })
                &&& v.power <= m0.proposals[v.prop_id as int].power
            }),
    {
        let ghost m0 = self@;
        let old_vote = self.votes[j].vote;
        let n_proposals = self.proposals.len();
        assert(old_vote.prop_id < n_proposals) by {
            assert(m0.has_proposal(m0.votes[j as int].round_id, m0.votes[j as int].vote.prop_id));
        }
        let q = old_vote.prop_id as usize;
        proof {
            assert(m0.has_proposal(m0.votes[j as int].round_id, m0.votes[j as int].vote.prop_id));
            assert(m0.proposals[q as int].power == vote_total(m0.votes, m0.proposals[q as int].round_id, q as int));
            lemma_vote_total_remove(m0.votes, j as int, m0.votes[j as int].round_id, q as int);
            lemma_vote_total_nonneg(m0.votes.remove(j as int), m0.votes[j as int].round_id, q as int);
        }
        let cur = self.proposals[q].power;
        self.set_power(q, cur - old_vote.power);
        self.votes.remove(j);
        let ghost m1 = self@;
        assert forall|i: int| 0 <= i < m1.proposals.len() implies (#[trigger] m1.proposals[i]).power
            == vote_total(m1.votes, m1.proposals[i].round_id, i) by {
            lemma_vote_total_remove(m0.votes, j as int, m0.proposals[i].round_id, i);
        }
        assert forall|i: int| 0 <= i < m1.votes.len() implies m1.has_proposal(
            (#[trigger] m1.votes[i]).round_id,
            m1.votes[i].vote.prop_id,
        ) by {
            if i < j {
                assert(m1.votes[i] == m0.votes[i]);
            } else {
                assert(m1.votes[i] == m0.votes[i + 1]);
            }
        }
        assert forall|a: int, b: int|
            0 <= a < m1.votes.len() && 0 <= b < m1.votes.len() && a != b && (
            #[trigger] m1.votes[a]).round_id == (#[trigger] m1.votes[b]).round_id
                implies m1.votes[a].voter@ != m1.votes[b].voter@ by {
            let ia = if a < j { a } else { a + 1 };
            let ib = if b < j { b } else { b + 1 };
            assert(m1.votes[a] == m0.votes[ia]);
            assert(m1.votes[b] == m0.votes[ib]);
        }
    }

    /// Adds `power` to proposal `p` of the current round and records it as
    /// the vote of `voter`, who has none in this round.
    fn record_vote(&mut self, voter: &String, p: usize, power: u128)
        requires
            old(self).wf(),
            old(self)@.has_proposal(old(self)@.current_round_id(), p as u64),
            old(self)@.proposals[p as int].power + power <= u128::MAX,
            forall|i: int|
                0 <= i < old(self)@.votes.len() ==> !is_vote_of(
                    #[trigger] old(self)@.votes[i],
                    old(self)@.current_round_id(),
                    voter@,
                ),
        ensures
            final(self).wf(),
            ({
                let m0 = old(self)@;
                final(self)@ == (GovernanceModel {
                    proposals: m0.proposals.update(
                        p as int,
                        Proposal { power: (m0.proposals[p as int].power + power) as u128, ..m0.proposals[p as int] },
                    ),
                    scores: final(self)@.scores,
                    votes: m0.votes.push(
                        VoteRecord {
                            round_id: m0.current_round_id(),
                            voter: *voter,
                            vote: Vote { prop_id: p as u64, power },
                        },
                    ),
                    ..m0
                })
            }),
    {
        let ghost m0 = self@;
        let round_id = self.current_round_id();
        let cur = self.proposals[p].power;
        self.set_power(p, cur + power);
        let rec = VoteRecord { round_id, voter: voter.clone(), vote: Vote { prop_id: p as u64, power } };
        self.votes.push(rec);
        let ghost m1 = self@;
        assert forall|i: int| 0 <= i < m1.proposals.len() implies (#[trigger] m1.proposals[i]).power
            == vote_total(m1.votes, m1.proposals[i].round_id, i) by {
            lemma_vote_total_push(m0.votes, rec, m0.proposals[i].round_id, i);
        }
        assert forall|i: int| 0 <= i < m1.votes.len() implies m1.has_proposal(
            (#[trigger] m1.votes[i]).round_id,
            m1.votes[i].vote.prop_id,
        ) by {
            if i < m0.votes.len() {
                assert(m1.votes[i] == m0.votes[i]);
            }
        }
    }

    /// Casts the power of `voter` on proposal `proposal_id` of the current
    /// round and returns that power.
    ///
    /// A vote that `voter` already has in this round is first taken back in
    /// full, also when it went to the same proposal, so that re-voting after
    /// locking more counts the new power. The power is the sum over the
    /// voter's locks of their amounts scaled by the time they stay locked
    /// after the round ends, so it does not depend on when in the round the
    /// vote is cast. Voting stays open until the round is ended.
    pub fn vote(&mut self, voter: &String, proposal_id: u64) -> (r: Result<u128, ContractError>)
        requires
            old(self).wf(),
        ensures
            final(self).wf(),
            old(self)@.vote_outcome(voter@, proposal_id, r, final(self)@),
            r is Err ==> final(self)@ == old(self)@,
    {
        let ghost m0 = self@;
        let round_id = self.current_round_id();
        let round_end = self.current_round_end();
        if proposal_id >= self.proposals.len() as u64 || self.proposals[proposal_id as usize].round_id
            != round_id {
            return Err(ContractError::ProposalNotFound);
        }
        let p = proposal_id as usize;
        let prior = self.find_vote(round_id, voter);
        let ghost w = withdrawn(live_vote(m0.votes, round_id, voter@), p as int);
        proof {
            match prior {
                Some(j) => {
                    lemma_live_vote_at(m0.votes, j as int, round_id, voter@);
                    if m0.votes[j as int].vote.prop_id == p {
                        lemma_vote_total_remove(m0.votes, j as int, round_id, p as int);
                        lemma_vote_total_nonneg(m0.votes.remove(j as int), round_id, p as int);
                    }
                },
                None => lemma_live_vote_absent(m0.votes, round_id, voter@),
            }
            lemma_account_power_prefix(m0.locks, m0.locks.len() as int, voter@, round_end);
        }
        assert(0 <= w <= m0.proposals[p as int].power);
        let power = match self.account_power_at(voter, round_end) {
            Some(x) => x,
            None => {
                return Err(ContractError::Overflow);
            },
        };
        let mut base = self.proposals[p].power;
        match prior {
            Some(j) => {
                if self.votes[j].vote.prop_id == proposal_id {
                    base = base - self.votes[j].vote.power;
                }
            },
            None => {},
        }
        if power > u128::MAX - base {
            return Err(ContractError::Overflow);
        }
        match prior {
            Some(j) => {
                self.withdraw_vote(j);
                proof {
                    let m1 = self@;
                    assert forall|i: int|
                        0 <= i < m1.votes.len() implies !is_vote_of(#[trigger] m1.votes[i], round_id, voter@) by {
                        if i < j {
                            assert(m1.votes[i] == m0.votes[i]);
                        } else {
                            assert(m1.votes[i] == m0.votes[i + 1]);
                        }
                    }
                }
            },
            None => {},
        }
        let ghost m1 = self@;
        self.record_vote(voter, p, power);
        let ghost m2 = self@;
        proof {
            assert(m2.votes.drop_last() == m1.votes);
            assert forall|r2: u64, v2: Seq<char>|
                !(r2 == round_id && v2 == voter@) implies #[trigger] live_vote(m2.votes, r2, v2)
                    == live_vote(m0.votes, r2, v2) by {
                if let Some(j) = prior {
                    lemma_live_vote_remove_other(m0.votes, j as int, r2, v2);
                }
            }
        }
        Ok(power)
    }
    /// Locks the single coin in `funds` for `owner` until `now + lock_duration`
    /// and returns the new lock's id.
    pub fn lock_tokens(&mut self, owner: &String, funds: &Vec<Coin>, lock_duration: u64, now: u64) -> (r:
        Result<u64, ContractError>)
        requires
            old(self).wf(),
        ensures
            final(self).wf(),
            old(self)@.lock_outcome(*owner, funds@, lock_duration, now, r, final(self)@),
            r is Err ==> final(self)@ == old(self)@,
    {
        if !valid_lock_duration(lock_duration) {
            return Err(ContractError::InvalidLockDuration);
        }
        if funds.len() != 1 || funds[0].denom != self.constants.denom || funds[0].amount == 0 {
            return Err(ContractError::InvalidDeposit);
        }
        if now > u64::MAX - lock_duration || self.next_lock_id == u64::MAX {
            return Err(ContractError::Overflow);
        }
        let ghost m0 = self@;
        let lock_id = self.next_lock_id;
        let entry = LockEntry { funds: funds[0].clone(), lock_start: now, lock_end: now + lock_duration };
        self.locks.push(LockRecord { owner: owner.clone(), lock_id, entry });
        self.next_lock_id = lock_id + 1;
        let ghost m1 = self@;
        assert forall|i: int| 0 <= i < m1.votes.len() implies m1.has_proposal(
            (#[trigger] m1.votes[i]).round_id,
            m1.votes[i].vote.prop_id,
        ) by {
            assert(m0.has_proposal(m0.votes[i].round_id, m0.votes[i].vote.prop_id));
        }
        assert forall|i: int| 0 <= i < m1.locks.len() implies {
            let l = #[trigger] m1.locks[i];
            &&& l.lock_id < m1.next_lock_id
            &&& l.entry.lock_start < l.entry.lock_end
            &&& l.entry.funds.amount > 0
            &&& l.entry.funds.denom@ == m1.denom
        } by {
            if i < m0.locks.len() {
                assert(m1.locks[i] == m0.locks[i]);
            }
        }
        assert forall|i: int, j: int|
            0 <= i < j < m1.locks.len() implies (#[trigger] m1.locks[i]).lock_id < (
            #[trigger] m1.locks[j]).lock_id by {
            assert(m0.locks_wf());
            if j < m0.locks.len() {
                assert(m1.locks[j] == m0.locks[j]);
            }
            assert(m1.locks[i] == m0.locks[i]);
        }
        Ok(lock_id)
    }

    /// Releases every lock of `owner` that ended before `now` and returns
    /// their funds, for one transfer. Locks still running stay as they are;
    /// with none matured the result is empty.
    pub fn unlock_tokens(&mut self, owner: &String, now: u64) -> (r: Vec<Coin>)
        requires
            old(self).wf(),
        ensures
            final(self).wf(),
            old(self)@.unlock_outcome(owner@, now, r@, final(self)@),
    {
        let ghost m0 = self@;
        let ghost locks = self@.locks;
        let mut kept: Vec<LockRecord> = Vec::new();
        let mut released: Vec<Coin> = Vec::new();
        let mut i: usize = 0;
        while i < self.locks.len()
            invariant
                locks == self@.locks,
                i <= locks.len(),
                kept@ == locks_kept(locks.subrange(0, i as int), owner@, now),
                released@ == funds_released(locks.subrange(0, i as int), owner@, now),
            decreases locks.len() - i,
        {
            assert(locks.subrange(0, i + 1).drop_last() =~= locks.subrange(0, i as int));
            let rec = &self.locks[i];
            if rec.owner == *owner && rec.entry.lock_end < now {
                released.push(rec.entry.funds.clone());
            } else {
                kept.push(rec.clone());
            }
            i = i + 1;
        }
        assert(locks.subrange(0, locks.len() as int) =~= locks);
        self.locks = kept;
        proof {
            lemma_locks_kept_from(locks, owner@, now);
            lemma_locks_kept_sorted(locks, owner@, now);
            let m1 = self@;
            assert forall|i: int| 0 <= i < m1.votes.len() implies m1.has_proposal(
                (#[trigger] m1.votes[i]).round_id,
                m1.votes[i].vote.prop_id,
            ) by {
                assert(m0.has_proposal(m0.votes[i].round_id, m0.votes[i].vote.prop_id));
            }
            assert forall|i: int| 0 <= i < m1.locks.len() implies {
                let l = #[trigger] m1.locks[i];
                &&& l.lock_id < m1.next_lock_id
                &&& l.entry.lock_start < l.entry.lock_end
                &&& l.entry.funds.amount > 0
                &&& l.entry.funds.denom@ == m1.denom
            } by {
                let k = choose|k: int| 0 <= k < locks.len() && locks[k] == m1.locks[i];
                assert(m0.locks[k] == m1.locks[i]);
            }
        }
        released
    }

    /// Closes the current round once its end time is reached and opens the
    /// next one, which ends `round_length` after `now`. Returns the new
    /// round's id.
    pub fn end_round(&mut self, now: u64) -> (r: Result<u64, ContractError>)
        requires
            old(self).wf(),
        ensures
            final(self).wf(),
            old(self)@.end_round_outcome(now, r, final(self)@),
            r is Err ==> final(self)@ == old(self)@,
    {
        let ghost m0 = self@;
        let round_id = self.current_round_id();
        let round_end = self.current_round_end();
        if now < round_end {
            return Err(ContractError::RoundNotEnded);
        }
        if now > u64::MAX - self.constants.round_length || round_id == u64::MAX {
            return Err(ContractError::Overflow);
        }
        let next = Round { round_id: round_id + 1, round_end: now + self.constants.round_length };
        self.rounds.push(next);
        let ghost m1 = self@;
        assert(m1 == GovernanceModel { rounds: m0.rounds.push(next), ..m0 });
        assert(m0.locks_wf());
        assert forall|i: int| 0 <= i < m1.votes.len() implies m1.has_proposal(
            (#[trigger] m1.votes[i]).round_id,
            m1.votes[i].vote.prop_id,
        ) by {
            assert(m0.has_proposal(m0.votes[i].round_id, m0.votes[i].vote.prop_id));
        }
        assert forall|i: int| 0 <= i < m1.rounds.len() - 1 implies (#[trigger] m1.rounds[i]).round_end
            < m1.rounds[i + 1].round_end by {
            if i < m0.rounds.len() - 1 {
                assert(m0.rounds[i].round_end < m0.rounds[i + 1].round_end);
            }
        }
        assert forall|i: int| 0 <= i < m1.rounds.len() implies (#[trigger] m1.rounds[i]).round_id == i by {
            if i < m0.rounds.len() {
                assert(m1.rounds[i] == m0.rounds[i]);
            }
        }
        assert forall|i: int|
            0 <= i < m1.proposals.len() implies (#[trigger] m1.proposals[i]).round_id
                < m1.rounds.len() by {
            assert(m0.proposals[i].round_id < m0.rounds.len());
        }
        Ok(round_id + 1)
    }

    /// Marks the winner of the round that ended last as executed and hands
    /// back its covenant parameters, which the caller runs as part of the
    /// same operation.
    ///
    /// The flag is set here, before the covenant runs. It does not stick on a
    /// covenant that fails only because the caller treats the covenant and
    /// this state change as one atomic operation: a failing covenant must
    /// roll the whole operation back, this flag included.
    pub fn execute_proposal(&mut self, proposal_id: u64) -> (r: Result<String, ContractError>)
        requires
            old(self).wf(),
        ensures
            final(self).wf(),
            old(self)@.execute_outcome(proposal_id, r, final(self)@),
            r is Err ==> final(self)@ == old(self)@,
    {
        let ghost m0 = self@;
        let round_id = self.current_round_id();
        if round_id == 0 {
            return Err(ContractError::RoundNotFound);
        }
        let last = round_id - 1;
        match self.winner_of(last) {
            Some(w) => {
                if w != proposal_id {
                    proof {
                        if m0.is_winner(last, proposal_id) {
                            lemma_winner_unique(m0, last, w, proposal_id);
                        }
                    }
                    return Err(ContractError::ProposalDidNotWin);
                }
            },
            None => {
                proof {
                    if m0.is_winner(last, proposal_id) {
                        assert(m0.proposals[proposal_id as int].round_id == last);
                    }
                }
                return Err(ContractError::ProposalDidNotWin);
            },
        }
        assert(m0.is_winner(last, proposal_id));
        let n_proposals = self.proposals.len();
        assert(proposal_id < n_proposals);
        let p = proposal_id as usize;
        if self.proposals[p].executed {
            assert(self@ == m0);
            return Err(ContractError::AlreadyExecuted);
        }
        let params = self.proposals[p].covenant_params.clone();
        self.proposals[p].executed = true;
        let ghost m1 = self@;
        assert(m1.proposals =~= m0.proposals.update(
            p as int,
            Proposal { executed: true, ..m0.proposals[p as int] },
        ));
        assert(m1.locks == m0.locks && m1.next_lock_id == m0.next_lock_id && m1.denom == m0.denom);
        assert forall|k: ScoreKey| #[trigger]
            m1.scores.contains(k) <==> (k.prop_id < m1.proposals.len()
                && m1.proposals[k.prop_id as int].round_id == k.round_id
                && m1.proposals[k.prop_id as int].power == k.power) by {
            if k.prop_id < m0.proposals.len() {
                assert(m1.proposals[k.prop_id as int].round_id == m0.proposals[k.prop_id as int].round_id);
            }
        }
        assert forall|i: int| 0 <= i < m1.votes.len() implies m1.has_proposal(
            (#[trigger] m1.votes[i]).round_id,
            m1.votes[i].vote.prop_id,
        ) by {
            assert(m0.has_proposal(m0.votes[i].round_id, m0.votes[i].vote.prop_id));
        }
        Ok(params)
    }

    /// The vote of `voter` in `round`, if there is one.
    pub fn vote_of(&self, round: u64, voter: &String) -> (r: Option<Vote>)
        requires
            self.wf(),
        ensures
            r == live_vote(self@.votes, round, voter@),
    {
        match self.find_vote(round, voter) {
            Some(j) => {
                proof {
                    lemma_live_vote_at(self@.votes, j as int, round, voter@);
                }
                Some(self.votes[j].vote)
            },
            None => {
                proof {
                    lemma_live_vote_absent(self@.votes, round, voter@);
                }
                None
            },
        }
    }

    /// The power of proposal `prop_id`, which must exist.
    pub fn proposal_power(&self, prop_id: u64) -> (r: u128)
        requires
            self.wf(),
            prop_id < self@.proposals.len(),
        ensures
            r == self@.proposals[prop_id as int].power,
    {
        let n_proposals = self.proposals.len();
        assert(prop_id < n_proposals);
        self.proposals[prop_id as usize].power
    }

    /// Proposal `prop_id`, if it exists.
    pub fn proposal(&self, prop_id: u64) -> (r: Option<Proposal>)
        ensures
            prop_id < self@.proposals.len() ==> r == Some(self@.proposals[prop_id as int]),
            prop_id >= self@.proposals.len() ==> r is None,
    {
        if prop_id < self.proposals.len() as u64 {
            Some(self.proposals[prop_id as usize].clone())
        } else {
            None
        }
    }

    /// The end time of round `round_id`, if the round exists.
    pub fn round_end(&self, round_id: u64) -> (r: Option<u64>)
        requires
            self.wf(),
        ensures
            round_id < self@.rounds.len() ==> r == Some(self@.rounds[round_id as int].round_end),
            round_id >= self@.rounds.len() ==> r is None,
    {
        if round_id < self.rounds.len() as u64 {
            Some(self.rounds[round_id as usize].round_end)
        } else {
            None
        }
    }

    /// Lock `lock_id` of `owner`, if it is still held.
    pub fn lock(&self, owner: &String, lock_id: u64) -> (r: Option<LockEntry>)
        ensures
            r matches Some(e) ==> exists|i: int|
                0 <= i < self@.locks.len() && #[trigger] self@.locks[i].lock_id == lock_id
                    && self@.locks[i].owner@ == owner@ && self@.locks[i].entry == e,
            r is None ==> forall|i: int|
                0 <= i < self@.locks.len() ==> !(#[trigger] self@.locks[i].lock_id == lock_id
                    && self@.locks[i].owner@ == owner@),
    {
        let mut i: usize = 0;
        while i < self.locks.len()
            invariant
                i <= self@.locks.len(),
                forall|k: int|
                    0 <= k < i ==> !(#[trigger] self@.locks[k].lock_id == lock_id && self@.locks[k].owner@
                        == owner@),
            decreases self@.locks.len() - i,
        {
            if self.locks[i].lock_id == lock_id && self.locks[i].owner == *owner {
                return Some(self.locks[i].entry.clone());
            }
            i = i + 1;
        }
        None
    }

    /// The currency accepted for locking.
    pub fn denom(&self) -> (r: &String)
        ensures
            r@ == self@.denom,
    {
        &self.constants.denom
    }

    pub fn round_length(&self) -> (r: u64)
        ensures
            r == self@.round_length,
    {
        self.constants.round_length
    }

    /// The hub's records, for keeping them in storage; `from_parts` turns
    /// them back into the same hub.
    pub fn into_parts(self) -> (p: GovernanceParts)
        ensures
            p.model() == (GovernanceModel { scores: Seq::empty(), ..self@ }),
    {
        GovernanceParts {
            constants: self.constants,
            rounds: self.rounds,
            proposals: self.proposals,
            votes: self.votes,
            locks: self.locks,
            next_lock_id: self.next_lock_id,
        }
    }

    /// Rebuilds a hub from stored records, with a fresh score index built
    /// from the proposals; `None` where the records break an invariant of
    /// the hub.
    pub fn from_parts(p: GovernanceParts) -> (r: Option<Governance>)
        ensures
            r is Some <==> p.model().records_wf(),
            r matches Some(g) ==> g.wf() && g@ == (GovernanceModel { scores: g@.scores, ..p.model() }),
    {
        if p.constants.round_length == 0 || !check_rounds(&p) || !check_proposals(&p) || !check_powers(
            &p,
        ) || !check_votes(&p) || !check_locks(&p) {
            return None;
        }
        let ghost m = p.model();
        let mut scores = ScoreIndex::new();
        let n = p.proposals.len();
        let mut i: usize = 0;
        while i < n
            invariant
                scores.wf(),
                m == p.model(),
                n == m.proposals.len(),
                i <= n,
                m.proposals_wf(),
                forall|k: ScoreKey| #[trigger]
                    scores@.contains(k) <==> (k.prop_id < i && m.proposals[k.prop_id as int].round_id
                        == k.round_id && m.proposals[k.prop_id as int].power == k.power),
            decreases n - i,
        {
            assert((i as u64) as int == i as int);
            let key = ScoreKey { round_id: p.proposals[i].round_id, power: p.proposals[i].power, prop_id: i as u64 };
            scores.insert(key);
            i = i + 1;
        }
        let GovernanceParts { constants, rounds, proposals, votes, locks, next_lock_id } = p;
        let g = Governance { constants, rounds, proposals, scores, votes, locks, next_lock_id };
        assert(g@ == (GovernanceModel { scores: g@.scores, ..m }));
        Some(g)
    }

}

} // verus!
