//! The hub's records laid out plainly, for keeping them in storage between
//! operations, and the checks that a set of records is a valid hub.
use vstd::prelude::*;

use crate::model::{GovernanceModel, LockRecord, VoteRecord, lemma_vote_total_prefix, vote_total};
use crate::types::{Constants, Proposal, Round};

verus! {

/// Everything the hub holds but its score index, which is rebuilt from the
/// proposals.
pub struct GovernanceParts {
    pub constants: Constants,
    pub rounds: Vec<Round>,
    pub proposals: Vec<Proposal>,
    pub votes: Vec<VoteRecord>,
    pub locks: Vec<LockRecord>,
    pub next_lock_id: u64,
}

impl GovernanceParts {
    /// The records as a hub model, with an empty score index.
    pub open spec fn model(&self) -> GovernanceModel {
        GovernanceModel {
            denom: self.constants.denom@,
            round_length: self.constants.round_length,
            rounds: self.rounds@,
            proposals: self.proposals@,
            scores: Seq::empty(),
            votes: self.votes@,
            locks: self.locks@,
            next_lock_id: self.next_lock_id,
        }
    }
}

pub(crate) fn check_rounds(p: &GovernanceParts) -> (r: bool)
    ensures
        r == p.model().rounds_wf(),
{
    let ghost m = p.model();
    let n = p.rounds.len();
    if n == 0 {
        return false;
    }
    let mut i: usize = 0;
    while i < n
        invariant
            n == m.rounds.len(),
            m == p.model(),
            i <= n,
            forall|k: int| 0 <= k < i ==> (#[trigger] m.rounds[k]).round_id == k,
            forall|k: int| 0 <= k < i - 1 ==> (#[trigger] m.rounds[k]).round_end < m.rounds[k + 1].round_end,
        decreases n - i,
    {
        if p.rounds[i].round_id != i as u64 {
            return false;
        }
        if i > 0 && p.rounds[i - 1].round_end >= p.rounds[i].round_end {
            assert(!(m.rounds[i - 1].round_end < m.rounds[(i - 1) + 1].round_end));
            return false;
        }
        i = i + 1;
    }
    true
}

pub(crate) fn check_proposals(p: &GovernanceParts) -> (r: bool)
    ensures
        r == p.model().proposals_wf(),
{
    let ghost m = p.model();
    let n = p.proposals.len();
    let n_rounds = p.rounds.len();
    let mut i: usize = 0;
    while i < n
        invariant
            n == m.proposals.len(),
            n_rounds == m.rounds.len(),
            m == p.model(),
            i <= n,
            forall|k: int| 0 <= k < i ==> (#[trigger] m.proposals[k]).round_id < m.rounds.len(),
        decreases n - i,
    {
        if p.proposals[i].round_id >= n_rounds as u64 {
            return false;
        }
        i = i + 1;
    }
    assert(m.proposals.len() <= u64::MAX);
    true
}

/// The total power of the votes cast on proposal `prop` of `round`; `None`
/// where it does not fit in a `u128`.
fn votes_on(votes: &Vec<VoteRecord>, round: u64, prop: u64) -> (r: Option<u128>)
    ensures
        vote_total(votes@, round, prop as int) >= 0,
        r == (if vote_total(votes@, round, prop as int) <= u128::MAX {
            Some(vote_total(votes@, round, prop as int) as u128)
        } else {
            None
        }),
{
    let ghost s = votes@;
    proof {
        lemma_vote_total_prefix(s, 0, round, prop as int);
    }
    let mut total: u128 = 0;
    let mut j: usize = 0;
    while j < votes.len()
        invariant
            s == votes@,
            j <= s.len(),
            total == vote_total(s.subrange(0, j as int), round, prop as int),
        decreases s.len() - j,
    {
        proof {
            assert(s.subrange(0, j + 1).drop_last() =~= s.subrange(0, j as int));
            lemma_vote_total_prefix(s, j + 1, round, prop as int);
        }
        if votes[j].round_id == round && votes[j].vote.prop_id == prop {
            match total.checked_add(votes[j].vote.power) {
                Some(t) => total = t,
                None => return None,
            }
        }
        j = j + 1;
    }
    assert(s.subrange(0, s.len() as int) =~= s);
    Some(total)
}

pub(crate) fn check_powers(p: &GovernanceParts) -> (r: bool)
    ensures
        r == p.model().powers_match_votes(),
{
    let ghost m = p.model();
    let n = p.proposals.len();
    let mut i: usize = 0;
    while i < n
        invariant
            n == m.proposals.len(),
            m == p.model(),
            i <= n,
            forall|k: int|
                0 <= k < i ==> (#[trigger] m.proposals[k]).power == vote_total(
                    m.votes,
                    m.proposals[k].round_id,
                    k,
                ),
        decreases n - i,
    {
        assert((i as u64) as int == i as int);
        match votes_on(&p.votes, p.proposals[i].round_id, i as u64) {
            Some(t) => {
                if t != p.proposals[i].power {
                    return false;
                }
            },
            None => {
                return false;
            },
        }
        i = i + 1;
    }
    true
}

pub(crate) fn check_votes(p: &GovernanceParts) -> (r: bool)
    ensures
        r == p.model().votes_wf(),
{
    let ghost m = p.model();
    let n = p.votes.len();
    let n_proposals = p.proposals.len();
    let mut i: usize = 0;
    while i < n
        invariant
            n == m.votes.len(),
            n_proposals == m.proposals.len(),
            m == p.model(),
            i <= n,
            forall|k: int|
                0 <= k < i ==> m.has_proposal(
                    (#[trigger] m.votes[k]).round_id,
                    m.votes[k].vote.prop_id,
                ),
            forall|a: int, b: int|
                0 <= a < i && 0 <= b < i && a != b && (#[trigger] m.votes[a]).round_id == (
                #[trigger] m.votes[b]).round_id ==> m.votes[a].voter@ != m.votes[b].voter@,
        decreases n - i,
    {
        let prop = p.votes[i].vote.prop_id;
        if prop >= n_proposals as u64 || p.proposals[prop as usize].round_id != p.votes[i].round_id {
            return false;
        }
        let mut j: usize = 0;
        while j < i
            invariant
                n == m.votes.len(),
                m == p.model(),
                i < n,
                j <= i,
                forall|b: int|
                    0 <= b < j ==> !((#[trigger] m.votes[b]).round_id == m.votes[i as int].round_id
                        && m.votes[b].voter@ == m.votes[i as int].voter@),
            decreases i - j,
        {
            if p.votes[j].round_id == p.votes[i].round_id && p.votes[j].voter == p.votes[i].voter {
                return false;
            }
            j = j + 1;
        }
        i = i + 1;
    }
    true
}

pub(crate) fn check_locks(p: &GovernanceParts) -> (r: bool)
    ensures
        r == p.model().locks_wf(),
{
    let ghost m = p.model();
    let n = p.locks.len();
    let mut i: usize = 0;
    while i < n
        invariant
            n == m.locks.len(),
            m == p.model(),
            i <= n,
            forall|k: int|
                0 <= k < i ==> {
                    let l = #[trigger] m.locks[k];
                    &&& l.lock_id < m.next_lock_id
                    &&& l.entry.lock_start < l.entry.lock_end
                    &&& l.entry.funds.amount > 0
                    &&& l.entry.funds.denom@ == m.denom
                },
            forall|a: int, b: int|
                0 <= a < b < i ==> (#[trigger] m.locks[a]).lock_id < (#[trigger] m.locks[b]).lock_id,
        decreases n - i,
    {
        let l = &p.locks[i];
        if l.lock_id >= p.next_lock_id || l.entry.lock_start >= l.entry.lock_end
            || l.entry.funds.amount == 0 || l.entry.funds.denom != p.constants.denom {
            return false;
        }
        if i > 0 && p.locks[i - 1].lock_id >= l.lock_id {
            return false;
        }
        proof {
            assert forall|a: int| 0 <= a < i implies (#[trigger] m.locks[a]).lock_id < m.locks[i as int].lock_id by {
                if a < i - 1 {
                    assert(m.locks[a].lock_id < m.locks[i - 1].lock_id);
                }
            }
        }
        i = i + 1;
    }
    true
}

} // verus!
