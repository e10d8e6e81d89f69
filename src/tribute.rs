//! The tribute ledger: reward pools attached to proposals, shared among the
//! voters of the winning proposal once its round has ended, or handed back
//! to their depositors when the proposal lost.
use vstd::prelude::*;

use crate::hub::Governance;
use crate::model::{GovernanceModel, lemma_vote_within_proposal, lemma_winner_unique, live_vote};
use crate::types::{Coin, ContractError, Tribute};

verus! {

/// A tribute, with the round and proposal it was attached to.
pub struct TributeRecord {
    pub round_id: u64,
    pub prop_id: u64,
    pub tribute: Tribute,
}

/// `claimer` has taken its share of tribute `tribute_id`.
pub struct ClaimRecord {
    pub claimer: String,
    pub tribute_id: u64,
}

/// What the ledger holds, as mathematical values. Tribute `i` is at
/// position `i`; a claim is the claimer's address and the tribute id.
pub struct TributeModel {
    pub tributes: Seq<TributeRecord>,
    pub claims: Seq<(Seq<char>, u64)>,
}

pub open spec fn claim_view(c: ClaimRecord) -> (Seq<char>, u64) {
    (c.claimer@, c.tribute_id)
}

/// `value * numerator / denominator`, rounded down.
pub open spec fn share_of(value: u128, numerator: u128, denominator: u128) -> int {
    (value as int * numerator as int) / (denominator as int)
}

/// Relies on cosmwasm_std::Uint128::multiply_ratio: the product is formed in
/// 256 bits and divided, rounding down; it panics only on a zero denominator
/// or on a result beyond `u128`, which `requires` leaves out.
#[verifier::external_body]
fn multiply_ratio(value: u128, numerator: u128, denominator: u128) -> (r: u128)
    requires
        denominator > 0,
        share_of(value, numerator, denominator) <= u128::MAX,
    ensures
        r == share_of(value, numerator, denominator),
{
    cosmwasm_std::Uint128::new(value).multiply_ratio(numerator, denominator).u128()
}

impl TributeModel {
    pub open spec fn wf(self) -> bool {
        &&& self.tributes.len() <= u64::MAX
        &&& forall|i: int, j: int|
            0 <= i < j < self.claims.len() ==> #[trigger] self.claims[i] != #[trigger] self.claims[j]
    }

    /// Tribute `tid` exists and was attached to proposal `prop` of `round`.
    pub open spec fn has_tribute(self, round: u64, prop: u64, tid: u64) -> bool {
        &&& tid < self.tributes.len()
        &&& self.tributes[tid as int].round_id == round
        &&& self.tributes[tid as int].prop_id == prop
    }

    pub open spec fn has_claimed(self, claimer: Seq<char>, tid: u64) -> bool {
        self.claims.contains((claimer, tid))
    }

    /// What `add_tribute` does to a ledger in this state, given the hub's
    /// state `hub`, with result `r` and new state `post`.
    pub open spec fn add_outcome(
        self,
        hub: GovernanceModel,
        depositor: String,
        funds: Seq<Coin>,
        round: u64,
        prop: u64,
        r: Result<u64, ContractError>,
        post: Self,
    ) -> bool {
        if round != hub.current_round_id() {
            r == Err::<u64, ContractError>(ContractError::RoundNotCurrent) && post == self
        } else if funds.len() != 1 {
            r == Err::<u64, ContractError>(ContractError::InvalidDeposit) && post == self
        } else if self.tributes.len() == u64::MAX {
            r == Err::<u64, ContractError>(ContractError::Overflow) && post == self
        } else {
            &&& r == Ok::<u64, ContractError>(self.tributes.len() as u64)
            &&& post == (TributeModel {
                tributes: self.tributes.push(
                    TributeRecord {
                        round_id: round,
                        prop_id: prop,
                        tribute: Tribute { depositor, funds: funds[0], refunded: false },
                    },
                ),
                ..self
            })
        }
    }

    /// What `claim_tribute` does to a ledger in this state, given the hub's
    /// state `hub`, with result `r` and new state `post`.
    pub open spec fn claim_outcome(
        self,
        hub: GovernanceModel,
        claimer: Seq<char>,
        round: u64,
        prop: u64,
        tid: u64,
        r: Result<Coin, ContractError>,
        post: Self,
    ) -> bool {
        let vote = live_vote(hub.votes, round, claimer);
        if round >= hub.current_round_id() {
            r == Err::<Coin, ContractError>(ContractError::RoundStillActive) && post == self
        } else if !hub.is_winner(round, prop) {
            r == Err::<Coin, ContractError>(ContractError::ProposalDidNotWin) && post == self
        } else if vote is None {
            r == Err::<Coin, ContractError>(ContractError::NoVoteFound) && post == self
        } else if vote->0.prop_id != prop {
            r == Err::<Coin, ContractError>(ContractError::VotedDifferentProposal) && post == self
        } else if self.has_claimed(claimer, tid) {
            r == Err::<Coin, ContractError>(ContractError::AlreadyClaimed) && post == self
        } else if !self.has_tribute(round, prop, tid) {
            r == Err::<Coin, ContractError>(ContractError::TributeNotFound) && post == self
        } else if hub.proposals[prop as int].power == 0 {
            r == Err::<Coin, ContractError>(ContractError::DivisionByZero) && post == self
        } else {
            let funds = self.tributes[tid as int].tribute.funds;
            &&& r == Ok::<Coin, ContractError>(
                Coin {
                    denom: funds.denom,
                    amount: share_of(
                        funds.amount,
                        vote->0.power,
                        hub.proposals[prop as int].power,
                    ) as u128,
                },
            )
            &&& post == TributeModel { claims: self.claims.push((claimer, tid)), ..self }
        }
    }

    /// What `refund_tribute` does to a ledger in this state, given the hub's
    /// state `hub`, with result `r` and new state `post`.
    pub open spec fn refund_outcome(
        self,
        hub: GovernanceModel,
        claimer: Seq<char>,
        round: u64,
        prop: u64,
        tid: u64,
        r: Result<Coin, ContractError>,
        post: Self,
    ) -> bool {
        if round >= hub.current_round_id() {
            r == Err::<Coin, ContractError>(ContractError::RoundStillActive) && post == self
        } else if hub.is_winner(round, prop) {
            r == Err::<Coin, ContractError>(ContractError::ProposalWon) && post == self
        } else if !self.has_tribute(round, prop, tid) {
            r == Err::<Coin, ContractError>(ContractError::TributeNotFound) && post == self
        } else if self.tributes[tid as int].tribute.depositor@ != claimer {
            r == Err::<Coin, ContractError>(ContractError::NotDepositor) && post == self
        } else if self.tributes[tid as int].tribute.refunded {
            r == Err::<Coin, ContractError>(ContractError::AlreadyRefunded) && post == self
        } else {
            let rec = self.tributes[tid as int];
            &&& r == Ok::<Coin, ContractError>(rec.tribute.funds)
            &&& post == TributeModel {
                tributes: self.tributes.update(
                    tid as int,
                    TributeRecord { tribute: Tribute { refunded: true, ..rec.tribute }, ..rec },
                ),
                ..self
            }
        }
    }
}

/// The ledger's records laid out plainly, for keeping them in storage.
pub struct TributeParts {
    pub tributes: Vec<TributeRecord>,
    pub claims: Vec<ClaimRecord>,
}

impl TributeParts {
    pub open spec fn model(&self) -> TributeModel {
        TributeModel {
            tributes: self.tributes@,
            claims: self.claims@.map_values(|c: ClaimRecord| claim_view(c)),
        }
    }
}

/// The tributes of every round and the claims made on them.
pub struct TributeLedger {
    tributes: Vec<TributeRecord>,
    claims: Vec<ClaimRecord>,
}

impl View for TributeLedger {
    type V = TributeModel;

    closed spec fn view(&self) -> TributeModel {
        TributeModel {
            tributes: self.tributes@,
            claims: self.claims@.map_values(|c: ClaimRecord| claim_view(c)),
        }
    }
}

impl TributeLedger {
    pub open spec fn wf(&self) -> bool {
        self@.wf()
    }

    pub fn new() -> (r: TributeLedger)
        ensures
            r.wf(),
            r@.tributes.len() == 0,
            r@.claims.len() == 0,
    {
        let r = TributeLedger { tributes: Vec::new(), claims: Vec::new() };
        assert(r@.claims =~= Seq::<(Seq<char>, u64)>::empty());
        r
    }

    /// Attaches the single coin in `funds` to proposal `proposal_id` of the
    /// current round and returns the new tribute's id.
    pub fn add_tribute(
        &mut self,
        hub: &Governance,
        depositor: &String,
        funds: &Vec<Coin>,
        round_id: u64,
        proposal_id: u64,
    ) -> (r: Result<u64, ContractError>)
        requires
            old(self).wf(),
            hub.wf(),
        ensures
            final(self).wf(),
            old(self)@.add_outcome(hub@, *depositor, funds@, round_id, proposal_id, r, final(self)@),
            r is Err ==> final(self)@ == old(self)@,
    {
        if round_id != hub.current_round_id() {
            return Err(ContractError::RoundNotCurrent);
        }
        if funds.len() != 1 {
            return Err(ContractError::InvalidDeposit);
        }
        if self.tributes.len() as u64 == u64::MAX {
            return Err(ContractError::Overflow);
        }
        let tribute_id = self.tributes.len() as u64;
        let tribute = Tribute { depositor: depositor.clone(), funds: funds[0].clone(), refunded: false };
        let ghost t0 = self@;
        self.tributes.push(TributeRecord { round_id, prop_id: proposal_id, tribute });
        assert(self@.claims == t0.claims);
        Ok(tribute_id)
    }

    /// Whether `claimer` has claimed tribute `tribute_id`.
    fn claimed(&self, claimer: &String, tribute_id: u64) -> (r: bool)
        ensures
            r == self@.has_claimed(claimer@, tribute_id),
    {
        let ghost cs = self@.claims;
        let mut i: usize = 0;
        while i < self.claims.len()
            invariant
                cs == self@.claims,
                i <= self.claims@.len(),
                forall|k: int| 0 <= k < i ==> #[trigger] cs[k] != (claimer@, tribute_id),
            decreases self.claims@.len() - i,
        {
            if self.claims[i].tribute_id == tribute_id && self.claims[i].claimer == *claimer {
                assert(cs[i as int] == (claimer@, tribute_id));
                return true;
            }
            i = i + 1;
        }
        false
    }

    /// Pays `claimer` its share of tribute `tribute_id`: the tribute's amount
    /// times the claimer's vote power over the winning proposal's power,
    /// rounded down. Each account claims each tribute at most once.
    pub fn claim_tribute(
        &mut self,
        hub: &Governance,
        claimer: &String,
        round_id: u64,
        proposal_id: u64,
        tribute_id: u64,
    ) -> (r: Result<Coin, ContractError>)
        requires
            old(self).wf(),
            hub.wf(),
        ensures
            final(self).wf(),
            old(self)@.claim_outcome(hub@, claimer@, round_id, proposal_id, tribute_id, r, final(self)@),
            r is Err ==> final(self)@ == old(self)@,
    {
        let ghost t0 = self@;
        if round_id >= hub.current_round_id() {
            return Err(ContractError::RoundStillActive);
        }
        match hub.winner_of(round_id) {
            Some(w) => {
                if w != proposal_id {
                    proof {
                        if hub@.is_winner(round_id, proposal_id) {
                            lemma_winner_unique(hub@, round_id, w, proposal_id);
                        }
                    }
                    return Err(ContractError::ProposalDidNotWin);
                }
            },
            None => {
                proof {
                    if hub@.is_winner(round_id, proposal_id) {
                        assert(hub@.proposals[proposal_id as int].round_id == round_id);
                    }
                }
                return Err(ContractError::ProposalDidNotWin);
            },
        }
        let vote = match hub.vote_of(round_id, claimer) {
            Some(v) => v,
            None => {
                return Err(ContractError::NoVoteFound);
            },
        };
        if vote.prop_id != proposal_id {
            return Err(ContractError::VotedDifferentProposal);
        }
        if self.claimed(claimer, tribute_id) {
            return Err(ContractError::AlreadyClaimed);
        }
        if tribute_id >= self.tributes.len() as u64 {
            return Err(ContractError::TributeNotFound);
        }
        let t = tribute_id as usize;
        if self.tributes[t].round_id != round_id || self.tributes[t].prop_id != proposal_id {
            return Err(ContractError::TributeNotFound);
        }
        let total = hub.proposal_power(proposal_id);
        if total == 0 {
            return Err(ContractError::DivisionByZero);
        }
        proof {
            lemma_vote_within_proposal(hub@, round_id, claimer@);
            let a = self.tributes@[t as int].tribute.funds.amount as int;
            let n = vote.power as int;
            let d = total as int;
            assert(a * n <= a * d) by (nonlinear_arith)
                requires
                    0 <= a,
                    0 <= n <= d,
            ;
            assert((a * n) / d <= (a * d) / d) by (nonlinear_arith)
                requires
                    a * n <= a * d,
                    0 < d,
            ;
            assert((a * d) / d == a) by (nonlinear_arith)
                requires
                    0 < d,
            ;
        }
        let funds = &self.tributes[t].tribute.funds;
        let amount = multiply_ratio(funds.amount, vote.power, total);
        let payout = Coin { denom: funds.denom.clone(), amount };
        let rec = ClaimRecord { claimer: claimer.clone(), tribute_id };
        self.claims.push(rec);
        proof {
            let t1 = self@;
            assert(t1.claims =~= t0.claims.push((claimer@, tribute_id)));
            assert forall|i: int, j: int|
                0 <= i < j < t1.claims.len() implies #[trigger] t1.claims[i] != #[trigger] t1.claims[j] by {
                if j == t1.claims.len() - 1 {
                    assert(t0.claims.contains(t0.claims[i]));
                }
            }
        }
        Ok(payout)
    }

    /// Hands tribute `tribute_id` back to its depositor once its round has
    /// ended without its proposal winning. Each tribute is refunded at most
    /// once.
    pub fn refund_tribute(
        &mut self,
        hub: &Governance,
        claimer: &String,
        round_id: u64,
        proposal_id: u64,
        tribute_id: u64,
    ) -> (r: Result<Coin, ContractError>)
        requires
            old(self).wf(),
            hub.wf(),
        ensures
            final(self).wf(),
            old(self)@.refund_outcome(hub@, claimer@, round_id, proposal_id, tribute_id, r, final(self)@),
            r is Err ==> final(self)@ == old(self)@,
    {
        let ghost t0 = self@;
        if round_id >= hub.current_round_id() {
            return Err(ContractError::RoundStillActive);
        }
        match hub.winner_of(round_id) {
            Some(w) => {
                if w == proposal_id {
                    return Err(ContractError::ProposalWon);
                }
                proof {
                    if hub@.is_winner(round_id, proposal_id) {
                        lemma_winner_unique(hub@, round_id, w, proposal_id);
                    }
                }
            },
            None => {
                proof {
                    if hub@.is_winner(round_id, proposal_id) {
                        assert(hub@.proposals[proposal_id as int].round_id == round_id);
                    }
                }
            },
        }
        if tribute_id >= self.tributes.len() as u64 {
            return Err(ContractError::TributeNotFound);
        }
        let t = tribute_id as usize;
        if self.tributes[t].round_id != round_id || self.tributes[t].prop_id != proposal_id {
            return Err(ContractError::TributeNotFound);
        }
        if self.tributes[t].tribute.depositor != *claimer {
            return Err(ContractError::NotDepositor);
        }
        if self.tributes[t].tribute.refunded {
            return Err(ContractError::AlreadyRefunded);
        }
        let funds = self.tributes[t].tribute.funds.clone();
        self.tributes[t].tribute.refunded = true;
        proof {
            let t1 = self@;
            let rec = t0.tributes[t as int];
            assert(t1.tributes =~= t0.tributes.update(
                t as int,
                TributeRecord { tribute: Tribute { refunded: true, ..rec.tribute }, ..rec },
            ));
            assert(t1.claims == t0.claims);
        }
        Ok(funds)
    }
    /// Tribute `tribute_id`, if it exists.
    pub fn tribute(&self, tribute_id: u64) -> (r: Option<Tribute>)
        ensures
            tribute_id < self@.tributes.len() ==> r == Some(self@.tributes[tribute_id as int].tribute),
            tribute_id >= self@.tributes.len() ==> r is None,
    {
        if tribute_id < self.tributes.len() as u64 {
            Some(self.tributes[tribute_id as usize].tribute.clone())
        } else {
            None
        }
    }

    /// The ledger's records, for keeping them in storage; `from_parts` turns
    /// them back into the same ledger.
    pub fn into_parts(self) -> (p: TributeParts)
        ensures
            p.model() == self@,
    {
        TributeParts { tributes: self.tributes, claims: self.claims }
    }

    /// Rebuilds a ledger from stored records; `None` where the records break
    /// an invariant of the ledger.
    pub fn from_parts(p: TributeParts) -> (r: Option<TributeLedger>)
        ensures
            r is Some <==> p.model().wf(),
            r matches Some(t) ==> t.wf() && t@ == p.model(),
    {
        let ghost m = p.model();
        let n_tributes = p.tributes.len();
        assert(m.tributes.len() == n_tributes && n_tributes <= u64::MAX);
        let n = p.claims.len();
        let mut i: usize = 0;
        while i < n
            invariant
                m == p.model(),
                n == m.claims.len(),
                i <= n,
                forall|a: int, b: int|
                    0 <= a < b < i ==> #[trigger] m.claims[a] != #[trigger] m.claims[b],
            decreases n - i,
        {
            let mut j: usize = 0;
            while j < i
                invariant
                    m == p.model(),
                    n == m.claims.len(),
                    i < n,
                    j <= i,
                    forall|a: int| 0 <= a < j ==> #[trigger] m.claims[a] != m.claims[i as int],
                decreases i - j,
            {
                if p.claims[j].tribute_id == p.claims[i].tribute_id && p.claims[j].claimer == p.claims[i].claimer {
                    assert(m.claims[j as int] == m.claims[i as int]);
                    return None;
                }
                j = j + 1;
            }
            i = i + 1;
        }
        Some(TributeLedger { tributes: p.tributes, claims: p.claims })
    }

}

/// Claiming a tribute twice with the same arguments: once the first claim
/// has paid out, the second fails with `AlreadyClaimed`, pays nothing and
/// changes nothing.
pub proof fn lemma_claim_once(
    t0: TributeModel,
    hub: GovernanceModel,
    claimer: Seq<char>,
    round: u64,
    prop: u64,
    tid: u64,
    r1: Result<Coin, ContractError>,
    t1: TributeModel,
    r2: Result<Coin, ContractError>,
    t2: TributeModel,
)
    requires
        t0.claim_outcome(hub, claimer, round, prop, tid, r1, t1),
        r1 is Ok,
        t1.claim_outcome(hub, claimer, round, prop, tid, r2, t2),
    ensures
        r2 == Err::<Coin, ContractError>(ContractError::AlreadyClaimed),
        t2 == t1,
{
    assert(t1.claims[t1.claims.len() - 1] == (claimer, tid));
}

/// Refunding a tribute twice: once the first refund has paid out, the
/// second fails with `AlreadyRefunded` and changes nothing.
pub proof fn lemma_refund_once(
    t0: TributeModel,
    hub: GovernanceModel,
    claimer: Seq<char>,
    round: u64,
    prop: u64,
    tid: u64,
    r1: Result<Coin, ContractError>,
    t1: TributeModel,
    r2: Result<Coin, ContractError>,
    t2: TributeModel,
)
    requires
        t0.refund_outcome(hub, claimer, round, prop, tid, r1, t1),
        r1 is Ok,
        t1.refund_outcome(hub, claimer, round, prop, tid, r2, t2),
    ensures
        r2 == Err::<Coin, ContractError>(ContractError::AlreadyRefunded),
        t2 == t1,
{
}

} // verus!
