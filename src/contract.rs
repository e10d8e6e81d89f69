//! The contract's operation surface: messages in, effects out. Each
//! operation either commits its whole effect or reports an error and leaves
//! the state as it was.
use vstd::prelude::*;

use crate::hub::Governance;
use crate::tribute::TributeLedger;
use crate::types::{Coin, Constants, ContractError, Round};

verus! {

/// Settings of a new hub.
pub struct InstantiateMsg {
    pub denom: String,
    pub round_length: u64,
}

/// The sender of a message and the funds sent along with it.
pub struct MessageInfo {
    pub sender: String,
    pub funds: Vec<Coin>,
}

pub enum ExecuteMsg {
    LockTokens { lock_duration: u64 },
    UnlockTokens,
    CreateProposal { covenant_params: String },
    Vote { proposal_id: u64 },
    EndRound,
    ExecuteProposal { proposal_id: u64 },
    AddTribute { round_id: u64, proposal_id: u64 },
    ClaimTribute { round_id: u64, proposal_id: u64, tribute_id: u64 },
    RefundTribute { round_id: u64, proposal_id: u64, tribute_id: u64 },
}

/// What a committed operation asks its caller to carry out or report.
pub enum Effect {
    Locked { lock_id: u64 },
    /// Send these funds back to the sender, in one transfer.
    Unlocked { released: Vec<Coin> },
    ProposalCreated { proposal_id: u64 },
    Voted { power: u128 },
    RoundEnded { round_id: u64 },
    /// Run the covenant with these parameters, within the same operation.
    ProposalExecuted { covenant_params: String },
    TributeAdded { tribute_id: u64 },
    /// Send this share of a tribute to the sender.
    TributeClaimed { funds: Coin },
    /// Send this tribute back to the sender, its depositor.
    TributeRefunded { funds: Coin },
}

/// The whole contract state: the governance hub and the tribute ledger.
pub struct Contract {
    pub hub: Governance,
    pub tributes: TributeLedger,
}

impl Contract {
    pub open spec fn wf(&self) -> bool {
        self.hub.wf() && self.tributes.wf()
    }
}

pub enum QueryMsg {
    GetCount,
    CurrentRound,
    WinningProposal { round_id: u64 },
}

pub struct CountResponse {
    pub count: i32,
}

pub enum QueryResponse {
    Count(CountResponse),
    CurrentRound(Round),
    WinningProposal(Option<u64>),
}

/// Creates the contract: round 0 starts at `now`, and no tribute is held.
pub fn instantiate(msg: InstantiateMsg, now: u64) -> (r: Result<Contract, ContractError>)
    ensures
        msg.round_length == 0 ==> r == Err::<Contract, ContractError>(ContractError::InvalidRoundLength),
        msg.round_length > 0 && now + msg.round_length > u64::MAX ==> r == Err::<
            Contract,
            ContractError,
        >(ContractError::Overflow),
        msg.round_length > 0 && now + msg.round_length <= u64::MAX ==> r is Ok,
        r matches Ok(c) ==> {
            let g = c.hub;
            &&& c.wf()
            &&& c.tributes@.tributes.len() == 0
            &&& c.tributes@.claims.len() == 0
            &&& g@.denom == msg.denom@
            &&& g@.round_length == msg.round_length
            &&& g@.rounds == seq![Round { round_id: 0, round_end: (now + msg.round_length) as u64 }]
            &&& g@.proposals.len() == 0
            &&& g@.votes.len() == 0
            &&& g@.locks.len() == 0
        },
{
    match Governance::new(Constants { denom: msg.denom, round_length: msg.round_length }, now) {
        Ok(hub) => Ok(Contract { hub, tributes: TributeLedger::new() }),
        Err(e) => Err(e),
    }
}

/// Runs one operation for `info.sender` at time `now`.
pub fn execute(c: &mut Contract, now: u64, info: &MessageInfo, msg: ExecuteMsg) -> (r: Result<
    Effect,
    ContractError,
>)
    requires
        old(c).wf(),
    ensures
        final(c).wf(),
        r is Err ==> final(c).hub@ == old(c).hub@ && final(c).tributes@ == old(c).tributes@,
        !(msg is AddTribute || msg is ClaimTribute || msg is RefundTribute) ==> final(c).tributes@
            == old(c).tributes@,
        (msg is AddTribute || msg is ClaimTribute || msg is RefundTribute) ==> final(c).hub@
            == old(c).hub@,
        msg matches ExecuteMsg::LockTokens { lock_duration } ==> (exists|v: Result<u64, ContractError>|
                {
                    &&& old(c).hub@.lock_outcome(info.sender, info.funds@, lock_duration, now, v, final(c).hub@)
                    &&& v is Err ==> r == Err::<Effect, ContractError>(v->Err_0)
                    &&& v is Ok ==> (r matches Ok(Effect::Locked { lock_id }) && lock_id == v->Ok_0)
                }),
        msg matches ExecuteMsg::UnlockTokens ==> (r matches Ok(Effect::Unlocked { released })
            && old(c).hub@.unlock_outcome(info.sender@, now, released@, final(c).hub@)),
        msg matches ExecuteMsg::CreateProposal { covenant_params } ==> (exists|
            v: Result<u64, ContractError>,
        |
            {
                &&& old(c).hub@.create_outcome(covenant_params, v, final(c).hub@)
                &&& v is Err ==> r == Err::<Effect, ContractError>(v->Err_0)
                &&& v is Ok ==> (r matches Ok(Effect::ProposalCreated { proposal_id })
                    && proposal_id == v->Ok_0)
            }),
        msg matches ExecuteMsg::Vote { proposal_id } ==> (exists|v: Result<u128, ContractError>|
                {
                    &&& old(c).hub@.vote_outcome(info.sender@, proposal_id, v, final(c).hub@)
                    &&& v is Err ==> r == Err::<Effect, ContractError>(v->Err_0)
                    &&& v is Ok ==> (r matches Ok(Effect::Voted { power }) && power == v->Ok_0)
                }),
        msg matches ExecuteMsg::EndRound ==> (exists|v: Result<u64, ContractError>|
                {
                    &&& old(c).hub@.end_round_outcome(now, v, final(c).hub@)
                    &&& v is Err ==> r == Err::<Effect, ContractError>(v->Err_0)
                    &&& v is Ok ==> (r matches Ok(Effect::RoundEnded { round_id }) && round_id
                        == v->Ok_0)
                }),
        msg matches ExecuteMsg::ExecuteProposal { proposal_id } ==> (exists|
            v: Result<String, ContractError>,
        |
            {
                &&& old(c).hub@.execute_outcome(proposal_id, v, final(c).hub@)
                &&& v is Err ==> r == Err::<Effect, ContractError>(v->Err_0)
                &&& v is Ok ==> (r matches Ok(Effect::ProposalExecuted { covenant_params })
                    && covenant_params == v->Ok_0)
            }),
        msg matches ExecuteMsg::AddTribute { round_id, proposal_id } ==> (exists|
            v: Result<u64, ContractError>,
        |
            {
                &&& old(c).tributes@.add_outcome(
                    old(c).hub@,
                    info.sender,
                    info.funds@,
                    round_id,
                    proposal_id,
                    v,
                    final(c).tributes@,
                )
                &&& v is Err ==> r == Err::<Effect, ContractError>(v->Err_0)
                &&& v is Ok ==> (r matches Ok(Effect::TributeAdded { tribute_id }) && tribute_id
                    == v->Ok_0)
            }),
        msg matches ExecuteMsg::ClaimTribute { round_id, proposal_id, tribute_id } ==> (exists|
                v: Result<Coin, ContractError>,
            |
                {
                    &&& old(c).tributes@.claim_outcome(
                        old(c).hub@,
                        info.sender@,
                        round_id,
                        proposal_id,
                        tribute_id,
                        v,
                        final(c).tributes@,
                    )
                    &&& v is Err ==> r == Err::<Effect, ContractError>(v->Err_0)
                    &&& v is Ok ==> (r matches Ok(Effect::TributeClaimed { funds }) && funds
                        == v->Ok_0)
                }),
        msg matches ExecuteMsg::RefundTribute { round_id, proposal_id, tribute_id } ==> (exists|
                v: Result<Coin, ContractError>,
            |
                {
                    &&& old(c).tributes@.refund_outcome(
                        old(c).hub@,
                        info.sender@,
                        round_id,
                        proposal_id,
                        tribute_id,
                        v,
                        final(c).tributes@,
                    )
                    &&& v is Err ==> r == Err::<Effect, ContractError>(v->Err_0)
                    &&& v is Ok ==> (r matches Ok(Effect::TributeRefunded { funds }) && funds
                        == v->Ok_0)
                }),
{
    let ghost m0 = c.hub@;
    let ghost t0 = c.tributes@;
    match msg {
        ExecuteMsg::LockTokens { lock_duration } => {
            let v = c.hub.lock_tokens(&info.sender, &info.funds, lock_duration, now);
            let r = match v {
                Ok(lock_id) => Ok(Effect::Locked { lock_id }),
                Err(e) => Err(e),
            };
            assert(m0.lock_outcome(info.sender, info.funds@, lock_duration, now, v, c.hub@));
            r
        },
        ExecuteMsg::UnlockTokens => {
            let released = c.hub.unlock_tokens(&info.sender, now);
            Ok(Effect::Unlocked { released })
        },
        ExecuteMsg::CreateProposal { covenant_params } => {
            let ghost params = covenant_params;
            let v = c.hub.create_proposal(covenant_params);
            let r = match v {
                Ok(proposal_id) => Ok(Effect::ProposalCreated { proposal_id }),
                Err(e) => Err(e),
            };
            assert(m0.create_outcome(params, v, c.hub@));
            r
        },
        ExecuteMsg::Vote { proposal_id } => {
            let v = c.hub.vote(&info.sender, proposal_id);
            let r = match v {
                Ok(power) => Ok(Effect::Voted { power }),
                Err(e) => Err(e),
            };
            assert(m0.vote_outcome(info.sender@, proposal_id, v, c.hub@));
            r
        },
        ExecuteMsg::EndRound => {
            let v = c.hub.end_round(now);
            let r = match v {
                Ok(round_id) => Ok(Effect::RoundEnded { round_id }),
                Err(e) => Err(e),
            };
            assert(m0.end_round_outcome(now, v, c.hub@));
            r
        },
        ExecuteMsg::ExecuteProposal { proposal_id } => {
            let v = c.hub.execute_proposal(proposal_id);
            let ghost vv = v;
            let r = match v {
                Ok(covenant_params) => Ok(Effect::ProposalExecuted { covenant_params }),
                Err(e) => Err(e),
            };
            assert(m0.execute_outcome(proposal_id, vv, c.hub@));
            r
        },
        ExecuteMsg::AddTribute { round_id, proposal_id } => {
            let v = c.tributes.add_tribute(&c.hub, &info.sender, &info.funds, round_id, proposal_id);
            let r = match v {
                Ok(tribute_id) => Ok(Effect::TributeAdded { tribute_id }),
                Err(e) => Err(e),
            };
            assert(t0.add_outcome(m0, info.sender, info.funds@, round_id, proposal_id, v, c.tributes@));
            r
        },
        ExecuteMsg::ClaimTribute { round_id, proposal_id, tribute_id } => {
            let v = c.tributes.claim_tribute(&c.hub, &info.sender, round_id, proposal_id, tribute_id);
            let r = match v {
                Ok(funds) => Ok(Effect::TributeClaimed { funds }),
                Err(e) => Err(e),
            };
            assert(t0.claim_outcome(m0, info.sender@, round_id, proposal_id, tribute_id, v, c.tributes@));
            r
        },
        ExecuteMsg::RefundTribute { round_id, proposal_id, tribute_id } => {
            let v = c.tributes.refund_tribute(&c.hub, &info.sender, round_id, proposal_id, tribute_id);
            let r = match v {
                Ok(funds) => Ok(Effect::TributeRefunded { funds }),
                Err(e) => Err(e),
            };
            assert(t0.refund_outcome(m0, info.sender@, round_id, proposal_id, tribute_id, v, c.tributes@));
            r
        },
    }
}

/// A liveness probe: its count is always zero.
pub fn query_count(c: &Contract) -> (r: CountResponse)
    ensures
        r.count == 0,
{
    CountResponse { count: 0 }
}

/// Answers a read-only question about the hub.
pub fn query(c: &Contract, msg: QueryMsg) -> (r: QueryResponse)
    requires
        c.wf(),
    ensures
        msg is GetCount ==> (r matches QueryResponse::Count(c) && c.count == 0),
        msg is CurrentRound ==> r == QueryResponse::CurrentRound(c.hub@.rounds.last()),
        msg matches QueryMsg::WinningProposal { round_id } ==> (r matches QueryResponse::WinningProposal(w)
            && (w is None <==> !c.hub@.round_has_proposals(round_id)) && (w matches Some(p)
            ==> c.hub@.is_winner(round_id, p))),
{
    match msg {
        QueryMsg::GetCount => QueryResponse::Count(query_count(c)),
        QueryMsg::CurrentRound => QueryResponse::CurrentRound(
            Round { round_id: c.hub.current_round_id(), round_end: c.hub.current_round_end() },
        ),
        QueryMsg::WinningProposal { round_id } => QueryResponse::WinningProposal(c.hub.winner_of(round_id)),
    }
}

} // verus!
