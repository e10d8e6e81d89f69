use atom_wars::contract::{
    execute, instantiate, query, query_count, Contract, Effect, ExecuteMsg, InstantiateMsg,
    MessageInfo, QueryMsg, QueryResponse,
};
use atom_wars::hub::Governance;
use atom_wars::power::{
    scale_lockup_power, ONE_MONTH_IN_NANOS, SIX_MONTHS_IN_NANOS, THREE_MONTHS_IN_NANOS,
    TWELVE_MONTHS_IN_NANOS,
};
use atom_wars::tribute::TributeLedger;
use atom_wars::types::{Coin, ContractError};

const DENOM: &str = "uatom";
const START: u64 = 1_700_000_000_000_000_000;
const WEEK: u64 = 604_800_000_000_000;

fn coin(amount: u128) -> Coin {
    Coin { denom: DENOM.to_string(), amount }
}

fn addr(s: &str) -> String {
    s.to_string()
}

fn contract() -> Contract {
    instantiate(InstantiateMsg { denom: DENOM.to_string(), round_length: WEEK }, START).unwrap()
}

fn hub() -> Governance {
    contract().hub
}

fn lock(g: &mut Governance, who: &str, amount: u128, duration: u64) -> u64 {
    g.lock_tokens(&addr(who), &vec![coin(amount)], duration, START).unwrap()
}

#[test]
fn lock_for_twelve_tiers_gives_four_times_the_power() {
    let mut g = hub();
    lock(&mut g, "alice", 1000, TWELVE_MONTHS_IN_NANOS);
    let p = g.create_proposal("pool".to_string()).unwrap();
    assert_eq!(g.vote(&addr("alice"), p), Ok(4000));
    assert_eq!(g.proposal(p).unwrap().power, 4000);
    assert_eq!(g.winner_of(0), Some(p));
}

#[test]
fn tribute_shares_follow_vote_power() {
    let mut g = hub();
    let mut t = TributeLedger::new();
    let win = g.create_proposal("win".to_string()).unwrap();
    let _other = g.create_proposal("other".to_string()).unwrap();
    lock(&mut g, "alice", 30, ONE_MONTH_IN_NANOS);
    lock(&mut g, "bob", 70, ONE_MONTH_IN_NANOS);
    assert_eq!(g.vote(&addr("alice"), win), Ok(30));
    assert_eq!(g.vote(&addr("bob"), win), Ok(70));
    assert_eq!(g.proposal(win).unwrap().power, 100);
    let t0 = t.add_tribute(&g, &addr("dan"), &vec![coin(100)], 0, win).unwrap();
    let t1 = t.add_tribute(&g, &addr("dan"), &vec![coin(50)], 0, win).unwrap();
    assert_eq!(g.end_round(START + WEEK), Ok(1));
    assert_eq!(t.claim_tribute(&g, &addr("alice"), 0, win, t0), Ok(coin(30)));
    assert_eq!(t.claim_tribute(&g, &addr("alice"), 0, win, t1), Ok(coin(15)));
    assert_eq!(t.claim_tribute(&g, &addr("bob"), 0, win, t0), Ok(coin(70)));
    assert_eq!(t.claim_tribute(&g, &addr("bob"), 0, win, t1), Ok(coin(35)));
}

#[test]
fn losing_tribute_is_refunded_once() {
    let mut g = hub();
    let mut t = TributeLedger::new();
    let win = g.create_proposal("win".to_string()).unwrap();
    let lose = g.create_proposal("lose".to_string()).unwrap();
    lock(&mut g, "alice", 10, ONE_MONTH_IN_NANOS);
    g.vote(&addr("alice"), win).unwrap();
    let tid = t.add_tribute(&g, &addr("dan"), &vec![coin(50)], 0, lose).unwrap();
    g.end_round(START + WEEK).unwrap();
    assert_eq!(t.refund_tribute(&g, &addr("dan"), 0, lose, tid), Ok(coin(50)));
    assert!(t.tribute(tid).unwrap().refunded);
    assert_eq!(
        t.refund_tribute(&g, &addr("dan"), 0, lose, tid),
        Err(ContractError::AlreadyRefunded)
    );
}

#[test]
fn second_claim_fails_already_claimed() {
    let mut g = hub();
    let mut t = TributeLedger::new();
    let p = g.create_proposal("p".to_string()).unwrap();
    lock(&mut g, "alice", 10, ONE_MONTH_IN_NANOS);
    g.vote(&addr("alice"), p).unwrap();
    let tid = t.add_tribute(&g, &addr("dan"), &vec![coin(7)], 0, p).unwrap();
    g.end_round(START + WEEK).unwrap();
    assert_eq!(t.claim_tribute(&g, &addr("alice"), 0, p, tid), Ok(coin(7)));
    assert_eq!(
        t.claim_tribute(&g, &addr("alice"), 0, p, tid),
        Err(ContractError::AlreadyClaimed)
    );
}

#[test]
fn end_round_advances_id_and_end_time() {
    let mut g = hub();
    assert_eq!(g.current_round_id(), 0);
    assert_eq!(g.current_round_end(), START + WEEK);
    assert_eq!(g.end_round(START + WEEK - 1), Err(ContractError::RoundNotEnded));
    assert_eq!(g.current_round_id(), 0);
    assert_eq!(g.end_round(START + WEEK + 5), Ok(1));
    assert_eq!(g.current_round_id(), 1);
    assert_eq!(g.current_round_end(), START + 2 * WEEK + 5);
    assert_eq!(g.round_end(0), Some(START + WEEK));
    assert_eq!(g.round_end(1), Some(START + 2 * WEEK + 5));
    assert_eq!(g.round_end(2), None);
}

#[test]
fn switching_vote_moves_all_power() {
    let mut g = hub();
    let a = g.create_proposal("a".to_string()).unwrap();
    let b = g.create_proposal("b".to_string()).unwrap();
    lock(&mut g, "bob", 5, ONE_MONTH_IN_NANOS);
    g.vote(&addr("bob"), a).unwrap();
    lock(&mut g, "alice", 100, THREE_MONTHS_IN_NANOS);
    assert_eq!(g.vote(&addr("alice"), a), Ok(150));
    assert_eq!(g.proposal(a).unwrap().power, 155);
    assert_eq!(g.vote(&addr("alice"), b), Ok(150));
    assert_eq!(g.proposal(a).unwrap().power, 5);
    assert_eq!(g.proposal(b).unwrap().power, 150);
    let v = g.vote_of(0, &addr("alice")).unwrap();
    assert_eq!(v.prop_id, b);
    assert_eq!(v.power, 150);
    assert_eq!(g.winner_of(0), Some(b));
}

#[test]
fn revote_after_locking_more_counts_new_power() {
    let mut g = hub();
    let a = g.create_proposal("a".to_string()).unwrap();
    lock(&mut g, "alice", 10, ONE_MONTH_IN_NANOS);
    assert_eq!(g.vote(&addr("alice"), a), Ok(10));
    lock(&mut g, "alice", 10, SIX_MONTHS_IN_NANOS);
    assert_eq!(g.vote(&addr("alice"), a), Ok(30));
    assert_eq!(g.proposal(a).unwrap().power, 30);
}

#[test]
fn proposal_power_is_sum_of_votes() {
    let mut g = hub();
    let a = g.create_proposal("a".to_string()).unwrap();
    let b = g.create_proposal("b".to_string()).unwrap();
    lock(&mut g, "u1", 1, ONE_MONTH_IN_NANOS);
    lock(&mut g, "u2", 2, ONE_MONTH_IN_NANOS);
    lock(&mut g, "u3", 4, ONE_MONTH_IN_NANOS);
    g.vote(&addr("u1"), a).unwrap();
    g.vote(&addr("u2"), b).unwrap();
    g.vote(&addr("u3"), a).unwrap();
    g.vote(&addr("u1"), b).unwrap();
    assert_eq!(g.proposal(a).unwrap().power, 4);
    assert_eq!(g.proposal(b).unwrap().power, 3);
    assert_eq!(g.winner_of(0), Some(a));
}

#[test]
fn equal_power_tie_goes_to_larger_id() {
    let mut g = hub();
    let a = g.create_proposal("a".to_string()).unwrap();
    let b = g.create_proposal("b".to_string()).unwrap();
    assert_eq!(g.winner_of(0), Some(b));
    lock(&mut g, "u1", 3, ONE_MONTH_IN_NANOS);
    lock(&mut g, "u2", 3, ONE_MONTH_IN_NANOS);
    g.vote(&addr("u1"), a).unwrap();
    assert_eq!(g.winner_of(0), Some(a));
    g.vote(&addr("u2"), b).unwrap();
    assert_eq!(g.winner_of(0), Some(b));
}

#[test]
fn winner_is_scoped_to_round() {
    let mut g = hub();
    assert_eq!(g.winner_of(0), None);
    let a = g.create_proposal("a".to_string()).unwrap();
    g.end_round(START + WEEK).unwrap();
    assert_eq!(g.winner_of(1), None);
    let b = g.create_proposal("b".to_string()).unwrap();
    assert_eq!(g.winner_of(0), Some(a));
    assert_eq!(g.winner_of(1), Some(b));
    assert_eq!(g.proposal(b).unwrap().round_id, 1);
}

#[test]
fn power_tiers() {
    assert_eq!(scale_lockup_power(1, 10), Some(10));
    assert_eq!(scale_lockup_power(ONE_MONTH_IN_NANOS, 10), Some(10));
    assert_eq!(scale_lockup_power(ONE_MONTH_IN_NANOS + 1, 10), Some(15));
    assert_eq!(scale_lockup_power(ONE_MONTH_IN_NANOS + 1, 3), Some(4));
    assert_eq!(scale_lockup_power(THREE_MONTHS_IN_NANOS, 10), Some(15));
    assert_eq!(scale_lockup_power(THREE_MONTHS_IN_NANOS + 1, 10), Some(20));
    assert_eq!(scale_lockup_power(SIX_MONTHS_IN_NANOS, 10), Some(20));
    assert_eq!(scale_lockup_power(SIX_MONTHS_IN_NANOS + 1, 10), Some(40));
    assert_eq!(scale_lockup_power(TWELVE_MONTHS_IN_NANOS * 2, 10), Some(40));
    assert_eq!(scale_lockup_power(SIX_MONTHS_IN_NANOS + 1, u128::MAX / 2), None);
}

#[test]
fn lock_expired_at_round_end_gives_no_power() {
    let mut g = hub();
    let a = g.create_proposal("a".to_string()).unwrap();
    g.end_round(START + WEEK).unwrap();
    g.end_round(START + ONE_MONTH_IN_NANOS).unwrap();
    lock(&mut g, "alice", 10, ONE_MONTH_IN_NANOS);
    let b = g.create_proposal("b".to_string()).unwrap();
    assert_eq!(g.vote(&addr("alice"), b), Ok(0));
    assert_eq!(g.vote(&addr("alice"), a), Err(ContractError::ProposalNotFound));
}

#[test]
fn lock_rejects_bad_input() {
    let mut g = hub();
    assert_eq!(
        g.lock_tokens(&addr("a"), &vec![coin(5)], ONE_MONTH_IN_NANOS * 2, START),
        Err(ContractError::InvalidLockDuration)
    );
    assert_eq!(
        g.lock_tokens(&addr("a"), &vec![], ONE_MONTH_IN_NANOS, START),
        Err(ContractError::InvalidDeposit)
    );
    assert_eq!(
        g.lock_tokens(&addr("a"), &vec![coin(5), coin(6)], ONE_MONTH_IN_NANOS, START),
        Err(ContractError::InvalidDeposit)
    );
    let other = Coin { denom: "uosmo".to_string(), amount: 5 };
    assert_eq!(
        g.lock_tokens(&addr("a"), &vec![other], ONE_MONTH_IN_NANOS, START),
        Err(ContractError::InvalidDeposit)
    );
    assert_eq!(
        g.lock_tokens(&addr("a"), &vec![coin(0)], ONE_MONTH_IN_NANOS, START),
        Err(ContractError::InvalidDeposit)
    );
    assert_eq!(
        g.lock_tokens(&addr("a"), &vec![coin(5)], ONE_MONTH_IN_NANOS, u64::MAX - 1),
        Err(ContractError::Overflow)
    );
    assert_eq!(lock(&mut g, "a", 5, ONE_MONTH_IN_NANOS), 0);
    assert_eq!(lock(&mut g, "b", 5, ONE_MONTH_IN_NANOS), 1);
}

#[test]
fn unlock_releases_only_matured_locks() {
    let mut g = hub();
    let first = lock(&mut g, "alice", 5, ONE_MONTH_IN_NANOS);
    let second = lock(&mut g, "alice", 7, THREE_MONTHS_IN_NANOS);
    let theirs = lock(&mut g, "bob", 9, ONE_MONTH_IN_NANOS);
    assert_eq!(g.unlock_tokens(&addr("alice"), START + ONE_MONTH_IN_NANOS), vec![]);
    assert_eq!(g.unlock_tokens(&addr("alice"), START + ONE_MONTH_IN_NANOS + 1), vec![coin(5)]);
    assert_eq!(g.lock(&addr("alice"), first), None);
    let kept = g.lock(&addr("alice"), second).unwrap();
    assert_eq!(kept.funds, coin(7));
    assert_eq!(kept.lock_start, START);
    assert_eq!(kept.lock_end, START + THREE_MONTHS_IN_NANOS);
    assert!(g.lock(&addr("bob"), theirs).is_some());
    assert_eq!(g.unlock_tokens(&addr("alice"), START + ONE_MONTH_IN_NANOS + 1), vec![]);
}

#[test]
fn instantiate_rejects_bad_settings() {
    assert!(matches!(
        instantiate(InstantiateMsg { denom: DENOM.to_string(), round_length: 0 }, START),
        Err(ContractError::InvalidRoundLength)
    ));
    assert!(matches!(
        instantiate(InstantiateMsg { denom: DENOM.to_string(), round_length: WEEK }, u64::MAX),
        Err(ContractError::Overflow)
    ));
    let g = hub();
    assert_eq!(g.denom(), DENOM);
    assert_eq!(g.round_length(), WEEK);
}

#[test]
fn execute_proposal_runs_winner_once() {
    let mut g = hub();
    assert_eq!(g.execute_proposal(0), Err(ContractError::RoundNotFound));
    let a = g.create_proposal("covenant-a".to_string()).unwrap();
    let b = g.create_proposal("covenant-b".to_string()).unwrap();
    lock(&mut g, "alice", 10, ONE_MONTH_IN_NANOS);
    g.vote(&addr("alice"), a).unwrap();
    g.end_round(START + WEEK).unwrap();
    assert_eq!(g.execute_proposal(b), Err(ContractError::ProposalDidNotWin));
    assert_eq!(g.execute_proposal(a), Ok("covenant-a".to_string()));
    assert!(g.proposal(a).unwrap().executed);
    assert_eq!(g.execute_proposal(a), Err(ContractError::AlreadyExecuted));
}

#[test]
fn tribute_errors() {
    let mut g = hub();
    let mut t = TributeLedger::new();
    let win = g.create_proposal("win".to_string()).unwrap();
    let lose = g.create_proposal("lose".to_string()).unwrap();
    lock(&mut g, "alice", 10, ONE_MONTH_IN_NANOS);
    lock(&mut g, "bob", 1, ONE_MONTH_IN_NANOS);
    g.vote(&addr("alice"), win).unwrap();
    g.vote(&addr("bob"), lose).unwrap();
    assert_eq!(t.add_tribute(&g, &addr("dan"), &vec![coin(9)], 1, win), Err(ContractError::RoundNotCurrent));
    assert_eq!(t.add_tribute(&g, &addr("dan"), &vec![], 0, win), Err(ContractError::InvalidDeposit));
    assert_eq!(
        t.add_tribute(&g, &addr("dan"), &vec![coin(1), coin(2)], 0, win),
        Err(ContractError::InvalidDeposit)
    );
    let tw = t.add_tribute(&g, &addr("dan"), &vec![coin(9)], 0, win).unwrap();
    let tl = t.add_tribute(&g, &addr("dan"), &vec![coin(4)], 0, lose).unwrap();
    assert_eq!(t.claim_tribute(&g, &addr("alice"), 0, win, tw), Err(ContractError::RoundStillActive));
    assert_eq!(t.refund_tribute(&g, &addr("dan"), 0, lose, tl), Err(ContractError::RoundStillActive));
    g.end_round(START + WEEK).unwrap();
    assert_eq!(t.claim_tribute(&g, &addr("alice"), 0, win, 7), Err(ContractError::TributeNotFound));
    assert_eq!(t.claim_tribute(&g, &addr("alice"), 0, lose, tw), Err(ContractError::ProposalDidNotWin));
    assert_eq!(t.claim_tribute(&g, &addr("carol"), 0, win, tl), Err(ContractError::NoVoteFound));
    assert_eq!(t.claim_tribute(&g, &addr("bob"), 0, win, tl), Err(ContractError::VotedDifferentProposal));
    assert_eq!(t.claim_tribute(&g, &addr("alice"), 0, win, tl), Err(ContractError::TributeNotFound));
    assert_eq!(t.claim_tribute(&g, &addr("bob"), 0, lose, tl), Err(ContractError::ProposalDidNotWin));
    assert_eq!(t.claim_tribute(&g, &addr("carol"), 0, win, tw), Err(ContractError::NoVoteFound));
    assert_eq!(t.claim_tribute(&g, &addr("bob"), 0, win, tw), Err(ContractError::VotedDifferentProposal));
    assert_eq!(t.refund_tribute(&g, &addr("dan"), 0, win, tw), Err(ContractError::ProposalWon));
    assert_eq!(t.refund_tribute(&g, &addr("eve"), 0, lose, tl), Err(ContractError::NotDepositor));
    assert_eq!(t.refund_tribute(&g, &addr("dan"), 0, lose, 9), Err(ContractError::TributeNotFound));
    assert_eq!(t.claim_tribute(&g, &addr("alice"), 0, win, tw), Ok(coin(9)));
}

#[test]
fn claim_on_winner_without_power_is_rejected() {
    let mut g = hub();
    let mut t = TributeLedger::new();
    let p = g.create_proposal("p".to_string()).unwrap();
    assert_eq!(g.vote(&addr("alice"), p), Ok(0));
    let tid = t.add_tribute(&g, &addr("dan"), &vec![coin(10)], 0, p).unwrap();
    g.end_round(START + WEEK).unwrap();
    assert_eq!(t.claim_tribute(&g, &addr("alice"), 0, p, tid), Err(ContractError::DivisionByZero));
}

#[test]
fn claim_share_rounds_down() {
    let mut g = hub();
    let mut t = TributeLedger::new();
    let p = g.create_proposal("p".to_string()).unwrap();
    lock(&mut g, "a", 1, ONE_MONTH_IN_NANOS);
    lock(&mut g, "b", 2, ONE_MONTH_IN_NANOS);
    g.vote(&addr("a"), p).unwrap();
    g.vote(&addr("b"), p).unwrap();
    let tid = t.add_tribute(&g, &addr("dan"), &vec![coin(10)], 0, p).unwrap();
    let big = t.add_tribute(&g, &addr("dan"), &vec![coin(u128::MAX)], 0, p).unwrap();
    g.end_round(START + WEEK).unwrap();
    assert_eq!(t.claim_tribute(&g, &addr("a"), 0, p, tid), Ok(coin(3)));
    assert_eq!(t.claim_tribute(&g, &addr("b"), 0, p, tid), Ok(coin(6)));
    assert_eq!(t.claim_tribute(&g, &addr("b"), 0, p, big), Ok(coin(u128::MAX / 3 * 2)));
}

#[test]
fn execute_dispatches_messages() {
    let mut c = contract();
    let alice = MessageInfo { sender: addr("alice"), funds: vec![coin(20)] };
    let none = MessageInfo { sender: addr("alice"), funds: vec![] };
    let dan = MessageInfo { sender: addr("dan"), funds: vec![coin(40)] };
    assert!(matches!(
        execute(&mut c, START, &alice, ExecuteMsg::LockTokens { lock_duration: ONE_MONTH_IN_NANOS }),
        Ok(Effect::Locked { lock_id: 0 })
    ));
    assert!(matches!(
        execute(&mut c, START, &none, ExecuteMsg::CreateProposal { covenant_params: "c".to_string() }),
        Ok(Effect::ProposalCreated { proposal_id: 0 })
    ));
    assert!(matches!(
        execute(&mut c, START, &none, ExecuteMsg::CreateProposal { covenant_params: "d".to_string() }),
        Ok(Effect::ProposalCreated { proposal_id: 1 })
    ));
    assert!(matches!(
        execute(&mut c, START, &none, ExecuteMsg::Vote { proposal_id: 0 }),
        Ok(Effect::Voted { power: 20 })
    ));
    assert!(matches!(
        execute(&mut c, START, &none, ExecuteMsg::Vote { proposal_id: 3 }),
        Err(ContractError::ProposalNotFound)
    ));
    assert!(matches!(
        execute(&mut c, START, &dan, ExecuteMsg::AddTribute { round_id: 0, proposal_id: 0 }),
        Ok(Effect::TributeAdded { tribute_id: 0 })
    ));
    assert!(matches!(
        execute(&mut c, START, &dan, ExecuteMsg::AddTribute { round_id: 0, proposal_id: 1 }),
        Ok(Effect::TributeAdded { tribute_id: 1 })
    ));
    assert!(matches!(
        execute(&mut c, START, &none, ExecuteMsg::EndRound),
        Err(ContractError::RoundNotEnded)
    ));
    assert!(matches!(
        execute(&mut c, START + WEEK, &none, ExecuteMsg::EndRound),
        Ok(Effect::RoundEnded { round_id: 1 })
    ));
    match execute(&mut c, START + WEEK, &none, ExecuteMsg::ExecuteProposal { proposal_id: 0 }) {
        Ok(Effect::ProposalExecuted { covenant_params }) => assert_eq!(covenant_params, "c"),
        _ => panic!("expected the winner to be executed"),
    }
    let claim = ExecuteMsg::ClaimTribute { round_id: 0, proposal_id: 0, tribute_id: 0 };
    match execute(&mut c, START + WEEK, &none, claim) {
        Ok(Effect::TributeClaimed { funds }) => assert_eq!(funds, coin(40)),
        _ => panic!("expected a claim"),
    }
    let again = ExecuteMsg::ClaimTribute { round_id: 0, proposal_id: 0, tribute_id: 0 };
    assert!(matches!(
        execute(&mut c, START + WEEK, &none, again),
        Err(ContractError::AlreadyClaimed)
    ));
    let refund = ExecuteMsg::RefundTribute { round_id: 0, proposal_id: 1, tribute_id: 1 };
    match execute(&mut c, START + WEEK, &dan, refund) {
        Ok(Effect::TributeRefunded { funds }) => assert_eq!(funds, coin(40)),
        _ => panic!("expected a refund"),
    }
    match execute(&mut c, START + 2 * ONE_MONTH_IN_NANOS, &none, ExecuteMsg::UnlockTokens) {
        Ok(Effect::Unlocked { released }) => assert_eq!(released, vec![coin(20)]),
        _ => panic!("expected an unlock"),
    }
}

#[test]
fn queries_answer_from_state() {
    let mut c = contract();
    assert_eq!(query_count(&c).count, 0);
    assert!(matches!(query(&c, QueryMsg::GetCount), QueryResponse::Count(r) if r.count == 0));
    match query(&c, QueryMsg::CurrentRound) {
        QueryResponse::CurrentRound(r) => {
            assert_eq!(r.round_id, 0);
            assert_eq!(r.round_end, START + WEEK);
        }
        _ => panic!("expected the current round"),
    }
    assert!(matches!(
        query(&c, QueryMsg::WinningProposal { round_id: 0 }),
        QueryResponse::WinningProposal(None)
    ));
    c.hub.create_proposal("x".to_string()).unwrap();
    assert!(matches!(
        query(&c, QueryMsg::WinningProposal { round_id: 0 }),
        QueryResponse::WinningProposal(Some(0))
    ));
}
