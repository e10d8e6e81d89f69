use atom_wars::contract::{instantiate, Contract, InstantiateMsg};
use atom_wars::hub::Governance;
use atom_wars::model::VoteRecord;
use atom_wars::power::ONE_MONTH_IN_NANOS;
use atom_wars::tribute::{ClaimRecord, TributeLedger};
use atom_wars::types::{Coin, ContractError, Vote};

const START: u64 = 1_000_000_000_000_000_000;
const WEEK: u64 = 604_800_000_000_000;

fn coin(amount: u128) -> Coin {
    Coin { denom: "uatom".to_string(), amount }
}

fn busy_contract() -> Contract {
    let mut c =
        instantiate(InstantiateMsg { denom: "uatom".to_string(), round_length: WEEK }, START).unwrap();
    let a = c.hub.create_proposal("a".to_string()).unwrap();
    let b = c.hub.create_proposal("b".to_string()).unwrap();
    c.hub.lock_tokens(&"u1".to_string(), &vec![coin(4)], ONE_MONTH_IN_NANOS, START).unwrap();
    c.hub.lock_tokens(&"u2".to_string(), &vec![coin(6)], ONE_MONTH_IN_NANOS, START).unwrap();
    c.hub.vote(&"u1".to_string(), a).unwrap();
    c.hub.vote(&"u2".to_string(), b).unwrap();
    c.tributes.add_tribute(&c.hub, &"dan".to_string(), &vec![coin(10)], 0, b).unwrap();
    c.hub.end_round(START + WEEK).unwrap();
    c.tributes.claim_tribute(&c.hub, &"u2".to_string(), 0, b, 0).unwrap();
    c
}

#[test]
fn parts_round_trip_keeps_the_state() {
    let c = busy_contract();
    let hub = Governance::from_parts(c.hub.into_parts()).unwrap();
    let mut tributes = TributeLedger::from_parts(c.tributes.into_parts()).unwrap();
    assert_eq!(hub.current_round_id(), 1);
    assert_eq!(hub.winner_of(0), Some(1));
    assert_eq!(hub.proposal(0).unwrap().power, 4);
    assert_eq!(hub.vote_of(0, &"u2".to_string()), Some(Vote { prop_id: 1, power: 6 }));
    assert_eq!(
        tributes.claim_tribute(&hub, &"u2".to_string(), 0, 1, 0),
        Err(ContractError::AlreadyClaimed)
    );
}

#[test]
fn from_parts_rejects_broken_records() {
    let c = busy_contract();
    let mut parts = c.hub.into_parts();
    parts.proposals[0].power = 5;
    assert!(Governance::from_parts(parts).is_none());

    let mut parts = busy_contract().hub.into_parts();
    let dup = VoteRecord { round_id: 0, voter: "u1".to_string(), vote: Vote { prop_id: 1, power: 0 } };
    parts.votes.push(dup);
    assert!(Governance::from_parts(parts).is_none());

    let mut parts = busy_contract().hub.into_parts();
    parts.rounds[1].round_end = parts.rounds[0].round_end;
    assert!(Governance::from_parts(parts).is_none());

    let mut parts = busy_contract().hub.into_parts();
    parts.next_lock_id = 1;
    assert!(Governance::from_parts(parts).is_none());

    let mut parts = busy_contract().hub.into_parts();
    parts.constants.round_length = 0;
    assert!(Governance::from_parts(parts).is_none());

    let mut tparts = busy_contract().tributes.into_parts();
    tparts.claims.push(ClaimRecord { claimer: "u2".to_string(), tribute_id: 0 });
    assert!(TributeLedger::from_parts(tparts).is_none());
}
