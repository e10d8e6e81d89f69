use atom_wars::hub::validate_covenant_params;
use atom_wars::score_index::{ScoreIndex, ScoreKey};

fn key(round_id: u64, power: u128, prop_id: u64) -> ScoreKey {
    ScoreKey { round_id, power, prop_id }
}

#[test]
fn top_is_greatest_key_of_round() {
    let mut s = ScoreIndex::new();
    assert_eq!(s.top(0), None);
    s.insert(key(0, 5, 1));
    s.insert(key(0, 9, 0));
    s.insert(key(1, 100, 2));
    s.insert(key(0, 9, 3));
    assert_eq!(s.len(), 4);
    assert_eq!(s.top(0), Some(key(0, 9, 3)));
    assert_eq!(s.top(1), Some(key(1, 100, 2)));
    assert_eq!(s.top(2), None);
}

#[test]
fn remove_and_update_move_the_top() {
    let mut s = ScoreIndex::new();
    s.insert(key(3, 0, 0));
    s.insert(key(3, 0, 1));
    assert_eq!(s.top(3), Some(key(3, 0, 1)));
    s.update_power(3, 0, 0, 7);
    assert_eq!(s.top(3), Some(key(3, 7, 0)));
    s.update_power(3, 0, 7, 7);
    assert_eq!(s.len(), 2);
    s.remove(key(3, 7, 0));
    assert_eq!(s.top(3), Some(key(3, 0, 1)));
    s.remove(key(3, 0, 1));
    assert_eq!(s.top(3), None);
    assert_eq!(s.len(), 0);
}

#[test]
fn largest_round_and_power_are_found() {
    let mut s = ScoreIndex::new();
    s.insert(key(u64::MAX, u128::MAX, u64::MAX));
    s.insert(key(u64::MAX, u128::MAX, 0));
    assert_eq!(s.top(u64::MAX), Some(key(u64::MAX, u128::MAX, u64::MAX)));
    assert_eq!(s.top(u64::MAX - 1), None);
}

#[test]
fn covenant_params_are_accepted() {
    assert_eq!(validate_covenant_params(&"anything".to_string()), Ok(()));
}
