//! The score index: the keys `(round, power, proposal)` of every proposal,
//! kept in strictly increasing lexicographic order, so that the winner of a
//! round is found by one binary search instead of a scan of all proposals.
use vstd::prelude::*;

verus! {

/// One entry of the index: a proposal of `round_id` that holds `power`.
#[derive(Clone, Copy, Debug, PartialEq, Eq, Structural)]
pub struct ScoreKey {
    pub round_id: u64,
    pub power: u128,
    pub prop_id: u64,
}

/// Lexicographic order on `(round_id, power, prop_id)`.
pub open spec fn key_lt(a: ScoreKey, b: ScoreKey) -> bool {
    a.round_id < b.round_id || (a.round_id == b.round_id && (a.power < b.power || (a.power
        == b.power && a.prop_id < b.prop_id)))
}

/// `a` comes no later than `b`.
pub open spec fn key_le(a: ScoreKey, b: ScoreKey) -> bool {
    a == b || key_lt(a, b)
}

pub open spec fn strictly_sorted(s: Seq<ScoreKey>) -> bool {
    forall|i: int, j: int| 0 <= i < j < s.len() ==> key_lt(#[trigger] s[i], #[trigger] s[j])
}

/// `k` is the greatest key of round `round` in `s`, or, with ties in power,
/// the one with the larger proposal id.
pub open spec fn is_top_of_round(s: Seq<ScoreKey>, round: u64, k: ScoreKey) -> bool {
    &&& s.contains(k)
    &&& k.round_id == round
    &&& forall|x: ScoreKey| #[trigger] s.contains(x) && x.round_id == round ==> key_le(x, k)
}

pub open spec fn round_is_empty(s: Seq<ScoreKey>, round: u64) -> bool {
    forall|x: ScoreKey| #[trigger] s.contains(x) ==> x.round_id != round
}

fn key_less(a: &ScoreKey, b: &ScoreKey) -> (r: bool)
    ensures
        r == key_lt(*a, *b),
{
    a.round_id < b.round_id || (a.round_id == b.round_id && (a.power < b.power || (a.power
        == b.power && a.prop_id < b.prop_id)))
}

/// An ordered set of score keys.
pub struct ScoreIndex {
    entries: Vec<ScoreKey>,
}

impl View for ScoreIndex {
    type V = Seq<ScoreKey>;

    closed spec fn view(&self) -> Seq<ScoreKey> {
        self.entries@
    }
}

impl ScoreIndex {
    pub open spec fn wf(&self) -> bool {
        strictly_sorted(self@)
    }

    pub fn new() -> (r: ScoreIndex)
        ensures
            r.wf(),
            r@ == Seq::<ScoreKey>::empty(),
    {
        ScoreIndex { entries: Vec::new() }
    }

    pub fn len(&self) -> (r: usize)
        ensures
            r == self@.len(),
    {
        self.entries.len()
    }

    /// The first position whose key is greater than `k`.
    fn upper_bound(&self, k: &ScoreKey) -> (pos: usize)
        requires
            self.wf(),
        ensures
            pos <= self@.len(),
            forall|i: int| 0 <= i < pos ==> !key_lt(*k, #[trigger] self@[i]),
            forall|i: int| pos <= i < self@.len() ==> key_lt(*k, #[trigger] self@[i]),
    {
        let mut lo: usize = 0;
        let mut hi: usize = self.entries.len();
        while lo < hi
            invariant
                self.wf(),
                lo <= hi <= self@.len(),
                forall|i: int| 0 <= i < lo ==> !key_lt(*k, #[trigger] self@[i]),
                forall|i: int| hi <= i < self@.len() ==> key_lt(*k, #[trigger] self@[i]),
            decreases hi - lo,
        {
            let mid: usize = lo + (hi - lo) / 2;
            if key_less(k, &self.entries[mid]) {
                assert forall|i: int| mid <= i < self@.len() implies key_lt(
                    *k,
                    #[trigger] self@[i],
                ) by {
                    if mid < i {
                        assert(key_lt(self@[mid as int], self@[i]));
                    }
                }
                hi = mid;
            } else {
                assert forall|i: int| 0 <= i <= mid implies !key_lt(*k, #[trigger] self@[i]) by {
                    if i < mid {
                        assert(key_lt(self@[i], self@[mid as int]));
                    }
                }
                lo = mid + 1;
            }
        }
        lo
    }

    /// Adds `k`, which must not be present yet.
    pub fn insert(&mut self, k: ScoreKey)
        requires
            old(self).wf(),
            !old(self)@.contains(k),
        ensures
            final(self).wf(),
            final(self)@.len() == old(self)@.len() + 1,
            forall|x: ScoreKey| #[trigger]
                final(self)@.contains(x) <==> (old(self)@.contains(x) || x == k),
    {
        let pos = self.upper_bound(&k);
        proof {
            assert forall|i: int| 0 <= i < pos implies key_lt(#[trigger] self@[i], k) by {
                assert(self@.contains(self@[i]));
            }
        }
        let ghost s0 = self@;
        self.entries.insert(pos, k);
        let ghost s1 = self@;
        assert(s1 == s0.insert(pos as int, k));
        assert forall|i: int, j: int| 0 <= i < j < s1.len() implies key_lt(
            #[trigger] s1[i],
            #[trigger] s1[j],
        ) by {
            if j < pos {
            } else if j == pos {
            } else if i < pos {
                assert(key_lt(s0[i], k));
            } else if i == pos {
            } else {
                assert(key_lt(s0[i - 1], s0[j - 1]));
            }
        }
        assert forall|x: ScoreKey| #[trigger] s1.contains(x) <==> (s0.contains(x) || x == k) by {
            if s1.contains(x) {
                let i = choose|i: int| 0 <= i < s1.len() && s1[i] == x;
                if i < pos {
                    assert(s0[i] == x);
                } else if i > pos {
                    assert(s0[i - 1] == x);
                }
            }
            if s0.contains(x) {
                let i = choose|i: int| 0 <= i < s0.len() && s0[i] == x;
                if i < pos {
                    assert(s1[i] == x);
                } else {
                    assert(s1[i + 1] == x);
                }
            }
            if x == k {
                assert(s1[pos as int] == x);
            }
        }
    }

    /// Removes `k`, which must be present.
    pub fn remove(&mut self, k: ScoreKey)
        requires
            old(self).wf(),
            old(self)@.contains(k),
        ensures
            final(self).wf(),
            final(self)@.len() == old(self)@.len() - 1,
            forall|x: ScoreKey| #[trigger]
                final(self)@.contains(x) <==> (old(self)@.contains(x) && x != k),
    {
        let pos = self.upper_bound(&k);
        let ghost s0 = self@;
        proof {
            let j = choose|j: int| 0 <= j < s0.len() && s0[j] == k;
            assert(!key_lt(k, s0[j]));
            assert(j < pos);
            if j < pos - 1 {
                assert(key_lt(s0[j], s0[pos - 1]));
                assert(!key_lt(k, s0[pos - 1]));
            }
            assert(s0[pos - 1] == k);
        }
        self.entries.remove(pos - 1);
        let ghost s1 = self@;
        let ghost at = pos - 1;
        assert(s1 == s0.remove(at));
        assert forall|i: int, j: int| 0 <= i < j < s1.len() implies key_lt(
            #[trigger] s1[i],
            #[trigger] s1[j],
        ) by {
            if j < at {
            } else if i < at {
                assert(key_lt(s0[i], s0[j + 1]));
            } else {
                assert(key_lt(s0[i + 1], s0[j + 1]));
            }
        }
        assert forall|x: ScoreKey| #[trigger] s1.contains(x) <==> (s0.contains(x) && x != k) by {
            if s1.contains(x) {
                let i = choose|i: int| 0 <= i < s1.len() && s1[i] == x;
                if i < at {
                    assert(s0[i] == x);
                    assert(key_lt(s0[i], s0[at]));
                } else {
                    assert(s0[i + 1] == x);
                    assert(key_lt(s0[at], s0[i + 1]));
                }
            }
            if s0.contains(x) && x != k {
                let i = choose|i: int| 0 <= i < s0.len() && s0[i] == x;
                if i < at {
                    assert(s1[i] == x);
                } else {
                    assert(s1[i - 1] == x);
                }
            }
        }
    }

    /// Moves the entry of proposal `prop_id` of `round_id` from `old_power`
    /// to `new_power`, in one step.
    pub fn update_power(&mut self, round_id: u64, prop_id: u64, old_power: u128, new_power: u128)
        requires
            old(self).wf(),
            old(self)@.contains(ScoreKey { round_id, power: old_power, prop_id }),
            old_power == new_power || !old(self)@.contains(
                ScoreKey { round_id, power: new_power, prop_id },
            ),
        ensures
            final(self).wf(),
            final(self)@.len() == old(self)@.len(),
            forall|x: ScoreKey| #[trigger]
                final(self)@.contains(x) <==> ((old(self)@.contains(x) && x != ScoreKey {
                    round_id,
                    power: old_power,
                    prop_id,
                }) || x == ScoreKey { round_id, power: new_power, prop_id }),
    {
        self.remove(ScoreKey { round_id, power: old_power, prop_id });
        self.insert(ScoreKey { round_id, power: new_power, prop_id });
    }

    /// The greatest key of round `round`: the proposal with the most power,
    /// the larger proposal id breaking ties. `None` where the round has no
    /// entry.
    pub fn top(&self, round: u64) -> (r: Option<ScoreKey>)
        requires
            self.wf(),
        ensures
            r is None <==> round_is_empty(self@, round),
            r matches Some(k) ==> is_top_of_round(self@, round, k),
    {
        let bound = ScoreKey { round_id: round, power: u128::MAX, prop_id: u64::MAX };
        let pos = self.upper_bound(&bound);
        if pos == 0 {
            proof {
                assert forall|x: ScoreKey| #[trigger] self@.contains(x) implies x.round_id
                    != round by {
                    let i = choose|i: int| 0 <= i < self@.len() && self@[i] == x;
                    assert(key_lt(bound, self@[i]));
                }
            }
            return None;
        }
        let k = self.entries[pos - 1];
        if k.round_id == round {
            proof {
                assert forall|x: ScoreKey| #[trigger]
                    self@.contains(x) && x.round_id == round implies key_le(x, k) by {
                    let i = choose|i: int| 0 <= i < self@.len() && self@[i] == x;
                    if i >= pos {
                        assert(key_lt(bound, self@[i]));
                    } else if i < pos - 1 {
                        assert(key_lt(self@[i], self@[pos - 1]));
                    }
                }
                assert(self@.contains(k)) by {
                    assert(self@[pos - 1] == k);
                }
            }
            Some(k)
        } else {
            proof {
                assert forall|x: ScoreKey| #[trigger] self@.contains(x) implies x.round_id
                    != round by {
                    let i = choose|i: int| 0 <= i < self@.len() && self@[i] == x;
                    if i >= pos {
                        assert(key_lt(bound, self@[i]));
                    } else if i < pos - 1 {
                        assert(key_lt(self@[i], self@[pos - 1]));
                    }
                }
            }
            None
        }
    }
}

} // verus!
