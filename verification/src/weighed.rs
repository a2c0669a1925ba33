//! Lists that are kept with the heaviest first; of two that weigh as much, the
//! one that came first.

use vstd::prelude::*;

verus! {

/// What can be ranked.
pub trait Weighed: Sized {
    spec fn weight(self) -> nat;

    fn weighs(&self) -> (r: u128)
        ensures
            r == self.weight(),
    ;
}

/// The weights of a list.
pub open spec fn weights<T: Weighed>(list: Seq<T>) -> Seq<nat> {
    Seq::new(list.len(), |i: int| list[i].weight())
}

/// How many, counted from the front, weigh at least so much.
pub open spec fn place(weights: Seq<nat>, weight: nat) -> int
    decreases weights.len(),
{
    if weights.len() == 0 || weights[0] < weight {
        0
    } else {
        1 + place(weights.drop_first(), weight)
    }
}

/// Whether nothing stands behind what is lighter.
pub open spec fn descending(weights: Seq<nat>) -> bool {
    forall|i: int, j: int|
        0 <= i < j < weights.len() ==> #[trigger] weights[i] >= #[trigger] weights[j]
}

pub proof fn lemma_place(weights: Seq<nat>, weight: nat)
    ensures
        0 <= place(weights, weight) <= weights.len(),
        place(weights, weight) < weights.len() ==> weights[place(weights, weight)] < weight,
        forall|k: int| 0 <= k < place(weights, weight) ==> #[trigger] weights[k] >= weight,
    decreases weights.len(),
{
    if weights.len() > 0 && weights[0] >= weight {
        let rest = weights.drop_first();
        lemma_place(rest, weight);
        assert forall|k: int| 0 <= k < place(weights, weight) implies #[trigger] weights[k]
            >= weight by {
            if k > 0 {
                assert(rest[k - 1] >= weight);
            }
        }
    }
}

/// What is put in its place leaves the heaviest first.
pub proof fn lemma_stays_descending(weights: Seq<nat>, weight: nat)
    requires
        descending(weights),
    ensures
        descending(weights.insert(place(weights, weight), weight)),
{
    let at = place(weights, weight);
    let all = weights.insert(at, weight);
    lemma_place(weights, weight);
    assert forall|i: int, j: int| 0 <= i < j < all.len() implies #[trigger] all[i]
        >= #[trigger] all[j] by {
        let a = if i < at {
            i
        } else {
            i - 1
        };
        let b = if j < at {
            j
        } else {
            j - 1
        };
        if i == at {
            assert(all[j] == weights[b]);
            assert(b > at ==> weights[at] >= weights[b]);
        } else if j == at {
            assert(all[i] == weights[a]);
        } else {
            assert(all[i] == weights[a] && all[j] == weights[b]);
        }
    }
}

/// Put one more in its place.
pub fn insert<T: Weighed>(list: &mut Vec<T>, one: T)
    ensures
        final(list)@ == old(list)@.insert(place(weights(old(list)@), one.weight()), one),
        0 <= place(weights(old(list)@), one.weight()) <= old(list)@.len(),
{
    let ghost all = weights(list@);
    let weight: u128 = one.weighs();
    let mut i: usize = 0;
    assert(all.skip(0) =~= all);
    while i < list.len() && list[i].weighs() >= weight
        invariant
            all == weights(list@),
            weight == one.weight(),
            *list == *old(list),
            i <= list@.len(),
            i + place(all.skip(i as int), weight as nat) == place(all, weight as nat),
        decreases list.len() - i,
    {
        assert(all.skip(i as int)[0] == all[i as int]);
        assert(all.skip(i as int).drop_first() =~= all.skip(i + 1));
        i += 1;
    }
    proof {
        if i < list@.len() {
            assert(all.skip(i as int)[0] == all[i as int]);
        }
        assert(place(all, weight as nat) == i);
    }
    list.insert(i, one);
}

} // verus!
