//! Picking the best of a list of offers.

use vstd::prelude::*;
use crate::number::{strictly_ordered, Quantity};

verus! {

/// What a further offer has to beat: the value of the best one so far, or the
/// floor where there is none yet.
pub open spec fn bar<S: Quantity, Q>(best: Option<Q>, value: spec_fn(Q) -> S, floor: S) -> S {
    match best {
        Some(q) => value(q),
        None => floor,
    }
}

/// The offer that is left when each one in turn replaces the best so far if its
/// value is larger.
pub open spec fn best_of<S: Quantity, Q>(
    offers: Seq<Q>,
    value: spec_fn(Q) -> S,
    floor: S,
) -> Option<Q>
    decreases offers.len(),
{
    if offers.len() == 0 {
        None
    } else {
        let best = best_of(offers.drop_last(), value, floor);
        if bar(best, value, floor) < value(offers.last()) {
            Some(offers.last())
        } else {
            best
        }
    }
}

/// `index` is where the best offer stands: its value is above the floor, no
/// offer has a larger one, and none before it has the same.
pub open spec fn first_best<S: Quantity, Q>(
    offers: Seq<Q>,
    value: spec_fn(Q) -> S,
    floor: S,
    index: int,
) -> bool {
    &&& 0 <= index < offers.len()
    &&& floor < value(offers[index])
    &&& forall|k: int| 0 <= k < offers.len() ==> !(value(offers[index]) < #[trigger] value(offers[k]))
    &&& forall|k: int| 0 <= k < index ==> #[trigger] value(offers[k]) != value(offers[index])
}

/// Where `<` is a strict order, the offer that is left is the first of those with
/// the largest value, and there is none just where no offer is above the floor.
pub proof fn law_best_of_is_first_best<S: Quantity, Q>(
    offers: Seq<Q>,
    value: spec_fn(Q) -> S,
    floor: S,
)
    requires
        strictly_ordered::<S>(),
    ensures
        match best_of(offers, value, floor) {
            None => forall|k: int| 0 <= k < offers.len() ==> !(floor < #[trigger] value(offers[k])),
            Some(q) => exists|index: int|
                #[trigger] first_best(offers, value, floor, index) && offers[index] == q,
        },
    decreases offers.len(),
{
    if offers.len() > 0 {
        let rest = offers.drop_last();
        let best = best_of(rest, value, floor);
        let last = offers.len() - 1;
        law_best_of_is_first_best(rest, value, floor);
        assert(forall|k: int| 0 <= k < rest.len() ==> rest[k] == offers[k]);
        match best {
            None => {
                assert forall|k: int| 0 <= k < rest.len() implies !(floor < #[trigger] value(
                    offers[k],
                )) by {
                    assert(!(floor < value(rest[k])));
                }
                if floor < value(offers[last]) {
                    assert(first_best(offers, value, floor, last));
                }
            },
            Some(q) => {
                let index = choose|index: int|
                    #[trigger] first_best(rest, value, floor, index) && rest[index] == q;
                assert forall|k: int| 0 <= k < rest.len() implies !(value(q) < #[trigger] value(
                    offers[k],
                )) by {
                    assert(!(value(rest[index]) < value(rest[k])));
                }
                if value(q) < value(offers[last]) {
                    assert(first_best(offers, value, floor, last));
                } else {
                    assert forall|k: int| 0 <= k < index implies #[trigger] value(offers[k])
                        != value(offers[index]) by {
                        assert(value(rest[k]) != value(rest[index]));
                    }
                    assert(first_best(offers, value, floor, index));
                }
            },
        }
    }
}

/// What holds of every offer holds of the best one.
pub proof fn lemma_best_of_keeps<S: Quantity, Q>(
    offers: Seq<Q>,
    value: spec_fn(Q) -> S,
    floor: S,
    good: spec_fn(Q) -> bool,
)
    requires
        forall|k: int| 0 <= k < offers.len() ==> good(#[trigger] offers[k]),
    ensures
        best_of(offers, value, floor) is Some ==> good(best_of(offers, value, floor)->0),
    decreases offers.len(),
{
    if offers.len() > 0 {
        let rest = offers.drop_last();
        assert forall|k: int| 0 <= k < rest.len() implies good(#[trigger] rest[k]) by {
            assert(good(offers[k]));
        }
        lemma_best_of_keeps(rest, value, floor, good);
        assert(good(offers[offers.len() - 1]));
    }
}

} // verus!
