//! The order in which keys stand when sorted, ties kept as they came.

use vstd::prelude::*;

verus! {

/// `order` names every index of `keys` once, such that the keys taken in
/// that order do not fall, and equal keys are taken in the order of their
/// indices.
pub open spec fn is_stable_order(order: Seq<usize>, keys: Seq<u32>) -> bool {
    &&& order.len() == keys.len()
    &&& forall|i: int| 0 <= i < order.len() ==> (#[trigger] order[i]) < keys.len()
    &&& forall|i: int, j: int|
        0 <= i < j < order.len() ==> #[trigger] order[i] != #[trigger] order[j]
    &&& forall|i: int, j: int|
        0 <= i < j < order.len() ==> keys[#[trigger] order[i] as int] <= keys[#[trigger] order[j] as int]
    &&& forall|i: int, j: int|
        0 <= i < j < order.len() && keys[#[trigger] order[i] as int] == keys[#[trigger] order[j] as int]
            ==> order[i] < order[j]
}

/// The indices of `keys` in the order of the keys; equal keys keep the
/// order of their indices.
pub fn stable_order(keys: &Vec<u32>) -> (order: Vec<usize>)
    ensures
        is_stable_order(order@, keys@),
{
    let mut order: Vec<usize> = Vec::new();
    let mut next: usize = 0;
    while next < keys.len()
        invariant
            next <= keys@.len(),
            order@.len() == next,
            forall|i: int| 0 <= i < order@.len() ==> (#[trigger] order@[i]) < next,
            forall|i: int, j: int|
                0 <= i < j < order@.len() ==> #[trigger] order@[i] != #[trigger] order@[j],
            forall|i: int, j: int|
                0 <= i < j < order@.len() ==> keys@[#[trigger] order@[i] as int] <= keys@[
                #[trigger] order@[j] as int],
            forall|i: int, j: int|
                0 <= i < j < order@.len() && keys@[#[trigger] order@[i] as int] == keys@[
                #[trigger] order@[j] as int] ==> order@[i] < order@[j],
        decreases keys@.len() - next,
    {
        let key = keys[next];
        let ghost before = order@;
        let mut at: usize = order.len();
        while at > 0 && keys[order[at - 1]] > key
            invariant
                at <= order@.len(),
                order@ == before,
                next < keys@.len(),
                key == keys@[next as int],
                forall|i: int| 0 <= i < order@.len() ==> (#[trigger] order@[i]) < next,
                forall|k: int| at <= k < order@.len() ==> keys@[#[trigger] order@[k] as int] > key,
            decreases at,
        {
            at = at - 1;
        }
        order.insert(at, next);
        proof {
            assert(order@.len() == before.len() + 1);
            assert forall|k: int| 0 <= k < order@.len() implies #[trigger] order@[k] == (if k
                < at {
                before[k]
            } else if k == at {
                next
            } else {
                before[k - 1]
            }) by {}
            assert forall|i: int, j: int| 0 <= i < j < order@.len() implies keys@[
            #[trigger] order@[i] as int] <= keys@[#[trigger] order@[j] as int] by {
                if j < at {
                    assert(keys@[before[i] as int] <= keys@[before[j] as int]);
                } else if j == at {
                    if at > 0 {
                        assert(keys@[before[at - 1] as int] <= key);
                        if i < at - 1 {
                            assert(keys@[before[i] as int] <= keys@[before[at - 1] as int]);
                        }
                    }
                } else if i < at {
                    assert(keys@[before[i] as int] <= keys@[before[j - 1] as int]);
                } else if i == at {
                    assert(keys@[before[j - 1] as int] > key);
                } else {
                    assert(keys@[before[i - 1] as int] <= keys@[before[j - 1] as int]);
                }
            }
            assert forall|i: int, j: int|
                0 <= i < j < order@.len() && keys@[#[trigger] order@[i] as int] == keys@[
                #[trigger] order@[j] as int] implies order@[i] < order@[j] by {
                if i == at {
                    assert(keys@[before[j - 1] as int] > key);
                } else if j == at {
                    assert(before[i] < next);
                } else {
                    let i0 = if i < at {
                        i
                    } else {
                        i - 1
                    };
                    let j0 = if j < at {
                        j
                    } else {
                        j - 1
                    };
                    assert(keys@[before[i0] as int] == keys@[before[j0] as int]);
                }
            }
            assert forall|i: int, j: int| 0 <= i < j < order@.len() implies #[trigger] order@[i]
                != #[trigger] order@[j] by {
                let i0 = if i < at {
                    i
                } else {
                    i - 1
                };
                let j0 = if j < at {
                    j
                } else {
                    j - 1
                };
                if i != at && j != at {
                    assert(before[i0] != before[j0]);
                } else if i == at {
                    assert(before[j0] < next);
                } else {
                    assert(before[i0] < next);
                }
            }
        }
        next += 1;
    }
    order
}

} // verus!
