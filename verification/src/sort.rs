//! A stable sort by numeric keys.

use vstd::prelude::*;

verus! {

/// Entry `a` comes before entry `b`: its key is smaller, or the keys are
/// equal and it came first.
pub open spec fn key_before(keys: Seq<u64>, a: int, b: int) -> bool {
    keys[a] < keys[b] || (keys[a] == keys[b] && a < b)
}

/// `order` lists each index of `keys` once, by key, equal keys in their
/// given order (what a stable sort by key gives).
pub open spec fn stable_order(keys: Seq<u64>, order: Seq<int>) -> bool {
    &&& order.len() == keys.len()
    &&& forall|a: int| 0 <= a < order.len() ==> 0 <= #[trigger] order[a] < keys.len()
    &&& forall|j: int| 0 <= j < keys.len() ==> order.contains(j)
    &&& forall|a: int, b: int| 0 <= a < b < order.len() ==> key_before(keys, #[trigger] order[a], #[trigger] order[b])
}

/// The indexes of `keys`, sorted stably by key.
pub fn stable_sort_by_key(keys: &Vec<u64>) -> (order: Vec<usize>)
    ensures
        stable_order(keys@, order@.map_values(|i: usize| i as int)),
{
    let n = keys.len();
    let mut order: Vec<usize> = Vec::new();
    for i in 0..n
        invariant
            n == keys.len(),
            order.len() == i,
            forall|a: int| 0 <= a < order.len() ==> #[trigger] order@[a] < i,
            forall|j: usize| 0 <= j < i ==> #[trigger] order@.contains(j),
            forall|a: int, b: int|
                0 <= a < b < order.len() ==> key_before(keys@, #[trigger] order@[a] as int, #[trigger] order@[b] as int),
    {
        let mut p: usize = 0;
        while p < order.len() && keys[order[p]] <= keys[i]
            invariant
                p <= order.len(),
                order.len() == i,
                i < n,
                n == keys.len(),
                forall|a: int| 0 <= a < order.len() ==> #[trigger] order@[a] < i,
                forall|a: int| 0 <= a < p ==> keys@[#[trigger] order@[a] as int] <= keys@[i as int],
            decreases order.len() - p,
        {
            p = p + 1;
        }
        let ghost old_order = order@;
        proof {
            assert forall|b: int| p <= b < old_order.len() implies keys@[i as int] < keys@[
                #[trigger] old_order[b] as int] by {
                if b > p {
                    assert(key_before(keys@, old_order[p as int] as int, old_order[b] as int));
                }
            }
        }
        order.insert(p, i);
        assert(order@ == old_order.insert(p as int, i));
        assert forall|j: usize| 0 <= j < i + 1 implies #[trigger] order@.contains(j) by {
            if j == i {
                assert(order@[p as int] == i);
            } else {
                assert(old_order.contains(j));
                let a = choose|a: int| 0 <= a < old_order.len() && old_order[a] == j;
                if a < p {
                    assert(order@[a] == old_order[a]);
                } else {
                    assert(order@[a + 1] == old_order[a]);
                }
            }
        }
        assert forall|a: int| 0 <= a < order.len() implies #[trigger] order@[a] < i + 1 by {
            if a < p {
                assert(order@[a] == old_order[a]);
            } else if a > p {
                assert(order@[a] == old_order[a - 1]);
            }
        }
        assert forall|a: int, b: int| 0 <= a < b < order.len() implies key_before(
            keys@,
            #[trigger] order@[a] as int,
            #[trigger] order@[b] as int,
        ) by {
            if b < p {
                assert(order@[a] == old_order[a] && order@[b] == old_order[b]);
            } else if a > p {
                assert(order@[a] == old_order[a - 1] && order@[b] == old_order[b - 1]);
            } else if a < p && b > p {
                assert(order@[a] == old_order[a] && order@[b] == old_order[b - 1]);
            } else if a < p && b == p {
                assert(order@[a] == old_order[a]);
            } else {
                assert(a == p);
                assert(order@[b] == old_order[b - 1]);
            }
        }
    }
    let ghost o = order@.map_values(|i: usize| i as int);
    assert forall|j: int| 0 <= j < keys@.len() implies o.contains(j) by {
        assert(order@.contains(j as usize));
        let a = choose|a: int| 0 <= a < order@.len() && order@[a] == j as usize;
        assert(o[a] == j);
    }
    assert forall|a: int, b: int| 0 <= a < b < o.len() implies key_before(keys@, #[trigger] o[a], #[trigger] o[b]) by {
        assert(o[a] == order@[a] as int && o[b] == order@[b] as int);
    }
    order
}

} // verus!
