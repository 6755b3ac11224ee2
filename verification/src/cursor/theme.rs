//! The order in which a themed cursor's candidate files are tried.
use vstd::prelude::*;

verus! {

/// Candidate `a` is tried before candidate `b`: found at a shallower
/// inheritance depth, or at the same depth and named earlier.
pub open spec fn before(depths: Seq<usize>, a: usize, b: usize) -> bool {
    depths[a as int] < depths[b as int] || (depths[a as int] == depths[b as int] && a < b)
}

/// `order` lists every candidate index once, shallowest first; among equal
/// depths the icon's own name comes before its aliases, in their order.
pub open spec fn load_order_of(depths: Seq<usize>, order: Seq<usize>) -> bool {
    &&& order.len() == depths.len()
    &&& forall|k: int| 0 <= k < order.len() ==> #[trigger] order[k] < depths.len()
    &&& forall|i: int, j: int|
        0 <= i < j < order.len() ==> before(depths, #[trigger] order[i], #[trigger] order[j])
}

/// Candidate indices sorted by depth, stably: aliases in the selected
/// theme are preferred over canonical names found in an ancestor.
pub fn load_order(depths: &Vec<usize>) -> (order: Vec<usize>)
    ensures
        load_order_of(depths@, order@),
{
    let mut order: Vec<usize> = Vec::new();
    let mut n: usize = 0;
    while n < depths.len()
        invariant
            n <= depths@.len(),
            order@.len() == n,
            forall|k: int| 0 <= k < order@.len() ==> #[trigger] order@[k] < n,
            forall|i: int, j: int|
                0 <= i < j < order@.len() ==> before(depths@, #[trigger] order@[i], #[trigger] order@[j]),
        decreases depths@.len() - n,
    {
        // Insert candidate n after every candidate that goes before it.
        let mut pos: usize = order.len();
        while pos > 0 && depths[order[pos - 1]] > depths[n]
            invariant
                n < depths@.len(),
                pos <= order@.len(),
                order@.len() == n,
                forall|k: int| 0 <= k < order@.len() ==> #[trigger] order@[k] < n,
                forall|k: int| pos <= k < order@.len() ==> before(depths@, n, #[trigger] order@[k]),
            decreases pos,
        {
            pos = pos - 1;
        }
        let ghost old_order = order@;
        order.insert(pos, n);
        proof {
            assert forall|k: int| 0 <= k < order@.len() implies #[trigger] order@[k] < n + 1 by {
                if k < pos {
                    assert(order@[k] == old_order[k]);
                } else if k > pos {
                    assert(order@[k] == old_order[k - 1]);
                }
            }
            assert forall|i: int, j: int| 0 <= i < j < order@.len() implies before(
                depths@,
                #[trigger] order@[i],
                #[trigger] order@[j],
            ) by {
                if j < pos {
                    assert(order@[i] == old_order[i] && order@[j] == old_order[j]);
                } else if i > pos {
                    assert(order@[i] == old_order[i - 1] && order@[j] == old_order[j - 1]);
                } else if i == pos {
                    assert(order@[j] == old_order[j - 1]);
                } else if j == pos {
                    // Everything before the insertion point is no deeper.
                    assert(order@[i] == old_order[i]);
                    if pos > 0 {
                        assert(depths@[old_order[pos - 1] as int] <= depths@[n as int]);
                        if i < pos - 1 {
                            assert(before(depths@, old_order[i], old_order[pos - 1]));
                        }
                    }
                    assert(old_order[i] < n);
                } else {
                    assert(order@[i] == old_order[i] && order@[j] == old_order[j - 1]);
                }
            }
        }
        n = n + 1;
    }
    order
}

} // verus!
