use vstd::prelude::*;

verus! {

/// Whether the chip at position `a` comes before the chip at position `b`
/// when the chips are put in the order of falling height: it is higher,
/// or as high and before `b` as things are.
pub open spec fn comes_before(heights: Seq<usize>, a: int, b: int) -> bool {
    heights[a] > heights[b] || (heights[a] == heights[b] && a < b)
}

/// Whether `order` lists positions below `bound`, each before all that
/// it comes before.
pub open spec fn is_ordered(heights: Seq<usize>, order: Seq<usize>, bound: int) -> bool {
    &&& forall|i: int| 0 <= i < order.len() ==> (#[trigger] order[i]) < bound
    &&& forall|i: int, j: int|
        0 <= i < j < order.len() ==> comes_before(
            heights,
            #[trigger] order[i] as int,
            #[trigger] order[j] as int,
        )
}

/// The positions of the chips in the order of falling height.  Chips of
/// one height keep the order that they are in.
pub fn order_by_height_descending(heights: &[usize]) -> (order: Vec<usize>)
    ensures
        order@.len() == heights@.len(),
        is_ordered(heights@, order@, heights@.len() as int),
{
    let n = heights.len();
    let mut order: Vec<usize> = Vec::with_capacity(n);
    let mut k: usize = 0;
    while k < n
        invariant
            n == heights@.len(),
            k <= n,
            order@.len() == k,
            is_ordered(heights@, order@, k as int),
        decreases n - k,
    {
        let mut p: usize = 0;
        while p < order.len() && heights[order[p]] >= heights[k]
            invariant
                n == heights@.len(),
                k < n,
                order@.len() == k,
                p <= k,
                is_ordered(heights@, order@, k as int),
                forall|i: int| 0 <= i < p ==> heights@[(#[trigger] order@[i]) as int] >= heights@[k as int],
            decreases k - p,
        {
            p += 1;
        }
        let ghost before = order@;
        order.insert(p, k);
        proof {
            assert forall|i: int, j: int| 0 <= i < j < order@.len() implies comes_before(
                heights@,
                #[trigger] order@[i] as int,
                #[trigger] order@[j] as int,
            ) by {
                if j < p {
                    assert(order@[i] == before[i] && order@[j] == before[j]);
                } else if j == p {
                    assert(order@[i] == before[i]);
                } else if i < p {
                    assert(order@[i] == before[i] && order@[j] == before[j - 1]);
                } else if i == p {
                    assert(order@[j] == before[j - 1]);
                    assert(heights@[before[p as int] as int] < heights@[k as int]);
                    if j - 1 > p {
                        assert(comes_before(
                            heights@,
                            before[p as int] as int,
                            before[j - 1] as int,
                        ));
                    }
                } else {
                    assert(order@[i] == before[i - 1] && order@[j] == before[j - 1]);
                }
            }
            assert forall|i: int| 0 <= i < order@.len() implies (#[trigger] order@[i]) < k + 1 by {
                if i < p {
                    assert(order@[i] == before[i]);
                } else if i > p {
                    assert(order@[i] == before[i - 1]);
                }
            }
        }
        k += 1;
    }
    order
}

} // verus!
