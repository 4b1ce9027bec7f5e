//! The order in which sprites are drawn.

use crate::components::{RenderLayer, LAYER_COUNT};
use vstd::prelude::*;

verus! {

/// Sprite `i` is drawn before sprite `j`: it sits on a lower layer, or on
/// the same layer and came first.
pub open spec fn draws_before(layers: Seq<RenderLayer>, i: int, j: int) -> bool {
    ||| layers[i].depth() < layers[j].depth()
    ||| (layers[i].depth() == layers[j].depth() && i < j)
}

/// `order` lists every index of `layers` once, sorted by layer from the
/// back and, within a layer, in the given order.
pub open spec fn is_render_order(layers: Seq<RenderLayer>, order: Seq<usize>) -> bool {
    &&& order.len() == layers.len()
    &&& forall|k: int| 0 <= k < order.len() ==> #[trigger] order[k] < layers.len()
    &&& forall|k: int, l: int|
        0 <= k < l < order.len() ==> draws_before(layers, #[trigger] order[k] as int, #[trigger] order[l] as int)
    &&& forall|i: int| 0 <= i < layers.len() ==> #[trigger] order.contains(i as usize)
}

/// The drawing order of sprites whose layers are `layers` (a stable sort of
/// the indices by layer).
pub fn render_order(layers: &Vec<RenderLayer>) -> (order: Vec<usize>)
    ensures
        is_render_order(layers@, order@),
{
    let n = layers.len();
    let mut order: Vec<usize> = Vec::new();
    let mut rank: u8 = 0;
    while rank < LAYER_COUNT
        invariant
            n == layers.len(),
            rank <= LAYER_COUNT,
            forall|k: int|
                0 <= k < order.len() ==> #[trigger] order[k] < n && layers@[order[k] as int].depth() < rank,
            forall|k: int, l: int|
                0 <= k < l < order.len() ==> draws_before(layers@, #[trigger] order[k] as int, #[trigger] order[l] as int),
            forall|i: int| 0 <= i < n && layers@[i].depth() < rank ==> #[trigger] order@.contains(i as usize),
        decreases LAYER_COUNT - rank,
    {
        let mut i: usize = 0;
        while i < n
            invariant
                n == layers.len(),
                rank < LAYER_COUNT,
                i <= n,
                forall|k: int|
                    0 <= k < order.len() ==> #[trigger] order[k] < n && (layers@[order[k] as int].depth() < rank
                        || (layers@[order[k] as int].depth() == rank && order[k] < i)),
                forall|k: int, l: int|
                    0 <= k < l < order.len() ==> draws_before(layers@, #[trigger] order[k] as int, #[trigger] order[l] as int),
                forall|j: int|
                    0 <= j < n && (layers@[j].depth() < rank || (layers@[j].depth() == rank && j < i))
                        ==> #[trigger] order@.contains(j as usize),
            decreases n - i,
        {
            if layers[i].draw_rank() == rank {
                let ghost before = order@;
                order.push(i);
                assert forall|j: int|
                    0 <= j < n && (layers@[j].depth() < rank || (layers@[j].depth() == rank && j < i + 1))
                        implies #[trigger] order@.contains(j as usize) by {
                    if j == i {
                        assert(order@[order.len() - 1] == i);
                    } else {
                        assert(before.contains(j as usize));
                        let k = choose|k: int| 0 <= k < before.len() && before[k] == j as usize;
                        assert(order@[k] == j as usize);
                    }
                }
            } else {
                assert forall|j: int|
                    0 <= j < n && (layers@[j].depth() < rank || (layers@[j].depth() == rank && j < i + 1))
                        implies #[trigger] order@.contains(j as usize) by {
                    if j == i {
                        assert(layers@[j].depth() != rank);
                    }
                }
            }
            i = i + 1;
        }
        rank = rank + 1;
    }
    proof {
        lemma_sorted_covering_is_full(layers@, order@);
    }
    order
}

/// A sequence of indices into `layers` that is strictly sorted by drawing
/// order and covers every index has one entry per index.
proof fn lemma_sorted_covering_is_full(layers: Seq<RenderLayer>, order: Seq<usize>)
    requires
        layers.len() <= usize::MAX,
        forall|k: int| 0 <= k < order.len() ==> #[trigger] order[k] < layers.len(),
        forall|k: int, l: int|
            0 <= k < l < order.len() ==> draws_before(layers, #[trigger] order[k] as int, #[trigger] order[l] as int),
        forall|i: int| 0 <= i < layers.len() ==> #[trigger] order.contains(i as usize),
    ensures
        order.len() == layers.len(),
{
    assert(order.no_duplicates()) by {
        assert forall|k: int, l: int| 0 <= k < order.len() && 0 <= l < order.len() && k != l implies order[k]
            != order[l] by {
            if k < l {
                assert(draws_before(layers, order[k] as int, order[l] as int));
            } else {
                assert(draws_before(layers, order[l] as int, order[k] as int));
            }
        }
    }
    order.unique_seq_to_set();
    let full = Set::<usize>::range(0, layers.len() as usize);
    assert(order.to_set() =~= full) by {
        assert forall|x: usize| full.contains(x) implies order.to_set().contains(x) by {
            assert(order.contains(x as int as usize));
        }
        assert forall|x: usize| order.to_set().contains(x) implies full.contains(x) by {
            assert(order.contains(x));
            let k = choose|k: int| 0 <= k < order.len() && order[k] == x;
            assert(order[k] < layers.len());
        }
    }
    vstd::set_lib::range_set_properties::<usize>(0, layers.len() as usize);
}

/// Sprites that already come from the back, such as a level's backdrops,
/// are drawn in the order they come.
pub proof fn law_sorted_sprites_keep_their_order(layers: Seq<RenderLayer>, order: Seq<usize>)
    requires
        is_render_order(layers, order),
        forall|k: int, l: int|
            0 <= k < l < layers.len() ==> (#[trigger] layers[k]).depth() <= (#[trigger] layers[l]).depth(),
    ensures
        forall|k: int| 0 <= k < order.len() ==> #[trigger] order[k] == k,
{
    let n = order.len();
    assert forall|k: int, l: int| 0 <= k < l < n implies #[trigger] order[k] < #[trigger] order[l] by {
        assert(draws_before(layers, order[k] as int, order[l] as int));
        if order[k] > order[l] {
            assert(layers[order[l] as int].depth() <= layers[order[k] as int].depth());
        }
    }
    lemma_increasing_below_is_identity(order, n as int);
}

/// A strictly increasing sequence of `n` values below `n` is `0, 1, ..., n - 1`.
proof fn lemma_increasing_below_is_identity(order: Seq<usize>, n: int)
    requires
        order.len() == n,
        forall|k: int| 0 <= k < n ==> #[trigger] order[k] < n,
        forall|k: int, l: int| 0 <= k < l < n ==> #[trigger] order[k] < #[trigger] order[l],
    ensures
        forall|k: int| 0 <= k < n ==> #[trigger] order[k] == k,
{
    assert forall|k: int| 0 <= k < n implies #[trigger] order[k] == k by {
        lemma_increasing_lower_bound(order, n, k);
        lemma_increasing_upper_bound(order, n, k);
    }
}

proof fn lemma_increasing_lower_bound(order: Seq<usize>, n: int, k: int)
    requires
        order.len() == n,
        0 <= k < n,
        forall|a: int, b: int| 0 <= a < b < n ==> #[trigger] order[a] < #[trigger] order[b],
    ensures
        order[k] >= k,
    decreases k,
{
    if k > 0 {
        lemma_increasing_lower_bound(order, n, k - 1);
        assert(order[k - 1] < order[k]);
    }
}

proof fn lemma_increasing_upper_bound(order: Seq<usize>, n: int, k: int)
    requires
        order.len() == n,
        0 <= k < n,
        forall|a: int| 0 <= a < n ==> #[trigger] order[a] < n,
        forall|a: int, b: int| 0 <= a < b < n ==> #[trigger] order[a] < #[trigger] order[b],
    ensures
        order[k] <= k,
    decreases n - k,
{
    if k < n - 1 {
        lemma_increasing_upper_bound(order, n, k + 1);
        assert(order[k] < order[k + 1]);
    }
}

} // verus!
