//! Bounding-volume hierarchy: a binary tree of nested boxes over a list of
//! triangles, built once and then searched by rays.
//!
//! The tree lives in one flat array of nodes with the root at index 0.  A
//! leaf names a run of consecutive triangles; an interior node names its two
//! children, which always sit at higher indices than the node itself.  The
//! runs of the leaves, read left to right, tile the triangle list.
//!
//! Two things a hierarchy needs are numeric work on coordinates and are
//! supplied by the caller as functions: the cost of a candidate split, and
//! the tests of one ray against a box and against a triangle.  Everything
//! that is decided from their answers is decided here.

use crate::aabb::{
    lemma_encloses_contains, lemma_encloses_transitive, lemma_extend_contains_point,
    lemma_extend_keeps_points, lemma_union_encloses, Aabb,
};
use crate::hit::{Hit, HitType};
use crate::random::{state_after, xor_shift_32, xor_shift_32_spec};
use crate::scalar::Scalar;
use crate::search::{
    box_oracle, box_test_ok, later, lemma_scan_all_miss, lemma_scan_split, scan, scan_triangles,
    stops_early, triangle_oracle, triangle_test_ok,
};
use crate::triangle::Triangle;
use core::cmp::Ordering;
use vstd::prelude::*;

verus! {

/// The most triangles a leaf may hold.
pub const LEAF_SIZE: usize = 4;

/// The state from which every build starts its stream of split axes.
pub const BUILD_SEED: u32 = 0xF215_C12E;

/// One node of the tree.  For a leaf, `d1` is the index of its first
/// triangle and `d2` the number of its triangles; for an interior node they
/// are the indices of the left and the right child.
#[derive(Clone, Copy, Debug)]
pub struct BvhNode {
    pub v: Aabb,
    pub d1: usize,
    pub d2: usize,
    pub is_leaf: bool,
}

/// The tree, as its array of nodes.
#[derive(Debug)]
pub struct Bvh {
    pub nodes: Vec<BvhNode>,
}

/// The union of the boxes of `count` consecutive triangles from `start`,
/// taken left to right from the empty box.
pub open spec fn range_box(tris: Seq<Triangle>, start: int, count: int) -> Aabb
    decreases count,
{
    if count <= 0 {
        Aabb::empty_spec()
    } else {
        range_box(tris, start, count - 1).union_spec(tris[start + count - 1].bounds())
    }
}

/// Both children of the interior node at `idx` lie after it in the array.
pub open spec fn children_follow(nodes: Seq<BvhNode>, idx: int) -> bool {
    idx < nodes[idx].d1 < nodes.len() && idx < nodes[idx].d2 < nodes.len()
}

/// Index of the first triangle beneath node `idx`.
pub open spec fn first_of(nodes: Seq<BvhNode>, idx: int) -> int
    decreases nodes.len() - idx,
{
    if !(0 <= idx < nodes.len()) {
        0
    } else if nodes[idx].is_leaf {
        nodes[idx].d1 as int
    } else if children_follow(nodes, idx) {
        first_of(nodes, nodes[idx].d1 as int)
    } else {
        0
    }
}

/// Number of triangles beneath node `idx`.
pub open spec fn count_of(nodes: Seq<BvhNode>, idx: int) -> int
    decreases nodes.len() - idx,
{
    if !(0 <= idx < nodes.len()) {
        0
    } else if nodes[idx].is_leaf {
        nodes[idx].d2 as int
    } else if children_follow(nodes, idx) {
        count_of(nodes, nodes[idx].d1 as int) + count_of(nodes, nodes[idx].d2 as int)
    } else {
        0
    }
}

/// The nodes from `idx` down form a hierarchy over `tris`:
/// a leaf holds at most [`LEAF_SIZE`] triangles of the list and its box is
/// their [`range_box`]; an interior node has two well-formed children, each
/// over at least one triangle, the right child's run starting where the
/// left child's run ends, and its box is the union of the children's boxes.
pub open spec fn subtree_ok(nodes: Seq<BvhNode>, tris: Seq<Triangle>, idx: int) -> bool
    decreases nodes.len() - idx,
{
    &&& 0 <= idx < nodes.len()
    &&& if nodes[idx].is_leaf {
        &&& nodes[idx].d2 <= LEAF_SIZE
        &&& nodes[idx].d1 + nodes[idx].d2 <= tris.len()
        &&& nodes[idx].v == range_box(tris, nodes[idx].d1 as int, nodes[idx].d2 as int)
    } else {
        &&& children_follow(nodes, idx)
        &&& subtree_ok(nodes, tris, nodes[idx].d1 as int)
        &&& subtree_ok(nodes, tris, nodes[idx].d2 as int)
        &&& count_of(nodes, nodes[idx].d1 as int) > 0
        &&& count_of(nodes, nodes[idx].d2 as int) > 0
        &&& first_of(nodes, nodes[idx].d1 as int) + count_of(nodes, nodes[idx].d1 as int)
            == first_of(nodes, nodes[idx].d2 as int)
        &&& nodes[idx].v == nodes[nodes[idx].d1 as int].v.union_spec(nodes[nodes[idx].d2 as int].v)
    }
}

/// The key by which a build orders triangles along an axis: the key of the
/// triangle's least coordinate there.
pub open spec fn min_key(tri: Triangle, axis: usize) -> int {
    tri.min_on_spec(axis as int).key()
}

/// What the cost function answers for one candidate split.
pub open spec fn cost_outcome<C: Fn(usize, Aabb, usize, Aabb) -> Scalar>(
    cost: C,
    left_count: usize,
    left: Aabb,
    right_count: usize,
    right: Aabb,
) -> Scalar {
    choose|r: Scalar| call_ensures(cost, (left_count, left, right_count, right), r)
}

/// The cost function accepts every candidate and gives the same candidate
/// the same cost each time.
pub open spec fn cost_fn_ok<C: Fn(usize, Aabb, usize, Aabb) -> Scalar>(cost: C) -> bool {
    &&& forall|n: usize, l: Aabb, m: usize, r: Aabb| call_requires(cost, (n, l, m, r))
    &&& forall|n: usize, l: Aabb, m: usize, r: Aabb, a: Scalar, b: Scalar|
        call_ensures(cost, (n, l, m, r), a) && call_ensures(cost, (n, l, m, r), b) ==> a == b
}

/// The cost of splitting the run `[start, start + count)` so that the first
/// `i` triangles go left.
pub open spec fn split_cost<C: Fn(usize, Aabb, usize, Aabb) -> Scalar>(
    cost: C,
    tris: Seq<Triangle>,
    start: int,
    count: int,
    i: int,
) -> Scalar {
    cost_outcome(
        cost,
        i as usize,
        range_box(tris, start, i),
        (count - i) as usize,
        range_box(tris, start + i, count - i),
    )
}

/// `j` is the first position of the least number among `costs`.
pub open spec fn is_first_least(costs: Seq<Scalar>, j: int) -> bool {
    &&& 0 <= j < costs.len()
    &&& !costs[j].is_nan_spec()
    &&& forall|k: int|
        0 <= k < costs.len() && !(#[trigger] costs[k]).is_nan_spec() ==> costs[j].key()
            <= costs[k].key()
    &&& forall|k: int|
        0 <= k < j && !(#[trigger] costs[k]).is_nan_spec() ==> costs[j].key() < costs[k].key()
}

/// The position of the least cost, the first such position if several
/// costs are equal.  NaNs are passed over; `None` if every cost is a NaN.
pub fn min_cost_index(costs: &Vec<Scalar>) -> (r: Option<usize>)
    ensures
        match r {
            Some(j) => is_first_least(costs@, j as int),
            None => forall|k: int| 0 <= k < costs@.len() ==> (#[trigger] costs@[k]).is_nan_spec(),
        },
{
    let mut best: Option<usize> = None;
    let mut k: usize = 0;
    while k < costs.len()
        invariant
            k <= costs@.len(),
            match best {
                Some(j) => j < k && is_first_least(costs@.take(k as int), j as int),
                None => forall|i: int| 0 <= i < k ==> (#[trigger] costs@[i]).is_nan_spec(),
            },
        decreases costs@.len() - k,
    {
        let c = costs[k];
        let ghost before = costs@.take(k as int);
        let ghost after = costs@.take(k + 1);
        assert(forall|i: int| 0 <= i < k ==> before[i] == after[i]);
        assert(after[k as int] == c);
        if !c.is_nan() {
            match best {
                None => {
                    best = Some(k);
                },
                Some(j) => {
                    if c.lt(costs[j]) {
                        best = Some(k);
                    }
                },
            }
        }
        k += 1;
    }
    assert(costs@.take(costs@.len() as int) =~= costs@);
    best
}

/// The costs of the proper splits of a run, in order: position `j` holds the
/// cost of sending the first `j + 1` triangles left.
pub open spec fn candidate_costs<C: Fn(usize, Aabb, usize, Aabb) -> Scalar>(
    cost: C,
    tris: Seq<Triangle>,
    start: int,
    count: int,
) -> Seq<Scalar> {
    Seq::new((count - 1) as nat, |j: int| split_cost(cost, tris, start, count, j + 1))
}

/// `split` is the split that a build makes of the run
/// `[start, start + count)`: the proper split of least cost, the first of
/// them if several cost the same, and the middle of the run if no split has
/// a cost that is a number.
pub open spec fn is_best_split<C: Fn(usize, Aabb, usize, Aabb) -> Scalar>(
    cost: C,
    tris: Seq<Triangle>,
    start: int,
    count: int,
    split: int,
) -> bool {
    let costs = candidate_costs(cost, tris, start, count);
    if forall|k: int| 0 <= k < costs.len() ==> (#[trigger] costs[k]).is_nan_spec() {
        split == count / 2
    } else {
        is_first_least(costs, split - 1)
    }
}

/// Holds of every list.  The build relation names its sorted list through
/// this, so that a proof can point at the list it means.
pub open spec fn sorted_is(sorted: Seq<Triangle>) -> bool {
    true
}

/// Holds of every split, list and node index.  The build relation names an
/// interior node's split, the list between its two parts, and the first
/// node of its right part through this.
pub open spec fn split_is(split: int, mid: Seq<Triangle>, mid_end: int) -> bool {
    true
}

/// The axis along which a node sorts its run, from the state of the stream
/// that the node starts with: the next state, modulo three.
pub open spec fn axis_after(rng: u32) -> usize {
    (xor_shift_32_spec(rng) % 3) as usize
}

/// `sorted` is `before` with the run `[start, start + count)` rearranged
/// into ascending order of [`min_key`] along `axis`, and nothing else
/// changed.
pub open spec fn is_sorted_run(
    before: Seq<Triangle>,
    sorted: Seq<Triangle>,
    start: int,
    count: int,
    axis: usize,
) -> bool {
    &&& sorted.len() == before.len()
    &&& sorted.to_multiset() == before.to_multiset()
    &&& forall|i: int|
        0 <= i < start || start + count <= i < before.len() ==> sorted[i] == before[i]
    &&& forall|i: int, j: int|
        start <= i <= j < start + count ==> min_key(sorted[i], axis) <= min_key(sorted[j], axis)
}

/// The nodes `idx..end` are the subtree that a build makes of the run
/// `[start, start + count)`, starting from the list `before` and the state
/// `rng` of the stream, and `after` is the list as the build leaves it.
///
/// The build advances the stream by one state, sorts the run along the axis
/// that the new state gives, and goes on as [`built_sorted`] says.  Which of
/// several triangles with the same key comes first after sorting is not
/// laid down.
#[verifier::opaque]
pub open spec fn built<C: Fn(usize, Aabb, usize, Aabb) -> Scalar>(
    cost: C,
    before: Seq<Triangle>,
    after: Seq<Triangle>,
    nodes: Seq<BvhNode>,
    idx: int,
    end: int,
    start: int,
    count: int,
    rng: u32,
) -> bool
    decreases count, 1int,
{
    count >= 0 && exists|sorted: Seq<Triangle>|
        #[trigger] sorted_is(sorted) && is_sorted_run(
            before,
            sorted,
            start,
            count,
            axis_after(rng),
        ) && built_sorted(
            cost,
            sorted,
            after,
            nodes,
            idx,
            end,
            start,
            count,
            xor_shift_32_spec(rng),
        )
}

/// What a build makes of a run once it is sorted.  A run of at most
/// [`LEAF_SIZE`] triangles becomes the leaf `idx`, and the list stays as it
/// is.  A longer run is split at its best split; node `idx` is an interior
/// node, the left part's subtree follows it directly in the array, and the
/// right part's subtree follows the left's.  The right part is built from
/// the list and the state of the stream that the left part left behind.
#[verifier::opaque]
pub open spec fn built_sorted<C: Fn(usize, Aabb, usize, Aabb) -> Scalar>(
    cost: C,
    sorted: Seq<Triangle>,
    after: Seq<Triangle>,
    nodes: Seq<BvhNode>,
    idx: int,
    end: int,
    start: int,
    count: int,
    rng: u32,
) -> bool
    decreases count, 0int,
{
    &&& count >= 0
    &&& 0 <= idx < end <= nodes.len()
    &&& if count <= LEAF_SIZE {
        &&& end == idx + 1
        &&& after == sorted
        &&& nodes[idx] == (BvhNode {
            v: range_box(sorted, start, count),
            d1: start as usize,
            d2: count as usize,
            is_leaf: true,
        })
    } else {
        exists|split: int, mid: Seq<Triangle>, mid_end: int|
            {
                &&& #[trigger] split_is(split, mid, mid_end)
                &&& 1 <= split < count
                &&& idx + 1 < mid_end < end
                &&& is_best_split(cost, sorted, start, count, split)
                &&& built(cost, sorted, mid, nodes, idx + 1, mid_end, start, split, rng)
                &&& built(
                    cost,
                    mid,
                    after,
                    nodes,
                    mid_end,
                    end,
                    start + split,
                    count - split,
                    state_after(rng, (mid_end - idx - 1) as nat),
                )
                &&& nodes[idx] == (BvhNode {
                    v: nodes[idx + 1].v.union_spec(nodes[mid_end].v),
                    d1: (idx + 1) as usize,
                    d2: mid_end as usize,
                    is_leaf: false,
                })
            }
    }
}

/// A short run, once sorted, is built as a leaf.
pub proof fn lemma_built_leaf<C: Fn(usize, Aabb, usize, Aabb) -> Scalar>(
    cost: C,
    before: Seq<Triangle>,
    sorted: Seq<Triangle>,
    nodes: Seq<BvhNode>,
    idx: int,
    start: int,
    count: int,
    rng: u32,
)
    requires
        0 <= count <= LEAF_SIZE,
        0 <= idx < nodes.len(),
        is_sorted_run(before, sorted, start, count, axis_after(rng)),
        nodes[idx] == (BvhNode {
            v: range_box(sorted, start, count),
            d1: start as usize,
            d2: count as usize,
            is_leaf: true,
        }),
    ensures
        built(cost, before, sorted, nodes, idx, idx + 1, start, count, rng),
{
    reveal(built);
    reveal(built_sorted);
    assert(sorted_is(sorted));
}

/// A long run, once sorted, is built from the two parts of its best split.
pub proof fn lemma_built_interior<C: Fn(usize, Aabb, usize, Aabb) -> Scalar>(
    cost: C,
    before: Seq<Triangle>,
    sorted: Seq<Triangle>,
    mid: Seq<Triangle>,
    after: Seq<Triangle>,
    nodes: Seq<BvhNode>,
    idx: int,
    mid_end: int,
    end: int,
    start: int,
    split: int,
    count: int,
    rng: u32,
)
    requires
        count > LEAF_SIZE,
        1 <= split < count,
        0 <= idx,
        idx + 1 < mid_end < end <= nodes.len(),
        is_sorted_run(before, sorted, start, count, axis_after(rng)),
        is_best_split(cost, sorted, start, count, split),
        built(cost, sorted, mid, nodes, idx + 1, mid_end, start, split, xor_shift_32_spec(rng)),
        built(
            cost,
            mid,
            after,
            nodes,
            mid_end,
            end,
            start + split,
            count - split,
            state_after(xor_shift_32_spec(rng), (mid_end - idx - 1) as nat),
        ),
        nodes[idx] == (BvhNode {
            v: nodes[idx + 1].v.union_spec(nodes[mid_end].v),
            d1: (idx + 1) as usize,
            d2: mid_end as usize,
            is_leaf: false,
        }),
    ensures
        built(cost, before, after, nodes, idx, end, start, count, rng),
{
    assert(built_sorted(
        cost,
        sorted,
        after,
        nodes,
        idx,
        end,
        start,
        count,
        xor_shift_32_spec(rng),
    )) by {
        reveal(built);
        reveal(built_sorted);
        assert(split_is(split, mid, mid_end));
    }
    assert(built(cost, before, after, nodes, idx, end, start, count, rng)) by {
        reveal(built);
        reveal(built_sorted);
        assert(sorted_is(sorted));
    }
}

/// What a build makes of a short run: one leaf over the run, which it
/// leaves sorted.
pub proof fn lemma_built_short<C: Fn(usize, Aabb, usize, Aabb) -> Scalar>(
    cost: C,
    before: Seq<Triangle>,
    after: Seq<Triangle>,
    nodes: Seq<BvhNode>,
    idx: int,
    end: int,
    start: int,
    count: int,
    rng: u32,
)
    requires
        built(cost, before, after, nodes, idx, end, start, count, rng),
        count <= LEAF_SIZE,
    ensures
        0 <= count,
        0 <= idx < nodes.len(),
        end == idx + 1,
        is_sorted_run(before, after, start, count, axis_after(rng)),
        nodes[idx] == (BvhNode {
            v: range_box(after, start, count),
            d1: start as usize,
            d2: count as usize,
            is_leaf: true,
        }),
{
    reveal(built);
    reveal(built_sorted);
}

/// What a build makes of a long run.  The result names the list as the
/// build sorted it, the split it chose, the list as the left part's build
/// left it, and the node at which the right part's subtree begins.
pub proof fn lemma_built_long<C: Fn(usize, Aabb, usize, Aabb) -> Scalar>(
    cost: C,
    before: Seq<Triangle>,
    after: Seq<Triangle>,
    nodes: Seq<BvhNode>,
    idx: int,
    end: int,
    start: int,
    count: int,
    rng: u32,
) -> (parts: (Seq<Triangle>, int, Seq<Triangle>, int))
    requires
        built(cost, before, after, nodes, idx, end, start, count, rng),
        count > LEAF_SIZE,
    ensures
        ({
            let (sorted, split, mid, mid_end) = parts;
            &&& is_sorted_run(before, sorted, start, count, axis_after(rng))
            &&& 1 <= split < count
            &&& 0 <= idx
            &&& idx + 1 < mid_end < end <= nodes.len()
            &&& is_best_split(cost, sorted, start, count, split)
            &&& built(
                cost,
                sorted,
                mid,
                nodes,
                idx + 1,
                mid_end,
                start,
                split,
                xor_shift_32_spec(rng),
            )
            &&& built(
                cost,
                mid,
                after,
                nodes,
                mid_end,
                end,
                start + split,
                count - split,
                state_after(xor_shift_32_spec(rng), (mid_end - idx - 1) as nat),
            )
            &&& nodes[idx] == (BvhNode {
                v: nodes[idx + 1].v.union_spec(nodes[mid_end].v),
                d1: (idx + 1) as usize,
                d2: mid_end as usize,
                is_leaf: false,
            })
        }),
{
    reveal(built);
    reveal(built_sorted);
    let rng1 = xor_shift_32_spec(rng);
    let sorted = choose|sorted: Seq<Triangle>|
        #[trigger] sorted_is(sorted) && is_sorted_run(
            before,
            sorted,
            start,
            count,
            axis_after(rng),
        ) && built_sorted(cost, sorted, after, nodes, idx, end, start, count, rng1);
    let (split, mid, mid_end) = choose|split: int, mid: Seq<Triangle>, mid_end: int|
        {
            &&& #[trigger] split_is(split, mid, mid_end)
            &&& 1 <= split < count
            &&& idx + 1 < mid_end < end
            &&& is_best_split(cost, sorted, start, count, split)
            &&& built(cost, sorted, mid, nodes, idx + 1, mid_end, start, split, rng1)
            &&& built(
                cost,
                mid,
                after,
                nodes,
                mid_end,
                end,
                start + split,
                count - split,
                state_after(rng1, (mid_end - idx - 1) as nat),
            )
            &&& nodes[idx] == (BvhNode {
                v: nodes[idx + 1].v.union_spec(nodes[mid_end].v),
                d1: (idx + 1) as usize,
                d2: mid_end as usize,
                is_leaf: false,
            })
        };
    (sorted, split, mid, mid_end)
}

/// What a build has made depends on the nodes of its subtree alone: it
/// stays what the build made when nodes are appended or earlier nodes are
/// rewritten.
pub proof fn lemma_built_frame<C: Fn(usize, Aabb, usize, Aabb) -> Scalar>(
    cost: C,
    before: Seq<Triangle>,
    after: Seq<Triangle>,
    nodes: Seq<BvhNode>,
    nodes2: Seq<BvhNode>,
    idx: int,
    end: int,
    start: int,
    count: int,
    rng: u32,
)
    requires
        built(cost, before, after, nodes, idx, end, start, count, rng),
        end <= nodes2.len(),
        forall|j: int| idx <= j < end ==> nodes2[j] == nodes[j],
    ensures
        built(cost, before, after, nodes2, idx, end, start, count, rng),
    decreases count, 1int,
{
    reveal(built);
    reveal(built_sorted);
    let sorted = choose|sorted: Seq<Triangle>|
        #[trigger] sorted_is(sorted) && is_sorted_run(
            before,
            sorted,
            start,
            count,
            axis_after(rng),
        ) && built_sorted(
            cost,
            sorted,
            after,
            nodes,
            idx,
            end,
            start,
            count,
            xor_shift_32_spec(rng),
        );
    lemma_built_sorted_frame(
        cost,
        sorted,
        after,
        nodes,
        nodes2,
        idx,
        end,
        start,
        count,
        xor_shift_32_spec(rng),
    );
    assert(sorted_is(sorted));
}

/// The same for a run that is sorted already.
pub proof fn lemma_built_sorted_frame<C: Fn(usize, Aabb, usize, Aabb) -> Scalar>(
    cost: C,
    sorted: Seq<Triangle>,
    after: Seq<Triangle>,
    nodes: Seq<BvhNode>,
    nodes2: Seq<BvhNode>,
    idx: int,
    end: int,
    start: int,
    count: int,
    rng: u32,
)
    requires
        built_sorted(cost, sorted, after, nodes, idx, end, start, count, rng),
        end <= nodes2.len(),
        forall|j: int| idx <= j < end ==> nodes2[j] == nodes[j],
    ensures
        built_sorted(cost, sorted, after, nodes2, idx, end, start, count, rng),
    decreases count, 0int,
{
    reveal(built);
    reveal(built_sorted);
    if count > LEAF_SIZE {
        let (split, mid, mid_end) = choose|split: int, mid: Seq<Triangle>, mid_end: int|
            {
                &&& #[trigger] split_is(split, mid, mid_end)
                &&& 1 <= split < count
                &&& idx + 1 < mid_end < end
                &&& is_best_split(cost, sorted, start, count, split)
                &&& built(cost, sorted, mid, nodes, idx + 1, mid_end, start, split, rng)
                &&& built(
                    cost,
                    mid,
                    after,
                    nodes,
                    mid_end,
                    end,
                    start + split,
                    count - split,
                    state_after(rng, (mid_end - idx - 1) as nat),
                )
                &&& nodes[idx] == (BvhNode {
                    v: nodes[idx + 1].v.union_spec(nodes[mid_end].v),
                    d1: (idx + 1) as usize,
                    d2: mid_end as usize,
                    is_leaf: false,
                })
            };
        lemma_built_frame(cost, sorted, mid, nodes, nodes2, idx + 1, mid_end, start, split, rng);
        assert(split_is(split, mid, mid_end));
        lemma_built_frame(
            cost,
            mid,
            after,
            nodes,
            nodes2,
            mid_end,
            end,
            start + split,
            count - split,
            state_after(rng, (mid_end - idx - 1) as nat),
        );
    }
}

/// A run's box depends on the triangles of the run alone.
pub proof fn lemma_range_box_frame(a: Seq<Triangle>, b: Seq<Triangle>, start: int, count: int)
    requires
        forall|i: int| start <= i < start + count ==> a[i] == b[i],
    ensures
        range_box(a, start, count) == range_box(b, start, count),
    decreases count,
{
    if count > 0 {
        lemma_range_box_frame(a, b, start, count - 1);
    }
}

/// A well-formed subtree depends only on the nodes from its root onward and
/// on the triangles of its own run: appending nodes, rewriting earlier
/// nodes, or rearranging other triangles leaves it well-formed over the same
/// run.
pub proof fn lemma_subtree_frame(
    nodes: Seq<BvhNode>,
    tris: Seq<Triangle>,
    nodes2: Seq<BvhNode>,
    tris2: Seq<Triangle>,
    idx: int,
)
    requires
        subtree_ok(nodes, tris, idx),
        nodes.len() <= nodes2.len(),
        forall|j: int| idx <= j < nodes.len() ==> nodes2[j] == nodes[j],
        tris2.len() == tris.len(),
        forall|i: int|
            first_of(nodes, idx) <= i < first_of(nodes, idx) + count_of(nodes, idx) ==> tris2[i]
                == tris[i],
    ensures
        subtree_ok(nodes2, tris2, idx),
        first_of(nodes2, idx) == first_of(nodes, idx),
        count_of(nodes2, idx) == count_of(nodes, idx),
    decreases nodes.len() - idx,
{
    if nodes[idx].is_leaf {
        lemma_range_box_frame(tris, tris2, nodes[idx].d1 as int, nodes[idx].d2 as int);
    } else {
        let l = nodes[idx].d1 as int;
        let r = nodes[idx].d2 as int;
        lemma_subtree_frame(nodes, tris, nodes2, tris2, l);
        lemma_subtree_frame(nodes, tris, nodes2, tris2, r);
    }
}

/// A build rearranges the triangles of its own run and leaves the rest of
/// the list as it is.
pub proof fn lemma_built_stays_in_run<C: Fn(usize, Aabb, usize, Aabb) -> Scalar>(
    cost: C,
    before: Seq<Triangle>,
    after: Seq<Triangle>,
    nodes: Seq<BvhNode>,
    idx: int,
    end: int,
    start: int,
    count: int,
    rng: u32,
)
    requires
        built(cost, before, after, nodes, idx, end, start, count, rng),
    ensures
        after.len() == before.len(),
        after.to_multiset() == before.to_multiset(),
        forall|i: int| 0 <= i < start || start + count <= i < before.len() ==> after[i] == before[i],
    decreases count,
{
    if count <= LEAF_SIZE {
        lemma_built_short(cost, before, after, nodes, idx, end, start, count, rng);
    } else {
        let (sorted, split, mid, mid_end) = lemma_built_long(
            cost,
            before,
            after,
            nodes,
            idx,
            end,
            start,
            count,
            rng,
        );
        let rng1 = xor_shift_32_spec(rng);
        lemma_built_stays_in_run(cost, sorted, mid, nodes, idx + 1, mid_end, start, split, rng1);
        lemma_built_stays_in_run(
            cost,
            mid,
            after,
            nodes,
            mid_end,
            end,
            start + split,
            count - split,
            state_after(rng1, (mid_end - idx - 1) as nat),
        );
    }
}

/// What a build makes is a hierarchy over the list as the build leaves it,
/// and covers exactly the build's run.
pub proof fn lemma_built_is_hierarchy<C: Fn(usize, Aabb, usize, Aabb) -> Scalar>(
    cost: C,
    before: Seq<Triangle>,
    after: Seq<Triangle>,
    nodes: Seq<BvhNode>,
    idx: int,
    end: int,
    start: int,
    count: int,
    rng: u32,
)
    requires
        built(cost, before, after, nodes, idx, end, start, count, rng),
        0 <= start,
        start + count <= before.len() <= usize::MAX,
        nodes.len() <= usize::MAX,
    ensures
        subtree_ok(nodes, after, idx),
        first_of(nodes, idx) == start,
        count_of(nodes, idx) == count,
    decreases count,
{
    lemma_built_stays_in_run(cost, before, after, nodes, idx, end, start, count, rng);
    if count <= LEAF_SIZE {
        lemma_built_short(cost, before, after, nodes, idx, end, start, count, rng);
    } else {
        let (sorted, split, mid, mid_end) = lemma_built_long(
            cost,
            before,
            after,
            nodes,
            idx,
            end,
            start,
            count,
            rng,
        );
        let rng1 = xor_shift_32_spec(rng);
        let rng2 = state_after(rng1, (mid_end - idx - 1) as nat);
        lemma_built_stays_in_run(cost, sorted, mid, nodes, idx + 1, mid_end, start, split, rng1);
        lemma_built_stays_in_run(
            cost,
            mid,
            after,
            nodes,
            mid_end,
            end,
            start + split,
            count - split,
            rng2,
        );
        lemma_built_is_hierarchy(cost, sorted, mid, nodes, idx + 1, mid_end, start, split, rng1);
        lemma_built_is_hierarchy(
            cost,
            mid,
            after,
            nodes,
            mid_end,
            end,
            start + split,
            count - split,
            rng2,
        );
        lemma_subtree_frame(nodes, mid, nodes, after, idx + 1);
    }
}

/// The outcome of searching the subtree at `idx`, starting with the far end
/// of the window at `tmax`: the hit accepted last and the far end of the
/// window afterwards.
///
/// A node whose box fails the box test on the current window is passed over
/// with all that lies beneath it.  A leaf is searched triangle by triangle.
/// An interior node is searched left child first, then the right child with
/// the window that the left child left; with `any` set the right child is
/// not searched once the left has a hit.
pub open spec fn walk(
    nodes: Seq<BvhNode>,
    prim: spec_fn(int, Scalar) -> Option<Hit>,
    boxt: spec_fn(Aabb, Scalar) -> bool,
    any: bool,
    idx: int,
    tmax: Scalar,
) -> (Option<Hit>, Scalar)
    decreases nodes.len() - idx,
{
    if !(0 <= idx < nodes.len()) {
        (None, tmax)
    } else if !boxt(nodes[idx].v, tmax) {
        (None, tmax)
    } else if nodes[idx].is_leaf {
        scan(prim, any, nodes[idx].d1 as int, nodes[idx].d1 + nodes[idx].d2, tmax)
    } else if !children_follow(nodes, idx) {
        (None, tmax)
    } else {
        let left = walk(nodes, prim, boxt, any, nodes[idx].d1 as int, tmax);
        if any && left.0.is_some() {
            left
        } else {
            let right = walk(nodes, prim, boxt, any, nodes[idx].d2 as int, left.1);
            (later(left.0, right.0), right.1)
        }
    }
}

/// Node `j` is the node `root` or lies beneath it.
pub open spec fn beneath(nodes: Seq<BvhNode>, root: int, j: int) -> bool
    decreases nodes.len() - root,
{
    if !(0 <= root < nodes.len()) {
        false
    } else if root == j {
        true
    } else if nodes[root].is_leaf || !children_follow(nodes, root) {
        false
    } else {
        beneath(nodes, nodes[root].d1 as int, j) || beneath(nodes, nodes[root].d2 as int, j)
    }
}

/// Every triangle of the list is free of NaNs.
pub open spec fn all_numeric(tris: Seq<Triangle>) -> bool {
    forall|i: int| 0 <= i < tris.len() ==> (#[trigger] tris[i]).is_numeric()
}

/// The box test never rejects a box around a triangle that the triangle
/// test would accept on the same window.
pub open spec fn box_test_is_safe(
    tris: Seq<Triangle>,
    prim: spec_fn(int, Scalar) -> Option<Hit>,
    boxt: spec_fn(Aabb, Scalar) -> bool,
) -> bool {
    forall|aabb: Aabb, i: int, tmax: Scalar|
        #![trigger boxt(aabb, tmax), prim(i, tmax)]
        0 <= i < tris.len() && aabb.encloses(tris[i].bounds()) && !boxt(aabb, tmax) ==> prim(
            i,
            tmax,
        ).is_none()
}

/// A well-formed subtree's run lies within the triangle list.
pub proof fn lemma_subtree_run(nodes: Seq<BvhNode>, tris: Seq<Triangle>, idx: int)
    requires
        subtree_ok(nodes, tris, idx),
    ensures
        0 <= first_of(nodes, idx),
        0 <= count_of(nodes, idx),
        first_of(nodes, idx) + count_of(nodes, idx) <= tris.len(),
    decreases nodes.len() - idx,
{
    if !nodes[idx].is_leaf {
        lemma_subtree_run(nodes, tris, nodes[idx].d1 as int);
        lemma_subtree_run(nodes, tris, nodes[idx].d2 as int);
    }
}

/// In a well-formed subtree every node is the root of a well-formed
/// subtree; in particular every leaf in it holds at most [`LEAF_SIZE`]
/// triangles, and its run lies within the run of the subtree's root.
pub proof fn lemma_beneath_ok(nodes: Seq<BvhNode>, tris: Seq<Triangle>, root: int, j: int)
    requires
        subtree_ok(nodes, tris, root),
        beneath(nodes, root, j),
    ensures
        subtree_ok(nodes, tris, j),
        nodes[j].is_leaf ==> count_of(nodes, j) <= LEAF_SIZE,
        first_of(nodes, root) <= first_of(nodes, j),
        first_of(nodes, j) + count_of(nodes, j) <= first_of(nodes, root) + count_of(nodes, root),
    decreases nodes.len() - root,
{
    if root != j {
        let l = nodes[root].d1 as int;
        let r = nodes[root].d2 as int;
        lemma_subtree_run(nodes, tris, l);
        lemma_subtree_run(nodes, tris, r);
        if beneath(nodes, l, j) {
            lemma_beneath_ok(nodes, tris, l, j);
        } else {
            lemma_beneath_ok(nodes, tris, r, j);
        }
    }
}

/// The box of a run of triangles encloses the box of each of them.
pub proof fn lemma_range_box_encloses(tris: Seq<Triangle>, start: int, count: int)
    requires
        0 <= start,
        start + count <= tris.len(),
        all_numeric(tris),
    ensures
        range_box(tris, start, count).is_numeric(),
        forall|i: int|
            start <= i < start + count ==> range_box(tris, start, count).encloses(
                (#[trigger] tris[i]).bounds(),
            ),
    decreases count,
{
    crate::scalar::lemma_infinity_keys();
    if count > 0 {
        lemma_range_box_encloses(tris, start, count - 1);
        let rest = range_box(tris, start, count - 1);
        let last = tris[start + count - 1];
        assert(last.is_numeric());
        assert(last.bounds().is_numeric());
        lemma_union_encloses(rest, last.bounds());
        let whole = range_box(tris, start, count);
        assert forall|i: int| start <= i < start + count implies whole.encloses(
            (#[trigger] tris[i]).bounds(),
        ) by {
            if i < start + count - 1 {
                assert(tris[i].is_numeric());
                assert(tris[i].bounds().is_numeric());
                lemma_encloses_transitive(whole, rest, tris[i].bounds());
            }
        }
    }
}

/// In a well-formed subtree over triangles without NaNs, the root's box
/// encloses the box of every triangle of its run, and so contains all of
/// their vertices.
pub proof fn lemma_node_encloses(nodes: Seq<BvhNode>, tris: Seq<Triangle>, idx: int)
    requires
        subtree_ok(nodes, tris, idx),
        all_numeric(tris),
    ensures
        nodes[idx].v.is_numeric(),
        forall|i: int|
            first_of(nodes, idx) <= i < first_of(nodes, idx) + count_of(nodes, idx)
                ==> nodes[idx].v.encloses((#[trigger] tris[i]).bounds()),
    decreases nodes.len() - idx,
{
    lemma_subtree_run(nodes, tris, idx);
    if nodes[idx].is_leaf {
        lemma_range_box_encloses(tris, nodes[idx].d1 as int, nodes[idx].d2 as int);
    } else {
        let l = nodes[idx].d1 as int;
        let r = nodes[idx].d2 as int;
        lemma_node_encloses(nodes, tris, l);
        lemma_node_encloses(nodes, tris, r);
        lemma_subtree_run(nodes, tris, l);
        lemma_subtree_run(nodes, tris, r);
        lemma_union_encloses(nodes[l].v, nodes[r].v);
        assert forall|i: int|
            first_of(nodes, idx) <= i < first_of(nodes, idx) + count_of(nodes, idx) implies nodes[idx].v.encloses(
            (#[trigger] tris[i]).bounds(),
        ) by {
            assert(tris[i].is_numeric());
            assert(tris[i].bounds().is_numeric());
            if i < first_of(nodes, r) {
                lemma_encloses_transitive(nodes[idx].v, nodes[l].v, tris[i].bounds());
            } else {
                lemma_encloses_transitive(nodes[idx].v, nodes[r].v, tris[i].bounds());
            }
        }
    }
}

/// The box of a triangle contains the triangle's three vertices.
pub proof fn lemma_bounds_hold_vertices(tri: Triangle, k: int)
    requires
        tri.is_numeric(),
        0 <= k < 3,
    ensures
        tri.bounds().is_numeric(),
        !tri.bounds().is_empty_spec(),
        tri.bounds().contain_spec(tri.vertices[k]),
{
    crate::scalar::lemma_infinity_keys();
    let one = Aabb::empty_spec().extend_spec(tri.vertices[0]);
    let two = one.extend_spec(tri.vertices[1]);
    lemma_extend_contains_point(Aabb::empty_spec(), tri.vertices[0]);
    lemma_extend_contains_point(one, tri.vertices[1]);
    lemma_extend_contains_point(two, tri.vertices[2]);
    lemma_extend_keeps_points(one, tri.vertices[1], tri.vertices[0]);
    lemma_extend_keeps_points(two, tri.vertices[2], tri.vertices[0]);
    lemma_extend_keeps_points(two, tri.vertices[2], tri.vertices[1]);
}

/// In a hierarchy over triangles without NaNs, every leaf holds at most
/// [`LEAF_SIZE`] triangles, and the box of every node encloses the box of
/// every triangle beneath the node and contains the triangle's vertices.
pub proof fn lemma_hierarchy_bounds(bvh: Bvh, tris: Seq<Triangle>, j: int, i: int, k: int)
    requires
        bvh.wf(tris),
        all_numeric(tris),
        beneath(bvh.nodes@, 0, j),
        first_of(bvh.nodes@, j) <= i < first_of(bvh.nodes@, j) + count_of(bvh.nodes@, j),
        0 <= k < 3,
    ensures
        0 <= j < bvh.nodes@.len(),
        0 <= i < tris.len(),
        bvh.nodes@[j].is_leaf ==> count_of(bvh.nodes@, j) <= LEAF_SIZE,
        bvh.nodes@[j].v.encloses(tris[i].bounds()),
        bvh.nodes@[j].v.contain_spec(tris[i].vertices[k]),
{
    lemma_beneath_ok(bvh.nodes@, tris, 0, j);
    lemma_subtree_run(bvh.nodes@, tris, j);
    lemma_node_encloses(bvh.nodes@, tris, j);
    assert(tris[i].is_numeric());
    lemma_bounds_hold_vertices(tris[i], k);
    lemma_encloses_contains(bvh.nodes@[j].v, tris[i].bounds(), tris[i].vertices[k]);
}

/// Searching a well-formed subtree gives what searching its run of
/// triangles one by one gives, hit and window alike, provided the box test
/// is safe: passing over a node loses no hit.
pub proof fn lemma_walk_is_scan(
    nodes: Seq<BvhNode>,
    tris: Seq<Triangle>,
    prim: spec_fn(int, Scalar) -> Option<Hit>,
    boxt: spec_fn(Aabb, Scalar) -> bool,
    any: bool,
    idx: int,
    tmax: Scalar,
)
    requires
        subtree_ok(nodes, tris, idx),
        all_numeric(tris),
        box_test_is_safe(tris, prim, boxt),
    ensures
        walk(nodes, prim, boxt, any, idx, tmax) == scan(
            prim,
            any,
            first_of(nodes, idx),
            first_of(nodes, idx) + count_of(nodes, idx),
            tmax,
        ),
    decreases nodes.len() - idx,
{
    let lo = first_of(nodes, idx);
    let hi = lo + count_of(nodes, idx);
    lemma_subtree_run(nodes, tris, idx);
    if !boxt(nodes[idx].v, tmax) {
        lemma_node_encloses(nodes, tris, idx);
        assert forall|i: int| lo <= i < hi implies (#[trigger] prim(i, tmax)).is_none() by {
            assert(nodes[idx].v.encloses(tris[i].bounds()));
        }
        lemma_scan_all_miss(prim, any, lo, hi, tmax);
    } else if !nodes[idx].is_leaf {
        let l = nodes[idx].d1 as int;
        let r = nodes[idx].d2 as int;
        lemma_subtree_run(nodes, tris, l);
        lemma_subtree_run(nodes, tris, r);
        lemma_walk_is_scan(nodes, tris, prim, boxt, any, l, tmax);
        let left = walk(nodes, prim, boxt, any, l, tmax);
        lemma_walk_is_scan(nodes, tris, prim, boxt, any, r, left.1);
        lemma_scan_split(prim, any, lo, first_of(nodes, r), hi, tmax);
    }
}

impl Bvh {
    /// The tree is a hierarchy over exactly the list `tris`: well-formed
    /// from the root down, and the root covers the whole list.
    pub open spec fn wf(&self, tris: Seq<Triangle>) -> bool {
        &&& subtree_ok(self.nodes@, tris, 0)
        &&& first_of(self.nodes@, 0) == 0
        &&& count_of(self.nodes@, 0) == tris.len()
    }

    /// Orders two triangles by their least coordinate on axis `idx`.
    pub fn order_triangle(a: &Triangle, b: &Triangle, idx: usize) -> (r: Ordering)
        requires
            idx < 3,
        ensures
            r == Ordering::Less <==> min_key(*a, idx) < min_key(*b, idx),
            r == Ordering::Equal <==> min_key(*a, idx) == min_key(*b, idx),
            r == Ordering::Greater <==> min_key(*a, idx) > min_key(*b, idx),
    {
        let a_min = a.min_on(idx);
        let b_min = b.min_on(idx);
        if a_min.lt(b_min) {
            Ordering::Less
        } else if b_min.lt(a_min) {
            Ordering::Greater
        } else {
            Ordering::Equal
        }
    }

    /// The smallest box around a triangle's vertices.
    pub fn triangle_aabb(triangle: &Triangle) -> (r: Aabb)
        ensures
            r == triangle.bounds(),
    {
        let mut aabb = Aabb::empty();
        let mut k: usize = 0;
        while k < 3
            invariant
                k <= 3,
                k == 0 ==> aabb == Aabb::empty_spec(),
                k == 1 ==> aabb == Aabb::empty_spec().extend_spec(triangle.vertices[0]),
                k == 2 ==> aabb == Aabb::empty_spec().extend_spec(triangle.vertices[0]).extend_spec(
                    triangle.vertices[1],
                ),
                k == 3 ==> aabb == triangle.bounds(),
            decreases 3 - k,
        {
            aabb = aabb.extend(&triangle.vertices[k]);
            k += 1;
        }
        aabb
    }

    /// The union of the boxes of the triangles in `[start, start + count)`.
    pub fn range_aabb(triangle_list: &Vec<Triangle>, start: usize, count: usize) -> (r: Aabb)
        requires
            start + count <= triangle_list@.len(),
        ensures
            r == range_box(triangle_list@, start as int, count as int),
    {
        let len = triangle_list.len();
        let mut aabb = Aabb::empty();
        let mut k: usize = 0;
        while k < count
            invariant
                k <= count,
                start + count <= len,
                len == triangle_list@.len(),
                aabb == range_box(triangle_list@, start as int, k as int),
            decreases count - k,
        {
            aabb = Aabb::union(&aabb, &Bvh::triangle_aabb(&triangle_list[start + k]));
            k += 1;
        }
        aabb
    }

    /// Sorts the run `[start, start + count)` of the list by
    /// [`Bvh::order_triangle`] on axis `idx`, with the standard library's
    /// `sort_unstable_by` on that sub-slice.  The sort rearranges the run in
    /// place into ascending order and may reorder triangles that compare
    /// equal; it touches nothing outside the run.
    #[verifier::external_body]
    fn sort_range(triangle_list: &mut Vec<Triangle>, start: usize, count: usize, idx: usize)
        requires
            start + count <= old(triangle_list)@.len(),
            idx < 3,
        ensures
            final(triangle_list)@.len() == old(triangle_list)@.len(),
            final(triangle_list)@.to_multiset() == old(triangle_list)@.to_multiset(),
            forall|i: int|
                0 <= i < start || start + count <= i < old(triangle_list)@.len()
                    ==> final(triangle_list)@[i] == old(triangle_list)@[i],
            forall|i: int, j: int|
                start <= i <= j < start + count ==> min_key(final(triangle_list)@[i], idx)
                    <= min_key(final(triangle_list)@[j], idx),
    {
        triangle_list[start..start + count].sort_unstable_by(
            |a, b| Bvh::order_triangle(a, b, idx),
        );
    }

    /// Chooses where to split the run `[start, start + count)`: asks `cost`
    /// for the cost of every proper split, in order, and takes the cheapest.
    /// The two splits that leave one side empty are no candidates: they
    /// would not shorten the run.
    pub fn choose_split<C: Fn(usize, Aabb, usize, Aabb) -> Scalar>(
        triangle_list: &Vec<Triangle>,
        start: usize,
        count: usize,
        cost: &C,
    ) -> (split: usize)
        requires
            cost_fn_ok(*cost),
            count >= 2,
            start + count <= triangle_list@.len(),
        ensures
            1 <= split < count,
            is_best_split(*cost, triangle_list@, start as int, count as int, split as int),
    {
        let len = triangle_list.len();
        let ghost wanted = candidate_costs(*cost, triangle_list@, start as int, count as int);
        let mut costs: Vec<Scalar> = Vec::with_capacity(count - 1);
        let mut i: usize = 1;
        while i < count
            invariant
                1 <= i <= count,
                start + count <= len,
                len == triangle_list@.len(),
                cost_fn_ok(*cost),
                wanted == candidate_costs(*cost, triangle_list@, start as int, count as int),
                costs@.len() == i - 1,
                forall|j: int| 0 <= j < i - 1 ==> costs@[j] == wanted[j],
            decreases count - i,
        {
            let left = Bvh::range_aabb(triangle_list, start, i);
            let right = Bvh::range_aabb(triangle_list, start + i, count - i);
            let c = cost(i, left, count - i, right);
            assert(c == split_cost(*cost, triangle_list@, start as int, count as int, i as int));
            costs.push(c);
            i += 1;
        }
        assert(costs@ =~= wanted);
        match min_cost_index(&costs) {
            Some(j) => j + 1,
            None => count / 2,
        }
    }

    /// Builds the subtree over the run `[tri_start, tri_start + tri_count)`
    /// and returns the index of its root, which is the first node it
    /// appends.  Each node advances the stream by one step and takes its
    /// axis from the new state; the run is sorted along that axis, and then
    /// either becomes a leaf or is split at [`Bvh::choose_split`].
    fn create_impl<C: Fn(usize, Aabb, usize, Aabb) -> Scalar>(
        tri_start: usize,
        tri_count: usize,
        triangle_list: &mut Vec<Triangle>,
        bvh: &mut Vec<BvhNode>,
        rng: &mut u32,
        cost: &C,
    ) -> (node_idx: usize)
        requires
            cost_fn_ok(*cost),
            tri_start + tri_count <= old(triangle_list)@.len(),
        ensures
            node_idx == old(bvh)@.len(),
            final(bvh)@.len() > old(bvh)@.len(),
            forall|j: int| 0 <= j < old(bvh)@.len() ==> final(bvh)@[j] == old(bvh)@[j],
            final(triangle_list)@.len() == old(triangle_list)@.len(),
            final(triangle_list)@.to_multiset() == old(triangle_list)@.to_multiset(),
            forall|i: int|
                0 <= i < tri_start || tri_start + tri_count <= i < old(triangle_list)@.len()
                    ==> final(triangle_list)@[i] == old(triangle_list)@[i],
            subtree_ok(final(bvh)@, final(triangle_list)@, node_idx as int),
            first_of(final(bvh)@, node_idx as int) == tri_start,
            count_of(final(bvh)@, node_idx as int) == tri_count,
            *final(rng) == state_after(*old(rng), (final(bvh)@.len() - old(bvh)@.len()) as nat),
            built(
                *cost,
                old(triangle_list)@,
                final(triangle_list)@,
                final(bvh)@,
                node_idx as int,
                final(bvh)@.len() as int,
                tri_start as int,
                tri_count as int,
                *old(rng),
            ),
        decreases tri_count,
    {
        let ghost rng0 = *rng;
        let ghost tris0 = triangle_list@;
        let len = triangle_list.len();
        assert(tri_start + tri_count <= len);
        *rng = xor_shift_32(*rng);
        let idx = (*rng % 3) as usize;
        let ghost rng1 = *rng;
        proof {
            reveal_with_fuel(state_after, 2);
        }

        Bvh::sort_range(triangle_list, tri_start, tri_count, idx);
        let ghost sorted = triangle_list@;
        assert(is_sorted_run(tris0, sorted, tri_start as int, tri_count as int, axis_after(rng0)));

        let node_idx = bvh.len();
        bvh.push(
            BvhNode { v: Aabb::empty(), d1: usize::MAX, d2: usize::MAX, is_leaf: false },
        );
        let mut node = BvhNode {
            v: Aabb::empty(),
            d1: usize::MAX,
            d2: usize::MAX,
            is_leaf: false,
        };
        if tri_count <= LEAF_SIZE {
            node.d1 = tri_start;
            node.d2 = tri_count;
            node.is_leaf = true;
            node.v = Bvh::range_aabb(triangle_list, tri_start, tri_count);
            bvh.set(node_idx, node);
            proof {
                lemma_built_leaf(
                    *cost,
                    tris0,
                    sorted,
                    bvh@,
                    node_idx as int,
                    tri_start as int,
                    tri_count as int,
                    rng0,
                );
            }
        } else {
            let split_idx = Bvh::choose_split(triangle_list, tri_start, tri_count, cost);
            let ghost nodes_a = bvh@;
            node.d1 = Bvh::create_impl(tri_start, split_idx, triangle_list, bvh, rng, cost);
            let ghost tris_b = triangle_list@;
            let ghost nodes_b = bvh@;
            node.d2 = Bvh::create_impl(
                tri_start + split_idx,
                tri_count - split_idx,
                triangle_list,
                bvh,
                rng,
                cost,
            );
            let ghost tris_c = triangle_list@;
            let ghost nodes_c = bvh@;
            node.is_leaf = false;
            node.v = Aabb::union(&bvh[node.d1].v, &bvh[node.d2].v);
            bvh.set(node_idx, node);
            proof {
                let l = node.d1 as int;
                let r = node.d2 as int;
                lemma_subtree_frame(nodes_b, tris_b, nodes_c, tris_c, l);
                lemma_subtree_frame(nodes_c, tris_c, bvh@, tris_c, l);
                lemma_subtree_frame(nodes_c, tris_c, bvh@, tris_c, r);
                crate::random::lemma_state_after_adds(
                    rng0,
                    1,
                    (nodes_b.len() - nodes_a.len()) as nat,
                );
                crate::random::lemma_state_after_adds(
                    rng0,
                    (1 + nodes_b.len() - nodes_a.len()) as nat,
                    (nodes_c.len() - nodes_b.len()) as nat,
                );
                lemma_built_frame(
                    *cost,
                    sorted,
                    tris_b,
                    nodes_b,
                    bvh@,
                    l,
                    r,
                    tri_start as int,
                    split_idx as int,
                    rng1,
                );
                lemma_built_frame(
                    *cost,
                    tris_b,
                    tris_c,
                    nodes_c,
                    bvh@,
                    r,
                    nodes_c.len() as int,
                    tri_start + split_idx,
                    tri_count - split_idx,
                    state_after(rng1, (r - node_idx - 1) as nat),
                );
                lemma_built_interior(
                    *cost,
                    tris0,
                    sorted,
                    tris_b,
                    tris_c,
                    bvh@,
                    node_idx as int,
                    r,
                    bvh@.len() as int,
                    tri_start as int,
                    split_idx as int,
                    tri_count as int,
                    rng0,
                );
            }
        }
        node_idx
    }

    /// Builds the hierarchy over `triangle_list`, rearranging the list so
    /// that every leaf's triangles are consecutive.  `cost` prices a
    /// candidate split from the number of triangles and the box on either
    /// side.  An empty list yields a single empty leaf.
    pub fn create<C: Fn(usize, Aabb, usize, Aabb) -> Scalar>(
        triangle_list: &mut Vec<Triangle>,
        cost: &C,
    ) -> (bvh: Bvh)
        requires
            cost_fn_ok(*cost),
        ensures
            bvh.wf(final(triangle_list)@),
            final(triangle_list)@.to_multiset() == old(triangle_list)@.to_multiset(),
            built(
                *cost,
                old(triangle_list)@,
                final(triangle_list)@,
                bvh.nodes@,
                0,
                bvh.nodes@.len() as int,
                0,
                old(triangle_list)@.len() as int,
                BUILD_SEED,
            ),
    {
        let mut bvh: Vec<BvhNode> = Vec::new();
        let mut rng: u32 = BUILD_SEED;
        let count = triangle_list.len();
        Bvh::create_impl(0, count, triangle_list, &mut bvh, &mut rng, cost);
        Bvh { nodes: bvh }
    }

    /// Searches the subtree at `idx` and returns the hit accepted last;
    /// `tmax` is narrowed to its distance.
    fn intersect_impl<
        R,
        B: Fn(Aabb, &R, Scalar, Scalar) -> bool,
        T: Fn(Triangle, &R, Scalar, Scalar) -> Option<Hit>,
    >(
        &self,
        idx: usize,
        ray: &R,
        tmin: Scalar,
        tmax: &mut Scalar,
        hit_type: HitType,
        triangles: &Vec<Triangle>,
        box_test: &B,
        tri_test: &T,
    ) -> (hit: Option<Hit>)
        requires
            subtree_ok(self.nodes@, triangles@, idx as int),
            box_test_ok(*box_test),
            triangle_test_ok(*tri_test),
        ensures
            (hit, *final(tmax)) == walk(
                self.nodes@,
                triangle_oracle(*tri_test, triangles@, *ray, tmin),
                box_oracle(*box_test, *ray, tmin),
                stops_early(hit_type),
                idx as int,
                *old(tmax),
            ),
        decreases self.nodes@.len() - idx,
    {
        let node = self.nodes[idx];
        if !box_test(node.v, ray, tmin, *tmax) {
            return None;
        }
        if node.is_leaf {
            let len = triangles.len();
            assert(node.d1 + node.d2 <= len);
            scan_triangles(
                triangles,
                node.d1,
                node.d1 + node.d2,
                ray,
                tmin,
                tmax,
                hit_type,
                tri_test,
            )
        } else {
            let left_hit = self.intersect_impl(
                node.d1,
                ray,
                tmin,
                tmax,
                hit_type,
                triangles,
                box_test,
                tri_test,
            );
            if hit_type == HitType::Any && left_hit.is_some() {
                return left_hit;
            }
            let right_hit = self.intersect_impl(
                node.d2,
                ray,
                tmin,
                tmax,
                hit_type,
                triangles,
                box_test,
                tri_test,
            );
            if right_hit.is_some() {
                right_hit
            } else {
                left_hit
            }
        }
    }

    /// Searches the whole hierarchy for the surface that `ray` meets in the
    /// window `[tmin, tmax]`: the nearest for [`HitType::Closest`], the
    /// first one found for [`HitType::Any`].  `triangles` is the list the
    /// hierarchy was built over, in the order the build left it in.
    pub fn intersect<
        R,
        B: Fn(Aabb, &R, Scalar, Scalar) -> bool,
        T: Fn(Triangle, &R, Scalar, Scalar) -> Option<Hit>,
    >(
        &self,
        ray: &R,
        tmin: Scalar,
        tmax: Scalar,
        hit_type: HitType,
        triangles: &Vec<Triangle>,
        box_test: &B,
        tri_test: &T,
    ) -> (hit: Option<Hit>)
        requires
            self.wf(triangles@),
            box_test_ok(*box_test),
            triangle_test_ok(*tri_test),
        ensures
            hit == walk(
                self.nodes@,
                triangle_oracle(*tri_test, triangles@, *ray, tmin),
                box_oracle(*box_test, *ray, tmin),
                stops_early(hit_type),
                0,
                tmax,
            ).0,
            all_numeric(triangles@) && box_test_is_safe(
                triangles@,
                triangle_oracle(*tri_test, triangles@, *ray, tmin),
                box_oracle(*box_test, *ray, tmin),
            ) ==> hit == scan(
                triangle_oracle(*tri_test, triangles@, *ray, tmin),
                stops_early(hit_type),
                0,
                triangles@.len() as int,
                tmax,
            ).0,
    {
        let mut local_tmax = tmax;
        proof {
            let prim = triangle_oracle(*tri_test, triangles@, *ray, tmin);
            let boxt = box_oracle(*box_test, *ray, tmin);
            if all_numeric(triangles@) && box_test_is_safe(triangles@, prim, boxt) {
                lemma_walk_is_scan(
                    self.nodes@,
                    triangles@,
                    prim,
                    boxt,
                    stops_early(hit_type),
                    0,
                    tmax,
                );
            }
        }
        self.intersect_impl(
            0,
            ray,
            tmin,
            &mut local_tmax,
            hit_type,
            triangles,
            box_test,
            tri_test,
        )
    }

    /// Whether the tree is a hierarchy over the list `triangles`.  Every
    /// node is looked at once, the last first, so that a node's children are
    /// judged before the node.
    pub fn is_hierarchy_over(&self, triangles: &Vec<Triangle>) -> (r: bool)
        ensures
            r == self.wf(triangles@),
    {
        let n = self.nodes.len();
        let len = triangles.len();
        if n == 0 {
            return false;
        }
        let mut ok: Vec<bool> = Vec::new();
        let mut first: Vec<usize> = Vec::new();
        let mut count: Vec<usize> = Vec::new();
        let mut fill: usize = 0;
        while fill < n
            invariant
                fill <= n,
                ok@.len() == fill,
                first@.len() == fill,
                count@.len() == fill,
            decreases n - fill,
        {
            ok.push(false);
            first.push(0);
            count.push(0);
            fill += 1;
        }
        let mut idx: usize = n;
        while idx > 0
            invariant
                idx <= n,
                n == self.nodes@.len(),
                len == triangles@.len(),
                ok@.len() == n,
                first@.len() == n,
                count@.len() == n,
                forall|j: int|
                    idx <= j < n ==> (#[trigger] ok@[j]) == subtree_ok(self.nodes@, triangles@, j),
                forall|j: int|
                    idx <= j < n && ok@[j] ==> (#[trigger] first@[j]) == first_of(self.nodes@, j),
                forall|j: int|
                    idx <= j < n && ok@[j] ==> (#[trigger] count@[j]) == count_of(self.nodes@, j),
            decreases idx,
        {
            idx -= 1;
            let node = self.nodes[idx];
            let mut good = false;
            let mut start: usize = 0;
            let mut size: usize = 0;
            if node.is_leaf {
                if node.d2 <= LEAF_SIZE && node.d1 <= len && node.d2 <= len - node.d1 {
                    let expected = Bvh::range_aabb(triangles, node.d1, node.d2);
                    if node.v.same_bits(&expected) {
                        good = true;
                        start = node.d1;
                        size = node.d2;
                    }
                }
            } else if idx < node.d1 && node.d1 < n && idx < node.d2 && node.d2 < n {
                if ok[node.d1] && ok[node.d2] {
                    proof {
                        lemma_subtree_run(self.nodes@, triangles@, node.d1 as int);
                        lemma_subtree_run(self.nodes@, triangles@, node.d2 as int);
                    }
                    let left_first = first[node.d1];
                    let left_count = count[node.d1];
                    let right_first = first[node.d2];
                    let right_count = count[node.d2];
                    if left_count > 0 && right_count > 0 && left_first + left_count == right_first {
                        let expected = Aabb::union(&self.nodes[node.d1].v, &self.nodes[node.d2].v);
                        if node.v.same_bits(&expected) {
                            good = true;
                            start = left_first;
                            size = left_count + right_count;
                        }
                    }
                }
            }
            ok.set(idx, good);
            first.set(idx, start);
            count.set(idx, size);
        }
        ok[0] && first[0] == 0 && count[0] == len
    }
}

} // verus!
