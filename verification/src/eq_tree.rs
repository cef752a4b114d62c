//! The binary tree of equality-polynomial evaluations.
//!
//! The tree for a point `x` of length `d` has `2^(d+1) - 1` nodes stored
//! level by level: the root is `1`, and the node at level `i`, position `j`
//! fans out to the children `v * (1 - x_i)` and `v * x_i`, where the
//! coordinates are taken in reverse order, so that the leaves list the
//! equality-polynomial evaluations with coordinate `0` varying slowest.
//! Within a level the left children of the whole level come first, then the
//! right children.

use vstd::prelude::*;
use vstd::arithmetic::power2::pow2;
use crate::field::{fmul, fsub, fr_ord};
use crate::scalar::{Scalar, views};
use crate::FoldError;

verus! {

/// The reversal of a sequence.
pub open spec fn rev(s: Seq<int>) -> Seq<int> {
    Seq::new(s.len(), |i: int| s[s.len() - 1 - i])
}

/// The node of the level-by-level layout at level `i`, position `j`.
pub open spec fn node_at(nodes: Seq<int>, i: nat, j: nat) -> int {
    nodes[pow2(i) - 1 + j]
}

/// The value the equality tree for (already reversed) point `x` holds at
/// level `i`, position `j`: positions below `2^(i-1)` are left children.
pub open spec fn eq_node(x: Seq<int>, i: nat, j: nat) -> int
    decreases i,
{
    if i == 0 {
        1
    } else if j < pow2((i - 1) as nat) {
        fmul(fr_ord(), eq_node(x, (i - 1) as nat, j), fsub(fr_ord(), 1, x[i - 1]))
    } else {
        fmul(fr_ord(), eq_node(x, (i - 1) as nat, (j - pow2((i - 1) as nat)) as nat), x[i - 1])
    }
}

/// The node-wise residual of `nodes` against the tree that (already
/// reversed) point `x` would generate from the same parents: the root
/// residual is zero, and each child's residual subtracts the parent value
/// times the branch weight drawn from `x`.
pub open spec fn diff_node(nodes: Seq<int>, x: Seq<int>, i: nat, j: nat) -> int
    decreases i,
{
    if i == 0 {
        0
    } else if j < pow2((i - 1) as nat) {
        fsub(
            fr_ord(),
            node_at(nodes, i, j),
            fmul(fr_ord(), node_at(nodes, (i - 1) as nat, j), fsub(fr_ord(), 1, x[i - 1])),
        )
    } else {
        fsub(
            fr_ord(),
            node_at(nodes, i, j),
            fmul(
                fr_ord(),
                node_at(nodes, (i - 1) as nat, (j - pow2((i - 1) as nat)) as nat),
                x[i - 1],
            ),
        )
    }
}

/// A complete binary tree of field elements, stored level by level.
pub struct EqTree {
    /// vector of length `2 * 2^depth - 1`
    pub nodes: Vec<Scalar>,
    pub depth: usize,
}

impl EqTree {
    /// The node vector has exactly the length of a complete tree of this
    /// depth, and the depth is small enough for the index arithmetic.
    pub open spec fn wf(&self) -> bool {
        &&& self.nodes@.len() == 2 * pow2(self.depth as nat) - 1
        &&& self.depth <= 30
    }

    /// The tree's nodes are exactly the equality tree of the point `x`
    /// (given un-reversed, as a caller passes it).
    pub open spec fn is_eq_tree_of(&self, x: Seq<int>) -> bool {
        &&& self.depth as nat == x.len()
        &&& forall|i: nat, j: nat|
            i <= self.depth && j < pow2(i) ==> #[trigger] node_at(views(self.nodes@), i, j)
                == eq_node(rev(x), i, j)
    }

    /// Builds the equality tree of the point `x`.
    pub fn new(x: &Vec<Scalar>) -> (r: EqTree)
        requires
            x@.len() <= 30,
        ensures
            r.wf(),
            r.depth == x@.len(),
            r.is_eq_tree_of(views(x@)),
    {
        let depth = x.len();
        // reversed copy of the point; the tree consumes coordinates from the
        // last to the first
        let mut rx: Vec<Scalar> = Vec::new();
        let mut k = depth;
        while k > 0
            invariant
                k <= depth,
                depth == x@.len(),
                rx@.len() == depth - k,
                forall|t: int|
                    0 <= t < depth - k ==> #[trigger] rx@[t]@ == views(x@)[depth - 1 - t],
            decreases k,
        {
            k = k - 1;
            rx.push(x[k].clone());
        }
        proof {
            assert(views(rx@) =~= rev(views(x@)));
        }

        let mut nodes: Vec<Scalar> = Vec::new();
        nodes.push(Scalar::one());
        let mut i: usize = 0;
        let mut width: usize = 1;
        proof {
            vstd::arithmetic::power2::lemma2_to64();
            assert(node_at(views(nodes@), 0, 0) == 1);
        }
        while i < depth
            invariant
                i <= depth,
                depth <= 30,
                depth == rx@.len(),
                views(rx@) == rev(views(x@)),
                width == pow2(i as nat),
                width <= pow2(30),
                nodes@.len() == 2 * pow2(i as nat) - 1,
                forall|l: nat, j: nat|
                    l <= i && j < pow2(l) ==> #[trigger] node_at(views(nodes@), l, j) == eq_node(
                        rev(views(x@)), l, j),
            decreases depth - i,
        {
            proof {
                vstd::arithmetic::power2::lemma_pow2_adds(i as nat, 1);
                vstd::arithmetic::power2::lemma_pow2_adds(30, 1);
                vstd::arithmetic::power2::lemma_pow2_strictly_increases(i as nat, 31);
                vstd::arithmetic::power2::lemma2_to64();
                vstd::arithmetic::power2::lemma_pow2_pos(i as nat);
            }
            let xi = rx[i].clone();
            let w1 = Scalar::one().sub(&xi);
            let start = width - 1;
            let ghost rx_views = rev(views(x@));
            let mut j: usize = 0;
            while j < width
                invariant
                    j <= width,
                    i < depth,
                    depth == rx@.len(),
                    width == pow2(i as nat),
                    start == width - 1,
                    width <= 0x4000_0000,
                    xi@ == rx_views[i as int],
                    w1@ == fsub(fr_ord(), 1, rx_views[i as int]),
                    nodes@.len() == 2 * pow2(i as nat) - 1 + j,
                    forall|l: nat, jj: nat|
                        l <= i && jj < pow2(l) ==> #[trigger] node_at(views(nodes@), l, jj)
                            == eq_node(rx_views, l, jj),
                    forall|jj: nat|
                        jj < j ==> #[trigger] node_at(views(nodes@), (i + 1) as nat, jj)
                            == eq_node(rx_views, (i + 1) as nat, jj),
                decreases width - j,
            {
                proof {
                    vstd::arithmetic::power2::lemma_pow2_adds(i as nat, 1);
                    vstd::arithmetic::power2::lemma2_to64();
                }
                let ghost pre = nodes@;
                let v = nodes[start + j].mul(&w1);
                nodes.push(v);
                proof {
                    assert forall|l: nat, jj: nat| l <= i && jj < pow2(l) implies #[trigger] node_at(
                        views(nodes@), l, jj) == eq_node(rx_views, l, jj) by {
                        if l < i {
                            vstd::arithmetic::power2::lemma_pow2_strictly_increases(l, i as nat);
                        }
                        vstd::arithmetic::power2::lemma_pow2_pos(l);
                        assert(node_at(views(pre), l, jj) == eq_node(rx_views, l, jj));
                        assert(views(nodes@)[pow2(l) - 1 + jj] == views(pre)[pow2(l) - 1 + jj]);
                    }
                    assert forall|jj: nat| jj < j + 1 implies #[trigger] node_at(views(nodes@), (i
                        + 1) as nat, jj) == eq_node(rx_views, (i + 1) as nat, jj) by {
                        if jj < j {
                            assert(node_at(views(pre), (i + 1) as nat, jj) == eq_node(rx_views, (i
                                + 1) as nat, jj));
                            assert(views(nodes@)[pow2((i + 1) as nat) - 1 + jj] == views(pre)[pow2((
                                i + 1) as nat) - 1 + jj]);
                        } else {
                            assert(node_at(views(pre), i as nat, jj) == eq_node(rx_views, i as nat,
                                jj));
                            assert(views(nodes@)[pre.len() as int] == v@);
                        }
                    }
                }
                j = j + 1;
            }
            let mut j2: usize = 0;
            while j2 < width
                invariant
                    j2 <= width,
                    i < depth,
                    depth == rx@.len(),
                    width == pow2(i as nat),
                    start == width - 1,
                    width <= 0x4000_0000,
                    xi@ == rx_views[i as int],
                    nodes@.len() == 2 * pow2(i as nat) - 1 + width + j2,
                    forall|l: nat, jj: nat|
                        l <= i && jj < pow2(l) ==> #[trigger] node_at(views(nodes@), l, jj)
                            == eq_node(rx_views, l, jj),
                    forall|jj: nat|
                        jj < width ==> #[trigger] node_at(views(nodes@), (i + 1) as nat, jj)
                            == eq_node(rx_views, (i + 1) as nat, jj),
                    forall|jj: nat|
                        jj < j2 ==> #[trigger] node_at(views(nodes@), (i + 1) as nat, (width
                            + jj) as nat) == eq_node(rx_views, (i + 1) as nat, (width + jj) as nat),
                decreases width - j2,
            {
                proof {
                    vstd::arithmetic::power2::lemma_pow2_adds(i as nat, 1);
                    vstd::arithmetic::power2::lemma2_to64();
                }
                let ghost pre = nodes@;
                let v = nodes[start + j2].mul(&xi);
                nodes.push(v);
                proof {
                    assert forall|l: nat, jj: nat| l <= i && jj < pow2(l) implies #[trigger] node_at(
                        views(nodes@), l, jj) == eq_node(rx_views, l, jj) by {
                        if l < i {
                            vstd::arithmetic::power2::lemma_pow2_strictly_increases(l, i as nat);
                        }
                        vstd::arithmetic::power2::lemma_pow2_pos(l);
                        assert(node_at(views(pre), l, jj) == eq_node(rx_views, l, jj));
                        assert(views(nodes@)[pow2(l) - 1 + jj] == views(pre)[pow2(l) - 1 + jj]);
                    }
                    assert forall|jj: nat| jj < width implies #[trigger] node_at(views(nodes@), (i
                        + 1) as nat, jj) == eq_node(rx_views, (i + 1) as nat, jj) by {
                        assert(node_at(views(pre), (i + 1) as nat, jj) == eq_node(rx_views, (i
                            + 1) as nat, jj));
                        assert(views(nodes@)[pow2((i + 1) as nat) - 1 + jj] == views(pre)[pow2((i
                            + 1) as nat) - 1 + jj]);
                    }
                    assert forall|jj: nat| jj < j2 + 1 implies #[trigger] node_at(views(nodes@), (i
                        + 1) as nat, (width + jj) as nat) == eq_node(rx_views, (i + 1) as nat,
                        (width + jj) as nat) by {
                        if jj < j2 {
                            assert(node_at(views(pre), (i + 1) as nat, (width + jj) as nat)
                                == eq_node(rx_views, (i + 1) as nat, (width + jj) as nat));
                            assert(views(nodes@)[pow2((i + 1) as nat) - 1 + width + jj] == views(
                                pre)[pow2((i + 1) as nat) - 1 + width + jj]);
                        } else {
                            assert(node_at(views(pre), i as nat, jj) == eq_node(rx_views, i as nat,
                                jj));
                            assert(views(nodes@)[pre.len() as int] == v@);
                        }
                    }
                }
                j2 = j2 + 1;
            }
            proof {
                vstd::arithmetic::power2::lemma_pow2_adds(i as nat, 1);
                vstd::arithmetic::power2::lemma2_to64();
                assert forall|l: nat, jj: nat| l <= i + 1 && jj < pow2(l) implies #[trigger]
                    node_at(views(nodes@), l, jj) == eq_node(rx_views, l, jj) by {
                    if l == i + 1 {
                        if jj >= width {
                            assert(node_at(views(nodes@), (i + 1) as nat, (width + (jj
                                - width)) as nat) == eq_node(rx_views, (i + 1) as nat, (width + (jj
                                - width)) as nat));
                        }
                    }
                }
            }
            i = i + 1;
            width = width * 2;
        }
        EqTree { nodes, depth }
    }

    /// The node-wise residuals of this tree against the tree that the point
    /// `x` would generate from the same parents.
    pub fn difference(&self, x: &Vec<Scalar>) -> (r: EqTree)
        requires
            self.wf(),
            x@.len() == self.depth,
        ensures
            r.wf(),
            r.depth == self.depth,
            forall|i: nat, j: nat|
                i <= self.depth && j < pow2(i) ==> #[trigger] node_at(views(r.nodes@), i, j)
                    == diff_node(views(self.nodes@), rev(views(x@)), i, j),
    {
        let depth = self.depth;
        let mut rx: Vec<Scalar> = Vec::new();
        let mut k = depth;
        while k > 0
            invariant
                k <= depth,
                depth == x@.len(),
                rx@.len() == depth - k,
                forall|t: int|
                    0 <= t < depth - k ==> #[trigger] rx@[t]@ == views(x@)[depth - 1 - t],
            decreases k,
        {
            k = k - 1;
            rx.push(x[k].clone());
        }
        proof {
            assert(views(rx@) =~= rev(views(x@)));
        }

        let ghost rx_views = rev(views(x@));
        let ghost base = views(self.nodes@);
        let mut nodes: Vec<Scalar> = Vec::new();
        nodes.push(Scalar::zero());
        let mut i: usize = 0;
        let mut width: usize = 1;
        proof {
            vstd::arithmetic::power2::lemma2_to64();
        }
        while i < depth
            invariant
                i <= depth,
                depth <= 30,
                depth == rx@.len(),
                self.wf(),
                self.depth == depth,
                base == views(self.nodes@),
                views(rx@) == rx_views,
                rx_views == rev(views(x@)),
                width == pow2(i as nat),
                width <= pow2(30),
                nodes@.len() == 2 * pow2(i as nat) - 1,
                forall|l: nat, j: nat|
                    l <= i && j < pow2(l) ==> #[trigger] node_at(views(nodes@), l, j) == diff_node(
                        base, rx_views, l, j),
            decreases depth - i,
        {
            proof {
                vstd::arithmetic::power2::lemma_pow2_adds(i as nat, 1);
                vstd::arithmetic::power2::lemma_pow2_adds(30, 1);
                vstd::arithmetic::power2::lemma_pow2_strictly_increases(i as nat, 31);
                vstd::arithmetic::power2::lemma2_to64();
                vstd::arithmetic::power2::lemma_pow2_pos(i as nat);
                vstd::arithmetic::power2::lemma_pow2_strictly_increases(i as nat, 30);
                if i + 1 < 30 {
                    vstd::arithmetic::power2::lemma_pow2_strictly_increases((i + 1) as nat, 30);
                }
            }
            let xi = rx[i].clone();
            let w1 = Scalar::one().sub(&xi);
            let start = width - 1;
            let cstart = 2 * width - 1;
            let mut j: usize = 0;
            while j < width
                invariant
                    j <= width,
                    i < depth,
                    depth <= 30,
                    self.wf(),
                    self.depth == depth,
                    base == views(self.nodes@),
                    width == pow2(i as nat),
                    start == width - 1,
                    cstart == 2 * width - 1,
                    width <= 0x4000_0000,
                    xi@ == rx_views[i as int],
                    w1@ == fsub(fr_ord(), 1, rx_views[i as int]),
                    nodes@.len() == 2 * pow2(i as nat) - 1 + j,
                    forall|l: nat, jj: nat|
                        l <= i && jj < pow2(l) ==> #[trigger] node_at(views(nodes@), l, jj)
                            == diff_node(base, rx_views, l, jj),
                    forall|jj: nat|
                        jj < j ==> #[trigger] node_at(views(nodes@), (i + 1) as nat, jj)
                            == diff_node(base, rx_views, (i + 1) as nat, jj),
                decreases width - j,
            {
                proof {
                    vstd::arithmetic::power2::lemma_pow2_adds(i as nat, 1);
                    vstd::arithmetic::power2::lemma2_to64();
                    lemma_level_in_bounds(self.depth as nat, (i + 1) as nat);
                }
                let ghost pre = nodes@;
                let parent = self.nodes[start + j].mul(&w1);
                let v = self.nodes[cstart + j].sub(&parent);
                nodes.push(v);
                proof {
                    assert forall|l: nat, jj: nat| l <= i && jj < pow2(l) implies #[trigger] node_at(
                        views(nodes@), l, jj) == diff_node(base, rx_views, l, jj) by {
                        if l < i {
                            vstd::arithmetic::power2::lemma_pow2_strictly_increases(l, i as nat);
                        }
                        vstd::arithmetic::power2::lemma_pow2_pos(l);
                        assert(node_at(views(pre), l, jj) == diff_node(base, rx_views, l, jj));
                        assert(views(nodes@)[pow2(l) - 1 + jj] == views(pre)[pow2(l) - 1 + jj]);
                    }
                    assert forall|jj: nat| jj < j + 1 implies #[trigger] node_at(views(nodes@), (i
                        + 1) as nat, jj) == diff_node(base, rx_views, (i + 1) as nat, jj) by {
                        if jj < j {
                            assert(node_at(views(pre), (i + 1) as nat, jj) == diff_node(base,
                                rx_views, (i + 1) as nat, jj));
                            assert(views(nodes@)[pow2((i + 1) as nat) - 1 + jj] == views(pre)[pow2((
                                i + 1) as nat) - 1 + jj]);
                        } else {
                            assert(views(nodes@)[pre.len() as int] == v@);
                        }
                    }
                }
                j = j + 1;
            }
            let mut j2: usize = 0;
            while j2 < width
                invariant
                    j2 <= width,
                    i < depth,
                    depth <= 30,
                    self.wf(),
                    self.depth == depth,
                    base == views(self.nodes@),
                    width == pow2(i as nat),
                    start == width - 1,
                    cstart == 2 * width - 1,
                    width <= 0x4000_0000,
                    xi@ == rx_views[i as int],
                    nodes@.len() == 2 * pow2(i as nat) - 1 + width + j2,
                    forall|l: nat, jj: nat|
                        l <= i && jj < pow2(l) ==> #[trigger] node_at(views(nodes@), l, jj)
                            == diff_node(base, rx_views, l, jj),
                    forall|jj: nat|
                        jj < width ==> #[trigger] node_at(views(nodes@), (i + 1) as nat, jj)
                            == diff_node(base, rx_views, (i + 1) as nat, jj),
                    forall|jj: nat|
                        jj < j2 ==> #[trigger] node_at(views(nodes@), (i + 1) as nat, (width
                            + jj) as nat) == diff_node(base, rx_views, (i + 1) as nat, (width
                            + jj) as nat),
                decreases width - j2,
            {
                proof {
                    vstd::arithmetic::power2::lemma_pow2_adds(i as nat, 1);
                    vstd::arithmetic::power2::lemma2_to64();
                    lemma_level_in_bounds(self.depth as nat, (i + 1) as nat);
                }
                let ghost pre = nodes@;
                let parent = self.nodes[start + j2].mul(&xi);
                let v = self.nodes[cstart + width + j2].sub(&parent);
                nodes.push(v);
                proof {
                    assert forall|l: nat, jj: nat| l <= i && jj < pow2(l) implies #[trigger] node_at(
                        views(nodes@), l, jj) == diff_node(base, rx_views, l, jj) by {
                        if l < i {
                            vstd::arithmetic::power2::lemma_pow2_strictly_increases(l, i as nat);
                        }
                        vstd::arithmetic::power2::lemma_pow2_pos(l);
                        assert(node_at(views(pre), l, jj) == diff_node(base, rx_views, l, jj));
                        assert(views(nodes@)[pow2(l) - 1 + jj] == views(pre)[pow2(l) - 1 + jj]);
                    }
                    assert forall|jj: nat| jj < width implies #[trigger] node_at(views(nodes@), (i
                        + 1) as nat, jj) == diff_node(base, rx_views, (i + 1) as nat, jj) by {
                        assert(node_at(views(pre), (i + 1) as nat, jj) == diff_node(base, rx_views,
                            (i + 1) as nat, jj));
                        assert(views(nodes@)[pow2((i + 1) as nat) - 1 + jj] == views(pre)[pow2((i
                            + 1) as nat) - 1 + jj]);
                    }
                    assert forall|jj: nat| jj < j2 + 1 implies #[trigger] node_at(views(nodes@), (i
                        + 1) as nat, (width + jj) as nat) == diff_node(base, rx_views, (i
                        + 1) as nat, (width + jj) as nat) by {
                        if jj < j2 {
                            assert(node_at(views(pre), (i + 1) as nat, (width + jj) as nat)
                                == diff_node(base, rx_views, (i + 1) as nat, (width + jj) as nat));
                            assert(views(nodes@)[pow2((i + 1) as nat) - 1 + width + jj] == views(
                                pre)[pow2((i + 1) as nat) - 1 + width + jj]);
                        } else {
                            assert(views(nodes@)[pre.len() as int] == v@);
                        }
                    }
                }
                j2 = j2 + 1;
            }
            proof {
                vstd::arithmetic::power2::lemma_pow2_adds(i as nat, 1);
                vstd::arithmetic::power2::lemma2_to64();
                assert forall|l: nat, jj: nat| l <= i + 1 && jj < pow2(l) implies #[trigger]
                    node_at(views(nodes@), l, jj) == diff_node(base, rx_views, l, jj) by {
                    if l == i + 1 {
                        if jj >= width {
                            assert(node_at(views(nodes@), (i + 1) as nat, (width + (jj
                                - width)) as nat) == diff_node(base, rx_views, (i + 1) as nat,
                                (width + (jj - width)) as nat));
                        }
                    }
                }
            }
            i = i + 1;
            width = width * 2;
        }
        EqTree { nodes, depth }
    }

    /// All nodes are zero.
    pub fn is_zero(&self) -> (r: bool)
        ensures
            r == (forall|k: int| 0 <= k < self.nodes@.len() ==> #[trigger] self.nodes@[k]@ == 0),
    {
        let z = Scalar::zero();
        let mut k: usize = 0;
        while k < self.nodes.len()
            invariant
                k <= self.nodes@.len(),
                z@ == 0,
                forall|t: int| 0 <= t < k ==> #[trigger] self.nodes@[t]@ == 0,
            decreases self.nodes@.len() - k,
        {
            if !self.nodes[k].eq(&z) {
                return false;
            }
            k = k + 1;
        }
        true
    }

    /// The leaves of the tree, from `(1-x_0)...(1-x_(d-1))` up to
    /// `x_0...x_(d-1)`.
    pub fn get_leaves(&self) -> (r: Vec<Scalar>)
        requires
            self.wf(),
        ensures
            r@.len() == pow2(self.depth as nat),
            views(r@) == leaves_of(views(self.nodes@), self.depth as nat),
    {
        let mut width: usize = 1;
        let mut l: usize = 0;
        proof {
            vstd::arithmetic::power2::lemma2_to64();
        }
        while l < self.depth
            invariant
                l <= self.depth,
                self.depth <= 30,
                width == pow2(l as nat),
                width <= 0x4000_0000,
            decreases self.depth - l,
        {
            proof {
                vstd::arithmetic::power2::lemma_pow2_adds(l as nat, 1);
                vstd::arithmetic::power2::lemma_pow2_strictly_increases(l as nat, 30);
                vstd::arithmetic::power2::lemma2_to64();
                if l + 1 < 30 {
                    vstd::arithmetic::power2::lemma_pow2_strictly_increases((l + 1) as nat, 30);
                }
            }
            width = width * 2;
            l = l + 1;
        }
        let start = width - 1;
        let mut out: Vec<Scalar> = Vec::new();
        let mut j: usize = 0;
        while j < width
            invariant
                j <= width,
                self.wf(),
                width == pow2(self.depth as nat),
                width <= 0x4000_0000,
                start == width - 1,
                out@.len() == j,
                forall|t: int|
                    0 <= t < j ==> #[trigger] out@[t]@ == views(self.nodes@)[start + t],
            decreases width - j,
        {
            out.push(self.nodes[start + j].clone());
            j = j + 1;
        }
        proof {
            assert(views(out@) =~= leaves_of(views(self.nodes@), self.depth as nat));
        }
        out
    }

    /// Combines two equal-depth trees node by node with `combine_fn`, whose
    /// effect on the models is described by the ghost function `g`; trees of
    /// different depths are reported as a depth mismatch.
    pub fn linear_combination<F: Fn(Scalar, Scalar) -> Scalar>(
        tree1: &EqTree,
        tree2: &EqTree,
        combine_fn: F,
        Ghost(g): Ghost<spec_fn(int, int) -> int>,
    ) -> (r: Result<EqTree, FoldError>)
        requires
            tree1.wf(),
            tree2.wf(),
            forall|a: Scalar, b: Scalar| #[trigger] combine_fn.requires((a, b)),
            forall|a: Scalar, b: Scalar, o: Scalar|
                #[trigger] combine_fn.ensures((a, b), o) ==> o@ == g(a@, b@),
        ensures
            r is Ok <==> tree1.depth == tree2.depth,
            r is Err ==> r->Err_0 == FoldError::DepthMismatch,
            r is Ok ==> {
                let t = r->Ok_0;
                &&& t.wf()
                &&& t.depth == tree1.depth
                &&& t.nodes@.len() == tree1.nodes@.len()
                &&& forall|k: int|
                    0 <= k < t.nodes@.len() ==> #[trigger] t.nodes@[k]@ == g(
                        views(tree1.nodes@)[k], views(tree2.nodes@)[k])
            },
    {
        if tree1.depth != tree2.depth {
            return Err(FoldError::DepthMismatch);
        }
        let mut nodes: Vec<Scalar> = Vec::new();
        let mut k: usize = 0;
        while k < tree1.nodes.len()
            invariant
                k <= tree1.nodes@.len(),
                tree1.wf(),
                tree2.wf(),
                tree1.depth == tree2.depth,
                forall|a: Scalar, b: Scalar| #[trigger] combine_fn.requires((a, b)),
                forall|a: Scalar, b: Scalar, o: Scalar|
                    #[trigger] combine_fn.ensures((a, b), o) ==> o@ == g(a@, b@),
                nodes@.len() == k,
                forall|kk: int|
                    0 <= kk < k ==> #[trigger] nodes@[kk]@ == g(views(tree1.nodes@)[kk], views(
                        tree2.nodes@)[kk]),
            decreases tree1.nodes@.len() - k,
        {
            let a = tree1.nodes[k].clone();
            let b = tree2.nodes[k].clone();
            let v = combine_fn(a, b);
            nodes.push(v);
            k = k + 1;
        }
        Ok(EqTree { nodes, depth: tree1.depth })
    }
}

/// The leaves of a node vector of depth `d`: its last `2^d` entries.
pub open spec fn leaves_of(nodes: Seq<int>, d: nat) -> Seq<int> {
    nodes.subrange(pow2(d) - 1, nodes.len() as int)
}

/// The whole residual tree of `nodes` against (already reversed) point `x`,
/// laid out level by level down to level `i`.
pub open spec fn diff_levels(nodes: Seq<int>, x: Seq<int>, i: nat) -> Seq<int>
    decreases i,
{
    if i == 0 {
        seq![0int]
    } else {
        diff_levels(nodes, x, (i - 1) as nat) + Seq::new(
            pow2(i),
            |j: int| diff_node(nodes, x, i, j as nat),
        )
    }
}

/// The level-by-level layout of the residual tree has one entry per node.
pub proof fn lemma_diff_levels_len(nodes: Seq<int>, x: Seq<int>, i: nat)
    ensures
        diff_levels(nodes, x, i).len() == 2 * pow2(i) - 1,
    decreases i,
{
    vstd::arithmetic::power2::lemma_pow2_pos(i);
    vstd::arithmetic::power2::lemma2_to64();
    if i > 0 {
        lemma_diff_levels_len(nodes, x, (i - 1) as nat);
        vstd::arithmetic::power2::lemma_pow2_adds((i - 1) as nat, 1);
        vstd::arithmetic::power2::lemma2_to64();
    }
}

/// Every index of a complete tree is a level offset plus a position.
pub proof fn index_level(d: nat, idx: int) -> (r: (nat, nat))
    requires
        0 <= idx < 2 * pow2(d) - 1,
    ensures
        r.0 <= d,
        r.1 < pow2(r.0),
        idx == pow2(r.0) - 1 + r.1,
    decreases d,
{
    vstd::arithmetic::power2::lemma_pow2_pos(d);
    vstd::arithmetic::power2::lemma2_to64();
    if d == 0 {
        (0, 0)
    } else {
        vstd::arithmetic::power2::lemma_pow2_adds((d - 1) as nat, 1);
        vstd::arithmetic::power2::lemma2_to64();
        if idx < 2 * pow2((d - 1) as nat) - 1 {
            index_level((d - 1) as nat, idx)
        } else {
            (d, (idx - (pow2(d) - 1)) as nat)
        }
    }
}

/// The entry of the level-by-level residual layout at level `l`, position
/// `j` is the residual of that node.
pub proof fn lemma_diff_levels_index(nodes: Seq<int>, x: Seq<int>, i: nat, l: nat, j: nat)
    requires
        l <= i,
        j < pow2(l),
    ensures
        diff_levels(nodes, x, i)[pow2(l) - 1 + j] == diff_node(nodes, x, l, j),
    decreases i,
{
    lemma_diff_levels_len(nodes, x, i);
    vstd::arithmetic::power2::lemma_pow2_pos(l);
    vstd::arithmetic::power2::lemma_pow2_pos(i);
    if i == 0 {
    } else {
        lemma_diff_levels_len(nodes, x, (i - 1) as nat);
        vstd::arithmetic::power2::lemma_pow2_adds((i - 1) as nat, 1);
        vstd::arithmetic::power2::lemma2_to64();
        if l < i {
            if l < i - 1 {
                vstd::arithmetic::power2::lemma_pow2_strictly_increases(l, (i - 1) as nat);
            }
            lemma_diff_levels_index(nodes, x, (i - 1) as nat, l, j);
        }
    }
}

/// Round trip: the tree of a point, diffed against that same point, is
/// zero everywhere, so `is_zero` accepts what `new` followed by
/// `difference` on the same point produces.
pub proof fn lemma_round_trip(tree: &EqTree, diff: &EqTree, x: Seq<int>)
    requires
        tree.wf(),
        tree.is_eq_tree_of(x),
        diff.wf(),
        diff.depth == tree.depth,
        forall|i: nat, j: nat|
            i <= tree.depth && j < pow2(i) ==> #[trigger] node_at(views(diff.nodes@), i, j)
                == diff_node(views(tree.nodes@), rev(x), i, j),
    ensures
        forall|k: int| 0 <= k < diff.nodes@.len() ==> #[trigger] diff.nodes@[k]@ == 0,
{
    let d = tree.depth as nat;
    lemma_tree_difference_is_zero(views(tree.nodes@), views(diff.nodes@), rev(x), d);
    assert forall|k: int| 0 <= k < diff.nodes@.len() implies #[trigger] diff.nodes@[k]@ == 0 by {
        let (l, j) = index_level(d, k);
        assert(node_at(views(diff.nodes@), l, j) == 0);
    }
}

/// A difference tree's node vector is exactly the level-by-level residual
/// layout.
pub proof fn lemma_difference_is_diff_levels(res: Seq<int>, nodes: Seq<int>, x: Seq<int>, d: nat)
    requires
        res.len() == 2 * pow2(d) - 1,
        forall|i: nat, j: nat|
            i <= d && j < pow2(i) ==> #[trigger] node_at(res, i, j) == diff_node(nodes, x, i, j),
    ensures
        res == diff_levels(nodes, x, d),
{
    lemma_diff_levels_len(nodes, x, d);
    assert forall|idx: int| 0 <= idx < res.len() implies res[idx] == diff_levels(nodes, x, d)[idx]
        by {
        let (l, j) = index_level(d, idx);
        lemma_diff_levels_index(nodes, x, d, l, j);
        assert(node_at(res, l, j) == diff_node(nodes, x, l, j));
    }
    assert(res =~= diff_levels(nodes, x, d));
}

/// Levels up to the depth lie inside the node vector.
proof fn lemma_level_in_bounds(d: nat, l: nat)
    requires
        l <= d,
        d <= 30,
    ensures
        2 * pow2(l) - 1 <= 2 * pow2(d) - 1,
        pow2(l) >= 1,
{
    vstd::arithmetic::power2::lemma_pow2_pos(l);
    if l < d {
        vstd::arithmetic::power2::lemma_pow2_strictly_increases(l, d);
    }
}

/// The tree of a point, diffed against the same point, vanishes everywhere:
/// the round trip from a point through its equality tree and back leaves no
/// residual.
pub proof fn lemma_tree_difference_is_zero(nodes: Seq<int>, res: Seq<int>, x: Seq<int>, d: nat)
    requires
        x.len() == d,
        nodes.len() == 2 * pow2(d) - 1,
        res.len() == 2 * pow2(d) - 1,
        forall|i: nat, j: nat|
            i <= d && j < pow2(i) ==> #[trigger] node_at(nodes, i, j) == eq_node(x, i, j),
        forall|i: nat, j: nat|
            i <= d && j < pow2(i) ==> #[trigger] node_at(res, i, j) == diff_node(nodes, x, i, j),
    ensures
        forall|i: nat, j: nat| i <= d && j < pow2(i) ==> #[trigger] node_at(res, i, j) == 0,
{
    assert forall|i: nat, j: nat| i <= d && j < pow2(i) implies #[trigger] node_at(res, i, j)
        == 0 by {
        if i > 0 {
            vstd::arithmetic::power2::lemma_pow2_adds((i - 1) as nat, 1);
            vstd::arithmetic::power2::lemma_pow2_pos((i - 1) as nat);
            vstd::arithmetic::power2::lemma2_to64();
            assert(pow2((i - 1) as nat) < pow2(i));
            if j < pow2((i - 1) as nat) {
                assert(node_at(nodes, i, j) == eq_node(x, i, j));
                assert(node_at(nodes, (i - 1) as nat, j) == eq_node(x, (i - 1) as nat, j));
                let t = fmul(fr_ord(), eq_node(x, (i - 1) as nat, j), fsub(fr_ord(), 1, x[i - 1]));
                assert(node_at(res, i, j) == fsub(fr_ord(), t, t));
            } else {
                let jp = (j - pow2((i - 1) as nat)) as nat;
                assert(node_at(nodes, i, j) == eq_node(x, i, j));
                assert(node_at(nodes, (i - 1) as nat, jp) == eq_node(x, (i - 1) as nat, jp));
                let t = fmul(fr_ord(), eq_node(x, (i - 1) as nat, jp), x[i - 1]);
                assert(node_at(res, i, j) == fsub(fr_ord(), t, t));
            }
        }
    }
}

} // verus!
