//! The bounding-volume tree: construction over a triangle list, traversal
//! that collects every candidate the ray could strike, and the nearest-hit
//! scan shared with the brute-force path.
//!
//! The central guarantee is completeness: a triangle the ray hits at a
//! non-negative parameter is never pruned, so the nearest hit found through
//! the tree equals the nearest hit of a scan over every triangle.

use vstd::prelude::*;

use crate::aabb::{
    aabb_contains, aabb_wf, lemma_hit_reaches_box, merge_aabb, merge_box, ray_aabb_intersection,
    tri_aabb_spec, tri_in_aabb, Aabb,
};
use crate::common::tris_wf;
use crate::intersections::{
    mesh_hit_spec, mt_accepts, mt_dist, triangle_intersection, Backfaces, Ray, RayMeshHit,
};
use crate::math::{rat_le, Ratio, Vec3i};
use crate::triangle::Triangle;

verus! {

/// A node of the bounding-volume tree: its box, the index range `[lo, hi)`
/// of the triangles it covers, and two children that split that range.
pub struct BvhNode {
    pub bounds: Aabb,
    pub lo: usize,
    pub hi: usize,
    pub children: Option<(Box<BvhNode>, Box<BvhNode>)>,
}

/// The tight box of a non-empty triangle range: the fold of the triangles'
/// own tight boxes.
pub open spec fn range_box(tris: Seq<Triangle>, lo: int, hi: int) -> Aabb
    decreases hi - lo,
{
    if hi <= lo + 1 {
        tri_aabb_spec(tris[lo])
    } else {
        merge_box(range_box(tris, lo, hi - 1), tri_aabb_spec(tris[hi - 1]))
    }
}

/// Structure invariant: the range is inside the triangle list, the box
/// bounds every triangle of the range, a leaf's box is exactly the tight
/// min/max box of its triangles, an inner box contains both children's
/// boxes, and children partition the range.
pub open spec fn node_wf(n: BvhNode, tris: Seq<Triangle>) -> bool
    decreases n,
{
    &&& n.lo <= n.hi <= tris.len()
    &&& aabb_wf(n.bounds)
    &&& forall|i: int| n.lo <= i < n.hi ==> tri_in_aabb(n.bounds, #[trigger] tris[i])
    &&& match n.children {
        None => n.lo < n.hi ==> n.bounds == range_box(tris, n.lo as int, n.hi as int),
        Some(c) => {
            &&& c.0.lo == n.lo
            &&& c.0.hi == c.1.lo
            &&& c.1.hi == n.hi
            &&& aabb_contains(n.bounds, c.0.bounds)
            &&& aabb_contains(n.bounds, c.1.bounds)
            &&& node_wf(*c.0, tris)
            &&& node_wf(*c.1, tris)
        },
    }
}

/// Build one node over `[lo, hi)`, splitting the range in half until at most
/// `leaf_size` triangles remain.
pub fn build_node(tris: &Vec<Triangle>, lo: usize, hi: usize, leaf_size: usize) -> (r: BvhNode)
    requires
        lo < hi <= tris@.len(),
        leaf_size >= 1,
        tris_wf(tris@),
    ensures
        node_wf(r, tris@),
        r.lo == lo,
        r.hi == hi,
    decreases hi - lo,
{
    if hi - lo <= leaf_size {
        let mut bounds = tris[lo].aabb();
        let mut i = lo + 1;
        while i < hi
            invariant
                lo < i <= hi <= tris@.len(),
                tris_wf(tris@),
                aabb_wf(bounds),
                forall|j: int| lo <= j < i ==> tri_in_aabb(bounds, #[trigger] tris@[j]),
                bounds == range_box(tris@, lo as int, i as int),
            decreases hi - i,
        {
            let tb = tris[i].aabb();
            bounds = merge_aabb(&bounds, &tb);
            i = i + 1;
        }
        BvhNode { bounds, lo, hi, children: None }
    } else {
        let mid = lo + (hi - lo) / 2;
        let left = build_node(tris, lo, mid, leaf_size);
        let right = build_node(tris, mid, hi, leaf_size);
        let bounds = merge_aabb(&left.bounds, &right.bounds);
        proof {
            assert forall|i: int| lo <= i < hi implies tri_in_aabb(bounds, #[trigger] tris@[i]) by {
                if i < mid as int {
                    assert(tri_in_aabb(left.bounds, tris@[i]));
                } else {
                    assert(tri_in_aabb(right.bounds, tris@[i]));
                }
            }
        }
        BvhNode { bounds, lo, hi, children: Some((Box::new(left), Box::new(right))) }
    }
}

/// The range of a well-formed node is inside the triangle list.
pub proof fn lemma_node_wf_range(n: BvhNode, tris: Seq<Triangle>)
    requires
        node_wf(n, tris),
    ensures
        n.lo <= n.hi <= tris.len(),
{
}

/// A triangle the ray strikes at a non-negative parameter, under the policy.
pub open spec fn tri_hits(t: Triangle, r: Ray, culling: Backfaces) -> bool {
    &&& mt_accepts(r, t.positions[0], t.positions[1], t.positions[2], culling)
    &&& mt_dist(r, t.positions[0], t.positions[1], t.positions[2]).0 >= 0
}

/// The hit's distance parameter as a rational.
pub open spec fn tri_dist(t: Triangle, r: Ray) -> (int, int) {
    mt_dist(r, t.positions[0], t.positions[1], t.positions[2])
}

/// A hit under the culling policy is also a hit with backfaces included.
pub proof fn lemma_cull_hit_is_include_hit(t: Triangle, r: Ray, culling: Backfaces)
    requires
        tri_hits(t, r, culling),
    ensures
        tri_hits(t, r, Backfaces::Include),
{
}

pub open spec fn sorted_strict(s: Seq<usize>) -> bool {
    forall|k1: int, k2: int| 0 <= k1 < k2 < s.len() ==> s[k1] < s[k2]
}

pub open spec fn contains_idx(s: Seq<usize>, i: int) -> bool {
    exists|k: int| 0 <= k < s.len() && s[k] as int == i
}

/// Collect, in ascending order, the indices of every triangle in the node's
/// range whose bounding volume the ray reaches; triangles the ray actually
/// hits forward of the origin are never left out.
pub fn collect_candidates(node: &BvhNode, tris: &Vec<Triangle>, ray: &Ray, out: &mut Vec<usize>)
    requires
        node_wf(*node, tris@),
        ray.wf(),
        tris_wf(tris@),
        sorted_strict(old(out)@),
        forall|k: int| 0 <= k < old(out)@.len() ==> (#[trigger] old(out)@[k]) < node.lo,
    ensures
        final(out)@.len() >= old(out)@.len(),
        forall|k: int| 0 <= k < old(out)@.len() ==> final(out)@[k] == old(out)@[k],
        sorted_strict(final(out)@),
        forall|k: int|
            old(out)@.len() <= k < final(out)@.len() ==> node.lo <= (#[trigger] final(out)@[k])
                < node.hi,
        forall|i: int|
            node.lo <= i < node.hi && tri_hits(#[trigger] tris@[i], *ray, Backfaces::Include)
                ==> contains_idx(final(out)@, i),
    decreases *node,
{
    match ray_aabb_intersection(ray, &node.bounds) {
        None => {
            proof {
                assert forall|i: int|
                    node.lo <= i < node.hi && tri_hits(
                        #[trigger] tris@[i],
                        *ray,
                        Backfaces::Include,
                    ) implies contains_idx(final(out)@, i) by {
                    let t = tris@[i];
                    lemma_hit_reaches_box(
                        *ray,
                        t.positions[0],
                        t.positions[1],
                        t.positions[2],
                        Backfaces::Include,
                        node.bounds,
                    );
                }
            }
        },
        Some(_) => {
            match &node.children {
                None => {
                    let ghost base = out@;
                    let mut i = node.lo;
                    while i < node.hi
                        invariant
                            node.lo <= i <= node.hi,
                            out@.len() >= base.len(),
                            forall|k: int| 0 <= k < base.len() ==> out@[k] == base[k],
                            sorted_strict(out@),
                            out@.len() == base.len() + (i - node.lo),
                            forall|k: int|
                                base.len() <= k < out@.len() ==> node.lo <= (#[trigger] out@[k])
                                    < node.hi,
                            forall|k: int|
                                base.len() <= k < out@.len() ==> (#[trigger] out@[k]) as int
                                    == node.lo + (k - base.len()),
                            forall|k: int| 0 <= k < base.len() ==> (#[trigger] base[k]) < node.lo,
                        decreases node.hi - i,
                    {
                        out.push(i);
                        proof {
                            assert forall|k1: int, k2: int|
                                0 <= k1 < k2 < out@.len() implies out@[k1] < out@[k2] by {
                                if k2 == out@.len() - 1 {
                                    if k1 < base.len() {
                                        assert(base[k1] < node.lo);
                                    } else {
                                        assert(out@[k1] as int == node.lo + (k1 - base.len()));
                                    }
                                }
                            }
                        }
                        i = i + 1;
                    }
                    proof {
                        assert forall|i2: int|
                            node.lo <= i2 < node.hi && tri_hits(
                                #[trigger] tris@[i2],
                                *ray,
                                Backfaces::Include,
                            ) implies contains_idx(out@, i2) by {
                            let k = base.len() + (i2 - node.lo);
                            assert(out@[k] as int == i2);
                        }
                    }
                },
                Some(c) => {
                    let ghost base = out@;
                    proof {
                        lemma_node_wf_range(*c.0, tris@);
                        lemma_node_wf_range(*c.1, tris@);
                    }
                    collect_candidates(&c.0, tris, ray, out);
                    let ghost mid_seq = out@;
                    proof {
                        assert forall|k: int| 0 <= k < out@.len() implies (#[trigger] out@[k])
                            < c.1.lo by {
                            if k < base.len() {
                                assert(out@[k] == base[k]);
                                assert(base[k] < node.lo);
                            } else {
                                assert(c.0.lo <= out@[k] < c.0.hi);
                            }
                        }
                    }
                    collect_candidates(&c.1, tris, ray, out);
                    proof {
                        assert forall|k: int|
                            base.len() <= k < out@.len() implies node.lo <= (#[trigger] out@[k])
                            < node.hi by {
                            if k < mid_seq.len() {
                                assert(out@[k] == mid_seq[k]);
                            }
                        }
                        assert forall|i: int|
                            node.lo <= i < node.hi && tri_hits(
                                #[trigger] tris@[i],
                                *ray,
                                Backfaces::Include,
                            ) implies contains_idx(out@, i) by {
                            if i < c.0.hi as int {
                                assert(contains_idx(mid_seq, i));
                                let k = choose|k: int|
                                    0 <= k < mid_seq.len() && mid_seq[k] as int == i;
                                assert(out@[k] as int == i);
                            }
                        }
                    }
                },
            }
        },
    }
}

/// The nearest-hit fold over an explicit index order: a later candidate
/// replaces the current best only when its distance does not exceed it,
/// matching a scan under a shrinking upper bound.
pub open spec fn scan_seq(tris: Seq<Triangle>, r: Ray, culling: Backfaces, idxs: Seq<usize>) -> Option<
    int,
>
    decreases idxs.len(),
{
    if idxs.len() == 0 {
        None
    } else {
        let prev = scan_seq(tris, r, culling, idxs.drop_last());
        let i = idxs.last() as int;
        if tri_hits(tris[i], r, culling) && (match prev {
            None => true,
            Some(j) => rat_le(tri_dist(tris[i], r), tri_dist(tris[j], r)),
        }) {
            Some(i)
        } else {
            prev
        }
    }
}

/// The nearest-hit fold over the first `n` triangles in list order.
pub open spec fn scan_best(tris: Seq<Triangle>, r: Ray, culling: Backfaces, n: int) -> Option<int>
    decreases n,
{
    if n <= 0 {
        None
    } else {
        let prev = scan_best(tris, r, culling, n - 1);
        if tri_hits(tris[n - 1], r, culling) && (match prev {
            None => true,
            Some(j) => rat_le(tri_dist(tris[n - 1], r), tri_dist(tris[j], r)),
        }) {
            Some(n - 1)
        } else {
            prev
        }
    }
}

/// A selected nearest index lies in range and names a struck triangle.
pub proof fn lemma_scan_best_range(tris: Seq<Triangle>, r: Ray, culling: Backfaces, n: int)
    ensures
        match scan_best(tris, r, culling, n) {
            Some(j) => 0 <= j < n && tri_hits(tris[j], r, culling),
            None => true,
        },
    decreases n,
{
    if n > 0 {
        lemma_scan_best_range(tris, r, culling, n - 1);
    }
}

/// The nearest hit over the whole triangle list.
pub open spec fn nearest_hit_index(tris: Seq<Triangle>, r: Ray, culling: Backfaces) -> Option<int> {
    scan_best(tris, r, culling, tris.len() as int)
}

/// Scanning any ascending index list that includes every struck triangle
/// gives the same result as scanning the whole list in order: pruning
/// triangles the ray cannot hit never changes the nearest hit.
pub proof fn lemma_scan_subset(
    tris: Seq<Triangle>,
    r: Ray,
    culling: Backfaces,
    idxs: Seq<usize>,
    n: int,
)
    requires
        sorted_strict(idxs),
        forall|k: int| 0 <= k < idxs.len() ==> ((#[trigger] idxs[k]) as int) < n,
        n <= tris.len(),
        forall|i: int|
            0 <= i < n && tri_hits(#[trigger] tris[i], r, culling) ==> contains_idx(idxs, i),
    ensures
        scan_seq(tris, r, culling, idxs) == scan_best(tris, r, culling, n),
    decreases n,
{
    if n <= 0 {
        assert(idxs.len() == 0) by {
            if idxs.len() > 0 {
                assert((idxs[0] as int) < n);
            }
        }
    } else {
        if idxs.len() > 0 && idxs.last() as int == n - 1 {
            let rest = idxs.drop_last();
            assert forall|i: int|
                0 <= i < n - 1 && tri_hits(#[trigger] tris[i], r, culling) implies contains_idx(
                rest,
                i,
            ) by {
                let k = choose|k: int| 0 <= k < idxs.len() && idxs[k] as int == i;
                assert(k < idxs.len() - 1);
                assert(rest[k] as int == i);
            }
            assert forall|k: int| 0 <= k < rest.len() implies ((#[trigger] rest[k]) as int) < n
                - 1 by {
                assert(idxs[k] < idxs[idxs.len() - 1]);
            }
            lemma_scan_subset(tris, r, culling, rest, n - 1);
        } else {
            assert(!contains_idx(idxs, n - 1)) by {
                if contains_idx(idxs, n - 1) {
                    let k = choose|k: int| 0 <= k < idxs.len() && idxs[k] as int == n - 1;
                    if k < idxs.len() - 1 {
                        assert(idxs[k] < idxs[idxs.len() - 1]);
                        assert((idxs[idxs.len() - 1] as int) < n);
                    }
                }
            }
            assert(!tri_hits(tris[n - 1], r, culling));
            assert forall|k: int| 0 <= k < idxs.len() implies ((#[trigger] idxs[k]) as int) < n
                - 1 by {
                if k < idxs.len() - 1 {
                    assert(idxs[k] < idxs[idxs.len() - 1]);
                }
                assert(idxs[k] as int != n - 1);
            }
            lemma_scan_subset(tris, r, culling, idxs, n - 1);
        }
    }
}

/// What a returned nearest hit must be: the hit record of the triangle that
/// the fold selects, carrying that triangle's stable index.
pub open spec fn nearest_hit_post(
    tris: Seq<Triangle>,
    r: Ray,
    culling: Backfaces,
    res: Option<RayMeshHit>,
) -> bool {
    match nearest_hit_index(tris, r, culling) {
        None => res.is_none(),
        Some(j) => match res {
            Some(h) => mesh_hit_spec(
                r,
                tris[j].positions[0],
                tris[j].positions[1],
                tris[j].positions[2],
                tris[j].normals,
                h,
            ) && h.triangle_index == Some(tris[j].triangle_index),
            None => false,
        },
    }
}

/// Scan the listed candidates in order, keeping the nearest hit under a
/// shrinking distance bound.
pub fn scan_candidates(
    tris: &Vec<Triangle>,
    idxs: &Vec<usize>,
    ray: &Ray,
    culling: Backfaces,
) -> (r: Option<RayMeshHit>)
    requires
        tris_wf(tris@),
        ray.wf(),
        forall|k: int| 0 <= k < idxs@.len() ==> (#[trigger] idxs@[k]) < tris@.len(),
    ensures
        match scan_seq(tris@, *ray, culling, idxs@) {
            None => r.is_none(),
            Some(j) => match r {
                Some(h) => mesh_hit_spec(
                    *ray,
                    tris@[j].positions[0],
                    tris@[j].positions[1],
                    tris@[j].positions[2],
                    tris@[j].normals,
                    h,
                ) && h.triangle_index == Some(tris@[j].triangle_index),
                None => false,
            },
        },
{
    let mut best: Option<RayMeshHit> = None;
    let ghost mut best_idx: Option<int> = None;
    let mut k: usize = 0;
    while k < idxs.len()
        invariant
            tris_wf(tris@),
            ray.wf(),
            forall|k2: int| 0 <= k2 < idxs@.len() ==> (#[trigger] idxs@[k2]) < tris@.len(),
            0 <= k <= idxs@.len(),
            best_idx == scan_seq(tris@, *ray, culling, idxs@.take(k as int)),
            match best_idx {
                None => best.is_none(),
                Some(j) => {
                    &&& 0 <= j < tris@.len()
                    &&& match best {
                        Some(h) => mesh_hit_spec(
                            *ray,
                            tris@[j].positions[0],
                            tris@[j].positions[1],
                            tris@[j].positions[2],
                            tris@[j].normals,
                            h,
                        ) && h.triangle_index == Some(tris@[j].triangle_index),
                        None => false,
                    }
                },
            },
        decreases idxs@.len() - k,
    {
        let i = idxs[k];
        let tri = &tris[i];
        let bound: Option<Ratio> = match &best {
            Some(h) => Some(h.distance),
            None => None,
        };
        proof {
            assert(tris@[i as int].wf());
        }
        let hit = triangle_intersection(&tri.positions, &tri.normals, &bound, ray, culling);
        match hit {
            Some(h) => {
                let h2 = RayMeshHit { triangle_index: Some(tri.triangle_index), ..h };
                best = Some(h2);
                proof {
                    best_idx = Some(i as int);
                }
            },
            None => {},
        }
        proof {
            assert(idxs@.take(k as int + 1).drop_last() =~= idxs@.take(k as int));
            assert(idxs@.take(k as int + 1).last() == idxs@[k as int]);
        }
        k = k + 1;
    }
    proof {
        assert(idxs@.take(idxs@.len() as int) =~= idxs@);
    }
    best
}

/// Weight of a node: its node count plus the triangles its leaves cover;
/// the traversal measure.
pub open spec fn node_weight(n: BvhNode) -> nat
    decreases n,
{
    match n.children {
        None => 1 + if n.hi >= n.lo {
            (n.hi - n.lo) as nat
        } else {
            0
        },
        Some(c) => 1 + node_weight(*c.0) + node_weight(*c.1),
    }
}

pub open spec fn stack_weight(s: Seq<&BvhNode>) -> nat
    decreases s.len(),
{
    if s.len() == 0 {
        0
    } else {
        stack_weight(s.drop_last()) + node_weight(*s.last())
    }
}

/// A pull-style walk of the tree: call `next_candidate` repeatedly to draw
/// the candidate triangles one at a time, decoupling the structure's
/// internal walk order from the caller's accept or reject policy.
pub struct RayTraversal<'a> {
    pub stack: Vec<&'a BvhNode>,
    pub leaf_next: usize,
    pub leaf_end: usize,
    pub emitted: Ghost<Seq<usize>>,
}

impl<'a> RayTraversal<'a> {
    /// The traversal invariant: well-formed disjoint pending ranges in
    /// ascending order (current leaf range first, then the stack from its
    /// top down), every emitted index below the frontier in strict order,
    /// and no struck triangle outside emitted and the pending ranges.
    pub open spec fn wf(self, tris: Seq<Triangle>, r: Ray) -> bool {
        &&& self.leaf_next <= self.leaf_end <= tris.len()
        &&& forall|k: int| 0 <= k < self.stack@.len() ==> node_wf(*(#[trigger] self.stack@[k]), tris)
        &&& forall|k: int|
            0 <= k < self.stack@.len() ==> self.leaf_end <= (#[trigger] self.stack@[k]).lo
        &&& forall|k1: int, k2: int|
            0 <= k1 < k2 < self.stack@.len() ==> self.stack@[k2].hi <= self.stack@[k1].lo
        &&& sorted_strict(self.emitted@)
        &&& forall|k: int|
            0 <= k < self.emitted@.len() ==> (#[trigger] self.emitted@[k]) < self.leaf_next
        &&& forall|i: int|
            0 <= i < tris.len() && tri_hits(#[trigger] tris[i], r, Backfaces::Include)
                ==> contains_idx(self.emitted@, i) || (self.leaf_next <= i < self.leaf_end)
                || (exists|k: int|
                0 <= k < self.stack@.len() && (#[trigger] self.stack@[k]).lo <= i
                    < self.stack@[k].hi)
    }

    /// How much walking remains.
    pub open spec fn measure(self) -> nat {
        stack_weight(self.stack@) + if self.leaf_end >= self.leaf_next {
            (self.leaf_end - self.leaf_next) as nat
        } else {
            0
        }
    }

    /// Begin a walk at the root of a structure.
    pub fn new(root: &'a BvhNode, tris: &Vec<Triangle>, Ghost(r): Ghost<Ray>) -> (rt: Self)
        requires
            node_wf(*root, tris@),
            root.lo == 0,
            root.hi == tris@.len(),
        ensures
            rt.wf(tris@, r),
            rt.emitted@ == Seq::<usize>::empty(),
    {
        let mut stack: Vec<&'a BvhNode> = Vec::new();
        stack.push(root);
        let rt = RayTraversal { stack, leaf_next: 0, leaf_end: 0, emitted: Ghost(Seq::empty()) };
        proof {
            assert(rt.stack@[0] == root);
            assert forall|i: int|
                0 <= i < tris@.len() && tri_hits(#[trigger] tris@[i], r, Backfaces::Include) implies (
            exists|k: int|
                0 <= k < rt.stack@.len() && (#[trigger] rt.stack@[k]).lo <= i
                    < rt.stack@[k].hi) by {
                assert(rt.stack@[0].lo <= i < rt.stack@[0].hi);
            }
        }
        rt
    }

    /// Draw the next candidate triangle index, in ascending order, pruning
    /// subtrees whose bounds the ray cannot reach; `None` when the walk is
    /// done, at which point every struck triangle has been emitted.
    pub fn next_candidate(&mut self, tris: &Vec<Triangle>, r: &Ray) -> (res: Option<usize>)
        requires
            old(self).wf(tris@, *r),
            tris_wf(tris@),
            r.wf(),
        ensures
            final(self).wf(tris@, *r),
            match res {
                Some(i) => {
                    &&& final(self).emitted@ == old(self).emitted@.push(i)
                    &&& i < tris@.len()
                    &&& final(self).measure() < old(self).measure()
                },
                None => {
                    &&& final(self).emitted@ == old(self).emitted@
                    &&& final(self).measure() <= old(self).measure()
                    &&& forall|i: int|
                        0 <= i < tris@.len() && tri_hits(
                            #[trigger] tris@[i],
                            *r,
                            Backfaces::Include,
                        ) ==> contains_idx(final(self).emitted@, i)
                },
            },
    {
        loop
            invariant
                self.wf(tris@, *r),
                tris_wf(tris@),
                r.wf(),
                self.emitted@ == old(self).emitted@,
                self.measure() <= old(self).measure(),
            decreases self.measure(),
        {
            if self.leaf_next < self.leaf_end {
                let i = self.leaf_next;
                let ghost old_emitted = self.emitted@;
                self.emitted = Ghost(self.emitted@.push(i));
                self.leaf_next = i + 1;
                proof {
                    assert(self.emitted@[self.emitted@.len() - 1] as int == i as int);
                    assert forall|i2: int|
                        0 <= i2 < tris@.len() && tri_hits(
                            #[trigger] tris@[i2],
                            *r,
                            Backfaces::Include,
                        ) implies contains_idx(self.emitted@, i2) || (self.leaf_next <= i2
                        < self.leaf_end) || (exists|k: int|
                        0 <= k < self.stack@.len() && (#[trigger] self.stack@[k]).lo <= i2
                            < self.stack@[k].hi) by {
                        if contains_idx(old_emitted, i2) {
                            let kk = choose|kk: int|
                                0 <= kk < old_emitted.len() && (#[trigger] old_emitted[kk]) as int
                                    == i2;
                            assert(self.emitted@[kk] as int == i2);
                        } else if i2 == i as int {
                            assert(contains_idx(self.emitted@, i2));
                        }
                    }
                }
                return Some(i);
            }
            let ghost pre_stack = self.stack@;
            let node = match self.stack.pop() {
                None => {
                    proof {
                        assert forall|i2: int|
                            0 <= i2 < tris@.len() && tri_hits(
                                #[trigger] tris@[i2],
                                *r,
                                Backfaces::Include,
                            ) implies contains_idx(self.emitted@, i2) by {}
                    }
                    return None;
                },
                Some(n) => n,
            };
            proof {
                assert(pre_stack.drop_last() =~= self.stack@);
                assert(pre_stack.last() == node);
                assert(stack_weight(pre_stack) == stack_weight(self.stack@) + node_weight(*node));
                lemma_node_wf_range(*node, tris@);
                assert forall|k: int|
                    0 <= k < self.stack@.len() implies node.hi <= (#[trigger] self.stack@[k]).lo by {
                    assert(pre_stack[k] == self.stack@[k]);
                    assert(pre_stack[pre_stack.len() - 1] == node);
                }
            }
            match ray_aabb_intersection(r, &node.bounds) {
                None => {
                    proof {
                        assert(node_weight(*node) >= 1);
                        assert forall|i2: int|
                            0 <= i2 < tris@.len() && tri_hits(
                                #[trigger] tris@[i2],
                                *r,
                                Backfaces::Include,
                            ) implies contains_idx(self.emitted@, i2) || (self.leaf_next <= i2
                            < self.leaf_end) || (exists|k: int|
                            0 <= k < self.stack@.len() && (#[trigger] self.stack@[k]).lo <= i2
                                < self.stack@[k].hi) by {
                            if !contains_idx(self.emitted@, i2) && !(self.leaf_next <= i2
                                < self.leaf_end) {
                                let k = choose|k: int|
                                    0 <= k < pre_stack.len() && (#[trigger] pre_stack[k]).lo <= i2
                                        < pre_stack[k].hi;
                                if k == pre_stack.len() - 1 {
                                    let t = tris@[i2];
                                    lemma_hit_reaches_box(
                                        *r,
                                        t.positions[0],
                                        t.positions[1],
                                        t.positions[2],
                                        Backfaces::Include,
                                        node.bounds,
                                    );
                                } else {
                                    assert(self.stack@[k].lo <= i2 < self.stack@[k].hi);
                                }
                            }
                        }
                    }
                },
                Some(_) => {
                    match &node.children {
                        None => {
                            self.leaf_next = node.lo;
                            self.leaf_end = node.hi;
                            proof {
                                assert(node_weight(*node) == 1 + (node.hi - node.lo) as nat);
                                assert forall|i2: int|
                                    0 <= i2 < tris@.len() && tri_hits(
                                        #[trigger] tris@[i2],
                                        *r,
                                        Backfaces::Include,
                                    ) implies contains_idx(self.emitted@, i2) || (self.leaf_next
                                    <= i2 < self.leaf_end) || (exists|k: int|
                                    0 <= k < self.stack@.len() && (#[trigger] self.stack@[k]).lo
                                        <= i2 < self.stack@[k].hi) by {
                                    if !contains_idx(self.emitted@, i2) && !(self.leaf_next <= i2
                                        < self.leaf_end) {
                                        let k = choose|k: int|
                                            0 <= k < pre_stack.len() && (#[trigger] pre_stack[k]).lo
                                                <= i2 < pre_stack[k].hi;
                                        if k < pre_stack.len() - 1 {
                                            assert(self.stack@[k].lo <= i2 < self.stack@[k].hi);
                                        }
                                    }
                                }
                            }
                        },
                        Some(c) => {
                            let ghost mid_stack = self.stack@;
                            self.stack.push(&c.1);
                            self.stack.push(&c.0);
                            proof {
                                lemma_node_wf_range(*c.0, tris@);
                                lemma_node_wf_range(*c.1, tris@);
                                let n2 = self.stack@.len();
                                assert(self.stack@[n2 - 1] == &*c.0);
                                assert(self.stack@[n2 - 2] == &*c.1);
                                assert forall|k: int| 0 <= k < n2 - 2 implies self.stack@[k]
                                    == mid_stack[k] by {}
                                assert(self.stack@.drop_last() =~= mid_stack.push(&c.1));
                                assert(self.stack@.drop_last().drop_last() =~= mid_stack);
                                assert(stack_weight(self.stack@) == stack_weight(
                                    self.stack@.drop_last(),
                                ) + node_weight(*c.0));
                                assert(mid_stack.push(&c.1).last() == &*c.1);
                                assert(mid_stack.push(&c.1).drop_last() =~= mid_stack);
                                assert(stack_weight(mid_stack.push(&c.1)) == stack_weight(
                                    mid_stack,
                                ) + node_weight(*c.1));
                                assert(stack_weight(self.stack@) == stack_weight(mid_stack)
                                    + node_weight(*c.1) + node_weight(*c.0));
                                assert(node_weight(*node) == 1 + node_weight(*c.0) + node_weight(
                                    *c.1,
                                ));
                                assert forall|i2: int|
                                    0 <= i2 < tris@.len() && tri_hits(
                                        #[trigger] tris@[i2],
                                        *r,
                                        Backfaces::Include,
                                    ) implies contains_idx(self.emitted@, i2) || (self.leaf_next
                                    <= i2 < self.leaf_end) || (exists|k: int|
                                    0 <= k < self.stack@.len() && (#[trigger] self.stack@[k]).lo
                                        <= i2 < self.stack@[k].hi) by {
                                    if !contains_idx(self.emitted@, i2) && !(self.leaf_next <= i2
                                        < self.leaf_end) {
                                        let k = choose|k: int|
                                            0 <= k < pre_stack.len() && (#[trigger] pre_stack[k]).lo
                                                <= i2 < pre_stack[k].hi;
                                        if k == pre_stack.len() - 1 {
                                            if i2 < c.1.lo as int {
                                                assert(self.stack@[n2 - 1].lo <= i2 < self.stack@[
                                                    n2 - 1].hi);
                                            } else {
                                                assert(self.stack@[n2 - 2].lo <= i2 < self.stack@[
                                                    n2 - 2].hi);
                                            }
                                        } else {
                                            assert(self.stack@[k].lo <= i2 < self.stack@[k].hi);
                                        }
                                    }
                                }
                            }
                        },
                    }
                },
            }
        }
    }
}

/// A built acceleration structure: the tree and the exact triangle list it
/// was built from. The two are never separated: the tree's indices are only
/// meaningful against this order.
pub struct BvhCache {
    pub bvh: BvhNode,
    pub triangles: Vec<Triangle>,
}

impl BvhCache {
    pub open spec fn wf(self) -> bool {
        &&& tris_wf(self.triangles@)
        &&& node_wf(self.bvh, self.triangles@)
        &&& self.bvh.lo == 0
        &&& self.bvh.hi == self.triangles@.len()
    }
}

/// Build the general-purpose tree over a mesh: always builds, whatever the
/// triangle count; `None` only for a mesh this pipeline does not accept
/// (non-triangle-list topology or missing positions).
pub fn build_bvh_cache(mesh: &crate::common::MeshData) -> (r: Option<BvhCache>)
    requires
        mesh.wf(),
    ensures
        r.is_some() == (mesh.topology == crate::common::PrimitiveTopology::TriangleList
            && mesh.positions.is_some()),
        match r {
            Some(c) => c.wf() && c.triangles@ == crate::ray_cast::mesh_triangles(*mesh),
            None => true,
        },
{
    build_cache_with_leaf_size(mesh, 1)
}

/// Shared builder: extract the triangle list and build a tree with the
/// given leaf capacity.
pub fn build_cache_with_leaf_size(mesh: &crate::common::MeshData, leaf_size: usize) -> (r: Option<
    BvhCache,
>)
    requires
        mesh.wf(),
        leaf_size >= 1,
    ensures
        r.is_some() == (mesh.topology == crate::common::PrimitiveTopology::TriangleList
            && mesh.positions.is_some()),
        match r {
            Some(c) => c.wf() && c.triangles@ == crate::ray_cast::mesh_triangles(*mesh),
            None => true,
        },
{
    match mesh.topology {
        crate::common::PrimitiveTopology::TriangleList => {},
        crate::common::PrimitiveTopology::Other => {
            return None;
        },
    }
    let positions = match &mesh.positions {
        Some(ps) => ps,
        None => {
            return None;
        },
    };
    let normals = match &mesh.normals {
        Some(ns) => Some(ns),
        None => None,
    };
    let indices = match &mesh.indices {
        Some(ix) => Some(ix),
        None => None,
    };
    let triangles = crate::common::get_triangles(positions, normals, indices);
    proof {
        crate::common::lemma_extracted_wf(
            positions@,
            crate::common::normals_view(normals),
            match indices {
                Some(ix) => Some(*ix),
                None => None,
            },
        );
    }
    let n = triangles.len();
    let bvh = if n == 0 {
        BvhNode {
            bounds: crate::aabb::Aabb {
                min: Vec3i { x: 0, y: 0, z: 0 },
                max: Vec3i { x: 0, y: 0, z: 0 },
            },
            lo: 0,
            hi: 0,
            children: None,
        }
    } else {
        build_node(&triangles, 0, n, leaf_size)
    };
    Some(BvhCache { bvh, triangles })
}

/// Nearest hit of a cached structure against a mesh-space ray, through the
/// tree: collect the candidates the ray could strike, then scan them under
/// a shrinking bound. Agrees exactly with the scan of every triangle.
pub fn bvh_nearest(cache_bvh: &BvhNode, tris: &Vec<Triangle>, mray: &Ray, culling: Backfaces) -> (r:
    Option<RayMeshHit>)
    requires
        tris_wf(tris@),
        node_wf(*cache_bvh, tris@),
        cache_bvh.lo == 0,
        cache_bvh.hi == tris@.len(),
        mray.wf(),
    ensures
        nearest_hit_post(tris@, *mray, culling, r),
{
    let mut idxs: Vec<usize> = Vec::new();
    collect_candidates(cache_bvh, tris, mray, &mut idxs);
    proof {
        assert forall|i: int|
            0 <= i < tris@.len() && tri_hits(#[trigger] tris@[i], *mray, culling) implies contains_idx(
            idxs@,
            i,
        ) by {
            lemma_cull_hit_is_include_hit(tris@[i], *mray, culling);
        }
        lemma_scan_subset(tris@, *mray, culling, idxs@, tris@.len() as int);
    }
    scan_candidates(tris, &idxs, mray, culling)
}

} // verus!
