//! The cheap first pass over all pairs of bodies. It keeps every pair whose
//! bounding boxes touch, which no pair of overlapping bodies can fail to do.

use crate::body::{models_of, Body, BodyModel};
use crate::narrow_phase::{gap, overlapping, reach};
use vstd::prelude::*;

verus! {

/// Whether the axis-aligned boxes around the bounding spheres of `a` and `b`
/// intersect: on each axis the centres are closer than the sum of the radii.
pub open spec fn boxes_touch(a: BodyModel, b: BodyModel) -> bool {
    let g = gap(a, b);
    let r = reach(a, b);
    &&& -r < g.x < r
    &&& -r < g.y < r
    &&& -r < g.z < r
}

/// Whether the ordered pair `(a, b)` is handed on to the exact test. The
/// first body moves; the second is static, or moves and has the larger id;
/// and their bounding boxes touch.
pub open spec fn is_candidate(a: BodyModel, b: BodyModel) -> bool {
    &&& a.is_dynamic()
    &&& !b.is_dynamic() || a.id < b.id
    &&& boxes_touch(a, b)
}

/// The candidates whose first body is at place `i` and whose second body is
/// at a place below `upto`, by rising place of the second.
pub open spec fn row_candidates(bodies: Seq<BodyModel>, i: int, upto: int) -> Seq<(usize, usize)>
    decreases upto,
{
    if upto <= 0 {
        Seq::empty()
    } else {
        let earlier = row_candidates(bodies, i, upto - 1);
        if is_candidate(bodies[i], bodies[upto - 1]) {
            earlier.push((i as usize, (upto - 1) as usize))
        } else {
            earlier
        }
    }
}

/// The candidates whose first body is at a place below `rows`, row after row.
pub open spec fn candidates_upto(bodies: Seq<BodyModel>, rows: int) -> Seq<(usize, usize)>
    decreases rows,
{
    if rows <= 0 {
        Seq::empty()
    } else {
        candidates_upto(bodies, rows - 1) + row_candidates(
            bodies,
            rows - 1,
            bodies.len() as int,
        )
    }
}

/// All candidate pairs of `bodies`, each as the places of its two bodies,
/// ordered by the first place and then by the second.
pub open spec fn candidate_pairs(bodies: Seq<BodyModel>) -> Seq<(usize, usize)> {
    candidates_upto(bodies, bodies.len() as int)
}

/// Whether `p` comes before `q` when pairs are ordered by their first place
/// and then by their second.
pub open spec fn pair_before(p: (usize, usize), q: (usize, usize)) -> bool {
    p.0 < q.0 || (p.0 == q.0 && p.1 < q.1)
}

/// Whether the bounding boxes of `a` and `b` touch.
pub fn may_touch(a: &Body, b: &Body) -> (r: bool)
    ensures
        r == boxes_touch(a@, b@),
{
    let g = b.transform.position.sub(&a.transform.position);
    let r = a.shape.bounding_radius().add(&b.shape.bounding_radius());
    let low: i128 = -(r.raw as i128);
    let high: i128 = r.raw as i128;
    low < g.x.raw as i128 && (g.x.raw as i128) < high && low < g.y.raw as i128 && (g.y.raw as i128)
        < high && low < g.z.raw as i128 && (g.z.raw as i128) < high
}

/// Whether the ordered pair `(a, b)` is a candidate.
pub fn candidate(a: &Body, b: &Body) -> (r: bool)
    ensures
        r == is_candidate(a@, b@),
{
    a.is_dynamic() && (!b.is_dynamic() || a.id.0 < b.id.0) && may_touch(a, b)
}

/// Scans all ordered pairs of bodies and returns the candidates, each as the
/// places of its two bodies.
pub fn broad_phase(bodies: &Vec<Body>) -> (pairs: Vec<(usize, usize)>)
    ensures
        pairs@ == candidate_pairs(models_of(bodies@)),
        forall|k: int|
            0 <= k < pairs.len() ==> (#[trigger] pairs[k]).0 < bodies.len() && pairs[k].1
                < bodies.len(),
{
    let n: usize = bodies.len();
    let ghost models = models_of(bodies@);
    let mut pairs: Vec<(usize, usize)> = Vec::new();
    let mut i: usize = 0;
    while i < n
        invariant
            i <= n,
            n == bodies.len(),
            models == models_of(bodies@),
            pairs@ == candidates_upto(models, i as int),
            forall|k: int|
                0 <= k < pairs.len() ==> (#[trigger] pairs[k]).0 < n && pairs[k].1 < n,
        decreases n - i,
    {
        let ghost done = pairs@;
        let mut j: usize = 0;
        assert(pairs@ =~= done + row_candidates(models, i as int, 0));
        while j < n
            invariant
                i < n,
                j <= n,
                n == bodies.len(),
                models == models_of(bodies@),
                done == candidates_upto(models, i as int),
                pairs@ == done + row_candidates(models, i as int, j as int),
                forall|k: int|
                    0 <= k < pairs.len() ==> (#[trigger] pairs[k]).0 < n && pairs[k].1 < n,
            decreases n - j,
        {
            if candidate(&bodies[i], &bodies[j]) {
                pairs.push((i, j));
                assert(pairs@ =~= done + row_candidates(models, i as int, j as int + 1));
            }
            j = j + 1;
        }
        i = i + 1;
    }
    pairs
}

/// The pairs of one row are exactly the candidates of that row.
pub proof fn lemma_row_members(bodies: Seq<BodyModel>, i: int, upto: int, p: (usize, usize))
    requires
        0 <= i < bodies.len(),
        0 <= upto <= bodies.len() <= usize::MAX,
    ensures
        row_candidates(bodies, i, upto).contains(p) <==> (p.0 == i && p.1 < upto && is_candidate(
            bodies[i],
            bodies[p.1 as int],
        )),
    decreases upto,
{
    if upto > 0 {
        let earlier = row_candidates(bodies, i, upto - 1);
        lemma_row_members(bodies, i, upto - 1, p);
        let last = (i as usize, (upto - 1) as usize);
        if is_candidate(bodies[i], bodies[upto - 1]) {
            let row = earlier.push(last);
            assert(row[row.len() - 1] == last);
            if earlier.contains(p) {
                let k = choose|k: int| 0 <= k < earlier.len() && earlier[k] == p;
                assert(row[k] == p);
            }
        }
    }
}

/// The candidate list holds exactly the candidate pairs.
pub proof fn lemma_candidate_members(bodies: Seq<BodyModel>, rows: int, p: (usize, usize))
    requires
        0 <= rows <= bodies.len() <= usize::MAX,
    ensures
        candidates_upto(bodies, rows).contains(p) <==> (p.0 < rows && p.1 < bodies.len()
            && is_candidate(bodies[p.0 as int], bodies[p.1 as int])),
    decreases rows,
{
    if rows > 0 {
        let earlier = candidates_upto(bodies, rows - 1);
        let row = row_candidates(bodies, rows - 1, bodies.len() as int);
        lemma_candidate_members(bodies, rows - 1, p);
        lemma_row_members(bodies, rows - 1, bodies.len() as int, p);
        let all = earlier + row;
        if earlier.contains(p) {
            let k = choose|k: int| 0 <= k < earlier.len() && earlier[k] == p;
            assert(all[k] == p);
        }
        if row.contains(p) {
            let k = choose|k: int| 0 <= k < row.len() && row[k] == p;
            assert(all[earlier.len() + k] == p);
        }
        if all.contains(p) {
            let k = choose|k: int| 0 <= k < all.len() && all[k] == p;
            if k < earlier.len() {
                assert(earlier[k] == p);
            } else {
                assert(row[k - earlier.len()] == p);
            }
        }
    }
}

/// The pairs of one row come by strictly rising second place.
proof fn lemma_row_ordered(bodies: Seq<BodyModel>, i: int, upto: int)
    requires
        0 <= i < bodies.len(),
        0 <= upto <= bodies.len() <= usize::MAX,
    ensures
        forall|k: int|
            0 <= k < row_candidates(bodies, i, upto).len() ==> (#[trigger] row_candidates(
                bodies,
                i,
                upto,
            )[k]).0 == i && row_candidates(bodies, i, upto)[k].1 < upto,
        forall|k: int, l: int|
            0 <= k < l < row_candidates(bodies, i, upto).len() ==> pair_before(
                #[trigger] row_candidates(bodies, i, upto)[k],
                #[trigger] row_candidates(bodies, i, upto)[l],
            ),
    decreases upto,
{
    if upto > 0 {
        lemma_row_ordered(bodies, i, upto - 1);
        let earlier = row_candidates(bodies, i, upto - 1);
        let row = row_candidates(bodies, i, upto);
        let last = (i as usize, (upto - 1) as usize);
        if is_candidate(bodies[i], bodies[upto - 1]) {
            assert(row == earlier.push(last));
            assert forall|k: int| 0 <= k < row.len() implies (#[trigger] row[k]).0 == i && row[k].1
                < upto by {
                if k < earlier.len() {
                    assert(row[k] == earlier[k]);
                }
            }
            assert forall|k: int, l: int| 0 <= k < l < row.len() implies pair_before(
                #[trigger] row[k],
                #[trigger] row[l],
            ) by {
                assert(row[k] == earlier[k]);
                if l < earlier.len() {
                    assert(row[l] == earlier[l]);
                }
            }
        }
    }
}

/// The candidate list is strictly ordered by first place, then by second, so
/// no pair occurs in it twice.
pub proof fn lemma_candidates_ordered(bodies: Seq<BodyModel>, rows: int)
    requires
        0 <= rows <= bodies.len() <= usize::MAX,
    ensures
        forall|k: int|
            0 <= k < candidates_upto(bodies, rows).len() ==> (#[trigger] candidates_upto(
                bodies,
                rows,
            )[k]).0 < rows,
        forall|k: int, l: int|
            0 <= k < l < candidates_upto(bodies, rows).len() ==> pair_before(
                #[trigger] candidates_upto(bodies, rows)[k],
                #[trigger] candidates_upto(bodies, rows)[l],
            ),
    decreases rows,
{
    if rows > 0 {
        lemma_candidates_ordered(bodies, rows - 1);
        lemma_row_ordered(bodies, rows - 1, bodies.len() as int);
        let earlier = candidates_upto(bodies, rows - 1);
        let row = row_candidates(bodies, rows - 1, bodies.len() as int);
        let all = candidates_upto(bodies, rows);
        assert(all == earlier + row);
        assert forall|k: int| 0 <= k < all.len() implies (#[trigger] all[k]).0 < rows by {
            if k < earlier.len() {
                assert(all[k] == earlier[k]);
            } else {
                assert(all[k] == row[k - earlier.len()]);
            }
        }
        assert forall|k: int, l: int| 0 <= k < l < all.len() implies pair_before(
            #[trigger] all[k],
            #[trigger] all[l],
        ) by {
            if l < earlier.len() {
                assert(all[k] == earlier[k]);
                assert(all[l] == earlier[l]);
            } else if k < earlier.len() {
                assert(all[k] == earlier[k]);
                assert(all[l] == row[l - earlier.len()]);
            } else {
                assert(all[k] == row[k - earlier.len()]);
                assert(all[l] == row[l - earlier.len()]);
            }
        }
    }
}

/// Two overlapping spheres of positive radius have touching bounding boxes.
pub proof fn lemma_overlap_within_boxes(a: BodyModel, b: BodyModel)
    requires
        a.wf(),
        b.wf(),
        overlapping(a, b),
    ensures
        boxes_touch(a, b),
{
    let g = gap(a, b);
    let r = reach(a, b);
    assert(r > 0);
    assert(-r < g.x < r && -r < g.y < r && -r < g.z < r) by (nonlinear_arith)
        requires
            g.x * g.x + g.y * g.y + g.z * g.z < r * r,
            r > 0,
    ;
}

} // verus!
