//! The triangles of a sphere that is cut into stacks from pole to pole and
//! into sectors around its axis.

use vstd::prelude::*;

verus! {

/// Number of vertices of the sphere: one ring of `sectors + 1` for each of
/// the `stacks + 1` latitudes.
pub open spec fn vertex_count(sectors: int, stacks: int) -> int {
    (stacks + 1) * (sectors + 1)
}

/// The vertex at corner `corner` (0 to 5) of the two triangles that cover
/// the patch in stack `i` and sector `j`.
pub open spec fn patch_corner(sectors: int, i: int, j: int, corner: int) -> int {
    let first = i * (sectors + 1) + j;
    let second = first + sectors + 1;
    if corner == 0 {
        first
    } else if corner == 1 {
        second
    } else if corner == 2 {
        first + 1
    } else if corner == 3 {
        second
    } else if corner == 4 {
        second + 1
    } else {
        first + 1
    }
}

/// Every corner of a patch is a vertex of the sphere.
pub proof fn lemma_corner_in_range(sectors: int, stacks: int, i: int, j: int, corner: int)
    requires
        0 <= i < stacks,
        0 <= j < sectors,
        0 <= corner < 6,
    ensures
        0 <= patch_corner(sectors, i, j, corner) < vertex_count(sectors, stacks),
{
    assert(0 <= i * (sectors + 1) && (i + 2) * (sectors + 1) <= (stacks + 1) * (sectors + 1))
        by (nonlinear_arith)
        requires
            0 <= i < stacks,
            0 <= sectors,
    ;
    assert((i + 2) * (sectors + 1) == i * (sectors + 1) + 2 * (sectors + 1)) by (nonlinear_arith);
}

/// The index list of the sphere: six entries for each patch, stack by stack
/// and sector by sector, naming the corners of its two triangles.
pub fn generate_sphere_indices(sectors: u32, stacks: u32) -> (indices: Vec<u32>)
    requires
        vertex_count(sectors as int, stacks as int) <= u32::MAX,
    ensures
        indices.len() == 6 * (stacks * sectors),
        forall|i: int, j: int, corner: int|
            0 <= i < stacks && 0 <= j < sectors && 0 <= corner < 6 ==> indices[6 * (i * sectors
                + j) + corner] == #[trigger] patch_corner(sectors as int, i, j, corner),
        forall|at: int|
            0 <= at < indices.len() ==> 0 <= #[trigger] indices[at] < vertex_count(
                sectors as int,
                stacks as int,
            ),
{
    let mut indices: Vec<u32> = Vec::new();
    let mut i: u32 = 0;
    while i < stacks
        invariant
            i <= stacks,
            vertex_count(sectors as int, stacks as int) <= u32::MAX,
            indices.len() == 6 * (i * sectors),
            forall|a: int, b: int, corner: int|
                0 <= a < i && 0 <= b < sectors && 0 <= corner < 6 ==> indices[6 * (a * sectors + b)
                    + corner] == #[trigger] patch_corner(sectors as int, a, b, corner),
            forall|at: int|
                0 <= at < indices.len() ==> 0 <= #[trigger] indices[at] < vertex_count(
                    sectors as int,
                    stacks as int,
                ),
        decreases stacks - i,
    {
        let mut j: u32 = 0;
        while j < sectors
            invariant
                i < stacks,
                j <= sectors,
                vertex_count(sectors as int, stacks as int) <= u32::MAX,
                indices.len() == 6 * (i * sectors + j),
                forall|a: int, b: int, corner: int|
                    0 <= a < i && 0 <= b < sectors && 0 <= corner < 6 ==> indices[6 * (a * sectors
                        + b) + corner] == #[trigger] patch_corner(sectors as int, a, b, corner),
                forall|b: int, corner: int|
                    0 <= b < j && 0 <= corner < 6 ==> indices[6 * (i * sectors + b) + corner]
                        == #[trigger] patch_corner(sectors as int, i as int, b, corner),
                forall|at: int|
                    0 <= at < indices.len() ==> 0 <= #[trigger] indices[at] < vertex_count(
                        sectors as int,
                        stacks as int,
                    ),
            decreases sectors - j,
        {
            proof {
                lemma_corner_in_range(sectors as int, stacks as int, i as int, j as int, 0);
                lemma_corner_in_range(sectors as int, stacks as int, i as int, j as int, 4);
            }
            let ghost before = indices@;
            let first: u32 = i * (sectors + 1) + j;
            let second: u32 = first + sectors + 1;
            indices.push(first);
            indices.push(second);
            indices.push(first + 1);
            indices.push(second);
            indices.push(second + 1);
            indices.push(first + 1);
            proof {
                let base = 6 * (i * sectors + j);
                assert(before.len() == base);
                assert forall|a: int, b: int, corner: int|
                    0 <= a < i && 0 <= b < sectors && 0 <= corner < 6 implies indices[6 * (a
                    * sectors + b) + corner] == #[trigger] patch_corner(
                    sectors as int,
                    a,
                    b,
                    corner,
                ) by {
                    lemma_patch_before(sectors as int, a, b, i as int, j as int);
                    assert(indices[6 * (a * sectors + b) + corner] == before[6 * (a * sectors + b)
                        + corner]);
                }
                assert forall|b: int, corner: int| 0 <= b < j + 1 && 0 <= corner < 6 implies indices[6
                    * (i * sectors + b) + corner] == #[trigger] patch_corner(
                    sectors as int,
                    i as int,
                    b,
                    corner,
                ) by {
                    if b < j {
                        assert(indices[6 * (i * sectors + b) + corner] == before[6 * (i * sectors
                            + b) + corner]);
                    }
                }
                assert forall|at: int| 0 <= at < indices.len() implies 0 <= #[trigger] indices[at]
                    < vertex_count(sectors as int, stacks as int) by {
                    if at < base {
                        assert(indices[at] == before[at]);
                    }
                }
            }
            j = j + 1;
        }
        proof {
            assert(i * sectors + sectors == (i + 1) * sectors) by (nonlinear_arith);
        }
        i = i + 1;
    }
    indices
}

/// The patches of an earlier stack come before the patches of a later one
/// in the index list.
proof fn lemma_patch_before(sectors: int, a: int, b: int, i: int, j: int)
    requires
        0 <= a < i,
        0 <= b < sectors,
        0 <= j,
    ensures
        a * sectors + b < i * sectors + j,
        0 <= a * sectors + b,
{
    assert(a * sectors + sectors <= i * sectors && 0 <= a * sectors) by (nonlinear_arith)
        requires
            0 <= a < i,
            0 <= sectors,
    ;
}

} // verus!
