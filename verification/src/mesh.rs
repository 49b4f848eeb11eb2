//! Triangle fans over the cells.
//!
//! A cell is drawn as a fan of triangles around its site: vertex zero is the
//! site, the vertices after it are the corners of the boundary, and each
//! triangle joins the site to two corners that follow one another.  The last
//! triangle closes the fan by joining the last corner to the first.

use vstd::prelude::*;

verus! {

/// The number of triangles in the fan over `vertices` vertices, the site
/// among them: one for each corner, and one even where there is no corner.
pub open spec fn fan_triangles(vertices: nat) -> nat {
    if vertices <= 2 {
        1
    } else {
        (vertices - 1) as nat
    }
}

/// The index at place `place` of the fan over `vertices` vertices, the site
/// among them.  Triangle `t` is (0, `t` + 1, `t` + 2), but for the last, which
/// is (0, `vertices` - 1, 1).
pub open spec fn fan_index(vertices: nat, place: int) -> int {
    let triangle = place / 3;
    let corner = place % 3;
    if corner == 0 {
        0
    } else if triangle == fan_triangles(vertices) - 1 {
        if corner == 1 {
            vertices - 1
        } else {
            1
        }
    } else {
        triangle + corner
    }
}

/// The indices of the fan over `vertices` vertices, the site among them:
/// three for each triangle.
pub open spec fn fan(vertices: nat) -> Seq<u32> {
    Seq::new(3 * fan_triangles(vertices), |place: int| fan_index(vertices, place) as u32)
}

/// Lists the vertex indices of the triangles that fan out from the site of a
/// cell.  `vertices` counts the site and the corners of the boundary; every
/// index must fit the index type of a mesh.
pub fn fan_indices(vertices: usize) -> (indices: Vec<u32>)
    requires
        1 <= vertices,
        vertices - 1 <= u32::MAX,
    ensures
        indices@ == fan(vertices as nat),
{
    let mut indices: Vec<u32> = Vec::new();
    let mut i: usize = 1;
    while i < vertices - 1
        invariant
            1 <= i,
            1 <= vertices,
            vertices - 1 <= u32::MAX,
            i <= vertices - 1 || i == 1,
            indices@.len() == 3 * (i - 1),
            forall|place: int|
                0 <= place < indices@.len() ==> #[trigger] indices@[place] == fan_index(
                    vertices as nat,
                    place,
                ),
        decreases vertices - i,
    {
        indices.push(0);
        indices.push(i as u32);
        indices.push(i as u32 + 1);
        i += 1;
    }
    indices.push(0);
    indices.push((vertices - 1) as u32);
    indices.push(1);
    assert(indices@ =~= fan(vertices as nat));
    indices
}

} // verus!
