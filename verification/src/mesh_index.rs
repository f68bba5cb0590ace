//! Index buffers of the preview meshes: every face is a quad split into two triangles.

use vstd::prelude::*;

verus! {

/// The six triangle indices of a quad whose four corners are the vertices `base .. base + 3`,
/// split along the diagonal `base`–`base + 2`.
pub open spec fn quad_indices(base: int) -> Seq<u32> {
    seq![
        base as u32,
        (base + 1) as u32,
        (base + 2) as u32,
        base as u32,
        (base + 2) as u32,
        (base + 3) as u32,
    ]
}

/// Every index names one of the first `vertex_count` vertices.
pub open spec fn indices_below(indices: Seq<u32>, vertex_count: int) -> bool {
    forall|i: int| 0 <= i < indices.len() ==> (#[trigger] indices[i]) < vertex_count
}

/// An indexed triangle list over `vertex_count` vertices: whole triangles, no dangling index.
pub open spec fn is_triangle_mesh(vertex_count: int, indices: Seq<u32>) -> bool {
    &&& indices.len() % 3 == 0
    &&& indices_below(indices, vertex_count)
}

/// Appends the triangles of a quad whose corners were pushed right after the first
/// `positions_len` coordinates (three per vertex), so its first corner is vertex `positions_len / 3`.
pub fn push_quad_indices(indices: &mut Vec<u32>, positions_len: usize)
    requires
        positions_len / 3 + 3 <= u32::MAX,
    ensures
        final(indices)@ == old(indices)@ + quad_indices(positions_len as int / 3),
        final(indices)@.len() == old(indices)@.len() + 6,
        final(indices)@.subrange(0, old(indices)@.len() as int) == old(indices)@,
        final(indices)@[old(indices)@.len() as int] as int == positions_len as int / 3,
        final(indices)@[old(indices)@.len() as int + 1] as int == positions_len as int / 3 + 1,
        final(indices)@[old(indices)@.len() as int + 2] as int == positions_len as int / 3 + 2,
        final(indices)@[old(indices)@.len() as int + 3] as int == positions_len as int / 3,
        final(indices)@[old(indices)@.len() as int + 4] as int == positions_len as int / 3 + 2,
        final(indices)@[old(indices)@.len() as int + 5] as int == positions_len as int / 3 + 3,
        is_triangle_mesh(positions_len as int / 3, old(indices)@) ==> is_triangle_mesh(
            positions_len as int / 3 + 4,
            final(indices)@,
        ),
{
    let base = (positions_len / 3) as u32;
    let ghost before = indices@;
    indices.push(base);
    indices.push(base + 1);
    indices.push(base + 2);
    indices.push(base);
    indices.push(base + 2);
    indices.push(base + 3);
    assert(indices@ =~= before + quad_indices(positions_len as int / 3));
    assert(indices@.subrange(0, before.len() as int) =~= before);
    proof {
        if is_triangle_mesh(positions_len as int / 3, before) {
            lemma_quad_keeps_triangle_mesh(positions_len as int / 3, before);
        }
    }
}

/// A quad's two triangles use exactly its four corners `base .. base + 3`: every index lies
/// in that range, each corner is used, and both triangles contain the diagonal `base`–`base + 2`
/// with the same winding.
pub proof fn lemma_quad_uses_its_corners(base: int)
    requires
        0 <= base,
        base + 3 <= u32::MAX,
    ensures
        quad_indices(base).len() == 6,
        forall|i: int|
            0 <= i < 6 ==> base <= (#[trigger] quad_indices(base)[i]) < base + 4,
        quad_indices(base)[0] == base && quad_indices(base)[2] == base + 2,
        quad_indices(base)[3] == base && quad_indices(base)[4] == base + 2,
        quad_indices(base)[1] == base + 1 && quad_indices(base)[5] == base + 3,
{
}

/// Adding a quad's four corners and its two triangles to a triangle mesh gives a triangle mesh.
pub proof fn lemma_quad_keeps_triangle_mesh(vertex_count: int, indices: Seq<u32>)
    requires
        0 <= vertex_count,
        vertex_count + 3 <= u32::MAX,
        is_triangle_mesh(vertex_count, indices),
    ensures
        is_triangle_mesh(vertex_count + 4, indices + quad_indices(vertex_count)),
{
    let out = indices + quad_indices(vertex_count);
    assert forall|i: int| 0 <= i < out.len() implies (#[trigger] out[i]) < vertex_count + 4 by {
        if i < indices.len() {
            assert(out[i] == indices[i]);
        } else {
            assert(out[i] == quad_indices(vertex_count)[i - indices.len()]);
        }
    }
}

/// Building a mesh quad by quad from nothing: after `quad_count` quads there are
/// `4 * quad_count` vertices and the index buffer is a triangle mesh over them.
pub open spec fn quads_indices(quad_count: nat) -> Seq<u32>
    decreases quad_count,
{
    if quad_count == 0 {
        Seq::empty()
    } else {
        quads_indices((quad_count - 1) as nat) + quad_indices(4 * (quad_count - 1))
    }
}

/// Any number of quads pushed one after another forms a triangle mesh with six indices per quad.
pub proof fn lemma_quads_form_triangle_mesh(quad_count: nat)
    requires
        4 * quad_count <= u32::MAX,
    ensures
        is_triangle_mesh(4 * quad_count as int, quads_indices(quad_count)),
        quads_indices(quad_count).len() == 6 * quad_count,
    decreases quad_count,
{
    if quad_count > 0 {
        lemma_quads_form_triangle_mesh((quad_count - 1) as nat);
        lemma_quad_keeps_triangle_mesh(4 * (quad_count - 1), quads_indices((quad_count - 1) as nat));
    }
}

} // verus!
