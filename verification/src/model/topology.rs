//! Triangle index lists: which triangles can be drawn and which index lists
//! the loader accepts.
use vstd::prelude::*;
use crate::text::owned;

verus! {

/// Triangle `t` (indices `3t .. 3t + 3`) refers only to existing vertices.
pub open spec fn triangle_in_range(indices: Seq<u32>, vertex_count: nat, t: int) -> bool {
    indices[3 * t] < vertex_count && indices[3 * t + 1] < vertex_count && indices[3 * t + 2]
        < vertex_count
}

/// The index triples of the first `t` complete triangles whose three vertices
/// exist, in order; other triangles are left out.
pub open spec fn drawable(indices: Seq<u32>, vertex_count: nat, t: nat) -> Seq<u32>
    decreases t,
{
    if t == 0 {
        Seq::empty()
    } else {
        let k = t - 1;
        drawable(indices, vertex_count, (t - 1) as nat) + if triangle_in_range(
            indices,
            vertex_count,
            k,
        ) {
            seq![indices[3 * k], indices[3 * k + 1], indices[3 * k + 2]]
        } else {
            Seq::empty()
        }
    }
}

/// The triangles a renderer draws from a triangle list: complete triples only
/// (trailing indices are ignored), and only those whose three vertices exist.
/// Both the CPU rasterizer and the GPU pipeline draw exactly these.
pub fn drawable_triangles(indices: &[u32], vertex_count: usize) -> (r: Vec<u32>)
    ensures
        r@ == drawable(indices@, vertex_count as nat, indices@.len() / 3),
{
    let count = indices.len() / 3;
    assert(3 * count <= indices@.len()) by (nonlinear_arith)
        requires
            count == indices@.len() / 3,
    ;
    let mut out: Vec<u32> = Vec::new();
    let mut t: usize = 0;
    while t < count
        invariant
            t <= count,
            count == indices@.len() / 3,
            3 * count <= indices@.len(),
            out@ == drawable(indices@, vertex_count as nat, t as nat),
        decreases count - t,
    {
        let len = indices.len();
        assert(3 * t + 2 < indices@.len()) by (nonlinear_arith)
            requires
                t < count,
                3 * count <= indices@.len(),
        ;
        let a = indices[3 * t];
        let b = indices[3 * t + 1];
        let c = indices[3 * t + 2];
        if (a as usize) < vertex_count && (b as usize) < vertex_count && (c as usize) < vertex_count {
            out.push(a);
            out.push(b);
            out.push(c);
        }
        t = t + 1;
        assert(out@ =~= drawable(indices@, vertex_count as nat, t as nat));
    }
    out
}

/// Why a triangle list is not a usable model.
#[derive(Clone, Copy, Debug, PartialEq, Eq)]
pub enum MeshError {
    /// No vertices, or fewer than three indices.
    NoTriangles,
    /// The index count is not a multiple of three.
    IncompleteTriangles,
    /// An index refers past the last vertex.
    IndexOutOfRange,
}

/// The loader's structural verdict on a triangle list.
pub open spec fn structure_verdict(vertex_count: nat, indices: Seq<u32>) -> Result<(), MeshError> {
    if vertex_count == 0 || indices.len() < 3 {
        Err(MeshError::NoTriangles)
    } else if indices.len() % 3 != 0 {
        Err(MeshError::IncompleteTriangles)
    } else if exists|i: int| 0 <= i < indices.len() && indices[i] >= vertex_count {
        Err(MeshError::IndexOutOfRange)
    } else {
        Ok(())
    }
}

/// The structural invariants both rasterizers rely on: at least one vertex
/// and one triangle, complete triangles only, and every index naming an
/// existing vertex.
pub fn validate_structure(vertex_count: usize, indices: &[u32]) -> (r: Result<(), MeshError>)
    ensures
        r == structure_verdict(vertex_count as nat, indices@),
        r is Ok <==> {
            &&& vertex_count > 0
            &&& indices@.len() >= 3
            &&& indices@.len() % 3 == 0
            &&& forall|i: int| 0 <= i < indices@.len() ==> (#[trigger] indices@[i] as nat) < vertex_count
        },
{
    if vertex_count == 0 || indices.len() < 3 {
        return Err(MeshError::NoTriangles);
    }
    if indices.len() % 3 != 0 {
        return Err(MeshError::IncompleteTriangles);
    }
    let n = indices.len();
    let mut i: usize = 0;
    while i < n
        invariant
            i <= n,
            n == indices@.len(),
            vertex_count != 0,
            n >= 3,
            n % 3 == 0,
            forall|j: int| 0 <= j < i ==> indices@[j] < vertex_count,
        decreases n - i,
    {
        if (indices[i] as usize) >= vertex_count {
            assert(indices@[i as int] >= vertex_count);
            return Err(MeshError::IndexOutOfRange);
        }
        i = i + 1;
    }
    Ok(())
}

impl MeshError {
    /// The text of the error.
    pub open spec fn text(self) -> Seq<char> {
        match self {
            MeshError::NoTriangles => "model contains no triangles"@,
            MeshError::IncompleteTriangles => "model has an incomplete triangle index list"@,
            MeshError::IndexOutOfRange => "model has an out-of-range vertex index"@,
        }
    }

    /// The text of the error, as the loader reports it after the file name.
    pub fn message(&self) -> (r: String)
        ensures
            r@ == self.text(),
    {
        match self {
            MeshError::NoTriangles => owned("model contains no triangles"),
            MeshError::IncompleteTriangles => owned("model has an incomplete triangle index list"),
            MeshError::IndexOutOfRange => owned("model has an out-of-range vertex index"),
        }
    }
}

/// Every index a renderer draws names an existing vertex, and they come in
/// whole triangles.
pub proof fn lemma_drawable_in_range(indices: Seq<u32>, vertex_count: nat, t: nat)
    ensures
        drawable(indices, vertex_count, t).len() % 3 == 0,
        forall|i: int|
            0 <= i < drawable(indices, vertex_count, t).len() ==> #[trigger] drawable(
                indices,
                vertex_count,
                t,
            )[i] < vertex_count,
    decreases t,
{
    if t > 0 {
        lemma_drawable_in_range(indices, vertex_count, (t - 1) as nat);
    }
}

/// A triangle list that passes the loader's structure check is drawn in full:
/// the renderers skip nothing from a loaded model.
pub proof fn lemma_validated_mesh_draws_every_triangle(vertex_count: nat, indices: Seq<u32>)
    requires
        structure_verdict(vertex_count, indices) is Ok,
    ensures
        drawable(indices, vertex_count, indices.len() / 3) == indices,
{
    assert forall|i: int| 0 <= i < indices.len() implies indices[i] < vertex_count by {
        if indices[i] >= vertex_count {
            assert(exists|j: int| 0 <= j < indices.len() && indices[j] >= vertex_count);
        }
    }
    lemma_drawable_prefix(indices, vertex_count, indices.len() / 3);
    assert(indices.take((3 * (indices.len() / 3)) as int) =~= indices);
}

proof fn lemma_drawable_prefix(indices: Seq<u32>, vertex_count: nat, t: nat)
    requires
        3 * t <= indices.len(),
        forall|i: int| 0 <= i < indices.len() ==> indices[i] < vertex_count,
    ensures
        drawable(indices, vertex_count, t) == indices.take((3 * t) as int),
    decreases t,
{
    if t > 0 {
        lemma_drawable_prefix(indices, vertex_count, (t - 1) as nat);
        let k = t - 1;
        assert(triangle_in_range(indices, vertex_count, k));
        assert(indices.take((3 * t) as int) =~= indices.take(3 * k) + seq![
            indices[3 * k],
            indices[3 * k + 1],
            indices[3 * k + 2],
        ]);
    } else {
        assert(indices.take(0) =~= Seq::<u32>::empty());
    }
}

/// Applying the triangle filter to its own output changes nothing.
pub proof fn lemma_drawable_idempotent(indices: Seq<u32>, vertex_count: nat)
    ensures
        ({
            let d = drawable(indices, vertex_count, indices.len() / 3);
            drawable(d, vertex_count, d.len() / 3) == d
        }),
{
    let d = drawable(indices, vertex_count, indices.len() / 3);
    lemma_drawable_in_range(indices, vertex_count, indices.len() / 3);
    lemma_drawable_prefix(d, vertex_count, d.len() / 3);
    assert(d.take((3 * (d.len() / 3)) as int) =~= d);
}

// ---------------------------------------------------------------------------
// Loader index lists

/// The index list of an STL model: every face has its own three vertices,
/// numbered consecutively.
pub fn stl_triangle_indices(face_count: usize) -> (r: Vec<u32>)
    requires
        face_count * 3 <= 0x1_0000_0000,
    ensures
        r@ == Seq::new((face_count * 3) as nat, |i: int| i as u32),
{
    let mut out: Vec<u32> = Vec::new();
    let mut f: usize = 0;
    while f < face_count
        invariant
            f <= face_count,
            face_count * 3 <= 0x1_0000_0000,
            out@ == Seq::new((f * 3) as nat, |i: int| i as u32),
        decreases face_count - f,
    {
        let base = (3 * f) as u32;
        out.push(base);
        out.push(base + 1);
        out.push(base + 2);
        f = f + 1;
        assert(out@ =~= Seq::new((f * 3) as nat, |i: int| i as u32));
    }
    out
}

/// The index list of an STL model with at least one face passes the
/// loader's structure check for the `3 * face_count` vertices it creates.
pub proof fn lemma_stl_indices_are_valid(face_count: nat)
    requires
        1 <= face_count,
        face_count * 3 <= 0x1_0000_0000,
    ensures
        structure_verdict(face_count * 3, Seq::new(face_count * 3, |i: int| i as u32)) is Ok,
{
    let s = Seq::new(face_count * 3, |i: int| i as u32);
    assert forall|i: int| 0 <= i < s.len() implies s[i] < face_count * 3 by {}
}

/// Whether `face_count` STL faces can be numbered with 32-bit vertex
/// numbers (three vertices each).
pub fn stl_faces_fit(face_count: usize) -> (r: bool)
    ensures
        r == (face_count * 3 <= 0x1_0000_0000),
{
    face_count as u128 * 3 <= 0x1_0000_0000u128
}

/// An OBJ model's positions come as whole `(x, y, z)` triples.
pub fn obj_positions_complete(position_count: usize) -> (r: bool)
    ensures
        r == (position_count % 3 == 0),
{
    position_count % 3 == 0
}

/// The first vertex number of the next OBJ model: the vertex count so far,
/// truncated to 32 bits as the loader stores it.
pub open spec fn obj_base(vertices_before: nat) -> nat {
    vertices_before % 0x1_0000_0000
}

/// Whether every index of an OBJ model, offset by the vertices loaded before
/// it, still fits in 32 bits.
pub fn obj_indices_fit(vertices_before: usize, model_indices: &[u32]) -> (r: bool)
    ensures
        r == (forall|i: int|
            0 <= i < model_indices@.len() ==> obj_base(vertices_before as nat) + #[trigger] model_indices@[i]
                <= u32::MAX),
{
    let base = (vertices_before as u64 % 0x1_0000_0000u64) as u32;
    let n = model_indices.len();
    let mut k: usize = 0;
    while k < n
        invariant
            k <= n,
            n == model_indices@.len(),
            base == obj_base(vertices_before as nat),
            forall|i: int| 0 <= i < k ==> obj_base(vertices_before as nat) + #[trigger] model_indices@[i] <= u32::MAX,
        decreases n - k,
    {
        if base.checked_add(model_indices[k]).is_none() {
            return false;
        }
        k = k + 1;
    }
    true
}

/// Appends an OBJ model's indices, offset by the number of vertices loaded
/// before it.
pub fn append_obj_indices(out: &mut Vec<u32>, vertices_before: usize, model_indices: &[u32])
    requires
        forall|i: int|
            0 <= i < model_indices@.len() ==> obj_base(vertices_before as nat)
                + #[trigger] model_indices@[i] <= u32::MAX,
    ensures
        final(out)@ == old(out)@ + model_indices@.map_values(
            |i: u32| (obj_base(vertices_before as nat) + i) as u32,
        ),
        final(out)@.len() == old(out)@.len() + model_indices@.len(),
        forall|k: int| 0 <= k < old(out)@.len() ==> final(out)@[k] == old(out)@[k],
        vertices_before <= u32::MAX ==> forall|k: int|
            0 <= k < model_indices@.len() ==> final(out)@[old(out)@.len() + k] == vertices_before
                + #[trigger] model_indices@[k],
{
    let base = (vertices_before as u64 % 0x1_0000_0000u64) as u32;
    let ghost start = old(out)@;
    let n = model_indices.len();
    let mut k: usize = 0;
    while k < n
        invariant
            k <= n,
            n == model_indices@.len(),
            base == obj_base(vertices_before as nat),
            forall|i: int|
                0 <= i < model_indices@.len() ==> obj_base(vertices_before as nat)
                    + #[trigger] model_indices@[i] <= u32::MAX,
            out@ == start + model_indices@.take(k as int).map_values(
                |i: u32| (obj_base(vertices_before as nat) + i) as u32,
            ),
        decreases n - k,
    {
        let idx = model_indices[k];
        out.push(base + idx);
        k = k + 1;
        assert(model_indices@.take(k as int).map_values(
            |i: u32| (obj_base(vertices_before as nat) + i) as u32,
        ) =~= model_indices@.take(k - 1).map_values(
            |i: u32| (obj_base(vertices_before as nat) + i) as u32,
        ).push((base + idx) as u32));
    }
    assert(model_indices@.take(n as int) =~= model_indices@);
}

} // verus!
