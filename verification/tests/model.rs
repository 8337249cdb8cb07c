use a3d::model::accessor::{
    check_accessor, AccessorLayout, AccessorUse, ComponentType, Dimensions, SparseLayout,
    ViewLayout,
};
use a3d::model::glb::{
    append_primitive_indices, check_glb_buffers, check_primitive, check_topology, walk_scene, Attribute,
    GlbBuffer, GlbError, PrimitiveIndices, PrimitiveMode, SceneEntry,
};
use a3d::model::topology::{
    append_obj_indices, obj_indices_fit, obj_positions_complete, stl_faces_fit, stl_triangle_indices,
};
use a3d::model::{drawable_triangles, model_format, validate_structure, MeshError, ModelFormat};

#[test]
fn model_format_by_extension() {
    assert_eq!(model_format(Some("obj")), Some(ModelFormat::Obj));
    assert_eq!(model_format(Some("stl")), Some(ModelFormat::Stl));
    assert_eq!(model_format(Some("glb")), Some(ModelFormat::Glb));
    assert_eq!(model_format(Some("xyz")), None);
    assert_eq!(model_format(None), None);
    assert_eq!(model_format(Some("gltf")), None);
}

#[test]
fn model_format_is_case_insensitive() {
    assert_eq!(model_format(Some("OBJ")), Some(ModelFormat::Obj));
    assert_eq!(model_format(Some("GLB")), Some(ModelFormat::Glb));
    assert_eq!(model_format(Some("sTl")), Some(ModelFormat::Stl));
}

#[test]
fn invalid_programmatic_triangles_are_not_drawn() {
    assert!(drawable_triangles(&[0, 1, u32::MAX], 0).is_empty());
    assert_eq!(drawable_triangles(&[0, 1, 2, 0, 1, 9, 2, 1, 0, 5], 3), vec![0, 1, 2, 2, 1, 0]);
    assert!(drawable_triangles(&[], 3).is_empty());
}

#[test]
fn structure_check() {
    assert_eq!(validate_structure(0, &[]), Err(MeshError::NoTriangles));
    assert_eq!(validate_structure(3, &[0, 1]), Err(MeshError::NoTriangles));
    assert_eq!(validate_structure(0, &[0, 1, 2]), Err(MeshError::NoTriangles));
    assert_eq!(validate_structure(3, &[0, 1, 2, 0]), Err(MeshError::IncompleteTriangles));
    assert_eq!(validate_structure(3, &[0, 1, 3]), Err(MeshError::IndexOutOfRange));
    assert_eq!(validate_structure(3, &[0, 1, 2]), Ok(()));
    assert_eq!(MeshError::NoTriangles.message(), "model contains no triangles");
    assert_eq!(
        MeshError::IncompleteTriangles.message(),
        "model has an incomplete triangle index list"
    );
    assert_eq!(MeshError::IndexOutOfRange.message(), "model has an out-of-range vertex index");
}

#[test]
fn stl_faces_have_their_own_vertices() {
    assert_eq!(stl_triangle_indices(2), vec![0, 1, 2, 3, 4, 5]);
    assert!(stl_triangle_indices(0).is_empty());
    assert_eq!(validate_structure(6, &stl_triangle_indices(2)), Ok(()));
}

#[test]
fn obj_indices_are_offset_per_model() {
    let mut out = vec![0, 1, 2];
    append_obj_indices(&mut out, 3, &[0, 2, 1]);
    assert_eq!(out, vec![0, 1, 2, 3, 5, 4]);
    assert!(obj_positions_complete(9));
    assert!(!obj_positions_complete(10));
}

#[test]
fn rejects_cyclic_and_multiply_parented_scene_graphs() {
    assert_eq!(walk_scene(&vec![vec![0]], &[0]), Err(GlbError::RepeatedNode));
    assert_eq!(walk_scene(&vec![vec![1], vec![0]], &[0]), Err(GlbError::RepeatedNode));
    assert_eq!(
        walk_scene(&vec![vec![1, 2], vec![2], vec![]], &[0]),
        Err(GlbError::RepeatedNode)
    );
    // The same root listed twice.
    assert_eq!(walk_scene(&vec![vec![]], &[0, 0]), Err(GlbError::RepeatedNode));
    assert_eq!(
        GlbError::RepeatedNode.message(),
        "GLB scene contains a cycle or repeated node"
    );
}

#[test]
fn scene_walk_is_depth_first_preorder() {
    // 0 -> [1, 2], 1 -> [3]; roots 0 and 4.
    let children = vec![vec![1, 2], vec![3], vec![], vec![], vec![]];
    let walk = walk_scene(&children, &[0, 4]).unwrap();
    let nodes: Vec<usize> = walk.iter().map(|e| e.node).collect();
    assert_eq!(nodes, vec![0, 1, 3, 2, 4]);
    assert_eq!(walk[0], SceneEntry { node: 0, parent: None });
    assert_eq!(walk[1], SceneEntry { node: 1, parent: Some(0) });
    assert_eq!(walk[2], SceneEntry { node: 3, parent: Some(1) });
    assert_eq!(walk[3], SceneEntry { node: 2, parent: Some(0) });
    assert_eq!(walk[4], SceneEntry { node: 4, parent: None });
}

#[test]
fn deep_scene_walk_is_iterative() {
    let n = 10_000;
    let mut children: Vec<Vec<usize>> = (1..n).map(|i| vec![i]).collect();
    children.push(vec![]);
    let walk = walk_scene(&children, &[0]).unwrap();
    assert_eq!(walk.len(), n);
    assert_eq!(walk[n - 1], SceneEntry { node: n - 1, parent: Some(n - 2) });
}

#[test]
fn unreached_nodes_are_not_walked() {
    let children = vec![vec![], vec![0]];
    let walk = walk_scene(&children, &[0]).unwrap();
    assert_eq!(walk, vec![SceneEntry { node: 0, parent: None }]);
}

#[test]
fn buffers_must_be_the_embedded_chunk() {
    let ok = GlbBuffer { embedded: true, length: 44 };
    assert_eq!(check_glb_buffers(Some(44), &[ok]), Ok(()));
    assert_eq!(check_glb_buffers(None, &[ok]), Err(GlbError::NoBinaryBuffer));
    assert_eq!(
        check_glb_buffers(Some(36), &[ok]),
        Err(GlbError::ExternalOrTruncatedBuffer)
    );
    let external = GlbBuffer { embedded: false, length: 4 };
    assert_eq!(
        check_glb_buffers(Some(44), &[external]),
        Err(GlbError::ExternalOrTruncatedBuffer)
    );
    // Only buffer 0 can be the binary chunk.
    assert_eq!(
        check_glb_buffers(Some(44), &[ok, ok]),
        Err(GlbError::ExternalOrTruncatedBuffer)
    );
    assert_eq!(
        GlbError::ExternalOrTruncatedBuffer.message(),
        "GLB buffer is external or truncated"
    );
}

#[test]
fn primitive_checks() {
    assert_eq!(
        check_primitive(PrimitiveMode::Triangles, Some(3), Attribute::Absent, Attribute::Count(3)),
        Ok(3)
    );
    assert_eq!(
        check_primitive(PrimitiveMode::Lines, Some(3), Attribute::Absent, Attribute::Absent),
        Err(GlbError::UnsupportedTopology(PrimitiveMode::Lines))
    );
    assert_eq!(
        GlbError::UnsupportedTopology(PrimitiveMode::TriangleStrip).message(),
        "GLB primitive uses unsupported TriangleStrip topology (expected triangles)"
    );
    assert_eq!(
        check_primitive(PrimitiveMode::Triangles, None, Attribute::Absent, Attribute::Absent),
        Err(GlbError::NoPositions)
    );
    assert_eq!(
        check_primitive(PrimitiveMode::Triangles, Some(3), Attribute::Unreadable, Attribute::Absent),
        Err(GlbError::UnreadableNormals)
    );
    assert_eq!(
        check_primitive(PrimitiveMode::Triangles, Some(3), Attribute::Count(2), Attribute::Absent),
        Err(GlbError::NormalCountMismatch)
    );
    assert_eq!(
        check_primitive(PrimitiveMode::Triangles, Some(3), Attribute::Count(3), Attribute::Unreadable),
        Err(GlbError::UnreadableColors)
    );
    assert_eq!(
        check_primitive(PrimitiveMode::Triangles, Some(3), Attribute::Absent, Attribute::Count(4)),
        Err(GlbError::ColorCountMismatch)
    );
}

#[test]
fn primitive_indices_are_offset_and_checked() {
    let mut out = vec![7, 8, 9];
    let listed = PrimitiveIndices::Listed(vec![0, 1, 2]);
    assert_eq!(append_primitive_indices(&mut out, 10, 3, &listed, false), Ok(()));
    assert_eq!(out, vec![7, 8, 9, 10, 11, 12]);

    let mut out = Vec::new();
    let bad = PrimitiveIndices::Listed(vec![0, 1, 3]);
    assert_eq!(
        append_primitive_indices(&mut out, 0, 3, &bad, false),
        Err(GlbError::IndexOutOfRange)
    );
    assert!(out.is_empty());
    assert_eq!(
        GlbError::IndexOutOfRange.message(),
        "GLB primitive has an out-of-range vertex index"
    );

    let incomplete = PrimitiveIndices::Listed(vec![0, 1]);
    assert_eq!(
        append_primitive_indices(&mut out, 0, 3, &incomplete, false),
        Err(GlbError::IncompleteIndexedTriangle)
    );
    assert_eq!(
        append_primitive_indices(&mut out, 0, 3, &PrimitiveIndices::Unreadable, false),
        Err(GlbError::UnreadableIndices)
    );
    assert_eq!(
        append_primitive_indices(&mut out, 0, 4, &PrimitiveIndices::Absent, false),
        Err(GlbError::IncompleteTriangle)
    );
    let overflow = PrimitiveIndices::Listed(vec![0, 1, 2]);
    assert_eq!(
        append_primitive_indices(&mut out, u32::MAX as usize, 3, &overflow, false),
        Err(GlbError::IndexOverflow)
    );
    assert_eq!(
        append_primitive_indices(&mut out, u32::MAX as usize + 1, 3, &overflow, false),
        Err(GlbError::TooManyVertices)
    );
}

#[test]
fn reflections_reverse_winding_keeping_the_first_vertex() {
    let mut out = Vec::new();
    assert_eq!(append_primitive_indices(&mut out, 0, 3, &PrimitiveIndices::Absent, true), Ok(()));
    assert_eq!(out, vec![0, 2, 1]);
    let mut out = Vec::new();
    let listed = PrimitiveIndices::Listed(vec![0, 1, 2, 2, 1, 0]);
    assert_eq!(append_primitive_indices(&mut out, 5, 3, &listed, true), Ok(()));
    assert_eq!(out, vec![5, 7, 6, 7, 5, 6]);
    let mut out = Vec::new();
    assert_eq!(append_primitive_indices(&mut out, 0, 3, &PrimitiveIndices::Absent, false), Ok(()));
    assert_eq!(out, vec![0, 1, 2]);
}

#[test]
fn a_nodes_primitives_number_their_vertices_in_turn() {
    // Three primitives of one node, after 4 vertices already loaded:
    // a listed triangle (3 positions), a reflected non-indexed pair of
    // triangles (6 positions), and a listed pair reusing vertices (4 positions).
    let prims = [
        (3usize, PrimitiveIndices::Listed(vec![2, 1, 0]), false),
        (6, PrimitiveIndices::Absent, true),
        (4, PrimitiveIndices::Listed(vec![0, 1, 2, 2, 3, 0]), false),
    ];
    let mut out = vec![0, 1, 2];
    let mut vertices = 4usize;
    for (positions, indices, reflected) in &prims {
        assert_eq!(append_primitive_indices(&mut out, vertices, *positions, indices, *reflected), Ok(()));
        vertices += positions;
    }
    assert_eq!(out[..3], [0, 1, 2]);
    let appended = &out[3..];
    assert_eq!(appended, [6, 5, 4, 7, 9, 8, 10, 12, 11, 13, 14, 15, 15, 16, 13]);
    assert_eq!(appended.len() % 3, 0);
    assert!(appended.iter().all(|&i| (4..vertices as u32).contains(&i)));
}

#[test]
fn index_numbering_limits() {
    assert!(stl_faces_fit(0));
    assert!(stl_faces_fit(1_431_655_765));
    assert!(!stl_faces_fit(1_431_655_766));
    assert!(obj_indices_fit(0, &[0, 1, u32::MAX]));
    assert!(obj_indices_fit(5, &[0, u32::MAX - 5]));
    assert!(!obj_indices_fit(5, &[0, u32::MAX - 4]));
    // The vertex count is taken modulo 2^32, as the loader stores it.
    assert!(obj_indices_fit((1usize << 32) + 1, &[u32::MAX - 1]));
}

#[test]
fn topology_is_checked_first() {
    assert_eq!(check_topology(PrimitiveMode::Triangles), Ok(()));
    assert_eq!(
        check_topology(PrimitiveMode::TriangleStrip),
        Err(GlbError::UnsupportedTopology(PrimitiveMode::TriangleStrip))
    );
}

#[test]
fn accessor_layout_checks() {
    let view = ViewLayout { buffer: 0, offset: 8, length: 36, stride: None };
    let positions = AccessorLayout {
        component: ComponentType::F32,
        dimensions: Dimensions::Vec3,
        count: 3,
        offset: 0,
        view: Some(view),
        sparse: None,
    };
    assert_eq!(check_accessor(AccessorUse::Positions, &positions, 44), Ok(()));
    // The view must lie inside the binary chunk, in buffer 0.
    assert_eq!(check_accessor(AccessorUse::Positions, &positions, 43), Err(GlbError::UnreadablePositions));
    let other_buffer = AccessorLayout { view: Some(ViewLayout { buffer: 1, ..view }), ..positions };
    assert_eq!(check_accessor(AccessorUse::Normals, &other_buffer, 44), Err(GlbError::UnreadableNormals));
    // A stride shorter than an element, or elements past the view.
    let narrow = AccessorLayout { view: Some(ViewLayout { stride: Some(8), ..view }), ..positions };
    assert_eq!(check_accessor(AccessorUse::Positions, &narrow, 44), Err(GlbError::UnreadablePositions));
    let shifted = AccessorLayout { offset: 4, ..positions };
    assert_eq!(check_accessor(AccessorUse::Positions, &shifted, 44), Err(GlbError::UnreadablePositions));
    // A strided layout: 3 elements 16 bytes apart need 16 * 2 + 12 bytes.
    let strided = AccessorLayout {
        view: Some(ViewLayout { buffer: 0, offset: 0, length: 44, stride: Some(16) }),
        ..positions
    };
    assert_eq!(check_accessor(AccessorUse::Positions, &strided, 44), Ok(()));
    // Types: colors as bytes are fine, indices must be unsigned scalars.
    let colors = AccessorLayout { component: ComponentType::U8, dimensions: Dimensions::Vec4, ..positions };
    assert_eq!(check_accessor(AccessorUse::Colors, &colors, 44), Ok(()));
    assert_eq!(check_accessor(AccessorUse::Indices, &positions, 44), Err(GlbError::UnreadableIndices));
    let empty = AccessorLayout {
        component: ComponentType::U16,
        dimensions: Dimensions::Scalar,
        count: 0,
        ..positions
    };
    assert_eq!(check_accessor(AccessorUse::Indices, &empty, 44), Err(GlbError::UnreadableIndices));
    // The decoded budget: 256 MiB, at least 16 bytes per element.
    let huge = AccessorLayout { count: (1 << 24) + 1, view: None, ..positions };
    assert_eq!(check_accessor(AccessorUse::Positions, &huge, 44), Err(GlbError::AccessorTooLarge));
    let at_budget = AccessorLayout { count: 1 << 24, view: None, ..positions };
    assert_eq!(check_accessor(AccessorUse::Positions, &at_budget, 44), Ok(()));
    assert_eq!(
        GlbError::AccessorTooLarge.message(),
        "GLB accessor exceeds the 256 MiB decoded budget"
    );
    // Sparse indices and values must lie inside their views too.
    let sparse = SparseLayout {
        count: 2,
        index_component: ComponentType::U16,
        indices_view: ViewLayout { buffer: 0, offset: 0, length: 4, stride: None },
        indices_offset: 0,
        values_view: ViewLayout { buffer: 0, offset: 4, length: 24, stride: None },
        values_offset: 0,
    };
    let with_sparse = AccessorLayout { sparse: Some(sparse), ..positions };
    assert_eq!(check_accessor(AccessorUse::Positions, &with_sparse, 44), Ok(()));
    let short_values = AccessorLayout {
        sparse: Some(SparseLayout { values_view: ViewLayout { length: 23, ..sparse.values_view }, ..sparse }),
        ..positions
    };
    assert_eq!(check_accessor(AccessorUse::Positions, &short_values, 44), Err(GlbError::UnreadablePositions));
}
