use a3d::model::accessor::{
    check_accessor, AccessorLayout, AccessorUse, ComponentType, Dimensions, ViewLayout,
};
use a3d::model::glb::{
    append_primitive_indices, check_primitive, load_glb_document, Attribute, PrimitiveIndices,
    PrimitiveMode, SceneEntry,
};

const NODES: &str = r#"[{"mesh":0,"scale":[2,1,1]}]"#;

fn test_glb() -> Vec<u8> {
    let json = r#"{"asset":{"version":"2.0"},"scene":0,"scenes":[{"nodes":[0]}],"nodes":[{"mesh":0,"scale":[2,1,1]}],"meshes":[{"primitives":[{"attributes":{"POSITION":0},"indices":1,"material":0}]}],"materials":[{"pbrMetallicRoughness":{"baseColorFactor":[0.25,0.5,0.75,1]}}],"buffers":[{"byteLength":44}],"bufferViews":[{"buffer":0,"byteOffset":0,"byteLength":36},{"buffer":0,"byteOffset":36,"byteLength":6}],"accessors":[{"bufferView":0,"componentType":5126,"count":3,"type":"VEC3","max":[1,1,0],"min":[0,0,0]},{"bufferView":1,"componentType":5123,"count":3,"type":"SCALAR"}]}"#;
    let mut json = json.as_bytes().to_vec();
    while json.len() % 4 != 0 {
        json.push(b' ');
    }
    let mut binary = Vec::new();
    for value in [0.0f32, 0.0, 0.0, 1.0, 0.0, 0.0, 0.0, 1.0, 0.0] {
        binary.extend_from_slice(&value.to_le_bytes());
    }
    for index in [0u16, 1, 2] {
        binary.extend_from_slice(&index.to_le_bytes());
    }
    binary.extend_from_slice(&[0; 2]);

    let total_length = 12 + 8 + json.len() + 8 + binary.len();
    let mut glb = Vec::with_capacity(total_length);
    glb.extend_from_slice(b"glTF");
    glb.extend_from_slice(&2u32.to_le_bytes());
    glb.extend_from_slice(&(total_length as u32).to_le_bytes());
    glb.extend_from_slice(&(json.len() as u32).to_le_bytes());
    glb.extend_from_slice(&0x4e4f534au32.to_le_bytes());
    glb.extend_from_slice(&json);
    glb.extend_from_slice(&(binary.len() as u32).to_le_bytes());
    glb.extend_from_slice(&0x004e4942u32.to_le_bytes());
    glb.extend_from_slice(&binary);
    glb
}

// Rebuild a valid GLB container while changing its JSON or binary payload.
fn edited_glb(edit: impl FnOnce(String, &mut Vec<u8>) -> String) -> Vec<u8> {
    let original = test_glb();
    let json_len = u32::from_le_bytes(original[12..16].try_into().unwrap()) as usize;
    let json = String::from_utf8(original[20..20 + json_len].to_vec()).unwrap();
    let mut binary = original[28 + json_len..].to_vec();
    let mut json = edit(json, &mut binary).into_bytes();
    while json.len() % 4 != 0 {
        json.push(b' ');
    }
    while binary.len() % 4 != 0 {
        binary.push(0);
    }
    let mut bytes = Vec::new();
    for word in [
        0x46546c67u32,
        2,
        (28 + json.len() + binary.len()) as u32,
        json.len() as u32,
        0x4e4f534a,
    ] {
        bytes.extend_from_slice(&word.to_le_bytes());
    }
    bytes.extend_from_slice(&json);
    bytes.extend_from_slice(&(binary.len() as u32).to_le_bytes());
    bytes.extend_from_slice(&0x004e4942u32.to_le_bytes());
    bytes.extend_from_slice(&binary);
    bytes
}

fn with_nodes(nodes: &str) -> Vec<u8> {
    edited_glb(|json, _| json.replace(NODES, nodes))
}

/// The checked walk of the scene to render.
fn walk(bytes: &[u8]) -> Result<Vec<SceneEntry>, String> {
    load_glb_document(bytes, "scene.glb").map(|(_, entries)| entries)
}

fn det3(m: [[f32; 3]; 3]) -> f32 {
    m[0][0] * (m[1][1] * m[2][2] - m[2][1] * m[1][2]) - m[1][0] * (m[0][1] * m[2][2] - m[2][1] * m[0][2])
        + m[2][0] * (m[0][1] * m[1][2] - m[1][1] * m[0][2])
}

fn mul3(a: [[f32; 3]; 3], b: [[f32; 3]; 3]) -> [[f32; 3]; 3] {
    // Column-major, like glTF: column c of a*b is a times column c of b.
    let mut out = [[0.0; 3]; 3];
    for c in 0..3 {
        for r in 0..3 {
            out[c][r] = (0..3).map(|k| a[k][r] * b[c][k]).sum();
        }
    }
    out
}

/// The layout of a non-sparse accessor of the fixture.
fn layout(accessor: &gltf::Accessor<'_>) -> AccessorLayout {
    AccessorLayout {
        component: match accessor.data_type() {
            gltf::accessor::DataType::F32 => ComponentType::F32,
            gltf::accessor::DataType::U16 => ComponentType::U16,
            gltf::accessor::DataType::U32 => ComponentType::U32,
            _ => ComponentType::U8,
        },
        dimensions: match accessor.dimensions() {
            gltf::accessor::Dimensions::Vec3 => Dimensions::Vec3,
            gltf::accessor::Dimensions::Scalar => Dimensions::Scalar,
            _ => Dimensions::Mat4,
        },
        count: accessor.count(),
        offset: accessor.offset(),
        view: accessor.view().map(|v| ViewLayout {
            buffer: v.buffer().index(),
            offset: v.offset(),
            length: v.length(),
            stride: v.stride(),
        }),
        sparse: None,
    }
}

/// The merged triangle list the loader builds from a GLB file, with each
/// primitive's indices read through the glTF crate and checked by the library.
fn triangle_indices(bytes: &[u8]) -> Result<Vec<u32>, String> {
    let (gltf, entries) = load_glb_document(bytes, "scene.glb")?;
    let blob = gltf.blob.as_deref().unwrap();
    let nodes: Vec<gltf::Node<'_>> = gltf.nodes().collect();
    let mut linear: Vec<[[f32; 3]; 3]> = Vec::new();
    for entry in &entries {
        let m = nodes[entry.node].transform().matrix();
        let local = [
            [m[0][0], m[0][1], m[0][2]],
            [m[1][0], m[1][1], m[1][2]],
            [m[2][0], m[2][1], m[2][2]],
        ];
        let parent = entry.parent.map_or([[1.0, 0.0, 0.0], [0.0, 1.0, 0.0], [0.0, 0.0, 1.0]], |p| linear[p]);
        linear.push(mul3(parent, local));
    }
    let mut out = Vec::new();
    let mut vertices = 0usize;
    for (entry, transform) in entries.iter().zip(&linear) {
        let Some(mesh) = nodes[entry.node].mesh() else {
            continue;
        };
        for primitive in mesh.primitives() {
            for (accessor, use_as) in [
                (primitive.get(&gltf::Semantic::Positions), AccessorUse::Positions),
                (primitive.indices(), AccessorUse::Indices),
            ] {
                if let Some(accessor) = accessor {
                    check_accessor(use_as, &layout(&accessor), blob.len())
                        .map_err(|e| format!("scene.glb: {}", e.message()))?;
                }
            }
            let reader = primitive.reader(|buffer| (buffer.index() == 0).then_some(blob));
            let positions = reader.read_positions().map(|p| p.count());
            let positions_len = check_primitive(
                if primitive.mode() == gltf::mesh::Mode::Triangles {
                    PrimitiveMode::Triangles
                } else {
                    PrimitiveMode::Points
                },
                positions,
                Attribute::Absent,
                Attribute::Absent,
            )
            .map_err(|e| format!("scene.glb: {}", e.message()))?;
            let indices = match primitive.indices() {
                None => PrimitiveIndices::Absent,
                Some(_) => match reader.read_indices() {
                    Some(read) => PrimitiveIndices::Listed(read.into_u32().collect()),
                    None => PrimitiveIndices::Unreadable,
                },
            };
            append_primitive_indices(&mut out, vertices, positions_len, &indices, det3(*transform) < 0.0)
                .map_err(|e| format!("scene.glb: {}", e.message()))?;
            vertices += positions_len;
        }
    }
    Ok(out)
}

#[test]
fn valid_glb_walks_its_one_node_and_triangle() {
    let bytes = test_glb();
    assert_eq!(walk(&bytes).unwrap(), vec![SceneEntry { node: 0, parent: None }]);
    assert_eq!(triangle_indices(&bytes).unwrap(), vec![0, 1, 2]);
}

#[test]
fn rejects_cyclic_and_multiply_parented_scenes() {
    for nodes in [
        r#"[{"children":[0]}]"#,
        r#"[{"children":[1]},{"children":[0]}]"#,
        r#"[{"children":[1,2]},{"children":[2]},{"mesh":0}]"#,
    ] {
        let error = walk(&with_nodes(nodes)).unwrap_err();
        assert!(error.contains("cycle or repeated node"), "{error}");
        assert_eq!(error, "scene.glb: GLB scene contains a cycle or repeated node");
    }
}

#[test]
fn deep_scene_uses_bounded_iterative_traversal() {
    let bytes = edited_glb(|json, _| {
        let mut nodes: Vec<_> = (1..10_000)
            .map(|index| format!(r#"{{"children":[{index}]}}"#))
            .collect();
        nodes.push(r#"{"mesh":0,"scale":[2,1,1]}"#.into());
        json.replace(NODES, &format!("[{}]", nodes.join(",")))
    });
    let entries = walk(&bytes).unwrap();
    assert_eq!(entries.len(), 10_000);
    assert_eq!(entries[9_999], SceneEntry { node: 9_999, parent: Some(9_998) });
    assert_eq!(triangle_indices(&bytes).unwrap(), [0, 1, 2]);
}

#[test]
fn reflected_nodes_reverse_triangle_winding() {
    for indexed in [false, true] {
        for (nodes, reflected) in [
            (r#"[{"mesh":0,"scale":[-2,1,1]}]"#, true),
            (r#"[{"scale":[-1,1,1],"children":[1]},{"mesh":0,"scale":[2,1,1]}]"#, true),
            (r#"[{"scale":[-1,1,1],"children":[1]},{"mesh":0,"scale":[-2,1,1]}]"#, false),
        ] {
            let bytes = edited_glb(|json, _| {
                let json = json.replace(NODES, nodes);
                if indexed {
                    json
                } else {
                    json.replace(r#","indices":1"#, "")
                }
            });
            let indices = triangle_indices(&bytes).unwrap();
            assert_eq!(indices, if reflected { [0, 2, 1] } else { [0, 1, 2] });
        }
    }
}

#[test]
fn rejects_truncated_binary_and_unreadable_declared_indices() {
    let truncated = edited_glb(|json, binary| {
        binary.truncate(36);
        json
    });
    assert!(walk(&truncated).unwrap_err().contains("buffer is external or truncated"));
    let unreadable =
        edited_glb(|json, _| json.replace(r#""byteOffset":36"#, r#""byteOffset":100"#));
    assert!(triangle_indices(&unreadable)
        .unwrap_err()
        .contains("index accessor is unreadable"));
}

#[test]
fn malformed_glb_is_a_clean_error() {
    let err = walk(b"not a GLB").unwrap_err();
    assert!(err.contains("failed to parse GLB"), "unexpected error: {err}");
    // The parser's own explanation follows the file name.
    assert!(err.starts_with("failed to parse GLB scene.glb: "));
    assert!(err.len() > "failed to parse GLB scene.glb: ".len());
}

#[test]
fn glb_indices_must_stay_within_their_primitive() {
    let mut bytes = test_glb();
    // The fixture's final eight bytes are three u16 indices plus padding.
    // Change the last index from 2 to 3; a three-vertex primitive may only
    // reference 0..=2.
    let index_offset = bytes.len() - 4;
    bytes[index_offset..index_offset + 2].copy_from_slice(&3u16.to_le_bytes());
    let err = triangle_indices(&bytes).unwrap_err();
    assert!(
        err.contains("GLB primitive has an out-of-range vertex index"),
        "unexpected error: {err}"
    );
}

#[test]
fn glb_without_a_scene_or_binary_chunk_is_rejected() {
    let no_scene = edited_glb(|json, _| {
        json.replace(r#""scene":0,"scenes":[{"nodes":[0]}],"#, "")
    });
    assert_eq!(walk(&no_scene).unwrap_err(), "scene.glb: GLB contains no scene");
    // The first scene is used when none is marked as the default.
    let first_scene = edited_glb(|json, _| json.replace(r#""scene":0,"#, ""));
    assert_eq!(walk(&first_scene).unwrap(), vec![SceneEntry { node: 0, parent: None }]);
}

#[test]
fn header_declaring_less_than_itself_is_a_clean_error() {
    for length in [0u32, 11] {
        let mut bytes = b"glTF".to_vec();
        bytes.extend_from_slice(&2u32.to_le_bytes());
        bytes.extend_from_slice(&length.to_le_bytes());
        let err = walk(&bytes).unwrap_err();
        assert_eq!(
            err,
            "failed to parse GLB scene.glb: GLB header declares a length shorter than the header"
        );
        // Trailing bytes change nothing.
        bytes.extend_from_slice(&[0; 20]);
        assert!(walk(&bytes).unwrap_err().starts_with("failed to parse GLB scene.glb: "));
    }
    // A header that declares exactly its own size reaches the parser.
    let mut bytes = b"glTF".to_vec();
    bytes.extend_from_slice(&2u32.to_le_bytes());
    bytes.extend_from_slice(&12u32.to_le_bytes());
    let err = walk(&bytes).unwrap_err();
    assert!(err.starts_with("failed to parse GLB scene.glb: "));
    assert!(!err.contains("shorter than the header"));
}

#[test]
fn missing_position_accessor_is_a_clean_error() {
    let expected = "failed to parse GLB scene.glb: GLB primitive names a POSITION accessor that does not exist";
    let json = br#"{"asset":{"version":"2.0"},"meshes":[{"primitives":[{"attributes":{"POSITION":0}}]}]}"#;
    assert_eq!(walk(json).unwrap_err(), expected);
    let glb = edited_glb(|json, _| json.replace(r#""POSITION":0"#, r#""POSITION":2"#));
    assert_eq!(walk(&glb).unwrap_err(), expected);
    // An existing accessor passes this check.
    let glb = edited_glb(|json, _| json.replace(r#""POSITION":0"#, r#""POSITION":1"#));
    assert!(!walk(&glb).unwrap_err().contains("POSITION accessor that does not exist"));
}

#[test]
fn accessors_are_checked_before_they_are_read() {
    // An empty index accessor would make the reader compute `count - 1`.
    let empty = edited_glb(|json, _| {
        json.replace(r#""componentType":5123,"count":3"#, r#""componentType":5123,"count":0"#)
    });
    assert_eq!(triangle_indices(&empty).unwrap_err(), "scene.glb: GLB index accessor is unreadable");
    // Positions read past the end of their view.
    let long = edited_glb(|json, _| json.replace(r#""count":3,"type":"VEC3""#, r#""count":4,"type":"VEC3""#));
    assert_eq!(triangle_indices(&long).unwrap_err(), "scene.glb: GLB position accessor is unreadable");
    // Positions stored as another type.
    let scalar = edited_glb(|json, _| json.replace(r#""count":3,"type":"VEC3""#, r#""count":3,"type":"SCALAR""#));
    assert_eq!(triangle_indices(&scalar).unwrap_err(), "scene.glb: GLB position accessor is unreadable");
    assert_eq!(triangle_indices(&test_glb()).unwrap(), [0, 1, 2]);
}
