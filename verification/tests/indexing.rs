use mesh_indexer::indexer::index_mesh;
use mesh_indexer::mesh::{AttributeIndexKey, MaterialGroup, Mesh, Primitive, Vec2, Vec3};

fn key(p: usize, t: usize, n: usize) -> AttributeIndexKey {
    AttributeIndexKey { position: p, texcoord: t, normal: Some(n) }
}

fn v3(x: f32, y: f32, z: f32) -> Vec3<f32> {
    Vec3 { x, y, z }
}

fn v2(u: f32, v: f32) -> Vec2<f32> {
    Vec2 { u, v }
}

/// Three positions, texture coordinates and normals, with distinct values.
fn small_arrays() -> (Vec<Vec3<f32>>, Vec<Vec2<f32>>, Vec<Vec3<f32>>) {
    let positions = vec![v3(0.5, 1.5, 2.5), v3(3.0, 4.0, 5.0), v3(6.0, 7.0, 8.0)];
    let texcoords = vec![v2(0.25, 0.75), v2(0.125, 0.625), v2(0.0625, 0.5625)];
    let normals = vec![v3(1.0, 0.0, 0.0), v3(0.0, 1.0, 0.0), v3(0.0, 0.0, 1.0)];
    (positions, texcoords, normals)
}

fn group(name: &str, primitives: Vec<Primitive>) -> MaterialGroup {
    MaterialGroup { name: Some(String::from(name)), primitives }
}

#[test]
fn single_triangle_group() {
    let (positions, texcoords, normals) = small_arrays();
    let mesh = Mesh {
        positions,
        texcoords,
        normals,
        has_normals: true,
        groups: vec![group(
            "body",
            vec![Primitive::Triangle(key(0, 0, 0), key(1, 1, 1), key(2, 2, 2))],
        )],
    };
    let out = index_mesh(&mesh).unwrap();
    assert_eq!(out.groups.len(), 1);
    assert_eq!(out.groups[0].name, "body");
    assert_eq!(out.groups[0].indices, vec![0u16, 1, 2]);
    assert_eq!(out.vertex_data.len(), 24);
    let expected = vec![
        0.5f32, 1.5, 2.5, 0.25, 0.75, 1.0, 0.0, 0.0, // vertex 0
        3.0, 4.0, 5.0, 0.125, 0.625, 0.0, 1.0, 0.0, // vertex 1
        6.0, 7.0, 8.0, 0.0625, 0.5625, 0.0, 0.0, 1.0, // vertex 2
    ];
    assert_eq!(out.vertex_data, expected);
}

#[test]
fn shared_edge_welds_two_corners() {
    let (positions, texcoords, normals) = small_arrays();
    // Four distinct keys; the second triangle reuses keys 1 and 2.
    let k0 = key(0, 0, 0);
    let k1 = key(1, 1, 1);
    let k2 = key(2, 2, 2);
    let k3 = key(0, 1, 2);
    let mesh = Mesh {
        positions,
        texcoords,
        normals,
        has_normals: true,
        groups: vec![group(
            "body",
            vec![Primitive::Triangle(k0, k1, k2), Primitive::Triangle(k1, k2, k3)],
        )],
    };
    let out = index_mesh(&mesh).unwrap();
    assert_eq!(out.vertex_data.len(), 32); // 4 records of 8 scalars
    assert_eq!(out.groups[0].indices, vec![0u16, 1, 2, 1, 2, 3]);
}

#[test]
fn points_and_lines_emit_one_index_per_corner() {
    let (positions, texcoords, normals) = small_arrays();
    let mesh = Mesh {
        positions,
        texcoords,
        normals,
        has_normals: true,
        groups: vec![group(
            "wires",
            vec![
                Primitive::Point(key(0, 0, 0)),
                Primitive::Line(key(1, 1, 1), key(0, 0, 0)),
            ],
        )],
    };
    let out = index_mesh(&mesh).unwrap();
    assert_eq!(out.groups[0].indices, vec![0u16, 1, 0]);
    assert_eq!(out.vertex_data.len(), 16);
}

#[test]
fn mesh_without_normals_uses_five_wide_records() {
    let (positions, texcoords, _) = small_arrays();
    let k = |p: usize, t: usize| AttributeIndexKey { position: p, texcoord: t, normal: None };
    let mesh = Mesh {
        positions,
        texcoords,
        normals: Vec::new(),
        has_normals: false,
        groups: vec![group("flat", vec![Primitive::Triangle(k(0, 0), k(1, 1), k(2, 2))])],
    };
    let out = index_mesh(&mesh).unwrap();
    assert_eq!(out.vertex_data.len(), 15);
    assert_eq!(
        out.vertex_data[0..5],
        [0.5f32, 1.5, 2.5, 0.25, 0.75]
    );
    assert_eq!(out.groups[0].indices, vec![0u16, 1, 2]);
}

#[test]
fn groups_share_one_vertex_buffer() {
    let (positions, texcoords, normals) = small_arrays();
    // The second group reuses a key of the first: it must reuse the id too.
    let mesh = Mesh {
        positions,
        texcoords,
        normals,
        has_normals: true,
        groups: vec![
            group("body", vec![Primitive::Triangle(key(0, 0, 0), key(1, 1, 1), key(2, 2, 2))]),
            group("whiskers", vec![Primitive::Triangle(key(1, 1, 1), key(2, 0, 1), key(0, 0, 0))]),
        ],
    };
    let out = index_mesh(&mesh).unwrap();
    assert_eq!(out.groups.len(), 2);
    assert_eq!(out.groups[0].name, "body");
    assert_eq!(out.groups[1].name, "whiskers");
    assert_eq!(out.groups[0].indices, vec![0u16, 1, 2]);
    // key(2, 0, 1) is new and gets the next id, 3.
    assert_eq!(out.groups[1].indices, vec![1u16, 3, 0]);
    assert_eq!(out.vertex_data.len(), 32);
}

#[test]
fn equal_keys_weld_distinct_keys_do_not() {
    let (positions, texcoords, normals) = small_arrays();
    // Corners differing in exactly one component of the key stay distinct.
    let mesh = Mesh {
        positions,
        texcoords,
        normals,
        has_normals: true,
        groups: vec![group(
            "body",
            vec![
                Primitive::Triangle(key(0, 0, 0), key(0, 0, 1), key(0, 1, 0)),
                Primitive::Point(key(0, 0, 0)),
            ],
        )],
    };
    let out = index_mesh(&mesh).unwrap();
    assert_eq!(out.groups[0].indices, vec![0u16, 1, 2, 0]);
    assert_eq!(out.vertex_data.len(), 24); // three distinct records only
}

#[test]
fn ids_follow_first_occurrence_order() {
    let (positions, texcoords, normals) = small_arrays();
    // Keys first appear in the order k2, k0, k1 across two groups.
    let mesh = Mesh {
        positions,
        texcoords,
        normals,
        has_normals: true,
        groups: vec![
            group("first", vec![Primitive::Line(key(2, 2, 2), key(0, 0, 0))]),
            group("second", vec![Primitive::Line(key(2, 2, 2), key(1, 1, 1))]),
        ],
    };
    let out = index_mesh(&mesh).unwrap();
    assert_eq!(out.groups[0].indices, vec![0u16, 1]);
    assert_eq!(out.groups[1].indices, vec![0u16, 2]);
    // The vertex buffer starts with key(2, 2, 2)'s record.
    assert_eq!(out.vertex_data[0], 6.0);
}

#[test]
fn two_runs_give_identical_buffers() {
    let (positions, texcoords, normals) = small_arrays();
    let build = || Mesh {
        positions: positions.iter().map(|p| v3(p.x, p.y, p.z)).collect(),
        texcoords: texcoords.iter().map(|t| v2(t.u, t.v)).collect(),
        normals: normals.iter().map(|n| v3(n.x, n.y, n.z)).collect(),
        has_normals: true,
        groups: vec![
            group("body", vec![Primitive::Triangle(key(0, 0, 0), key(1, 1, 1), key(2, 2, 2))]),
            group("whiskers", vec![Primitive::Triangle(key(1, 1, 1), key(2, 2, 2), key(0, 1, 2))]),
        ],
    };
    let a = index_mesh(&build()).unwrap();
    let b = index_mesh(&build()).unwrap();
    let a_bits: Vec<u32> = a.vertex_data.iter().map(|f| f.to_bits()).collect();
    let b_bits: Vec<u32> = b.vertex_data.iter().map(|f| f.to_bits()).collect();
    assert_eq!(a_bits, b_bits);
    assert_eq!(a.groups.len(), b.groups.len());
    for (ga, gb) in a.groups.iter().zip(b.groups.iter()) {
        assert_eq!(ga.name, gb.name);
        assert_eq!(ga.indices, gb.indices);
    }
}

#[test]
fn empty_mesh_yields_empty_buffers() {
    let mesh: Mesh<f32> = Mesh {
        positions: Vec::new(),
        texcoords: Vec::new(),
        normals: Vec::new(),
        has_normals: true,
        groups: Vec::new(),
    };
    let out = index_mesh(&mesh).unwrap();
    assert_eq!(out.vertex_data.len(), 0);
    assert_eq!(out.groups.len(), 0);
}
