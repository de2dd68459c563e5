use mesh_indexer::indexer::{index_mesh, IndexError};
use mesh_indexer::mesh::{AttributeIndexKey, MaterialGroup, Mesh, Primitive, Vec2, Vec3};

fn key(p: usize, t: usize, n: usize) -> AttributeIndexKey {
    AttributeIndexKey { position: p, texcoord: t, normal: Some(n) }
}

fn flat_key(p: usize, t: usize) -> AttributeIndexKey {
    AttributeIndexKey { position: p, texcoord: t, normal: None }
}

fn unit_arrays() -> (Vec<Vec3<f32>>, Vec<Vec2<f32>>, Vec<Vec3<f32>>) {
    let positions = vec![Vec3 { x: 1.0f32, y: 2.0, z: 3.0 }];
    let texcoords = vec![Vec2 { u: 0.5f32, v: 0.5 }];
    let normals = vec![Vec3 { x: 0.0f32, y: 0.0, z: 1.0 }];
    (positions, texcoords, normals)
}

fn named(name: &str, primitives: Vec<Primitive>) -> MaterialGroup {
    MaterialGroup { name: Some(String::from(name)), primitives }
}

#[test]
fn position_index_out_of_range() {
    let (positions, texcoords, normals) = unit_arrays();
    let mesh = Mesh {
        positions,
        texcoords,
        normals,
        has_normals: true,
        groups: vec![named(
            "body",
            vec![Primitive::Triangle(key(5, 0, 0), key(0, 0, 0), key(0, 0, 0))],
        )],
    };
    assert_eq!(
        index_mesh(&mesh).unwrap_err(),
        IndexError::IndexOutOfRange { group: 0, primitive: 0, corner: 0 }
    );
}

#[test]
fn texcoord_index_out_of_range() {
    let (positions, texcoords, normals) = unit_arrays();
    let mesh = Mesh {
        positions,
        texcoords,
        normals,
        has_normals: true,
        groups: vec![named("body", vec![Primitive::Line(key(0, 0, 0), key(0, 7, 0))])],
    };
    assert_eq!(
        index_mesh(&mesh).unwrap_err(),
        IndexError::IndexOutOfRange { group: 0, primitive: 0, corner: 1 }
    );
}

#[test]
fn normal_index_out_of_range() {
    let (positions, texcoords, normals) = unit_arrays();
    let mesh = Mesh {
        positions,
        texcoords,
        normals,
        has_normals: true,
        groups: vec![
            named("ok", vec![Primitive::Point(key(0, 0, 0))]),
            named("bad", vec![Primitive::Point(key(0, 0, 0)), Primitive::Point(key(0, 0, 3))]),
        ],
    };
    assert_eq!(
        index_mesh(&mesh).unwrap_err(),
        IndexError::IndexOutOfRange { group: 1, primitive: 1, corner: 0 }
    );
}

#[test]
fn unnamed_group_is_rejected() {
    let (positions, texcoords, normals) = unit_arrays();
    let mesh = Mesh {
        positions,
        texcoords,
        normals,
        has_normals: true,
        groups: vec![
            named("body", vec![Primitive::Point(key(0, 0, 0))]),
            MaterialGroup { name: None, primitives: vec![Primitive::Point(key(0, 0, 0))] },
        ],
    };
    assert_eq!(index_mesh(&mesh).unwrap_err(), IndexError::UnnamedGroup { group: 1 });
}

#[test]
fn earlier_corner_fault_wins_over_later_unnamed_group() {
    let (positions, texcoords, normals) = unit_arrays();
    let mesh = Mesh {
        positions,
        texcoords,
        normals,
        has_normals: true,
        groups: vec![
            named("body", vec![Primitive::Point(key(9, 0, 0))]),
            MaterialGroup { name: None, primitives: vec![Primitive::Point(key(0, 0, 0))] },
        ],
    };
    assert_eq!(
        index_mesh(&mesh).unwrap_err(),
        IndexError::IndexOutOfRange { group: 0, primitive: 0, corner: 0 }
    );
}

#[test]
fn unnamed_group_wins_over_later_corner_fault() {
    let (positions, texcoords, normals) = unit_arrays();
    let mesh = Mesh {
        positions,
        texcoords,
        normals,
        has_normals: true,
        groups: vec![
            MaterialGroup { name: None, primitives: vec![Primitive::Point(key(0, 0, 0))] },
            named("body", vec![Primitive::Point(key(9, 0, 0))]),
        ],
    };
    assert_eq!(index_mesh(&mesh).unwrap_err(), IndexError::UnnamedGroup { group: 0 });
}

#[test]
fn corner_without_normal_in_normal_schema_is_a_parse_error() {
    let (positions, texcoords, normals) = unit_arrays();
    let mesh = Mesh {
        positions,
        texcoords,
        normals,
        has_normals: true,
        groups: vec![named(
            "body",
            vec![Primitive::Triangle(key(0, 0, 0), flat_key(0, 0), key(0, 0, 0))],
        )],
    };
    assert_eq!(
        index_mesh(&mesh).unwrap_err(),
        IndexError::ParseError { group: 0, primitive: 0, corner: 1 }
    );
}

#[test]
fn corner_with_normal_in_flat_schema_is_a_parse_error() {
    let (positions, texcoords, _) = unit_arrays();
    let mesh = Mesh {
        positions,
        texcoords,
        normals: Vec::new(),
        has_normals: false,
        groups: vec![named("body", vec![Primitive::Point(key(0, 0, 0))])],
    };
    assert_eq!(
        index_mesh(&mesh).unwrap_err(),
        IndexError::ParseError { group: 0, primitive: 0, corner: 0 }
    );
}

/// A mesh of `n` points with `n` distinct keys, sharing one texture
/// coordinate; the attribute schema carries no normals.
fn many_vertex_mesh(n: usize) -> Mesh<f32> {
    let mut positions = Vec::with_capacity(n);
    for i in 0..n {
        positions.push(Vec3 { x: i as f32, y: 0.0, z: 0.0 });
    }
    let mut primitives = Vec::with_capacity(n);
    for i in 0..n {
        primitives.push(Primitive::Point(flat_key(i, 0)));
    }
    Mesh {
        positions,
        texcoords: vec![Vec2 { u: 0.0f32, v: 0.0 }],
        normals: Vec::new(),
        has_normals: false,
        groups: vec![named("cloud", primitives)],
    }
}

#[test]
fn vertex_count_65535_fits_the_index_width() {
    let mesh = many_vertex_mesh(65535);
    let out = index_mesh(&mesh).unwrap();
    assert_eq!(out.vertex_data.len(), 65535 * 5);
    assert_eq!(out.groups[0].indices.len(), 65535);
    assert_eq!(out.groups[0].indices[65534], 65534u16);
}

#[test]
fn vertex_count_65536_overflows_the_index_width() {
    let mesh = many_vertex_mesh(65536);
    assert_eq!(
        index_mesh(&mesh).unwrap_err(),
        IndexError::IndexOverflow { group: 0, primitive: 65535, corner: 0 }
    );
}

#[test]
fn repeated_keys_do_not_count_toward_the_capacity() {
    // 65535 distinct keys, then a repeat of the first: still fine.
    let mut mesh = many_vertex_mesh(65535);
    mesh.groups[0].primitives.push(Primitive::Point(flat_key(0, 0)));
    let out = index_mesh(&mesh).unwrap();
    assert_eq!(out.groups[0].indices.len(), 65536);
    assert_eq!(out.groups[0].indices[65535], 0u16);
}
