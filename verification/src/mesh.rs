//! The input data model: attribute streams, primitives and material groups.

use vstd::prelude::*;

verus! {

/// The tuple of attribute-stream indices carried by one primitive corner.
/// Two corners with equal keys refer to the same output vertex. The normal
/// index is optional: a mesh either provides normals for every corner or for
/// none (its attribute schema).
#[derive(Clone, Copy, Debug)]
pub struct AttributeIndexKey {
    pub position: usize,
    pub texcoord: usize,
    pub normal: Option<usize>,
}

/// One geometric primitive of a material group, carrying one key per corner.
#[derive(Clone, Copy, Debug)]
pub enum Primitive {
    Point(AttributeIndexKey),
    Line(AttributeIndexKey, AttributeIndexKey),
    Triangle(AttributeIndexKey, AttributeIndexKey, AttributeIndexKey),
}

/// A named partition of the mesh's primitives sharing one render material.
pub struct MaterialGroup {
    /// The material name; a group that lacks one cannot own an index buffer
    /// and is rejected by the indexer.
    pub name: Option<String>,
    pub primitives: Vec<Primitive>,
}

/// A three-component attribute value (a position or a normal).
#[derive(Debug)]
pub struct Vec3<T> {
    pub x: T,
    pub y: T,
    pub z: T,
}

/// A two-component attribute value (a texture coordinate).
#[derive(Debug)]
pub struct Vec2<T> {
    pub u: T,
    pub v: T,
}

/// A parsed mesh: raw attribute arrays, the attribute schema, and the
/// material groups whose corners index into the raw arrays.
pub struct Mesh<T> {
    pub positions: Vec<Vec3<T>>,
    pub texcoords: Vec<Vec2<T>>,
    pub normals: Vec<Vec3<T>>,
    /// The attribute schema, fixed once for the whole mesh: whether every
    /// corner carries a normal index.
    pub has_normals: bool,
    pub groups: Vec<MaterialGroup>,
}

impl AttributeIndexKey {
    /// The key carries a normal index exactly when the schema says so.
    pub open spec fn matches_schema(self, has_normals: bool) -> bool {
        self.normal is Some <==> has_normals
    }

    /// Every index of the key falls inside its raw attribute array.
    pub open spec fn in_bounds<T>(self, m: Mesh<T>) -> bool {
        &&& self.position < m.positions@.len()
        &&& self.texcoord < m.texcoords@.len()
        &&& (self.normal matches Some(n) ==> n < m.normals@.len())
    }
}

impl Primitive {
    /// The corners of the primitive in declared order.
    pub open spec fn corners(self) -> Seq<AttributeIndexKey> {
        match self {
            Primitive::Point(a) => seq![a],
            Primitive::Line(a, b) => seq![a, b],
            Primitive::Triangle(a, b, c) => seq![a, b, c],
        }
    }

    /// How many corners the primitive has.
    pub fn corner_count(&self) -> (n: usize)
        ensures
            n == self.corners().len(),
            1 <= n <= 3,
    {
        match self {
            Primitive::Point(_) => 1,
            Primitive::Line(_, _) => 2,
            Primitive::Triangle(_, _, _) => 3,
        }
    }

    /// The `i`-th corner of the primitive.
    pub fn corner(&self, i: usize) -> (k: AttributeIndexKey)
        requires
            i < self.corners().len(),
        ensures
            k == self.corners()[i as int],
    {
        match self {
            Primitive::Point(a) => *a,
            Primitive::Line(a, b) => {
                if i == 0 {
                    *a
                } else {
                    *b
                }
            },
            Primitive::Triangle(a, b, c) => {
                if i == 0 {
                    *a
                } else if i == 1 {
                    *b
                } else {
                    *c
                }
            },
        }
    }
}

/// The corners of a sequence of primitives, in declared order.
pub open spec fn corners_of_prims(prims: Seq<Primitive>) -> Seq<AttributeIndexKey>
    decreases prims.len(),
{
    if prims.len() == 0 {
        Seq::empty()
    } else {
        corners_of_prims(prims.drop_last()) + prims.last().corners()
    }
}

impl MaterialGroup {
    /// The corners of every primitive of the group, in traversal order.
    pub open spec fn corners(self) -> Seq<AttributeIndexKey> {
        corners_of_prims(self.primitives@)
    }
}

/// The corners of a sequence of material groups, in traversal order.
pub open spec fn corners_of_groups(groups: Seq<MaterialGroup>) -> Seq<AttributeIndexKey>
    decreases groups.len(),
{
    if groups.len() == 0 {
        Seq::empty()
    } else {
        corners_of_groups(groups.drop_last()) + groups.last().corners()
    }
}

impl<T> Mesh<T> {
    /// The corners of the whole mesh, in traversal order: group by group,
    /// primitive by primitive, corner by corner.
    pub open spec fn corners(self) -> Seq<AttributeIndexKey> {
        corners_of_groups(self.groups@)
    }

    /// How many scalars one interleaved vertex record holds.
    pub open spec fn record_width(self) -> int {
        if self.has_normals {
            8
        } else {
            5
        }
    }

    /// The interleaved record of one key: position, texture coordinate, and,
    /// when the schema provides them, the normal.
    pub open spec fn record(self, k: AttributeIndexKey) -> Seq<T> {
        let p = self.positions@[k.position as int];
        let t = self.texcoords@[k.texcoord as int];
        let base = seq![p.x, p.y, p.z, t.u, t.v];
        if self.has_normals {
            let n = self.normals@[k.normal->0 as int];
            base + seq![n.x, n.y, n.z]
        } else {
            base
        }
    }
}

/// Structural equality of two keys.
pub fn key_eq(a: &AttributeIndexKey, b: &AttributeIndexKey) -> (r: bool)
    ensures
        r == (a == b),
{
    let normals_equal = match (a.normal, b.normal) {
        (Some(x), Some(y)) => x == y,
        (None, None) => true,
        _ => false,
    };
    a.position == b.position && a.texcoord == b.texcoord && normals_equal
}

} // verus!
