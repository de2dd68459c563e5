//! The mesh indexer: one pass over the material groups that welds corners
//! into a deduplicated vertex buffer and emits one index buffer per group.

use vstd::prelude::*;

use crate::mesh::{
    corners_of_groups, corners_of_prims, AttributeIndexKey, MaterialGroup, Mesh, Primitive,
};
use crate::welding::{weld_append, weld_insert, weld_keys};
use crate::MAX_VERTEX_COUNT;

verus! {

/// Why one corner cannot be indexed.
#[derive(Clone, Copy, Debug, PartialEq, Eq)]
pub enum CornerFault {
    /// The corner's key does not follow the mesh's attribute schema.
    SchemaMismatch,
    /// An index of the key falls outside its raw attribute array.
    OutOfRange,
    /// The corner would create one distinct vertex too many.
    Overflow,
}

/// A fatal indexing failure, carrying enough context to locate the faulty
/// part of the mesh description.
#[derive(Clone, Copy, Debug, PartialEq, Eq)]
pub enum IndexError {
    /// The mesh description is malformed: a corner strays from the attribute
    /// schema that the whole mesh declared.
    ParseError { group: usize, primitive: usize, corner: usize },
    /// A corner references an attribute index outside its raw array.
    IndexOutOfRange { group: usize, primitive: usize, corner: usize },
    /// A material group lacks the name its index buffer must carry.
    UnnamedGroup { group: usize },
    /// The mesh holds more distinct vertices than the index width can address.
    IndexOverflow { group: usize, primitive: usize, corner: usize },
}

/// The fault, if any, of welding key `k` onto table `w`: the first failed
/// check among schema, bounds and index-width capacity.
pub open spec fn corner_fault<T>(
    m: Mesh<T>,
    w: Seq<AttributeIndexKey>,
    k: AttributeIndexKey,
) -> Option<CornerFault> {
    if !k.matches_schema(m.has_normals) {
        Some(CornerFault::SchemaMismatch)
    } else if !k.in_bounds(m) {
        Some(CornerFault::OutOfRange)
    } else if !w.contains(k) && w.len() >= MAX_VERTEX_COUNT {
        Some(CornerFault::Overflow)
    } else {
        None
    }
}

/// The error a corner fault becomes, given the place it was found.
pub open spec fn fault_error(f: CornerFault, gi: int, pi: int, ci: int) -> IndexError {
    match f {
        CornerFault::SchemaMismatch => IndexError::ParseError {
            group: gi as usize,
            primitive: pi as usize,
            corner: ci as usize,
        },
        CornerFault::OutOfRange => IndexError::IndexOutOfRange {
            group: gi as usize,
            primitive: pi as usize,
            corner: ci as usize,
        },
        CornerFault::Overflow => IndexError::IndexOverflow {
            group: gi as usize,
            primitive: pi as usize,
            corner: ci as usize,
        },
    }
}

/// Welds a primitive's corners onto the table, left to right, stopping at the
/// first faulty corner; an error carries the corner's position.
pub open spec fn scan_corners<T>(
    m: Mesh<T>,
    w: Seq<AttributeIndexKey>,
    cs: Seq<AttributeIndexKey>,
) -> Result<Seq<AttributeIndexKey>, (int, CornerFault)>
    decreases cs.len(),
{
    if cs.len() == 0 {
        Ok(w)
    } else {
        match scan_corners(m, w, cs.drop_last()) {
            Err(e) => Err(e),
            Ok(w2) => match corner_fault(m, w2, cs.last()) {
                Some(f) => Err((cs.len() - 1, f)),
                None => Ok(weld_insert(w2, cs.last())),
            },
        }
    }
}

/// Welds a group's primitives onto the table, in declared order; an error
/// carries the primitive's and the corner's positions.
pub open spec fn scan_prims<T>(
    m: Mesh<T>,
    w: Seq<AttributeIndexKey>,
    ps: Seq<Primitive>,
) -> Result<Seq<AttributeIndexKey>, (int, int, CornerFault)>
    decreases ps.len(),
{
    if ps.len() == 0 {
        Ok(w)
    } else {
        match scan_prims(m, w, ps.drop_last()) {
            Err(e) => Err(e),
            Ok(w2) => match scan_corners(m, w2, ps.last().corners()) {
                Err((ci, f)) => Err((ps.len() - 1, ci, f)),
                Ok(w3) => Ok(w3),
            },
        }
    }
}

/// Walks the material groups in declared order, checking each group's name
/// before its primitives, and welds every corner onto one shared table. The
/// result is the final vertex table, or the first error of the traversal.
pub open spec fn scan_groups<T>(m: Mesh<T>, gs: Seq<MaterialGroup>) -> Result<
    Seq<AttributeIndexKey>,
    IndexError,
>
    decreases gs.len(),
{
    if gs.len() == 0 {
        Ok(Seq::empty())
    } else {
        match scan_groups(m, gs.drop_last()) {
            Err(e) => Err(e),
            Ok(w) => {
                let gi = gs.len() - 1;
                if gs.last().name is None {
                    Err(IndexError::UnnamedGroup { group: gi as usize })
                } else {
                    match scan_prims(m, w, gs.last().primitives@) {
                        Err((pi, ci, f)) => Err(fault_error(f, gi, pi, ci)),
                        Ok(w2) => Ok(w2),
                    }
                }
            },
        }
    }
}

/// The outcome of scanning the whole mesh.
pub open spec fn mesh_scan<T>(m: Mesh<T>) -> Result<Seq<AttributeIndexKey>, IndexError> {
    scan_groups(m, m.groups@)
}

/// The mesh's vertex table: its distinct corner keys in first-occurrence
/// order.
pub open spec fn welded<T>(m: Mesh<T>) -> Seq<AttributeIndexKey> {
    weld_keys(m.corners())
}

/// The flat vertex buffer of a table: the interleaved records of its keys,
/// in table order.
pub open spec fn records_of<T>(m: Mesh<T>, w: Seq<AttributeIndexKey>) -> Seq<T>
    decreases w.len(),
{
    if w.len() == 0 {
        Seq::empty()
    } else {
        records_of(m, w.drop_last()) + m.record(w.last())
    }
}

/// The vertex buffer holds one full record per table entry.
pub proof fn lemma_records_len<T>(m: Mesh<T>, w: Seq<AttributeIndexKey>)
    ensures
        records_of(m, w).len() == w.len() * m.record_width(),
    decreases w.len(),
{
    if w.len() == 0 {
    } else {
        lemma_records_len(m, w.drop_last());
        assert(records_of(m, w).len() == (w.len() - 1) * m.record_width() + m.record_width());
        assert((w.len() - 1) * m.record_width() + m.record_width() == w.len() * m.record_width())
            by (nonlinear_arith);
    }
}

/// A fault-free corner scan welds exactly the corners it was given.
pub proof fn lemma_scan_corners_ok<T>(
    m: Mesh<T>,
    w: Seq<AttributeIndexKey>,
    cs: Seq<AttributeIndexKey>,
)
    requires
        scan_corners(m, w, cs) is Ok,
    ensures
        scan_corners(m, w, cs) == Ok::<_, (int, CornerFault)>(weld_append(w, cs)),
    decreases cs.len(),
{
    if cs.len() > 0 {
        lemma_scan_corners_ok(m, w, cs.drop_last());
    }
}

/// A fault-free primitive scan welds exactly the primitives' corners.
pub proof fn lemma_scan_prims_ok<T>(m: Mesh<T>, w: Seq<AttributeIndexKey>, ps: Seq<Primitive>)
    requires
        scan_prims(m, w, ps) is Ok,
    ensures
        scan_prims(m, w, ps) == Ok::<_, (int, int, CornerFault)>(
            weld_append(w, corners_of_prims(ps)),
        ),
    decreases ps.len(),
{
    if ps.len() > 0 {
        lemma_scan_prims_ok(m, w, ps.drop_last());
        let w2 = weld_append(w, corners_of_prims(ps.drop_last()));
        lemma_scan_corners_ok(m, w2, ps.last().corners());
        crate::welding::lemma_weld_append_concat(
            w,
            corners_of_prims(ps.drop_last()),
            ps.last().corners(),
        );
    }
}

/// An error-free group scan welds exactly the mesh's corners.
pub proof fn lemma_scan_groups_ok<T>(m: Mesh<T>, gs: Seq<MaterialGroup>)
    requires
        scan_groups(m, gs) is Ok,
    ensures
        scan_groups(m, gs) == Ok::<_, IndexError>(weld_keys(corners_of_groups(gs))),
    decreases gs.len(),
{
    if gs.len() > 0 {
        lemma_scan_groups_ok(m, gs.drop_last());
        let w = weld_keys(corners_of_groups(gs.drop_last()));
        lemma_scan_prims_ok(m, w, gs.last().primitives@);
        crate::welding::lemma_weld_append_concat(
            Seq::empty(),
            corners_of_groups(gs.drop_last()),
            gs.last().corners(),
        );
    }
}

/// A corner fault inside a primitive decides the whole corner scan.
pub proof fn lemma_scan_corners_err<T>(
    m: Mesh<T>,
    w: Seq<AttributeIndexKey>,
    cs: Seq<AttributeIndexKey>,
    j: int,
)
    requires
        0 <= j <= cs.len(),
        scan_corners(m, w, cs.take(j)) is Err,
    ensures
        scan_corners(m, w, cs) == scan_corners(m, w, cs.take(j)),
    decreases cs.len() - j,
{
    if j == cs.len() {
        assert(cs.take(j) =~= cs);
    } else {
        assert(cs.take(j + 1).drop_last() =~= cs.take(j));
        lemma_scan_corners_err(m, w, cs, j + 1);
    }
}

/// A fault inside an earlier primitive decides the whole primitive scan.
pub proof fn lemma_scan_prims_err<T>(
    m: Mesh<T>,
    w: Seq<AttributeIndexKey>,
    ps: Seq<Primitive>,
    j: int,
)
    requires
        0 <= j <= ps.len(),
        scan_prims(m, w, ps.take(j)) is Err,
    ensures
        scan_prims(m, w, ps) == scan_prims(m, w, ps.take(j)),
    decreases ps.len() - j,
{
    if j == ps.len() {
        assert(ps.take(j) =~= ps);
    } else {
        assert(ps.take(j + 1).drop_last() =~= ps.take(j));
        lemma_scan_prims_err(m, w, ps, j + 1);
    }
}

/// An error inside an earlier group decides the whole group scan.
pub proof fn lemma_scan_groups_err<T>(m: Mesh<T>, gs: Seq<MaterialGroup>, j: int)
    requires
        0 <= j <= gs.len(),
        scan_groups(m, gs.take(j)) is Err,
    ensures
        scan_groups(m, gs) == scan_groups(m, gs.take(j)),
    decreases gs.len() - j,
{
    if j == gs.len() {
        assert(gs.take(j) =~= gs);
    } else {
        assert(gs.take(j + 1).drop_last() =~= gs.take(j));
        lemma_scan_groups_err(m, gs, j + 1);
    }
}

/// One material group's output: its name, verbatim from the mesh, and its
/// index buffer, one entry per corner in traversal order.
#[derive(Debug)]
pub struct GroupIndices {
    pub name: String,
    pub indices: Vec<u16>,
}

/// The indexer's two artifacts: the shared interleaved vertex buffer, and one
/// index buffer per material group, in the groups' declared order.
#[derive(Debug)]
pub struct MeshBuffers<T> {
    pub vertex_data: Vec<T>,
    pub groups: Vec<GroupIndices>,
}

/// The first index of `key` in `table`, if the table holds it.
fn find_key(table: &Vec<AttributeIndexKey>, key: AttributeIndexKey) -> (r: Option<usize>)
    ensures
        match r {
            Some(i) => i < table@.len() && table@[i as int] == key,
            None => !table@.contains(key),
        },
{
    let mut i: usize = 0;
    while i < table.len()
        invariant
            i <= table@.len(),
            forall|j: int| 0 <= j < i ==> table@[j] != key,
        decreases table@.len() - i,
    {
        if crate::mesh::key_eq(&table[i], &key) {
            return Some(i);
        }
        i = i + 1;
    }
    None
}

/// Checks one corner against the schema, the raw attribute arrays and the
/// index-width capacity; welds its key onto the table, appending the key's
/// interleaved record to the vertex buffer if the key is new; and returns the
/// key's id.
fn lookup_or_insert<T: Copy>(
    m: &Mesh<T>,
    table: &mut Vec<AttributeIndexKey>,
    data: &mut Vec<T>,
    key: AttributeIndexKey,
) -> (r: Result<u16, CornerFault>)
    requires
        old(table)@.no_duplicates(),
        old(table)@.len() <= MAX_VERTEX_COUNT,
        old(data)@ == records_of(*m, old(table)@),
    ensures
        final(table)@.no_duplicates(),
        final(table)@.len() <= MAX_VERTEX_COUNT,
        final(data)@ == records_of(*m, final(table)@),
        old(table)@.is_prefix_of(final(table)@),
        match r {
            Ok(id) => {
                &&& corner_fault(*m, old(table)@, key) is None
                &&& final(table)@ == weld_insert(old(table)@, key)
                &&& final(table)@.contains(key)
                &&& id as int == final(table)@.index_of(key)
            },
            Err(f) => {
                &&& corner_fault(*m, old(table)@, key) == Some(f)
                &&& final(table)@ == old(table)@
                &&& final(data)@ == old(data)@
            },
        },
{
    let schema_ok = match key.normal {
        Some(_) => m.has_normals,
        None => !m.has_normals,
    };
    if !schema_ok {
        return Err(CornerFault::SchemaMismatch);
    }
    let normal_in_bounds = match key.normal {
        Some(n) => n < m.normals.len(),
        None => true,
    };
    if !(key.position < m.positions.len() && key.texcoord < m.texcoords.len()
        && normal_in_bounds) {
        return Err(CornerFault::OutOfRange);
    }
    match find_key(table, key) {
        Some(i) => {
            proof {
                crate::welding::lemma_index_of_unique(table@, i as int, key);
                assert(weld_insert(table@, key) == table@);
            }
            Ok(i as u16)
        },
        None => {
            if table.len() >= MAX_VERTEX_COUNT {
                return Err(CornerFault::Overflow);
            }
            let id = table.len();
            let ghost w0 = table@;
            table.push(key);
            proof {
                assert(table@.drop_last() =~= w0);
                assert(table@ == weld_insert(w0, key));
                assert(table@.no_duplicates());
                crate::welding::lemma_index_of_unique(table@, id as int, key);
                assert(w0.is_prefix_of(table@)) by {
                    assert(table@.take(w0.len() as int) =~= w0);
                }
            }
            let p = &m.positions[key.position];
            data.push(p.x);
            data.push(p.y);
            data.push(p.z);
            let t = &m.texcoords[key.texcoord];
            data.push(t.u);
            data.push(t.v);
            match key.normal {
                Some(ni) => {
                    let n = &m.normals[ni];
                    data.push(n.x);
                    data.push(n.y);
                    data.push(n.z);
                },
                None => {},
            }
            proof {
                assert(data@ =~= records_of(*m, w0) + m.record(key));
                assert(records_of(*m, table@) == records_of(*m, w0) + m.record(key));
            }
            Ok(id as u16)
        },
    }
}

/// Welds one primitive's corners onto the table and appends their ids to the
/// group's index buffer; a fault names the offending corner.
fn process_primitive<T: Copy>(
    m: &Mesh<T>,
    prim: &Primitive,
    table: &mut Vec<AttributeIndexKey>,
    data: &mut Vec<T>,
    indices: &mut Vec<u16>,
) -> (r: Result<(), (usize, CornerFault)>)
    requires
        old(table)@.no_duplicates(),
        old(table)@.len() <= MAX_VERTEX_COUNT,
        old(data)@ == records_of(*m, old(table)@),
    ensures
        final(table)@.no_duplicates(),
        final(table)@.len() <= MAX_VERTEX_COUNT,
        final(data)@ == records_of(*m, final(table)@),
        old(table)@.is_prefix_of(final(table)@),
        match r {
            Ok(()) => {
                &&& scan_corners(*m, old(table)@, prim.corners()) == Ok::<_, (int, CornerFault)>(
                    final(table)@,
                )
                &&& final(indices)@.len() == old(indices)@.len() + prim.corners().len()
                &&& forall|c: int|
                    0 <= c < old(indices)@.len() ==> final(indices)@[c] == old(indices)@[c]
                &&& forall|c: int|
                    0 <= c < prim.corners().len() ==> final(table)@.contains(
                        #[trigger] prim.corners()[c],
                    ) && final(indices)@[old(indices)@.len() + c] as int
                        == final(table)@.index_of(prim.corners()[c])
            },
            Err((ci, f)) => scan_corners(*m, old(table)@, prim.corners()) == Err::<
                Seq<AttributeIndexKey>,
                _,
            >((ci as int, f)),
        },
{
    let ghost cs = prim.corners();
    let ghost w0 = table@;
    let ghost base = indices@.len();
    let n = prim.corner_count();
    let mut ci: usize = 0;
    while ci < n
        invariant
            n == cs.len(),
            ci <= n,
            table@.no_duplicates(),
            table@.len() <= MAX_VERTEX_COUNT,
            data@ == records_of(*m, table@),
            w0.is_prefix_of(table@),
            scan_corners(*m, w0, cs.take(ci as int)) == Ok::<_, (int, CornerFault)>(table@),
            indices@.len() == base + ci,
            forall|c: int| 0 <= c < base ==> indices@[c] == old(indices)@[c],
            forall|c: int|
                0 <= c < ci ==> table@.contains(#[trigger] cs[c]) && indices@[base + c] as int
                    == table@.index_of(cs[c]),
            w0 == old(table)@,
            base == old(indices)@.len(),
            cs == prim.corners(),
        decreases n - ci,
    {
        let key = prim.corner(ci);
        let ghost w_before = table@;
        match lookup_or_insert(m, table, data, key) {
            Ok(id) => {
                indices.push(id);
                proof {
                    assert(cs.take(ci + 1).drop_last() =~= cs.take(ci as int));
                    assert(cs.take(ci + 1).last() == cs[ci as int]);
                    assert(scan_corners(*m, w0, cs.take(ci + 1)) == Ok::<_, (int, CornerFault)>(
                        table@,
                    ));
                    crate::welding::lemma_prefix_transitive(w0, w_before, table@);
                    assert forall|c: int| 0 <= c < ci + 1 implies table@.contains(
                        #[trigger] cs[c],
                    ) && indices@[base + c] as int == table@.index_of(cs[c]) by {
                        if c < ci {
                            crate::welding::lemma_index_stable(w_before, table@, cs[c]);
                        }
                    }
                }
            },
            Err(f) => {
                proof {
                    assert(cs.take(ci + 1).drop_last() =~= cs.take(ci as int));
                    assert(cs.take(ci + 1).last() == cs[ci as int]);
                    assert(scan_corners(*m, w0, cs.take(ci + 1)) == Err::<
                        Seq<AttributeIndexKey>,
                        _,
                    >((ci as int, f)));
                    lemma_scan_corners_err(*m, w0, cs, ci + 1);
                }
                return Err((ci, f));
            },
        }
        ci = ci + 1;
    }
    proof {
        assert(cs.take(n as int) =~= cs);
    }
    Ok(())
}

/// Welds one material group's primitives onto the table and builds the
/// group's index buffer; a fault names the offending primitive and corner.
fn process_group<T: Copy>(
    m: &Mesh<T>,
    g: &MaterialGroup,
    table: &mut Vec<AttributeIndexKey>,
    data: &mut Vec<T>,
) -> (r: Result<Vec<u16>, (usize, usize, CornerFault)>)
    requires
        old(table)@.no_duplicates(),
        old(table)@.len() <= MAX_VERTEX_COUNT,
        old(data)@ == records_of(*m, old(table)@),
    ensures
        final(table)@.no_duplicates(),
        final(table)@.len() <= MAX_VERTEX_COUNT,
        final(data)@ == records_of(*m, final(table)@),
        old(table)@.is_prefix_of(final(table)@),
        match r {
            Ok(indices) => {
                &&& scan_prims(*m, old(table)@, g.primitives@) == Ok::<_, (int, int, CornerFault)>(
                    final(table)@,
                )
                &&& indices@.len() == g.corners().len()
                &&& forall|c: int|
                    0 <= c < g.corners().len() ==> final(table)@.contains(
                        #[trigger] g.corners()[c],
                    ) && indices@[c] as int == final(table)@.index_of(g.corners()[c])
            },
            Err((pi, ci, f)) => scan_prims(*m, old(table)@, g.primitives@) == Err::<
                Seq<AttributeIndexKey>,
                _,
            >((pi as int, ci as int, f)),
        },
{
    let ghost w0 = table@;
    let ghost ps = g.primitives@;
    let mut indices: Vec<u16> = Vec::new();
    let mut pi: usize = 0;
    while pi < g.primitives.len()
        invariant
            pi <= ps.len(),
            table@.no_duplicates(),
            table@.len() <= MAX_VERTEX_COUNT,
            data@ == records_of(*m, table@),
            w0.is_prefix_of(table@),
            scan_prims(*m, w0, ps.take(pi as int)) == Ok::<_, (int, int, CornerFault)>(table@),
            indices@.len() == corners_of_prims(ps.take(pi as int)).len(),
            forall|c: int|
                0 <= c < corners_of_prims(ps.take(pi as int)).len() ==> table@.contains(
                    #[trigger] corners_of_prims(ps.take(pi as int))[c],
                ) && indices@[c] as int == table@.index_of(corners_of_prims(ps.take(pi as int))[c]),
            w0 == old(table)@,
            ps == g.primitives@,
        decreases ps.len() - pi,
    {
        let prim = &g.primitives[pi];
        let ghost w_before = table@;
        let ghost done = corners_of_prims(ps.take(pi as int));
        match process_primitive(m, prim, table, data, &mut indices) {
            Ok(()) => {
                proof {
                    assert(ps.take(pi + 1).drop_last() =~= ps.take(pi as int));
                    assert(ps.take(pi + 1).last() == ps[pi as int]);
                    assert(scan_prims(*m, w0, ps.take(pi + 1)) == Ok::<_, (int, int, CornerFault)>(
                        table@,
                    ));
                    crate::welding::lemma_prefix_transitive(w0, w_before, table@);
                    let done2 = corners_of_prims(ps.take(pi + 1));
                    assert(done2 =~= done + prim.corners());
                    assert forall|c: int| 0 <= c < done2.len() implies table@.contains(
                        #[trigger] done2[c],
                    ) && indices@[c] as int == table@.index_of(done2[c]) by {
                        if c < done.len() {
                            assert(done2[c] == done[c]);
                            crate::welding::lemma_index_stable(w_before, table@, done[c]);
                        } else {
                            assert(done2[c] == prim.corners()[c - done.len()]);
                        }
                    }
                }
            },
            Err((ci, f)) => {
                proof {
                    assert(ps.take(pi + 1).drop_last() =~= ps.take(pi as int));
                    assert(ps.take(pi + 1).last() == ps[pi as int]);
                    assert(scan_prims(*m, w0, ps.take(pi + 1)) == Err::<
                        Seq<AttributeIndexKey>,
                        _,
                    >((pi as int, ci as int, f)));
                    lemma_scan_prims_err(*m, w0, ps, pi + 1);
                }
                return Err((pi, ci, f));
            },
        }
        pi = pi + 1;
    }
    proof {
        assert(ps.take(ps.len() as int) =~= ps);
    }
    Ok(indices)
}

/// One group's output is right with respect to vertex table `w`: the name is
/// the group's own, and the index buffer holds, corner by corner in traversal
/// order, the table id of the corner's key.
pub open spec fn group_output_matches<T>(
    m: Mesh<T>,
    g: MaterialGroup,
    out: GroupIndices,
    w: Seq<AttributeIndexKey>,
) -> bool {
    &&& g.name matches Some(nm) && out.name@ == nm@
    &&& out.indices@.len() == g.corners().len()
    &&& forall|c: int|
        0 <= c < g.corners().len() ==> w.contains(#[trigger] g.corners()[c]) && out.indices@[c]
            as int == w.index_of(g.corners()[c])
}

/// What the indexer returns on a given mesh: on success, the vertex buffer
/// holds one interleaved record per distinct key in first-occurrence order
/// and each group's index buffer maps its corners to their table ids; on
/// failure, exactly the first error of the traversal.
pub open spec fn index_result_matches<T>(
    m: Mesh<T>,
    r: Result<MeshBuffers<T>, IndexError>,
) -> bool {
    match r {
        Ok(out) => {
            &&& mesh_scan(m) == Ok::<_, IndexError>(welded(m))
            &&& welded(m).len() <= MAX_VERTEX_COUNT
            &&& out.vertex_data@ == records_of(m, welded(m))
            &&& out.vertex_data@.len() == welded(m).len() * m.record_width()
            &&& out.groups@.len() == m.groups@.len()
            &&& forall|gi: int|
                0 <= gi < m.groups@.len() ==> group_output_matches(
                    m,
                    m.groups@[gi],
                    #[trigger] out.groups@[gi],
                    welded(m),
                )
        },
        Err(e) => mesh_scan(m) == Err::<Seq<AttributeIndexKey>, IndexError>(e),
    }
}

/// Runs the whole pipeline on a parsed mesh: welds every corner that shares
/// an attribute-index key into one output vertex, builds the interleaved
/// vertex buffer in first-occurrence order, and emits one index buffer per
/// material group; fails fast at the traversal's first faulty group or
/// corner. Every emitted index addresses a record inside the vertex buffer.
pub fn index_mesh<T: Copy>(m: &Mesh<T>) -> (r: Result<MeshBuffers<T>, IndexError>)
    ensures
        index_result_matches(*m, r),
        r matches Ok(out) ==> forall|gi: int, c: int|
            0 <= gi < out.groups@.len() && 0 <= c < out.groups@[gi].indices@.len() ==> (
            #[trigger] out.groups@[gi].indices@[c] as int) < out.vertex_data@.len() as int
                / m.record_width(),
{
    let ghost gs = m.groups@;
    let mut table: Vec<AttributeIndexKey> = Vec::new();
    let mut vertex_data: Vec<T> = Vec::new();
    let mut groups_out: Vec<GroupIndices> = Vec::new();
    let mut gi: usize = 0;
    while gi < m.groups.len()
        invariant
            gi <= gs.len(),
            table@.no_duplicates(),
            table@.len() <= MAX_VERTEX_COUNT,
            vertex_data@ == records_of(*m, table@),
            scan_groups(*m, gs.take(gi as int)) == Ok::<_, IndexError>(table@),
            groups_out@.len() == gi,
            forall|j: int|
                0 <= j < gi ==> group_output_matches(
                    *m,
                    gs[j],
                    #[trigger] groups_out@[j],
                    table@,
                ),
            gs == m.groups@,
        decreases gs.len() - gi,
    {
        let g = &m.groups[gi];
        let name = match &g.name {
            Some(n) => n.clone(),
            None => {
                proof {
                    assert(gs.take(gi + 1).drop_last() =~= gs.take(gi as int));
                    assert(gs.take(gi + 1).last() == gs[gi as int]);
                    assert(scan_groups(*m, gs.take(gi + 1)) == Err::<Seq<AttributeIndexKey>, _>(
                        IndexError::UnnamedGroup { group: gi },
                    ));
                    lemma_scan_groups_err(*m, gs, gi + 1);
                }
                return Err(IndexError::UnnamedGroup { group: gi });
            },
        };
        let ghost w_before = table@;
        match process_group(m, g, &mut table, &mut vertex_data) {
            Ok(indices) => {
                groups_out.push(GroupIndices { name, indices });
                proof {
                    assert(gs.take(gi + 1).drop_last() =~= gs.take(gi as int));
                    assert(gs.take(gi + 1).last() == gs[gi as int]);
                    assert(scan_groups(*m, gs.take(gi + 1)) == Ok::<_, IndexError>(table@));
                    assert forall|j: int| 0 <= j < gi + 1 implies group_output_matches(
                        *m,
                        gs[j],
                        #[trigger] groups_out@[j],
                        table@,
                    ) by {
                        if j < gi {
                            assert(group_output_matches(*m, gs[j], groups_out@[j], w_before));
                            assert forall|c: int|
                                0 <= c < gs[j].corners().len() implies table@.contains(
                                #[trigger] gs[j].corners()[c],
                            ) && groups_out@[j].indices@[c] as int == table@.index_of(
                                gs[j].corners()[c],
                            ) by {
                                crate::welding::lemma_index_stable(
                                    w_before,
                                    table@,
                                    gs[j].corners()[c],
                                );
                            }
                        }
                    }
                }
            },
            Err((pi, ci, f)) => {
                let err = match f {
                    CornerFault::SchemaMismatch => IndexError::ParseError {
                        group: gi,
                        primitive: pi,
                        corner: ci,
                    },
                    CornerFault::OutOfRange => IndexError::IndexOutOfRange {
                        group: gi,
                        primitive: pi,
                        corner: ci,
                    },
                    CornerFault::Overflow => IndexError::IndexOverflow {
                        group: gi,
                        primitive: pi,
                        corner: ci,
                    },
                };
                proof {
                    assert(gs.take(gi + 1).drop_last() =~= gs.take(gi as int));
                    assert(gs.take(gi + 1).last() == gs[gi as int]);
                    assert(scan_groups(*m, gs.take(gi + 1)) == Err::<Seq<AttributeIndexKey>, _>(
                        fault_error(f, gi as int, pi as int, ci as int),
                    ));
                    assert(err == fault_error(f, gi as int, pi as int, ci as int));
                    lemma_scan_groups_err(*m, gs, gi + 1);
                }
                return Err(err);
            },
        }
        gi = gi + 1;
    }
    proof {
        assert(gs.take(gs.len() as int) =~= gs);
        lemma_scan_groups_ok(*m, gs);
        assert(table@ == welded(*m));
        lemma_records_len(*m, table@);
    }
    let out = MeshBuffers { vertex_data, groups: groups_out };
    proof {
        let w = welded(*m);
        assert(out.vertex_data@.len() as int / m.record_width() == w.len()) by {
            lemma_records_len(*m, w);
            if m.has_normals {
                assert((w.len() * 8) as int / 8 == w.len()) by (nonlinear_arith);
            } else {
                assert((w.len() * 5) as int / 5 == w.len()) by (nonlinear_arith);
            }
        }
        assert forall|gi2: int, c: int|
            0 <= gi2 < out.groups@.len() && 0 <= c < out.groups@[gi2].indices@.len() implies (
        #[trigger] out.groups@[gi2].indices@[c] as int) < out.vertex_data@.len() as int
            / m.record_width() by {
            assert(group_output_matches(*m, gs[gi2], out.groups@[gi2], w));
            let k = gs[gi2].corners()[c];
            assert(w.contains(k));
            assert(0 <= w.index_of(k) < w.len());
        }
    }
    Ok(out)
}

/// The vertex buffer's record at table position `i` is the interleaved record
/// of the key that sits there.
pub proof fn lemma_record_at_id<T>(m: Mesh<T>, w: Seq<AttributeIndexKey>, i: int)
    requires
        0 <= i < w.len(),
    ensures
        (i + 1) * m.record_width() <= records_of(m, w).len(),
        records_of(m, w).subrange(i * m.record_width(), (i + 1) * m.record_width()) == m.record(
            w[i],
        ),
    decreases w.len(),
{
    lemma_records_len(m, w);
    lemma_records_len(m, w.drop_last());
    let width = m.record_width();
    if m.has_normals {
        assert((i + 1) * 8 == i * 8 + 8 && i * 8 >= 0 && (i + 1) * 8 <= w.len() * 8 && (w.len()
            - 1) * 8 + 8 == w.len() * 8) by (nonlinear_arith)
            requires
                0 <= i < w.len(),
        ;
    } else {
        assert((i + 1) * 5 == i * 5 + 5 && i * 5 >= 0 && (i + 1) * 5 <= w.len() * 5 && (w.len()
            - 1) * 5 + 5 == w.len() * 5) by (nonlinear_arith)
            requires
                0 <= i < w.len(),
        ;
    }
    if i == w.len() - 1 {
        assert(records_of(m, w).subrange(i * width, (i + 1) * width) =~= m.record(w[i]));
    } else {
        lemma_record_at_id(m, w.drop_last(), i);
        if m.has_normals {
            assert((i + 1) * 8 <= (w.len() - 1) * 8) by (nonlinear_arith)
                requires
                    i < w.len() - 1,
            ;
        } else {
            assert((i + 1) * 5 <= (w.len() - 1) * 5) by (nonlinear_arith)
                requires
                    i < w.len() - 1,
            ;
        }
        assert(records_of(m, w).subrange(i * width, (i + 1) * width) =~= records_of(
            m,
            w.drop_last(),
        ).subrange(i * width, (i + 1) * width));
    }
}

/// Determinism: everything the indexer's contract pins down is a function of
/// the mesh alone, so two results for the same mesh are byte-identical — the
/// same vertex buffer, the same group names and the same index buffers, or
/// the same error.
pub proof fn lemma_deterministic<T>(
    m: Mesh<T>,
    r1: Result<MeshBuffers<T>, IndexError>,
    r2: Result<MeshBuffers<T>, IndexError>,
)
    requires
        index_result_matches(m, r1),
        index_result_matches(m, r2),
    ensures
        match (r1, r2) {
            (Ok(a), Ok(b)) => {
                &&& a.vertex_data@ == b.vertex_data@
                &&& a.groups@.len() == b.groups@.len()
                &&& forall|gi: int|
                    0 <= gi < a.groups@.len() ==> (#[trigger] a.groups@[gi]).name@
                        == b.groups@[gi].name@ && a.groups@[gi].indices@ == b.groups@[gi].indices@
            },
            (Err(e1), Err(e2)) => e1 == e2,
            _ => false,
        },
{
    match (r1, r2) {
        (Ok(a), Ok(b)) => {
            let w = welded(m);
            assert forall|gi: int| 0 <= gi < a.groups@.len() implies (
            #[trigger] a.groups@[gi]).name@ == b.groups@[gi].name@ && a.groups@[gi].indices@
                == b.groups@[gi].indices@ by {
                assert(group_output_matches(m, m.groups@[gi], a.groups@[gi], w));
                assert(group_output_matches(m, m.groups@[gi], b.groups@[gi], w));
                assert forall|c: int| 0 <= c < a.groups@[gi].indices@.len() implies a.groups@[gi].indices@[c]
                    == b.groups@[gi].indices@[c] by {
                    let k = m.groups@[gi].corners()[c];
                    assert(a.groups@[gi].indices@[c] as int == w.index_of(k));
                    assert(b.groups@[gi].indices@[c] as int == w.index_of(k));
                }
                assert(a.groups@[gi].indices@ =~= b.groups@[gi].indices@);
            }
        },
        (Err(_), Err(_)) => {},
        _ => {},
    }
}

/// Welding correctness: two corners that carry the same attribute-index key
/// receive the same emitted index, and the vertex buffer holds exactly one
/// record for that key — at that index, and nowhere else.
pub proof fn lemma_equal_keys_share_vertex<T>(
    m: Mesh<T>,
    out: MeshBuffers<T>,
    g1: int,
    c1: int,
    g2: int,
    c2: int,
)
    requires
        index_result_matches(m, Ok(out)),
        0 <= g1 < m.groups@.len(),
        0 <= c1 < m.groups@[g1].corners().len(),
        0 <= g2 < m.groups@.len(),
        0 <= c2 < m.groups@[g2].corners().len(),
        m.groups@[g1].corners()[c1] == m.groups@[g2].corners()[c2],
    ensures
        out.groups@[g1].indices@[c1] == out.groups@[g2].indices@[c2],
        ({
            let id = out.groups@[g1].indices@[c1] as int;
            let key = m.groups@[g1].corners()[c1];
            &&& 0 <= id < welded(m).len()
            &&& welded(m)[id] == key
            &&& forall|j: int| 0 <= j < welded(m).len() && welded(m)[j] == key ==> j == id
            &&& out.vertex_data@.subrange(id * m.record_width(), (id + 1) * m.record_width())
                == m.record(key)
        }),
{
    let w = welded(m);
    let key = m.groups@[g1].corners()[c1];
    assert(group_output_matches(m, m.groups@[g1], out.groups@[g1], w));
    assert(group_output_matches(m, m.groups@[g2], out.groups@[g2], w));
    assert(w.contains(key));
    let id = w.index_of(key);
    assert(0 <= id < w.len() && w[id] == key);
    crate::welding::lemma_weld_append_no_duplicates(Seq::empty(), m.corners());
    lemma_record_at_id(m, w, id);
}

/// Non-welding correctness: two corners with differing attribute-index keys
/// receive differing emitted indices — no accidental collision.
pub proof fn lemma_distinct_keys_distinct_vertices<T>(
    m: Mesh<T>,
    out: MeshBuffers<T>,
    g1: int,
    c1: int,
    g2: int,
    c2: int,
)
    requires
        index_result_matches(m, Ok(out)),
        0 <= g1 < m.groups@.len(),
        0 <= c1 < m.groups@[g1].corners().len(),
        0 <= g2 < m.groups@.len(),
        0 <= c2 < m.groups@[g2].corners().len(),
        m.groups@[g1].corners()[c1] != m.groups@[g2].corners()[c2],
    ensures
        out.groups@[g1].indices@[c1] != out.groups@[g2].indices@[c2],
{
    let w = welded(m);
    let k1 = m.groups@[g1].corners()[c1];
    let k2 = m.groups@[g2].corners()[c2];
    assert(group_output_matches(m, m.groups@[g1], out.groups@[g1], w));
    assert(group_output_matches(m, m.groups@[g2], out.groups@[g2], w));
    assert(w.contains(k1));
    assert(w.contains(k2));
    let a = w.index_of(k1);
    let b = w.index_of(k2);
    assert(0 <= a < w.len() && w[a] == k1);
    assert(0 <= b < w.len() && w[b] == k2);
}

/// Order preservation: across the full traversal, a key first seen at an
/// earlier corner receives a strictly smaller vertex id than a key first seen
/// at a later corner.
pub proof fn lemma_ids_follow_first_occurrence<T>(m: Mesh<T>, i: int, j: int)
    requires
        0 <= i < j < m.corners().len(),
        !m.corners().take(i).contains(m.corners()[i]),
        !m.corners().take(j).contains(m.corners()[j]),
        m.corners()[i] != m.corners()[j],
    ensures
        welded(m).contains(m.corners()[i]),
        welded(m).contains(m.corners()[j]),
        welded(m).index_of(m.corners()[i]) < welded(m).index_of(m.corners()[j]),
{
    crate::welding::lemma_first_occurrence_order(m.corners(), i, j);
}

} // verus!
