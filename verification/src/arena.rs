use vstd::prelude::*;
use slotmap::{SlotMap, DefaultKey, KeyData, Key};
use crate::geometry::{canon_key, Vertex, Line};
use crate::sector::Sector;

verus! {

/// The vertex arena: a generation-stamped slot map, opaque to the verifier and
/// spoken of only through `vertex_table` and `vertex_issued`.
#[verifier::external_body]
pub struct VertexArena {
    map: SlotMap<DefaultKey, Vertex>,
}

/// The line arena, opaque like the vertex arena.
#[verifier::external_body]
pub struct LineArena {
    map: SlotMap<DefaultKey, Line>,
}

/// The sector arena, opaque like the vertex arena.
#[verifier::external_body]
pub struct SectorArena {
    map: SlotMap<DefaultKey, Sector>,
}

/// The contents of a vertex arena: each live slot's handle (as `KeyData::as_ffi`
/// renders it) mapped to the stored vertex.
pub uninterp spec fn vertex_table(m: VertexArena) -> Map<u64, Vertex>;

/// Every handle the vertex arena has ever issued. It is determined by the slot
/// versions stored in the map: slot versions only grow while fewer than
/// 0x8000_0000 handles have been issued, so an issued handle is never reissued
/// within that budget.
pub uninterp spec fn vertex_issued(m: VertexArena) -> Set<u64>;

/// The contents of a line arena, each line as its pair of raw endpoint handles.
pub uninterp spec fn line_table(m: LineArena) -> Map<u64, (u64, u64)>;

/// Every handle the line arena has ever issued.
pub uninterp spec fn line_issued(m: LineArena) -> Set<u64>;

/// The contents of a sector arena, each sector as its boundary: the sequence of
/// raw line handles.
pub uninterp spec fn sector_table(m: SectorArena) -> Map<u64, Seq<u64>>;

/// Every handle the sector arena has ever issued.
pub uninterp spec fn sector_issued(m: SectorArena) -> Set<u64>;

pub open spec fn no_keys(s: Set<u64>) -> bool {
    forall|k: u64| !s.contains(k)
}

pub open spec fn no_entries<V>(m: Map<u64, V>) -> bool {
    forall|k: u64| !m.dom().contains(k)
}

/// Relies on slotmap::SlotMap::new: a fresh map is empty and has issued nothing.
#[verifier::external_body]
pub(crate) fn vertex_new() -> (r: VertexArena)
    ensures
        no_entries(vertex_table(r)),
        no_keys(vertex_issued(r)),
        vertex_issued(r).finite(),
{
    VertexArena { map: SlotMap::new() }
}

/// Relies on slotmap::SlotMap::insert: it stores the value under a key that the
/// map has never issued (slot versions only grow below the issue budget, and a
/// reused slot gets a larger version), and issued keys carry an odd version,
/// so bit 32 of the ffi rendering is set.
#[verifier::external_body]
pub(crate) fn vertex_insert(m: &mut VertexArena, v: Vertex) -> (r: u64)
    requires
        vertex_issued(*old(m)).finite(),
        vertex_issued(*old(m)).len() < 0x8000_0000,
    ensures
        canon_key(r),
        !vertex_issued(*old(m)).contains(r),
        vertex_table(*final(m)) == vertex_table(*old(m)).insert(r, v),
        vertex_issued(*final(m)) == vertex_issued(*old(m)).insert(r),
    no_unwind
{
    m.map.insert(v).data().as_ffi()
}

/// Relies on slotmap::SlotMap::get: it returns the stored value exactly for a
/// key whose version matches the slot, i.e. for a handle live in the map.
#[verifier::external_body]
pub(crate) fn vertex_get(m: &VertexArena, k: u64) -> (r: Option<Vertex>)
    requires
        canon_key(k),
    ensures
        r == (if vertex_table(*m).dom().contains(k) {
            Some(vertex_table(*m)[k])
        } else {
            None::<Vertex>
        }),
{
    m.map.get(KeyData::from_ffi(k).into()).copied()
}

/// Relies on slotmap::SlotMap::get_mut: writing through it replaces the value
/// of a live handle and touches nothing else, in particular no slot version.
#[verifier::external_body]
pub(crate) fn vertex_set(m: &mut VertexArena, k: u64, v: Vertex)
    requires
        canon_key(k),
        vertex_table(*old(m)).dom().contains(k),
    ensures
        vertex_table(*final(m)) == vertex_table(*old(m)).insert(k, v),
        vertex_issued(*final(m)) == vertex_issued(*old(m)),
    no_unwind
{
    *m.map.get_mut(KeyData::from_ffi(k).into()).unwrap() = v;
}

/// Relies on slotmap::SlotMap::remove: it takes out exactly the value of a live
/// handle, returns None for any other, and issues nothing.
#[verifier::external_body]
pub(crate) fn vertex_remove(m: &mut VertexArena, k: u64) -> (r: Option<Vertex>)
    requires
        canon_key(k),
    ensures
        r == (if vertex_table(*old(m)).dom().contains(k) {
            Some(vertex_table(*old(m))[k])
        } else {
            None::<Vertex>
        }),
        vertex_table(*final(m)) == vertex_table(*old(m)).remove(k),
        vertex_issued(*final(m)) == vertex_issued(*old(m)),
    no_unwind
{
    m.map.remove(KeyData::from_ffi(k).into())
}

/// Relies on slotmap::SlotMap::new: a fresh map is empty and has issued nothing.
#[verifier::external_body]
pub(crate) fn line_new() -> (r: LineArena)
    ensures
        no_entries(line_table(r)),
        no_keys(line_issued(r)),
        line_issued(r).finite(),
{
    LineArena { map: SlotMap::new() }
}

/// Relies on slotmap::SlotMap::insert, as the vertex arena's insert does.
#[verifier::external_body]
pub(crate) fn line_insert(m: &mut LineArena, l: Line) -> (r: u64)
    requires
        line_issued(*old(m)).finite(),
        line_issued(*old(m)).len() < 0x8000_0000,
    ensures
        canon_key(r),
        !line_issued(*old(m)).contains(r),
        line_table(*final(m)) == line_table(*old(m)).insert(r, l@),
        line_issued(*final(m)) == line_issued(*old(m)).insert(r),
    no_unwind
{
    m.map.insert(l).data().as_ffi()
}

/// Relies on slotmap::SlotMap::get, as the vertex arena's get does.
#[verifier::external_body]
pub(crate) fn line_get(m: &LineArena, k: u64) -> (r: Option<Line>)
    requires
        canon_key(k),
    ensures
        r matches Some(l) ==> line_table(*m).dom().contains(k) && l@ == line_table(*m)[k],
        r is None ==> !line_table(*m).dom().contains(k),
{
    m.map.get(KeyData::from_ffi(k).into()).copied()
}

/// Relies on slotmap::SlotMap::get_mut, as the vertex arena's set does.
#[verifier::external_body]
pub(crate) fn line_set(m: &mut LineArena, k: u64, l: Line)
    requires
        canon_key(k),
        line_table(*old(m)).dom().contains(k),
    ensures
        line_table(*final(m)) == line_table(*old(m)).insert(k, l@),
        line_issued(*final(m)) == line_issued(*old(m)),
    no_unwind
{
    *m.map.get_mut(KeyData::from_ffi(k).into()).unwrap() = l;
}

/// Relies on slotmap::SlotMap::remove, as the vertex arena's remove does.
#[verifier::external_body]
pub(crate) fn line_remove(m: &mut LineArena, k: u64) -> (r: Option<Line>)
    requires
        canon_key(k),
    ensures
        r matches Some(l) ==> line_table(*old(m)).dom().contains(k) && l@ == line_table(
            *old(m),
        )[k],
        r is None ==> !line_table(*old(m)).dom().contains(k),
        line_table(*final(m)) == line_table(*old(m)).remove(k),
        line_issued(*final(m)) == line_issued(*old(m)),
    no_unwind
{
    m.map.remove(KeyData::from_ffi(k).into())
}

/// Relies on slotmap::SlotMap::keys: it yields the handle of every live slot
/// exactly once, and issued handles carry an odd version.
#[verifier::external_body]
pub(crate) fn line_keys(m: &LineArena) -> (r: Vec<u64>)
    ensures
        r@.no_duplicates(),
        r@.to_set() == line_table(*m).dom(),
        forall|i: int| 0 <= i < r@.len() ==> canon_key(r@[i]),
{
    let mut v = Vec::new();
    for k in m.map.keys() {
        v.push(k.data().as_ffi());
    }
    v
}

/// Relies on slotmap::SlotMap::new: a fresh map is empty and has issued nothing.
#[verifier::external_body]
pub(crate) fn sector_new() -> (r: SectorArena)
    ensures
        no_entries(sector_table(r)),
        no_keys(sector_issued(r)),
        sector_issued(r).finite(),
{
    SectorArena { map: SlotMap::new() }
}

/// Relies on slotmap::SlotMap::insert, as the vertex arena's insert does.
#[verifier::external_body]
pub(crate) fn sector_insert(m: &mut SectorArena, s: Sector) -> (r: u64)
    requires
        sector_issued(*old(m)).finite(),
        sector_issued(*old(m)).len() < 0x8000_0000,
    ensures
        canon_key(r),
        !sector_issued(*old(m)).contains(r),
        sector_table(*final(m)) == sector_table(*old(m)).insert(r, s@),
        sector_issued(*final(m)) == sector_issued(*old(m)).insert(r),
    no_unwind
{
    m.map.insert(s).data().as_ffi()
}

/// Relies on slotmap::SlotMap::get, as the vertex arena's get does; the sector
/// is handed out as a clone.
#[verifier::external_body]
pub(crate) fn sector_get(m: &SectorArena, k: u64) -> (r: Option<Sector>)
    requires
        canon_key(k),
    ensures
        r matches Some(s) ==> sector_table(*m).dom().contains(k) && s@ == sector_table(*m)[k],
        r is None ==> !sector_table(*m).dom().contains(k),
{
    m.map.get(KeyData::from_ffi(k).into()).cloned()
}

/// Relies on slotmap::SlotMap::get_mut, as the vertex arena's set does.
#[verifier::external_body]
pub(crate) fn sector_set(m: &mut SectorArena, k: u64, s: Sector)
    requires
        canon_key(k),
        sector_table(*old(m)).dom().contains(k),
    ensures
        sector_table(*final(m)) == sector_table(*old(m)).insert(k, s@),
        sector_issued(*final(m)) == sector_issued(*old(m)),
    no_unwind
{
    *m.map.get_mut(KeyData::from_ffi(k).into()).unwrap() = s;
}

/// Relies on slotmap::SlotMap::keys, as the line arena's keys does.
#[verifier::external_body]
pub(crate) fn sector_keys(m: &SectorArena) -> (r: Vec<u64>)
    ensures
        r@.no_duplicates(),
        r@.to_set() == sector_table(*m).dom(),
        forall|i: int| 0 <= i < r@.len() ==> canon_key(r@[i]),
{
    let mut v = Vec::new();
    for k in m.map.keys() {
        v.push(k.data().as_ffi());
    }
    v
}

} // verus!
