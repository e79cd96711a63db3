use vstd::prelude::*;
use crate::geometry::{canon_key, Line, LineID, SectorID, Vertex, VertexID};
use crate::sector::{boundary_view, Sector};
use crate::arena::{
    line_get,
    line_insert,
    line_issued,
    line_keys,
    line_new,
    line_remove,
    line_set,
    line_table,
    sector_get,
    sector_insert,
    sector_issued,
    sector_keys,
    sector_new,
    sector_set,
    sector_table,
    vertex_get,
    vertex_insert,
    vertex_issued,
    vertex_new,
    vertex_remove,
    vertex_set,
    vertex_table,
    LineArena,
    SectorArena,
    VertexArena,
};

verus! {

/// The geometry graph: three independent arenas keyed by stable handles. All
/// interaction goes through handles; the world owns the entities exclusively.
pub struct World {
    vertices: VertexArena,
    lines: LineArena,
    sectors: SectorArena,
}

impl World {
    #[verifier::type_invariant]
    spec fn wf(self) -> bool {
        self.handles_accounted()
    }

    /// Handle accounting, maintained by every operation: each arena's live
    /// entries are keyed by handles it has issued, and the issued sets are
    /// finite. Stale handles therefore never silently alias a reused slot: a
    /// handle, once issued, is never issued again.
    pub open spec fn handles_accounted(self) -> bool {
        &&& self.vertex_handles_issued().finite()
        &&& self.line_handles_issued().finite()
        &&& self.sector_handles_issued().finite()
        &&& self.vertex_model().dom().subset_of(self.vertex_handles_issued())
        &&& self.line_model().dom().subset_of(self.line_handles_issued())
        &&& self.sector_model().dom().subset_of(self.sector_handles_issued())
    }

    /// Every vertex handle this world has ever issued, the removed ones
    /// included. Insertions return handles outside this set and only add to it.
    pub closed spec fn vertex_handles_issued(self) -> Set<u64> {
        vertex_issued(self.vertices)
    }

    /// Every line handle this world has ever issued.
    pub closed spec fn line_handles_issued(self) -> Set<u64> {
        line_issued(self.lines)
    }

    /// Every sector handle this world has ever issued.
    pub closed spec fn sector_handles_issued(self) -> Set<u64> {
        sector_issued(self.sectors)
    }

    /// The live vertices, by raw handle.
    pub closed spec fn vertex_model(self) -> Map<u64, Vertex> {
        vertex_table(self.vertices)
    }

    /// The live lines, by raw handle, each as its pair of endpoint handles.
    pub closed spec fn line_model(self) -> Map<u64, (u64, u64)> {
        line_table(self.lines)
    }

    /// The live sectors, by raw handle, each as its boundary sequence.
    pub closed spec fn sector_model(self) -> Map<u64, Seq<u64>> {
        sector_table(self.sectors)
    }

    /// How many vertex handles this world has issued over its lifetime. The
    /// arena's generation space allows 0x8000_0000 of them.
    pub open spec fn vertices_issued(self) -> nat {
        self.vertex_handles_issued().len()
    }

    /// How many line handles this world has issued over its lifetime.
    pub open spec fn lines_issued(self) -> nat {
        self.line_handles_issued().len()
    }

    /// How many sector handles this world has issued over its lifetime.
    pub open spec fn sectors_issued(self) -> nat {
        self.sector_handles_issued().len()
    }
}

impl Default for World {
    /// An empty world: no vertices, lines or sectors, nothing issued yet.
    fn default() -> (w: World)
        ensures
            w.vertex_model() == Map::<u64, Vertex>::empty(),
            w.line_model() == Map::<u64, (u64, u64)>::empty(),
            w.sector_model() == Map::<u64, Seq<u64>>::empty(),
            w.vertex_handles_issued() == Set::<u64>::empty(),
            w.line_handles_issued() == Set::<u64>::empty(),
            w.sector_handles_issued() == Set::<u64>::empty(),
            w.vertices_issued() == 0,
            w.lines_issued() == 0,
            w.sectors_issued() == 0,
            w.handles_accounted(),
    {
        let va = vertex_new();
        let la = line_new();
        let sa = sector_new();
        proof {
            assert(vertex_table(va) =~= Map::<u64, Vertex>::empty());
            assert(line_table(la) =~= Map::<u64, (u64, u64)>::empty());
            assert(sector_table(sa) =~= Map::<u64, Seq<u64>>::empty());
            assert(vertex_issued(va) =~= Set::<u64>::empty());
            assert(line_issued(la) =~= Set::<u64>::empty());
            assert(sector_issued(sa) =~= Set::<u64>::empty());
        }
        let w = World { vertices: va, lines: la, sectors: sa };
        proof {
            use_type_invariant(&w);
        }
        w
    }
}

impl World {
    /// Inserts a vertex; always succeeds. The returned handle is fresh: this
    /// world has never issued it before.
    pub fn new_vertex(&mut self, vertex: Vertex) -> (r: VertexID)
        requires
            old(self).vertices_issued() < 0x8000_0000,
        ensures
            !old(self).vertex_handles_issued().contains(r@),
            !old(self).vertex_model().dom().contains(r@),
            final(self).vertex_model() == old(self).vertex_model().insert(r@, vertex),
            final(self).line_model() == old(self).line_model(),
            final(self).sector_model() == old(self).sector_model(),
            final(self).vertex_handles_issued() == old(self).vertex_handles_issued().insert(
                r@,
            ),
            final(self).line_handles_issued() == old(self).line_handles_issued(),
            final(self).sector_handles_issued() == old(self).sector_handles_issued(),
            final(self).vertices_issued() == old(self).vertices_issued() + 1,
            final(self).lines_issued() == old(self).lines_issued(),
            final(self).sectors_issued() == old(self).sectors_issued(),
            final(self).handles_accounted(),
    {
        proof {
            use_type_invariant(&*self);
        }
        let k = vertex_insert(&mut self.vertices, vertex);
        proof {
            use_type_invariant(&*self);
        }
        VertexID::from_raw(k)
    }

    /// Inserts a line over the two handles, live or not: validity is checked
    /// lazily by consumers such as the closure check.
    pub fn new_line(&mut self, p1: VertexID, p2: VertexID) -> (r: LineID)
        requires
            old(self).lines_issued() < 0x8000_0000,
        ensures
            !old(self).line_handles_issued().contains(r@),
            !old(self).line_model().dom().contains(r@),
            final(self).line_model() == old(self).line_model().insert(r@, (p1@, p2@)),
            final(self).vertex_model() == old(self).vertex_model(),
            final(self).sector_model() == old(self).sector_model(),
            final(self).line_handles_issued() == old(self).line_handles_issued().insert(r@),
            final(self).vertex_handles_issued() == old(self).vertex_handles_issued(),
            final(self).sector_handles_issued() == old(self).sector_handles_issued(),
            final(self).lines_issued() == old(self).lines_issued() + 1,
            final(self).vertices_issued() == old(self).vertices_issued(),
            final(self).sectors_issued() == old(self).sectors_issued(),
            final(self).handles_accounted(),
    {
        proof {
            use_type_invariant(&*self);
        }
        let k = line_insert(&mut self.lines, Line { p1, p2 });
        proof {
            use_type_invariant(&*self);
        }
        LineID::from_raw(k)
    }

    /// Inserts a sector wrapping the given ordered line list; no closure
    /// requirement holds at creation time.
    pub fn new_sector(&mut self, lines: Vec<LineID>) -> (r: SectorID)
        requires
            old(self).sectors_issued() < 0x8000_0000,
        ensures
            !old(self).sector_handles_issued().contains(r@),
            !old(self).sector_model().dom().contains(r@),
            final(self).sector_model() == old(self).sector_model().insert(
                r@,
                boundary_view(lines@),
            ),
            final(self).vertex_model() == old(self).vertex_model(),
            final(self).line_model() == old(self).line_model(),
            final(self).sector_handles_issued() == old(self).sector_handles_issued().insert(
                r@,
            ),
            final(self).vertex_handles_issued() == old(self).vertex_handles_issued(),
            final(self).line_handles_issued() == old(self).line_handles_issued(),
            final(self).sectors_issued() == old(self).sectors_issued() + 1,
            final(self).vertices_issued() == old(self).vertices_issued(),
            final(self).lines_issued() == old(self).lines_issued(),
            final(self).handles_accounted(),
    {
        proof {
            use_type_invariant(&*self);
        }
        let k = sector_insert(&mut self.sectors, Sector { lines });
        proof {
            use_type_invariant(&*self);
        }
        SectorID::from_raw(k)
    }

    /// Handle-checked lookup: the vertex stored under the handle, or nothing
    /// for a stale or foreign handle.
    pub fn vertex(&self, id: VertexID) -> (r: Option<Vertex>)
        ensures
            r == (if self.vertex_model().dom().contains(id@) {
                Some(self.vertex_model()[id@])
            } else {
                None::<Vertex>
            }),
    {
        proof {
            use_type_invariant(&id);
        }
        vertex_get(&self.vertices, id.raw_key())
    }

    /// Handle-checked update: writes the vertex under the handle and reports
    /// whether it was performed; a stale handle leaves the world unchanged.
    pub fn vertex_mut(&mut self, id: VertexID, vertex: Vertex) -> (r: bool)
        ensures
            r == old(self).vertex_model().dom().contains(id@),
            final(self).vertex_model() == (if r {
                old(self).vertex_model().insert(id@, vertex)
            } else {
                old(self).vertex_model()
            }),
            final(self).line_model() == old(self).line_model(),
            final(self).sector_model() == old(self).sector_model(),
            final(self).vertex_handles_issued() == old(self).vertex_handles_issued(),
            final(self).line_handles_issued() == old(self).line_handles_issued(),
            final(self).sector_handles_issued() == old(self).sector_handles_issued(),
            final(self).handles_accounted(),
    {
        proof {
            use_type_invariant(&*self);
            use_type_invariant(&id);
        }
        let r = match vertex_get(&self.vertices, id.raw_key()) {
            Some(_) => {
                vertex_set(&mut self.vertices, id.raw_key(), vertex);
                true
            },
            None => false,
        };
        proof {
            use_type_invariant(&*self);
        }
        r
    }

    /// Handle-checked lookup of a line.
    pub fn line(&self, id: LineID) -> (r: Option<Line>)
        ensures
            r matches Some(l) ==> self.line_model().dom().contains(id@) && l@
                == self.line_model()[id@],
            r is None ==> !self.line_model().dom().contains(id@),
    {
        proof {
            use_type_invariant(&id);
        }
        line_get(&self.lines, id.raw_key())
    }

    /// Handle-checked lookup of a sector, handed out as a clone of its record.
    pub fn sector(&self, id: SectorID) -> (r: Option<Sector>)
        ensures
            r matches Some(s) ==> self.sector_model().dom().contains(id@) && s@
                == self.sector_model()[id@],
            r is None ==> !self.sector_model().dom().contains(id@),
    {
        proof {
            use_type_invariant(&id);
        }
        sector_get(&self.sectors, id.raw_key())
    }

    /// A read view of the line arena, for the closure check.
    pub fn line_arena(&self) -> (r: &LineArena)
        ensures
            line_table(*r) == self.line_model(),
    {
        &self.lines
    }

    /// Removes a line, returning it; a stale handle is a no-op. Sectors that
    /// reference the line keep their stale handle and report "not closed"
    /// until repaired.
    pub fn remove_line(&mut self, id: LineID) -> (r: Option<Line>)
        ensures
            r matches Some(l) ==> old(self).line_model().dom().contains(id@) && l@ == old(
                self,
            ).line_model()[id@],
            r is None ==> !old(self).line_model().dom().contains(id@),
            final(self).line_model() == old(self).line_model().remove(id@),
            final(self).vertex_model() == old(self).vertex_model(),
            final(self).sector_model() == old(self).sector_model(),
            final(self).vertex_handles_issued() == old(self).vertex_handles_issued(),
            final(self).line_handles_issued() == old(self).line_handles_issued(),
            final(self).sector_handles_issued() == old(self).sector_handles_issued(),
            final(self).handles_accounted(),
    {
        proof {
            use_type_invariant(&*self);
            use_type_invariant(&id);
        }
        let r = line_remove(&mut self.lines, id.raw_key());
        proof {
            use_type_invariant(&*self);
        }
        r
    }
}

/// How often `target` occurs in a boundary.
pub open spec fn occurrences(ls: Seq<u64>, target: u64) -> nat
    decreases ls.len(),
{
    if ls.len() == 0 {
        0nat
    } else {
        occurrences(ls.drop_last(), target) + (if ls.last() == target {
            1nat
        } else {
            0nat
        })
    }
}

/// A boundary after a split: every occurrence of `target` is replaced in place
/// by `la` followed by `lb`; everything else keeps its order.
pub open spec fn split_boundary(ls: Seq<u64>, target: u64, la: u64, lb: u64) -> Seq<u64>
    decreases ls.len(),
{
    if ls.len() == 0 {
        Seq::empty()
    } else {
        split_boundary(ls.drop_last(), target, la, lb) + (if ls.last() == target {
            seq![la, lb]
        } else {
            seq![ls.last()]
        })
    }
}

/// What a performed split leaves behind: a fresh vertex at the split point, the
/// split line replaced by two fresh lines joined at that vertex, and every
/// sector boundary rewritten around each occurrence of the split line.
pub open spec fn split_outcome(
    pre: World,
    post: World,
    line: u64,
    v: Vertex,
    nv: u64,
    la: u64,
    lb: u64,
) -> bool {
    &&& !pre.vertex_handles_issued().contains(nv)
    &&& !pre.line_handles_issued().contains(la)
    &&& !pre.line_handles_issued().contains(lb)
    &&& !pre.vertex_model().dom().contains(nv)
    &&& !pre.line_model().dom().contains(la)
    &&& !pre.line_model().dom().contains(lb)
    &&& la != lb
    &&& la != line
    &&& lb != line
    &&& post.vertex_handles_issued() == pre.vertex_handles_issued().insert(nv)
    &&& post.line_handles_issued() == pre.line_handles_issued().insert(la).insert(lb)
    &&& post.sector_handles_issued() == pre.sector_handles_issued()
    &&& post.vertex_model() == pre.vertex_model().insert(nv, v)
    &&& post.line_model() == pre.line_model().remove(line).insert(
        la,
        (pre.line_model()[line].0, nv),
    ).insert(lb, (nv, pre.line_model()[line].1))
    &&& post.sector_model().dom() == pre.sector_model().dom()
    &&& forall|s: u64|
        pre.sector_model().dom().contains(s) ==> post.sector_model()[s] == split_boundary(
            pre.sector_model()[s],
            line,
            la,
            lb,
        )
}

/// Splitting grows a boundary by exactly the number of occurrences of the
/// split line: one added entry per reference.
pub proof fn lemma_split_boundary_len(ls: Seq<u64>, target: u64, la: u64, lb: u64)
    ensures
        split_boundary(ls, target, la, lb).len() == ls.len() + occurrences(ls, target),
    decreases ls.len(),
{
    if ls.len() > 0 {
        lemma_split_boundary_len(ls.drop_last(), target, la, lb);
    }
}

/// A boundary that never references the split line is left exactly as it was.
pub proof fn lemma_split_boundary_absent(ls: Seq<u64>, target: u64, la: u64, lb: u64)
    requires
        forall|j: int| 0 <= j < ls.len() ==> ls[j] != target,
    ensures
        split_boundary(ls, target, la, lb) == ls,
    decreases ls.len(),
{
    if ls.len() > 0 {
        lemma_split_boundary_absent(ls.drop_last(), target, la, lb);
        assert(split_boundary(ls, target, la, lb) =~= ls);
    } else {
        assert(split_boundary(ls, target, la, lb) =~= ls);
    }
}

/// A boundary referencing the split line exactly once, at position `i`, keeps
/// its order around the split point: the entry is replaced in place by the two
/// new lines.
pub proof fn lemma_split_boundary_single(ls: Seq<u64>, i: int, target: u64, la: u64, lb: u64)
    requires
        0 <= i < ls.len(),
        ls[i] == target,
        forall|j: int| 0 <= j < ls.len() && j != i ==> ls[j] != target,
    ensures
        split_boundary(ls, target, la, lb) == ls.take(i) + seq![la, lb] + ls.skip(i + 1),
    decreases ls.len(),
{
    if i == ls.len() - 1 {
        lemma_split_boundary_absent(ls.drop_last(), target, la, lb);
        assert(ls.drop_last() =~= ls.take(i));
        assert(split_boundary(ls, target, la, lb) =~= ls.take(i) + seq![la, lb] + ls.skip(
            i + 1,
        ));
    } else {
        lemma_split_boundary_single(ls.drop_last(), i, target, la, lb);
        assert(ls.drop_last()[i] == ls[i]);
        assert(split_boundary(ls, target, la, lb) =~= ls.take(i) + seq![la, lb] + ls.skip(
            i + 1,
        ));
    }
}

/// Rebuild a boundary around a split: every entry equal to `target` becomes
/// `la` followed by `lb`.
fn split_vec(lines: &Vec<LineID>, target: u64, la: LineID, lb: LineID) -> (r: Vec<LineID>)
    ensures
        boundary_view(r@) == split_boundary(boundary_view(lines@), target, la@, lb@),
{
    let mut out: Vec<LineID> = Vec::new();
    let mut i: usize = 0;
    while i < lines.len()
        invariant
            0 <= i <= lines@.len(),
            boundary_view(out@) == split_boundary(
                boundary_view(lines@).take(i as int),
                target,
                la@,
                lb@,
            ),
        decreases lines@.len() - i,
    {
        let e = lines[i];
        proof {
            assert(boundary_view(lines@)[i as int] == e@);
        }
        if e.raw_key() == target {
            out.push(la);
            out.push(lb);
        } else {
            out.push(e);
        }
        proof {
            let lv = boundary_view(lines@);
            assert(lv.take(i as int + 1).drop_last() =~= lv.take(i as int));
            assert(lv.take(i as int + 1).last() == lv[i as int]);
            assert(boundary_view(out@) =~= split_boundary(
                lv.take(i as int + 1),
                target,
                la@,
                lb@,
            ));
        }
        i += 1;
    }
    proof {
        assert(boundary_view(lines@).take(lines@.len() as int) =~= boundary_view(lines@));
    }
    out
}

impl World {
    /// Subdivides a line at a new vertex. If the handle is stale the call is a
    /// no-op; otherwise the line is removed for good, the new vertex and two
    /// fresh lines joining it to the old endpoints are inserted, and every
    /// sector boundary replaces each occurrence of the old line by the two new
    /// ones, in place and in order.
    pub fn split_line(&mut self, line: LineID, new_vertex: Vertex)
        requires
            old(self).line_model().dom().contains(line@) ==> old(self).vertices_issued()
                < 0x8000_0000 && old(self).lines_issued() + 2 <= 0x8000_0000,
        ensures
            !final(self).line_model().dom().contains(line@),
            final(self).sector_model().dom() == old(self).sector_model().dom(),
            final(self).sector_handles_issued() == old(self).sector_handles_issued(),
            old(self).vertex_handles_issued().subset_of(final(self).vertex_handles_issued()),
            old(self).line_handles_issued().subset_of(final(self).line_handles_issued()),
            final(self).handles_accounted(),
            !old(self).line_model().dom().contains(line@) ==> {
                &&& final(self).vertex_model() == old(self).vertex_model()
                &&& final(self).line_model() == old(self).line_model()
                &&& final(self).sector_model() == old(self).sector_model()
                &&& final(self).vertex_handles_issued() == old(self).vertex_handles_issued()
                &&& final(self).line_handles_issued() == old(self).line_handles_issued()
            },
            old(self).line_model().dom().contains(line@) ==> {
                &&& final(self).vertices_issued() == old(self).vertices_issued() + 1
                &&& final(self).lines_issued() == old(self).lines_issued() + 2
                &&& exists|nv: u64, a: u64, b: u64|
                    split_outcome(*old(self), *final(self), line@, new_vertex, nv, a, b)
            },
    {
        proof {
            use_type_invariant(&*self);
            use_type_invariant(&line);
        }
        let target = line.raw_key();
        let removed = line_remove(&mut self.lines, target);
        match removed {
            None => {
                proof {
                    assert(line_table(self.lines) =~= old(self).line_model());
                }
            },
            Some(orig) => {
                let nv_raw = vertex_insert(&mut self.vertices, new_vertex);
                let nv = VertexID::from_raw(nv_raw);
                let la_id = LineID::from_raw(line_insert(
                    &mut self.lines,
                    Line { p1: orig.p1, p2: nv },
                ));
                let lb_id = LineID::from_raw(line_insert(
                    &mut self.lines,
                    Line { p1: nv, p2: orig.p2 },
                ));
                let la_raw = la_id.raw_key();
                let lb_raw = lb_id.raw_key();
                let ghost vm1 = vertex_table(self.vertices);
                let ghost lm1 = line_table(self.lines);
                let ghost vi1 = vertex_issued(self.vertices);
                let ghost li1 = line_issued(self.lines);
                let ghost sm0 = sector_table(self.sectors);
                let ghost si0 = sector_issued(self.sectors);
                let keys = sector_keys(&self.sectors);
                let mut i: usize = 0;
                while i < keys.len()
                    invariant
                        self.wf(),
                        0 <= i <= keys@.len(),
                        keys@.no_duplicates(),
                        keys@.to_set() == sm0.dom(),
                        forall|t: int| 0 <= t < keys@.len() ==> canon_key(#[trigger] keys@[t]),
                        vertex_table(self.vertices) == vm1,
                        line_table(self.lines) == lm1,
                        vertex_issued(self.vertices) == vi1,
                        line_issued(self.lines) == li1,
                        sector_issued(self.sectors) == si0,
                        sector_table(self.sectors).dom() == sm0.dom(),
                        target == line@,
                        la_raw == la_id@,
                        lb_raw == lb_id@,
                        forall|t: int|
                            0 <= t < i ==> sector_table(self.sectors)[#[trigger] keys@[t]]
                                == split_boundary(sm0[keys@[t]], target, la_raw, lb_raw),
                        forall|t: int|
                            i <= t < keys@.len() ==> sector_table(self.sectors)[
                                #[trigger] keys@[t]] == sm0[keys@[t]],
                    decreases keys@.len() - i,
                {
                    let k = keys[i];
                    proof {
                        assert(keys@.to_set().contains(keys@[i as int]));
                        assert(sector_table(self.sectors).dom().contains(k));
                    }
                    match sector_get(&self.sectors, k) {
                        Some(sec) => {
                            let ghost before = sector_table(self.sectors);
                            let new_lines = split_vec(&sec.lines, target, la_id, lb_id);
                            sector_set(&mut self.sectors, k, Sector { lines: new_lines });
                            proof {
                                assert(sec@ == sm0[k]);
                                assert(sector_table(self.sectors).dom() =~= sm0.dom());
                                assert forall|t: int| 0 <= t < i + 1 implies sector_table(
                                    self.sectors,
                                )[#[trigger] keys@[t]] == split_boundary(
                                    sm0[keys@[t]],
                                    target,
                                    la_raw,
                                    lb_raw,
                                ) by {
                                    if t < i {
                                        assert(keys@[t] != k);
                                    }
                                }
                            }
                        },
                        None => {
                            proof {
                                assert(false);
                            }
                        },
                    }
                    i += 1;
                }
                proof {
                    assert forall|s: u64| sm0.dom().contains(s) implies sector_table(
                        self.sectors,
                    )[s] == split_boundary(sm0[s], target, la_raw, lb_raw) by {
                        assert(keys@.to_set().contains(s));
                        assert(keys@.contains(s));
                        let t = choose|t: int| 0 <= t < keys@.len() && keys@[t] == s;
                        assert(sector_table(self.sectors)[keys@[t]] == split_boundary(
                            sm0[keys@[t]],
                            target,
                            la_raw,
                            lb_raw,
                        ));
                    }
                    assert(orig@ == old(self).line_model()[line@]);
                    assert(split_outcome(
                        *old(self),
                        *self,
                        line@,
                        new_vertex,
                        nv_raw,
                        la_raw,
                        lb_raw,
                    ));
                }
            },
        }
        proof {
            use_type_invariant(&*self);
        }
    }
}

/// A handle list as its raw values.
pub open spec fn vertex_ids_view(ids: Seq<VertexID>) -> Seq<u64> {
    ids.map_values(|v: VertexID| v@)
}

/// How many of the listed handles are live in `vm`, with multiplicity.
pub open spec fn live_count(vm: Map<u64, Vertex>, ids: Seq<u64>) -> nat
    decreases ids.len(),
{
    if ids.len() == 0 {
        0nat
    } else {
        live_count(vm, ids.drop_last()) + (if vm.dom().contains(ids.last()) {
            1nat
        } else {
            0nat
        })
    }
}

/// The sum of the x coordinates of the live listed vertices, with multiplicity.
pub open spec fn live_sum_x(vm: Map<u64, Vertex>, ids: Seq<u64>) -> int
    decreases ids.len(),
{
    if ids.len() == 0 {
        0
    } else {
        live_sum_x(vm, ids.drop_last()) + (if vm.dom().contains(ids.last()) {
            vm[ids.last()].x as int
        } else {
            0
        })
    }
}

/// The sum of the y coordinates of the live listed vertices, with multiplicity.
pub open spec fn live_sum_y(vm: Map<u64, Vertex>, ids: Seq<u64>) -> int
    decreases ids.len(),
{
    if ids.len() == 0 {
        0
    } else {
        live_sum_y(vm, ids.drop_last()) + (if vm.dom().contains(ids.last()) {
            vm[ids.last()].y as int
        } else {
            0
        })
    }
}

/// Integer division that truncates toward zero, as the machine's signed
/// division does.
pub open spec fn div_toward_zero(a: int, b: int) -> int {
    if a >= 0 {
        a / b
    } else {
        -((-a) / b)
    }
}

/// The integer-truncated centroid of the live listed vertices.
pub open spec fn weld_centroid(vm: Map<u64, Vertex>, ids: Seq<u64>) -> Vertex {
    Vertex {
        x: div_toward_zero(live_sum_x(vm, ids), live_count(vm, ids) as int) as i32,
        y: div_toward_zero(live_sum_y(vm, ids), live_count(vm, ids) as int) as i32,
    }
}

/// A line's endpoints after rewiring every reference to `from` onto `to`.
pub open spec fn rewrite_endpoint(e: (u64, u64), from: u64, to: u64) -> (u64, u64) {
    (
        (if e.0 == from {
            to
        } else {
            e.0
        }),
        (if e.1 == from {
            to
        } else {
            e.1
        }),
    )
}

/// The whole line arena after rewiring every reference to `from` onto `to`.
pub open spec fn rewrite_lines(lm: Map<u64, (u64, u64)>, from: u64, to: u64) -> Map<
    u64,
    (u64, u64),
> {
    lm.map_values(|e: (u64, u64)| rewrite_endpoint(e, from, to))
}

/// Welding, one handle at a time and in order: rewire the lines away from the
/// handle, then remove its vertex.
pub open spec fn weld_rest(
    vm: Map<u64, Vertex>,
    lm: Map<u64, (u64, u64)>,
    rest: Seq<u64>,
    survivor: u64,
) -> (Map<u64, Vertex>, Map<u64, (u64, u64)>)
    decreases rest.len(),
{
    if rest.len() == 0 {
        (vm, lm)
    } else {
        weld_rest(
            vm.remove(rest[0]),
            rewrite_lines(lm, rest[0], survivor),
            rest.drop_first(),
            survivor,
        )
    }
}

/// Where one endpoint value lands after a whole weld: on the survivor if it was
/// one of the welded handles, else where it was.
pub open spec fn weld_target(rest: Seq<u64>, survivor: u64, x: u64) -> u64 {
    if rest.contains(x) {
        survivor
    } else {
        x
    }
}

/// Welding removes exactly the listed vertices and rewires every line endpoint
/// that referenced any of them onto the survivor; no line appears or vanishes.
pub proof fn lemma_weld_rest(
    vm: Map<u64, Vertex>,
    lm: Map<u64, (u64, u64)>,
    rest: Seq<u64>,
    survivor: u64,
)
    requires
        !rest.contains(survivor),
    ensures
        weld_rest(vm, lm, rest, survivor).0 == vm.remove_keys(rest.to_set()),
        weld_rest(vm, lm, rest, survivor).1.dom() == lm.dom(),
        forall|k: u64|
            lm.dom().contains(k) ==> weld_rest(vm, lm, rest, survivor).1[k] == (
            weld_target(rest, survivor, lm[k].0),
            weld_target(rest, survivor, lm[k].1),
            ),
    decreases rest.len(),
{
    if rest.len() == 0 {
        assert(vm.remove_keys(rest.to_set()) =~= vm);
        assert(weld_rest(vm, lm, rest, survivor).1.dom() =~= lm.dom());
    } else {
        let rest1 = rest.drop_first();
        let h = rest[0];
        assert forall|x: u64| #[trigger]
            rest.contains(x) <==> (x == h || rest1.contains(x)) by {
            if rest.contains(x) {
                let i = choose|i: int| 0 <= i < rest.len() && rest[i] == x;
                if i > 0 {
                    assert(rest1[i - 1] == x);
                }
            }
            if rest1.contains(x) {
                let i = choose|i: int| 0 <= i < rest1.len() && rest1[i] == x;
                assert(rest[i + 1] == x);
            }
            if x == h {
                assert(rest[0] == x);
            }
        }
        let vm2 = vm.remove(h);
        let lm2 = rewrite_lines(lm, h, survivor);
        lemma_weld_rest(vm2, lm2, rest1, survivor);
        assert(vm2.remove_keys(rest1.to_set()) =~= vm.remove_keys(rest.to_set()));
        assert(lm2.dom() =~= lm.dom());
        assert forall|k: u64| lm.dom().contains(k) implies weld_rest(
            vm,
            lm,
            rest,
            survivor,
        ).1[k] == (weld_target(rest, survivor, lm[k].0), weld_target(rest, survivor, lm[k].1)) by {
            assert(lm2[k] == rewrite_endpoint(lm[k], h, survivor));
        }
    }
}

/// Welding pairwise distinct, live vertex handles leaves exactly one of them
/// alive — the first, at the integer-truncated centroid of the whole set —
/// removes the others, and rewires every line endpoint that referenced one of
/// the others onto the survivor.
pub proof fn lemma_merge_live_distinct(
    vm: Map<u64, Vertex>,
    lm: Map<u64, (u64, u64)>,
    raw: Seq<u64>,
)
    requires
        raw.len() >= 1,
        raw.no_duplicates(),
        forall|i: int| 0 <= i < raw.len() ==> vm.dom().contains(#[trigger] raw[i]),
    ensures
        ({
            let rest = raw.drop_first();
            let vm1 = vm.insert(raw[0], weld_centroid(vm, raw));
            let folded = weld_rest(vm1, lm, rest, raw[0]);
            &&& folded.0.dom() == vm.dom().difference(rest.to_set())
            &&& folded.0.dom().contains(raw[0])
            &&& folded.0[raw[0]] == weld_centroid(vm, raw)
            &&& forall|j: int| 1 <= j < raw.len() ==> !folded.0.dom().contains(#[trigger] raw[j])
            &&& folded.1.dom() == lm.dom()
            &&& forall|k: u64|
                lm.dom().contains(k) ==> folded.1[k] == (
                weld_target(rest, raw[0], lm[k].0),
                weld_target(rest, raw[0], lm[k].1),
                )
        }),
{
    let rest = raw.drop_first();
    let vm1 = vm.insert(raw[0], weld_centroid(vm, raw));
    assert(!rest.contains(raw[0])) by {
        if rest.contains(raw[0]) {
            let i = choose|i: int| 0 <= i < rest.len() && rest[i] == raw[0];
            assert(raw[i + 1] == raw[0]);
        }
    }
    lemma_weld_rest(vm1, lm, rest, raw[0]);
    let folded = weld_rest(vm1, lm, rest, raw[0]);
    assert(folded.0.dom() =~= vm.dom().difference(rest.to_set()));
    assert forall|j: int| 1 <= j < raw.len() implies !folded.0.dom().contains(
        #[trigger] raw[j],
    ) by {
        assert(rest[j - 1] == raw[j]);
        assert(rest.to_set().contains(raw[j]));
    }
}

impl World {
    /// Welds the listed vertices into one. The live listed vertices, counted
    /// with multiplicity, give an integer-truncated centroid; the first listed
    /// handle's vertex, if live, is moved there and survives. Every other
    /// listed handle is taken in order: all line endpoints referencing it are
    /// rewired onto the first handle, then its vertex is removed. With no
    /// listed handle live, the call is a no-op.
    pub fn merge_vertices(&mut self, ids: &Vec<VertexID>)
        ensures
            final(self).sector_model() == old(self).sector_model(),
            final(self).vertex_handles_issued() == old(self).vertex_handles_issued(),
            final(self).line_handles_issued() == old(self).line_handles_issued(),
            final(self).sector_handles_issued() == old(self).sector_handles_issued(),
            final(self).handles_accounted(),
            ({
                let raw = vertex_ids_view(ids@);
                let vm0 = old(self).vertex_model();
                if raw.len() == 0 || live_count(vm0, raw) == 0 {
                    final(self).vertex_model() == vm0 && final(self).line_model() == old(
                        self,
                    ).line_model()
                } else {
                    let vm1 = if vm0.dom().contains(raw[0]) {
                        vm0.insert(raw[0], weld_centroid(vm0, raw))
                    } else {
                        vm0
                    };
                    let folded = weld_rest(
                        vm1,
                        old(self).line_model(),
                        raw.drop_first(),
                        raw[0],
                    );
                    final(self).vertex_model() == folded.0 && final(self).line_model()
                        == folded.1
                }
            }),
    {
        proof {
            use_type_invariant(&*self);
        }
        let ghost vm0 = vertex_table(self.vertices);
        let ghost lm0 = line_table(self.lines);
        let ghost sm0 = sector_table(self.sectors);
        let ghost vi0 = vertex_issued(self.vertices);
        let ghost li0 = line_issued(self.lines);
        let ghost si0 = sector_issued(self.sectors);
        let ghost raw = vertex_ids_view(ids@);
        let n_ids = ids.len();
        if n_ids == 0 {
            proof {
                use_type_invariant(&*self);
            }
            return ;
        }
        let mut sx: i128 = 0;
        let mut sy: i128 = 0;
        let mut live: usize = 0;
        let mut i: usize = 0;
        while i < n_ids
            invariant
                n_ids == ids@.len(),
                0 <= i <= n_ids,
                raw == vertex_ids_view(ids@),
                vertex_table(self.vertices) == vm0,
                line_table(self.lines) == lm0,
                sector_table(self.sectors) == sm0,
                vertex_issued(self.vertices) == vi0,
                line_issued(self.lines) == li0,
                sector_issued(self.sectors) == si0,
                live == live_count(vm0, raw.take(i as int)),
                sx == live_sum_x(vm0, raw.take(i as int)),
                sy == live_sum_y(vm0, raw.take(i as int)),
                live <= i,
                -(live as int) * 0x8000_0000 <= sx <= (live as int) * 0x7fff_ffff,
                -(live as int) * 0x8000_0000 <= sy <= (live as int) * 0x7fff_ffff,
            decreases n_ids - i,
        {
            let id = ids[i];
            proof {
                use_type_invariant(&id);
                assert(raw[i as int] == id@);
                assert(raw.take(i as int + 1).drop_last() =~= raw.take(i as int));
                assert(raw.take(i as int + 1).last() == raw[i as int]);
            }
            match vertex_get(&self.vertices, id.raw_key()) {
                Some(v) => {
                    sx = sx + v.x as i128;
                    sy = sy + v.y as i128;
                    live = live + 1;
                },
                None => {
                },
            }
            i += 1;
        }
        proof {
            assert(raw.take(n_ids as int) =~= raw);
        }
        if live == 0 {
            proof {
                use_type_invariant(&*self);
            }
            return ;
        }
        let cx = div_trunc(sx, live as u64);
        let cy = div_trunc(sy, live as u64);
        proof {
            lemma_centroid_coordinate_bounds(sx as int, live as int);
            lemma_centroid_coordinate_bounds(sy as int, live as int);
        }
        let centroid = Vertex { x: cx as i32, y: cy as i32 };
        proof {
            assert(centroid == weld_centroid(vm0, raw));
        }
        let first = ids[0];
        proof {
            use_type_invariant(&first);
            assert(raw[0] == first@);
        }
        let survivor_raw = first.raw_key();
        match vertex_get(&self.vertices, survivor_raw) {
            Some(_) => {
                vertex_set(&mut self.vertices, survivor_raw, centroid);
            },
            None => {
            },
        }
        let ghost vm1 = vertex_table(self.vertices);
        let keys = line_keys(&self.lines);
        let mut j: usize = 1;
        while j < n_ids
            invariant
                self.wf(),
                n_ids == ids@.len(),
                1 <= j <= n_ids,
                raw == vertex_ids_view(ids@),
                survivor_raw == raw[0],
                survivor_raw == first@,
                sector_table(self.sectors) == sm0,
                vertex_issued(self.vertices) == vi0,
                line_issued(self.lines) == li0,
                sector_issued(self.sectors) == si0,
                keys@.no_duplicates(),
                forall|t: int| 0 <= t < keys@.len() ==> canon_key(#[trigger] keys@[t]),
                keys@.to_set() == line_table(self.lines).dom(),
                weld_rest(
                    vertex_table(self.vertices),
                    line_table(self.lines),
                    raw.skip(j as int),
                    raw[0],
                ) == weld_rest(vm1, lm0, raw.skip(1), raw[0]),
            decreases n_ids - j,
        {
            let vid = ids[j];
            proof {
                use_type_invariant(&vid);
                assert(raw[j as int] == vid@);
            }
            let from_raw = vid.raw_key();
            let ghost vm_in = vertex_table(self.vertices);
            let ghost lm_pre = line_table(self.lines);
            let mut t: usize = 0;
            while t < keys.len()
                invariant
                    self.wf(),
                    0 <= t <= keys@.len(),
                    survivor_raw == first@,
                    keys@.no_duplicates(),
                    forall|u: int| 0 <= u < keys@.len() ==> canon_key(#[trigger] keys@[u]),
                    vertex_table(self.vertices) == vm_in,
                    sector_table(self.sectors) == sm0,
                    vertex_issued(self.vertices) == vi0,
                    line_issued(self.lines) == li0,
                    sector_issued(self.sectors) == si0,
                    line_table(self.lines).dom() == lm_pre.dom(),
                    keys@.to_set() == lm_pre.dom(),
                    forall|u: int|
                        0 <= u < t ==> line_table(self.lines)[#[trigger] keys@[u]]
                            == rewrite_endpoint(lm_pre[keys@[u]], from_raw, survivor_raw),
                    forall|u: int|
                        t <= u < keys@.len() ==> line_table(self.lines)[#[trigger] keys@[u]]
                            == lm_pre[keys@[u]],
                decreases keys@.len() - t,
            {
                let k = keys[t];
                proof {
                    assert(keys@.to_set().contains(keys@[t as int]));
                    assert(line_table(self.lines).dom().contains(k));
                }
                match line_get(&self.lines, k) {
                    Some(l) => {
                        let np1 = if l.p1.raw_key() == from_raw {
                            first
                        } else {
                            l.p1
                        };
                        let np2 = if l.p2.raw_key() == from_raw {
                            first
                        } else {
                            l.p2
                        };
                        line_set(&mut self.lines, k, Line { p1: np1, p2: np2 });
                        proof {
                            assert(line_table(self.lines).dom() =~= lm_pre.dom());
                            assert forall|u: int| 0 <= u < t + 1 implies line_table(
                                self.lines,
                            )[#[trigger] keys@[u]] == rewrite_endpoint(
                                lm_pre[keys@[u]],
                                from_raw,
                                survivor_raw,
                            ) by {
                                if u < t {
                                    assert(keys@[u] != k);
                                }
                            }
                        }
                    },
                    None => {
                        proof {
                            assert(false);
                        }
                    },
                }
                t += 1;
            }
            proof {
                assert(rewrite_lines(lm_pre, from_raw, survivor_raw).dom() =~= lm_pre.dom());
                assert forall|k: u64| lm_pre.dom().contains(k) implies line_table(
                    self.lines,
                )[k] == rewrite_lines(lm_pre, from_raw, survivor_raw)[k] by {
                    assert(keys@.to_set().contains(k));
                    assert(keys@.contains(k));
                    let u = choose|u: int| 0 <= u < keys@.len() && keys@[u] == k;
                    assert(line_table(self.lines)[keys@[u]] == rewrite_endpoint(
                        lm_pre[keys@[u]],
                        from_raw,
                        survivor_raw,
                    ));
                }
                assert(line_table(self.lines) =~= rewrite_lines(
                    lm_pre,
                    from_raw,
                    survivor_raw,
                ));
            }
            let _removed = vertex_remove(&mut self.vertices, from_raw);
            proof {
                assert(raw.skip(j as int).drop_first() =~= raw.skip(j as int + 1));
                assert(raw.skip(j as int)[0] == raw[j as int]);
                assert(vertex_table(self.vertices) == vm_in.remove(raw[j as int]));
            }
            j += 1;
        }
        proof {
            assert(raw.skip(n_ids as int) =~= Seq::<u64>::empty());
            assert(raw.skip(1) =~= raw.drop_first());
            use_type_invariant(&*self);
        }
    }
}

/// Machine division truncating toward zero, for a divisor that fits in
/// sixty-four bits.
fn div_trunc(a: i128, b: u64) -> (r: i128)
    requires
        1 <= b,
        a != i128::MIN,
    ensures
        r == div_toward_zero(a as int, b as int),
{
    if a >= 0 {
        let q = (a as u128) / (b as u128);
        proof {
            vstd::arithmetic::div_mod::lemma_div_nonincreasing(a as int, b as int);
        }
        q as i128
    } else {
        let m = (-a) as u128;
        let q = m / (b as u128);
        proof {
            vstd::arithmetic::div_mod::lemma_div_nonincreasing(m as int, b as int);
        }
        -(q as i128)
    }
}

/// A truncated average of values out of a thirty-two-bit signed range stays in
/// that range.
proof fn lemma_centroid_coordinate_bounds(s: int, n: int)
    requires
        1 <= n,
        -n * 0x8000_0000 <= s <= n * 0x7fff_ffff,
    ensures
        -0x8000_0000 <= div_toward_zero(s, n) <= 0x7fff_ffff,
{
    if s >= 0 {
        vstd::arithmetic::div_mod::lemma_div_is_ordered(s, n * 0x7fff_ffff, n);
        vstd::arithmetic::div_mod::lemma_div_multiples_vanish(0x7fff_ffff, n);
        vstd::arithmetic::div_mod::lemma_div_pos_is_pos(s, n);
    } else {
        vstd::arithmetic::div_mod::lemma_div_is_ordered(-s, n * 0x8000_0000, n);
        vstd::arithmetic::div_mod::lemma_div_multiples_vanish(0x8000_0000, n);
        vstd::arithmetic::div_mod::lemma_div_pos_is_pos(-s, n);
    }
}

} // verus!
