use vstd::prelude::*;
use crate::geometry::{LineID, SectorID, Vertex, VertexID};
use crate::sector::{boundary_view, sector_closed};
use crate::sector::lemma_ring_closed;
use crate::world::{vertex_ids_view, World};

verus! {

/// A staging accumulator: collect an ordered vertex list interactively, then
/// commit it as a closed polygon — vertices, wrap-around lines and sector —
/// into a world in one step.
pub struct SectorBuilder {
    vertices: Vec<Vertex>,
}

impl View for SectorBuilder {
    type V = Seq<Vertex>;

    closed spec fn view(&self) -> Seq<Vertex> {
        self.vertices@
    }
}

/// What a commit leaves behind: one fresh vertex per staged coordinate, in
/// order; one fresh line per vertex, line `i` joining vertex `i` to vertex
/// `i + 1` and the last line wrapping back to the first; and one fresh sector
/// whose boundary lists those lines in creation order. Nothing else changes.
pub open spec fn build_outcome(
    pre: World,
    post: World,
    staged: Seq<Vertex>,
    sid: u64,
    vids: Seq<u64>,
    lids: Seq<u64>,
) -> bool {
    let n = staged.len() as int;
    &&& vids.len() == n
    &&& lids.len() == n
    &&& vids.no_duplicates()
    &&& lids.no_duplicates()
    &&& !pre.sector_handles_issued().contains(sid)
    &&& !pre.sector_model().dom().contains(sid)
    &&& post.sector_model() == pre.sector_model().insert(sid, lids)
    &&& post.sector_handles_issued() == pre.sector_handles_issued().insert(sid)
    &&& post.vertex_handles_issued() == pre.vertex_handles_issued().union(vids.to_set())
    &&& forall|i: int|
        0 <= i < n ==> !pre.vertex_handles_issued().contains(#[trigger] vids[i])
    &&& post.line_handles_issued() == pre.line_handles_issued().union(lids.to_set())
    &&& forall|i: int| 0 <= i < n ==> !pre.line_handles_issued().contains(#[trigger] lids[i])
    &&& post.vertex_model().dom() == pre.vertex_model().dom().union(vids.to_set())
    &&& forall|i: int| 0 <= i < n ==> !pre.vertex_model().dom().contains(#[trigger] vids[i])
    &&& forall|i: int| 0 <= i < n ==> post.vertex_model()[#[trigger] vids[i]] == staged[i]
    &&& forall|k: u64|
        pre.vertex_model().dom().contains(k) && !vids.contains(k) ==> (
        #[trigger] post.vertex_model()[k]) == pre.vertex_model()[k]
    &&& post.line_model().dom() == pre.line_model().dom().union(lids.to_set())
    &&& forall|i: int| 0 <= i < n ==> !pre.line_model().dom().contains(#[trigger] lids[i])
    &&& forall|i: int|
        0 <= i < n ==> post.line_model()[#[trigger] lids[i]] == (vids[i], vids[(i + 1) % n])
    &&& forall|k: u64|
        pre.line_model().dom().contains(k) && !lids.contains(k) ==> (
        #[trigger] post.line_model()[k]) == pre.line_model()[k]
}

/// A sector the builder commits from at least one staged coordinate passes the
/// closure check: its vertices are fresh and pairwise distinct, and the
/// wrap-around boundary gives each of them degree exactly two.
pub proof fn lemma_built_sector_closed(
    pre: World,
    post: World,
    staged: Seq<Vertex>,
    sid: u64,
    vids: Seq<u64>,
    lids: Seq<u64>,
)
    requires
        build_outcome(pre, post, staged, sid, vids, lids),
        staged.len() >= 1,
    ensures
        post.sector_model().dom().contains(sid),
        post.sector_model()[sid] == lids,
        sector_closed(post.line_model(), post.sector_model()[sid]),
{
    assert forall|i: int| 0 <= i < lids.len() implies post.line_model().dom().contains(
        #[trigger] lids[i],
    ) by {
        assert(lids.contains(lids[i]));
        assert(lids.to_set().contains(lids[i]));
    }
    lemma_ring_closed(post.line_model(), lids, vids);
}

impl SectorBuilder {
    /// A builder with nothing staged.
    pub fn new() -> (b: Self)
        ensures
            b@ == Seq::<Vertex>::empty(),
    {
        SectorBuilder { vertices: Vec::new() }
    }

    /// Appends a coordinate to the pending vertex list; no deduplication and no
    /// validation.
    pub fn add_vertex(&mut self, x: i32, y: i32)
        ensures
            final(self)@ == old(self)@.push(Vertex { x, y }),
    {
        self.vertices.push(Vertex { x, y });
    }

    /// Commits the staged polygon into `world`: every staged coordinate becomes
    /// a fresh vertex, consecutive vertices (wrapping around at the end) are
    /// joined by fresh lines, and a fresh sector referencing those lines in
    /// order is inserted and returned.
    pub fn build(self, world: &mut World) -> (r: SectorID)
        requires
            old(world).vertices_issued() + self@.len() <= 0x8000_0000,
            old(world).lines_issued() + self@.len() <= 0x8000_0000,
            old(world).sectors_issued() < 0x8000_0000,
        ensures
            final(world).sector_model().dom().contains(r@),
            final(world).vertices_issued() == old(world).vertices_issued() + self@.len(),
            final(world).lines_issued() == old(world).lines_issued() + self@.len(),
            final(world).sectors_issued() == old(world).sectors_issued() + 1,
            final(world).handles_accounted(),
            exists|vids: Seq<u64>, lids: Seq<u64>|
                build_outcome(*old(world), *final(world), self@, r@, vids, lids),
    {
        let ghost vm0 = world.vertex_model();
        let ghost lm0 = world.line_model();
        let ghost sm0 = world.sector_model();
        let ghost vi0 = world.vertices_issued();
        let ghost li0 = world.lines_issued();
        let ghost si0 = world.sectors_issued();
        let ghost vis0 = world.vertex_handles_issued();
        let ghost lis0 = world.line_handles_issued();
        let ghost sis0 = world.sector_handles_issued();
        let n = self.vertices.len();
        let mut vid_handles: Vec<VertexID> = Vec::new();
        let mut i: usize = 0;
        while i < n
            invariant
                n == self@.len(),
                0 <= i <= n,
                vid_handles@.len() == i,
                vi0 + n <= 0x8000_0000,
                world.line_model() == lm0,
                world.sector_model() == sm0,
                world.lines_issued() == li0,
                world.sectors_issued() == si0,
                world.vertices_issued() == vi0 + i,
                world.line_handles_issued() == lis0,
                world.sector_handles_issued() == sis0,
                world.vertex_handles_issued() == vis0.union(
                    vertex_ids_view(vid_handles@).to_set(),
                ),
                forall|t: int|
                    0 <= t < i ==> !vis0.contains(#[trigger] vertex_ids_view(vid_handles@)[t]),
                vertex_ids_view(vid_handles@).no_duplicates(),
                world.vertex_model().dom() == vm0.dom().union(
                    vertex_ids_view(vid_handles@).to_set(),
                ),
                forall|t: int|
                    0 <= t < i ==> !vm0.dom().contains(
                        #[trigger] vertex_ids_view(vid_handles@)[t],
                    ),
                forall|t: int|
                    0 <= t < i ==> world.vertex_model()[
                        #[trigger] vertex_ids_view(vid_handles@)[t]] == self@[t],
                forall|k: u64|
                    vm0.dom().contains(k) && !vertex_ids_view(vid_handles@).contains(k) ==> (
                    #[trigger] world.vertex_model()[k]) == vm0[k],
            decreases n - i,
        {
            let ghost vh = vertex_ids_view(vid_handles@);
            let v = self.vertices[i];
            let id = world.new_vertex(v);
            vid_handles.push(id);
            proof {
                let vh2 = vertex_ids_view(vid_handles@);
                assert(vh2 =~= vh.push(id@));
                assert(vh2.to_set() =~= vh.to_set().insert(id@)) by {
                    assert forall|x: u64| #[trigger]
                        vh2.contains(x) <==> (vh.contains(x) || x == id@) by {
                        if vh2.contains(x) {
                            let t = choose|t: int| 0 <= t < vh2.len() && vh2[t] == x;
                            if t < vh.len() {
                                assert(vh[t] == x);
                            }
                        }
                        if vh.contains(x) {
                            let t = choose|t: int| 0 <= t < vh.len() && vh[t] == x;
                            assert(vh2[t] == x);
                        }
                        if x == id@ {
                            assert(vh2[vh.len() as int] == x);
                        }
                    }
                }
                assert forall|t: int| 0 <= t < i + 1 implies !vm0.dom().contains(
                    #[trigger] vh2[t],
                ) by {
                    if t < i {
                        assert(vh2[t] == vh[t]);
                    }
                }
                assert(world.vertex_model().dom() =~= vm0.dom().union(vh2.to_set()));
                assert(world.vertex_handles_issued() =~= vis0.union(vh2.to_set()));
                assert forall|t: int| 0 <= t < i + 1 implies !vis0.contains(
                    #[trigger] vh2[t],
                ) by {
                    if t < i {
                        assert(vh2[t] == vh[t]);
                    } else {
                        assert(vh2[t] == id@);
                    }
                }
                assert forall|a: int, b: int| 0 <= a < b < vh2.len() implies vh2[a] != vh2[b] by {
                    if b < vh.len() {
                    } else {
                        assert(vh2[b] == id@);
                        assert(vh.contains(vh[a]));
                        assert(vh.to_set().contains(vh[a]));
                    }
                }
            }
            i += 1;
        }
        let ghost vh = vertex_ids_view(vid_handles@);
        let ghost vm1 = world.vertex_model();
        let ghost vis1 = world.vertex_handles_issued();
        let mut lid_handles: Vec<LineID> = Vec::new();
        let mut i: usize = 0;
        while i < n
            invariant
                n == self@.len(),
                0 <= i <= n,
                n == vid_handles@.len(),
                lid_handles@.len() == i,
                li0 + n <= 0x8000_0000,
                vh == vertex_ids_view(vid_handles@),
                world.vertex_model() == vm1,
                world.sector_model() == sm0,
                world.vertices_issued() == vi0 + n,
                world.sectors_issued() == si0,
                world.lines_issued() == li0 + i,
                world.vertex_handles_issued() == vis1,
                world.sector_handles_issued() == sis0,
                world.line_handles_issued() == lis0.union(
                    boundary_view(lid_handles@).to_set(),
                ),
                forall|t: int|
                    0 <= t < i ==> !lis0.contains(#[trigger] boundary_view(lid_handles@)[t]),
                boundary_view(lid_handles@).no_duplicates(),
                world.line_model().dom() == lm0.dom().union(
                    boundary_view(lid_handles@).to_set(),
                ),
                forall|t: int|
                    0 <= t < i ==> !lm0.dom().contains(
                        #[trigger] boundary_view(lid_handles@)[t],
                    ),
                forall|t: int|
                    0 <= t < i ==> world.line_model()[#[trigger] boundary_view(lid_handles@)[t]]
                        == (vh[t], vh[(t + 1) % (n as int)]),
                forall|k: u64|
                    lm0.dom().contains(k) && !boundary_view(lid_handles@).contains(k) ==> (
                    #[trigger] world.line_model()[k]) == lm0[k],
            decreases n - i,
        {
            let ghost lh = boundary_view(lid_handles@);
            let next_i: usize = if i + 1 == n {
                0
            } else {
                i + 1
            };
            proof {
                if i + 1 == n {
                    assert((i as int + 1) % (n as int) == 0) by (nonlinear_arith)
                        requires
                            i as int + 1 == n as int,
                            0 < n as int,
                    ;
                } else {
                    assert((i as int + 1) % (n as int) == i as int + 1) by (nonlinear_arith)
                        requires
                            0 <= i as int + 1 < n as int,
                    ;
                }
            }
            let lid = world.new_line(vid_handles[i], vid_handles[next_i]);
            lid_handles.push(lid);
            proof {
                let lh2 = boundary_view(lid_handles@);
                assert(lh2 =~= lh.push(lid@));
                assert(lh2.to_set() =~= lh.to_set().insert(lid@)) by {
                    assert forall|x: u64| #[trigger]
                        lh2.contains(x) <==> (lh.contains(x) || x == lid@) by {
                        if lh2.contains(x) {
                            let t = choose|t: int| 0 <= t < lh2.len() && lh2[t] == x;
                            if t < lh.len() {
                                assert(lh[t] == x);
                            }
                        }
                        if lh.contains(x) {
                            let t = choose|t: int| 0 <= t < lh.len() && lh[t] == x;
                            assert(lh2[t] == x);
                        }
                        if x == lid@ {
                            assert(lh2[lh.len() as int] == x);
                        }
                    }
                }
                assert(vertex_ids_view(vid_handles@)[i as int] == vid_handles@[i as int]@);
                assert(vertex_ids_view(vid_handles@)[next_i as int] == vid_handles@[next_i as int]@);
                assert forall|t: int| 0 <= t < i + 1 implies !lm0.dom().contains(
                    #[trigger] lh2[t],
                ) by {
                    if t < i {
                        assert(lh2[t] == lh[t]);
                    }
                }
                assert(world.line_model().dom() =~= lm0.dom().union(lh2.to_set()));
                assert(world.line_handles_issued() =~= lis0.union(lh2.to_set()));
                assert forall|t: int| 0 <= t < i + 1 implies !lis0.contains(
                    #[trigger] lh2[t],
                ) by {
                    if t < i {
                        assert(lh2[t] == lh[t]);
                    } else {
                        assert(lh2[t] == lid@);
                    }
                }
                assert forall|a: int, b: int| 0 <= a < b < lh2.len() implies lh2[a] != lh2[b] by {
                    if b < lh.len() {
                    } else {
                        assert(lh2[b] == lid@);
                        assert(lh.contains(lh[a]));
                        assert(lh.to_set().contains(lh[a]));
                    }
                }
            }
            i += 1;
        }
        let ghost lh = boundary_view(lid_handles@);
        let sid = world.new_sector(lid_handles);
        proof {
            assert(build_outcome(*old(world), *world, self@, sid@, vh, lh));
        }
        sid
    }
}

impl Default for SectorBuilder {
    /// The same as a fresh builder: nothing staged.
    fn default() -> (b: Self)
        ensures
            b@ == Seq::<Vertex>::empty(),
    {
        SectorBuilder::new()
    }
}

} // verus!
