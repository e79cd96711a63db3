use mapgeom::{Line, SectorBuilder, Vertex, World};

fn quad_world() -> (World, mapgeom::SectorID) {
    let mut w = World::default();
    let mut b = SectorBuilder::new();
    b.add_vertex(0, 0);
    b.add_vertex(10, 0);
    b.add_vertex(10, 10);
    b.add_vertex(0, 10);
    let sid = b.build(&mut w);
    (w, sid)
}

#[test]
fn line_equality_ignores_endpoint_order() {
    let mut w = World::default();
    let a = w.new_vertex(Vertex { x: 0, y: 0 });
    let b = w.new_vertex(Vertex { x: 3, y: 4 });
    let c = w.new_vertex(Vertex { x: 7, y: 1 });
    assert_eq!(Line { p1: a, p2: b }, Line { p1: b, p2: a });
    assert_eq!(Line { p1: a, p2: b }, Line { p1: a, p2: b });
    assert!(Line { p1: a, p2: b } != Line { p1: a, p2: c });
}

#[test]
fn split_line_updates_every_referencing_sector() {
    let mut w = World::default();
    let v1 = w.new_vertex(Vertex { x: 0, y: 0 });
    let v2 = w.new_vertex(Vertex { x: 10, y: 0 });
    let other = w.new_line(v2, v1);
    let l = w.new_line(v1, v2);
    let s1 = w.new_sector(vec![l]);
    let s2 = w.new_sector(vec![other, l]);
    w.split_line(l, Vertex { x: 5, y: 0 });

    // The split line's handle is no longer retrievable.
    assert!(w.line(l).is_none());

    // Both sectors grew by exactly one entry, order preserved.
    let b1 = w.sector(s1).unwrap();
    let b2 = w.sector(s2).unwrap();
    assert_eq!(b1.lines.len(), 2);
    assert_eq!(b2.lines.len(), 3);
    assert_eq!(b2.lines[0], other);
    assert_eq!(b2.lines[1], b1.lines[0]);
    assert_eq!(b2.lines[2], b1.lines[1]);

    // The two new lines join the old endpoints through the new vertex.
    let la = w.line(b1.lines[0]).unwrap();
    let lb = w.line(b1.lines[1]).unwrap();
    assert_eq!(la.p1, v1);
    assert_eq!(la.p2, lb.p1);
    assert_eq!(lb.p2, v2);
    assert_eq!(w.vertex(la.p2), Some(Vertex { x: 5, y: 0 }));
}

#[test]
fn split_line_stale_handle_is_a_no_op() {
    let mut w = World::default();
    let v1 = w.new_vertex(Vertex { x: 0, y: 0 });
    let v2 = w.new_vertex(Vertex { x: 2, y: 0 });
    let l = w.new_line(v1, v2);
    let s = w.new_sector(vec![l]);
    w.remove_line(l);
    w.split_line(l, Vertex { x: 1, y: 0 });
    assert!(w.line(l).is_none());
    assert_eq!(w.sector(s).unwrap().lines.len(), 1);
}

#[test]
fn merge_vertices_moves_survivor_to_centroid_and_rewires() {
    let mut w = World::default();
    let a = w.new_vertex(Vertex { x: 0, y: 0 });
    let b = w.new_vertex(Vertex { x: 10, y: 0 });
    let c = w.new_vertex(Vertex { x: 5, y: 9 });
    let d = w.new_vertex(Vertex { x: 100, y: 100 });
    let lb = w.new_line(b, d);
    let lc = w.new_line(d, c);
    w.merge_vertices(&vec![a, b, c]);

    // Survivor is the first listed handle, at the truncated centroid.
    assert_eq!(w.vertex(a), Some(Vertex { x: 5, y: 3 }));
    assert!(w.vertex(b).is_none());
    assert!(w.vertex(c).is_none());
    assert_eq!(w.vertex(d), Some(Vertex { x: 100, y: 100 }));

    // Every line that referenced a welded vertex references the survivor.
    assert_eq!(w.line(lb).unwrap().p1, a);
    assert_eq!(w.line(lb).unwrap().p2, d);
    assert_eq!(w.line(lc).unwrap().p1, d);
    assert_eq!(w.line(lc).unwrap().p2, a);
}

#[test]
fn merge_vertices_counts_only_live_handles() {
    let mut w = World::default();
    let a = w.new_vertex(Vertex { x: 0, y: 0 });
    let b = w.new_vertex(Vertex { x: 99, y: 99 });
    let c = w.new_vertex(Vertex { x: 10, y: 10 });
    // Welding b into a removes b; its handle is dead afterwards.
    w.merge_vertices(&vec![a, b]);
    assert!(w.vertex(b).is_none());
    assert_eq!(w.vertex(a), Some(Vertex { x: 49, y: 49 }));
    // A dead handle in the middle contributes nothing to the centroid.
    w.vertex_mut(a, Vertex { x: 0, y: 0 });
    w.merge_vertices(&vec![a, b, c]);
    assert_eq!(w.vertex(a), Some(Vertex { x: 5, y: 5 }));
    assert!(w.vertex(c).is_none());
}

#[test]
fn merge_vertices_no_op_when_no_listed_handle_is_live() {
    let mut w = World::default();
    let a = w.new_vertex(Vertex { x: 4, y: 4 });
    let b = w.new_vertex(Vertex { x: 6, y: 6 });
    w.merge_vertices(&vec![a, b]);
    // b is dead now; welding only dead handles changes nothing.
    w.merge_vertices(&vec![b]);
    assert_eq!(w.vertex(a), Some(Vertex { x: 5, y: 5 }));
    assert!(w.vertex(b).is_none());
}

#[test]
fn merge_vertices_empty_input_is_a_no_op() {
    let mut w = World::default();
    let a = w.new_vertex(Vertex { x: 1, y: 2 });
    w.merge_vertices(&vec![]);
    assert_eq!(w.vertex(a), Some(Vertex { x: 1, y: 2 }));
}

#[test]
fn merge_vertices_truncates_toward_zero() {
    let mut w = World::default();
    let a = w.new_vertex(Vertex { x: -3, y: -3 });
    let b = w.new_vertex(Vertex { x: 0, y: 0 });
    w.merge_vertices(&vec![a, b]);
    assert_eq!(w.vertex(a), Some(Vertex { x: -1, y: -1 }));
}

#[test]
fn built_quadrilateral_is_closed() {
    let (w, sid) = quad_world();
    let s = w.sector(sid).unwrap();
    assert_eq!(s.lines.len(), 4);
    assert!(s.is_closed(w.line_arena()));
    // The four boundary lines chain the four staged vertices in order.
    let first = w.line(s.lines[0]).unwrap();
    assert_eq!(w.vertex(first.p1), Some(Vertex { x: 0, y: 0 }));
    assert_eq!(w.vertex(first.p2), Some(Vertex { x: 10, y: 0 }));
}

#[test]
fn removing_any_quadrilateral_line_breaks_closure() {
    for drop_at in 0..4 {
        let (mut w, sid) = quad_world();
        let s = w.sector(sid).unwrap();
        w.remove_line(s.lines[drop_at]);
        let s = w.sector(sid).unwrap();
        assert!(!s.is_closed(w.line_arena()));
    }
}

#[test]
fn empty_boundary_is_never_closed() {
    let mut w = World::default();
    let sid = w.new_sector(vec![]);
    let s = w.sector(sid).unwrap();
    assert!(!s.is_closed(w.line_arena()));
}

#[test]
fn dangling_line_handle_is_never_closed() {
    let mut w = World::default();
    let a = w.new_vertex(Vertex { x: 0, y: 0 });
    let b = w.new_vertex(Vertex { x: 1, y: 0 });
    let live1 = w.new_line(a, b);
    let live2 = w.new_line(b, a);
    let dead = w.new_line(a, b);
    w.remove_line(dead);
    let sid = w.new_sector(vec![live1, dead, live2]);
    let s = w.sector(sid).unwrap();
    assert!(!s.is_closed(w.line_arena()));
}

#[test]
fn split_keeps_quadrilateral_closed() {
    let (mut w, sid) = quad_world();
    let s = w.sector(sid).unwrap();
    assert!(s.is_closed(w.line_arena()));
    // The boundary line from (10, 0) to (10, 10) is the second created.
    let right = s.lines[1];
    let l = w.line(right).unwrap();
    assert_eq!(w.vertex(l.p1), Some(Vertex { x: 10, y: 0 }));
    assert_eq!(w.vertex(l.p2), Some(Vertex { x: 10, y: 10 }));
    w.split_line(right, Vertex { x: 10, y: 5 });
    let s = w.sector(sid).unwrap();
    assert_eq!(s.lines.len(), 5);
    assert!(s.is_closed(w.line_arena()));
}

#[test]
fn degenerate_builders_commit_but_stay_permissive() {
    // Nothing staged: an empty boundary, never closed.
    let mut w = World::default();
    let sid = SectorBuilder::new().build(&mut w);
    let s = w.sector(sid).unwrap();
    assert_eq!(s.lines.len(), 0);
    assert!(!s.is_closed(w.line_arena()));
    // One staged coordinate: a single self-loop, which the degree-two check
    // accepts (the lone vertex is an endpoint exactly twice).
    let mut b = SectorBuilder::new();
    b.add_vertex(3, 3);
    let sid = b.build(&mut w);
    let s = w.sector(sid).unwrap();
    assert_eq!(s.lines.len(), 1);
    assert!(s.is_closed(w.line_arena()));
}

#[test]
fn vertex_lookup_and_update_are_handle_checked() {
    let mut w = World::default();
    let a = w.new_vertex(Vertex { x: 1, y: 1 });
    let b = w.new_vertex(Vertex { x: 2, y: 2 });
    assert!(w.vertex_mut(a, Vertex { x: 9, y: 9 }));
    assert_eq!(w.vertex(a), Some(Vertex { x: 9, y: 9 }));
    w.merge_vertices(&vec![a, b]);
    assert!(!w.vertex_mut(b, Vertex { x: 7, y: 7 }));
    assert!(w.vertex(b).is_none());
}

#[test]
fn lines_reference_vertices_weakly() {
    let mut w = World::default();
    let a = w.new_vertex(Vertex { x: 0, y: 0 });
    let b = w.new_vertex(Vertex { x: 1, y: 1 });
    let c = w.new_vertex(Vertex { x: 2, y: 2 });
    let l = w.new_line(b, c);
    // Welding b away rewires the line; welding never removes lines.
    w.merge_vertices(&vec![a, b]);
    assert!(w.line(l).is_some());
    assert_eq!(w.line(l).unwrap().p1, a);
    assert_eq!(w.line(l).unwrap().p2, c);
}

#[test]
fn vertex_value_equality_is_by_coordinates() {
    assert_eq!(Vertex { x: 2, y: 3 }, Vertex { x: 2, y: 3 });
    assert_ne!(Vertex { x: 2, y: 3 }, Vertex { x: 3, y: 2 });
    assert_eq!(Vertex::default(), Vertex { x: 0, y: 0 });
    assert_eq!(Vertex::from((4, 5)), Vertex { x: 4, y: 5 });
}
