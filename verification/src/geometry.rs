use vstd::prelude::*;
use vstd::std_specs::cmp::PartialEqSpec;

verus! {

/// A raw handle value as an arena issues it: the slot version sits in the upper
/// 32 bits and is always odd for an issued handle, so bit 32 is set.
pub(crate) open spec fn canon_key(k: u64) -> bool {
    ((k >> 32) & 1) == 1
}

/// Stable, generation-stamped handle to a vertex slot of a `World`.
#[derive(Clone, Copy, PartialEq, Eq, Hash, Debug)]
pub struct VertexID {
    raw: u64,
}

impl View for VertexID {
    type V = u64;

    closed spec fn view(&self) -> u64 {
        self.raw
    }
}

impl VertexID {
    #[verifier::type_invariant]
    pub(crate) open spec fn inv(self) -> bool {
        canon_key(self@)
    }

    pub(crate) fn from_raw(raw: u64) -> (s: Self)
        requires
            canon_key(raw),
        ensures
            s@ == raw,
    {
        VertexID { raw }
    }

    pub(crate) fn raw_key(self) -> (r: u64)
        ensures
            r == self@,
    {
        self.raw
    }
}

/// Stable, generation-stamped handle to a line slot of a `World`.
#[derive(Clone, Copy, PartialEq, Eq, Hash, Debug)]
pub struct LineID {
    raw: u64,
}

impl View for LineID {
    type V = u64;

    closed spec fn view(&self) -> u64 {
        self.raw
    }
}

impl LineID {
    #[verifier::type_invariant]
    pub(crate) open spec fn inv(self) -> bool {
        canon_key(self@)
    }

    pub(crate) fn from_raw(raw: u64) -> (s: Self)
        requires
            canon_key(raw),
        ensures
            s@ == raw,
    {
        LineID { raw }
    }

    pub(crate) fn raw_key(self) -> (r: u64)
        ensures
            r == self@,
    {
        self.raw
    }
}

/// Stable, generation-stamped handle to a sector slot of a `World`.
#[derive(Clone, Copy, PartialEq, Eq, Hash, Debug)]
pub struct SectorID {
    raw: u64,
}

impl View for SectorID {
    type V = u64;

    closed spec fn view(&self) -> u64 {
        self.raw
    }
}

impl SectorID {
    #[verifier::type_invariant]
    pub(crate) open spec fn inv(self) -> bool {
        canon_key(self@)
    }

    pub(crate) fn from_raw(raw: u64) -> (s: Self)
        requires
            canon_key(raw),
        ensures
            s@ == raw,
    {
        SectorID { raw }
    }

    pub(crate) fn raw_key(self) -> (r: u64)
        ensures
            r == self@,
    {
        self.raw
    }
}

/// A point of the integer grid. Equality and hashing go by coordinates, not by
/// arena slot: two vertices at the same point are value-equal even when stored
/// at different slots.
#[derive(Clone, Copy, PartialEq, Eq, Hash, Debug, Structural)]
pub struct Vertex {
    pub x: i32,
    pub y: i32,
}

impl Default for Vertex {
    fn default() -> (v: Self)
        ensures
            v == (Vertex { x: 0, y: 0 }),
    {
        Vertex { x: 0, y: 0 }
    }
}

impl From<(i32, i32)> for Vertex {
    fn from(p: (i32, i32)) -> (v: Self) {
        Vertex { x: p.0, y: p.1 }
    }
}

impl vstd::std_specs::convert::FromSpecImpl<(i32, i32)> for Vertex {
    open spec fn obeys_from_spec() -> bool {
        true
    }

    open spec fn from_spec(p: (i32, i32)) -> Self {
        Vertex { x: p.0, y: p.1 }
    }
}

/// An unordered pair of vertex handles. A line references its endpoints
/// weakly: removing a referenced vertex neither removes nor repairs the line.
#[derive(Clone, Copy, Debug)]
pub struct Line {
    pub p1: VertexID,
    pub p2: VertexID,
}

impl View for Line {
    type V = (u64, u64);

    open spec fn view(&self) -> (u64, u64) {
        (self.p1@, self.p2@)
    }
}

impl PartialEq for Line {
    fn eq(&self, other: &Line) -> (r: bool) {
        (self.p1.raw_key() == other.p1.raw_key() && self.p2.raw_key() == other.p2.raw_key()) || (
        self.p1.raw_key() == other.p2.raw_key() && self.p2.raw_key() == other.p1.raw_key())
    }
}

impl vstd::std_specs::cmp::PartialEqSpecImpl for Line {
    open spec fn obeys_eq_spec() -> bool {
        true
    }

    open spec fn eq_spec(&self, other: &Line) -> bool {
        (self@.0 == other@.0 && self@.1 == other@.1) || (self@.0 == other@.1 && self@.1
            == other@.0)
    }
}

impl Eq for Line {

}

/// Equality of lines does not depend on the order of the endpoints: a line
/// from `a` to `b` equals the line from `b` to `a`.
pub proof fn lemma_line_eq_order_independent(a: VertexID, b: VertexID)
    ensures
        (Line { p1: a, p2: b }).eq_spec(&(Line { p1: b, p2: a })),
{
}

} // verus!
