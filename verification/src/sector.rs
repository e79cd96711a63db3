use vstd::prelude::*;
use std::collections::HashMap;
use crate::geometry::{Line, LineID};
use crate::arena::{line_table, line_get, LineArena};

verus! {

/// A boundary as its raw handle values.
pub open spec fn boundary_view(lines: Seq<LineID>) -> Seq<u64> {
    lines.map_values(|l: LineID| l@)
}

/// An ordered boundary: the sequence of line handles that is meant to enclose
/// the sector. The sector references its lines weakly and does not own them.
#[derive(Clone, Debug)]
pub struct Sector {
    pub lines: Vec<LineID>,
}

impl View for Sector {
    type V = Seq<u64>;

    open spec fn view(&self) -> Seq<u64> {
        boundary_view(self.lines@)
    }
}

/// How often `v` stands as an endpoint of the single line `e`.
pub open spec fn endpoint_hits(e: (u64, u64), v: u64) -> nat {
    (if e.0 == v {
        1nat
    } else {
        0nat
    }) + (if e.1 == v {
        1nat
    } else {
        0nat
    })
}

/// How often `v` stands as an endpoint across the boundary `ls`, resolving each
/// handle in `lm`; a handle that does not resolve contributes nothing.
pub open spec fn vertex_degree(lm: Map<u64, (u64, u64)>, ls: Seq<u64>, v: u64) -> nat
    decreases ls.len(),
{
    if ls.len() == 0 {
        0nat
    } else {
        vertex_degree(lm, ls.drop_last(), v) + (if lm.dom().contains(ls.last()) {
            endpoint_hits(lm[ls.last()], v)
        } else {
            0nat
        })
    }
}

/// Every handle of the boundary resolves to a live line.
pub open spec fn all_lines_live(lm: Map<u64, (u64, u64)>, ls: Seq<u64>) -> bool {
    forall|i: int| 0 <= i < ls.len() ==> lm.dom().contains(ls[i])
}

/// Topological closure: the boundary is non-empty, every line handle resolves,
/// and every vertex the lines touch has degree exactly two. Degree two
/// everywhere means the lines form one or more simple cycles with no dangling
/// ends or branches; connectivity into a single loop is not checked.
pub open spec fn sector_closed(lm: Map<u64, (u64, u64)>, ls: Seq<u64>) -> bool {
    &&& ls.len() > 0
    &&& all_lines_live(lm, ls)
    &&& forall|v: u64| vertex_degree(lm, ls, v) == 0 || vertex_degree(lm, ls, v) == 2
}

/// A degree count capped where the closure check stops caring: everything at
/// three and above answers the question "is the degree exactly two" alike.
pub(crate) open spec fn capped(n: nat) -> nat {
    if n < 3 {
        n
    } else {
        3nat
    }
}

/// The count the degree table stores for `v`, zero when absent.
pub(crate) open spec fn table_at(m: Map<u64, u8>, v: u64) -> nat {
    if m.dom().contains(v) {
        m[v] as nat
    } else {
        0nat
    }
}

/// Raise the degree table entry of `v` by one, capping at three. `keys` lists
/// the table's keys, each once, for the final sweep.
fn bump(counts: &mut HashMap<u64, u8>, keys: &mut Vec<u64>, v: u64)
    requires
        old(keys)@.no_duplicates(),
        old(keys)@.to_set() == old(counts)@.dom(),
        forall|w: u64| old(counts)@.dom().contains(w) ==> 1 <= old(counts)@[w] <= 3,
    ensures
        final(keys)@.no_duplicates(),
        final(keys)@.to_set() == final(counts)@.dom(),
        forall|w: u64| final(counts)@.dom().contains(w) ==> 1 <= final(counts)@[w] <= 3,
        table_at(final(counts)@, v) == capped(table_at(old(counts)@, v) + 1),
        forall|w: u64| w != v ==> table_at(final(counts)@, w) == table_at(old(counts)@, w),
{
    broadcast use vstd::std_specs::hash::group_hash_axioms;

    match counts.get(&v) {
        Some(c) => {
            let c = *c;
            let nc: u8 = if c < 3 {
                c + 1
            } else {
                3
            };
            counts.insert(v, nc);
            proof {
                assert(counts@.dom() =~= old(counts)@.dom());
            }
        },
        None => {
            counts.insert(v, 1);
            let ghost ks = keys@;
            keys.push(v);
            proof {
                assert forall|x: u64| #[trigger]
                    keys@.contains(x) <==> (ks.contains(x) || x == v) by {
                    if keys@.contains(x) {
                        let t = choose|t: int| 0 <= t < keys@.len() && keys@[t] == x;
                        if t < ks.len() {
                            assert(ks[t] == x);
                        }
                    }
                    if ks.contains(x) {
                        let t = choose|t: int| 0 <= t < ks.len() && ks[t] == x;
                        assert(keys@[t] == x);
                    }
                    if x == v {
                        assert(keys@[ks.len() as int] == x);
                    }
                }
                assert(keys@.to_set() =~= counts@.dom());
                assert forall|a: int, b: int| 0 <= a < b < keys@.len() implies keys@[a]
                    != keys@[b] by {
                    if b < ks.len() {
                    } else {
                        assert(keys@[b] == v);
                        assert(ks.contains(ks[a]));
                        assert(ks.to_set().contains(ks[a]));
                    }
                }
            }
        },
    }
}

impl Sector {
    /// Whether the boundary closes. True exactly when the line list is
    /// non-empty, every handle in it resolves in `lines`, and every vertex
    /// those lines touch stands as an endpoint exactly twice.
    pub fn is_closed(&self, lines: &LineArena) -> (r: bool)
        ensures
            r == sector_closed(line_table(*lines), self@),
    {
        broadcast use vstd::std_specs::hash::group_hash_axioms;

        let ghost lm = line_table(*lines);
        let n = self.lines.len();
        if n == 0 {
            return false;
        }
        let mut counts: HashMap<u64, u8> = HashMap::new();
        let mut keys: Vec<u64> = Vec::new();
        let mut i: usize = 0;
        while i < n
            invariant
                n == self.lines@.len(),
                0 <= i <= n,
                lm == line_table(*lines),
                forall|k: int| 0 <= k < i ==> lm.dom().contains(self@[k]),
                keys@.no_duplicates(),
                keys@.to_set() == counts@.dom(),
                forall|w: u64| counts@.dom().contains(w) ==> 1 <= counts@[w] <= 3,
                forall|v: u64|
                    table_at(counts@, v) == capped(vertex_degree(lm, self@.take(i as int), v)),
            decreases n - i,
        {
            let lid = self.lines[i];
            proof {
                use_type_invariant(&lid);
                assert(self@[i as int] == lid@);
            }
            match line_get(lines, lid.raw_key()) {
                None => {
                    proof {
                        assert(!all_lines_live(lm, self@));
                    }
                    return false;
                },
                Some(l) => {
                    let a = l.p1.raw_key();
                    let b = l.p2.raw_key();
                    bump(&mut counts, &mut keys, a);
                    bump(&mut counts, &mut keys, b);
                    proof {
                        let t1 = self@.take(i as int + 1);
                        assert(t1.drop_last() =~= self@.take(i as int));
                        assert(t1.last() == self@[i as int]);
                        assert(lm[self@[i as int]] == l@);
                        assert forall|v: u64|
                            table_at(counts@, v) == capped(vertex_degree(lm, t1, v)) by {
                            let d = vertex_degree(lm, self@.take(i as int), v);
                            assert(vertex_degree(lm, t1, v) == d + endpoint_hits(l@, v));
                        }
                    }
                },
            }
            i += 1;
        }
        proof {
            assert(self@.take(n as int) =~= self@);
        }
        let mut j: usize = 0;
        while j < keys.len()
            invariant
                n == self.lines@.len(),
                n > 0,
                lm == line_table(*lines),
                all_lines_live(lm, self@),
                keys@.no_duplicates(),
                keys@.to_set() == counts@.dom(),
                forall|w: u64| counts@.dom().contains(w) ==> 1 <= counts@[w] <= 3,
                forall|v: u64| table_at(counts@, v) == capped(vertex_degree(lm, self@, v)),
                0 <= j <= keys@.len(),
                forall|t: int| 0 <= t < j ==> counts@[#[trigger] keys@[t]] == 2,
            decreases keys@.len() - j,
        {
            let k = keys[j];
            proof {
                assert(keys@.contains(keys@[j as int]));
                assert(keys@.to_set().contains(k));
            }
            let c = *counts.get(&k).unwrap();
            if c != 2 {
                proof {
                    assert(table_at(counts@, k) == c);
                    assert(vertex_degree(lm, self@, k) != 0 && vertex_degree(lm, self@, k)
                        != 2);
                }
                return false;
            }
            j += 1;
        }
        proof {
            assert forall|v: u64|
                vertex_degree(lm, self@, v) == 0 || vertex_degree(lm, self@, v) == 2 by {
                if counts@.dom().contains(v) {
                    assert(keys@.to_set().contains(v));
                    assert(keys@.contains(v));
                    let t = choose|t: int| 0 <= t < keys@.len() && keys@[t] == v;
                    assert(counts@[keys@[t]] == 2);
                    assert(table_at(counts@, v) == 2);
                } else {
                    assert(table_at(counts@, v) == 0);
                }
            }
        }
        true
    }
}

/// An empty boundary is never closed.
pub proof fn lemma_empty_boundary_not_closed(lm: Map<u64, (u64, u64)>)
    ensures
        !sector_closed(lm, Seq::<u64>::empty()),
{
}

/// A single dangling line handle makes a sector unclosed, whatever the rest of
/// its boundary holds.
pub proof fn lemma_dangling_line_not_closed(lm: Map<u64, (u64, u64)>, ls: Seq<u64>, i: int)
    requires
        0 <= i < ls.len(),
        !lm.dom().contains(ls[i]),
    ensures
        !sector_closed(lm, ls),
{
    assert(!all_lines_live(lm, ls));
}

proof fn lemma_ring_degree_hit(
    lm: Map<u64, (u64, u64)>,
    lids: Seq<u64>,
    vids: Seq<u64>,
    k: int,
    m: int,
)
    requires
        lids.len() == vids.len(),
        lids.len() >= 1,
        vids.no_duplicates(),
        forall|i: int|
            0 <= i < lids.len() ==> lm.dom().contains(lids[i]) && lm[lids[i]] == (
            vids[i],
            vids[(i + 1) % (vids.len() as int)],
            ),
        0 <= k < vids.len(),
        0 <= m <= lids.len(),
    ensures
        vertex_degree(lm, lids.take(m), vids[k]) == (if k < m {
            1nat
        } else {
            0nat
        }) + (if k == 0 {
            if m == lids.len() {
                1nat
            } else {
                0nat
            }
        } else {
            if k <= m {
                1nat
            } else {
                0nat
            }
        }),
    decreases m,
{
    let n = lids.len() as int;
    if m == 0 {
    } else {
        lemma_ring_degree_hit(lm, lids, vids, k, m - 1);
        let t = lids.take(m);
        assert(t.drop_last() =~= lids.take(m - 1));
        assert(t.last() == lids[m - 1]);
        assert(lm[lids[m - 1]] == (vids[m - 1], vids[m % n]));
        if vids[m - 1] == vids[k] {
            assert(m - 1 == k);
        }
        if vids[m % n] == vids[k] {
            assert(m % n == k);
        }
        if m < n {
            assert(m % n == m) by (nonlinear_arith)
                requires
                    0 <= m,
                    m < n,
            ;
        } else {
            assert(m % n == 0) by (nonlinear_arith)
                requires
                    m == n,
                    0 < n,
            ;
        }
    }
}

proof fn lemma_ring_degree_miss(
    lm: Map<u64, (u64, u64)>,
    lids: Seq<u64>,
    vids: Seq<u64>,
    v: u64,
    m: int,
)
    requires
        lids.len() == vids.len(),
        lids.len() >= 1,
        forall|i: int|
            0 <= i < lids.len() ==> lm.dom().contains(lids[i]) && lm[lids[i]] == (
            vids[i],
            vids[(i + 1) % (vids.len() as int)],
            ),
        forall|i: int| 0 <= i < vids.len() ==> vids[i] != v,
        0 <= m <= lids.len(),
    ensures
        vertex_degree(lm, lids.take(m), v) == 0,
    decreases m,
{
    let n = lids.len() as int;
    if m > 0 {
        lemma_ring_degree_miss(lm, lids, vids, v, m - 1);
        let t = lids.take(m);
        assert(t.drop_last() =~= lids.take(m - 1));
        assert(lm[lids[m - 1]] == (vids[m - 1], vids[m % n]));
        if m < n {
            assert(m % n == m) by (nonlinear_arith)
                requires
                    0 <= m,
                    m < n,
            ;
        } else {
            assert(m % n == 0) by (nonlinear_arith)
                requires
                    m == n,
                    0 < n,
            ;
        }
    }
}

/// The boundary the builder lays out — line `i` joining vertex `i` to vertex
/// `i + 1`, wrapping at the end — is closed, for any length from one up,
/// whenever the vertex handles are pairwise distinct and the line handles are
/// pairwise distinct.
pub proof fn lemma_ring_closed(lm: Map<u64, (u64, u64)>, lids: Seq<u64>, vids: Seq<u64>)
    requires
        lids.len() == vids.len(),
        lids.len() >= 1,
        lids.no_duplicates(),
        vids.no_duplicates(),
        forall|i: int|
            0 <= i < lids.len() ==> lm.dom().contains(lids[i]) && lm[lids[i]] == (
            vids[i],
            vids[(i + 1) % (vids.len() as int)],
            ),
    ensures
        sector_closed(lm, lids),
{
    let n = lids.len() as int;
    assert(all_lines_live(lm, lids));
    assert forall|v: u64| vertex_degree(lm, lids, v) == 0 || vertex_degree(lm, lids, v)
        == 2 by {
        assert(lids.take(n) =~= lids);
        if exists|k: int| 0 <= k < n && vids[k] == v {
            let k = choose|k: int| 0 <= k < n && vids[k] == v;
            lemma_ring_degree_hit(lm, lids, vids, k, n);
        } else {
            lemma_ring_degree_miss(lm, lids, vids, v, n);
        }
    }
}

} // verus!
