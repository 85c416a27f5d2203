//! The deduplicated edge list.
//!
//! Every local edge of every triangle appears in the mesh's edge list
//! exactly once. A local edge is emitted by the triangle that owns its
//! orientation: the triangle with no neighbor across it (a boundary edge),
//! or the one with the smaller index of the two that share it. With a
//! sound and complete neighbor adjacency this reproduces a scan that
//! deduplicates edges by their canonical node pair in triangle order.

use vstd::prelude::*;
use crate::grid::Triangle;

verus! {

/// One undirected mesh edge. It runs from `node_a` to `node_b` (in the
/// orientation of the owning triangle's local edge); `left_triangle` owns
/// the orientation and `right_triangle` is the triangle on the other side,
/// absent for a boundary edge.
#[derive(Clone, Copy, Debug, PartialEq, Eq, Structural)]
pub struct Edge {
    pub node_a: usize,
    pub node_b: usize,
    pub left_triangle: usize,
    pub right_triangle: Option<usize>,
}

/// The edge emitted for local edge `k` of the triangle at index `t`.
pub open spec fn local_edge(tris: Seq<Triangle>, t: int, k: int) -> Edge {
    Edge {
        node_a: tris[t].nodes[k],
        node_b: tris[t].nodes[(k + 1) % 3],
        left_triangle: t as usize,
        right_triangle: tris[t].neighbors[k],
    }
}

/// Local edge `k` of triangle `t` is emitted by `t`: either it is a
/// boundary edge, or `t` is the smaller-indexed of the two triangles
/// sharing it.
pub open spec fn emit_edge(tris: Seq<Triangle>, t: int, k: int) -> bool {
    match tris[t].neighbors[k] {
        Option::None => true,
        Option::Some(b) => (b as int) > t,
    }
}

/// Edges emitted for the first `k` local edges of triangle `t`.
pub open spec fn tri_edges_upto(tris: Seq<Triangle>, t: int, k: int) -> Seq<Edge>
    decreases k,
{
    if k <= 0 {
        Seq::empty()
    } else {
        tri_edges_upto(tris, t, k - 1) + (if emit_edge(tris, t, k - 1) {
            seq![local_edge(tris, t, k - 1)]
        } else {
            Seq::empty()
        })
    }
}

/// Edges emitted for the first `t` triangles.
pub open spec fn edges_upto(tris: Seq<Triangle>, t: int) -> Seq<Edge>
    decreases t,
{
    if t <= 0 {
        Seq::empty()
    } else {
        edges_upto(tris, t - 1) + tri_edges_upto(tris, t - 1, 3)
    }
}

/// The full edge list of the triangulation `tris`.
pub open spec fn spec_edges(tris: Seq<Triangle>) -> Seq<Edge> {
    edges_upto(tris, tris.len() as int)
}

/// Walk all triangles and their local edges in order and emit each edge
/// from its owning triangle.
pub fn generate_edges(tris: &Vec<Triangle>) -> (edges: Vec<Edge>)
    ensures
        edges@ == spec_edges(tris@),
{
    let n = tris.len();
    let mut edges: Vec<Edge> = Vec::new();
    let mut t: usize = 0;
    while t < n
        invariant
            n == tris@.len(),
            t <= n,
            edges@ == edges_upto(tris@, t as int),
        decreases n - t,
    {
        let tri: Triangle = tris[t];
        let mut k: usize = 0;
        while k < 3
            invariant
                n == tris@.len(),
                t < n,
                k <= 3,
                tri == tris@[t as int],
                edges@ == edges_upto(tris@, t as int) + tri_edges_upto(
                    tris@,
                    t as int,
                    k as int,
                ),
            decreases 3 - k,
        {
            let emit = match tri.neighbors[k] {
                Option::None => true,
                Option::Some(b) => b > t,
            };
            if emit {
                let kn: usize = if k == 2 {
                    0
                } else {
                    k + 1
                };
                edges.push(
                    Edge {
                        node_a: tri.nodes[k],
                        node_b: tri.nodes[kn],
                        left_triangle: t,
                        right_triangle: tri.neighbors[k],
                    },
                );
                proof {
                    assert(kn as int == (k as int + 1) % 3);
                    assert(edges@ =~= edges_upto(tris@, t as int) + tri_edges_upto(
                        tris@,
                        t as int,
                        k as int + 1,
                    ));
                }
            } else {
                proof {
                    assert(edges@ =~= edges_upto(tris@, t as int) + tri_edges_upto(
                        tris@,
                        t as int,
                        k as int + 1,
                    ));
                }
            }
            k = k + 1;
        }
        proof {
            assert(edges@ =~= edges_upto(tris@, t as int + 1));
        }
        t = t + 1;
    }
    edges
}

/// `e` is the edge emitted for local edge `k` of triangle `t`.
pub open spec fn is_local_edge_of(tris: Seq<Triangle>, e: Edge, t: int, k: int) -> bool {
    &&& 0 <= t < tris.len()
    &&& 0 <= k < 3
    &&& emit_edge(tris, t, k)
    &&& e == local_edge(tris, t, k)
}

/// `e` is the emitted local edge of some triangle.
pub open spec fn edge_wf(tris: Seq<Triangle>, e: Edge) -> bool {
    exists|t: int, k: int| is_local_edge_of(tris, e, t, k)
}

/// Every element of the edge list is the emitted local edge of some
/// triangle.
pub proof fn lemma_edges_membership(tris: Seq<Triangle>, t: int)
    requires
        0 <= t <= tris.len(),
    ensures
        forall|idx: int|
            0 <= idx < edges_upto(tris, t).len() ==> edge_wf(
                tris,
                #[trigger] edges_upto(tris, t)[idx],
            ),
    decreases t,
{
    if t > 0 {
        lemma_edges_membership(tris, t - 1);
        let prev = edges_upto(tris, t - 1);
        let own = tri_edges_upto(tris, t - 1, 3);
        assert forall|idx: int|
            0 <= idx < edges_upto(tris, t).len() implies edge_wf(
            tris,
            #[trigger] edges_upto(tris, t)[idx],
        ) by {
            let e = edges_upto(tris, t)[idx];
            if idx < prev.len() {
                assert(e == prev[idx]);
            } else {
                lemma_tri_edges_membership(tris, t - 1);
                assert(e == own[idx - prev.len()]);
            }
        }
    }
}

/// Every edge emitted for one triangle is one of its three local edges.
pub proof fn lemma_tri_edges_membership(tris: Seq<Triangle>, t: int)
    requires
        0 <= t < tris.len(),
    ensures
        forall|idx: int|
            0 <= idx < tri_edges_upto(tris, t, 3).len() ==> edge_wf(
                tris,
                #[trigger] tri_edges_upto(tris, t, 3)[idx],
            ),
{
    let s1 = tri_edges_upto(tris, t, 1);
    let s2 = tri_edges_upto(tris, t, 2);
    let s3 = tri_edges_upto(tris, t, 3);
    assert(tri_edges_upto(tris, t, 0) =~= Seq::<Edge>::empty());
    assert forall|idx: int|
        0 <= idx < s3.len() implies edge_wf(tris, #[trigger] s3[idx]) by {
        let e = s3[idx];
        if idx < s1.len() {
            assert(is_local_edge_of(tris, e, t, 0));
        } else if idx < s2.len() {
            assert(is_local_edge_of(tris, e, t, 1));
        } else {
            assert(is_local_edge_of(tris, e, t, 2));
        }
    }
}

/// Position that local edge `k` of triangle `t` takes in the edge list
/// when it is emitted.
pub open spec fn edge_pos(tris: Seq<Triangle>, t: int, k: int) -> int {
    edges_upto(tris, t).len() + tri_edges_upto(tris, t, k).len() as int
}

/// Earlier stages of the edge list are prefixes of later ones.
pub proof fn lemma_edges_upto_prefix(tris: Seq<Triangle>, t1: int, t2: int)
    requires
        0 <= t1 <= t2,
    ensures
        edges_upto(tris, t1).len() <= edges_upto(tris, t2).len(),
        forall|idx: int|
            0 <= idx < edges_upto(tris, t1).len() ==> #[trigger] edges_upto(tris, t2)[idx]
                == edges_upto(tris, t1)[idx],
    decreases t2 - t1,
{
    if t1 < t2 {
        lemma_edges_upto_prefix(tris, t1, t2 - 1);
    }
}

/// Every emitted local edge stands in the edge list, at its position.
pub proof fn lemma_edge_listed(tris: Seq<Triangle>, t: int, k: int)
    requires
        0 <= t < tris.len(),
        0 <= k < 3,
        emit_edge(tris, t, k),
    ensures
        0 <= edge_pos(tris, t, k) < spec_edges(tris).len(),
        spec_edges(tris)[edge_pos(tris, t, k)] == local_edge(tris, t, k),
{
    let pos = edge_pos(tris, t, k);
    let stage = edges_upto(tris, t) + tri_edges_upto(tris, t, k + 1);
    assert(tri_edges_upto(tris, t, k + 1) == tri_edges_upto(tris, t, k) + seq![
        local_edge(tris, t, k),
    ]);
    assert(stage[pos] == local_edge(tris, t, k));
    assert(tri_edges_upto(tris, t, 3).len() >= tri_edges_upto(tris, t, k + 1).len()) by {
        lemma_tri_edges_len_monotone(tris, t, k + 1, 3);
    }
    assert forall|idx: int| 0 <= idx < stage.len() implies #[trigger] edges_upto(tris, t + 1)[idx]
        == stage[idx] by {
        lemma_tri_edges_prefix(tris, t, k + 1, 3);
    }
    lemma_edges_upto_prefix(tris, t + 1, tris.len() as int);
    assert(spec_edges(tris)[pos] == edges_upto(tris, t + 1)[pos]);
}

/// Within one triangle, earlier stages of its emitted edges are prefixes
/// of later ones.
pub proof fn lemma_tri_edges_prefix(tris: Seq<Triangle>, t: int, k1: int, k2: int)
    requires
        0 <= k1 <= k2,
    ensures
        tri_edges_upto(tris, t, k1).len() <= tri_edges_upto(tris, t, k2).len(),
        forall|idx: int|
            0 <= idx < tri_edges_upto(tris, t, k1).len() ==> #[trigger] tri_edges_upto(
                tris,
                t,
                k2,
            )[idx] == tri_edges_upto(tris, t, k1)[idx],
    decreases k2 - k1,
{
    if k1 < k2 {
        lemma_tri_edges_prefix(tris, t, k1, k2 - 1);
    }
}

/// The per-triangle stage length never shrinks.
pub proof fn lemma_tri_edges_len_monotone(tris: Seq<Triangle>, t: int, k1: int, k2: int)
    requires
        0 <= k1 <= k2,
    ensures
        tri_edges_upto(tris, t, k1).len() <= tri_edges_upto(tris, t, k2).len(),
    decreases k2 - k1,
{
    if k1 < k2 {
        lemma_tri_edges_len_monotone(tris, t, k1, k2 - 1);
    }
}

/// Every entry of the edge list is the emitted local edge of some
/// triangle, standing at that edge's position.
pub proof fn lemma_edges_indexed(tris: Seq<Triangle>, t: int)
    requires
        0 <= t <= tris.len(),
    ensures
        forall|idx: int|
            0 <= idx < edges_upto(tris, t).len() ==> #[trigger] indexed_edge_wf(tris, idx),
    decreases t,
{
    if t > 0 {
        lemma_edges_indexed(tris, t - 1);
        lemma_edges_upto_prefix(tris, t, tris.len() as int);
        let prev = edges_upto(tris, t - 1);
        let s1 = tri_edges_upto(tris, t - 1, 1);
        let s2 = tri_edges_upto(tris, t - 1, 2);
        let s3 = tri_edges_upto(tris, t - 1, 3);
        assert(tri_edges_upto(tris, t - 1, 0) =~= Seq::<Edge>::empty());
        assert forall|idx: int|
            0 <= idx < edges_upto(tris, t).len() implies #[trigger] indexed_edge_wf(
            tris,
            idx,
        ) by {
            if idx < prev.len() {
                assert(indexed_edge_wf(tris, idx));
            } else {
                let jdx = idx - prev.len();
                if jdx < s1.len() {
                    assert(edge_at(tris, idx, t - 1, 0));
                } else if jdx < s2.len() {
                    assert(edge_at(tris, idx, t - 1, 1));
                } else {
                    assert(edge_at(tris, idx, t - 1, 2));
                }
            }
        }
    }
}

/// Entry `idx` of the edge list is the emitted local edge of some
/// triangle, standing at that edge's position.
pub open spec fn indexed_edge_wf(tris: Seq<Triangle>, idx: int) -> bool {
    exists|a: int, k: int| edge_at(tris, idx, a, k)
}

/// Entry `idx` of the edge list is the emitted local edge `k` of the
/// triangle at index `a`, standing at its position.
pub open spec fn edge_at(tris: Seq<Triangle>, idx: int, a: int, k: int) -> bool {
    &&& 0 <= a < tris.len()
    &&& 0 <= k < 3
    &&& emit_edge(tris, a, k)
    &&& idx == edge_pos(tris, a, k)
    &&& 0 <= idx < spec_edges(tris).len()
    &&& spec_edges(tris)[idx] == local_edge(tris, a, k)
}

} // verus!
