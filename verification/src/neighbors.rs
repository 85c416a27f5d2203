//! Shared-edge neighbor detection.
//!
//! Two triangles are neighbors exactly when they share two nodes. The
//! builder scans all unordered pairs, and for each neighboring pair records
//! the reciprocal triangle indices in the local-edge slots on both sides.
//! A slot that is about to be written twice signals a malformed (non-edge-
//! manifold) triangulation and is reported as an error rather than being
//! silently overwritten.

use vstd::prelude::*;
use crate::grid::Triangle;
use crate::grid::neighbors_unset;
use crate::mesh::MeshError;

verus! {

/// Whether node index `n` is one of `t`'s three nodes.
pub open spec fn tri_contains_node(t: Triangle, n: int) -> bool {
    ||| t.nodes[0] == n
    ||| t.nodes[1] == n
    ||| t.nodes[2] == n
}

/// How many of `t2`'s node entries equal `t1`'s node `a`.
pub open spec fn node_match_count(t1: Triangle, a: int, t2: Triangle) -> int {
    (if t1.nodes[a] == t2.nodes[0] {
        1 as int
    } else {
        0
    }) + (if t1.nodes[a] == t2.nodes[1] {
        1 as int
    } else {
        0
    }) + (if t1.nodes[a] == t2.nodes[2] {
        1 as int
    } else {
        0
    })
}

/// Number of matching node-entry pairs between two triangles. For
/// triangles with three distinct nodes each, this is the number of shared
/// nodes; a count of exactly 2 means a shared edge.
pub open spec fn shared_node_count(t1: Triangle, t2: Triangle) -> int {
    node_match_count(t1, 0, t2) + node_match_count(t1, 1, t2) + node_match_count(t1, 2, t2)
}

/// Local edge `k` of `t1` runs from node `k` to node `(k + 1) % 3`. It lies
/// in `t2` when both of its endpoints are nodes of `t2`.
pub open spec fn edge_in(t1: Triangle, k: int, t2: Triangle) -> bool {
    &&& tri_contains_node(t2, t1.nodes[k] as int)
    &&& tri_contains_node(t2, t1.nodes[(k + 1) % 3] as int)
}

/// The first local edge of `t1` whose endpoints both lie in `t2`, or 0 when
/// no local edge does.
pub open spec fn first_edge_slot(t1: Triangle, t2: Triangle) -> int {
    if edge_in(t1, 0, t2) {
        0
    } else if edge_in(t1, 1, t2) {
        1
    } else if edge_in(t1, 2, t2) {
        2
    } else {
        0
    }
}

/// Matching node-entry pairs are counted the same from either side.
pub proof fn lemma_shared_symmetric(t1: Triangle, t2: Triangle)
    ensures
        shared_node_count(t1, t2) == shared_node_count(t2, t1),
{
}

/// Whether node index `n` is one of `t`'s three nodes.
pub fn tri_contains(t: &Triangle, n: usize) -> (r: bool)
    ensures
        r == tri_contains_node(*t, n as int),
{
    t.nodes[0] == n || t.nodes[1] == n || t.nodes[2] == n
}

/// Count the matching node-entry pairs between two triangles.
pub fn count_shared_nodes(t1: &Triangle, t2: &Triangle) -> (count: usize)
    ensures
        count == shared_node_count(*t1, *t2),
{
    let mut count: usize = 0;
    if t1.nodes[0] == t2.nodes[0] {
        count = count + 1;
    }
    if t1.nodes[0] == t2.nodes[1] {
        count = count + 1;
    }
    if t1.nodes[0] == t2.nodes[2] {
        count = count + 1;
    }
    if t1.nodes[1] == t2.nodes[0] {
        count = count + 1;
    }
    if t1.nodes[1] == t2.nodes[1] {
        count = count + 1;
    }
    if t1.nodes[1] == t2.nodes[2] {
        count = count + 1;
    }
    if t1.nodes[2] == t2.nodes[0] {
        count = count + 1;
    }
    if t1.nodes[2] == t2.nodes[1] {
        count = count + 1;
    }
    if t1.nodes[2] == t2.nodes[2] {
        count = count + 1;
    }
    count
}

/// Find the local edge of `t1` shared with `t2`: the first slot whose two
/// endpoints both lie in `t2` (0 when none does).
pub fn find_edge_index(t1: &Triangle, t2: &Triangle) -> (r: usize)
    ensures
        r == first_edge_slot(*t1, *t2),
        r < 3,
{
    if tri_contains(t2, t1.nodes[0]) && tri_contains(t2, t1.nodes[1]) {
        return 0;
    }
    if tri_contains(t2, t1.nodes[1]) && tri_contains(t2, t1.nodes[2]) {
        return 1;
    }
    if tri_contains(t2, t1.nodes[2]) && tri_contains(t2, t1.nodes[0]) {
        return 2;
    }
    0
}

/// Copy of `t` with neighbor slot `k` set to `v` and everything else kept.
pub fn set_neighbor(t: Triangle, k: usize, v: Option<usize>) -> (r: Triangle)
    requires
        k < 3,
    ensures
        r.id == t.id,
        r.nodes == t.nodes,
        r.neighbors[k as int] == v,
        forall|k2: int| 0 <= k2 < 3 && k2 != k ==> r.neighbors[k2] == t.neighbors[k2],
{
    let mut nb: [Option<usize>; 3] = t.neighbors;
    nb[k] = v;
    Triangle { id: t.id, nodes: t.nodes, neighbors: nb }
}

/// Shared-node counting and shared-edge slots read only the node triples,
/// never the neighbor slots.
pub proof fn lemma_shared_depends_on_nodes(t1: Triangle, t2: Triangle, u1: Triangle, u2: Triangle)
    requires
        t1.nodes == u1.nodes,
        t2.nodes == u2.nodes,
    ensures
        shared_node_count(t1, t2) == shared_node_count(u1, u2),
        first_edge_slot(t1, t2) == first_edge_slot(u1, u2),
{
}

/// The unordered pair `{x, y}` (given as `x < y`) has already been visited
/// by the all-pairs scan when the outer index is `i` and the inner index
/// is `j`.
pub open spec fn pair_processed(x: int, y: int, i: int, j: int) -> bool {
    x < y && (x < i || (x == i && y < j))
}

/// `pair_processed` for an unordered pair given in either order.
pub open spec fn processed_pair_of(a: int, b: int, i: int, j: int) -> bool {
    if a < b {
        pair_processed(a, b, i, j)
    } else {
        pair_processed(b, a, i, j)
    }
}

/// Lengths, ids and node triples of `tris` agree with `orig`; only the
/// neighbor slots may differ.
pub open spec fn frame_preserved(tris: Seq<Triangle>, orig: Seq<Triangle>) -> bool {
    &&& tris.len() == orig.len()
    &&& forall|t: int|
        0 <= t < tris.len() ==> (#[trigger] tris[t]).id == orig[t].id && tris[t].nodes
            == orig[t].nodes
}

/// Neighbor slot `k` of triangle `a` is either unset, or records a
/// justified neighbor stemming from a pair the scan has already visited:
/// the recorded index is in range, distinct from the owner, the two
/// triangles share exactly two node entries, and the slot is the owner's
/// shared local edge.
pub open spec fn slot_ok(tris: Seq<Triangle>, a: int, k: int, i: int, j: int) -> bool {
    match tris[a].neighbors[k] {
        Option::Some(b) => {
            &&& (b as int) < tris.len()
            &&& b as int != a
            &&& shared_node_count(tris[a], tris[b as int]) == 2
            &&& k == first_edge_slot(tris[a], tris[b as int])
            &&& processed_pair_of(a, b as int, i, j)
        },
        Option::None => true,
    }
}

/// All neighbor slots are justified by pairs visited before scan position
/// `(i, j)`.
pub open spec fn inv_sound_upto(tris: Seq<Triangle>, i: int, j: int) -> bool {
    forall|a: int, k: int|
        0 <= a < tris.len() && 0 <= k < 3 ==> #[trigger] slot_ok(tris, a, k, i, j)
}

/// The pair of distinct triangles `x`, `y` is recorded reciprocally: each
/// holds the other's index in its shared local-edge slot.
pub open spec fn pair_recorded(tris: Seq<Triangle>, x: int, y: int) -> bool {
    &&& tris[x].neighbors[first_edge_slot(tris[x], tris[y])] == Option::Some(y as usize)
    &&& tris[y].neighbors[first_edge_slot(tris[y], tris[x])] == Option::Some(x as usize)
}

/// Every pair visited before scan position `(i, j)` that shares exactly
/// two node entries is recorded reciprocally.
pub open spec fn inv_complete_upto(tris: Seq<Triangle>, i: int, j: int) -> bool {
    forall|x: int, y: int|
        0 <= x < tris.len() && 0 <= y < tris.len() && pair_processed(x, y, i, j)
            && #[trigger] shared_node_count(tris[x], tris[y]) == 2 ==> pair_recorded(tris, x, y)
}

/// Every set neighbor slot is justified (soundness of the built adjacency).
pub open spec fn neighbors_sound(tris: Seq<Triangle>) -> bool {
    forall|a: int, k: int|
        0 <= a < tris.len() && 0 <= k < 3 ==> #[trigger] slot_ok(
            tris,
            a,
            k,
            tris.len() as int,
            tris.len() as int + 1,
        )
}

/// Every pair of distinct triangles sharing exactly two node entries is
/// recorded on both sides (completeness of the built adjacency). Together
/// with `neighbors_sound` this makes the neighbor relation exactly the
/// shared-edge relation, and in particular symmetric.
pub open spec fn neighbors_complete(tris: Seq<Triangle>) -> bool {
    forall|x: int, y: int|
        0 <= x < tris.len() && 0 <= y < tris.len() && x != y && #[trigger] shared_node_count(
            tris[x],
            tris[y],
        ) == 2 ==> pair_recorded(tris, x, y)
}

/// Some triangle has one local edge claimed by two distinct partners: the
/// triangulation is not edge-manifold, and reciprocal recording would have
/// to overwrite a neighbor slot.
pub open spec fn neighbor_conflict(tris: Seq<Triangle>) -> bool {
    exists|a: int, b: int, c: int|
        {
            &&& 0 <= a < tris.len()
            &&& 0 <= b < tris.len()
            &&& 0 <= c < tris.len()
            &&& a != b
            &&& a != c
            &&& b != c
            &&& #[trigger] shared_node_count(tris[a], tris[b]) == 2
            &&& #[trigger] shared_node_count(tris[a], tris[c]) == 2
            &&& first_edge_slot(tris[a], tris[b]) == first_edge_slot(tris[a], tris[c])
        }
}

/// Scan all unordered triangle pairs; when a pair shares exactly two node
/// entries, record each triangle in the other's shared local-edge slot.
/// A slot that would be written twice is reported as a malformed
/// triangulation instead of being overwritten.
pub fn build_neighbors(tris: &mut Vec<Triangle>) -> (r: Result<(), MeshError>)
    requires
        forall|t: int| 0 <= t < old(tris)@.len() ==> neighbors_unset(#[trigger] old(tris)@[t]),
    ensures
        frame_preserved(final(tris)@, old(tris)@),
        match r {
            Result::Ok(()) => {
                &&& neighbors_sound(final(tris)@)
                &&& neighbors_complete(final(tris)@)
                &&& !neighbor_conflict(final(tris)@)
            },
            Result::Err(e) => {
                &&& e == MeshError::MalformedTopology
                &&& neighbor_conflict(final(tris)@)
            },
        },
{
    let n = tris.len();
    let mut i: usize = 0;
    while i < n
        invariant
            n == tris@.len(),
            i <= n,
            frame_preserved(tris@, old(tris)@),
            inv_sound_upto(tris@, i as int, i as int + 1),
            inv_complete_upto(tris@, i as int, i as int + 1),
        decreases n - i,
    {
        let mut j: usize = i + 1;
        while j < n
            invariant
                n == tris@.len(),
                i < n,
                i + 1 <= j,
                j <= n,
                frame_preserved(tris@, old(tris)@),
                inv_sound_upto(tris@, i as int, j as int),
                inv_complete_upto(tris@, i as int, j as int),
            decreases n - j,
        {
            let gi: Ghost<int> = Ghost(i as int);
            let gj: Ghost<int> = Ghost(j as int);
            let ti: Triangle = tris[i];
            let tj: Triangle = tris[j];
            let shared = count_shared_nodes(&ti, &tj);
            if shared == 2 {
                let ei = find_edge_index(&ti, &tj);
                let ej = find_edge_index(&tj, &ti);
                if ti.neighbors[ei].is_some() || tj.neighbors[ej].is_some() {
                    proof {
                        lemma_shared_symmetric(ti, tj);
                        assert(shared_node_count(tris@[gi@], tris@[gj@]) == 2);
                        assert(shared_node_count(tris@[gj@], tris@[gi@]) == 2);
                        if ti.neighbors[ei as int] is Some {
                            let b = ti.neighbors[ei as int]->0;
                            assert(slot_ok(tris@, gi@, ei as int, gi@, gj@));
                            assert(shared_node_count(tris@[gi@], tris@[b as int]) == 2);
                            assert(first_edge_slot(tris@[gi@], tris@[b as int]) == ei as int);
                            assert(b as int != gj@);
                        } else {
                            let c = tj.neighbors[ej as int]->0;
                            assert(slot_ok(tris@, gj@, ej as int, gi@, gj@));
                            assert(shared_node_count(tris@[gj@], tris@[c as int]) == 2);
                            assert(first_edge_slot(tris@[gj@], tris@[c as int]) == ej as int);
                            assert(c as int != gi@);
                        }
                        assert(neighbor_conflict(tris@));
                    }
                    return Result::Err(MeshError::MalformedTopology);
                }
                let ghost before = tris@;
                tris[i] = set_neighbor(ti, ei, Option::Some(j));
                tris[j] = set_neighbor(tj, ej, Option::Some(i));
                proof {
                    let s = tris@;
                    lemma_shared_symmetric(ti, tj);
                    assert(s[gi@].nodes == before[gi@].nodes && s[gj@].nodes == before[gj@].nodes);
                    assert(shared_node_count(s[gi@], s[gj@]) == 2 && first_edge_slot(s[gi@], s[gj@])
                        == ei as int) by {
                        lemma_shared_depends_on_nodes(ti, tj, s[gi@], s[gj@]);
                    }
                    assert(shared_node_count(s[gj@], s[gi@]) == 2 && first_edge_slot(s[gj@], s[gi@])
                        == ej as int) by {
                        lemma_shared_depends_on_nodes(tj, ti, s[gj@], s[gi@]);
                    }
                    assert forall|a: int, k: int|
                        0 <= a < s.len() && 0 <= k < 3 implies #[trigger] slot_ok(
                        s,
                        a,
                        k,
                        gi@,
                        gj@ + 1,
                    ) by {
                        assert(slot_ok(before, a, k, gi@, gj@));
                        if a == gi@ && k == ei as int {
                            assert(s[a].neighbors[k] == Option::Some(j));
                            assert(processed_pair_of(gi@, gj@, gi@, gj@ + 1));
                        } else if a == gj@ && k == ej as int {
                            assert(s[a].neighbors[k] == Option::Some(i));
                            assert(processed_pair_of(gj@, gi@, gi@, gj@ + 1));
                        } else {
                            assert(s[a].neighbors[k] == before[a].neighbors[k]);
                            if before[a].neighbors[k] is Some {
                                let b = before[a].neighbors[k]->0;
                                lemma_shared_depends_on_nodes(
                                    before[a],
                                    before[b as int],
                                    s[a],
                                    s[b as int],
                                );
                            }
                        }
                    }
                    assert forall|x: int, y: int|
                        0 <= x < s.len() && 0 <= y < s.len() && pair_processed(x, y, gi@, gj@ + 1)
                            && #[trigger] shared_node_count(s[x], s[y]) == 2 implies pair_recorded(
                        s,
                        x,
                        y,
                    ) by {
                        if x == gi@ && y == gj@ {
                            assert(s[gi@].neighbors[ei as int] == Option::Some(j));
                            assert(s[gj@].neighbors[ej as int] == Option::Some(i));
                        } else {
                            assert(pair_processed(x, y, gi@, gj@));
                            lemma_shared_depends_on_nodes(s[x], s[y], before[x], before[y]);
                            lemma_shared_depends_on_nodes(s[y], s[x], before[y], before[x]);
                            assert(shared_node_count(before[x], before[y]) == 2);
                            assert(pair_recorded(before, x, y));
                            assert(ti.neighbors[ei as int] is None);
                            assert(tj.neighbors[ej as int] is None);
                            if x == gi@ {
                                assert(first_edge_slot(before[x], before[y]) != ei as int);
                            }
                            if y == gi@ {
                                assert(first_edge_slot(before[y], before[x]) != ei as int);
                            }
                            if x == gj@ {
                                assert(first_edge_slot(before[x], before[y]) != ej as int);
                            }
                            if y == gj@ {
                                assert(first_edge_slot(before[y], before[x]) != ej as int);
                            }
                        }
                    }
                }
            } else {
                proof {
                    let s = tris@;
                    assert forall|a: int, k: int|
                        0 <= a < s.len() && 0 <= k < 3 implies #[trigger] slot_ok(
                        s,
                        a,
                        k,
                        gi@,
                        gj@ + 1,
                    ) by {
                        assert(slot_ok(s, a, k, gi@, gj@));
                    }
                    assert forall|x: int, y: int|
                        0 <= x < s.len() && 0 <= y < s.len() && pair_processed(x, y, gi@, gj@ + 1)
                            && #[trigger] shared_node_count(s[x], s[y]) == 2 implies pair_recorded(
                        s,
                        x,
                        y,
                    ) by {
                        if x == gi@ && y == gj@ {
                            assert(shared_node_count(s[x], s[y]) == shared_node_count(ti, tj));
                            assert(false);
                        } else {
                            assert(pair_processed(x, y, gi@, gj@));
                        }
                    }
                }
            }
            j = j + 1;
        }
        proof {
            let s = tris@;
            let gi: int = i as int;
            assert forall|a: int, k: int|
                0 <= a < s.len() && 0 <= k < 3 implies #[trigger] slot_ok(
                s,
                a,
                k,
                gi + 1,
                gi + 2,
            ) by {
                assert(slot_ok(s, a, k, gi, n as int));
            }
            assert forall|x: int, y: int|
                0 <= x < s.len() && 0 <= y < s.len() && pair_processed(x, y, gi + 1, gi + 2)
                    && #[trigger] shared_node_count(s[x], s[y]) == 2 implies pair_recorded(
                s,
                x,
                y,
            ) by {
                assert(pair_processed(x, y, gi, n as int));
            }
            assert(inv_sound_upto(tris@, gi + 1, gi + 2));
            assert(inv_complete_upto(tris@, gi + 1, gi + 2));
        }
        i = i + 1;
    }
    proof {
        let s = tris@;
        assert forall|a: int, k: int|
            0 <= a < s.len() && 0 <= k < 3 implies #[trigger] slot_ok(
            s,
            a,
            k,
            s.len() as int,
            s.len() as int + 1,
        ) by {
            assert(slot_ok(s, a, k, n as int, n as int + 1));
        }
        assert forall|x: int, y: int|
            0 <= x < s.len() && 0 <= y < s.len() && x != y && #[trigger] shared_node_count(
                s[x],
                s[y],
            ) == 2 implies pair_recorded(s, x, y) by {
            lemma_shared_symmetric(s[x], s[y]);
            if x < y {
                assert(pair_processed(x, y, n as int, n as int + 1));
            } else {
                assert(pair_processed(y, x, n as int, n as int + 1));
                assert(pair_recorded(s, y, x));
            }
        }
        if neighbor_conflict(s) {
            let (a, b, c) = choose|a: int, b: int, c: int|
                {
                    &&& 0 <= a < s.len()
                    &&& 0 <= b < s.len()
                    &&& 0 <= c < s.len()
                    &&& a != b
                    &&& a != c
                    &&& b != c
                    &&& #[trigger] shared_node_count(s[a], s[b]) == 2
                    &&& #[trigger] shared_node_count(s[a], s[c]) == 2
                    &&& first_edge_slot(s[a], s[b]) == first_edge_slot(s[a], s[c])
                };
            assert(pair_recorded(s, a, b));
            assert(pair_recorded(s, a, c));
            assert(false);
        }
    }
    Result::Ok(())
}

/// For triangles with pairwise distinct nodes that share exactly two node
/// entries, the shared local edge is unique: `first_edge_slot` finds a
/// slot whose edge really lies in the partner, and no other slot does.
pub proof fn lemma_two_shared_edge_slot(t1: Triangle, t2: Triangle)
    requires
        t1.nodes[0] != t1.nodes[1],
        t1.nodes[1] != t1.nodes[2],
        t1.nodes[2] != t1.nodes[0],
        t2.nodes[0] != t2.nodes[1],
        t2.nodes[1] != t2.nodes[2],
        t2.nodes[2] != t2.nodes[0],
        shared_node_count(t1, t2) == 2,
    ensures
        edge_in(t1, first_edge_slot(t1, t2), t2),
        forall|k: int| 0 <= k < 3 && #[trigger] edge_in(t1, k, t2) ==> k == first_edge_slot(t1, t2),
{
}

/// Two triangles with pairwise distinct nodes that share exactly two node
/// entries have exactly two common node values: any two unordered pairs of
/// common values coincide.
pub proof fn lemma_common_pair_unique(
    t1: Triangle,
    t2: Triangle,
    a: int,
    b: int,
    c: int,
    d: int,
)
    requires
        t1.nodes[0] != t1.nodes[1],
        t1.nodes[1] != t1.nodes[2],
        t1.nodes[2] != t1.nodes[0],
        t2.nodes[0] != t2.nodes[1],
        t2.nodes[1] != t2.nodes[2],
        t2.nodes[2] != t2.nodes[0],
        shared_node_count(t1, t2) == 2,
        a != b,
        c != d,
        tri_contains_node(t1, a) && tri_contains_node(t2, a),
        tri_contains_node(t1, b) && tri_contains_node(t2, b),
        tri_contains_node(t1, c) && tri_contains_node(t2, c),
        tri_contains_node(t1, d) && tri_contains_node(t2, d),
    ensures
        (a == c && b == d) || (a == d && b == c),
{
}

/// Two distinct common node values force a shared count of at least two,
/// and with distinct nodes on both sides the count never exceeds three.
pub proof fn lemma_shared_count_bounds(t1: Triangle, t2: Triangle, a: int, b: int)
    requires
        t1.nodes[0] != t1.nodes[1],
        t1.nodes[1] != t1.nodes[2],
        t1.nodes[2] != t1.nodes[0],
        t2.nodes[0] != t2.nodes[1],
        t2.nodes[1] != t2.nodes[2],
        t2.nodes[2] != t2.nodes[0],
        a != b,
        tri_contains_node(t1, a) && tri_contains_node(t2, a),
        tri_contains_node(t1, b) && tri_contains_node(t2, b),
    ensures
        2 <= shared_node_count(t1, t2) <= 3,
{
}

/// When triangles with pairwise distinct nodes share all three node
/// entries, every node of the first is a node of the second.
pub proof fn lemma_three_shared_all(t1: Triangle, t2: Triangle)
    requires
        t1.nodes[0] != t1.nodes[1],
        t1.nodes[1] != t1.nodes[2],
        t1.nodes[2] != t1.nodes[0],
        t2.nodes[0] != t2.nodes[1],
        t2.nodes[1] != t2.nodes[2],
        t2.nodes[2] != t2.nodes[0],
        shared_node_count(t1, t2) == 3,
    ensures
        tri_contains_node(t2, t1.nodes[0] as int),
        tri_contains_node(t2, t1.nodes[1] as int),
        tri_contains_node(t2, t1.nodes[2] as int),
{
}

} // verus!
