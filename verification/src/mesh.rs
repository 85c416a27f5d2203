//! The mesh facade: construction of the full grid topology.
//!
//! `TriangularMesh` owns the triangle list (with neighbor adjacency) and
//! the deduplicated edge list of the structured triangulation of a
//! rectangular domain. All relations are dense zero-based indices into the
//! owned sequences; the structure is immutable after construction.

use vstd::prelude::*;
use vstd::arithmetic::div_mod::lemma_fundamental_div_mod;
use crate::grid::Triangle;
use crate::grid::build_triangles;
use crate::grid::grid_cell_i;
use crate::grid::grid_cell_j;
use crate::grid::grid_tri_node;
use crate::grid::is_grid_triangle;
use crate::grid::grid_tri_doubled_area;
use crate::grid::lemma_grid_edge_step;
use crate::grid::lemma_grid_triangle_ccw;
use crate::grid::lemma_grid_tri_node_in_range;
use crate::grid::lemma_grid_tri_nodes_distinct;
use crate::grid::node_lattice_i;
use crate::grid::node_lattice_j;
use crate::grid::spec_node_count;
use crate::grid::spec_triangle_count;
use crate::neighbors::build_neighbors;
use crate::neighbors::edge_in;
use crate::neighbors::first_edge_slot;
use crate::neighbors::lemma_common_pair_unique;
use crate::neighbors::lemma_shared_count_bounds;
use crate::neighbors::lemma_shared_symmetric;
use crate::neighbors::lemma_three_shared_all;
use crate::neighbors::lemma_two_shared_edge_slot;
use crate::neighbors::neighbor_conflict;
use crate::neighbors::neighbors_complete;
use crate::neighbors::neighbors_sound;
use crate::neighbors::pair_recorded;
use crate::neighbors::shared_node_count;
use crate::neighbors::slot_ok;
use crate::neighbors::tri_contains_node;
use crate::edges::Edge;
use crate::edges::edge_at;
use crate::edges::edge_pos;
use crate::edges::edge_wf;
use crate::edges::emit_edge;
use crate::edges::generate_edges;
use crate::edges::indexed_edge_wf;
use crate::edges::is_local_edge_of;
use crate::edges::lemma_edge_listed;
use crate::edges::lemma_edges_indexed;
use crate::edges::lemma_edges_membership;
use crate::edges::local_edge;
use crate::edges::spec_edges;
use crate::manifold::lemma_grid_no_conflict;
use crate::manifold::lemma_member_coords;
use crate::manifold::lemma_same_points_same_cell;
use crate::manifold::lemma_tri_index_determined;

verus! {

/// Construction failures.
///
/// `InvalidResolution` rejects a degenerate grid (fewer than two nodes in
/// either direction) before anything is built. `MalformedTopology` reports
/// a triangulation in which some local edge is claimed by more than one
/// neighboring triangle; such a mesh is never silently repaired.
#[derive(Clone, Copy, Debug, PartialEq, Eq, Structural)]
pub enum MeshError {
    InvalidResolution,
    MalformedTopology,
}

/// The topology of a triangular mesh over a rectangular domain: an `nx`
/// by `ny` node lattice, the triangles with their neighbor adjacency, and
/// the deduplicated edge list.
pub struct TriangularMesh {
    pub nx: usize,
    pub ny: usize,
    pub triangles: Vec<Triangle>,
    pub edges: Vec<Edge>,
}

/// The triangle sequence that the grid triangulation of an `nx` by `ny`
/// lattice assigns, before neighbor detection.
pub open spec fn spec_grid_triangles(nx: int, ny: int) -> Seq<Triangle> {
    Seq::new(
        spec_triangle_count(nx, ny) as nat,
        |t: int|
            Triangle {
                id: t as usize,
                nodes: [
                    grid_tri_node(t, 0, nx) as usize,
                    grid_tri_node(t, 1, nx) as usize,
                    grid_tri_node(t, 2, nx) as usize,
                ],
                neighbors: [None, None, None],
            },
    )
}

/// Everything construction establishes: the triangle list is exactly the
/// grid triangulation, the neighbor adjacency is exactly the shared-edge
/// relation, and the edge list is exactly the deduplicated edge list of
/// that adjacency.
pub open spec fn well_formed(m: TriangularMesh) -> bool {
    &&& 2 <= m.nx
    &&& 2 <= m.ny
    &&& spec_node_count(m.nx as int, m.ny as int) <= usize::MAX as int
    &&& m.triangles@.len() == spec_triangle_count(m.nx as int, m.ny as int)
    &&& forall|t: int|
        0 <= t < m.triangles@.len() ==> is_grid_triangle(
            #[trigger] m.triangles@[t],
            t,
            m.nx as int,
        )
    &&& neighbors_sound(m.triangles@)
    &&& neighbors_complete(m.triangles@)
    &&& m.edges@ == spec_edges(m.triangles@)
}

/// A slot conflict depends only on the node triples, so it transfers
/// between triangle sequences that agree node-for-node.
pub proof fn lemma_conflict_nodes_only(tris1: Seq<Triangle>, tris2: Seq<Triangle>)
    requires
        tris1.len() == tris2.len(),
        forall|t: int, k: int|
            0 <= t < tris1.len() && 0 <= k < 3 ==> (#[trigger] tris1[t].nodes[k])
                == tris2[t].nodes[k],
        neighbor_conflict(tris1),
    ensures
        neighbor_conflict(tris2),
{
    let (a, b, c) = choose|a: int, b: int, c: int|
        {
            &&& 0 <= a < tris1.len()
            &&& 0 <= b < tris1.len()
            &&& 0 <= c < tris1.len()
            &&& a != b
            &&& a != c
            &&& b != c
            &&& #[trigger] shared_node_count(tris1[a], tris1[b]) == 2
            &&& #[trigger] shared_node_count(tris1[a], tris1[c]) == 2
            &&& first_edge_slot(tris1[a], tris1[b]) == first_edge_slot(tris1[a], tris1[c])
        };
    assert(shared_node_count(tris2[a], tris2[b]) == shared_node_count(tris1[a], tris1[b]));
    assert(shared_node_count(tris2[a], tris2[c]) == shared_node_count(tris1[a], tris1[c]));
    assert(first_edge_slot(tris2[a], tris2[b]) == first_edge_slot(tris1[a], tris1[b]));
    assert(first_edge_slot(tris2[a], tris2[c]) == first_edge_slot(tris1[a], tris1[c]));
}

impl TriangularMesh {
    /// Build the full topology of the structured triangulation of an `nx`
    /// by `ny` lattice: triangles, neighbor adjacency, edge list.
    ///
    /// A degenerate resolution (fewer than two nodes in either direction)
    /// is rejected; every other resolution succeeds, since the grid
    /// triangulation is edge-manifold and neighbor detection can never
    /// meet an occupied slot.
    pub fn new_rectangular(nx: usize, ny: usize) -> (r: Result<TriangularMesh, MeshError>)
        requires
            spec_node_count(nx as int, ny as int) <= usize::MAX as int,
            spec_triangle_count(nx as int, ny as int) <= usize::MAX as int,
        ensures
            r is Ok <==> (2 <= nx && 2 <= ny),
            match r {
                Result::Ok(m) => {
                    &&& m.nx == nx
                    &&& m.ny == ny
                    &&& well_formed(m)
                },
                Result::Err(e) => e == MeshError::InvalidResolution && (nx < 2 || ny < 2),
            },
    {
        if nx < 2 || ny < 2 {
            return Result::Err(MeshError::InvalidResolution);
        }
        let mut tris = build_triangles(nx, ny);
        let ghost grid = spec_grid_triangles(nx as int, ny as int);
        let nbres = build_neighbors(&mut tris);
        match nbres {
            Result::Err(_) => {
                proof {
                    lemma_grid_no_conflict(nx as int, ny as int);
                    lemma_conflict_nodes_only(tris@, grid);
                    assert(false);
                }
                Result::Err(MeshError::MalformedTopology)
            },
            Result::Ok(()) => {
                let edges = generate_edges(&tris);
                Result::Ok(TriangularMesh { nx, ny, triangles: tris, edges })
            },
        }
    }

    /// Number of lattice nodes of this mesh.
    pub fn node_count(&self) -> (r: usize)
        requires
            spec_node_count(self.nx as int, self.ny as int) <= usize::MAX as int,
        ensures
            r == spec_node_count(self.nx as int, self.ny as int),
    {
        self.nx * self.ny
    }

    /// Number of triangles of this mesh.
    pub fn triangle_count(&self) -> (r: usize)
        ensures
            r == self.triangles@.len(),
    {
        self.triangles.len()
    }

    /// Number of distinct edges of this mesh.
    pub fn edge_count(&self) -> (r: usize)
        ensures
            r == self.edges@.len(),
    {
        self.edges.len()
    }
}

/// Every neighbor reference of every triangle is either absent or a valid
/// in-range triangle index other than the owner, and the neighbor relation
/// is symmetric: when triangle `t` lists `b` as a neighbor, `b` lists `t`.
pub proof fn lemma_neighbors_valid_and_symmetric(m: TriangularMesh)
    requires
        well_formed(m),
    ensures
        forall|t: int, k: int|
            0 <= t < m.triangles@.len() && 0 <= k < 3 ==> match #[trigger] m.triangles@[t].neighbors[k] {
                Option::Some(b) => (b as int) < m.triangles@.len() && b as int != t,
                Option::None => true,
            },
        forall|t: int, k: int|
            0 <= t < m.triangles@.len() && 0 <= k < 3 && #[trigger] m.triangles@[t].neighbors[k] is Some
                ==> exists|k2: int|
                {
                    &&& 0 <= k2 < 3
                    &&& #[trigger] m.triangles@[m.triangles@[t].neighbors[k]->0 as int].neighbors[k2]
                        == Option::Some(t as usize)
                },
{
    let tris = m.triangles@;
    assert forall|t: int, k: int|
        0 <= t < tris.len() && 0 <= k < 3 implies match #[trigger] tris[t].neighbors[k] {
        Option::Some(b) => (b as int) < tris.len() && b as int != t,
        Option::None => true,
    } by {
        assert(slot_ok(tris, t, k, tris.len() as int, tris.len() as int + 1));
    }
    assert forall|t: int, k: int|
        0 <= t < tris.len() && 0 <= k < 3 && #[trigger] tris[t].neighbors[k] is Some implies exists|
        k2: int,
    |
        {
            &&& 0 <= k2 < 3
            &&& #[trigger] tris[tris[t].neighbors[k]->0 as int].neighbors[k2] == Option::Some(
                t as usize,
            )
        } by {
        let b = tris[t].neighbors[k]->0 as int;
        assert(slot_ok(tris, t, k, tris.len() as int, tris.len() as int + 1));
        lemma_shared_symmetric(tris[t], tris[b]);
        assert(pair_recorded(tris, b, t));
        let k2 = first_edge_slot(tris[b], tris[t]);
        assert(0 <= k2 < 3);
        assert(tris[b].neighbors[k2] == Option::Some(t as usize));
    }
}

/// Structural validity of one entry of the edge list, relative to its
/// mesh: the owning (left) triangle index is in range; the right triangle,
/// when present, is a distinct in-range triangle with a larger index; both
/// endpoints are in-range node indices; and the endpoints differ.
pub open spec fn edge_valid(m: TriangularMesh, e: Edge) -> bool {
    &&& (e.left_triangle as int) < m.triangles@.len()
    &&& match e.right_triangle {
        Option::Some(b) => (b as int) < m.triangles@.len() && (b as int) > e.left_triangle as int,
        Option::None => true,
    }
    &&& (e.node_a as int) < spec_node_count(m.nx as int, m.ny as int)
    &&& (e.node_b as int) < spec_node_count(m.nx as int, m.ny as int)
    &&& e.node_a != e.node_b
}

/// Every entry of the edge list is structurally valid: in-range left and
/// right triangle references with left smaller than right, and two
/// distinct in-range endpoint nodes (so no edge collapses to a point).
pub proof fn lemma_edges_valid(m: TriangularMesh)
    requires
        well_formed(m),
    ensures
        forall|idx: int|
            0 <= idx < m.edges@.len() ==> edge_valid(m, #[trigger] m.edges@[idx]),
{
    let tris = m.triangles@;
    let nx = m.nx as int;
    let ny = m.ny as int;
    lemma_edges_membership(tris, tris.len() as int);
    assert forall|idx: int|
        0 <= idx < m.edges@.len() implies edge_valid(m, #[trigger] m.edges@[idx]) by {
        let e = m.edges@[idx];
        assert(edge_wf(tris, e));
        let (t, k) = choose|t: int, k: int| is_local_edge_of(tris, e, t, k);
        assert(slot_ok(tris, t, k, tris.len() as int, tris.len() as int + 1));
        let k2 = (k + 1) % 3;
        assert(0 <= k2 < 3);
        lemma_grid_tri_node_in_range(t, k, nx, ny);
        lemma_grid_tri_node_in_range(t, k2, nx, ny);
        lemma_grid_tri_nodes_distinct(t, nx, ny);
        assert(e.node_a == tris[t].nodes[k] && e.node_b == tris[t].nodes[k2]);
    }
}

/// The lattice displacement from `node_a` to `node_b` of edge `e` is one
/// of the six oriented single steps of the triangulation.
pub open spec fn edge_unit_step(m: TriangularMesh, e: Edge) -> bool {
    let nx = m.nx as int;
    let di = node_lattice_i(e.node_b as int, nx) - node_lattice_i(e.node_a as int, nx);
    let dj = node_lattice_j(e.node_b as int, nx) - node_lattice_j(e.node_a as int, nx);
    ||| (di == 1 && dj == 0)
    ||| (di == -1 && dj == 0)
    ||| (di == 0 && dj == 1)
    ||| (di == 0 && dj == -1)
    ||| (di == 1 && dj == -1)
    ||| (di == -1 && dj == 1)
}

/// Every edge of the mesh spans exactly one lattice step. With positive
/// physical spacings this is the discrete form of "every edge has
/// positive length and a well-defined unit normal": the physical edge
/// vector is the step scaled by the spacings, never zero, and the normal
/// is its quarter-turn.
pub proof fn lemma_edges_unit_step(m: TriangularMesh)
    requires
        well_formed(m),
    ensures
        forall|idx: int|
            0 <= idx < m.edges@.len() ==> edge_unit_step(m, #[trigger] m.edges@[idx]),
{
    let tris = m.triangles@;
    let nx = m.nx as int;
    let ny = m.ny as int;
    lemma_edges_membership(tris, tris.len() as int);
    assert forall|idx: int|
        0 <= idx < m.edges@.len() implies edge_unit_step(m, #[trigger] m.edges@[idx]) by {
        let e = m.edges@[idx];
        assert(edge_wf(tris, e));
        let (t, k) = choose|t: int, k: int| is_local_edge_of(tris, e, t, k);
        let k2 = (k + 1) % 3;
        assert(0 <= k2 < 3);
        lemma_grid_tri_node_in_range(t, k, nx, ny);
        lemma_grid_tri_node_in_range(t, k2, nx, ny);
        lemma_grid_edge_step(t, k, nx, ny);
        assert(e.node_a == tris[t].nodes[k] && e.node_b == tris[t].nodes[k2]);
    }
}

/// Edge `e` joins the unordered node pair `{a, b}`.
pub open spec fn edge_covers(e: Edge, a: usize, b: usize) -> bool {
    ||| (e.node_a == a && e.node_b == b)
    ||| (e.node_a == b && e.node_b == a)
}

/// The edge list stores each unordered node pair at most once: two
/// distinct entries always join distinct pairs.
pub proof fn lemma_edge_pairs_unique(m: TriangularMesh, i1: int, i2: int)
    requires
        well_formed(m),
        0 <= i1 < m.edges@.len(),
        0 <= i2 < m.edges@.len(),
        i1 != i2,
    ensures
        !edge_covers(m.edges@[i1], m.edges@[i2].node_a, m.edges@[i2].node_b),
{
    let tris = m.triangles@;
    let g = spec_grid_triangles(m.nx as int, m.ny as int);
    let nx = m.nx as int;
    let ny = m.ny as int;
    let e1 = m.edges@[i1];
    let e2 = m.edges@[i2];
    lemma_edges_indexed(tris, tris.len() as int);
    assert(indexed_edge_wf(tris, i1));
    assert(indexed_edge_wf(tris, i2));
    let (t1, k1) = choose|a: int, k: int| edge_at(tris, i1, a, k);
    let (t2, k2) = choose|a: int, k: int| edge_at(tris, i2, a, k);
    lemma_grid_tri_nodes_distinct(t1, nx, ny);
    lemma_grid_tri_nodes_distinct(t2, nx, ny);
    let a1 = tris[t1].nodes[k1] as int;
    let b1 = tris[t1].nodes[(k1 + 1) % 3] as int;
    let a2 = tris[t2].nodes[k2] as int;
    let b2 = tris[t2].nodes[(k2 + 1) % 3] as int;
    assert(e1.node_a == a1 && e1.node_b == b1);
    assert(e2.node_a == a2 && e2.node_b == b2);
    if (a1 == a2 && b1 == b2) || (a1 == b2 && b1 == a2) {
        assert(!(t1 == t2 && k1 == k2));
        if t1 == t2 {
            // Two different local edges of one triangle with pairwise
            // distinct nodes never join the same pair.
            assert(false);
        } else {
            assert(tri_contains_node(tris[t1], a1) && tri_contains_node(tris[t1], b1));
            assert(tri_contains_node(tris[t2], a1) && tri_contains_node(tris[t2], b1));
            assert(a1 != b1);
            lemma_shared_count_bounds(tris[t1], tris[t2], a1, b1);
            if shared_node_count(tris[t1], tris[t2]) == 3 {
                lemma_three_shared_all(tris[t1], tris[t2]);
                let n0 = tris[t1].nodes[0] as int;
                let n1 = tris[t1].nodes[1] as int;
                let n2 = tris[t1].nodes[2] as int;
                assert(tri_contains_node(g[t1], n0) && tri_contains_node(g[t2], n0));
                assert(tri_contains_node(g[t1], n1) && tri_contains_node(g[t2], n1));
                assert(tri_contains_node(g[t1], n2) && tri_contains_node(g[t2], n2));
                lemma_member_coords(nx, ny, t1, n0);
                lemma_member_coords(nx, ny, t1, n1);
                lemma_member_coords(nx, ny, t1, n2);
                lemma_member_coords(nx, ny, t2, n0);
                lemma_member_coords(nx, ny, t2, n1);
                lemma_member_coords(nx, ny, t2, n2);
                assert(!(n0 % nx == n1 % nx && n0 / nx == n1 / nx)
                    && !(n1 % nx == n2 % nx && n1 / nx == n2 / nx)
                    && !(n2 % nx == n0 % nx && n2 / nx == n0 / nx)) by {
                    lemma_fundamental_div_mod(n0, nx);
                    lemma_fundamental_div_mod(n1, nx);
                    lemma_fundamental_div_mod(n2, nx);
                };
                lemma_same_points_same_cell(
                    n0 % nx,
                    n0 / nx,
                    n1 % nx,
                    n1 / nx,
                    n2 % nx,
                    n2 / nx,
                    grid_cell_i(t1, nx),
                    grid_cell_j(t1, nx),
                    t1 % 2,
                    grid_cell_i(t2, nx),
                    grid_cell_j(t2, nx),
                    t2 % 2,
                );
                lemma_tri_index_determined(nx, ny, t1, t2);
                assert(false);
            } else {
                lemma_two_shared_edge_slot(tris[t1], tris[t2]);
                lemma_shared_symmetric(tris[t1], tris[t2]);
                lemma_two_shared_edge_slot(tris[t2], tris[t1]);
                assert(edge_in(tris[t1], k1, tris[t2]));
                assert(k1 == first_edge_slot(tris[t1], tris[t2]));
                assert(edge_in(tris[t2], k2, tris[t1]));
                assert(k2 == first_edge_slot(tris[t2], tris[t1]));
                assert(pair_recorded(tris, t1, t2));
                assert(tris[t1].neighbors[k1] == Option::Some(t2 as usize));
                assert(t2 > t1);
                assert(tris[t2].neighbors[k2] == Option::Some(t1 as usize));
                assert(t1 > t2);
                assert(false);
            }
        }
    }
}

/// Every local edge of every triangle is joined by some entry of the edge
/// list. Together with `lemma_edge_pairs_unique`, the edge list stores
/// each geometric edge exactly once.
pub proof fn lemma_edge_list_covers(m: TriangularMesh, t: int, k: int)
    requires
        well_formed(m),
        0 <= t < m.triangles@.len(),
        0 <= k < 3,
    ensures
        exists|idx: int|
            0 <= idx < m.edges@.len() && edge_covers(
                #[trigger] m.edges@[idx],
                m.triangles@[t].nodes[k],
                m.triangles@[t].nodes[(k + 1) % 3],
            ),
{
    let tris = m.triangles@;
    let nx = m.nx as int;
    let ny = m.ny as int;
    let pa = tris[t].nodes[k];
    let pb = tris[t].nodes[(k + 1) % 3];
    if emit_edge(tris, t, k) {
        lemma_edge_listed(tris, t, k);
        let idx = edge_pos(tris, t, k);
        assert(0 <= idx < m.edges@.len() && edge_covers(m.edges@[idx], pa, pb));
    } else {
        assert(slot_ok(tris, t, k, tris.len() as int, tris.len() as int + 1));
        let b = tris[t].neighbors[k]->0 as int;
        assert(0 <= b < tris.len() && b < t);
        lemma_grid_tri_nodes_distinct(t, nx, ny);
        lemma_grid_tri_nodes_distinct(b, nx, ny);
        lemma_two_shared_edge_slot(tris[t], tris[b]);
        lemma_shared_symmetric(tris[t], tris[b]);
        lemma_two_shared_edge_slot(tris[b], tris[t]);
        assert(edge_in(tris[t], k, tris[b]));
        let kb = first_edge_slot(tris[b], tris[t]);
        assert(0 <= kb < 3);
        assert(edge_in(tris[b], kb, tris[t]));
        assert(pair_recorded(tris, b, t));
        assert(tris[b].neighbors[kb] == Option::Some(t as usize));
        assert(emit_edge(tris, b, kb));
        lemma_edge_listed(tris, b, kb);
        let idx = edge_pos(tris, b, kb);
        let e = m.edges@[idx];
        assert(e == local_edge(tris, b, kb));
        lemma_common_pair_unique(
            tris[t],
            tris[b],
            pa as int,
            pb as int,
            tris[b].nodes[kb] as int,
            tris[b].nodes[(kb + 1) % 3] as int,
        );
        assert(0 <= idx < m.edges@.len() && edge_covers(m.edges@[idx], pa, pb));
    }
}

/// Every triangle of the mesh winds counter-clockwise with doubled
/// lattice area exactly one. On a lattice with positive physical spacings
/// this is the discrete form of "every triangle has positive area": the
/// physical area is half the spacing product times this value.
pub proof fn lemma_triangles_ccw(m: TriangularMesh)
    requires
        well_formed(m),
    ensures
        forall|t: int|
            0 <= t < m.triangles@.len() ==> #[trigger] grid_tri_doubled_area(t, m.nx as int)
                == 1,
{
    assert forall|t: int|
        0 <= t < m.triangles@.len() implies #[trigger] grid_tri_doubled_area(t, m.nx as int)
        == 1 by {
        lemma_grid_triangle_ccw(t, m.nx as int, m.ny as int);
    }
}

} // verus!
