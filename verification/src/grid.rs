//! The structured triangulation of a rectangular grid.
//!
//! Nodes sit on an `nx` by `ny` lattice and are numbered row-major:
//! node `(i, j)` has index `j * nx + i`. Each of the `(nx-1) * (ny-1)`
//! cells is split along its diagonal into a lower and an upper triangle,
//! both with counter-clockwise node ordering.

use vstd::prelude::*;
use vstd::arithmetic::div_mod::lemma_fundamental_div_mod_converse;

verus! {

/// One triangle of the mesh: its dense index, its three node indices in
/// counter-clockwise order, and one optional neighbor triangle per local
/// edge (`None` on a domain boundary).
#[derive(Clone, Copy, Debug)]
pub struct Triangle {
    pub id: usize,
    pub nodes: [usize; 3],
    pub neighbors: [Option<usize>; 3],
}

/// Number of lattice nodes of an `nx` by `ny` grid.
pub open spec fn spec_node_count(nx: int, ny: int) -> int {
    nx * ny
}

/// Number of triangles of the grid triangulation.
pub open spec fn spec_triangle_count(nx: int, ny: int) -> int {
    2 * ((nx - 1) * (ny - 1))
}

/// Row-major index of lattice node `(i, j)`.
pub open spec fn spec_node_id(i: int, j: int, nx: int) -> int {
    j * nx + i
}

/// Lattice column of a node index.
pub open spec fn node_lattice_i(n: int, nx: int) -> int {
    n % nx
}

/// Lattice row of a node index.
pub open spec fn node_lattice_j(n: int, nx: int) -> int {
    n / nx
}

/// Column of the cell that triangle `t` belongs to (two triangles per cell).
pub open spec fn grid_cell_i(t: int, nx: int) -> int {
    (t / 2) % (nx - 1)
}

/// Row of the cell that triangle `t` belongs to.
pub open spec fn grid_cell_j(t: int, nx: int) -> int {
    (t / 2) / (nx - 1)
}

/// The `k`-th node (counter-clockwise, `0 <= k < 3`) of triangle `t` in the
/// grid triangulation. Even `t` is the lower triangle of its cell, odd `t`
/// the upper one.
pub open spec fn grid_tri_node(t: int, k: int, nx: int) -> int {
    let ci = grid_cell_i(t, nx);
    let cj = grid_cell_j(t, nx);
    if t % 2 == 0 {
        if k == 0 {
            spec_node_id(ci, cj, nx)
        } else if k == 1 {
            spec_node_id(ci + 1, cj, nx)
        } else {
            spec_node_id(ci, cj + 1, nx)
        }
    } else {
        if k == 0 {
            spec_node_id(ci + 1, cj, nx)
        } else if k == 1 {
            spec_node_id(ci + 1, cj + 1, nx)
        } else {
            spec_node_id(ci, cj + 1, nx)
        }
    }
}

/// Triangle `tri` carries exactly the id and node indices that the grid
/// triangulation assigns to triangle index `t`.
pub open spec fn is_grid_triangle(tri: Triangle, t: int, nx: int) -> bool {
    &&& tri.id == t
    &&& tri.nodes[0] == grid_tri_node(t, 0, nx)
    &&& tri.nodes[1] == grid_tri_node(t, 1, nx)
    &&& tri.nodes[2] == grid_tri_node(t, 2, nx)
}

/// All three neighbor slots of `tri` are unset.
pub open spec fn neighbors_unset(tri: Triangle) -> bool {
    &&& tri.neighbors[0] is None
    &&& tri.neighbors[1] is None
    &&& tri.neighbors[2] is None
}

/// Lay out the triangles of the grid triangulation, two per cell, in
/// row-major cell order, with neighbor slots still unset.
pub fn build_triangles(nx: usize, ny: usize) -> (tris: Vec<Triangle>)
    requires
        2 <= nx,
        2 <= ny,
        spec_node_count(nx as int, ny as int) <= usize::MAX as int,
        spec_triangle_count(nx as int, ny as int) <= usize::MAX as int,
    ensures
        tris@.len() == spec_triangle_count(nx as int, ny as int),
        forall|t: int|
            0 <= t < tris@.len() ==> is_grid_triangle(#[trigger] tris@[t], t, nx as int),
        forall|t: int| 0 <= t < tris@.len() ==> neighbors_unset(#[trigger] tris@[t]),
{
    let mut tris: Vec<Triangle> = Vec::new();
    let mut j: usize = 0;
    while j < ny - 1
        invariant
            2 <= nx,
            2 <= ny,
            j <= ny - 1,
            spec_node_count(nx as int, ny as int) <= usize::MAX as int,
            spec_triangle_count(nx as int, ny as int) <= usize::MAX as int,
            tris@.len() == 2 * (j * (nx - 1)),
            forall|t: int|
                0 <= t < tris@.len() ==> is_grid_triangle(#[trigger] tris@[t], t, nx as int),
            forall|t: int| 0 <= t < tris@.len() ==> neighbors_unset(#[trigger] tris@[t]),
        decreases ny - 1 - j,
    {
        let mut i: usize = 0;
        while i < nx - 1
            invariant
                2 <= nx,
                2 <= ny,
                j < ny - 1,
                i <= nx - 1,
                spec_node_count(nx as int, ny as int) <= usize::MAX as int,
                spec_triangle_count(nx as int, ny as int) <= usize::MAX as int,
                tris@.len() == 2 * (j * (nx - 1) + i),
                forall|t: int|
                    0 <= t < tris@.len() ==> is_grid_triangle(#[trigger] tris@[t], t, nx as int),
                forall|t: int| 0 <= t < tris@.len() ==> neighbors_unset(#[trigger] tris@[t]),
            decreases nx - 1 - i,
        {
            proof {
                lemma_cell_bounds(nx as int, ny as int, i as int, j as int);
            }
            let n0: usize = j * nx + i;
            let n1: usize = n0 + 1;
            let n2: usize = (j + 1) * nx + i;
            let n3: usize = n2 + 1;
            let t: usize = tris.len();
            proof {
                let c = j * (nx - 1) + i;
                lemma_fundamental_div_mod_converse(t as int, 2, c as int, 0);
                lemma_fundamental_div_mod_converse(t as int + 1, 2, c as int, 1);
                lemma_fundamental_div_mod_converse(c as int, nx as int - 1, j as int, i as int);
            }
            tris.push(
                Triangle { id: t, nodes: [n0, n1, n2], neighbors: [None, None, None] },
            );
            tris.push(
                Triangle { id: t + 1, nodes: [n1, n3, n2], neighbors: [None, None, None] },
            );
            i = i + 1;
        }
        proof {
            assert(2 * (j * (nx - 1) + (nx - 1)) == 2 * ((j + 1) * (nx - 1)))
                by (nonlinear_arith);
        }
        j = j + 1;
    }
    proof {
        assert(2 * ((ny - 1) * (nx - 1)) == 2 * ((nx - 1) * (ny - 1))) by (nonlinear_arith);
    }
    tris
}

/// Bounds used while laying out the two triangles of cell `(i, j)`: the
/// cell's running index and all four corner node indices stay in range.
proof fn lemma_cell_bounds(nx: int, ny: int, i: int, j: int)
    requires
        2 <= nx,
        2 <= ny,
        0 <= i < nx - 1,
        0 <= j < ny - 1,
    ensures
        0 <= j * (nx - 1) + i < (nx - 1) * (ny - 1),
        2 * (j * (nx - 1) + i) + 2 <= 2 * ((nx - 1) * (ny - 1)),
        0 <= j * nx + i,
        j * nx + i + 1 <= nx * ny - 1,
        (j + 1) * nx + i + 1 <= nx * ny - 1,
{
    assert(j * (nx - 1) + i < (nx - 1) * (ny - 1)) by (nonlinear_arith)
        requires
            2 <= nx,
            0 <= i < nx - 1,
            0 <= j < ny - 1,
    ;
    assert(j * nx + i + 1 <= nx * ny - 1 && (j + 1) * nx + i + 1 <= nx * ny - 1)
        by (nonlinear_arith)
        requires
            2 <= nx,
            0 <= i < nx - 1,
            0 <= j < ny - 1,
    ;
    assert(0 <= j * nx + i) by (nonlinear_arith)
        requires
            0 <= i,
            0 <= j,
            2 <= nx,
    ;
}

/// Every node index assigned by the grid triangulation is in range: at
/// least 0 and less than the node count.
pub proof fn lemma_grid_tri_node_in_range(t: int, k: int, nx: int, ny: int)
    requires
        2 <= nx,
        2 <= ny,
        0 <= t < spec_triangle_count(nx, ny),
        0 <= k < 3,
    ensures
        0 <= grid_tri_node(t, k, nx) < spec_node_count(nx, ny),
{
    let c = t / 2;
    assert(0 <= c < (nx - 1) * (ny - 1)) by (nonlinear_arith)
        requires
            0 <= t < 2 * ((nx - 1) * (ny - 1)),
            c == t / 2,
    ;
    let ci = grid_cell_i(t, nx);
    let cj = grid_cell_j(t, nx);
    assert(0 <= ci < nx - 1 && 0 <= cj < ny - 1) by (nonlinear_arith)
        requires
            2 <= nx,
            2 <= ny,
            0 <= c < (nx - 1) * (ny - 1),
            ci == c % (nx - 1),
            cj == c / (nx - 1),
    ;
    assert(cj * nx + ci + 1 <= nx * ny - 1 && (cj + 1) * nx + ci + 1 <= nx * ny - 1)
        by (nonlinear_arith)
        requires
            2 <= nx,
            2 <= ny,
            0 <= ci < nx - 1,
            0 <= cj < ny - 1,
    ;
    assert(0 <= cj * nx + ci) by (nonlinear_arith)
        requires
            0 <= ci,
            0 <= cj,
            2 <= nx,
    ;
}

/// Twice the signed area of triangle `t` measured in lattice units: the
/// cross product of its two edge vectors after decoding each node index
/// into lattice coordinates.
pub open spec fn grid_tri_doubled_area(t: int, nx: int) -> int {
    let x0 = node_lattice_i(grid_tri_node(t, 0, nx), nx);
    let y0 = node_lattice_j(grid_tri_node(t, 0, nx), nx);
    let x1 = node_lattice_i(grid_tri_node(t, 1, nx), nx);
    let y1 = node_lattice_j(grid_tri_node(t, 1, nx), nx);
    let x2 = node_lattice_i(grid_tri_node(t, 2, nx), nx);
    let y2 = node_lattice_j(grid_tri_node(t, 2, nx), nx);
    (x1 - x0) * (y2 - y0) - (x2 - x0) * (y1 - y0)
}

/// Every triangle of the grid triangulation winds counter-clockwise with
/// doubled lattice area exactly one. On a lattice with positive physical
/// spacings this is the discrete form of "every triangle has positive
/// area": the physical area is half the spacing product times this value.
pub proof fn lemma_grid_triangle_ccw(t: int, nx: int, ny: int)
    requires
        2 <= nx,
        2 <= ny,
        0 <= t < spec_triangle_count(nx, ny),
    ensures
        grid_tri_doubled_area(t, nx) == 1,
{
    let c = t / 2;
    assert(0 <= c < (nx - 1) * (ny - 1)) by (nonlinear_arith)
        requires
            0 <= t < 2 * ((nx - 1) * (ny - 1)),
            c == t / 2,
    ;
    let ci = grid_cell_i(t, nx);
    let cj = grid_cell_j(t, nx);
    assert(0 <= ci < nx - 1 && 0 <= cj < ny - 1) by (nonlinear_arith)
        requires
            2 <= nx,
            2 <= ny,
            0 <= c < (nx - 1) * (ny - 1),
            ci == c % (nx - 1),
            cj == c / (nx - 1),
    ;
    lemma_fundamental_div_mod_converse(cj * nx + ci, nx, cj, ci);
    lemma_fundamental_div_mod_converse(cj * nx + (ci + 1), nx, cj, ci + 1);
    lemma_fundamental_div_mod_converse((cj + 1) * nx + ci, nx, cj + 1, ci);
    lemma_fundamental_div_mod_converse((cj + 1) * nx + (ci + 1), nx, cj + 1, ci + 1);
    let x0 = node_lattice_i(grid_tri_node(t, 0, nx), nx);
    let y0 = node_lattice_j(grid_tri_node(t, 0, nx), nx);
    let x1 = node_lattice_i(grid_tri_node(t, 1, nx), nx);
    let y1 = node_lattice_j(grid_tri_node(t, 1, nx), nx);
    let x2 = node_lattice_i(grid_tri_node(t, 2, nx), nx);
    let y2 = node_lattice_j(grid_tri_node(t, 2, nx), nx);
    if t % 2 == 0 {
        assert(x0 == ci && y0 == cj && x1 == ci + 1 && y1 == cj && x2 == ci && y2 == cj + 1);
        assert((x1 - x0) * (y2 - y0) - (x2 - x0) * (y1 - y0) == 1) by (nonlinear_arith)
            requires
                x1 - x0 == 1,
                y2 - y0 == 1,
                x2 - x0 == 0,
                y1 - y0 == 0,
        ;
    } else {
        assert(x0 == ci + 1 && y0 == cj && x1 == ci + 1 && y1 == cj + 1 && x2 == ci && y2 == cj
            + 1);
        assert((x1 - x0) * (y2 - y0) - (x2 - x0) * (y1 - y0) == 1) by (nonlinear_arith)
            requires
                x1 - x0 == 0,
                y2 - y0 == 1,
                x2 - x0 == -1,
                y1 - y0 == 1,
        ;
    }
}

/// The three node indices of every grid triangle are pairwise distinct.
/// In particular both endpoints of every local edge differ, the discrete
/// form of "every edge has positive length".
pub proof fn lemma_grid_tri_nodes_distinct(t: int, nx: int, ny: int)
    requires
        2 <= nx,
        2 <= ny,
        0 <= t < spec_triangle_count(nx, ny),
    ensures
        grid_tri_node(t, 0, nx) != grid_tri_node(t, 1, nx),
        grid_tri_node(t, 1, nx) != grid_tri_node(t, 2, nx),
        grid_tri_node(t, 2, nx) != grid_tri_node(t, 0, nx),
{
    let ci = grid_cell_i(t, nx);
    let cj = grid_cell_j(t, nx);
    assert((cj + 1) * nx == cj * nx + nx) by (nonlinear_arith);
}

/// The lattice displacement along any local edge of a grid triangle is a
/// single step: one of the six oriented steps of the triangulation
/// (horizontal, vertical, or the cell diagonal, in either direction). On
/// a lattice with positive physical spacings this is the discrete form of
/// "every edge has positive, bounded length", and the edge's normal is
/// the quarter-turn of this step.
pub proof fn lemma_grid_edge_step(t: int, k: int, nx: int, ny: int)
    requires
        2 <= nx,
        2 <= ny,
        0 <= t < spec_triangle_count(nx, ny),
        0 <= k < 3,
    ensures
        ({
            let a = grid_tri_node(t, k, nx);
            let b = grid_tri_node(t, (k + 1) % 3, nx);
            let di = node_lattice_i(b, nx) - node_lattice_i(a, nx);
            let dj = node_lattice_j(b, nx) - node_lattice_j(a, nx);
            ||| (di == 1 && dj == 0)
            ||| (di == -1 && dj == 0)
            ||| (di == 0 && dj == 1)
            ||| (di == 0 && dj == -1)
            ||| (di == 1 && dj == -1)
            ||| (di == -1 && dj == 1)
        }),
{
    let c = t / 2;
    assert(0 <= c < (nx - 1) * (ny - 1)) by (nonlinear_arith)
        requires
            0 <= t < 2 * ((nx - 1) * (ny - 1)),
            c == t / 2,
    ;
    let ci = grid_cell_i(t, nx);
    let cj = grid_cell_j(t, nx);
    assert(0 <= ci < nx - 1 && 0 <= cj < ny - 1) by (nonlinear_arith)
        requires
            2 <= nx,
            2 <= ny,
            0 <= c < (nx - 1) * (ny - 1),
            ci == c % (nx - 1),
            cj == c / (nx - 1),
    ;
    lemma_fundamental_div_mod_converse(cj * nx + ci, nx, cj, ci);
    lemma_fundamental_div_mod_converse(cj * nx + (ci + 1), nx, cj, ci + 1);
    lemma_fundamental_div_mod_converse((cj + 1) * nx + ci, nx, cj + 1, ci);
    lemma_fundamental_div_mod_converse((cj + 1) * nx + (ci + 1), nx, cj + 1, ci + 1);
}

} // verus!
