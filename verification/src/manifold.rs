//! The grid triangulation is edge-manifold.
//!
//! Every unordered pair of lattice points is an edge of at most two grid
//! triangles, so reciprocal neighbor recording can never claim one local
//! edge twice. Hence building the neighbor adjacency of a grid
//! triangulation always succeeds.

use vstd::prelude::*;
use vstd::arithmetic::div_mod::lemma_fundamental_div_mod;
use vstd::arithmetic::div_mod::lemma_fundamental_div_mod_converse;
use crate::grid::grid_cell_i;
use crate::grid::grid_cell_j;
use crate::grid::grid_tri_node;
use crate::grid::lemma_grid_tri_node_in_range;
use crate::grid::lemma_grid_tri_nodes_distinct;
use crate::grid::spec_node_count;
use crate::grid::spec_triangle_count;
use crate::neighbors::lemma_two_shared_edge_slot;
use crate::neighbors::first_edge_slot;
use crate::neighbors::neighbor_conflict;
use crate::neighbors::shared_node_count;
use crate::neighbors::tri_contains_node;
use crate::mesh::spec_grid_triangles;

verus! {

/// The lattice point `(px, py)` is a corner of the lower (`kind == 0`) or
/// upper (`kind == 1`) triangle of cell `(ci, cj)`.
pub open spec fn point_in_cell_triangle(px: int, py: int, ci: int, cj: int, kind: int) -> bool {
    if kind == 0 {
        ||| (px == ci && py == cj)
        ||| (px == ci + 1 && py == cj)
        ||| (px == ci && py == cj + 1)
    } else {
        ||| (px == ci + 1 && py == cj)
        ||| (px == ci + 1 && py == cj + 1)
        ||| (px == ci && py == cj + 1)
    }
}

/// Any node of a grid triangle decodes to a corner of that triangle's
/// cell.
pub proof fn lemma_member_coords(nx: int, ny: int, x: int, n: int)
    requires
        2 <= nx,
        2 <= ny,
        0 <= x < spec_triangle_count(nx, ny),
        spec_node_count(nx, ny) <= usize::MAX as int,
        tri_contains_node(spec_grid_triangles(nx, ny)[x], n),
    ensures
        point_in_cell_triangle(n % nx, n / nx, grid_cell_i(x, nx), grid_cell_j(x, nx), x % 2),
{
    let c = x / 2;
    assert(0 <= c < (nx - 1) * (ny - 1)) by (nonlinear_arith)
        requires
            0 <= x < 2 * ((nx - 1) * (ny - 1)),
            c == x / 2,
    ;
    let ci = grid_cell_i(x, nx);
    let cj = grid_cell_j(x, nx);
    assert(0 <= ci < nx - 1 && 0 <= cj < ny - 1) by (nonlinear_arith)
        requires
            2 <= nx,
            2 <= ny,
            0 <= c < (nx - 1) * (ny - 1),
            ci == c % (nx - 1),
            cj == c / (nx - 1),
    ;
    lemma_grid_tri_node_in_range(x, 0, nx, ny);
    lemma_grid_tri_node_in_range(x, 1, nx, ny);
    lemma_grid_tri_node_in_range(x, 2, nx, ny);
    lemma_fundamental_div_mod_converse(cj * nx + ci, nx, cj, ci);
    lemma_fundamental_div_mod_converse(cj * nx + (ci + 1), nx, cj, ci + 1);
    lemma_fundamental_div_mod_converse((cj + 1) * nx + ci, nx, cj + 1, ci);
    lemma_fundamental_div_mod_converse((cj + 1) * nx + (ci + 1), nx, cj + 1, ci + 1);
    assert(n == grid_tri_node(x, 0, nx) || n == grid_tri_node(x, 1, nx) || n == grid_tri_node(
        x,
        2,
        nx,
    ));
}

/// Two distinct lattice points are corners of at most two of the grid's
/// cell triangles: among any three (cell, kind) triangles containing both
/// points, two coincide.
proof fn lemma_pair_in_two_cells(
    pnx: int,
    pny: int,
    pmx: int,
    pmy: int,
    aci: int,
    acj: int,
    ak: int,
    bci: int,
    bcj: int,
    bk: int,
    cci: int,
    ccj: int,
    ck: int,
)
    requires
        !(pnx == pmx && pny == pmy),
        ak == 0 || ak == 1,
        bk == 0 || bk == 1,
        ck == 0 || ck == 1,
        point_in_cell_triangle(pnx, pny, aci, acj, ak),
        point_in_cell_triangle(pmx, pmy, aci, acj, ak),
        point_in_cell_triangle(pnx, pny, bci, bcj, bk),
        point_in_cell_triangle(pmx, pmy, bci, bcj, bk),
        point_in_cell_triangle(pnx, pny, cci, ccj, ck),
        point_in_cell_triangle(pmx, pmy, cci, ccj, ck),
    ensures
        (aci == bci && acj == bcj && ak == bk) || (aci == cci && acj == ccj && ak == ck) || (bci
            == cci && bcj == ccj && bk == ck),
{
}

/// A grid triangle index is determined by its cell coordinates and kind.
pub proof fn lemma_tri_index_determined(nx: int, ny: int, x: int, y: int)
    requires
        2 <= nx,
        0 <= x,
        0 <= y,
        grid_cell_i(x, nx) == grid_cell_i(y, nx),
        grid_cell_j(x, nx) == grid_cell_j(y, nx),
        x % 2 == y % 2,
    ensures
        x == y,
{
    lemma_fundamental_div_mod(x, 2);
    lemma_fundamental_div_mod(y, 2);
    lemma_fundamental_div_mod(x / 2, nx - 1);
    lemma_fundamental_div_mod(y / 2, nx - 1);
}

/// The grid triangulation is edge-manifold: no triangle's local edge is
/// claimed by two distinct partner triangles, so neighbor detection never
/// meets an occupied slot.
pub proof fn lemma_grid_no_conflict(nx: int, ny: int)
    requires
        2 <= nx,
        2 <= ny,
        spec_node_count(nx, ny) <= usize::MAX as int,
    ensures
        !neighbor_conflict(spec_grid_triangles(nx, ny)),
{
    let g = spec_grid_triangles(nx, ny);
    if neighbor_conflict(g) {
        let (a, b, c) = choose|a: int, b: int, c: int|
            {
                &&& 0 <= a < g.len()
                &&& 0 <= b < g.len()
                &&& 0 <= c < g.len()
                &&& a != b
                &&& a != c
                &&& b != c
                &&& #[trigger] shared_node_count(g[a], g[b]) == 2
                &&& #[trigger] shared_node_count(g[a], g[c]) == 2
                &&& first_edge_slot(g[a], g[b]) == first_edge_slot(g[a], g[c])
            };
        lemma_grid_tri_nodes_distinct(a, nx, ny);
        lemma_grid_tri_nodes_distinct(b, nx, ny);
        lemma_grid_tri_nodes_distinct(c, nx, ny);
        lemma_grid_tri_node_in_range(a, 0, nx, ny);
        lemma_grid_tri_node_in_range(a, 1, nx, ny);
        lemma_grid_tri_node_in_range(a, 2, nx, ny);
        lemma_grid_tri_node_in_range(b, 0, nx, ny);
        lemma_grid_tri_node_in_range(b, 1, nx, ny);
        lemma_grid_tri_node_in_range(b, 2, nx, ny);
        lemma_grid_tri_node_in_range(c, 0, nx, ny);
        lemma_grid_tri_node_in_range(c, 1, nx, ny);
        lemma_grid_tri_node_in_range(c, 2, nx, ny);
        lemma_two_shared_edge_slot(g[a], g[b]);
        lemma_two_shared_edge_slot(g[a], g[c]);
        let k = first_edge_slot(g[a], g[b]);
        let k1 = (k + 1) % 3;
        let n = g[a].nodes[k] as int;
        let m = g[a].nodes[k1] as int;
        assert(n != m);
        assert(tri_contains_node(g[a], n) && tri_contains_node(g[a], m));
        assert(tri_contains_node(g[b], n) && tri_contains_node(g[b], m));
        assert(tri_contains_node(g[c], n) && tri_contains_node(g[c], m));
        lemma_member_coords(nx, ny, a, n);
        lemma_member_coords(nx, ny, a, m);
        lemma_member_coords(nx, ny, b, n);
        lemma_member_coords(nx, ny, b, m);
        lemma_member_coords(nx, ny, c, n);
        lemma_member_coords(nx, ny, c, m);
        assert(!(n % nx == m % nx && n / nx == m / nx)) by {
            lemma_fundamental_div_mod(n, nx);
            lemma_fundamental_div_mod(m, nx);
        };
        if grid_cell_i(a, nx) == grid_cell_i(b, nx) && grid_cell_j(a, nx) == grid_cell_j(b, nx)
            && a % 2 == b % 2 {
            lemma_tri_index_determined(nx, ny, a, b);
        }
        if grid_cell_i(a, nx) == grid_cell_i(c, nx) && grid_cell_j(a, nx) == grid_cell_j(c, nx)
            && a % 2 == c % 2 {
            lemma_tri_index_determined(nx, ny, a, c);
        }
        if grid_cell_i(b, nx) == grid_cell_i(c, nx) && grid_cell_j(b, nx) == grid_cell_j(c, nx)
            && b % 2 == c % 2 {
            lemma_tri_index_determined(nx, ny, b, c);
        }
        lemma_pair_in_two_cells(
            n % nx,
            n / nx,
            m % nx,
            m / nx,
            grid_cell_i(a, nx),
            grid_cell_j(a, nx),
            a % 2,
            grid_cell_i(b, nx),
            grid_cell_j(b, nx),
            b % 2,
            grid_cell_i(c, nx),
            grid_cell_j(c, nx),
            c % 2,
        );
    }
}

/// Three pairwise distinct lattice points contained in two cell triangles
/// force the triangles to coincide: a three-point set determines its cell
/// and kind.
pub proof fn lemma_same_points_same_cell(
    p0x: int,
    p0y: int,
    p1x: int,
    p1y: int,
    p2x: int,
    p2y: int,
    ci1: int,
    cj1: int,
    k1: int,
    ci2: int,
    cj2: int,
    k2: int,
)
    requires
        k1 == 0 || k1 == 1,
        k2 == 0 || k2 == 1,
        !(p0x == p1x && p0y == p1y),
        !(p1x == p2x && p1y == p2y),
        !(p2x == p0x && p2y == p0y),
        point_in_cell_triangle(p0x, p0y, ci1, cj1, k1),
        point_in_cell_triangle(p1x, p1y, ci1, cj1, k1),
        point_in_cell_triangle(p2x, p2y, ci1, cj1, k1),
        point_in_cell_triangle(p0x, p0y, ci2, cj2, k2),
        point_in_cell_triangle(p1x, p1y, ci2, cj2, k2),
        point_in_cell_triangle(p2x, p2y, ci2, cj2, k2),
    ensures
        ci1 == ci2,
        cj1 == cj2,
        k1 == k2,
{
}

} // verus!
