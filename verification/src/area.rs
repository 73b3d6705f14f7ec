//! Ear clipping keeps the area.
//!
//! For points on a grid of whole numbers the signed area of a polygon and of
//! a triangle are whole numbers once doubled, and can be reckoned with
//! exactly.  The law proved here does not depend on what the caller's
//! predicates answer: whatever corners are cut off, the triangles cut from a
//! ring add up to the area that the ring encloses.

use crate::triangulate::{
    after, before, clip, corner, first_ear, full_ring, is_first_ear, lemma_clip_count,
    lemma_triangulation, proper_triangle, triangulation,
};
use vstd::prelude::*;

verus! {

/// A point on the grid.
pub struct GridPoint {
    pub x: int,
    pub y: int,
}

/// Twice the signed area of the triangle from the origin to `a` to `b`.
pub open spec fn sweep2(a: GridPoint, b: GridPoint) -> int {
    a.x * b.y - b.x * a.y
}

/// Twice the signed area of the triangle `a`, `b`, `c`: positive when it
/// turns counter-clockwise.
pub open spec fn triangle_area2(a: GridPoint, b: GridPoint, c: GridPoint) -> int {
    (b.x - a.x) * (c.y - a.y) - (c.x - a.x) * (b.y - a.y)
}

/// Twice the area swept from the origin along the first `k` edges of the
/// ring, from its first vertex on.
pub open spec fn chain2(grid: Seq<GridPoint>, ring: Seq<u64>, k: int) -> int
    decreases k,
{
    if k <= 0 {
        0
    } else {
        chain2(grid, ring, k - 1) + sweep2(grid[ring[k - 1] as int], grid[ring[k] as int])
    }
}

/// Twice the signed area of the polygon whose corners are the vertices of
/// the ring, in order.
pub open spec fn polygon_area2(grid: Seq<GridPoint>, ring: Seq<u64>) -> int {
    if ring.len() == 0 {
        0
    } else {
        chain2(grid, ring, ring.len() - 1) + sweep2(
            grid[ring.last() as int],
            grid[ring[0] as int],
        )
    }
}

/// Twice the signed area of the first `count` triangles of a flat list,
/// added up.
pub open spec fn triangles_area2(grid: Seq<GridPoint>, triangles: Seq<u64>, count: int) -> int
    decreases count,
{
    if count <= 0 {
        0
    } else {
        triangles_area2(grid, triangles, count - 1) + triangle_area2(
            grid[triangles[3 * (count - 1)] as int],
            grid[triangles[3 * (count - 1) + 1] as int],
            grid[triangles[3 * (count - 1) + 2] as int],
        )
    }
}

/// The area of a triangle is what its three edges sweep, taken in turn.
pub proof fn lemma_triangle_sweeps(a: GridPoint, b: GridPoint, c: GridPoint)
    ensures
        triangle_area2(a, b, c) == sweep2(a, b) + sweep2(b, c) - sweep2(a, c),
{
    assert((b.x - a.x) * (c.y - a.y) - (c.x - a.x) * (b.y - a.y) == (a.x * b.y - b.x * a.y) + (b.x
        * c.y - c.x * b.y) - (a.x * c.y - c.x * a.y)) by (nonlinear_arith);
}

proof fn lemma_chain_same(grid: Seq<GridPoint>, a: Seq<u64>, b: Seq<u64>, k: int)
    requires
        forall|i: int| 0 <= i <= k ==> a[i] == b[i],
    ensures
        chain2(grid, a, k) == chain2(grid, b, k),
    decreases k,
{
    if k > 0 {
        lemma_chain_same(grid, a, b, k - 1);
    }
}

// The edges of `ring` from place `from` on, `count` of them, sweep what the
// edges of `other` from place `from - 1` on sweep, when `other` is `ring`
// moved down by one place there.
proof fn lemma_chain_shifted(
    grid: Seq<GridPoint>,
    ring: Seq<u64>,
    other: Seq<u64>,
    from: int,
    k: int,
)
    requires
        1 <= from <= k,
        forall|i: int| from <= i <= k ==> ring[i] == other[i - 1],
    ensures
        chain2(grid, ring, k) - chain2(grid, ring, from) == chain2(grid, other, k - 1) - chain2(
            grid,
            other,
            from - 1,
        ),
    decreases k,
{
    if k > from {
        lemma_chain_shifted(grid, ring, other, from, k - 1);
    }
}

/// Cutting the corner at place `e` off a ring of three or more vertices
/// takes the area of that corner from the area of the ring.
pub proof fn lemma_cut_area(grid: Seq<GridPoint>, ring: Seq<u64>, e: int)
    requires
        ring.len() >= 3,
        0 <= e < ring.len(),
    ensures
        polygon_area2(grid, ring) == polygon_area2(grid, ring.remove(e)) + triangle_area2(
            grid[ring[before(ring.len() as int, e)] as int],
            grid[ring[e] as int],
            grid[ring[after(ring.len() as int, e)] as int],
        ),
{
    let len = ring.len() as int;
    let cut = ring.remove(e);
    let p = grid[ring[before(len, e)] as int];
    let c = grid[ring[e] as int];
    let n = grid[ring[after(len, e)] as int];
    lemma_triangle_sweeps(p, c, n);
    assert(cut.len() == len - 1);
    if e == 0 {
        // The edges 1.., moved down by one, are the edges of the cut ring.
        lemma_chain_shifted(grid, ring, cut, 1, len - 1);
        assert(chain2(grid, ring, 0) == 0);
        assert(chain2(grid, ring, 1) == chain2(grid, ring, 0) + sweep2(
            grid[ring[0] as int],
            grid[ring[1] as int],
        ));
        assert(chain2(grid, cut, 0) == 0);
        assert(cut.last() == ring.last());
        assert(cut[0] == ring[1]);
    } else if e == len - 1 {
        lemma_chain_same(grid, ring, cut, len - 2);
        assert(chain2(grid, ring, len - 1) == chain2(grid, ring, len - 2) + sweep2(
            grid[ring[len - 2] as int],
            grid[ring[len - 1] as int],
        ));
        assert(cut.last() == ring[len - 2]);
        assert(cut[0] == ring[0]);
    } else {
        lemma_chain_same(grid, ring, cut, e - 1);
        lemma_chain_shifted(grid, ring, cut, e + 1, len - 1);
        assert(chain2(grid, ring, e + 1) == chain2(grid, ring, e) + sweep2(
            grid[ring[e] as int],
            grid[ring[e + 1] as int],
        ));
        assert(chain2(grid, ring, e) == chain2(grid, ring, e - 1) + sweep2(
            grid[ring[e - 1] as int],
            grid[ring[e] as int],
        ));
        assert(chain2(grid, cut, e) == chain2(grid, cut, e - 1) + sweep2(
            grid[cut[e - 1] as int],
            grid[cut[e] as int],
        ));
        assert(cut[e - 1] == ring[e - 1]);
        assert(cut[e] == ring[e + 1]);
        assert(cut.last() == ring.last());
        assert(cut[0] == ring[0]);
    }
}

proof fn lemma_triangles_after_first(
    grid: Seq<GridPoint>,
    first: Seq<u64>,
    rest: Seq<u64>,
    count: int,
)
    requires
        first.len() == 3,
        0 <= count,
        3 * count <= rest.len(),
    ensures
        triangles_area2(grid, first + rest, count + 1) == triangle_area2(
            grid[first[0] as int],
            grid[first[1] as int],
            grid[first[2] as int],
        ) + triangles_area2(grid, rest, count),
    decreases count,
{
    let all = first + rest;
    if count == 0 {
        assert(triangles_area2(grid, all, 0) == 0);
        assert(all[0] == first[0] && all[1] == first[1] && all[2] == first[2]);
    } else {
        lemma_triangles_after_first(grid, first, rest, count - 1);
        assert(all[3 * count] == rest[3 * (count - 1)]);
        assert(all[3 * count + 1] == rest[3 * (count - 1) + 1]);
        assert(all[3 * count + 2] == rest[3 * (count - 1) + 2]);
    }
}

/// The triangles cut from a ring enclose, between them, exactly the area
/// that the ring encloses, counted with its sign.
pub proof fn lemma_clip_keeps_area(
    grid: Seq<GridPoint>,
    ring: Seq<u64>,
    ccw: spec_fn(int, int, int) -> bool,
    inside: spec_fn(int, int, int, int) -> bool,
)
    requires
        clip(ring, ccw, inside) is Some,
    ensures
        triangles_area2(
            grid,
            clip(ring, ccw, inside).unwrap(),
            clip(ring, ccw, inside).unwrap().len() as int / 3,
        ) == polygon_area2(grid, ring),
    decreases ring.len(),
{
    let all = clip(ring, ccw, inside).unwrap();
    if ring.len() < 3 {
        assert(all.len() == 0);
        if ring.len() == 1 {
            assert(chain2(grid, ring, 0) == 0);
        } else if ring.len() == 2 {
            assert(chain2(grid, ring, 1) == chain2(grid, ring, 0) + sweep2(
                grid[ring[0] as int],
                grid[ring[1] as int],
            ));
            assert(chain2(grid, ring, 0) == 0);
        }
    } else {
        assert(first_ear(ring, ccw, inside) is Some);
        let e = first_ear(ring, ccw, inside).unwrap();
        assert(is_first_ear(ring, e, ccw, inside));
        let cut = ring.remove(e);
        let rest = clip(cut, ccw, inside).unwrap();
        let first = corner(ring, e);
        assert(all == first + rest);
        lemma_clip_keeps_area(grid, cut, ccw, inside);
        lemma_clip_count(cut, ccw, inside);
        lemma_cut_area(grid, ring, e);
        let count = rest.len() as int / 3;
        assert(all.len() == rest.len() + 3);
        assert(all.len() as int / 3 == count + 1);
        lemma_triangles_after_first(grid, first, rest, count);
    }
}

/// The triangles of a finished triangulation of `n` grid points enclose,
/// between them, exactly the area of the polygon through those points.
pub proof fn lemma_triangulation_keeps_area(
    grid: Seq<GridPoint>,
    left_of: spec_fn(int, int) -> bool,
    ccw: spec_fn(int, int, int) -> bool,
    inside: spec_fn(int, int, int, int) -> bool,
)
    requires
        grid.len() <= u64::MAX,
        triangulation(grid.len() as int, left_of, ccw, inside) is Ok,
    ensures
        triangles_area2(
            grid,
            triangulation(grid.len() as int, left_of, ccw, inside).unwrap(),
            grid.len() - 2,
        ) == polygon_area2(grid, full_ring(grid.len() as int)),
{
    let n = grid.len() as int;
    lemma_triangulation(n, left_of, ccw, inside);
    lemma_clip_keeps_area(grid, full_ring(n), ccw, inside);
}

/// The way three grid points turn, read off their exact area.
pub open spec fn grid_ccw(grid: Seq<GridPoint>) -> spec_fn(int, int, int) -> bool {
    |a: int, b: int, c: int| triangle_area2(grid[a], grid[b], grid[c]) > 0
}

/// Twice the area of the first `count` triangles of a flat list, each taken
/// without its sign, added up.
pub open spec fn triangles_size2(grid: Seq<GridPoint>, triangles: Seq<u64>, count: int) -> int
    decreases count,
{
    if count <= 0 {
        0
    } else {
        let area = triangle_area2(
            grid[triangles[3 * (count - 1)] as int],
            grid[triangles[3 * (count - 1) + 1] as int],
            grid[triangles[3 * (count - 1) + 2] as int],
        );
        triangles_size2(grid, triangles, count - 1) + if area < 0 {
            -area
        } else {
            area
        }
    }
}

/// Triangles none of which turns counter-clockwise have areas that do not
/// cancel: taken without sign they add up to what they add up to with it,
/// turned positive.
pub proof fn lemma_clockwise_sizes(grid: Seq<GridPoint>, triangles: Seq<u64>, count: int)
    requires
        forall|k: int| 0 <= k < count ==> #[trigger] proper_triangle(triangles, k, grid_ccw(grid)),
    ensures
        triangles_size2(grid, triangles, count) == -triangles_area2(grid, triangles, count),
    decreases count,
{
    if count > 0 {
        lemma_clockwise_sizes(grid, triangles, count - 1);
        assert(proper_triangle(triangles, count - 1, grid_ccw(grid)));
    }
}

/// When the points lie on a grid and the way they turn is read off their
/// exact area, a finished triangulation tiles the polygon by area: the
/// polygon is clockwise, and the areas of its triangles, each taken without
/// sign, add up to its area.
pub proof fn lemma_triangulation_tiles_area(
    grid: Seq<GridPoint>,
    left_of: spec_fn(int, int) -> bool,
    inside: spec_fn(int, int, int, int) -> bool,
)
    requires
        grid.len() <= u64::MAX,
        triangulation(grid.len() as int, left_of, grid_ccw(grid), inside) is Ok,
    ensures
        polygon_area2(grid, full_ring(grid.len() as int)) <= 0,
        triangles_size2(
            grid,
            triangulation(grid.len() as int, left_of, grid_ccw(grid), inside).unwrap(),
            grid.len() - 2,
        ) == -polygon_area2(grid, full_ring(grid.len() as int)),
{
    let n = grid.len() as int;
    let ccw = grid_ccw(grid);
    let triangles = triangulation(n, left_of, ccw, inside).unwrap();
    lemma_triangulation(n, left_of, ccw, inside);
    lemma_triangulation_keeps_area(grid, left_of, ccw, inside);
    lemma_clockwise_sizes(grid, triangles, n - 2);
    lemma_sizes_nonnegative(grid, triangles, n - 2);
}

/// Areas taken without sign add up to no less than nothing.
pub proof fn lemma_sizes_nonnegative(grid: Seq<GridPoint>, triangles: Seq<u64>, count: int)
    ensures
        triangles_size2(grid, triangles, count) >= 0,
    decreases count,
{
    if count > 0 {
        lemma_sizes_nonnegative(grid, triangles, count - 1);
    }
}

} // verus!
