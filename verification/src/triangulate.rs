//! Triangulation of a simple polygon by ear clipping.
//!
//! The polygon is a list of points in clockwise order.  The algorithm keeps a
//! ring of the vertices that are still part of the polygon, looks for the
//! first vertex whose corner can be cut off (an ear), emits that corner as a
//! triangle and drops the vertex from the ring, until two vertices are left.
//!
//! Three questions about the points are left to the caller:
//!
//! * `left_of(a, b)`: does `a` lie to the left of `b` (lower first
//!   coordinate, ties broken by the second)?
//! * `is_ccw(a, b, c)`: do `a`, `b`, `c` turn counter-clockwise?
//! * `in_triangle(p, a, b, c)`: does `p` lie in the triangle `a`, `b`, `c`?
//!
//! Everything below is stated over the answers to these questions, taken as
//! relations on positions in the point list.

use crate::indices::Indices;
use vstd::prelude::*;

verus! {

/// Why a polygon was not triangulated.
#[derive(Debug, Clone, Copy, PartialEq, Eq, Structural)]
pub enum TriangulateError {
    /// The polygon has fewer than three points.
    TooFewPoints,
    /// The corner at the leftmost point turns counter-clockwise, so the
    /// polygon is not listed clockwise.
    NotClockwise,
    /// Three or more vertices were left and none of them was an ear: the
    /// polygon crosses itself or is degenerate.
    NoEar,
    /// The normal of a polygon in space leans to no axis, so there is no
    /// plane to flatten the polygon into.
    NoProjection,
}

/// `f` may be asked about any two of `points`, and gives one answer.
pub open spec fn answers_pairs<P, F: Fn(&P, &P) -> bool>(points: Seq<P>, f: F) -> bool {
    &&& forall|a: int, b: int|
        0 <= a < points.len() && 0 <= b < points.len() ==> #[trigger] call_requires(
            f,
            (&points[a], &points[b]),
        )
    &&& forall|a: int, b: int|
        0 <= a < points.len() && 0 <= b < points.len() ==> !(#[trigger] call_ensures(
            f,
            (&points[a], &points[b]),
            true,
        ) && call_ensures(f, (&points[a], &points[b]), false))
}

/// `f` may be asked about any three of `points`, and gives one answer.
pub open spec fn answers_triples<P, F: Fn(&P, &P, &P) -> bool>(points: Seq<P>, f: F) -> bool {
    &&& forall|a: int, b: int, c: int|
        0 <= a < points.len() && 0 <= b < points.len() && 0 <= c < points.len()
            ==> #[trigger] call_requires(f, (&points[a], &points[b], &points[c]))
    &&& forall|a: int, b: int, c: int|
        0 <= a < points.len() && 0 <= b < points.len() && 0 <= c < points.len()
            ==> !(#[trigger] call_ensures(f, (&points[a], &points[b], &points[c]), true)
            && call_ensures(f, (&points[a], &points[b], &points[c]), false))
}

/// `f` may be asked about any four of `points`, and gives one answer.
pub open spec fn answers_quadruples<P, F: Fn(&P, &P, &P, &P) -> bool>(
    points: Seq<P>,
    f: F,
) -> bool {
    &&& forall|a: int, b: int, c: int, d: int|
        0 <= a < points.len() && 0 <= b < points.len() && 0 <= c < points.len() && 0 <= d
            < points.len() ==> #[trigger] call_requires(
            f,
            (&points[a], &points[b], &points[c], &points[d]),
        )
    &&& forall|a: int, b: int, c: int, d: int|
        0 <= a < points.len() && 0 <= b < points.len() && 0 <= c < points.len() && 0 <= d
            < points.len() ==> !(#[trigger] call_ensures(
            f,
            (&points[a], &points[b], &points[c], &points[d]),
            true,
        ) && call_ensures(f, (&points[a], &points[b], &points[c], &points[d]), false))
}

/// The relation that `f` defines on positions in `points`: position `a` is
/// related to position `b` when `f` says yes of the two points.
pub open spec fn on_pairs<P, F: Fn(&P, &P) -> bool>(points: Seq<P>, f: F) -> spec_fn(
    int,
    int,
) -> bool {
    |a: int, b: int| call_ensures(f, (&points[a], &points[b]), true)
}

/// The relation that `f` defines on triples of positions in `points`.
pub open spec fn on_triples<P, F: Fn(&P, &P, &P) -> bool>(points: Seq<P>, f: F) -> spec_fn(
    int,
    int,
    int,
) -> bool {
    |a: int, b: int, c: int| call_ensures(f, (&points[a], &points[b], &points[c]), true)
}

/// The relation that `f` defines on quadruples of positions in `points`.
pub open spec fn on_quadruples<P, F: Fn(&P, &P, &P, &P) -> bool>(
    points: Seq<P>,
    f: F,
) -> spec_fn(int, int, int, int) -> bool {
    |a: int, b: int, c: int, d: int|
        call_ensures(f, (&points[a], &points[b], &points[c], &points[d]), true)
}

/// The place before `i` in a ring of `len` places.
pub open spec fn before(len: int, i: int) -> int {
    if i == 0 {
        len - 1
    } else {
        i - 1
    }
}

/// The place after `i` in a ring of `len` places.
pub open spec fn after(len: int, i: int) -> int {
    if i == len - 1 {
        0
    } else {
        i + 1
    }
}

/// The ring of all `n` vertices, in order.
pub open spec fn full_ring(n: int) -> Seq<u64> {
    Seq::new(n as nat, |i: int| i as u64)
}

/// The position that a scan over the first `n` points ends on, when it
/// starts on position 0 and moves to a later point exactly when that point
/// is left of the one it is on.
pub open spec fn leftmost(n: int, left_of: spec_fn(int, int) -> bool) -> int
    decreases n,
{
    if n <= 0 {
        0
    } else {
        let held = leftmost(n - 1, left_of);
        if left_of(n - 1, held) {
            n - 1
        } else {
            held
        }
    }
}

/// The corner of `ring` at place `i`: the vertices before, at and after `i`.
pub open spec fn corner(ring: Seq<u64>, i: int) -> Seq<u64> {
    seq![ring[before(ring.len() as int, i)], ring[i], ring[after(ring.len() as int, i)]]
}

/// The corners of triangle `k` of a flat list of triangles.
pub open spec fn triangle_at(triangles: Seq<u64>, k: int) -> (int, int, int) {
    (triangles[3 * k] as int, triangles[3 * k + 1] as int, triangles[3 * k + 2] as int)
}

/// Triangle `k` of a flat list has three different corners, and they do not
/// turn counter-clockwise.
pub open spec fn proper_triangle(
    triangles: Seq<u64>,
    k: int,
    ccw: spec_fn(int, int, int) -> bool,
) -> bool {
    let (a, b, c) = triangle_at(triangles, k);
    a != b && b != c && a != c && !ccw(a, b, c)
}

/// The corner at place `i` of `ring` is an ear: it does not turn
/// counter-clockwise, and no other vertex of the ring lies in it.
pub open spec fn is_ear(
    ring: Seq<u64>,
    i: int,
    ccw: spec_fn(int, int, int) -> bool,
    inside: spec_fn(int, int, int, int) -> bool,
) -> bool {
    let len = ring.len() as int;
    let p = ring[before(len, i)] as int;
    let c = ring[i] as int;
    let n = ring[after(len, i)] as int;
    &&& !ccw(p, c, n)
    &&& forall|k: int|
        0 <= k < len && k != i && k != before(len, i) && k != after(len, i) ==> !inside(
            #[trigger] ring[k] as int,
            p,
            c,
            n,
        )
}

/// Place `i` is the first ear of `ring`.
pub open spec fn is_first_ear(
    ring: Seq<u64>,
    i: int,
    ccw: spec_fn(int, int, int) -> bool,
    inside: spec_fn(int, int, int, int) -> bool,
) -> bool {
    &&& 0 <= i < ring.len()
    &&& is_ear(ring, i, ccw, inside)
    &&& forall|k: int| 0 <= k < i ==> !#[trigger] is_ear(ring, k, ccw, inside)
}

/// The place of the first ear of `ring`, if it has one.
pub open spec fn first_ear(
    ring: Seq<u64>,
    ccw: spec_fn(int, int, int) -> bool,
    inside: spec_fn(int, int, int, int) -> bool,
) -> Option<int> {
    if exists|i: int| is_first_ear(ring, i, ccw, inside) {
        Some(choose|i: int| is_first_ear(ring, i, ccw, inside))
    } else {
        None
    }
}

/// The triangles cut from `ring`, three entries each, in the order in which
/// they are cut: the corner at the first ear, then the triangles of the ring
/// without that ear.  A ring of fewer than three vertices gives none.
/// `None` when some ring on the way has three or more vertices and no ear.
pub open spec fn clip(
    ring: Seq<u64>,
    ccw: spec_fn(int, int, int) -> bool,
    inside: spec_fn(int, int, int, int) -> bool,
) -> Option<Seq<u64>>
    decreases ring.len(),
{
    if ring.len() < 3 {
        Some(Seq::empty())
    } else {
        match first_ear(ring, ccw, inside) {
            None => None,
            Some(e) => match clip(ring.remove(e), ccw, inside) {
                None => None,
                Some(rest) => Some(corner(ring, e) + rest),
            },
        }
    }
}

/// The fan round the last vertex of the ring: the triangle of the last
/// vertex and the first two, then of the last vertex and the second and
/// third, and so on round the ring.
pub open spec fn fan(ring: Seq<u64>) -> Seq<u64>
    decreases ring.len(),
{
    if ring.len() < 3 {
        Seq::empty()
    } else {
        corner(ring, 0) + fan(ring.remove(0))
    }
}

/// The ring looks convex to the predicates: no three of its vertices, taken
/// in the order of the ring from any vertex on, turn counter-clockwise, and
/// none of its vertices lies in a triangle of three others.
pub open spec fn looks_convex(
    ring: Seq<u64>,
    ccw: spec_fn(int, int, int) -> bool,
    inside: spec_fn(int, int, int, int) -> bool,
) -> bool {
    &&& forall|i: int, j: int, k: int|
        0 <= j < k < i < ring.len() ==> !#[trigger] ccw(
            ring[i] as int,
            ring[j] as int,
            ring[k] as int,
        )
    &&& forall|q: int, i: int, j: int, k: int|
        0 <= q < ring.len() && 0 <= i < ring.len() && 0 <= j < ring.len() && 0 <= k < ring.len()
            && q != i && q != j && q != k ==> !#[trigger] inside(
            ring[q] as int,
            ring[i] as int,
            ring[j] as int,
            ring[k] as int,
        )
}

/// The outcome of triangulating `n` points listed clockwise.
pub open spec fn triangulation(
    n: int,
    left_of: spec_fn(int, int) -> bool,
    ccw: spec_fn(int, int, int) -> bool,
    inside: spec_fn(int, int, int, int) -> bool,
) -> Result<Seq<u64>, TriangulateError> {
    if n < 3 {
        Err(TriangulateError::TooFewPoints)
    } else {
        let l = leftmost(n, left_of);
        if ccw(before(n, l), l, after(n, l)) {
            Err(TriangulateError::NotClockwise)
        } else {
            match clip(full_ring(n), ccw, inside) {
                Some(triangles) => Ok(triangles),
                None => Err(TriangulateError::NoEar),
            }
        }
    }
}

/// What a result says, with the triangles taken as a sequence.
pub open spec fn outcome(r: Result<Indices, TriangulateError>) -> Result<
    Seq<u64>,
    TriangulateError,
> {
    match r {
        Ok(triangles) => Ok(triangles@),
        Err(e) => Err(e),
    }
}

/// The same outcome with the order of the entries turned round, which flips
/// the winding of every triangle.
pub open spec fn flipped(r: Result<Seq<u64>, TriangulateError>) -> Result<
    Seq<u64>,
    TriangulateError,
> {
    match r {
        Ok(triangles) => Ok(triangles.reverse()),
        Err(e) => Err(e),
    }
}

proof fn lemma_first_ear_is(
    ring: Seq<u64>,
    e: int,
    ccw: spec_fn(int, int, int) -> bool,
    inside: spec_fn(int, int, int, int) -> bool,
)
    requires
        is_first_ear(ring, e, ccw, inside),
    ensures
        first_ear(ring, ccw, inside) == Some(e),
{
    let c = choose|i: int| is_first_ear(ring, i, ccw, inside);
    assert(is_first_ear(ring, c, ccw, inside));
    if c < e {
        assert(!is_ear(ring, c, ccw, inside));
    } else if e < c {
        assert(!is_ear(ring, e, ccw, inside));
    }
}

proof fn lemma_first_ear_place(
    ring: Seq<u64>,
    ccw: spec_fn(int, int, int) -> bool,
    inside: spec_fn(int, int, int, int) -> bool,
)
    requires
        first_ear(ring, ccw, inside) is Some,
    ensures
        is_first_ear(ring, first_ear(ring, ccw, inside).unwrap(), ccw, inside),
{
}

/// A ring that can be cut up gives one triangle for each vertex but two.
pub proof fn lemma_clip_count(
    ring: Seq<u64>,
    ccw: spec_fn(int, int, int) -> bool,
    inside: spec_fn(int, int, int, int) -> bool,
)
    requires
        clip(ring, ccw, inside) is Some,
    ensures
        clip(ring, ccw, inside).unwrap().len() == (if ring.len() >= 3 {
            3 * (ring.len() - 2)
        } else {
            0
        }),
    decreases ring.len(),
{
    if ring.len() >= 3 {
        lemma_first_ear_place(ring, ccw, inside);
        let e = first_ear(ring, ccw, inside).unwrap();
        lemma_clip_count(ring.remove(e), ccw, inside);
    }
}

/// Every entry of the triangles cut from a ring is a vertex of that ring.
pub proof fn lemma_clip_members(
    ring: Seq<u64>,
    ccw: spec_fn(int, int, int) -> bool,
    inside: spec_fn(int, int, int, int) -> bool,
)
    requires
        clip(ring, ccw, inside) is Some,
    ensures
        forall|k: int|
            0 <= k < clip(ring, ccw, inside).unwrap().len() ==> ring.contains(
                #[trigger] clip(ring, ccw, inside).unwrap()[k],
            ),
    decreases ring.len(),
{
    if ring.len() >= 3 {
        lemma_first_ear_place(ring, ccw, inside);
        let e = first_ear(ring, ccw, inside).unwrap();
        let len = ring.len() as int;
        let smaller = ring.remove(e);
        lemma_clip_members(smaller, ccw, inside);
        let rest = clip(smaller, ccw, inside).unwrap();
        let all = clip(ring, ccw, inside).unwrap();
        assert(all == corner(ring, e) + rest);
        assert forall|k: int| 0 <= k < all.len() implies ring.contains(#[trigger] all[k]) by {
            if k == 0 {
                assert(ring[before(len, e)] == all[k]);
            } else if k == 1 {
                assert(ring[e] == all[k]);
            } else if k == 2 {
                assert(ring[after(len, e)] == all[k]);
            } else {
                assert(all[k] == rest[k - 3]);
                assert(smaller.contains(rest[k - 3]));
                let j = choose|j: int| 0 <= j < smaller.len() && smaller[j] == rest[k - 3];
                if j < e {
                    assert(ring[j] == all[k]);
                } else {
                    assert(ring[j + 1] == all[k]);
                }
            }
        }
    }
}

/// When a ring of three or more vertices can be cut up, every one of its
/// vertices is a corner of at least one triangle.
pub proof fn lemma_clip_covers(
    ring: Seq<u64>,
    ccw: spec_fn(int, int, int) -> bool,
    inside: spec_fn(int, int, int, int) -> bool,
)
    requires
        ring.len() >= 3,
        clip(ring, ccw, inside) is Some,
    ensures
        forall|i: int|
            0 <= i < ring.len() ==> clip(ring, ccw, inside).unwrap().contains(#[trigger] ring[i]),
    decreases ring.len(),
{
    lemma_first_ear_place(ring, ccw, inside);
    let e = first_ear(ring, ccw, inside).unwrap();
    let len = ring.len() as int;
    let smaller = ring.remove(e);
    let rest = clip(smaller, ccw, inside).unwrap();
    let all = clip(ring, ccw, inside).unwrap();
    assert(all == corner(ring, e) + rest);
    if len > 3 {
        lemma_clip_covers(smaller, ccw, inside);
    }
    assert forall|i: int| 0 <= i < len implies all.contains(#[trigger] ring[i]) by {
        if i == e {
            assert(all[1] == ring[i]);
        } else if i == before(len, e) {
            assert(all[0] == ring[i]);
        } else if i == after(len, e) {
            assert(all[2] == ring[i]);
        } else {
            let j = if i < e {
                i
            } else {
                i - 1
            };
            assert(smaller[j] == ring[i]);
            assert(rest.contains(smaller[j]));
            let k = choose|k: int| 0 <= k < rest.len() && rest[k] == smaller[j];
            assert(all[k + 3] == ring[i]);
        }
    }
}

/// Every triangle cut from a ring without repeated vertices has three
/// different corners, and they do not turn counter-clockwise.
pub proof fn lemma_clip_triangles(
    ring: Seq<u64>,
    ccw: spec_fn(int, int, int) -> bool,
    inside: spec_fn(int, int, int, int) -> bool,
)
    requires
        ring.no_duplicates(),
        clip(ring, ccw, inside) is Some,
    ensures
        forall|k: int|
            0 <= k < clip(ring, ccw, inside).unwrap().len() / 3 ==> #[trigger] proper_triangle(
                clip(ring, ccw, inside).unwrap(),
                k,
                ccw,
            ),
    decreases ring.len(),
{
    if ring.len() >= 3 {
        lemma_first_ear_place(ring, ccw, inside);
        let e = first_ear(ring, ccw, inside).unwrap();
        let len = ring.len() as int;
        let smaller = ring.remove(e);
        assert(smaller.no_duplicates()) by {
            assert forall|i: int, j: int|
                0 <= i < smaller.len() && 0 <= j < smaller.len() && i != j implies smaller[i]
                != smaller[j] by {
                let oi = if i < e {
                    i
                } else {
                    i + 1
                };
                let oj = if j < e {
                    j
                } else {
                    j + 1
                };
                assert(smaller[i] == ring[oi] && smaller[j] == ring[oj]);
            }
        }
        lemma_clip_triangles(smaller, ccw, inside);
        lemma_clip_count(smaller, ccw, inside);
        let rest = clip(smaller, ccw, inside).unwrap();
        let all = clip(ring, ccw, inside).unwrap();
        assert(all == corner(ring, e) + rest);
        assert forall|k: int| 0 <= k < all.len() / 3 implies #[trigger] proper_triangle(
            all,
            k,
            ccw,
        ) by {
            if k == 0 {
                assert(all[0] == ring[before(len, e)]);
                assert(all[1] == ring[e]);
                assert(all[2] == ring[after(len, e)]);
            } else {
                assert(proper_triangle(rest, k - 1, ccw));
                assert(all[3 * k] == rest[3 * (k - 1)]);
                assert(all[3 * k + 1] == rest[3 * (k - 1) + 1]);
                assert(all[3 * k + 2] == rest[3 * (k - 1) + 2]);
            }
        }
    }
}

/// A ring that looks convex is always cut up, and into the fan round its
/// last vertex.
pub proof fn lemma_convex_fan(
    ring: Seq<u64>,
    ccw: spec_fn(int, int, int) -> bool,
    inside: spec_fn(int, int, int, int) -> bool,
)
    requires
        looks_convex(ring, ccw, inside),
    ensures
        clip(ring, ccw, inside) == Some(fan(ring)),
    decreases ring.len(),
{
    if ring.len() >= 3 {
        let len = ring.len() as int;
        assert(is_ear(ring, 0, ccw, inside)) by {
            assert(!ccw(ring[len - 1] as int, ring[0] as int, ring[1] as int));
        }
        assert(is_first_ear(ring, 0, ccw, inside));
        lemma_first_ear_is(ring, 0, ccw, inside);
        let smaller = ring.remove(0);
        assert(looks_convex(smaller, ccw, inside)) by {
            assert forall|i: int, j: int, k: int| 0 <= j < k < i < smaller.len() implies !#[trigger] ccw(
                smaller[i] as int,
                smaller[j] as int,
                smaller[k] as int,
            ) by {
                assert(smaller[i] == ring[i + 1] && smaller[j] == ring[j + 1] && smaller[k]
                    == ring[k + 1]);
            }
            assert forall|q: int, i: int, j: int, k: int|
                0 <= q < smaller.len() && 0 <= i < smaller.len() && 0 <= j < smaller.len() && 0
                    <= k < smaller.len() && q != i && q != j && q != k implies !#[trigger] inside(
                smaller[q] as int,
                smaller[i] as int,
                smaller[j] as int,
                smaller[k] as int,
            ) by {
                assert(smaller[q] == ring[q + 1] && smaller[i] == ring[i + 1] && smaller[j]
                    == ring[j + 1] && smaller[k] == ring[k + 1]);
            }
        }
        lemma_convex_fan(smaller, ccw, inside);
    }
}

/// A polygon of three or more points that looks convex, and clockwise at its
/// leftmost point, is always triangulated, and into the fan round its last
/// point.
pub proof fn lemma_convex_triangulation(
    n: int,
    left_of: spec_fn(int, int) -> bool,
    ccw: spec_fn(int, int, int) -> bool,
    inside: spec_fn(int, int, int, int) -> bool,
)
    requires
        3 <= n,
        looks_convex(full_ring(n), ccw, inside),
        !ccw(
            before(n, leftmost(n, left_of)),
            leftmost(n, left_of),
            after(n, leftmost(n, left_of)),
        ),
    ensures
        triangulation(n, left_of, ccw, inside) == Ok::<Seq<u64>, TriangulateError>(
            fan(full_ring(n)),
        ),
{
    lemma_convex_fan(full_ring(n), ccw, inside);
}

/// The laws of a finished triangulation: `n` points give `n - 2`
/// triangles, every entry is the index of one of the points, every point is
/// a corner of at least one triangle, and every triangle has three different
/// corners that do not turn counter-clockwise.
pub proof fn lemma_triangulation(
    n: int,
    left_of: spec_fn(int, int) -> bool,
    ccw: spec_fn(int, int, int) -> bool,
    inside: spec_fn(int, int, int, int) -> bool,
)
    requires
        n <= u64::MAX,
        triangulation(n, left_of, ccw, inside) is Ok,
    ensures
        n >= 3,
        triangulation(n, left_of, ccw, inside).unwrap().len() == 3 * (n - 2),
        forall|k: int|
            0 <= k < 3 * (n - 2) ==> 0 <= #[trigger] triangulation(
                n,
                left_of,
                ccw,
                inside,
            ).unwrap()[k] < n,
        forall|v: u64|
            v < n ==> #[trigger] triangulation(n, left_of, ccw, inside).unwrap().contains(v),
        forall|k: int|
            0 <= k < n - 2 ==> #[trigger] proper_triangle(
                triangulation(n, left_of, ccw, inside).unwrap(),
                k,
                ccw,
            ),
{
    let ring = full_ring(n);
    let all = clip(ring, ccw, inside).unwrap();
    lemma_clip_count(ring, ccw, inside);
    lemma_clip_triangles(ring, ccw, inside);
    lemma_clip_members(ring, ccw, inside);
    lemma_clip_covers(ring, ccw, inside);
    assert forall|k: int| 0 <= k < 3 * (n - 2) implies 0 <= #[trigger] all[k] < n by {
        assert(ring.contains(all[k]));
    }
    assert forall|v: u64| v < n implies #[trigger] all.contains(v) by {
        assert(ring[v as int] == v);
    }
}

fn scan_leftmost<P, L: Fn(&P, &P) -> bool>(points: &Vec<P>, left_of: &L) -> (held: usize)
    requires
        answers_pairs(points@, *left_of),
        points.len() >= 1,
    ensures
        held == leftmost(points.len() as int, on_pairs(points@, *left_of)),
        held < points.len(),
{
    let mut held: usize = 0;
    let mut i: usize = 0;
    while i < points.len()
        invariant
            answers_pairs(points@, *left_of),
            i <= points.len(),
            held < points.len(),
            held == leftmost(i as int, on_pairs(points@, *left_of)),
        decreases points.len() - i,
    {
        if left_of(&points[i], &points[held]) {
            held = i;
        }
        i += 1;
    }
    held
}

fn ear_at<P, C: Fn(&P, &P, &P) -> bool, T: Fn(&P, &P, &P, &P) -> bool>(
    points: &Vec<P>,
    ring: &Vec<u64>,
    i: usize,
    is_ccw: &C,
    in_triangle: &T,
) -> (r: bool)
    requires
        answers_triples(points@, *is_ccw),
        answers_quadruples(points@, *in_triangle),
        ring.len() >= 3,
        i < ring.len(),
        forall|k: int| 0 <= k < ring.len() ==> ring[k] < points.len(),
    ensures
        r == is_ear(
            ring@,
            i as int,
            on_triples(points@, *is_ccw),
            on_quadruples(points@, *in_triangle),
        ),
{
    let len = ring.len();
    let prev: usize = if i == 0 {
        len - 1
    } else {
        i - 1
    };
    let next: usize = if i == len - 1 {
        0
    } else {
        i + 1
    };
    let p = ring[prev] as usize;
    let c = ring[i] as usize;
    let n = ring[next] as usize;
    if is_ccw(&points[p], &points[c], &points[n]) {
        return false;
    }
    let ghost inside = on_quadruples(points@, *in_triangle);
    let mut k: usize = 0;
    while k < len
        invariant
            answers_quadruples(points@, *in_triangle),
            inside == on_quadruples(points@, *in_triangle),
            len == ring.len(),
            k <= len,
            i < len,
            prev == before(len as int, i as int),
            next == after(len as int, i as int),
            p == ring[prev as int],
            c == ring[i as int],
            n == ring[next as int],
            forall|m: int| 0 <= m < ring.len() ==> ring[m] < points.len(),
            forall|m: int|
                0 <= m < k && m != i && m != prev && m != next ==> !inside(
                    #[trigger] ring[m] as int,
                    p as int,
                    c as int,
                    n as int,
                ),
        decreases len - k,
    {
        if k != i && k != prev && k != next {
            let v = ring[k] as usize;
            if in_triangle(&points[v], &points[p], &points[c], &points[n]) {
                assert(inside(ring@[k as int] as int, p as int, c as int, n as int));
                return false;
            }
        }
        k += 1;
    }
    true
}

fn find_ear<P, C: Fn(&P, &P, &P) -> bool, T: Fn(&P, &P, &P, &P) -> bool>(
    points: &Vec<P>,
    ring: &Vec<u64>,
    is_ccw: &C,
    in_triangle: &T,
) -> (r: Option<usize>)
    requires
        answers_triples(points@, *is_ccw),
        answers_quadruples(points@, *in_triangle),
        ring.len() >= 3,
        forall|k: int| 0 <= k < ring.len() ==> ring[k] < points.len(),
    ensures
        match r {
            Some(e) => e < ring.len() && first_ear(
                ring@,
                on_triples(points@, *is_ccw),
                on_quadruples(points@, *in_triangle),
            ) == Some(e as int),
            None => first_ear(
                ring@,
                on_triples(points@, *is_ccw),
                on_quadruples(points@, *in_triangle),
            ) is None,
        },
{
    let ghost ccw = on_triples(points@, *is_ccw);
    let ghost inside = on_quadruples(points@, *in_triangle);
    let mut e: usize = 0;
    while e < ring.len()
        invariant
            answers_triples(points@, *is_ccw),
            answers_quadruples(points@, *in_triangle),
            ccw == on_triples(points@, *is_ccw),
            inside == on_quadruples(points@, *in_triangle),
            ring.len() >= 3,
            e <= ring.len(),
            forall|k: int| 0 <= k < ring.len() ==> ring[k] < points.len(),
            forall|k: int| 0 <= k < e ==> !#[trigger] is_ear(ring@, k, ccw, inside),
        decreases ring.len() - e,
    {
        if ear_at(points, ring, e, is_ccw, in_triangle) {
            proof {
                lemma_first_ear_is(ring@, e as int, ccw, inside);
            }
            return Some(e);
        }
        e += 1;
    }
    assert(forall|i: int| !is_first_ear(ring@, i, ccw, inside));
    None
}

/// Triangulates the polygon `points`, listed clockwise, by ear clipping.
///
/// The triangles come as a flat list of positions in `points`, three per
/// triangle, each triangle clockwise, in the order in which the ears were
/// cut.  The polygon is refused when it has fewer than three points, when
/// the corner at its leftmost point turns counter-clockwise, or when the
/// clipping runs out of ears.
pub fn triangulate<P>(
    points: &Vec<P>,
    left_of: impl Fn(&P, &P) -> bool,
    is_ccw: impl Fn(&P, &P, &P) -> bool,
    in_triangle: impl Fn(&P, &P, &P, &P) -> bool,
) -> (r: Result<Indices, TriangulateError>)
    requires
        answers_pairs(points@, left_of),
        answers_triples(points@, is_ccw),
        answers_quadruples(points@, in_triangle),
    ensures
        outcome(r) == triangulation(
            points.len() as int,
            on_pairs(points@, left_of),
            on_triples(points@, is_ccw),
            on_quadruples(points@, in_triangle),
        ),
        r matches Ok(triangles) ==> {
            &&& points.len() >= 3
            &&& triangles@.len() == 3 * (points.len() - 2)
            &&& forall|k: int|
                0 <= k < triangles@.len() ==> #[trigger] triangles@[k] < points.len()
            &&& forall|v: u64| v < points.len() ==> #[trigger] triangles@.contains(v)
            &&& forall|k: int|
                0 <= k < points.len() - 2 ==> #[trigger] proper_triangle(
                    triangles@,
                    k,
                    on_triples(points@, is_ccw),
                )
        },
{
    let n = points.len();
    if n < 3 {
        return Err(TriangulateError::TooFewPoints);
    }
    let ghost left = on_pairs(points@, left_of);
    let ghost ccw = on_triples(points@, is_ccw);
    let ghost inside = on_quadruples(points@, in_triangle);
    let l = scan_leftmost(points, &left_of);
    let prev: usize = if l == 0 {
        n - 1
    } else {
        l - 1
    };
    let next: usize = if l == n - 1 {
        0
    } else {
        l + 1
    };
    if is_ccw(&points[prev], &points[l], &points[next]) {
        return Err(TriangulateError::NotClockwise);
    }
    let mut ring: Vec<u64> = Vec::new();
    let mut i: usize = 0;
    while i < n
        invariant
            n == points.len(),
            i <= n,
            ring@ == full_ring(i as int),
        decreases n - i,
    {
        ring.push(i as u64);
        i += 1;
    }
    let mut triangles: Vec<u64> = Vec::new();
    let ghost expected = triangulation(n as int, left, ccw, inside);
    while ring.len() >= 3
        invariant
            n == points.len(),
            expected == (match clip(full_ring(n as int), ccw, inside) {
                Some(all) => Ok::<Seq<u64>, TriangulateError>(all),
                None => Err(TriangulateError::NoEar),
            }),
            expected == triangulation(
                points.len() as int,
                on_pairs(points@, left_of),
                on_triples(points@, is_ccw),
                on_quadruples(points@, in_triangle),
            ),
            answers_triples(points@, is_ccw),
            answers_quadruples(points@, in_triangle),
            ccw == on_triples(points@, is_ccw),
            inside == on_quadruples(points@, in_triangle),
            forall|k: int| 0 <= k < ring.len() ==> ring[k] < n,
            match clip(ring@, ccw, inside) {
                Some(rest) => clip(full_ring(n as int), ccw, inside) == Some(triangles@ + rest),
                None => clip(full_ring(n as int), ccw, inside) is None,
            },
        decreases ring.len(),
    {
        let len = ring.len();
        match find_ear(points, &ring, &is_ccw, &in_triangle) {
            None => {
                return Err(TriangulateError::NoEar);
            },
            Some(e) => {
                let prev: usize = if e == 0 {
                    len - 1
                } else {
                    e - 1
                };
                let next: usize = if e == len - 1 {
                    0
                } else {
                    e + 1
                };
                let ghost before_cut = ring@;
                let ghost emitted = triangles@;
                triangles.push(ring[prev]);
                triangles.push(ring[e]);
                triangles.push(ring[next]);
                ring.remove(e);
                proof {
                    assert(triangles@ == emitted + corner(before_cut, e as int));
                    assert(ring@ == before_cut.remove(e as int));
                    match clip(ring@, ccw, inside) {
                        Some(rest) => {
                            assert(emitted + (corner(before_cut, e as int) + rest) == triangles@
                                + rest);
                        },
                        None => {},
                    }
                }
            },
        }
    }
    proof {
        assert(triangles@ + Seq::<u64>::empty() == triangles@);
        lemma_triangulation(n as int, left, ccw, inside);
    }
    Ok(Indices::from_indices(triangles))
}

/// Triangulates the polygon `points` as `triangulate` does and turns the
/// list of entries round, so that every triangle comes out counter-clockwise:
/// the triangulation of the same polygon seen from behind.
pub fn triangulate_rev<P>(
    points: &Vec<P>,
    left_of: impl Fn(&P, &P) -> bool,
    is_ccw: impl Fn(&P, &P, &P) -> bool,
    in_triangle: impl Fn(&P, &P, &P, &P) -> bool,
) -> (r: Result<Indices, TriangulateError>)
    requires
        answers_pairs(points@, left_of),
        answers_triples(points@, is_ccw),
        answers_quadruples(points@, in_triangle),
    ensures
        outcome(r) == flipped(
            triangulation(
                points.len() as int,
                on_pairs(points@, left_of),
                on_triples(points@, is_ccw),
                on_quadruples(points@, in_triangle),
            ),
        ),
{
    match triangulate(points, left_of, is_ccw, in_triangle) {
        Ok(triangles) => Ok(triangles.reversed()),
        Err(e) => Err(e),
    }
}

} // verus!
