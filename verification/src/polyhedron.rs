//! Closed meshes built from rings of vertices.
//!
//! A builder copies a profile of `n` points into a stack of rings, one ring
//! after the other in the vertex list, so that vertex `i` of ring `r` has
//! index `r * n + i`.  Consecutive rings are joined by a strip of `n`
//! quadrilaterals, and an open stack is shut at both ends by the
//! triangulated profile.  Where a vertex lies is decided by a function of
//! the caller; which vertices a face joins is decided here.

use crate::indices::{Faces, Indices};
use crate::triangulate::{
    after, answers_pairs, answers_quadruples, answers_triples, on_pairs, on_quadruples,
    on_triples, triangulate, triangulation, TriangulateError,
};
use vstd::prelude::*;

verus! {

/// Why a mesh was not built.
#[derive(Debug, Clone, Copy, PartialEq, Eq, Structural)]
pub enum ExtrudeError {
    /// The profile could not be triangulated for the end caps.
    Profile(TriangulateError),
    /// A revolution needs at least three segments.
    TooFewSegments,
    /// A sweep needs a path of at least two points.
    PathTooShort,
    /// The path point at this position is the same as the one that follows
    /// it (for a closed path the first point follows the last).
    RepeatedPathPoint(usize),
}

/// An indexed mesh: vertices, and faces that list vertices by index,
/// clockwise when seen from outside.
pub struct Polyhedron<V> {
    pub points: Vec<V>,
    pub faces: Faces,
}

/// The wall face between place `p` and the next place of two rings of `n`
/// vertices, whose vertices start at index `lower` and `upper`.
pub open spec fn quad(n: int, lower: int, upper: int, p: int) -> Seq<u64> {
    seq![
        (lower + p) as u64,
        (lower + after(n, p)) as u64,
        (upper + after(n, p)) as u64,
        (upper + p) as u64,
    ]
}

/// The `n` wall faces that join the ring at `lower` to the ring at `upper`.
pub open spec fn strip(n: int, lower: int, upper: int) -> Seq<Seq<u64>> {
    Seq::new(n as nat, |p: int| quad(n, lower, upper, p))
}

/// The wall faces of a stack of `rings` rings of `n` vertices: the strip
/// from ring 0 to ring 1, then the strip from ring 1 to ring 2, and so on.
pub open spec fn strips(n: int, rings: int) -> Seq<Seq<u64>>
    decreases rings,
{
    if rings <= 1 {
        Seq::empty()
    } else {
        strips(n, rings - 1) + strip(n, (rings - 2) * n, (rings - 1) * n)
    }
}

/// The triangles of a flat list, one face each, every index moved up by
/// `offset`.
pub open spec fn cap(triangles: Seq<u64>, offset: int) -> Seq<Seq<u64>> {
    Seq::new(
        (triangles.len() / 3) as nat,
        |t: int|
            seq![
                (triangles[3 * t] + offset) as u64,
                (triangles[3 * t + 1] + offset) as u64,
                (triangles[3 * t + 2] + offset) as u64,
            ],
    )
}

/// Every face has three or more corners, and every corner is one of the
/// first `vertices` vertices.
pub open spec fn faces_fit(faces: Seq<Seq<u64>>, vertices: int) -> bool {
    forall|f: int|
        0 <= f < faces.len() ==> {
            &&& (#[trigger] faces[f]).len() >= 3
            &&& forall|c: int| 0 <= c < faces[f].len() ==> #[trigger] faces[f][c] < vertices
        }
}

impl<V> Polyhedron<V> {
    /// Every face has three or more corners and refers to vertices of this
    /// mesh only.
    pub open spec fn well_formed(&self) -> bool {
        faces_fit(self.faces@, self.points@.len() as int)
    }
}

/// The faces of a prism over a profile of `n` points with the given
/// triangulation: the bottom cap seen from below, the top cap, then the
/// walls.  The bottom ring holds vertices `0..n`, the top ring `n..2n`.
pub open spec fn prism_faces(n: int, triangles: Seq<u64>) -> Seq<Seq<u64>> {
    cap(triangles.reverse(), 0) + cap(triangles, n) + strip(n, 0, n)
}

/// `points` holds the profile lifted to the bottom, then the profile lifted
/// to the top.
pub open spec fn lifted<P, V, F: Fn(&P, bool) -> V>(
    profile: Seq<P>,
    lift: F,
    points: Seq<V>,
) -> bool {
    &&& points.len() == 2 * profile.len()
    &&& forall|k: int|
        0 <= k < profile.len() ==> call_ensures(lift, (&profile[k], false), #[trigger] points[k])
    &&& forall|k: int|
        profile.len() <= k < 2 * profile.len() ==> call_ensures(
            lift,
            (&profile[k - profile.len()], true),
            #[trigger] points[k],
        )
}

/// Faces that fit a number of vertices, taken together, fit it too.
pub proof fn lemma_fit_concat(a: Seq<Seq<u64>>, b: Seq<Seq<u64>>, vertices: int)
    requires
        faces_fit(a, vertices),
        faces_fit(b, vertices),
    ensures
        faces_fit(a + b, vertices),
{
    assert forall|f: int| 0 <= f < (a + b).len() implies {
        &&& (#[trigger] (a + b)[f]).len() >= 3
        &&& forall|c: int| 0 <= c < (a + b)[f].len() ==> #[trigger] (a + b)[f][c] < vertices
    } by {
        if f < a.len() {
            assert((a + b)[f] == a[f]);
        } else {
            assert((a + b)[f] == b[f - a.len()]);
        }
    }
}

/// A strip between two rings that lie within the vertex list is made of
/// quadrilaterals that fit it.
pub proof fn lemma_strip_fits(n: int, lower: int, upper: int, vertices: int)
    requires
        0 <= n,
        0 <= lower,
        0 <= upper,
        lower + n <= vertices,
        upper + n <= vertices,
        vertices <= u64::MAX,
    ensures
        strip(n, lower, upper).len() == n,
        faces_fit(strip(n, lower, upper), vertices),
        forall|p: int| 0 <= p < n ==> (#[trigger] strip(n, lower, upper)[p]).len() == 4,
{
    let faces = strip(n, lower, upper);
    assert forall|f: int| 0 <= f < faces.len() implies {
        &&& (#[trigger] faces[f]).len() >= 3
        &&& forall|c: int| 0 <= c < faces[f].len() ==> #[trigger] faces[f][c] < vertices
    } by {
        assert(faces[f] == quad(n, lower, upper, f));
        assert(0 <= after(n, f) < n);
    }
}

/// The strips of a stack of rings that lies within the vertex list fit it,
/// and there are `n` quadrilaterals for each ring but the first.
pub proof fn lemma_strips_fit(n: int, rings: int, vertices: int)
    requires
        0 <= n,
        rings * n <= vertices,
        vertices <= u64::MAX,
    ensures
        strips(n, rings).len() == (if rings >= 1 {
            (rings - 1) * n
        } else {
            0
        }),
        faces_fit(strips(n, rings), vertices),
        forall|f: int| 0 <= f < strips(n, rings).len() ==> (#[trigger] strips(n, rings)[f]).len() == 4,
    decreases rings,
{
    if rings > 1 {
        assert((rings - 1) * n <= rings * n) by (nonlinear_arith)
            requires
                0 <= n,
        ;
        assert((rings - 2) * n + n == (rings - 1) * n) by (nonlinear_arith);
        assert((rings - 1) * n + n == rings * n) by (nonlinear_arith);
        assert(0 <= (rings - 2) * n) by (nonlinear_arith)
            requires
                0 <= n,
                rings > 1,
        ;
        lemma_strips_fit(n, rings - 1, vertices);
        lemma_strip_fits(n, (rings - 2) * n, (rings - 1) * n, vertices);
        lemma_fit_concat(
            strips(n, rings - 1),
            strip(n, (rings - 2) * n, (rings - 1) * n),
            vertices,
        );
        let whole = strips(n, rings);
        let head = strips(n, rings - 1);
        let tail = strip(n, (rings - 2) * n, (rings - 1) * n);
        assert(whole == head + tail);
        assert(whole.len() == (rings - 1) * n);
        assert forall|f: int| 0 <= f < whole.len() implies (#[trigger] whole[f]).len() == 4 by {
            if f < head.len() {
                assert(whole[f] == head[f]);
            } else {
                assert(whole[f] == tail[f - head.len()]);
            }
        }
    } else if rings == 1 {
        assert((rings - 1) * n == 0) by (nonlinear_arith)
            requires
                rings == 1,
        ;
    }
}

/// A cap whose entries, moved up by the offset, stay within the vertex list
/// is made of triangles that fit it.
pub proof fn lemma_cap_fits(triangles: Seq<u64>, offset: int, vertices: int)
    requires
        0 <= offset,
        forall|k: int| 0 <= k < triangles.len() ==> #[trigger] triangles[k] + offset < vertices,
        vertices <= u64::MAX,
    ensures
        cap(triangles, offset).len() == triangles.len() / 3,
        faces_fit(cap(triangles, offset), vertices),
        forall|t: int|
            0 <= t < cap(triangles, offset).len() ==> (#[trigger] cap(triangles, offset)[t]).len()
                == 3,
{
    let faces = cap(triangles, offset);
    assert forall|f: int| 0 <= f < faces.len() implies {
        &&& (#[trigger] faces[f]).len() >= 3
        &&& forall|c: int| 0 <= c < faces[f].len() ==> #[trigger] faces[f][c] < vertices
    } by {
        assert(3 * f + 3 <= triangles.len());
        assert(triangles[3 * f] + offset < vertices);
        assert(triangles[3 * f + 1] + offset < vertices);
        assert(triangles[3 * f + 2] + offset < vertices);
    }
}

/// A prism over `n >= 3` points has `2n` vertices' worth of faces that fit:
/// `n` walls and `n - 2` triangles in each of its two caps.
pub proof fn lemma_prism(n: int, triangles: Seq<u64>)
    requires
        3 <= n,
        2 * n <= u64::MAX,
        triangles.len() == 3 * (n - 2),
        forall|k: int| 0 <= k < triangles.len() ==> #[trigger] triangles[k] < n,
    ensures
        prism_faces(n, triangles).len() == n + 2 * (n - 2),
        faces_fit(prism_faces(n, triangles), 2 * n),
{
    let bottom = triangles.reverse();
    assert forall|k: int| 0 <= k < bottom.len() implies #[trigger] bottom[k] + 0 < 2 * n by {
        assert(bottom[k] == triangles[triangles.len() - 1 - k]);
    }
    assert forall|k: int| 0 <= k < triangles.len() implies #[trigger] triangles[k] + n < 2 * n by {
        assert(triangles[k] < n);
    }
    lemma_cap_fits(bottom, 0, 2 * n);
    lemma_cap_fits(triangles, n, 2 * n);
    lemma_strip_fits(n, 0, n, 2 * n);
    lemma_fit_concat(cap(bottom, 0), cap(triangles, n), 2 * n);
    lemma_fit_concat(cap(bottom, 0) + cap(triangles, n), strip(n, 0, n), 2 * n);
}

/// The index of vertex `i` of ring `r`, in a stack of rings of `n` vertices.
pub open spec fn ring_vertex(n: int, r: int, i: int) -> int {
    r * n + i
}

/// The faces of a stack of `rings` rings of `n` vertices.  A closed stack
/// has the strips between consecutive rings and one more strip from the last
/// ring back to the first.  An open stack has a cap on the first ring, the
/// strips, and a cap on the last ring.
pub open spec fn stack_faces(
    n: int,
    rings: int,
    closed: bool,
    first: Seq<u64>,
    last: Seq<u64>,
) -> Seq<Seq<u64>> {
    if closed {
        strips(n, rings) + strip(n, (rings - 1) * n, 0)
    } else {
        cap(first, 0) + strips(n, rings) + cap(last, (rings - 1) * n)
    }
}

/// The triangles of a triangulation that went through, none otherwise.
pub open spec fn triangles_of(cut: Result<Seq<u64>, TriangulateError>) -> Seq<u64> {
    match cut {
        Ok(triangles) => triangles,
        Err(_) => Seq::empty(),
    }
}

/// The faces of a revolution in `segments` angular steps.  A full turn is
/// closed and has `segments` rings.  A partial turn has one ring more; it
/// starts with the profile's triangulation and ends with the same
/// triangulation seen from behind.
pub open spec fn revolve_faces(n: int, segments: int, closed: bool, triangles: Seq<u64>) -> Seq<
    Seq<u64>,
> {
    if closed {
        stack_faces(n, segments, true, Seq::empty(), Seq::empty())
    } else {
        stack_faces(n, segments + 1, false, triangles, triangles.reverse())
    }
}

/// `points` holds `rings` copies of the profile, ring after ring, and the
/// copy in ring `r` was placed at angular step `r` of `segments`.
pub open spec fn revolved<P, V, F: Fn(&P, usize, usize) -> V>(
    profile: Seq<P>,
    place: F,
    segments: usize,
    rings: int,
    points: Seq<V>,
) -> bool {
    &&& points.len() == rings * profile.len()
    &&& forall|r: int, i: int|
        0 <= r < rings && 0 <= i < profile.len() ==> call_ensures(
            place,
            (&profile[i], r as usize, segments),
            #[trigger] points[ring_vertex(profile.len() as int, r, i)],
        )
}

/// Why a revolution is refused, if it is: too few segments, or, for a
/// partial turn, a profile that cannot be triangulated.
pub open spec fn revolve_refusal(
    segments: int,
    closed: bool,
    cut: Result<Seq<u64>, TriangulateError>,
) -> Option<ExtrudeError> {
    if segments < 3 {
        Some(ExtrudeError::TooFewSegments)
    } else if !closed && cut is Err {
        Some(ExtrudeError::Profile(cut->Err_0))
    } else {
        None
    }
}

/// The path position that the frame of ring `r` looks from: the position
/// before `r`; at the start of the path the last position when the path is
/// closed, the start itself when it is open.
pub open spec fn frame_from(len: int, closed: bool, r: int) -> int {
    if r == 0 {
        if closed {
            len - 1
        } else {
            0
        }
    } else {
        r - 1
    }
}

/// The path position that the frame of ring `r` looks to: the position after
/// `r`; at the end of the path the first position when the path is closed,
/// the end itself when it is open.
pub open spec fn frame_to(len: int, closed: bool, r: int) -> int {
    if r == len - 1 {
        if closed {
            0
        } else {
            len - 1
        }
    } else {
        r + 1
    }
}

/// The number of legs of a path of `len` points, which is also the number
/// of equal parts into which the twist of a sweep is divided: one leg
/// between consecutive points, and for a closed path one more from the last
/// point back to the first.
pub open spec fn legs(len: int, closed: bool) -> int {
    if closed {
        len
    } else {
        len - 1
    }
}

/// The leg of the path that starts at position `i` joins two points that
/// are the same.
pub open spec fn repeats_at(len: int, closed: bool, same: spec_fn(int, int) -> bool, i: int) -> bool {
    0 <= i < legs(len, closed) && same(i, after(len, i))
}

/// Position `i` starts the first leg of the path that joins two points that
/// are the same.
pub open spec fn first_repeat(
    len: int,
    closed: bool,
    same: spec_fn(int, int) -> bool,
    i: int,
) -> bool {
    &&& repeats_at(len, closed, same, i)
    &&& forall|k: int| 0 <= k < i ==> !#[trigger] repeats_at(len, closed, same, k)
}

/// The faces of a sweep along a path of `len` points: one ring per path
/// point.  An open sweep starts with the profile's triangulation seen from
/// behind and ends with the triangulation itself.
pub open spec fn sweep_faces(n: int, len: int, closed: bool, triangles: Seq<u64>) -> Seq<
    Seq<u64>,
> {
    if closed {
        stack_faces(n, len, true, Seq::empty(), Seq::empty())
    } else {
        stack_faces(n, len, false, triangles.reverse(), triangles)
    }
}

/// `points` holds one copy of the profile per path point, ring after ring.
/// The copy in ring `r` was placed at path point `r`, in the frame that
/// looks from `frame_from` to `frame_to`, at twist step `r` of `legs`.
pub open spec fn swept<P, Q, V, F: Fn(&P, &Q, &Q, &Q, usize, usize) -> V>(
    profile: Seq<P>,
    path: Seq<Q>,
    closed: bool,
    place: F,
    points: Seq<V>,
) -> bool {
    let len = path.len() as int;
    &&& points.len() == len * profile.len()
    &&& forall|r: int, i: int|
        0 <= r < len && 0 <= i < profile.len() ==> call_ensures(
            place,
            (
                &profile[i],
                &path[frame_from(len, closed, r)],
                &path[frame_to(len, closed, r)],
                &path[r],
                r as usize,
                legs(len, closed) as usize,
            ),
            #[trigger] points[ring_vertex(profile.len() as int, r, i)],
        )
}

/// The sweep is refused with error `e`: the path is too short; or it is
/// long enough and `e` names the first leg that joins two equal points; or
/// there is no such leg, the sweep is open and the profile cannot be
/// triangulated.
pub open spec fn sweep_refused(
    len: int,
    closed: bool,
    same: spec_fn(int, int) -> bool,
    cut: Result<Seq<u64>, TriangulateError>,
    e: ExtrudeError,
) -> bool {
    match e {
        ExtrudeError::PathTooShort => len < 2,
        ExtrudeError::RepeatedPathPoint(i) => len >= 2 && first_repeat(len, closed, same, i as int),
        ExtrudeError::Profile(why) => {
            &&& len >= 2
            &&& forall|i: int| !repeats_at(len, closed, same, i)
            &&& !closed
            &&& cut == Err::<Seq<u64>, TriangulateError>(why)
        },
        ExtrudeError::TooFewSegments => false,
    }
}

/// Ring `r` of a stack of `rings` rings takes up `n` indices from `r * n`
/// on, all of them below `rings * n`.
pub proof fn lemma_ring_span(n: int, r: int, rings: int)
    requires
        0 <= r < rings,
        0 <= n,
    ensures
        0 <= r * n,
        (r + 1) * n == r * n + n,
        (r + 1) * n <= rings * n,
{
    assert(0 <= r * n && (r + 1) * n == r * n + n && (r + 1) * n <= rings * n)
        by (nonlinear_arith)
        requires
            0 <= r < rings,
            0 <= n,
    ;
}

/// Vertex `i` of ring `r` lies in ring `r`, and ring `r` lies in the stack.
pub proof fn lemma_ring_vertex(n: int, r: int, i: int, rings: int)
    requires
        0 <= r < rings,
        0 <= i < n,
    ensures
        0 <= r * n <= ring_vertex(n, r, i) < (r + 1) * n <= rings * n,
{
    lemma_ring_span(n, r, rings);
}

/// The faces of a stack fit its `rings * n` vertices.  A closed stack has
/// `rings * n` faces, all of them quadrilaterals.  An open stack has the
/// triangles of its first cap, then `(rings - 1) * n` quadrilaterals, then
/// the triangles of its last cap.
pub proof fn lemma_stack(n: int, rings: int, closed: bool, first: Seq<u64>, last: Seq<u64>)
    requires
        0 <= n,
        1 <= rings,
        rings * n <= u64::MAX,
        !closed ==> forall|k: int| 0 <= k < first.len() ==> #[trigger] first[k] < n,
        !closed ==> forall|k: int| 0 <= k < last.len() ==> #[trigger] last[k] < n,
    ensures
        faces_fit(stack_faces(n, rings, closed, first, last), rings * n),
        closed ==> {
            &&& stack_faces(n, rings, closed, first, last).len() == rings * n
            &&& forall|f: int|
                0 <= f < rings * n ==> (#[trigger] stack_faces(
                    n,
                    rings,
                    closed,
                    first,
                    last,
                )[f]).len() == 4
        },
        !closed ==> {
            let a = first.len() / 3;
            let b = (rings - 1) * n;
            let c = last.len() / 3;
            &&& stack_faces(n, rings, closed, first, last).len() == a + b + c
            &&& forall|f: int|
                0 <= f < a + b + c ==> (#[trigger] stack_faces(
                    n,
                    rings,
                    closed,
                    first,
                    last,
                )[f]).len() == (if a <= f < a + b {
                    4int
                } else {
                    3int
                })
        },
{
    let total = rings * n;
    let walls = strips(n, rings);
    let faces = stack_faces(n, rings, closed, first, last);
    lemma_strips_fit(n, rings, total);
    assert(0 <= (rings - 1) * n && (rings - 1) * n + n == rings * n) by (nonlinear_arith)
        requires
            0 <= n,
            1 <= rings,
    ;
    if closed {
        let closing = strip(n, (rings - 1) * n, 0);
        lemma_strip_fits(n, (rings - 1) * n, 0, total);
        lemma_fit_concat(walls, closing, total);
        assert forall|f: int| 0 <= f < rings * n implies (#[trigger] faces[f]).len() == 4 by {
            if f < walls.len() {
                assert(faces[f] == walls[f]);
            } else {
                assert(faces[f] == closing[f - walls.len()]);
            }
        }
    } else {
        let offset = (rings - 1) * n;
        let front = cap(first, 0);
        let back = cap(last, offset);
        assert forall|k: int| 0 <= k < first.len() implies #[trigger] first[k] + 0 < total by {
            assert(first[k] < n);
        }
        assert forall|k: int| 0 <= k < last.len() implies #[trigger] last[k] + offset
            < total by {
            assert(last[k] < n);
        }
        lemma_cap_fits(first, 0, total);
        lemma_cap_fits(last, offset, total);
        lemma_fit_concat(front, walls, total);
        lemma_fit_concat(front + walls, back, total);
        let a = first.len() / 3;
        let b = (rings - 1) * n;
        let c = last.len() / 3;
        assert forall|f: int| 0 <= f < a + b + c implies (#[trigger] faces[f]).len() == (if a
            <= f < a + b {
            4int
        } else {
            3int
        }) by {
            if f < a {
                assert(faces[f] == front[f]);
            } else if f < a + b {
                assert(faces[f] == walls[f - a]);
            } else {
                assert(faces[f] == back[f - a - b]);
            }
        }
    }
}

/// A full revolution of a profile of `n` points in `segments` steps has
/// `segments * n` faces, every one of them a quadrilateral: there is no cap,
/// and no ring beyond the `segments` rings that the faces fit.
pub proof fn lemma_full_turn(n: int, segments: int, triangles: Seq<u64>)
    requires
        0 <= n,
        1 <= segments,
        segments * n <= u64::MAX,
    ensures
        revolve_faces(n, segments, true, triangles).len() == segments * n,
        faces_fit(revolve_faces(n, segments, true, triangles), segments * n),
        forall|f: int|
            0 <= f < segments * n ==> (#[trigger] revolve_faces(
                n,
                segments,
                true,
                triangles,
            )[f]).len() == 4,
{
    lemma_stack(n, segments, true, Seq::empty(), Seq::empty());
}

/// A partial revolution of a triangulated profile of `n` points in
/// `segments` steps has two caps of `n - 2` triangles each, one at the start
/// of the face list and one at its end, and `segments * n` quadrilaterals
/// between them.  The faces fit `segments + 1` rings.
pub proof fn lemma_partial_turn(n: int, segments: int, triangles: Seq<u64>)
    requires
        3 <= n,
        1 <= segments,
        (segments + 1) * n <= u64::MAX,
        triangles.len() == 3 * (n - 2),
        forall|k: int| 0 <= k < triangles.len() ==> #[trigger] triangles[k] < n,
    ensures
        revolve_faces(n, segments, false, triangles).len() == 2 * (n - 2) + segments * n,
        faces_fit(revolve_faces(n, segments, false, triangles), (segments + 1) * n),
        forall|f: int|
            0 <= f < 2 * (n - 2) + segments * n ==> (#[trigger] revolve_faces(
                n,
                segments,
                false,
                triangles,
            )[f]).len() == (if n - 2 <= f < n - 2 + segments * n {
                4int
            } else {
                3int
            }),
{
    let behind = triangles.reverse();
    assert forall|k: int| 0 <= k < behind.len() implies #[trigger] behind[k] < n by {
        assert(behind[k] == triangles[triangles.len() - 1 - k]);
    }
    lemma_stack(n, segments + 1, false, triangles, behind);
}

/// An open sweep along a path of two points has the faces of the prism over
/// the same profile, in another order: as many of them, and each as often.
pub proof fn lemma_straight_sweep(n: int, triangles: Seq<u64>)
    requires
        0 <= n,
    ensures
        sweep_faces(n, 2, false, triangles).len() == prism_faces(n, triangles).len(),
        sweep_faces(n, 2, false, triangles).to_multiset() == prism_faces(
            n,
            triangles,
        ).to_multiset(),
{
    let bottom = cap(triangles.reverse(), 0);
    let top = cap(triangles, n);
    let walls = strip(n, 0, n);
    assert(strips(n, 1) == Seq::<Seq<u64>>::empty());
    assert(strips(n, 2) == strips(n, 1) + strip(n, (2 - 2) * n, (2 - 1) * n));
    assert(strips(n, 2) == walls);
    assert(sweep_faces(n, 2, false, triangles) == bottom + walls + top);
    assert(prism_faces(n, triangles) == bottom + top + walls);
    vstd::seq_lib::lemma_multiset_commutative(bottom + walls, top);
    vstd::seq_lib::lemma_multiset_commutative(bottom, walls);
    vstd::seq_lib::lemma_multiset_commutative(bottom + top, walls);
    vstd::seq_lib::lemma_multiset_commutative(bottom, top);
    assert(bottom.to_multiset().add(walls.to_multiset()).add(top.to_multiset())
        =~= bottom.to_multiset().add(top.to_multiset()).add(walls.to_multiset()));
}

fn push_strip(faces: &mut Faces, n: usize, lower: usize, upper: usize)
    requires
        lower + n <= usize::MAX,
        upper + n <= usize::MAX,
    ensures
        final(faces)@ == old(faces)@ + strip(n as int, lower as int, upper as int),
{
    let mut p: usize = 0;
    while p < n
        invariant
            p <= n,
            lower + n <= usize::MAX,
            upper + n <= usize::MAX,
            faces@ == old(faces)@ + strip(n as int, lower as int, upper as int).take(p as int),
        decreases n - p,
    {
        let q: usize = if p == n - 1 {
            0
        } else {
            p + 1
        };
        let face = vec![
            (lower + p) as u64,
            (lower + q) as u64,
            (upper + q) as u64,
            (upper + p) as u64,
        ];
        assert(face@ == quad(n as int, lower as int, upper as int, p as int));
        faces.push(Indices::from_indices(face));
        p += 1;
        assert(faces@ == old(faces)@ + strip(n as int, lower as int, upper as int).take(
            p as int,
        ));
    }
    assert(strip(n as int, lower as int, upper as int).take(n as int) == strip(
        n as int,
        lower as int,
        upper as int,
    ));
}

fn push_cap(faces: &mut Faces, triangles: &Indices, offset: usize)
    requires
        forall|k: int| 0 <= k < triangles@.len() ==> triangles@[k] + offset <= usize::MAX,
    ensures
        final(faces)@ == old(faces)@ + cap(triangles@, offset as int),
{
    let list = triangles.as_vec();
    let count: usize = list.len() / 3;
    let mut t: usize = 0;
    while t < count
        invariant
            list@ == triangles@,
            count == list@.len() / 3,
            list@.len() <= usize::MAX,
            t <= count,
            forall|k: int| 0 <= k < triangles@.len() ==> triangles@[k] + offset <= usize::MAX,
            faces@ == old(faces)@ + cap(triangles@, offset as int).take(t as int),
        decreases count - t,
    {
        assert(3 * t + 3 <= list@.len());
        let face = vec![
            list[3 * t] + offset as u64,
            list[3 * t + 1] + offset as u64,
            list[3 * t + 2] + offset as u64,
        ];
        faces.push(Indices::from_indices(face));
        t += 1;
        assert(faces@ == old(faces)@ + cap(triangles@, offset as int).take(t as int));
    }
    assert(cap(triangles@, offset as int).take(count as int) == cap(triangles@, offset as int));
}

fn stack(n: usize, joints: usize, closed: bool, first: &Indices, last: &Indices) -> (faces:
    Faces)
    requires
        (joints + 1) * n <= usize::MAX,
        !closed ==> forall|k: int| 0 <= k < first@.len() ==> #[trigger] first@[k] < n,
        !closed ==> forall|k: int| 0 <= k < last@.len() ==> #[trigger] last@[k] < n,
    ensures
        faces@ == stack_faces(n as int, joints + 1, closed, first@, last@),
{
    let mut faces = Faces::new();
    if !closed {
        push_cap(&mut faces, first, 0);
    }
    let ghost front = faces@;
    let mut j: usize = 0;
    let mut lower: usize = 0;
    while j < joints
        invariant
            j <= joints,
            (joints + 1) * n <= usize::MAX,
            lower == j * n,
            faces@ == front + strips(n as int, j + 1),
        decreases joints - j,
    {
        proof {
            lemma_ring_span(n as int, j as int, joints + 1);
            lemma_ring_span(n as int, j + 1, joints + 1);
        }
        let upper: usize = lower + n;
        let ghost joined = faces@;
        push_strip(&mut faces, n, lower, upper);
        proof {
            let added = strip(n as int, lower as int, upper as int);
            assert(strips(n as int, j + 2) == strips(n as int, j + 1) + added);
            assert(front + strips(n as int, j + 2) == joined + added);
        }
        lower = upper;
        j += 1;
    }
    proof {
        lemma_ring_span(n as int, joints as int, joints + 1);
    }
    if closed {
        push_strip(&mut faces, n, lower, 0);
    } else {
        assert forall|k: int| 0 <= k < last@.len() implies last@[k] + lower <= usize::MAX by {
            assert(last@[k] < n);
        }
        push_cap(&mut faces, last, lower);
    }
    faces
}

fn revolve_ring<P, V, F: Fn(&P, usize, usize) -> V>(
    profile: &Vec<P>,
    place: &F,
    step: usize,
    segments: usize,
) -> (ring: Vec<V>)
    requires
        forall|i: int| 0 <= i < profile.len() ==> #[trigger] call_requires(*place, (&profile[i], step, segments)),
    ensures
        ring@.len() == profile.len(),
        forall|i: int|
            0 <= i < profile.len() ==> call_ensures(
                *place,
                (&profile[i], step, segments),
                #[trigger] ring[i],
            ),
{
    let mut ring: Vec<V> = Vec::new();
    let mut i: usize = 0;
    while i < profile.len()
        invariant
            i <= profile.len(),
            ring@.len() == i,
            forall|i: int|
                0 <= i < profile.len() ==> #[trigger] call_requires(
                    *place,
                    (&profile[i], step, segments),
                ),
            forall|k: int|
                0 <= k < i ==> call_ensures(
                    *place,
                    (&profile[k], step, segments),
                    #[trigger] ring[k],
                ),
        decreases profile.len() - i,
    {
        ring.push(place(&profile[i], step, segments));
        i += 1;
    }
    ring
}

fn sweep_ring<P, Q, V, F: Fn(&P, &Q, &Q, &Q, usize, usize) -> V>(
    profile: &Vec<P>,
    place: &F,
    from: &Q,
    to: &Q,
    at: &Q,
    step: usize,
    steps: usize,
) -> (ring: Vec<V>)
    requires
        forall|i: int|
            0 <= i < profile.len() ==> #[trigger] call_requires(
                *place,
                (&profile[i], from, to, at, step, steps),
            ),
    ensures
        ring@.len() == profile.len(),
        forall|i: int|
            0 <= i < profile.len() ==> call_ensures(
                *place,
                (&profile[i], from, to, at, step, steps),
                #[trigger] ring[i],
            ),
{
    let mut ring: Vec<V> = Vec::new();
    let mut i: usize = 0;
    while i < profile.len()
        invariant
            i <= profile.len(),
            ring@.len() == i,
            forall|i: int|
                0 <= i < profile.len() ==> #[trigger] call_requires(
                    *place,
                    (&profile[i], from, to, at, step, steps),
                ),
            forall|k: int|
                0 <= k < i ==> call_ensures(
                    *place,
                    (&profile[k], from, to, at, step, steps),
                    #[trigger] ring[k],
                ),
        decreases profile.len() - i,
    {
        ring.push(place(&profile[i], from, to, at, step, steps));
        i += 1;
    }
    ring
}

impl<V> Polyhedron<V> {
    /// Extrudes a clockwise profile into a prism.
    ///
    /// `lift` places a profile point on the bottom (`false`) or on the top
    /// (`true`).  The vertex list holds the bottom ring in profile order,
    /// then the top ring in the same order.  The faces are the bottom cap,
    /// wound the other way round so that it faces down, the top cap, and one
    /// quadrilateral wall per profile edge, the last one closing the ring.
    /// The profile is refused exactly when it cannot be triangulated.
    pub fn linear_extrude<P>(
        profile: &Vec<P>,
        lift: impl Fn(&P, bool) -> V,
        left_of: impl Fn(&P, &P) -> bool,
        is_ccw: impl Fn(&P, &P, &P) -> bool,
        in_triangle: impl Fn(&P, &P, &P, &P) -> bool,
    ) -> (r: Result<Polyhedron<V>, ExtrudeError>)
        requires
            answers_pairs(profile@, left_of),
            answers_triples(profile@, is_ccw),
            answers_quadruples(profile@, in_triangle),
            forall|i: int, top: bool|
                0 <= i < profile.len() ==> #[trigger] call_requires(lift, (&profile[i], top)),
        ensures
            match r {
                Ok(mesh) => {
                    let n = profile.len() as int;
                    let cut = triangulation(
                        n,
                        on_pairs(profile@, left_of),
                        on_triples(profile@, is_ccw),
                        on_quadruples(profile@, in_triangle),
                    );
                    &&& cut is Ok
                    &&& lifted(profile@, lift, mesh.points@)
                    &&& mesh.faces@ == prism_faces(n, cut.unwrap())
                    &&& mesh.faces@.len() == n + 2 * (n - 2)
                    &&& mesh.well_formed()
                },
                Err(e) => triangulation(
                    profile.len() as int,
                    on_pairs(profile@, left_of),
                    on_triples(profile@, is_ccw),
                    on_quadruples(profile@, in_triangle),
                ) == Err::<Seq<u64>, TriangulateError>(e->Profile_0) && e is Profile,
            },
    {
        let n = profile.len();
        let triangles = match triangulate(profile, left_of, is_ccw, in_triangle) {
            Ok(triangles) => triangles,
            Err(e) => {
                return Err(ExtrudeError::Profile(e));
            },
        };
        let mut points: Vec<V> = Vec::new();
        let mut i: usize = 0;
        while i < n
            invariant
                n == profile.len(),
                i <= n,
                points@.len() == i,
                forall|i: int, top: bool|
                    0 <= i < profile.len() ==> #[trigger] call_requires(lift, (&profile[i], top)),
                forall|k: int|
                    0 <= k < i ==> call_ensures(lift, (&profile[k], false), #[trigger] points[k]),
            decreases n - i,
        {
            points.push(lift(&profile[i], false));
            i += 1;
        }
        let mut i: usize = 0;
        while i < n
            invariant
                n == profile.len(),
                i <= n,
                points@.len() == n + i,
                forall|i: int, top: bool|
                    0 <= i < profile.len() ==> #[trigger] call_requires(lift, (&profile[i], top)),
                forall|k: int|
                    0 <= k < n ==> call_ensures(lift, (&profile[k], false), #[trigger] points[k]),
                forall|k: int|
                    n <= k < n + i ==> call_ensures(
                        lift,
                        (&profile[k - n], true),
                        #[trigger] points[k],
                    ),
            decreases n - i,
        {
            points.push(lift(&profile[i], true));
            i += 1;
        }
        assert(points.len() == 2 * n);
        let bottom = triangles.reversed();
        let mut faces = Faces::with_capacity(n);
        proof {
            assert forall|k: int| 0 <= k < bottom@.len() implies bottom@[k] + 0 <= usize::MAX by {
                assert(bottom@[k] == triangles@[triangles@.len() - 1 - k]);
            }
            assert forall|k: int| 0 <= k < triangles@.len() implies triangles@[k] + n
                <= usize::MAX by {
                assert(triangles@[k] < n);
            }
        }
        push_cap(&mut faces, &bottom, 0);
        push_cap(&mut faces, &triangles, n);
        push_strip(&mut faces, n, 0, n);
        proof {
            lemma_prism(n as int, triangles@);
        }
        Ok(Polyhedron { points, faces })
    }

    /// Revolves a clockwise profile about the vertical axis in `segments`
    /// angular steps.
    ///
    /// `place(p, step, segments)` puts the profile point `p` where it lies
    /// after `step` of `segments` steps of the turn; step 0 is the profile as
    /// given.  A closed revolution is a full turn: it has `segments` rings,
    /// the last joined to the first, and no caps.  An open one has
    /// `segments + 1` rings, the triangulated profile on the first and the
    /// same triangulation, wound the other way round, on the last.
    pub fn rotate_extrude<P>(
        profile: &Vec<P>,
        closed: bool,
        segments: usize,
        place: impl Fn(&P, usize, usize) -> V,
        left_of: impl Fn(&P, &P) -> bool,
        is_ccw: impl Fn(&P, &P, &P) -> bool,
        in_triangle: impl Fn(&P, &P, &P, &P) -> bool,
    ) -> (r: Result<Polyhedron<V>, ExtrudeError>)
        requires
            answers_pairs(profile@, left_of),
            answers_triples(profile@, is_ccw),
            answers_quadruples(profile@, in_triangle),
            forall|i: int, step: usize|
                0 <= i < profile.len() && step <= segments ==> #[trigger] call_requires(
                    place,
                    (&profile[i], step, segments),
                ),
        ensures
            match r {
                Ok(mesh) => {
                    let n = profile.len() as int;
                    let cut = triangulation(
                        n,
                        on_pairs(profile@, left_of),
                        on_triples(profile@, is_ccw),
                        on_quadruples(profile@, in_triangle),
                    );
                    let rings = if closed {
                        segments as int
                    } else {
                        segments + 1
                    };
                    &&& revolve_refusal(segments as int, closed, cut) is None
                    &&& revolved(profile@, place, segments, rings, mesh.points@)
                    &&& mesh.faces@ == revolve_faces(n, segments as int, closed, triangles_of(cut))
                    &&& mesh.well_formed()
                },
                Err(e) => revolve_refusal(
                    segments as int,
                    closed,
                    triangulation(
                        profile.len() as int,
                        on_pairs(profile@, left_of),
                        on_triples(profile@, is_ccw),
                        on_quadruples(profile@, in_triangle),
                    ),
                ) == Some(e),
            },
    {
        if segments < 3 {
            return Err(ExtrudeError::TooFewSegments);
        }
        let n = profile.len();
        let ghost cut = triangulation(
            n as int,
            on_pairs(profile@, left_of),
            on_triples(profile@, is_ccw),
            on_quadruples(profile@, in_triangle),
        );
        let (first, last) = if closed {
            (Indices::new(), Indices::new())
        } else {
            match triangulate(profile, left_of, is_ccw, in_triangle) {
                Ok(triangles) => {
                    let behind = triangles.reversed();
                    (triangles, behind)
                },
                Err(e) => {
                    return Err(ExtrudeError::Profile(e));
                },
            }
        };
        let joints: usize = if closed {
            segments - 1
        } else {
            segments
        };
        let mut points: Vec<V> = revolve_ring(profile, &place, 0, segments);
        proof {
            assert forall|r: int, i: int| 0 <= r < 1 && 0 <= i < n implies call_ensures(
                place,
                (&profile[i], r as usize, segments),
                #[trigger] points@[ring_vertex(n as int, r, i)],
            ) by {
                assert(ring_vertex(n as int, 0, i) == i);
            }
        }
        let mut j: usize = 0;
        while j < joints
            invariant
                n == profile.len(),
                j <= joints <= segments,
                forall|i: int, step: usize|
                    0 <= i < profile.len() && step <= segments ==> #[trigger] call_requires(
                        place,
                        (&profile[i], step, segments),
                    ),
                revolved(profile@, place, segments, j + 1, points@),
            decreases joints - j,
        {
            let mut ring = revolve_ring(profile, &place, j + 1, segments);
            let ghost before = points@;
            points.append(&mut ring);
            proof {
                lemma_ring_span(n as int, j + 1, j + 2);
                assert forall|r: int, i: int| 0 <= r < j + 2 && 0 <= i < n implies call_ensures(
                    place,
                    (&profile[i], r as usize, segments),
                    #[trigger] points@[ring_vertex(n as int, r, i)],
                ) by {
                    if r <= j {
                        lemma_ring_vertex(n as int, r, i, j + 1);
                        assert(points@[ring_vertex(n as int, r, i)] == before[ring_vertex(
                            n as int,
                            r,
                            i,
                        )]);
                    }
                }
            }
            j += 1;
        }
        assert(points.len() == points@.len());
        let faces = stack(n, joints, closed, &first, &last);
        proof {
            assert forall|k: int| 0 <= k < last@.len() implies #[trigger] last@[k] < n by {
                if !closed {
                    assert(last@[k] == first@[first@.len() - 1 - k]);
                }
            }
            lemma_stack(n as int, joints + 1, closed, first@, last@);
        }
        Ok(Polyhedron { points, faces })
    }

    /// Sweeps a clockwise profile along a path.
    ///
    /// One copy of the profile is placed at every path point.
    /// `place(p, from, to, at, step, steps)` puts the profile point `p` at
    /// the path point `at`, in the frame that looks from the path point
    /// `from` to the path point `to`, turned by `step` parts in `steps` of
    /// the whole twist.  The frame of a ring looks from the path point
    /// before it to the path point after it; at the ends of an open path it
    /// looks from or to the end itself, and on a closed path it wraps round.
    /// An open sweep is shut by the triangulated profile at both ends; a
    /// closed one joins its last ring to its first.
    ///
    /// The sweep is refused when the path has fewer than two points, when
    /// `same` finds two consecutive path points equal, or, for an open
    /// sweep, when the profile cannot be triangulated.
    pub fn sweep<P, Q>(
        profile: &Vec<P>,
        path: &Vec<Q>,
        closed: bool,
        same: impl Fn(&Q, &Q) -> bool,
        place: impl Fn(&P, &Q, &Q, &Q, usize, usize) -> V,
        left_of: impl Fn(&P, &P) -> bool,
        is_ccw: impl Fn(&P, &P, &P) -> bool,
        in_triangle: impl Fn(&P, &P, &P, &P) -> bool,
    ) -> (r: Result<Polyhedron<V>, ExtrudeError>)
        requires
            answers_pairs(profile@, left_of),
            answers_triples(profile@, is_ccw),
            answers_quadruples(profile@, in_triangle),
            answers_pairs(path@, same),
            forall|i: int, a: int, b: int, c: int, step: usize|
                0 <= i < profile.len() && 0 <= a < path.len() && 0 <= b < path.len() && 0 <= c
                    < path.len() && step < path.len() ==> #[trigger] call_requires(
                    place,
                    (
                        &profile[i],
                        &path[a],
                        &path[b],
                        &path[c],
                        step,
                        legs(path.len() as int, closed) as usize,
                    ),
                ),
        ensures
            match r {
                Ok(mesh) => {
                    let n = profile.len() as int;
                    let len = path.len() as int;
                    let cut = triangulation(
                        n,
                        on_pairs(profile@, left_of),
                        on_triples(profile@, is_ccw),
                        on_quadruples(profile@, in_triangle),
                    );
                    &&& len >= 2
                    &&& forall|i: int| !repeats_at(len, closed, on_pairs(path@, same), i)
                    &&& closed || cut is Ok
                    &&& swept(profile@, path@, closed, place, mesh.points@)
                    &&& mesh.faces@ == sweep_faces(n, len, closed, triangles_of(cut))
                    &&& mesh.well_formed()
                },
                Err(e) => sweep_refused(
                    path.len() as int,
                    closed,
                    on_pairs(path@, same),
                    triangulation(
                        profile.len() as int,
                        on_pairs(profile@, left_of),
                        on_triples(profile@, is_ccw),
                        on_quadruples(profile@, in_triangle),
                    ),
                    e,
                ),
            },
    {
        let n = profile.len();
        let len = path.len();
        if len < 2 {
            return Err(ExtrudeError::PathTooShort);
        }
        let steps: usize = if closed {
            len
        } else {
            len - 1
        };
        let ghost equal = on_pairs(path@, same);
        let mut i: usize = 0;
        while i < steps
            invariant
                len == path.len(),
                len >= 2,
                steps == legs(len as int, closed),
                i <= steps,
                answers_pairs(path@, same),
                equal == on_pairs(path@, same),
                forall|k: int| 0 <= k < i ==> !#[trigger] repeats_at(len as int, closed, equal, k),
            decreases steps - i,
        {
            let next: usize = if i == len - 1 {
                0
            } else {
                i + 1
            };
            if same(&path[i], &path[next]) {
                return Err(ExtrudeError::RepeatedPathPoint(i));
            }
            i += 1;
        }
        assert(forall|k: int| !repeats_at(len as int, closed, equal, k));
        let (first, last) = if closed {
            (Indices::new(), Indices::new())
        } else {
            match triangulate(profile, left_of, is_ccw, in_triangle) {
                Ok(triangles) => {
                    let behind = triangles.reversed();
                    (behind, triangles)
                },
                Err(e) => {
                    return Err(ExtrudeError::Profile(e));
                },
            }
        };
        assert(steps == legs(path.len() as int, closed) as usize);
        let mut points: Vec<V> = Vec::new();
        let mut r: usize = 0;
        while r < len
            invariant
                n == profile.len(),
                len == path.len(),
                len >= 2,
                steps == legs(len as int, closed),
                r <= len,
                forall|i: int, a: int, b: int, c: int, step: usize|
                    0 <= i < profile.len() && 0 <= a < path.len() && 0 <= b < path.len() && 0
                        <= c < path.len() && step < path.len() ==> #[trigger] call_requires(
                        place,
                        (&profile[i], &path[a], &path[b], &path[c], step, steps),
                    ),
                points@.len() == r * n,
                forall|q: int, i: int|
                    0 <= q < r && 0 <= i < n ==> call_ensures(
                        place,
                        (
                            &profile[i],
                            &path[frame_from(len as int, closed, q)],
                            &path[frame_to(len as int, closed, q)],
                            &path[q],
                            q as usize,
                            steps,
                        ),
                        #[trigger] points@[ring_vertex(n as int, q, i)],
                    ),
            decreases len - r,
        {
            let from: usize = if r == 0 {
                if closed {
                    len - 1
                } else {
                    0
                }
            } else {
                r - 1
            };
            let to: usize = if r == len - 1 {
                if closed {
                    0
                } else {
                    len - 1
                }
            } else {
                r + 1
            };
            let mut ring = sweep_ring(profile, &place, &path[from], &path[to], &path[r], r, steps);
            let ghost before = points@;
            points.append(&mut ring);
            proof {
                lemma_ring_span(n as int, r as int, r + 1);
                assert forall|q: int, i: int| 0 <= q < r + 1 && 0 <= i < n implies call_ensures(
                    place,
                    (
                        &profile[i],
                        &path[frame_from(len as int, closed, q)],
                        &path[frame_to(len as int, closed, q)],
                        &path[q],
                        q as usize,
                        steps,
                    ),
                    #[trigger] points@[ring_vertex(n as int, q, i)],
                ) by {
                    if q < r {
                        lemma_ring_vertex(n as int, q, i, r as int);
                        assert(points@[ring_vertex(n as int, q, i)] == before[ring_vertex(
                            n as int,
                            q,
                            i,
                        )]);
                    }
                }
            }
            r += 1;
        }
        assert(points.len() == points@.len());
        let faces = stack(n, len - 1, closed, &first, &last);
        proof {
            assert forall|k: int| 0 <= k < first@.len() implies #[trigger] first@[k] < n by {
                if !closed {
                    assert(first@[k] == last@[last@.len() - 1 - k]);
                }
            }
            lemma_stack(n as int, len as int, closed, first@, last@);
        }
        Ok(Polyhedron { points, faces })
    }
}

} // verus!
