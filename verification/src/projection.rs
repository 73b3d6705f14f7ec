//! Flattening a planar polygon in space.
//!
//! A polygon in space is triangulated in the plane: it is projected along
//! the coordinate axis that its normal leans to most, with the first
//! coordinate mirrored where that is needed to keep its winding.

use crate::indices::Indices;
use crate::triangulate::{
    answers_pairs, answers_quadruples, answers_triples, flipped, on_pairs, on_quadruples,
    on_triples, outcome, triangulate, triangulation, TriangulateError,
};
use vstd::prelude::*;

verus! {

/// A coordinate axis.
#[derive(Debug, Clone, Copy, PartialEq, Eq, Structural)]
pub enum Axis {
    X,
    Y,
    Z,
}

/// A projection onto a coordinate plane, named by the axis it looks along
/// and the way it looks.
#[derive(Debug, Clone, Copy, PartialEq, Eq, Structural)]
pub enum Projection {
    PosX,
    NegX,
    PosY,
    NegY,
    PosZ,
    NegZ,
}

impl Projection {
    /// The axis that the projection looks along.
    pub open spec fn spec_along(self) -> Axis {
        match self {
            Projection::PosX | Projection::NegX => Axis::X,
            Projection::PosY | Projection::NegY => Axis::Y,
            Projection::PosZ | Projection::NegZ => Axis::Z,
        }
    }

    /// The projection is for a normal that points up its axis.
    pub open spec fn spec_upward(self) -> bool {
        self == Projection::PosX || self == Projection::PosY || self == Projection::PosZ
    }

    /// The axis that becomes the first coordinate in the plane.
    pub open spec fn spec_first(self) -> Axis {
        match self {
            Projection::PosX | Projection::NegX => Axis::Y,
            _ => Axis::X,
        }
    }

    /// The axis that becomes the second coordinate in the plane.
    pub open spec fn spec_second(self) -> Axis {
        match self {
            Projection::PosZ | Projection::NegZ => Axis::Y,
            _ => Axis::Z,
        }
    }

    /// The first coordinate changes sign on the way to the plane.
    pub open spec fn spec_mirrored(self) -> bool {
        self == Projection::NegX || self == Projection::PosY || self == Projection::NegZ
    }

    /// The axis that the projection looks along.
    #[verifier::when_used_as_spec(spec_along)]
    pub fn along(self) -> (axis: Axis)
        ensures
            axis == self.spec_along(),
    {
        match self {
            Projection::PosX | Projection::NegX => Axis::X,
            Projection::PosY | Projection::NegY => Axis::Y,
            Projection::PosZ | Projection::NegZ => Axis::Z,
        }
    }

    /// The axis that becomes the first coordinate in the plane.
    #[verifier::when_used_as_spec(spec_first)]
    pub fn first(self) -> (axis: Axis)
        ensures
            axis == self.spec_first(),
    {
        match self {
            Projection::PosX | Projection::NegX => Axis::Y,
            _ => Axis::X,
        }
    }

    /// The axis that becomes the second coordinate in the plane.
    #[verifier::when_used_as_spec(spec_second)]
    pub fn second(self) -> (axis: Axis)
        ensures
            axis == self.spec_second(),
    {
        match self {
            Projection::PosZ | Projection::NegZ => Axis::Y,
            _ => Axis::Z,
        }
    }

    /// Whether the first coordinate changes sign on the way to the plane.
    #[verifier::when_used_as_spec(spec_mirrored)]
    pub fn mirrored(self) -> (flip: bool)
        ensures
            flip == self.spec_mirrored(),
    {
        match self {
            Projection::NegX | Projection::PosY | Projection::NegZ => true,
            _ => false,
        }
    }
}

/// The axis that a turn from axis `a` to a different axis `b` goes round,
/// and whether the turn goes round it the right-handed way.
pub open spec fn turn(a: Axis, b: Axis) -> (Axis, bool) {
    match (a, b) {
        (Axis::X, Axis::Y) => (Axis::Z, true),
        (Axis::Y, Axis::Z) => (Axis::X, true),
        (Axis::Z, Axis::X) => (Axis::Y, true),
        (Axis::Y, Axis::X) => (Axis::Z, false),
        (Axis::Z, Axis::Y) => (Axis::X, false),
        (Axis::X, Axis::Z) => (Axis::Y, false),
        _ => (a, true),
    }
}

/// The projection for a normal that leans most to `axis` and points up it
/// or down it.
pub open spec fn projection_for(axis: Axis, upward: bool) -> Projection {
    match axis {
        Axis::X => if upward {
            Projection::PosX
        } else {
            Projection::NegX
        },
        Axis::Y => if upward {
            Projection::PosY
        } else {
            Projection::NegY
        },
        Axis::Z => if upward {
            Projection::PosZ
        } else {
            Projection::NegZ
        },
    }
}

/// The projection that the answers about a normal call for.  The axis is
/// the first of X, Y, Z that outweighs both others; there is none when no
/// axis does, as for a normal that is not a number.
pub open spec fn facing(
    outweighs: spec_fn(Axis, Axis) -> bool,
    rises: spec_fn(Axis) -> bool,
) -> Option<Projection> {
    if outweighs(Axis::X, Axis::Y) && outweighs(Axis::X, Axis::Z) {
        Some(projection_for(Axis::X, rises(Axis::X)))
    } else if outweighs(Axis::Y, Axis::X) && outweighs(Axis::Y, Axis::Z) {
        Some(projection_for(Axis::Y, rises(Axis::Y)))
    } else if outweighs(Axis::Z, Axis::X) && outweighs(Axis::Z, Axis::Y) {
        Some(projection_for(Axis::Z, rises(Axis::Z)))
    } else {
        None
    }
}

/// Every projection keeps the winding: the turn from its first plane axis to
/// its second goes round the axis it looks along, and it goes the way the
/// normal points exactly when the first coordinate is not mirrored.
pub proof fn lemma_projection_keeps_winding(p: Projection)
    ensures
        p.spec_first() != p.spec_second(),
        turn(p.spec_first(), p.spec_second()).0 == p.spec_along(),
        (turn(p.spec_first(), p.spec_second()).1 != p.spec_mirrored()) == p.spec_upward(),
{
}

/// The projection chosen for an axis looks along that axis, the way asked.
pub proof fn lemma_projection_for(axis: Axis, upward: bool)
    ensures
        projection_for(axis, upward).spec_along() == axis,
        projection_for(axis, upward).spec_upward() == upward,
{
}

/// `outweighs` may be asked about the normal and any two axes, `rises` about
/// the normal and any axis, and each gives one answer.
pub open spec fn answers_axes<N, W: Fn(&N, Axis, Axis) -> bool, R: Fn(&N, Axis) -> bool>(
    normal: N,
    outweighs: W,
    rises: R,
) -> bool {
    &&& forall|a: Axis, b: Axis| #[trigger] call_requires(outweighs, (&normal, a, b))
    &&& forall|a: Axis, b: Axis|
        !(#[trigger] call_ensures(outweighs, (&normal, a, b), true) && call_ensures(
            outweighs,
            (&normal, a, b),
            false,
        ))
    &&& forall|a: Axis| #[trigger] call_requires(rises, (&normal, a))
    &&& forall|a: Axis|
        !(#[trigger] call_ensures(rises, (&normal, a), true) && call_ensures(
            rises,
            (&normal, a),
            false,
        ))
}

/// The projection that `outweighs` and `rises` call for when they are asked
/// about `normal`.
pub open spec fn chosen<N, W: Fn(&N, Axis, Axis) -> bool, R: Fn(&N, Axis) -> bool>(
    normal: N,
    outweighs: W,
    rises: R,
) -> Option<Projection> {
    facing(
        |a: Axis, b: Axis| call_ensures(outweighs, (&normal, a, b), true),
        |a: Axis| call_ensures(rises, (&normal, a), true),
    )
}

/// Chooses the projection for a polygon with the given normal.
///
/// `outweighs(normal, a, b)` says whether the normal reaches at least as far
/// along axis `a` as along axis `b`, whichever way; `rises(normal, a)` says
/// whether it points up axis `a` rather than down.  The projection looks
/// along the first of X, Y, Z that outweighs the other two.
pub fn choose_projection<N>(
    normal: &N,
    outweighs: impl Fn(&N, Axis, Axis) -> bool,
    rises: impl Fn(&N, Axis) -> bool,
) -> (r: Option<Projection>)
    requires
        answers_axes(*normal, outweighs, rises),
    ensures
        r == chosen(*normal, outweighs, rises),
{
    if outweighs(normal, Axis::X, Axis::Y) && outweighs(normal, Axis::X, Axis::Z) {
        if rises(normal, Axis::X) {
            Some(Projection::PosX)
        } else {
            Some(Projection::NegX)
        }
    } else if outweighs(normal, Axis::Y, Axis::X) && outweighs(normal, Axis::Y, Axis::Z) {
        if rises(normal, Axis::Y) {
            Some(Projection::PosY)
        } else {
            Some(Projection::NegY)
        }
    } else if outweighs(normal, Axis::Z, Axis::X) && outweighs(normal, Axis::Z, Axis::Y) {
        if rises(normal, Axis::Z) {
            Some(Projection::PosZ)
        } else {
            Some(Projection::NegZ)
        }
    } else {
        None
    }
}

/// `f` may be asked about any two points, and gives one answer.
pub open spec fn answers_all_pairs<P, F: Fn(&P, &P) -> bool>(f: F) -> bool {
    &&& forall|a: P, b: P| #[trigger] call_requires(f, (&a, &b))
    &&& forall|a: P, b: P|
        !(#[trigger] call_ensures(f, (&a, &b), true) && call_ensures(f, (&a, &b), false))
}

/// `f` may be asked about any three points, and gives one answer.
pub open spec fn answers_all_triples<P, F: Fn(&P, &P, &P) -> bool>(f: F) -> bool {
    &&& forall|a: P, b: P, c: P| #[trigger] call_requires(f, (&a, &b, &c))
    &&& forall|a: P, b: P, c: P|
        !(#[trigger] call_ensures(f, (&a, &b, &c), true) && call_ensures(
            f,
            (&a, &b, &c),
            false,
        ))
}

/// `f` may be asked about any four points, and gives one answer.
pub open spec fn answers_all_quadruples<P, F: Fn(&P, &P, &P, &P) -> bool>(f: F) -> bool {
    &&& forall|a: P, b: P, c: P, d: P| #[trigger] call_requires(f, (&a, &b, &c, &d))
    &&& forall|a: P, b: P, c: P, d: P|
        !(#[trigger] call_ensures(f, (&a, &b, &c, &d), true) && call_ensures(
            f,
            (&a, &b, &c, &d),
            false,
        ))
}

/// `polygon` holds the vertices, each flattened by the projection `p`.
pub open spec fn flattened<V, P, F: Fn(&V, Projection) -> P>(
    vertices: Seq<V>,
    p: Projection,
    flatten: F,
    polygon: Seq<P>,
) -> bool {
    &&& polygon.len() == vertices.len()
    &&& forall|i: int|
        0 <= i < vertices.len() ==> call_ensures(flatten, (&vertices[i], p), #[trigger] polygon[i])
}

/// What triangulating a polygon in space comes to: there is no projection
/// for its normal and it is refused for that; or `r` is the outcome of
/// triangulating the vertices as the projection flattens them.
pub open spec fn triangulated_in_space<V, P, F, L, C, T>(
    vertices: Seq<V>,
    choice: Option<Projection>,
    flatten: F,
    left_of: L,
    is_ccw: C,
    in_triangle: T,
    r: Result<Seq<u64>, TriangulateError>,
) -> bool where
    F: Fn(&V, Projection) -> P,
    L: Fn(&P, &P) -> bool,
    C: Fn(&P, &P, &P) -> bool,
    T: Fn(&P, &P, &P, &P) -> bool,
 {
    match choice {
        None => r == Err::<Seq<u64>, TriangulateError>(TriangulateError::NoProjection),
        Some(p) => exists|polygon: Seq<P>|
            {
                &&& #[trigger] flattened(vertices, p, flatten, polygon)
                &&& r == triangulation(
                    polygon.len() as int,
                    on_pairs(polygon, left_of),
                    on_triples(polygon, is_ccw),
                    on_quadruples(polygon, in_triangle),
                )
            },
    }
}

/// Triangulates a planar polygon in space, listed clockwise as seen against
/// its normal.
///
/// The polygon is flattened along the axis that `choose_projection` picks
/// for the normal: `flatten(v, p)` is the vertex `v` in the plane of the
/// projection `p`.  The flat polygon is then triangulated by ear clipping,
/// and the triangles refer to the vertices by their positions in
/// `vertices`.
pub fn triangulate3d<V, N, P>(
    vertices: &Vec<V>,
    normal: &N,
    outweighs: impl Fn(&N, Axis, Axis) -> bool,
    rises: impl Fn(&N, Axis) -> bool,
    flatten: impl Fn(&V, Projection) -> P,
    left_of: impl Fn(&P, &P) -> bool,
    is_ccw: impl Fn(&P, &P, &P) -> bool,
    in_triangle: impl Fn(&P, &P, &P, &P) -> bool,
) -> (r: Result<Indices, TriangulateError>)
    requires
        answers_axes(*normal, outweighs, rises),
        forall|i: int, p: Projection|
            0 <= i < vertices.len() ==> #[trigger] call_requires(flatten, (&vertices[i], p)),
        answers_all_pairs(left_of),
        answers_all_triples(is_ccw),
        answers_all_quadruples(in_triangle),
    ensures
        triangulated_in_space(
            vertices@,
            chosen(*normal, outweighs, rises),
            flatten,
            left_of,
            is_ccw,
            in_triangle,
            outcome(r),
        ),
{
    let p = match choose_projection(normal, outweighs, rises) {
        Some(p) => p,
        None => {
            return Err(TriangulateError::NoProjection);
        },
    };
    let mut polygon: Vec<P> = Vec::new();
    let mut i: usize = 0;
    while i < vertices.len()
        invariant
            i <= vertices.len(),
            polygon@.len() == i,
            forall|i: int, p: Projection|
                0 <= i < vertices.len() ==> #[trigger] call_requires(flatten, (&vertices[i], p)),
            forall|k: int|
                0 <= k < i ==> call_ensures(flatten, (&vertices[k], p), #[trigger] polygon@[k]),
        decreases vertices.len() - i,
    {
        polygon.push(flatten(&vertices[i], p));
        i += 1;
    }
    assert(flattened(vertices@, p, flatten, polygon@));
    triangulate(&polygon, left_of, is_ccw, in_triangle)
}

/// Triangulates a planar polygon in space as `triangulate3d` does and turns
/// the list of entries round: the triangulation seen from behind.
pub fn triangulate3d_rev<V, N, P>(
    vertices: &Vec<V>,
    normal: &N,
    outweighs: impl Fn(&N, Axis, Axis) -> bool,
    rises: impl Fn(&N, Axis) -> bool,
    flatten: impl Fn(&V, Projection) -> P,
    left_of: impl Fn(&P, &P) -> bool,
    is_ccw: impl Fn(&P, &P, &P) -> bool,
    in_triangle: impl Fn(&P, &P, &P, &P) -> bool,
) -> (r: Result<Indices, TriangulateError>)
    requires
        answers_axes(*normal, outweighs, rises),
        forall|i: int, p: Projection|
            0 <= i < vertices.len() ==> #[trigger] call_requires(flatten, (&vertices[i], p)),
        answers_all_pairs(left_of),
        answers_all_triples(is_ccw),
        answers_all_quadruples(in_triangle),
    ensures
        exists|plain: Result<Seq<u64>, TriangulateError>|
            {
                &&& #[trigger] triangulated_in_space(
                    vertices@,
                    chosen(*normal, outweighs, rises),
                    flatten,
                    left_of,
                    is_ccw,
                    in_triangle,
                    plain,
                )
                &&& outcome(r) == flipped(plain)
            },
{
    match triangulate3d(vertices, normal, outweighs, rises, flatten, left_of, is_ccw, in_triangle) {
        Ok(triangles) => {
            let turned = triangles.reversed();
            assert(outcome(Ok(turned)) == flipped(outcome(Ok(triangles))));
            Ok(turned)
        },
        Err(e) => {
            assert(outcome(Err(e)) == flipped(outcome(Err(e))));
            Err(e)
        },
    }
}

} // verus!
