//! Closed and open outlines made of sampled points.
//!
//! An outline is sampled at evenly spaced steps.  The functions here decide
//! how many points there are and in which order they come; what lies at a
//! given step is asked of the caller.

use vstd::prelude::*;

verus! {

/// The number of points on an arc of `segments` steps.  An open arc has a
/// point at both ends of every step.  A full turn ends where it starts, and
/// that point is listed once.
pub open spec fn arc_len(segments: int, full_turn: bool) -> int {
    if full_turn {
        segments
    } else {
        segments + 1
    }
}

/// The points of an arc of `segments` steps, from its start onwards.
///
/// `at(i, segments)` is the point `i` steps along.  A full turn stops one
/// step short of its start, so that the outline closes without a repeated
/// point.
pub fn arc<P>(segments: u64, full_turn: bool, at: impl Fn(u64, u64) -> P) -> (points: Vec<P>)
    requires
        forall|i: u64| i <= segments ==> #[trigger] call_requires(at, (i, segments)),
    ensures
        points@.len() == arc_len(segments as int, full_turn),
        forall|i: int|
            0 <= i < points@.len() ==> call_ensures(at, (i as u64, segments), #[trigger] points@[i]),
{
    let mut points: Vec<P> = Vec::new();
    let mut i: u64 = 0;
    while i < segments
        invariant
            i <= segments,
            points@.len() == i,
            forall|i: u64| i <= segments ==> #[trigger] call_requires(at, (i, segments)),
            forall|k: int|
                0 <= k < i ==> call_ensures(at, (k as u64, segments), #[trigger] points@[k]),
        decreases segments - i,
    {
        points.push(at(i, segments));
        i += 1;
    }
    if !full_turn {
        points.push(at(segments, segments));
    }
    points
}

/// The points of a star with `tips` tips: for every tip in turn the point
/// at the foot of the tip, then the point at its top.
///
/// `at(tip, top)` is the foot of tip `tip` when `top` is `false` and its top
/// otherwise.
pub fn star<P>(tips: usize, at: impl Fn(usize, bool) -> P) -> (points: Vec<P>)
    requires
        forall|tip: usize, top: bool| tip < tips ==> #[trigger] call_requires(at, (tip, top)),
    ensures
        points@.len() == 2 * tips,
        forall|i: int|
            0 <= i < points@.len() ==> call_ensures(
                at,
                ((i / 2) as usize, i % 2 == 1),
                #[trigger] points@[i],
            ),
{
    let mut points: Vec<P> = Vec::new();
    let mut tip: usize = 0;
    while tip < tips
        invariant
            tip <= tips,
            points@.len() == 2 * tip,
            forall|tip: usize, top: bool| tip < tips ==> #[trigger] call_requires(at, (tip, top)),
            forall|i: int|
                0 <= i < points@.len() ==> call_ensures(
                    at,
                    ((i / 2) as usize, i % 2 == 1),
                    #[trigger] points@[i],
                ),
        decreases tips - tip,
    {
        points.push(at(tip, false));
        points.push(at(tip, true));
        tip += 1;
    }
    points
}

/// The points of a rectangle with rounded corners: the four corner arcs in
/// turn, each of `segments` steps and listed with both its ends.
///
/// `at(corner, i, segments)` is the point `i` steps along the arc of corner
/// `corner` (0 to 3).
pub fn rounded_rect<P>(segments: u64, at: impl Fn(usize, u64, u64) -> P) -> (points: Vec<P>)
    requires
        forall|corner: usize, i: u64|
            corner < 4 && i <= segments ==> #[trigger] call_requires(at, (corner, i, segments)),
    ensures
        points@.len() == 4 * (segments + 1),
        forall|corner: int, i: int|
            0 <= corner < 4 && 0 <= i <= segments ==> call_ensures(
                at,
                (corner as usize, i as u64, segments),
                #[trigger] points@[corner_point(segments as int, corner, i)],
            ),
{
    let mut points: Vec<P> = Vec::new();
    let mut corner: usize = 0;
    while corner < 4
        invariant
            corner <= 4,
            points@.len() == corner * (segments + 1),
            forall|corner: usize, i: u64|
                corner < 4 && i <= segments ==> #[trigger] call_requires(
                    at,
                    (corner, i, segments),
                ),
            forall|c: int, i: int|
                0 <= c < corner && 0 <= i <= segments ==> call_ensures(
                    at,
                    (c as usize, i as u64, segments),
                    #[trigger] points@[corner_point(segments as int, c, i)],
                ),
        decreases 4 - corner,
    {
        let ghost base = points@.len() as int;
        let mut i: u64 = 0;
        while i < segments
            invariant
                corner < 4,
                i <= segments,
                base == corner * (segments + 1),
                points@.len() == base + i,
                forall|corner: usize, i: u64|
                    corner < 4 && i <= segments ==> #[trigger] call_requires(
                        at,
                        (corner, i, segments),
                    ),
                forall|c: int, k: int|
                    0 <= c < corner && 0 <= k <= segments ==> call_ensures(
                        at,
                        (c as usize, k as u64, segments),
                        #[trigger] points@[corner_point(segments as int, c, k)],
                    ),
                forall|k: int|
                    0 <= k < i ==> call_ensures(
                        at,
                        (corner, k as u64, segments),
                        #[trigger] points@[corner_point(segments as int, corner as int, k)],
                    ),
            decreases segments - i,
        {
            let ghost before = points@;
            points.push(at(corner, i, segments));
            proof {
                lemma_corner_points(segments as int, corner as int, before, points@);
            }
            i += 1;
        }
        let ghost before = points@;
        points.push(at(corner, segments, segments));
        proof {
            lemma_corner_points(segments as int, corner as int, before, points@);
            assert((corner + 1) * (segments + 1) == corner * (segments + 1) + segments + 1)
                by (nonlinear_arith);
        }
        corner += 1;
    }
    points
}

/// The index of the point `i` steps along the arc of corner `corner`.
pub open spec fn corner_point(segments: int, corner: int, i: int) -> int {
    corner * (segments + 1) + i
}

proof fn lemma_corner_points<P>(segments: int, corner: int, before: Seq<P>, after: Seq<P>)
    requires
        0 <= segments,
        0 <= corner,
        corner * (segments + 1) <= before.len(),
        after.len() == before.len() + 1,
        forall|k: int| 0 <= k < before.len() ==> after[k] == before[k],
    ensures
        forall|c: int, k: int|
            0 <= c < corner && 0 <= k <= segments ==> after[#[trigger] corner_point(
                segments,
                c,
                k,
            )] == before[corner_point(segments, c, k)],
        forall|k: int|
            0 <= k < before.len() - corner * (segments + 1) ==> after[#[trigger] corner_point(
                segments,
                corner,
                k,
            )] == before[corner_point(segments, corner, k)],
{
    assert forall|c: int, k: int| 0 <= c < corner && 0 <= k <= segments implies 0
        <= #[trigger] corner_point(segments, c, k) < before.len() by {
        assert(0 <= c * (segments + 1) && (c + 1) * (segments + 1) <= corner * (segments + 1)
            && (c + 1) * (segments + 1) == c * (segments + 1) + segments + 1)
            by (nonlinear_arith)
            requires
                0 <= c < corner,
                0 <= segments,
        ;
    }
}

} // verus!
