//! The shell of a helical thread.
//!
//! A thread is lofted from a cross-section of four corners that climbs a
//! helix in small angular steps: one ring of four vertices per step, joined
//! to the ring before it by a band of eight triangles, and shut at both ends
//! by two triangles.  Near its ends the thread may taper: over the lead-in
//! the crest grows from the root to its full height, over the lead-out it
//! shrinks back.  Which ring tapers, and how far along its taper it is, is
//! decided here; where a corner then lies is left to the caller.

use crate::indices::{Faces, Indices};
use crate::polyhedron::{faces_fit, ring_vertex, Polyhedron};
use vstd::prelude::*;

verus! {

/// How far the crest of the thread stands out at one ring.
#[derive(Debug, Clone, Copy, PartialEq, Eq, Structural)]
pub enum Taper {
    /// On the lead-in, this many parts of the way from its start to the full
    /// crest, in parts of the number of lead-in steps.
    LeadIn(usize),
    /// On the lead-out, this many parts of the way from the full crest to
    /// its end, in parts of the number of lead-out steps.
    LeadOut(usize),
    /// The full crest.
    Full,
}

/// The number of steps that taper in.  The lead-in starts three parts along,
/// so only what its step count has beyond three is left to walk.
pub open spec fn lead_in_span(lead_in: bool, lead_in_steps: int) -> int {
    if lead_in && lead_in_steps > 3 {
        lead_in_steps - 3
    } else {
        0
    }
}

/// The first step that tapers out: `lead_out_steps` before the end, or the
/// end of the lead-in where that comes later.
pub open spec fn lead_out_start(
    steps: int,
    lead_in: bool,
    lead_in_steps: int,
    lead_out_steps: int,
) -> int {
    if steps - lead_out_steps > lead_in_span(lead_in, lead_in_steps) {
        steps - lead_out_steps
    } else {
        lead_in_span(lead_in, lead_in_steps)
    }
}

/// The taper of the ring that step `s` adds.  The first steps walk the
/// lead-in, the first of them from its very start; the last steps walk the
/// lead-out; the steps between carry the full crest.
pub open spec fn taper_at(
    s: int,
    steps: int,
    lead_in: bool,
    lead_in_steps: int,
    lead_out: bool,
    lead_out_steps: int,
) -> Taper {
    if s < lead_in_span(lead_in, lead_in_steps) {
        Taper::LeadIn(
            if s == 0 {
                0usize
            } else {
                (s + 3) as usize
            },
        )
    } else if lead_out && lead_out_steps > 0 && s >= steps - lead_out_steps {
        Taper::LeadOut((s - lead_out_start(steps, lead_in, lead_in_steps, lead_out_steps)) as usize)
    } else {
        Taper::Full
    }
}

/// The taper of ring `r`: the first ring stands at the start of the lead-in,
/// every later ring is added by the step before it.
pub open spec fn ring_taper(
    r: int,
    steps: int,
    lead_in: bool,
    lead_in_steps: int,
    lead_out: bool,
    lead_out_steps: int,
) -> Taper {
    if r == 0 {
        Taper::LeadIn(0)
    } else {
        taper_at(r - 1, steps, lead_in, lead_in_steps, lead_out, lead_out_steps)
    }
}

/// The triangle `a`, `b`, `c`, wound the other way round for a left-hand
/// thread.
pub open spec fn triangle(a: int, b: int, c: int, left_hand: bool) -> Seq<u64> {
    if left_hand {
        seq![c as u64, b as u64, a as u64]
    } else {
        seq![a as u64, b as u64, c as u64]
    }
}

/// The two triangles that shut the first ring.
pub open spec fn start_cap(left_hand: bool) -> Seq<Seq<u64>> {
    seq![triangle(0, 1, 2, left_hand), triangle(2, 1, 3, left_hand)]
}

/// The eight triangles that join ring `s` to ring `s + 1`.
pub open spec fn band(s: int, left_hand: bool) -> Seq<Seq<u64>> {
    let o = 4 * s;
    seq![
        triangle(o + 1, o + 5, o + 3, left_hand),
        triangle(o + 3, o + 5, o + 7, left_hand),
        triangle(o, o + 4, o + 1, left_hand),
        triangle(o + 1, o + 4, o + 5, left_hand),
        triangle(o + 2, o + 6, o, left_hand),
        triangle(o, o + 6, o + 4, left_hand),
        triangle(o + 3, o + 7, o + 2, left_hand),
        triangle(o + 2, o + 7, o + 6, left_hand),
    ]
}

/// The first `count` bands, in order.
pub open spec fn bands(count: int, left_hand: bool) -> Seq<Seq<u64>>
    decreases count,
{
    if count <= 0 {
        Seq::empty()
    } else {
        bands(count - 1, left_hand) + band(count - 1, left_hand)
    }
}

/// The two triangles that shut the last of `steps` rings.
pub open spec fn end_cap(steps: int, left_hand: bool) -> Seq<Seq<u64>> {
    let o = 4 * (steps - 1);
    seq![triangle(o + 2, o + 3, o + 1, left_hand), triangle(o + 2, o + 1, o, left_hand)]
}

/// The faces of a thread of `steps` rings.
pub open spec fn thread_faces(steps: int, left_hand: bool) -> Seq<Seq<u64>> {
    start_cap(left_hand) + bands(steps - 1, left_hand) + end_cap(steps, left_hand)
}

/// `points` holds `steps` rings of four corners, ring after ring, and each
/// corner was placed with the taper of its ring.
pub open spec fn threaded<V, F: Fn(usize, usize, Taper) -> V>(
    steps: int,
    lead_in: bool,
    lead_in_steps: int,
    lead_out: bool,
    lead_out_steps: int,
    place: F,
    points: Seq<V>,
) -> bool {
    &&& points.len() == 4 * steps
    &&& forall|r: int, c: int|
        0 <= r < steps && 0 <= c < 4 ==> call_ensures(
            place,
            (
                c as usize,
                r as usize,
                ring_taper(r, steps, lead_in, lead_in_steps, lead_out, lead_out_steps),
            ),
            #[trigger] points[ring_vertex(4, r, c)],
        )
}

/// The first `count` bands are `8 * count` triangles, and they fit
/// `count + 1` rings.
pub proof fn lemma_bands(count: int, left_hand: bool)
    requires
        0 <= count,
        4 * (count + 1) <= u64::MAX,
    ensures
        bands(count, left_hand).len() == 8 * count,
        faces_fit(bands(count, left_hand), 4 * (count + 1)),
        forall|f: int|
            0 <= f < 8 * count ==> (#[trigger] bands(count, left_hand)[f]).len() == 3,
    decreases count,
{
    if count > 0 {
        lemma_bands(count - 1, left_hand);
        let head = bands(count - 1, left_hand);
        let tail = band(count - 1, left_hand);
        let whole = bands(count, left_hand);
        assert(whole == head + tail);
        assert forall|f: int| 0 <= f < whole.len() implies {
            &&& (#[trigger] whole[f]).len() == 3
            &&& forall|c: int| 0 <= c < whole[f].len() ==> #[trigger] whole[f][c] < 4 * (count + 1)
        } by {
            if f < head.len() {
                assert(whole[f] == head[f]);
            } else {
                assert(whole[f] == tail[f - head.len()]);
            }
        }
    }
}

/// A thread of `steps >= 2` rings has `8 * steps - 4` faces, all of them
/// triangles, and they fit its `4 * steps` vertices.
pub proof fn lemma_thread(steps: int, left_hand: bool)
    requires
        2 <= steps,
        4 * steps <= u64::MAX,
    ensures
        thread_faces(steps, left_hand).len() == 8 * steps - 4,
        faces_fit(thread_faces(steps, left_hand), 4 * steps),
        forall|f: int|
            0 <= f < 8 * steps - 4 ==> (#[trigger] thread_faces(steps, left_hand)[f]).len() == 3,
{
    lemma_bands(steps - 1, left_hand);
    let a = start_cap(left_hand);
    let b = bands(steps - 1, left_hand);
    let c = end_cap(steps, left_hand);
    let whole = thread_faces(steps, left_hand);
    assert forall|f: int| 0 <= f < whole.len() implies {
        &&& (#[trigger] whole[f]).len() == 3
        &&& forall|k: int| 0 <= k < whole[f].len() ==> #[trigger] whole[f][k] < 4 * steps
    } by {
        if f < 2 {
            assert(whole[f] == a[f]);
        } else if f < 2 + b.len() {
            assert(whole[f] == b[f - 2]);
        } else {
            assert(whole[f] == c[f - 2 - b.len()]);
        }
    }
}

fn push_triangle(faces: &mut Faces, a: usize, b: usize, c: usize, left_hand: bool)
    ensures
        final(faces)@ == old(faces)@.push(triangle(a as int, b as int, c as int, left_hand)),
{
    let face = if left_hand {
        vec![c as u64, b as u64, a as u64]
    } else {
        vec![a as u64, b as u64, c as u64]
    };
    assert(face@ == triangle(a as int, b as int, c as int, left_hand));
    faces.push(Indices::from_indices(face));
}

fn push_band(faces: &mut Faces, o: usize, left_hand: bool)
    requires
        o % 4 == 0,
        o + 7 <= usize::MAX,
    ensures
        final(faces)@ == old(faces)@ + band(o as int / 4, left_hand),
{
    push_triangle(faces, o + 1, o + 5, o + 3, left_hand);
    push_triangle(faces, o + 3, o + 5, o + 7, left_hand);
    push_triangle(faces, o, o + 4, o + 1, left_hand);
    push_triangle(faces, o + 1, o + 4, o + 5, left_hand);
    push_triangle(faces, o + 2, o + 6, o, left_hand);
    push_triangle(faces, o, o + 6, o + 4, left_hand);
    push_triangle(faces, o + 3, o + 7, o + 2, left_hand);
    push_triangle(faces, o + 2, o + 7, o + 6, left_hand);
    assert(faces@ == old(faces)@ + band(o as int / 4, left_hand));
}

fn push_corners<V, F: Fn(usize, usize, Taper) -> V>(
    points: &mut Vec<V>,
    place: &F,
    ring: usize,
    taper: Taper,
)
    requires
        forall|c: usize| c < 4 ==> #[trigger] call_requires(*place, (c, ring, taper)),
    ensures
        final(points)@.len() == old(points)@.len() + 4,
        final(points)@.subrange(0, old(points)@.len() as int) == old(points)@,
        call_ensures(*place, (0usize, ring, taper), final(points)@[old(points)@.len() as int + 0]),
        call_ensures(*place, (1usize, ring, taper), final(points)@[old(points)@.len() as int + 1]),
        call_ensures(*place, (2usize, ring, taper), final(points)@[old(points)@.len() as int + 2]),
        call_ensures(*place, (3usize, ring, taper), final(points)@[old(points)@.len() as int + 3]),
{
    points.push(place(0, ring, taper));
    points.push(place(1, ring, taper));
    points.push(place(2, ring, taper));
    points.push(place(3, ring, taper));
    assert(points@.subrange(0, old(points)@.len() as int) == old(points)@);
}

/// Builds the shell of a thread of `steps` rings.
///
/// `place(corner, ring, taper)` puts corner `corner` (0 to 3) of the
/// cross-section where it lies on ring `ring` when the crest stands out as
/// `taper` says.  The first ring stands at the start of the lead-in.  With
/// `lead_in` set, the steps that follow walk the rest of the lead-in, which
/// has `lead_in_steps` parts and is entered three parts along; with
/// `lead_out` set, the last `lead_out_steps` steps walk the lead-out, as far
/// as the lead-in has left them.  A thread needs two rings: with fewer there
/// is nothing to build.
pub fn threaded_shell<V>(
    steps: usize,
    lead_in: bool,
    lead_in_steps: usize,
    lead_out: bool,
    lead_out_steps: usize,
    left_hand: bool,
    place: impl Fn(usize, usize, Taper) -> V,
) -> (r: Option<Polyhedron<V>>)
    requires
        forall|c: usize, ring: usize, taper: Taper|
            c < 4 && ring < steps ==> #[trigger] call_requires(place, (c, ring, taper)),
    ensures
        match r {
            None => steps < 2,
            Some(mesh) => {
                &&& steps >= 2
                &&& threaded(
                    steps as int,
                    lead_in,
                    lead_in_steps as int,
                    lead_out,
                    lead_out_steps as int,
                    place,
                    mesh.points@,
                )
                &&& mesh.faces@ == thread_faces(steps as int, left_hand)
                &&& mesh.faces@.len() == 8 * steps - 4
                &&& mesh.well_formed()
            },
        },
{
    if steps < 2 {
        return None;
    }
    let mut points: Vec<V> = Vec::new();
    push_corners(&mut points, &place, 0, Taper::LeadIn(0));
    let mut faces = Faces::new();
    push_triangle(&mut faces, 0, 1, 2, left_hand);
    push_triangle(&mut faces, 2, 1, 3, left_hand);
    assert(faces@ == start_cap(left_hand) + bands(0, left_hand));
    let ghost span = lead_in_span(lead_in, lead_in_steps as int);
    let ghost out_from = lead_out_start(
        steps as int,
        lead_in,
        lead_in_steps as int,
        lead_out_steps as int,
    );
    let mut lead_in_step: usize = 3;
    let mut lead_out_step: usize = lead_out_steps;
    let mut s: usize = 0;
    while s < steps - 1
        invariant
            steps >= 2,
            s <= steps - 1,
            span == lead_in_span(lead_in, lead_in_steps as int),
            out_from == lead_out_start(
                steps as int,
                lead_in,
                lead_in_steps as int,
                lead_out_steps as int,
            ),
            lead_in_step == 3 + (if s < span {
                s as int
            } else {
                span
            }),
            lead_out_step == lead_out_steps - (if lead_out && lead_out_steps > 0 && s > out_from {
                s - out_from
            } else {
                0
            }),
            forall|c: usize, ring: usize, taper: Taper|
                c < 4 && ring < steps ==> #[trigger] call_requires(place, (c, ring, taper)),
            points@.len() == 4 * (s + 1),
            forall|r: int, c: int|
                0 <= r < s + 1 && 0 <= c < 4 ==> call_ensures(
                    place,
                    (
                        c as usize,
                        r as usize,
                        ring_taper(
                            r,
                            steps as int,
                            lead_in,
                            lead_in_steps as int,
                            lead_out,
                            lead_out_steps as int,
                        ),
                    ),
                    #[trigger] points@[ring_vertex(4, r, c)],
                ),
            faces@ == start_cap(left_hand) + bands(s as int, left_hand),
        decreases steps - 1 - s,
    {
        let taper = if lead_in && lead_in_step < lead_in_steps {
            let part: usize = if lead_in_step == 3 {
                0
            } else {
                lead_in_step
            };
            lead_in_step += 1;
            Taper::LeadIn(part)
        } else if lead_out && lead_out_step > 0 && lead_out_steps >= steps - s {
            let part: usize = lead_out_steps - lead_out_step;
            lead_out_step -= 1;
            Taper::LeadOut(part)
        } else {
            Taper::Full
        };
        assert(taper == taper_at(
            s as int,
            steps as int,
            lead_in,
            lead_in_steps as int,
            lead_out,
            lead_out_steps as int,
        ));
        let ghost before = points@;
        push_corners(&mut points, &place, s + 1, taper);
        proof {
            assert forall|r: int, c: int| 0 <= r < s + 2 && 0 <= c < 4 implies call_ensures(
                place,
                (
                    c as usize,
                    r as usize,
                    ring_taper(
                        r,
                        steps as int,
                        lead_in,
                        lead_in_steps as int,
                        lead_out,
                        lead_out_steps as int,
                    ),
                ),
                #[trigger] points@[ring_vertex(4, r, c)],
            ) by {
                if r <= s {
                    assert(points@[ring_vertex(4, r, c)] == points@.subrange(
                        0,
                        before.len() as int,
                    )[ring_vertex(4, r, c)]);
                }
            }
        }
        assert(points.len() == 4 * (s + 2));
        let ghost joined = faces@;
        push_band(&mut faces, 4 * s, left_hand);
        proof {
            let added = band(s as int, left_hand);
            assert(bands(s + 1, left_hand) == bands(s as int, left_hand) + added);
            assert(start_cap(left_hand) + bands(s + 1, left_hand) == joined + added);
        }
        s += 1;
    }
    assert(points.len() == 4 * steps);
    let o: usize = 4 * (steps - 1);
    let ghost joined = faces@;
    push_triangle(&mut faces, o + 2, o + 3, o + 1, left_hand);
    push_triangle(&mut faces, o + 2, o + 1, o, left_hand);
    proof {
        assert(faces@ == joined + end_cap(steps as int, left_hand));
        lemma_thread(steps as int, left_hand);
    }
    Some(Polyhedron { points, faces })
}

/// The sizes are listed in rising order, none of them twice.
pub open spec fn rising(sizes: Seq<i32>) -> bool {
    forall|i: int, j: int| 0 <= i < j < sizes.len() ==> sizes[i] < sizes[j]
}

/// Position `k` holds the size to use when `wanted` is asked for: the
/// largest listed size that is not larger than `wanted`, or the smallest
/// listed size when all are larger.
pub open spec fn serves(sizes: Seq<i32>, wanted: i32, k: int) -> bool {
    &&& 0 <= k < sizes.len()
    &&& if wanted < sizes[0] {
        k == 0
    } else {
        &&& sizes[k] <= wanted
        &&& forall|j: int| k < j < sizes.len() ==> wanted < #[trigger] sizes[j]
    }
}

/// Finds, in a list of sizes in rising order, the size to use when `wanted`
/// is asked for: `wanted` itself where it is listed, else the next smaller
/// size, else the smallest.  An empty list serves nothing.
pub fn nearest_size(sizes: &Vec<i32>, wanted: i32) -> (r: Option<usize>)
    requires
        rising(sizes@),
    ensures
        match r {
            None => sizes@.len() == 0,
            Some(k) => serves(sizes@, wanted, k as int),
        },
{
    if sizes.len() == 0 {
        return None;
    }
    if wanted < sizes[0] {
        return Some(0);
    }
    let mut low: usize = 0;
    let mut high: usize = sizes.len();
    while high - low > 1
        invariant
            rising(sizes@),
            low < high <= sizes@.len(),
            sizes@[low as int] <= wanted,
            forall|j: int| high <= j < sizes@.len() ==> wanted < #[trigger] sizes@[j],
        decreases high - low,
    {
        let middle: usize = low + (high - low) / 2;
        if sizes[middle] <= wanted {
            low = middle;
        } else {
            high = middle;
        }
    }
    Some(low)
}

} // verus!
