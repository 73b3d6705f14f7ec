//! Sampled curves and chains of cubic Bezier curves.
//!
//! A chain is a run of cubic curves in which every curve starts where the
//! one before it ends, with its first control point opposite the last
//! control point of the curve before, so that the chain has no kink.  A
//! chain can be closed once: the closing curve leads back to the start, and
//! a closed chain takes no more curves.

use crate::profile::arc;
use crate::triangulate::{after, before};
use vstd::prelude::*;

verus! {

/// The points of a curve sampled at `segments` steps, both ends included.
///
/// `at(i, segments)` is the point `i` steps along.
pub fn sample<P>(segments: u64, at: impl Fn(u64, u64) -> P) -> (points: Vec<P>)
    requires
        forall|i: u64| i <= segments ==> #[trigger] call_requires(at, (i, segments)),
    ensures
        points@.len() == segments + 1,
        forall|i: int|
            0 <= i <= segments ==> call_ensures(at, (i as u64, segments), #[trigger] points@[i]),
{
    arc(segments, false, at)
}

/// A cubic Bezier curve, to be drawn in `segments` steps.
#[derive(Clone, Copy, Debug, PartialEq)]
pub struct CubicBezier<P> {
    pub start: P,
    pub control1: P,
    pub control2: P,
    pub end: P,
    pub segments: u64,
}

/// Every curve but the first starts where the curve before it ends.
pub open spec fn connected<P>(curves: Seq<CubicBezier<P>>) -> bool {
    forall|i: int| 0 < i < curves.len() ==> (#[trigger] curves[i]).start == curves[i - 1].end
}

/// What a chain holds: its curves, and whether it has been closed.
pub struct ChainView<P> {
    pub curves: Seq<CubicBezier<P>>,
    pub closed: bool,
}

/// The chain has a curve, its curves are connected, and if it is closed its
/// last curve ends where its first starts.
pub open spec fn sound<P>(chain: ChainView<P>) -> bool {
    &&& chain.curves.len() >= 1
    &&& connected(chain.curves)
    &&& chain.closed ==> chain.curves.last().end == chain.curves[0].start
}

/// The number of points that curve `c` of a chain adds to its outline: one
/// per step.  The point at the end of a curve is the start of the next, or
/// of the first on a closed chain, and is listed there; only the last curve
/// of an open chain lists its own end.
pub open spec fn share<P>(chain: ChainView<P>, c: int) -> int {
    if c == chain.curves.len() - 1 && !chain.closed {
        chain.curves[c].segments + 1
    } else {
        chain.curves[c].segments as int
    }
}

/// The number of points that the first `c` curves of a chain add to its
/// outline.
pub open spec fn share_before<P>(chain: ChainView<P>, c: int) -> int
    decreases c,
{
    if c <= 0 {
        0
    } else {
        share_before(chain, c - 1) + share(chain, c - 1)
    }
}

/// The index, in the outline of a chain, of the point `i` steps along curve
/// `c`.
pub open spec fn outline_point<P>(chain: ChainView<P>, c: int, i: int) -> int {
    share_before(chain, c) + i
}

/// A chain of cubic Bezier curves.  Every chain that this module hands out
/// is `sound`, and stays so.
pub struct CubicBezierChain<P> {
    curves: Vec<CubicBezier<P>>,
    closed: bool,
}

impl<P> View for CubicBezierChain<P> {
    type V = ChainView<P>;

    closed spec fn view(&self) -> ChainView<P> {
        ChainView { curves: self.curves@, closed: self.closed }
    }
}

impl<P: Copy> Clone for CubicBezierChain<P> {
    fn clone(&self) -> (r: Self)
        ensures
            r@ == self@,
    {
        let mut curves: Vec<CubicBezier<P>> = Vec::new();
        let mut i: usize = 0;
        while i < self.curves.len()
            invariant
                i <= self.curves.len(),
                curves@ == self.curves@.take(i as int),
            decreases self.curves.len() - i,
        {
            let c = &self.curves[i];
            curves.push(
                CubicBezier {
                    start: c.start,
                    control1: c.control1,
                    control2: c.control2,
                    end: c.end,
                    segments: c.segments,
                },
            );
            i += 1;
        }
        assert(curves@ == self.curves@);
        CubicBezierChain { curves, closed: self.closed }
    }
}

impl<P: Copy> CubicBezierChain<P> {
    /// The open chain of one curve.
    pub fn new(start: P, control1: P, control2: P, end: P, segments: u64) -> (r: Self)
        ensures
            r@.curves == seq![CubicBezier { start, control1, control2, end, segments }],
            !r@.closed,
            sound(r@),
    {
        let mut curves: Vec<CubicBezier<P>> = Vec::new();
        curves.push(CubicBezier { start, control1, control2, end, segments });
        CubicBezierChain { curves, closed: false }
    }

    /// The curves of the chain.
    pub fn curves(&self) -> (curves: &Vec<CubicBezier<P>>)
        ensures
            curves@ == self@.curves,
    {
        &self.curves
    }

    /// Whether the chain has been closed.
    pub fn is_closed(&self) -> (closed: bool)
        ensures
            closed == self@.closed,
    {
        self.closed
    }

    /// Appends a curve to an open chain.
    ///
    /// The new curve starts at the end of the chain.  Its first control
    /// point is `handle(end, control2)` of the curve before it: the point
    /// that lies opposite that curve's last control point, as far from the
    /// joint as the caller wants it.  A closed chain is left as it is, and
    /// the answer is `false`.
    pub fn add(
        &mut self,
        handle: impl Fn(&P, &P) -> P,
        control2: P,
        end: P,
        segments: u64,
    ) -> (added: bool)
        requires
            sound(old(self)@),
            !old(self)@.closed ==> call_requires(
                handle,
                (&old(self)@.curves.last().end, &old(self)@.curves.last().control2),
            ),
        ensures
            added == !old(self)@.closed,
            !added ==> final(self)@ == old(self)@,
            added ==> {
                let before = old(self)@.curves;
                let last = before.last();
                let new = final(self)@.curves.last();
                &&& final(self)@.curves == before.push(new)
                &&& !final(self)@.closed
                &&& new.start == last.end
                &&& call_ensures(handle, (&last.end, &last.control2), new.control1)
                &&& new.control2 == control2
                &&& new.end == end
                &&& new.segments == segments
            },
            sound(final(self)@),
    {
        if self.closed {
            return false;
        }
        let count = self.curves.len();
        let start = self.curves[count - 1].end;
        let control1 = handle(&self.curves[count - 1].end, &self.curves[count - 1].control2);
        let ghost before = self.curves@;
        self.curves.push(CubicBezier { start, control1, control2, end, segments });
        assert(connected(self.curves@)) by {
            assert forall|i: int| 0 < i < self.curves@.len() implies (
            #[trigger] self.curves@[i]).start == self.curves@[i - 1].end by {
                if i < before.len() {
                    assert(self.curves@[i] == before[i]);
                    assert(self.curves@[i - 1] == before[i - 1]);
                }
            }
        }
        true
    }

    /// Closes an open chain.
    ///
    /// A curve is appended as by `add`, with `handle` and `control2`, that
    /// ends where the chain starts.  Then the first control point of the
    /// first curve is moved to `first_handle(end, control2)` of the closing
    /// curve, so that the chain runs through its start without a kink.  A
    /// chain that is closed already is left as it is, and the answer is
    /// `false`.
    pub fn close(
        &mut self,
        handle: impl Fn(&P, &P) -> P,
        control2: P,
        first_handle: impl Fn(&P, &P) -> P,
        segments: u64,
    ) -> (closed: bool)
        requires
            sound(old(self)@),
            !old(self)@.closed ==> call_requires(
                handle,
                (&old(self)@.curves.last().end, &old(self)@.curves.last().control2),
            ),
            !old(self)@.closed ==> call_requires(
                first_handle,
                (&old(self)@.curves[0].start, &control2),
            ),
        ensures
            closed == !old(self)@.closed,
            !closed ==> final(self)@ == old(self)@,
            closed ==> {
                let before = old(self)@.curves;
                let after = final(self)@.curves;
                let last = before.last();
                let new = after.last();
                &&& final(self)@.closed
                &&& after.len() == before.len() + 1
                &&& forall|i: int| 0 < i < before.len() ==> after[i] == before[i]
                &&& new.start == last.end
                &&& call_ensures(handle, (&last.end, &last.control2), new.control1)
                &&& new.control2 == control2
                &&& new.end == before[0].start
                &&& new.segments == segments
                &&& after[0].start == before[0].start
                &&& call_ensures(first_handle, (&new.end, &new.control2), after[0].control1)
                &&& after[0].control2 == before[0].control2
                &&& after[0].end == before[0].end
                &&& after[0].segments == before[0].segments
            },
            sound(final(self)@),
    {
        if self.closed {
            return false;
        }
        let count = self.curves.len();
        let first = CubicBezier {
            start: self.curves[0].start,
            control1: self.curves[0].control1,
            control2: self.curves[0].control2,
            end: self.curves[0].end,
            segments: self.curves[0].segments,
        };
        let start = self.curves[count - 1].end;
        let control1 = handle(&self.curves[count - 1].end, &self.curves[count - 1].control2);
        let end = first.start;
        let turned = first_handle(&end, &control2);
        let ghost before = self.curves@;
        self.curves.push(CubicBezier { start, control1, control2, end, segments });
        self.curves.set(
            0,
            CubicBezier {
                start: first.start,
                control1: turned,
                control2: first.control2,
                end: first.end,
                segments: first.segments,
            },
        );
        self.closed = true;
        assert(connected(self.curves@)) by {
            assert forall|i: int| 0 < i < self.curves@.len() implies (
            #[trigger] self.curves@[i]).start == self.curves@[i - 1].end by {
                if i < before.len() {
                    assert(self.curves@[i] == before[i]);
                    if i > 1 {
                        assert(self.curves@[i - 1] == before[i - 1]);
                    }
                }
            }
        }
        true
    }

    /// The closed chain that runs through the knots in turn and back to the
    /// first.
    ///
    /// Curve `i` runs from knot `i` to the knot after it.  Its second control
    /// point is `control(next, after_next, at, i)`, asked of the knot it ends
    /// at, the knot after that and the knot it starts at.  Its first control
    /// point is `handle(end, control2, i)` of the curve before it, that is,
    /// of the last curve for curve 0.  There is no such chain through fewer
    /// than two knots.
    pub fn through(
        knots: &Vec<P>,
        control: impl Fn(&P, &P, &P, usize) -> P,
        handle: impl Fn(&P, &P, usize) -> P,
        segments: u64,
    ) -> (r: Option<Self>)
        requires
            forall|a: int, b: int, c: int, i: usize|
                0 <= a < knots.len() && 0 <= b < knots.len() && 0 <= c < knots.len() && i
                    < knots.len() ==> #[trigger] call_requires(
                    control,
                    (&knots[a], &knots[b], &knots[c], i),
                ),
            forall|a: &P, b: &P, i: usize|
                i < knots.len() ==> #[trigger] call_requires(handle, (a, b, i)),
        ensures
            match r {
                None => knots.len() < 2,
                Some(chain) => {
                    let curves = chain@.curves;
                    let count = knots.len() as int;
                    &&& count >= 2
                    &&& chain@.closed
                    &&& sound(chain@)
                    &&& curves.len() == count
                    &&& forall|i: int|
                        0 <= i < count ==> {
                            let c = #[trigger] curves[i];
                            let last = curves[before(count, i)];
                            &&& c.start == knots[i]
                            &&& c.end == knots[after(count, i)]
                            &&& c.segments == segments
                            &&& call_ensures(
                                control,
                                (
                                    &knots[after(count, i)],
                                    &knots[after(count, after(count, i))],
                                    &knots[i],
                                    i as usize,
                                ),
                                c.control2,
                            )
                            &&& call_ensures(
                                handle,
                                (&last.end, &last.control2, i as usize),
                                c.control1,
                            )
                        }
                },
            },
    {
        let count = knots.len();
        if count < 2 {
            return None;
        }
        let mut curves: Vec<CubicBezier<P>> = Vec::new();
        let mut i: usize = 0;
        while i < count
            invariant
                count == knots.len(),
                count >= 2,
                i <= count,
                curves@.len() == i,
                forall|a: int, b: int, c: int, i: usize|
                    0 <= a < knots.len() && 0 <= b < knots.len() && 0 <= c < knots.len() && i
                        < knots.len() ==> #[trigger] call_requires(
                        control,
                        (&knots[a], &knots[b], &knots[c], i),
                    ),
                forall|a: &P, b: &P, i: usize|
                    i < knots.len() ==> #[trigger] call_requires(handle, (a, b, i)),
                forall|k: int|
                    0 <= k < i ==> {
                        let c = #[trigger] curves@[k];
                        &&& c.start == knots[k]
                        &&& c.end == knots[after(count as int, k)]
                        &&& c.segments == segments
                        &&& call_ensures(
                            control,
                            (
                                &knots[after(count as int, k)],
                                &knots[after(count as int, after(count as int, k))],
                                &knots[k],
                                k as usize,
                            ),
                            c.control2,
                        )
                        &&& 0 < k ==> call_ensures(
                            handle,
                            (&curves@[k - 1].end, &curves@[k - 1].control2, k as usize),
                            c.control1,
                        )
                    },
            decreases count - i,
        {
            let next: usize = if i == count - 1 {
                0
            } else {
                i + 1
            };
            let after_next: usize = if next == count - 1 {
                0
            } else {
                next + 1
            };
            let control2 = control(&knots[next], &knots[after_next], &knots[i], i);
            let control1 = if i == 0 {
                control2
            } else {
                handle(&curves[i - 1].end, &curves[i - 1].control2, i)
            };
            curves.push(
                CubicBezier {
                    start: knots[i],
                    control1,
                    control2,
                    end: knots[next],
                    segments,
                },
            );
            i += 1;
        }
        let first = &curves[0];
        let last = &curves[count - 1];
        let turned = CubicBezier {
            start: first.start,
            control1: handle(&last.end, &last.control2, 0),
            control2: first.control2,
            end: first.end,
            segments: first.segments,
        };
        let ghost built = curves@;
        curves.set(0, turned);
        let chain = CubicBezierChain { curves, closed: true };
        proof {
            assert forall|k: int| 0 <= k < count implies {
                let c = #[trigger] chain@.curves[k];
                let last = chain@.curves[before(count as int, k)];
                &&& c.start == knots[k]
                &&& c.end == knots[after(count as int, k)]
                &&& c.segments == segments
                &&& call_ensures(
                    control,
                    (
                        &knots[after(count as int, k)],
                        &knots[after(count as int, after(count as int, k))],
                        &knots[k],
                        k as usize,
                    ),
                    c.control2,
                )
                &&& call_ensures(handle, (&last.end, &last.control2, k as usize), c.control1)
            } by {
                if k > 0 {
                    assert(chain@.curves[k] == built[k]);
                    assert(chain@.curves[k - 1].end == built[k - 1].end);
                    assert(chain@.curves[k - 1].control2 == built[k - 1].control2);
                } else {
                    assert(built[0].start == knots[0]);
                    assert(chain@.curves[count - 1] == built[count - 1]);
                }
            }
            assert(connected(chain@.curves)) by {
                assert forall|k: int| 0 < k < chain@.curves.len() implies (
                #[trigger] chain@.curves[k]).start == chain@.curves[k - 1].end by {
                    assert(chain@.curves[k] == built[k]);
                    assert(chain@.curves[k - 1].end == built[k - 1].end);
                    assert(built[k].start == knots[k]);
                    assert(built[k - 1].end == knots[after(count as int, k - 1)]);
                }
            }
        }
        Some(chain)
    }

    /// The outline of the chain: its curves sampled one after the other,
    /// every joint listed once.
    ///
    /// `at(curve, i)` is the point `i` steps along `curve`.  Each curve adds
    /// one point per step, from its start up to the step before its end;
    /// the last curve of an open chain adds its end as well.
    pub fn gen_points(&self, at: impl Fn(&CubicBezier<P>, u64) -> P) -> (points: Vec<P>)
        requires
            forall|c: int, i: u64|
                0 <= c < self@.curves.len() && i <= self@.curves[c].segments
                    ==> #[trigger] call_requires(at, (&self@.curves[c], i)),
        ensures
            points@.len() == share_before(self@, self@.curves.len() as int),
            forall|c: int, i: int|
                0 <= c < self@.curves.len() && 0 <= i < share(self@, c) ==> call_ensures(
                    at,
                    (&self@.curves[c], i as u64),
                    #[trigger] points@[outline_point(self@, c, i)],
                ),
    {
        let count = self.curves.len();
        let mut points: Vec<P> = Vec::new();
        let mut c: usize = 0;
        while c < count
            invariant
                count == self.curves@.len(),
                c <= count,
                forall|c: int, i: u64|
                    0 <= c < self@.curves.len() && i <= self@.curves[c].segments
                        ==> #[trigger] call_requires(at, (&self@.curves[c], i)),
                points@.len() == share_before(self@, c as int),
                forall|d: int, i: int|
                    0 <= d < c && 0 <= i < share(self@, d) ==> call_ensures(
                        at,
                        (&self@.curves[d], i as u64),
                        #[trigger] points@[outline_point(self@, d, i)],
                    ),
            decreases count - c,
        {
            let curve = &self.curves[c];
            let keep_end = c == count - 1 && !self.closed;
            let ghost base = points@.len() as int;
            let mut i: u64 = 0;
            while i < curve.segments
                invariant
                    count == self.curves@.len(),
                    c < count,
                    *curve == self@.curves[c as int],
                    i <= curve.segments,
                    base == share_before(self@, c as int),
                    points@.len() == base + i,
                    forall|c: int, i: u64|
                        0 <= c < self@.curves.len() && i <= self@.curves[c].segments
                            ==> #[trigger] call_requires(at, (&self@.curves[c], i)),
                    forall|d: int, k: int|
                        0 <= d < c && 0 <= k < share(self@, d) ==> call_ensures(
                            at,
                            (&self@.curves[d], k as u64),
                            #[trigger] points@[outline_point(self@, d, k)],
                        ),
                    forall|k: int|
                        0 <= k < i ==> call_ensures(
                            at,
                            (&self@.curves[c as int], k as u64),
                            #[trigger] points@[outline_point(self@, c as int, k)],
                        ),
                decreases curve.segments - i,
            {
                let ghost before = points@;
                points.push(at(curve, i));
                proof {
                    lemma_outline_kept(self@, c as int, before, points@);
                }
                i += 1;
            }
            if keep_end {
                let ghost before = points@;
                points.push(at(curve, curve.segments));
                proof {
                    lemma_outline_kept(self@, c as int, before, points@);
                }
            }
            c += 1;
        }
        points
    }
}

/// The points that earlier curves added lie before the points of curve `c`.
pub proof fn lemma_share_before<P>(chain: ChainView<P>, d: int, c: int)
    requires
        0 <= d < c,
    ensures
        0 <= share_before(chain, d),
        share_before(chain, d) + share(chain, d) <= share_before(chain, c),
    decreases c,
{
    lemma_share_nonnegative(chain, d);
    if d < c - 1 {
        lemma_share_before(chain, d, c - 1);
        lemma_share_nonnegative(chain, c - 1);
        assert(share(chain, c - 1) >= 0);
    }
}

/// No curve adds a negative number of points.
pub proof fn lemma_share_nonnegative<P>(chain: ChainView<P>, c: int)
    requires
        0 <= c,
    ensures
        0 <= share_before(chain, c),
        0 <= share(chain, c),
    decreases c,
{
    if c > 0 {
        lemma_share_nonnegative(chain, c - 1);
    }
}

proof fn lemma_outline_kept<P>(chain: ChainView<P>, c: int, before: Seq<P>, after: Seq<P>)
    requires
        0 <= c,
        share_before(chain, c) <= before.len(),
        after.len() == before.len() + 1,
        forall|k: int| 0 <= k < before.len() ==> after[k] == before[k],
    ensures
        forall|d: int, k: int|
            0 <= d < c && 0 <= k < share(chain, d) ==> after[#[trigger] outline_point(chain, d, k)]
                == before[outline_point(chain, d, k)],
        forall|k: int|
            0 <= k < before.len() - share_before(chain, c) ==> after[#[trigger] outline_point(
                chain,
                c,
                k,
            )] == before[outline_point(chain, c, k)],
{
    assert forall|d: int, k: int| 0 <= d < c && 0 <= k < share(chain, d) implies 0
        <= #[trigger] outline_point(chain, d, k) < before.len() by {
        lemma_share_before(chain, d, c);
    }
    lemma_share_nonnegative(chain, c);
}

} // verus!
