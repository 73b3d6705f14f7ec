use scad_tree::curve::sample;
use scad_tree::{CubicBezier, CubicBezierChain};

type Pt = (f64, f64);

fn cubic(curve: &CubicBezier<Pt>, i: u64) -> Pt {
    let t = i as f64 / curve.segments as f64;
    let u = 1.0 - t;
    let w = [u * u * u, 3.0 * t * u * u, 3.0 * t * t * u, t * t * t];
    let p = [curve.start, curve.control1, curve.control2, curve.end];
    (
        w[0] * p[0].0 + w[1] * p[1].0 + w[2] * p[2].0 + w[3] * p[3].0,
        w[0] * p[0].1 + w[1] * p[1].1 + w[2] * p[2].1 + w[3] * p[3].1,
    )
}

// The point that lies opposite `control` as seen from `end`, `length` away.
fn mirrored(length: f64) -> impl Fn(&Pt, &Pt) -> Pt {
    move |end: &Pt, control: &Pt| {
        let d = (end.0 - control.0, end.1 - control.1);
        let len = (d.0 * d.0 + d.1 * d.1).sqrt();
        (end.0 + d.0 / len * length, end.1 + d.1 / len * length)
    }
}

fn close(a: Pt, b: Pt) -> bool {
    (a.0 - b.0).abs() < 1.0e-9 && (a.1 - b.1).abs() < 1.0e-9
}

fn chain() -> CubicBezierChain<Pt> {
    CubicBezierChain::new((0.0, 0.0), (0.0, 1.0), (2.0, 3.0), (4.0, 3.0), 4)
}

#[test]
fn sample_lists_both_ends() {
    let steps = sample(3, |i: u64, segments: u64| (i, segments));
    assert_eq!(steps, vec![(0, 3), (1, 3), (2, 3), (3, 3)]);
    let line = sample(4, |i: u64, segments: u64| i as f64 / segments as f64 * 10.0);
    assert_eq!(line, vec![0.0, 2.5, 5.0, 7.5, 10.0]);
}

#[test]
fn new_chain_has_one_curve() {
    let chain = chain();
    assert!(!chain.is_closed());
    assert_eq!(chain.curves().len(), 1);
    let c = &chain.curves()[0];
    assert_eq!((c.start, c.control1, c.control2, c.end, c.segments),
        ((0.0, 0.0), (0.0, 1.0), (2.0, 3.0), (4.0, 3.0), 4));
}

#[test]
fn added_curve_starts_at_the_end_with_its_handle_opposite() {
    let mut chain = chain();
    assert!(chain.add(mirrored(1.5), (8.0, 0.0), (8.0, -2.0), 6));
    assert_eq!(chain.curves().len(), 2);
    let before = &chain.curves()[0];
    let new = &chain.curves()[1];
    assert_eq!(new.start, before.end);
    assert_eq!(new.control2, (8.0, 0.0));
    assert_eq!(new.end, (8.0, -2.0));
    assert_eq!(new.segments, 6);
    // The old control point, the joint and the new control point lie on one
    // line, the joint between the two, the new one 1.5 from the joint.
    assert!(close(new.control1, (5.5, 3.0)));
    let towards = (before.end.0 - before.control2.0, before.end.1 - before.control2.1);
    let away = (new.control1.0 - new.start.0, new.control1.1 - new.start.1);
    assert!((towards.0 * away.1 - towards.1 * away.0).abs() < 1.0e-9);
    assert!(towards.0 * away.0 + towards.1 * away.1 > 0.0);
    assert!(((away.0 * away.0 + away.1 * away.1).sqrt() - 1.5).abs() < 1.0e-9);
}

#[test]
fn closing_leads_back_to_the_start_and_turns_the_first_handle() {
    let mut chain = chain();
    assert!(chain.add(mirrored(1.5), (8.0, 0.0), (8.0, -2.0), 6));
    assert!(chain.close(mirrored(1.0), (0.0, -3.0), mirrored(2.0), 5));
    assert!(chain.is_closed());
    let curves = chain.curves();
    assert_eq!(curves.len(), 3);
    assert_eq!(curves[2].start, curves[1].end);
    assert!(close(curves[2].control1, (8.0, -3.0)));
    assert_eq!(curves[2].control2, (0.0, -3.0));
    assert_eq!(curves[2].end, curves[0].start);
    assert_eq!(curves[2].segments, 5);
    assert!(close(curves[0].control1, (0.0, 2.0)));
    assert_eq!(curves[0].start, (0.0, 0.0));
    assert_eq!(curves[0].control2, (2.0, 3.0));
    assert_eq!(curves[0].end, (4.0, 3.0));
    assert_eq!(curves[1].end, (8.0, -2.0));
}

#[test]
fn closed_chain_takes_no_more_curves() {
    let mut chain = chain();
    assert!(chain.close(mirrored(1.0), (0.0, -3.0), mirrored(2.0), 5));
    assert!(!chain.add(mirrored(1.0), (1.0, 1.0), (2.0, 2.0), 3));
    assert!(!chain.close(mirrored(1.0), (1.0, 1.0), mirrored(1.0), 3));
    assert_eq!(chain.curves().len(), 2);
    assert!(chain.is_closed());
}

#[test]
fn open_outline_lists_every_joint_once_and_both_ends() {
    let mut chain = chain();
    assert!(chain.add(mirrored(1.5), (8.0, 0.0), (8.0, -2.0), 6));
    let points = chain.gen_points(cubic);
    assert_eq!(points.len(), 4 + 6 + 1);
    assert!(close(points[0], (0.0, 0.0)));
    assert!(close(points[4], (4.0, 3.0)));
    assert!(close(points[10], (8.0, -2.0)));
    assert!(close(points[2], (1.25, 1.875)));
    for pair in points.windows(2) {
        assert!(!close(pair[0], pair[1]));
    }
}

#[test]
fn closed_outline_does_not_repeat_its_start() {
    let mut chain = chain();
    assert!(chain.add(mirrored(1.5), (8.0, 0.0), (8.0, -2.0), 6));
    assert!(chain.close(mirrored(1.0), (0.0, -3.0), mirrored(2.0), 5));
    let points = chain.gen_points(cubic);
    assert_eq!(points.len(), 4 + 6 + 5);
    assert!(close(points[0], (0.0, 0.0)));
    assert!(close(points[4], (4.0, 3.0)));
    assert!(close(points[10], (8.0, -2.0)));
    assert!(!close(points[14], points[0]));
}

#[test]
fn outline_records_curve_and_step() {
    let mut chain: CubicBezierChain<u64> = CubicBezierChain::new(10, 11, 12, 13, 2);
    assert!(chain.add(|_: &u64, _: &u64| 21, 22, 23, 0));
    assert!(chain.add(|end: &u64, control2: &u64| end * 100 + control2, 32, 33, 1));
    assert_eq!(chain.curves()[2].start, 23);
    assert_eq!(chain.curves()[2].control1, 2322);
    let points = chain.gen_points(|curve: &CubicBezier<u64>, i: u64| curve.end * 10 + i);
    assert_eq!(points, vec![130, 131, 330, 331]);
}

#[test]
fn chain_through_knots_closes_on_itself() {
    let knots: Vec<u64> = vec![10, 20, 30, 40];
    let control = |next: &u64, after_next: &u64, at: &u64, i: usize| {
        next * 1_000_000 + after_next * 10_000 + at * 100 + i as u64
    };
    let handle = |end: &u64, control2: &u64, i: usize| (end * 100_000_000 + control2) * 10 + i as u64;
    let chain = CubicBezierChain::through(&knots, control, handle, 3).unwrap();
    assert!(chain.is_closed());
    let curves = chain.curves();
    assert_eq!(curves.len(), 4);
    let starts: Vec<u64> = curves.iter().map(|c| c.start).collect();
    let ends: Vec<u64> = curves.iter().map(|c| c.end).collect();
    let seconds: Vec<u64> = curves.iter().map(|c| c.control2).collect();
    let firsts: Vec<u64> = curves.iter().map(|c| c.control1).collect();
    assert_eq!(starts, vec![10, 20, 30, 40]);
    assert_eq!(ends, vec![20, 30, 40, 10]);
    assert_eq!(seconds, vec![20_301_000, 30_402_001, 40_103_002, 10_204_003]);
    assert_eq!(
        firsts,
        vec![
            (10 * 100_000_000 + 10_204_003) * 10,
            (20 * 100_000_000 + 20_301_000) * 10 + 1,
            (30 * 100_000_000 + 30_402_001) * 10 + 2,
            (40 * 100_000_000 + 40_103_002) * 10 + 3,
        ]
    );
    assert!(curves.iter().all(|c| c.segments == 3));
    let points = chain.gen_points(|c: &CubicBezier<u64>, i: u64| c.start + i);
    assert_eq!(points, vec![10, 11, 12, 20, 21, 22, 30, 31, 32, 40, 41, 42]);
}

#[test]
fn no_chain_through_fewer_than_two_knots() {
    let control = |_: &u64, _: &u64, _: &u64, _: usize| 0u64;
    let handle = |_: &u64, _: &u64, _: usize| 0u64;
    assert!(CubicBezierChain::through(&vec![], control, handle, 3).is_none());
    assert!(CubicBezierChain::through(&vec![7], control, handle, 3).is_none());
    let two = CubicBezierChain::through(&vec![7, 9], control, handle, 3).unwrap();
    assert_eq!(two.curves().len(), 2);
    assert_eq!((two.curves()[1].start, two.curves()[1].end), (9, 7));
}

#[test]
fn star_chain_has_no_kink_at_its_knots() {
    let knots: Vec<Pt> = vec![(3.0, 0.0), (0.0, 1.0), (-3.0, 0.0), (0.0, -1.0)];
    let unit = |d: Pt| {
        let len = (d.0 * d.0 + d.1 * d.1).sqrt();
        (d.0 / len, d.1 / len)
    };
    let control = move |next: &Pt, after_next: &Pt, at: &Pt, _: usize| {
        let d = unit((after_next.0 - at.0, after_next.1 - at.1));
        (next.0 - d.0 * 0.5, next.1 - d.1 * 0.5)
    };
    let handle = move |end: &Pt, control2: &Pt, _: usize| {
        let d = unit((end.0 - control2.0, end.1 - control2.1));
        (end.0 + d.0 * 0.5, end.1 + d.1 * 0.5)
    };
    let chain = CubicBezierChain::through(&knots, control, handle, 8).unwrap();
    let curves = chain.curves();
    for i in 0..4 {
        let before = &curves[(i + 3) % 4];
        let c = &curves[i];
        assert_eq!(c.start, before.end);
        let towards = (before.end.0 - before.control2.0, before.end.1 - before.control2.1);
        let away = (c.control1.0 - c.start.0, c.control1.1 - c.start.1);
        assert!((towards.0 * away.1 - towards.1 * away.0).abs() < 1.0e-9);
        assert!(towards.0 * away.0 + towards.1 * away.1 > 0.0);
        assert!(((away.0 * away.0 + away.1 * away.1).sqrt() - 0.5).abs() < 1.0e-9);
    }
    assert_eq!(chain.gen_points(cubic).len(), 32);
}
