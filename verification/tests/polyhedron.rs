use scad_tree::{ExtrudeError, Indices, Polyhedron, TriangulateError};

type Pt2 = (f64, f64);
type Pt3 = (f64, f64, f64);

fn left_of(a: &Pt2, b: &Pt2) -> bool {
    a.0 < b.0 || ((a.0 - b.0).abs() < 1.0e-5 && a.1 < b.1)
}

fn is_ccw(a: &Pt2, b: &Pt2, c: &Pt2) -> bool {
    (b.0 - a.0) * (c.1 - a.1) - (c.0 - a.0) * (b.1 - a.1) > 0.0
}

fn in_triangle(p: &Pt2, a: &Pt2, b: &Pt2, c: &Pt2) -> bool {
    let denom = (b.1 - c.1) * (a.0 - c.0) + (c.0 - b.0) * (a.1 - c.1);
    if denom.abs() < 1.0e-5 {
        return false;
    }
    let alpha = ((b.1 - c.1) * (p.0 - c.0) + (c.0 - b.0) * (p.1 - c.1)) / denom;
    let beta = ((c.1 - a.1) * (p.0 - c.0) + (a.0 - c.0) * (p.1 - c.1)) / denom;
    let gamma = 1.0 - alpha - beta;
    alpha >= 0.0 && beta >= 0.0 && gamma >= 0.0
}

fn square() -> Vec<Pt2> {
    vec![(0.0, 0.0), (0.0, 1.0), (1.0, 1.0), (1.0, 0.0)]
}

fn counter_clockwise_square() -> Vec<Pt2> {
    vec![(0.0, 0.0), (1.0, 0.0), (1.0, 1.0), (0.0, 1.0)]
}

fn circle(radius: f64, segments: u64) -> Vec<Pt2> {
    (0..segments)
        .map(|i| {
            let a = (-360.0 * i as f64 / segments as f64).to_radians();
            (radius * a.cos(), radius * a.sin())
        })
        .collect()
}

fn faces_of<V>(mesh: &Polyhedron<V>) -> Vec<Vec<u64>> {
    mesh.faces.as_vec().iter().map(|f: &Indices| f.as_vec().clone()).collect()
}

fn assert_fits<V>(mesh: &Polyhedron<V>) {
    for face in faces_of(mesh) {
        assert!(face.len() >= 3);
        for index in face {
            assert!((index as usize) < mesh.points.len());
        }
    }
}

fn close(a: f64, b: f64) -> bool {
    (a - b).abs() < 1.0e-9
}

#[test]
fn prism_over_a_square() {
    let height = 2.5;
    let lift = |p: &Pt2, top: bool| (p.0, p.1, if top { height } else { 0.0 });
    let mesh = Polyhedron::linear_extrude(&square(), lift, left_of, is_ccw, in_triangle).unwrap();
    assert_eq!(
        mesh.points,
        vec![
            (0.0, 0.0, 0.0),
            (0.0, 1.0, 0.0),
            (1.0, 1.0, 0.0),
            (1.0, 0.0, 0.0),
            (0.0, 0.0, 2.5),
            (0.0, 1.0, 2.5),
            (1.0, 1.0, 2.5),
            (1.0, 0.0, 2.5),
        ]
    );
    assert_eq!(
        faces_of(&mesh),
        vec![
            vec![2, 1, 3],
            vec![1, 0, 3],
            vec![7, 4, 5],
            vec![7, 5, 6],
            vec![0, 1, 5, 4],
            vec![1, 2, 6, 5],
            vec![2, 3, 7, 6],
            vec![3, 0, 4, 7],
        ]
    );
    assert_fits(&mesh);
}

#[test]
fn prism_counts_follow_the_profile() {
    for n in [3u64, 5, 8, 17] {
        let height = 4.0;
        let lift = |p: &Pt2, top: bool| (p.0, p.1, if top { height } else { 0.0 });
        let mesh =
            Polyhedron::linear_extrude(&circle(5.0, n), lift, left_of, is_ccw, in_triangle)
                .unwrap();
        let n = n as usize;
        assert_eq!(mesh.points.len(), 2 * n);
        assert_eq!(mesh.faces.len(), n + 2 * (n - 2));
        let faces = faces_of(&mesh);
        assert!(faces[..2 * (n - 2)].iter().all(|f| f.len() == 3));
        for wall in &faces[2 * (n - 2)..] {
            assert_eq!(wall.len(), 4);
            for index in wall {
                let z = mesh.points[*index as usize].2;
                assert!(z == 0.0 || z == height);
            }
        }
        assert_fits(&mesh);
    }
}

#[test]
fn prism_needs_a_clockwise_profile_of_three_points() {
    let lift = |p: &Pt2, top: bool| (p.0, p.1, if top { 1.0 } else { 0.0 });
    let r = Polyhedron::linear_extrude(
        &counter_clockwise_square(),
        lift,
        left_of,
        is_ccw,
        in_triangle,
    );
    assert_eq!(r.err(), Some(ExtrudeError::Profile(TriangulateError::NotClockwise)));
    let two: Vec<Pt2> = vec![(0.0, 0.0), (1.0, 0.0)];
    let r = Polyhedron::linear_extrude(&two, lift, left_of, is_ccw, in_triangle);
    assert_eq!(r.err(), Some(ExtrudeError::Profile(TriangulateError::TooFewPoints)));
    let crossed: Vec<Pt2> = vec![(0.0, 0.0), (0.0, 2.0), (2.0, 0.0), (2.0, 2.0)];
    let r = Polyhedron::linear_extrude(&crossed, lift, left_of, is_ccw, in_triangle);
    assert_eq!(r.err(), Some(ExtrudeError::Profile(TriangulateError::NoEar)));
}

fn revolve(degrees: f64) -> impl Fn(&Pt2, usize, usize) -> Pt3 {
    move |p: &Pt2, step: usize, segments: usize| {
        let a = (degrees * step as f64 / segments as f64).to_radians();
        (p.0 * a.cos(), p.0 * a.sin(), p.1)
    }
}

fn ring_profile() -> Vec<Pt2> {
    vec![(1.0, 0.0), (1.0, 1.0), (2.0, 1.0), (2.0, 0.0)]
}

#[test]
fn full_turn_has_a_ring_per_segment_and_no_cap() {
    let mesh = Polyhedron::rotate_extrude(
        &ring_profile(),
        true,
        4,
        revolve(360.0),
        left_of,
        is_ccw,
        in_triangle,
    )
    .unwrap();
    assert_eq!(mesh.points.len(), 4 * 4);
    assert_eq!(mesh.faces.len(), 4 * 4);
    let faces = faces_of(&mesh);
    assert!(faces.iter().all(|f| f.len() == 4));
    assert_eq!(faces[0], vec![0, 1, 5, 4]);
    assert_eq!(faces[3], vec![3, 0, 4, 7]);
    assert_eq!(faces[4], vec![4, 5, 9, 8]);
    assert_eq!(faces[12], vec![12, 13, 1, 0]);
    assert_eq!(faces[15], vec![15, 12, 0, 3]);
    assert_fits(&mesh);
    assert_eq!(mesh.points[0], (1.0, 0.0, 0.0));
    let quarter = mesh.points[4];
    assert!(close(quarter.0, 0.0) && close(quarter.1, 1.0) && close(quarter.2, 0.0));
    // The last ring stops a step short of the first: no ring is listed twice.
    let last = mesh.points[12];
    assert!(close(last.0, 0.0) && close(last.1, -1.0));
}

#[test]
fn half_turn_has_one_ring_more_and_two_caps() {
    let mesh = Polyhedron::rotate_extrude(
        &ring_profile(),
        false,
        3,
        revolve(180.0),
        left_of,
        is_ccw,
        in_triangle,
    )
    .unwrap();
    assert_eq!(mesh.points.len(), 4 * 4);
    let faces = faces_of(&mesh);
    assert_eq!(faces.len(), 2 + 3 * 4 + 2);
    assert_eq!(faces.iter().filter(|f| f.len() == 3).count(), 4);
    assert_eq!(&faces[..2], &[vec![3, 0, 1], vec![3, 1, 2]]);
    assert!(faces[2..14].iter().all(|f| f.len() == 4));
    assert_eq!(faces[2], vec![0, 1, 5, 4]);
    assert_eq!(faces[13], vec![11, 8, 12, 15]);
    assert_eq!(&faces[14..], &[vec![14, 13, 15], vec![13, 12, 15]]);
    assert_fits(&mesh);
    let end = mesh.points[12];
    assert!(close(end.0, -1.0) && close(end.1, 0.0));
}

#[test]
fn revolution_refusals() {
    let r = Polyhedron::rotate_extrude(
        &ring_profile(),
        true,
        2,
        revolve(360.0),
        left_of,
        is_ccw,
        in_triangle,
    );
    assert_eq!(r.err(), Some(ExtrudeError::TooFewSegments));
    let r = Polyhedron::rotate_extrude(
        &counter_clockwise_square(),
        false,
        2,
        revolve(90.0),
        left_of,
        is_ccw,
        in_triangle,
    );
    assert_eq!(r.err(), Some(ExtrudeError::TooFewSegments));
    let r = Polyhedron::rotate_extrude(
        &counter_clockwise_square(),
        false,
        3,
        revolve(90.0),
        left_of,
        is_ccw,
        in_triangle,
    );
    assert_eq!(r.err(), Some(ExtrudeError::Profile(TriangulateError::NotClockwise)));
    // A full turn has no caps, so it takes a profile that has no inside.
    let r = Polyhedron::rotate_extrude(
        &counter_clockwise_square(),
        true,
        3,
        revolve(360.0),
        left_of,
        is_ccw,
        in_triangle,
    );
    assert_eq!(r.unwrap().faces.len(), 12);
}

fn same(a: &Pt3, b: &Pt3) -> bool {
    a == b
}

// Places the profile across a path that runs straight up.
fn upright(p: &Pt2, _from: &Pt3, _to: &Pt3, at: &Pt3, _step: usize, _steps: usize) -> Pt3 {
    (at.0 + p.0, at.1 + p.1, at.2)
}

#[test]
fn straight_sweep_of_a_circle_is_a_cylinder() {
    let profile = circle(5.0, 8);
    let path: Vec<Pt3> = vec![(0.0, 0.0, 0.0), (0.0, 0.0, 7.0)];
    let swept =
        Polyhedron::sweep(&profile, &path, false, same, upright, left_of, is_ccw, in_triangle)
            .unwrap();
    let lift = |p: &Pt2, top: bool| (p.0, p.1, if top { 7.0 } else { 0.0 });
    let prism = Polyhedron::linear_extrude(&profile, lift, left_of, is_ccw, in_triangle).unwrap();
    assert_eq!(swept.points.len(), 16);
    assert_eq!(swept.faces.len(), 8 + 2 * 6);
    assert_eq!(swept.points, prism.points);
    for p in &swept.points {
        assert!(close((p.0 * p.0 + p.1 * p.1).sqrt(), 5.0));
        assert!(p.2 == 0.0 || p.2 == 7.0);
    }
    let mut a = faces_of(&swept);
    let mut b = faces_of(&prism);
    assert_ne!(a, b);
    a.sort();
    b.sort();
    assert_eq!(a, b);
    assert_fits(&swept);
}

type Placed = (usize, usize, usize, usize, usize, usize);

fn record(p: &usize, from: &usize, to: &usize, at: &usize, step: usize, steps: usize) -> Placed {
    (*p, *from, *to, *at, step, steps)
}

fn same_id(a: &usize, b: &usize) -> bool {
    a == b
}

fn no(_: &usize, _: &usize) -> bool {
    false
}

fn never(_: &usize, _: &usize, _: &usize) -> bool {
    false
}

fn nowhere(_: &usize, _: &usize, _: &usize, _: &usize) -> bool {
    false
}

#[test]
fn open_sweep_frames_and_faces() {
    let profile: Vec<usize> = vec![0, 1, 2];
    let path: Vec<usize> = vec![10, 11, 12, 13];
    let mesh =
        Polyhedron::sweep(&profile, &path, false, same_id, record, no, never, nowhere).unwrap();
    assert_eq!(mesh.points.len(), 12);
    assert_eq!(mesh.points[0], (0, 10, 11, 10, 0, 3));
    assert_eq!(mesh.points[2], (2, 10, 11, 10, 0, 3));
    assert_eq!(mesh.points[3], (0, 10, 12, 11, 1, 3));
    assert_eq!(mesh.points[7], (1, 11, 13, 12, 2, 3));
    assert_eq!(mesh.points[11], (2, 12, 13, 13, 3, 3));
    assert_eq!(
        faces_of(&mesh),
        vec![
            vec![1, 0, 2],
            vec![0, 1, 4, 3],
            vec![1, 2, 5, 4],
            vec![2, 0, 3, 5],
            vec![3, 4, 7, 6],
            vec![4, 5, 8, 7],
            vec![5, 3, 6, 8],
            vec![6, 7, 10, 9],
            vec![7, 8, 11, 10],
            vec![8, 6, 9, 11],
            vec![11, 9, 10],
        ]
    );
    assert_fits(&mesh);
}

#[test]
fn closed_sweep_wraps_round() {
    let profile: Vec<usize> = vec![0, 1, 2];
    let path: Vec<usize> = vec![10, 11, 12];
    let mesh =
        Polyhedron::sweep(&profile, &path, true, same_id, record, no, never, nowhere).unwrap();
    assert_eq!(mesh.points.len(), 9);
    assert_eq!(mesh.points[0], (0, 12, 11, 10, 0, 3));
    assert_eq!(mesh.points[4], (1, 10, 12, 11, 1, 3));
    assert_eq!(mesh.points[8], (2, 11, 10, 12, 2, 3));
    let faces = faces_of(&mesh);
    assert_eq!(faces.len(), 9);
    assert!(faces.iter().all(|f| f.len() == 4));
    assert_eq!(faces[0], vec![0, 1, 4, 3]);
    assert_eq!(faces[6], vec![6, 7, 1, 0]);
    assert_eq!(faces[8], vec![8, 6, 0, 2]);
    assert_fits(&mesh);
}

#[test]
fn sweep_refusals() {
    let profile: Vec<usize> = vec![0, 1, 2];
    let short: Vec<usize> = vec![10];
    let r = Polyhedron::sweep(&profile, &short, false, same_id, record, no, never, nowhere);
    assert_eq!(r.err(), Some(ExtrudeError::PathTooShort));
    let empty: Vec<usize> = vec![];
    let r = Polyhedron::sweep(&profile, &empty, true, same_id, record, no, never, nowhere);
    assert_eq!(r.err(), Some(ExtrudeError::PathTooShort));

    let stutter: Vec<usize> = vec![10, 11, 11, 12, 12];
    let r = Polyhedron::sweep(&profile, &stutter, false, same_id, record, no, never, nowhere);
    assert_eq!(r.err(), Some(ExtrudeError::RepeatedPathPoint(1)));
    let late: Vec<usize> = vec![10, 11, 12, 12];
    let r = Polyhedron::sweep(&profile, &late, false, same_id, record, no, never, nowhere);
    assert_eq!(r.err(), Some(ExtrudeError::RepeatedPathPoint(2)));

    // Ending where it starts is fine for an open path, not for a closed one.
    let looped: Vec<usize> = vec![10, 11, 12, 10];
    let r = Polyhedron::sweep(&profile, &looped, false, same_id, record, no, never, nowhere);
    assert!(r.is_ok());
    let r = Polyhedron::sweep(&profile, &looped, true, same_id, record, no, never, nowhere);
    assert_eq!(r.err(), Some(ExtrudeError::RepeatedPathPoint(3)));

    let path: Vec<usize> = vec![10, 11];
    let thin: Vec<usize> = vec![0, 1];
    let r = Polyhedron::sweep(&thin, &path, false, same_id, record, no, never, nowhere);
    assert_eq!(r.err(), Some(ExtrudeError::Profile(TriangulateError::TooFewPoints)));
    let always = |_: &usize, _: &usize, _: &usize| true;
    let r = Polyhedron::sweep(&profile, &path, false, same_id, record, no, always, nowhere);
    assert_eq!(r.err(), Some(ExtrudeError::Profile(TriangulateError::NotClockwise)));
    // A closed sweep has no caps and asks nothing of the profile.
    let r = Polyhedron::sweep(&thin, &path, true, same_id, record, no, always, nowhere);
    assert_eq!(r.unwrap().faces.len(), 4);
}
