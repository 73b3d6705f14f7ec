use scad_tree::{triangulate, triangulate_rev, TriangulateError};

type Pt = (f64, f64);

fn left_of(a: &Pt, b: &Pt) -> bool {
    a.0 < b.0 || ((a.0 - b.0).abs() < 1.0e-5 && a.1 < b.1)
}

fn cross(a: &Pt, b: &Pt, c: &Pt) -> f64 {
    (b.0 - a.0) * (c.1 - a.1) - (c.0 - a.0) * (b.1 - a.1)
}

fn is_ccw(a: &Pt, b: &Pt, c: &Pt) -> bool {
    cross(a, b, c) > 0.0
}

// The same question with the second coordinate growing downward.
fn is_ccw_on_screen(a: &Pt, b: &Pt, c: &Pt) -> bool {
    cross(a, b, c) < 0.0
}

fn in_triangle(p: &Pt, a: &Pt, b: &Pt, c: &Pt) -> bool {
    let denom = (b.1 - c.1) * (a.0 - c.0) + (c.0 - b.0) * (a.1 - c.1);
    if denom.abs() < 1.0e-5 {
        return false;
    }
    let alpha = ((b.1 - c.1) * (p.0 - c.0) + (c.0 - b.0) * (p.1 - c.1)) / denom;
    let beta = ((c.1 - a.1) * (p.0 - c.0) + (a.0 - c.0) * (p.1 - c.1)) / denom;
    let gamma = 1.0 - alpha - beta;
    alpha >= 0.0 && beta >= 0.0 && gamma >= 0.0
}

fn triangles_area(points: &[Pt], triangles: &[u64]) -> f64 {
    let mut sum = 0.0;
    for t in triangles.chunks(3) {
        sum += cross(&points[t[0] as usize], &points[t[1] as usize], &points[t[2] as usize]) / 2.0;
    }
    sum
}

fn polygon_area(points: &[Pt]) -> f64 {
    let mut sum = 0.0;
    for i in 0..points.len() {
        let a = points[i];
        let b = points[(i + 1) % points.len()];
        sum += a.0 * b.1 - b.0 * a.1;
    }
    sum / 2.0
}

fn check_laws(points: &[Pt], triangles: &[u64]) {
    assert_eq!(triangles.len(), 3 * (points.len() - 2));
    for v in 0..points.len() as u64 {
        assert!(triangles.contains(&v));
    }
    for i in triangles {
        assert!((*i as usize) < points.len());
    }
    for t in triangles.chunks(3) {
        assert!(!is_ccw(&points[t[0] as usize], &points[t[1] as usize], &points[t[2] as usize]));
    }
    assert!((triangles_area(points, triangles) - polygon_area(points)).abs() < 1.0e-9);
}

#[test]
fn clockwise_unit_square_gives_two_triangles_of_total_area_one() {
    let square: Vec<Pt> = vec![(0.0, 0.0), (0.0, 1.0), (1.0, 1.0), (1.0, 0.0)];
    let triangles = triangulate(&square, left_of, is_ccw, in_triangle).unwrap();
    assert_eq!(triangles.as_vec(), &vec![3, 0, 1, 3, 1, 2]);
    assert_eq!(triangles.len() / 3, 2);
    assert!((triangles_area(&square, triangles.as_vec()).abs() - 1.0).abs() < 1.0e-12);
    check_laws(&square, triangles.as_vec());
}

#[test]
fn unit_square_on_screen_gives_two_triangles_of_total_area_one() {
    // Listed this way the square is clockwise when the second coordinate
    // grows downward.
    let square: Vec<Pt> = vec![(0.0, 0.0), (1.0, 0.0), (1.0, 1.0), (0.0, 1.0)];
    let triangles = triangulate(&square, left_of, is_ccw_on_screen, in_triangle).unwrap();
    assert_eq!(triangles.as_vec(), &vec![3, 0, 1, 3, 1, 2]);
    assert!((triangles_area(&square, triangles.as_vec()) - 1.0).abs() < 1.0e-12);
}

#[test]
fn counter_clockwise_square_is_refused() {
    let square: Vec<Pt> = vec![(0.0, 0.0), (1.0, 0.0), (1.0, 1.0), (0.0, 1.0)];
    let r = triangulate(&square, left_of, is_ccw, in_triangle);
    assert_eq!(r, Err(TriangulateError::NotClockwise));
}

#[test]
fn fewer_than_three_points_are_refused() {
    let none: Vec<Pt> = vec![];
    assert_eq!(
        triangulate(&none, left_of, is_ccw, in_triangle),
        Err(TriangulateError::TooFewPoints)
    );
    let two: Vec<Pt> = vec![(0.0, 0.0), (1.0, 1.0)];
    assert_eq!(
        triangulate(&two, left_of, is_ccw, in_triangle),
        Err(TriangulateError::TooFewPoints)
    );
}

#[test]
fn a_triangle_is_its_own_triangulation() {
    let triangle: Vec<Pt> = vec![(0.0, 0.0), (0.0, 1.0), (1.0, 0.0)];
    let triangles = triangulate(&triangle, left_of, is_ccw, in_triangle).unwrap();
    assert_eq!(triangles.as_vec(), &vec![2, 0, 1]);
    check_laws(&triangle, triangles.as_vec());
}

#[test]
fn crossing_outline_runs_out_of_ears() {
    let crossed: Vec<Pt> = vec![(0.0, 0.0), (0.0, 2.0), (2.0, 0.0), (2.0, 2.0)];
    assert_eq!(
        triangulate(&crossed, left_of, is_ccw, in_triangle),
        Err(TriangulateError::NoEar)
    );
}

#[test]
fn concave_outlines_are_cut_at_their_first_ear() {
    let ell: Vec<Pt> =
        vec![(0.0, 0.0), (0.0, 2.0), (1.0, 2.0), (1.0, 1.0), (2.0, 1.0), (2.0, 0.0)];
    let triangles = triangulate(&ell, left_of, is_ccw, in_triangle).unwrap();
    assert_eq!(triangles.as_vec(), &vec![0, 1, 2, 0, 2, 3, 5, 0, 3, 5, 3, 4]);
    assert!((triangles_area(&ell, triangles.as_vec()) + 3.0).abs() < 1.0e-12);
    check_laws(&ell, triangles.as_vec());

    let dart: Vec<Pt> = vec![(0.0, 0.0), (1.0, 3.0), (2.0, 0.0), (1.0, 1.0)];
    let triangles = triangulate(&dart, left_of, is_ccw, in_triangle).unwrap();
    assert_eq!(triangles.as_vec(), &vec![3, 0, 1, 3, 1, 2]);
    check_laws(&dart, triangles.as_vec());
}

#[test]
fn a_vertex_on_a_straight_edge_makes_a_flat_ear() {
    let outline: Vec<Pt> = vec![(0.0, 0.0), (0.0, 1.0), (0.0, 2.0), (2.0, 2.0), (2.0, 0.0)];
    let triangles = triangulate(&outline, left_of, is_ccw, in_triangle).unwrap();
    assert_eq!(triangles.as_vec(), &vec![4, 0, 1, 4, 1, 2, 4, 2, 3]);
    check_laws(&outline, triangles.as_vec());
}

#[test]
fn a_star_keeps_its_area() {
    let mut star: Vec<Pt> = Vec::new();
    for i in 0..5 {
        let foot = (-72.0 * i as f64).to_radians();
        star.push((foot.cos(), foot.sin()));
        let top = (-72.0 * (i as f64 + 0.5)).to_radians();
        star.push((top.cos() * 3.0, top.sin() * 3.0));
    }
    let triangles = triangulate(&star, left_of, is_ccw, in_triangle).unwrap();
    assert_eq!(
        triangles.as_vec(),
        &vec![0, 1, 2, 2, 3, 4, 0, 2, 4, 9, 0, 4, 4, 5, 6, 6, 7, 8, 4, 6, 8, 9, 4, 8]
    );
    check_laws(&star, triangles.as_vec());
}

#[test]
fn reversed_triangulation_is_the_list_turned_round() {
    let square: Vec<Pt> = vec![(0.0, 0.0), (0.0, 1.0), (1.0, 1.0), (1.0, 0.0)];
    let triangles = triangulate_rev(&square, left_of, is_ccw, in_triangle).unwrap();
    assert_eq!(triangles.as_vec(), &vec![2, 1, 3, 1, 0, 3]);
    for t in triangles.as_vec().chunks(3) {
        assert!(is_ccw(&square[t[0] as usize], &square[t[1] as usize], &square[t[2] as usize]));
    }
    let refused: Vec<Pt> = vec![(0.0, 0.0), (1.0, 0.0), (1.0, 1.0), (0.0, 1.0)];
    assert_eq!(
        triangulate_rev(&refused, left_of, is_ccw, in_triangle),
        Err(TriangulateError::NotClockwise)
    );
}

#[test]
fn a_convex_outline_is_cut_into_the_fan_round_its_last_point() {
    for n in [3u64, 4, 8, 25] {
        let outline: Vec<Pt> = (0..n)
            .map(|i| {
                let a = (-360.0 * i as f64 / n as f64).to_radians();
                (5.0 * a.cos(), 5.0 * a.sin())
            })
            .collect();
        let triangles = triangulate(&outline, left_of, is_ccw, in_triangle).unwrap();
        let mut fan: Vec<u64> = Vec::new();
        for k in 0..n - 2 {
            fan.extend([n - 1, k, k + 1]);
        }
        assert_eq!(triangles.as_vec(), &fan);
        check_laws(&outline, triangles.as_vec());
    }
}

#[test]
fn unsigned_areas_of_the_triangles_add_up_to_the_area_of_the_outline() {
    let ell: Vec<Pt> =
        vec![(0.0, 0.0), (0.0, 4.0), (1.0, 4.0), (1.0, 1.0), (3.0, 1.0), (3.0, 0.0)];
    let triangles = triangulate(&ell, left_of, is_ccw, in_triangle).unwrap();
    let mut size = 0.0;
    for t in triangles.as_vec().chunks(3) {
        size += (cross(&ell[t[0] as usize], &ell[t[1] as usize], &ell[t[2] as usize]) / 2.0).abs();
    }
    assert_eq!(size, 6.0);
    assert_eq!(polygon_area(&ell), -6.0);
}
