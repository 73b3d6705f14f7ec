use scad_tree::{
    choose_projection, triangulate3d, triangulate3d_rev, Axis, Projection, TriangulateError,
};

type Pt2 = (f64, f64);
type Pt3 = (f64, f64, f64);

fn along(v: &Pt3, axis: Axis) -> f64 {
    match axis {
        Axis::X => v.0,
        Axis::Y => v.1,
        Axis::Z => v.2,
    }
}

fn outweighs(n: &Pt3, a: Axis, b: Axis) -> bool {
    along(n, a).abs() >= along(n, b).abs()
}

fn rises(n: &Pt3, a: Axis) -> bool {
    along(n, a) >= 0.0
}

fn flatten(v: &Pt3, p: Projection) -> Pt2 {
    let first = along(v, p.first());
    (if p.mirrored() { -first } else { first }, along(v, p.second()))
}

fn left_of(a: &Pt2, b: &Pt2) -> bool {
    a.0 < b.0 || ((a.0 - b.0).abs() < 1.0e-5 && a.1 < b.1)
}

fn is_ccw(a: &Pt2, b: &Pt2, c: &Pt2) -> bool {
    (b.0 - a.0) * (c.1 - a.1) - (c.0 - a.0) * (b.1 - a.1) > 0.0
}

fn in_triangle(p: &Pt2, a: &Pt2, b: &Pt2, c: &Pt2) -> bool {
    let denom = (b.1 - c.1) * (a.0 - c.0) + (c.0 - b.0) * (a.1 - c.1);
    if denom.abs() < 1.0e-5 {
        return false;
    }
    let alpha = ((b.1 - c.1) * (p.0 - c.0) + (c.0 - b.0) * (p.1 - c.1)) / denom;
    let beta = ((c.1 - a.1) * (p.0 - c.0) + (a.0 - c.0) * (p.1 - c.1)) / denom;
    let gamma = 1.0 - alpha - beta;
    alpha >= 0.0 && beta >= 0.0 && gamma >= 0.0
}

fn pick(n: Pt3) -> Option<Projection> {
    choose_projection(&n, outweighs, rises)
}

#[test]
fn projection_looks_along_the_heaviest_axis() {
    assert_eq!(pick((3.0, 1.0, -2.0)), Some(Projection::PosX));
    assert_eq!(pick((-3.0, 1.0, -2.0)), Some(Projection::NegX));
    assert_eq!(pick((0.5, 1.0, -0.5)), Some(Projection::PosY));
    assert_eq!(pick((0.0, -1.0, 0.0)), Some(Projection::NegY));
    assert_eq!(pick((0.5, 1.0, 7.0)), Some(Projection::PosZ));
    assert_eq!(pick((0.5, 1.0, -7.0)), Some(Projection::NegZ));
}

#[test]
fn ties_go_to_the_earlier_axis() {
    assert_eq!(pick((1.0, 1.0, 1.0)), Some(Projection::PosX));
    assert_eq!(pick((-1.0, 1.0, 1.0)), Some(Projection::NegX));
    assert_eq!(pick((0.0, -2.0, 2.0)), Some(Projection::NegY));
    assert_eq!(pick((0.0, 0.0, 0.0)), Some(Projection::PosX));
}

#[test]
fn a_normal_that_is_no_number_has_no_projection() {
    assert_eq!(pick((f64::NAN, f64::NAN, f64::NAN)), None);
    assert_eq!(pick((f64::NAN, 1.0, 2.0)), None);
}

#[test]
fn plane_axes_of_every_projection() {
    let table = [
        (Projection::PosX, Axis::X, Axis::Y, Axis::Z, false),
        (Projection::NegX, Axis::X, Axis::Y, Axis::Z, true),
        (Projection::PosY, Axis::Y, Axis::X, Axis::Z, true),
        (Projection::NegY, Axis::Y, Axis::X, Axis::Z, false),
        (Projection::PosZ, Axis::Z, Axis::X, Axis::Y, false),
        (Projection::NegZ, Axis::Z, Axis::X, Axis::Y, true),
    ];
    for (p, along, first, second, mirrored) in table {
        assert_eq!(p.along(), along);
        assert_eq!(p.first(), first);
        assert_eq!(p.second(), second);
        assert_eq!(p.mirrored(), mirrored);
    }
    assert_eq!(flatten(&(1.0, 2.0, 3.0), Projection::PosX), (2.0, 3.0));
    assert_eq!(flatten(&(1.0, 2.0, 3.0), Projection::NegX), (-2.0, 3.0));
    assert_eq!(flatten(&(1.0, 2.0, 3.0), Projection::PosY), (-1.0, 3.0));
    assert_eq!(flatten(&(1.0, 2.0, 3.0), Projection::NegY), (1.0, 3.0));
    assert_eq!(flatten(&(1.0, 2.0, 3.0), Projection::PosZ), (1.0, 2.0));
    assert_eq!(flatten(&(1.0, 2.0, 3.0), Projection::NegZ), (-1.0, 2.0));
}

fn cut(vertices: &Vec<Pt3>, normal: Pt3) -> Result<Vec<u64>, TriangulateError> {
    triangulate3d(vertices, &normal, outweighs, rises, flatten, left_of, is_ccw, in_triangle)
        .map(|t| t.into_vec())
}

#[test]
fn upright_square_seen_against_its_normal() {
    let wall: Vec<Pt3> =
        vec![(1.0, 0.0, 0.0), (1.0, 0.0, 1.0), (2.0, 0.0, 1.0), (2.0, 0.0, 0.0)];
    assert_eq!(cut(&wall, (0.0, -1.0, 0.0)), Ok(vec![3, 0, 1, 3, 1, 2]));
    assert_eq!(cut(&wall, (0.2, -1.0, 0.1)), Ok(vec![3, 0, 1, 3, 1, 2]));
    // Seen from the other side the same list runs counter-clockwise.
    assert_eq!(cut(&wall, (0.0, 1.0, 0.0)), Err(TriangulateError::NotClockwise));
    let mut turned = wall.clone();
    turned.reverse();
    assert_eq!(cut(&turned, (0.0, 1.0, 0.0)), Ok(vec![3, 0, 1, 3, 1, 2]));
}

#[test]
fn level_square_seen_from_above_and_below() {
    let floor: Vec<Pt3> =
        vec![(0.0, 0.0, 5.0), (0.0, 1.0, 5.0), (1.0, 1.0, 5.0), (1.0, 0.0, 5.0)];
    assert_eq!(cut(&floor, (0.0, 0.0, 1.0)), Ok(vec![3, 0, 1, 3, 1, 2]));
    assert_eq!(cut(&floor, (0.0, 0.0, -1.0)), Err(TriangulateError::NotClockwise));
    let side: Vec<Pt3> =
        vec![(4.0, 0.0, 0.0), (4.0, 0.0, 1.0), (4.0, 1.0, 1.0), (4.0, 1.0, 0.0)];
    assert_eq!(cut(&side, (1.0, 0.0, 0.0)), Ok(vec![3, 0, 1, 3, 1, 2]));
}

#[test]
fn spatial_refusals() {
    let wall: Vec<Pt3> =
        vec![(1.0, 0.0, 0.0), (1.0, 0.0, 1.0), (2.0, 0.0, 1.0), (2.0, 0.0, 0.0)];
    assert_eq!(cut(&wall, (f64::NAN, 0.0, 0.0)), Err(TriangulateError::NoProjection));
    let two: Vec<Pt3> = vec![(1.0, 0.0, 0.0), (1.0, 0.0, 1.0)];
    assert_eq!(cut(&two, (0.0, -1.0, 0.0)), Err(TriangulateError::TooFewPoints));
}

#[test]
fn spatial_triangulation_seen_from_behind() {
    let wall: Vec<Pt3> =
        vec![(1.0, 0.0, 0.0), (1.0, 0.0, 1.0), (2.0, 0.0, 1.0), (2.0, 0.0, 0.0)];
    let n = (0.0, -1.0, 0.0);
    let r = triangulate3d_rev(&wall, &n, outweighs, rises, flatten, left_of, is_ccw, in_triangle);
    assert_eq!(r.unwrap().into_vec(), vec![2, 1, 3, 1, 0, 3]);
    let n = (f64::NAN, 0.0, 0.0);
    let r = triangulate3d_rev(&wall, &n, outweighs, rises, flatten, left_of, is_ccw, in_triangle);
    assert_eq!(r, Err(TriangulateError::NoProjection));
}
