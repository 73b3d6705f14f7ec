use scad_tree::{Faces, Indices, Paths};

#[test]
fn new_indices_are_empty() {
    let indices = Indices::new();
    assert_eq!(indices.len(), 0);
    assert_eq!(indices.get(0), None);
    assert!(indices.as_vec().is_empty());
}

#[test]
fn indices_keep_what_they_are_made_from() {
    let indices = Indices::from_indices(vec![4, 5, 6]);
    assert_eq!(indices.len(), 3);
    assert_eq!(indices.get(0), Some(4));
    assert_eq!(indices.get(2), Some(6));
    assert_eq!(indices.get(3), None);
    assert_eq!(indices.as_vec(), &vec![4, 5, 6]);
    assert_eq!(indices.clone().into_vec(), vec![4, 5, 6]);
    assert_eq!(indices.clone(), indices);
}

#[test]
fn indices_grow_at_the_end() {
    let mut indices = Indices::new();
    indices.push(7);
    indices.push(3);
    assert_eq!(indices, Indices::from_indices(vec![7, 3]));
}

#[test]
fn reversed_indices_run_backwards() {
    let indices = Indices::from_indices(vec![1, 2, 3, 4]);
    assert_eq!(indices.reversed().into_vec(), vec![4, 3, 2, 1]);
    assert_eq!(Indices::new().reversed().len(), 0);
}

#[test]
fn new_paths_are_empty() {
    assert_eq!(Paths::new().len(), 0);
    assert_eq!(Paths::with_capacity(16).len(), 0);
    assert!(Paths::new().get(0).is_none());
}

#[test]
fn paths_keep_what_they_are_made_from() {
    let a = Indices::from_indices(vec![0, 1, 2]);
    let b = Indices::from_indices(vec![2, 3, 0, 1]);
    let paths = Paths::from_paths(vec![a.clone(), b.clone()]);
    let faces: Faces = Faces::from_faces(vec![a.clone(), b.clone()]);
    assert_eq!(paths, faces);
    assert_eq!(paths.len(), 2);
    assert_eq!(paths.get(1), Some(&b));
    assert!(paths.get(2).is_none());
    assert_eq!(paths.as_vec(), &vec![a.clone(), b.clone()]);
    assert_eq!(paths.clone().into_vec(), vec![a, b]);
}

#[test]
fn paths_grow_at_the_end() {
    let mut paths = Paths::new();
    paths.push(Indices::from_indices(vec![9, 8, 7]));
    assert_eq!(paths.len(), 1);
    assert_eq!(paths.get(0).unwrap().as_vec(), &vec![9, 8, 7]);
}

#[test]
fn indices_as_text() {
    assert_eq!(Indices::from_indices(vec![0, 12, 7]).to_string(), "[0, 12, 7]");
    assert_eq!(Indices::from_indices(vec![5]).to_string(), "[5]");
    assert_eq!(Indices::new().to_string(), "[]");
    assert_eq!(
        Indices::from_indices(vec![u64::MAX, 10, 100, 9, 1_000_000]).to_string(),
        "[18446744073709551615, 10, 100, 9, 1000000]"
    );
    let mut text = String::from("faces=");
    Indices::from_indices(vec![3, 2, 1]).append_to(&mut text);
    assert_eq!(text, "faces=[3, 2, 1]");
}

#[test]
fn paths_as_text() {
    let paths = Paths::from_paths(vec![
        Indices::from_indices(vec![0, 1, 2]),
        Indices::from_indices(vec![2, 3, 0, 10]),
    ]);
    assert_eq!(paths.to_string(), "[[0, 1, 2], [2, 3, 0, 10]]");
    assert_eq!(Paths::new().to_string(), "[]");
    assert_eq!(Paths::from_faces(vec![Indices::new()]).to_string(), "[[]]");
}
