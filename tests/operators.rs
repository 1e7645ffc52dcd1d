use polyhedron_ops::geometry::Point;
use polyhedron_ops::mesh::Polyhedron;

fn pt(x: i64, y: i64, z: i64) -> Point {
    Point { x, y, z }
}

fn tetrahedron() -> Polyhedron {
    Polyhedron::new(
        vec![
            pt(1000, 1000, 1000),
            pt(1000, -1000, -1000),
            pt(-1000, 1000, -1000),
            pt(-1000, -1000, 1000),
        ],
        vec![vec![2, 1, 0], vec![3, 2, 0], vec![1, 3, 0], vec![2, 3, 1]],
        "T".to_string(),
    )
    .unwrap()
}

fn cube() -> Polyhedron {
    Polyhedron::new(
        vec![
            pt(-1000, -1000, -1000),
            pt(1000, -1000, -1000),
            pt(1000, 1000, -1000),
            pt(-1000, 1000, -1000),
            pt(-1000, -1000, 1000),
            pt(1000, -1000, 1000),
            pt(1000, 1000, 1000),
            pt(-1000, 1000, 1000),
        ],
        vec![
            vec![0, 3, 2, 1],
            vec![4, 5, 6, 7],
            vec![0, 1, 5, 4],
            vec![1, 2, 6, 5],
            vec![2, 3, 7, 6],
            vec![3, 0, 4, 7],
        ],
        "C".to_string(),
    )
    .unwrap()
}

/// A tetrahedron whose faces all have edges of different lengths.
fn irregular_tetrahedron() -> Polyhedron {
    Polyhedron::new(
        vec![pt(0, 0, 0), pt(1000, 0, 0), pt(0, 2000, 0), pt(0, 0, 3000)],
        vec![vec![0, 2, 1], vec![0, 1, 3], vec![0, 3, 2], vec![1, 2, 3]],
        "I".to_string(),
    )
    .unwrap()
}

#[test]
fn tetrahedron_counts() {
    let t = tetrahedron();
    assert_eq!(t.vertex_count(), 4);
    assert_eq!(t.face_count(), 4);
    assert_eq!(t.edges().len(), 6);
    for v in 0..4 {
        assert_eq!(t.vertex_valence(v), 3);
    }
}

#[test]
fn cube_edges_and_valence() {
    let c = cube();
    let edges = c.edges();
    assert_eq!(edges.len(), 12);
    assert_eq!(&edges[0..4], &[(0, 3), (2, 3), (1, 2), (0, 1)]);
    assert_eq!(c.valences(), vec![3; 8]);
}

#[test]
fn join_tetrahedron() {
    let t = tetrahedron();
    let j = t.join(500);
    // one quadrilateral per face corner
    assert_eq!(j.face_count(), 12);
    assert!(j.faces.iter().all(|f| f.len() == 4));
    // six edge midpoints and four face centres beside the original corners
    assert_eq!(j.vertex_count() - t.vertex_count(), 6 + 4);
    assert_eq!(j.vertex_count(), 14);
    assert_eq!(j.name, "T");
}

#[test]
fn join_cube_exact() {
    let j = cube().join(500);
    assert_eq!(j.face_count(), 24);
    assert_eq!(j.vertex_count(), 8 + 12 + 6);
    // first edge of the table is (0, 3)
    assert_eq!(j.positions[8], pt(-1000, 0, -1000));
    // centre of the bottom face, raised outward by half the ratio's share
    assert_eq!(j.positions[20], pt(0, 0, -1500));
    // corner 0 of face 0: midpoint of edge (1, 0), vertex 0, midpoint of (0, 3), centre
    assert_eq!(j.faces[0], vec![11, 0, 8, 20]);
    assert_eq!(j.faces[1], vec![8, 3, 9, 20]);
}

#[test]
fn join_ratio_zero_keeps_centroid() {
    let j = cube().join(0);
    assert_eq!(j.positions[20], pt(0, 0, -1000));
    assert_eq!(j.positions[21], pt(0, 0, 1000));
}

#[test]
fn kis_cube() {
    let c = cube();
    let k = c.kis(100, None, Some(false));
    assert_eq!(k.vertex_count(), 8 + 6);
    assert_eq!(k.face_count(), 24);
    assert!(k.faces.iter().all(|f| f.len() == 3));
    assert_eq!(k.faces[0], vec![0, 3, 8]);
    assert_eq!(k.faces[3], vec![1, 0, 8]);
    assert_eq!(k.positions[8], pt(0, 0, -1100));
    assert_eq!(k.positions[9], pt(0, 0, 1100));
    assert_eq!(&k.positions[0..8], &c.positions[..]);
}

#[test]
fn kis_tetrahedron_triangulates_every_face() {
    let k = tetrahedron().kis(1000, None, None);
    assert_eq!(k.face_count(), 12);
    assert_eq!(k.vertex_count(), 8);
}

#[test]
fn kis_regular_only_on_irregular_mesh_is_identity() {
    let t = irregular_tetrahedron();
    for f in 0..4 {
        assert!(!t.face_regular(f));
    }
    let k = t.kis(100, None, Some(true));
    assert_eq!(k.positions, t.positions);
    assert_eq!(k.faces, t.faces);
}

#[test]
fn kis_regular_only_on_cube_changes_all() {
    let c = cube();
    assert!(c.face_regular(0));
    let k = c.kis(100, None, Some(true));
    assert_eq!(k.face_count(), 24);
}

#[test]
fn kis_mask() {
    let c = cube();
    let none = c.kis(100, Some(&[4]), None);
    assert_eq!(none.faces, c.faces);
    assert_eq!(none.positions, c.positions);
    let all = c.kis(100, Some(&[5, 3]), None);
    assert_eq!(all.face_count(), 24);
}

#[test]
fn meta_mask_applies_to_join() {
    // after the join, face centres of a cube have valence 4 and the
    // original corners valence 3
    let mut c = cube();
    c.meta(None, None, Some(&[7]), None, false);
    assert_eq!(c.face_count(), 24);
    let mut d = cube();
    d.meta(None, None, Some(&[3]), None, false);
    assert_eq!(d.face_count(), 24 * 4);
}

#[test]
fn m_equals_default_meta() {
    let mut a = tetrahedron();
    let mut b = tetrahedron();
    a.m();
    b.meta(Some(500), Some(100), None, Some(false), true);
    assert_eq!(a.positions, b.positions);
    assert_eq!(a.faces, b.faces);
    assert_eq!(a.name, b.name);
    assert_eq!(a.name, "mT");
    assert_eq!(a.face_count(), 48);
    assert_eq!(a.vertex_count(), 14 + 12);
}

#[test]
fn meta_clamps_parameters() {
    let mut a = cube();
    let mut b = cube();
    a.meta(Some(5000), Some(-1000), None, None, true);
    b.meta(Some(1000), Some(0), None, None, true);
    assert_eq!(a.positions, b.positions);
    assert_eq!(a.faces, b.faces);
    assert_eq!(a.name, b.name);
    assert_eq!(a.name, "m1,0C");
}

#[test]
fn meta_names_accumulate() {
    let mut t = tetrahedron();
    t.meta(Some(300), Some(200), None, None, true)
        .meta(Some(300), Some(200), None, None, true);
    assert_eq!(t.name, "m0.3,0.2m0.3,0.2T");
}

#[test]
fn meta_name_tokens() {
    let mut t = tetrahedron();
    t.meta(Some(125), None, Some(&[3, 4]), Some(true), true);
    assert_eq!(t.name, "m0.125,0.1,[3,4],{t}T");
    let mut u = tetrahedron();
    u.meta(None, None, Some(&[12]), Some(false), true);
    assert_eq!(u.name, "m,12T");
    let mut w = tetrahedron();
    w.meta(None, Some(50), None, None, false);
    assert_eq!(w.name, "T");
    let mut x = tetrahedron();
    x.meta(Some(1000), Some(1000), None, None, true);
    assert_eq!(x.name, "m1,1T");
}

#[test]
fn m_twice_chains() {
    let mut t = tetrahedron();
    t.m().m();
    assert_eq!(t.name, "mmT");
    assert_eq!(t.face_count(), 48 * 3 * 4);
}

#[test]
fn empty_mesh() {
    let mut e = Polyhedron::new(vec![], vec![], String::new()).unwrap();
    let j = e.join(500);
    assert_eq!(j.vertex_count(), 0);
    assert_eq!(j.face_count(), 0);
    let k = e.kis(100, None, None);
    assert_eq!(k.vertex_count(), 0);
    e.m();
    assert_eq!(e.vertex_count(), 0);
    assert_eq!(e.face_count(), 0);
    assert_eq!(e.name, "m");
}

#[test]
fn new_rejects_malformed() {
    let pts = || vec![pt(0, 0, 0), pt(1, 0, 0), pt(0, 1, 0)];
    assert!(Polyhedron::new(pts(), vec![vec![0, 1, 2]], String::new()).is_some());
    assert!(Polyhedron::new(pts(), vec![vec![0, 1]], String::new()).is_none());
    assert!(Polyhedron::new(pts(), vec![vec![0, 1, 3]], String::new()).is_none());
    assert!(Polyhedron::new(pts(), vec![vec![0, 1, 1]], String::new()).is_none());
    let far = vec![pt(0, 0, 0), pt(1, 0, 0), pt(0, 1, 1 << 41)];
    assert!(Polyhedron::new(far, vec![vec![0, 1, 2]], String::new()).is_none());
}

#[test]
fn centroid_of_face() {
    let c = cube();
    assert_eq!(c.face_centroid(0), pt(0, 0, -1000));
    assert_eq!(c.face_centroid(3), pt(1000, 0, 0));
    let t = Polyhedron::new(
        vec![pt(0, 0, 0), pt(1, 0, 0), pt(0, -1, 0)],
        vec![vec![0, 1, 2]],
        String::new(),
    )
    .unwrap();
    // rounded toward zero
    assert_eq!(t.face_centroid(0), pt(0, 0, 0));
}

#[test]
fn large_coordinates_are_clamped() {
    let big = 1i64 << 40;
    let p = Polyhedron::new(
        vec![pt(-big, -big, big), pt(big, -big, big), pt(big, big, big), pt(-big, big, big)],
        vec![vec![0, 1, 2, 3]],
        String::new(),
    )
    .unwrap();
    let k = p.kis(1000, None, None);
    assert_eq!(k.positions[4], pt(0, 0, big));
}
