use cloudscape::mesh::{
    grid_vertex, incident_triangles, strip_triangles, vertex_coords, Triangle, INTERIOR_VALENCE,
};

#[test]
fn unit_scale_has_two_triangles() {
    let tris = strip_triangles(1);
    assert_eq!(tris, vec![Triangle { a: 0, b: 2, c: 1 }, Triangle { a: 3, b: 1, c: 2 }]);
    assert!(strip_triangles(0).is_empty());
}

#[test]
fn every_cell_gets_two_triangles() {
    let tris = strip_triangles(3);
    assert_eq!(tris.len(), 18);
    // cell (2, 1): lower and upper triangles
    assert_eq!(tris[2 * 3 * 1 + 2 * 2], Triangle { a: 6, b: 10, c: 7 });
    assert_eq!(tris[2 * 3 * 1 + 2 * 2 + 1], Triangle { a: 11, b: 7, c: 10 });
}

#[test]
fn grid_vertex_numbering_round_trips() {
    assert_eq!(grid_vertex(2, 1, 3), 6);
    for id in 0..16 {
        let (x, z) = vertex_coords(id, 3);
        assert_eq!(grid_vertex(x, z, 3), id);
    }
}

#[test]
fn interior_vertex_meets_six_triangles() {
    let tris = strip_triangles(2);
    let inc = incident_triangles(&tris, 9);
    assert_eq!(inc.len(), 9);
    assert_eq!(inc[4], vec![1, 2, 3, 4, 5, 6]);
    assert_eq!(inc[4].len(), INTERIOR_VALENCE);
    assert_eq!(inc[0], vec![0]);
    assert_eq!(inc[2], vec![2, 3]);
    assert_eq!(inc[8], vec![7]);
}

#[test]
fn incident_lists_skip_repeated_corners() {
    let tris = vec![Triangle { a: 1, b: 1, c: 0 }, Triangle { a: 0, b: 2, c: 1 }];
    let inc = incident_triangles(&tris, 3);
    assert_eq!(inc, vec![vec![0, 1], vec![0, 1], vec![1]]);
}

#[test]
fn every_interior_vertex_meets_six_triangles() {
    let s = 5;
    let tris = strip_triangles(s);
    let inc = incident_triangles(&tris, (s + 1) * (s + 1));
    for id in 0..(s + 1) * (s + 1) {
        let (x, z) = vertex_coords(id, s);
        let interior = x > 0 && x < s && z > 0 && z < s;
        if interior {
            assert_eq!(inc[id].len(), INTERIOR_VALENCE);
        } else {
            assert!(inc[id].len() < INTERIOR_VALENCE);
        }
    }
}
