use packing::square::{
    edge_endpoints, enumerate_elements, next_vertex, orientation_consistent, prev_vertex, CrossSign,
    ElementIndex, NUM_VERTICES,
};

#[test]
fn elements_vertices_then_edges() {
    assert_eq!(
        enumerate_elements(),
        vec![
            ElementIndex::Vertex(0),
            ElementIndex::Vertex(1),
            ElementIndex::Vertex(2),
            ElementIndex::Vertex(3),
            ElementIndex::Edge(0),
            ElementIndex::Edge(1),
            ElementIndex::Edge(2),
            ElementIndex::Edge(3),
        ]
    );
}

#[test]
fn next_and_prev_wrap_around() {
    assert_eq!(next_vertex(0), 1);
    assert_eq!(next_vertex(3), 0);
    assert_eq!(prev_vertex(0), 3);
    assert_eq!(prev_vertex(2), 1);
    for i in 0..NUM_VERTICES {
        assert_eq!(prev_vertex(next_vertex(i)), i);
        assert_eq!(next_vertex(prev_vertex(i)), i);
        assert_eq!(next_vertex(next_vertex(next_vertex(next_vertex(i)))), i);
    }
}

#[test]
fn edges_form_a_closed_chain() {
    assert_eq!(edge_endpoints(0), (0, 1));
    assert_eq!(edge_endpoints(3), (3, 0));
    for i in 0..NUM_VERTICES {
        assert_eq!(edge_endpoints(i).1, edge_endpoints(next_vertex(i)).0);
        assert_eq!(edge_endpoints(prev_vertex(i)).1, i);
    }
}

use CrossSign::{Negative as N, Positive as P, Unordered as U, Zero as Z};

#[test]
fn orientation_all_same_side() {
    assert!(orientation_consistent(&[P, P, P, P]));
    assert!(orientation_consistent(&[N, N, N, N]));
    assert!(orientation_consistent(&[Z, P, Z, P]));
    assert!(orientation_consistent(&[Z, Z, Z, Z]));
    assert!(orientation_consistent(&[]));
}

#[test]
fn orientation_opposite_sides() {
    assert!(!orientation_consistent(&[P, N, P, P]));
    assert!(!orientation_consistent(&[N, P, N, N]));
    assert!(!orientation_consistent(&[Z, N, Z, P]));
}

#[test]
fn orientation_does_not_depend_on_start_without_nan() {
    let signs = [P, Z, N, P];
    for shift in 0..4 {
        let rotated: Vec<CrossSign> = (0..4).map(|k| signs[(k + shift) % 4]).collect();
        assert!(!orientation_consistent(&rotated));
    }
    let signs = [P, Z, P, Z];
    for shift in 0..4 {
        let rotated: Vec<CrossSign> = (0..4).map(|k| signs[(k + shift) % 4]).collect();
        assert!(orientation_consistent(&rotated));
    }
}

#[test]
fn orientation_with_nan() {
    // a NaN that comes first fixes a negative orientation.
    assert!(!orientation_consistent(&[U, P, Z, Z]));
    assert!(orientation_consistent(&[U, N, N, N]));
    // a later NaN is ignored.
    assert!(orientation_consistent(&[P, U, P, P]));
    assert!(orientation_consistent(&[N, U, N, N]));
    assert!(orientation_consistent(&[U, U, U, U]));
}
