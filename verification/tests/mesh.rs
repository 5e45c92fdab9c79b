use particles::mesh::{icosphere_topology, triangles_to_edges};

#[test]
fn test_icosphere_vertex_counts() {
    let (verts0, indices0) = icosphere_topology(0);
    assert_eq!(verts0.len(), 12);
    assert_eq!(indices0.len(), 60); // 20 triangles * 3 indices

    let (verts1, indices1) = icosphere_topology(1);
    assert!(verts1.len() > 12);
    assert!(indices1.len() > indices0.len());
}

#[test]
fn icosphere_subdivision_structure() {
    let (verts0, _) = icosphere_topology(0);
    // every base vertex is its own parent
    for (i, p) in verts0.iter().enumerate() {
        assert_eq!(*p, (i as u32, i as u32));
    }
    let (verts1, indices1) = icosphere_topology(1);
    // one subdivision: 42 vertices, 80 triangles
    assert_eq!(verts1.len(), 42);
    assert_eq!(indices1.len(), 240);
    // every midpoint vertex has two earlier, distinct parents
    for (i, p) in verts1.iter().enumerate().skip(12) {
        assert!(p.0 < p.1);
        assert!((p.0 as usize) < i && (p.1 as usize) < i);
    }
    // every index points at an existing vertex
    for ix in &indices1 {
        assert!((*ix as usize) < verts1.len());
    }
}

#[test]
fn edges_of_the_base_icosahedron() {
    let (_, indices0) = icosphere_topology(0);
    let edges = triangles_to_edges(&indices0);
    // an icosahedron has 30 edges, two endpoints each
    assert_eq!(edges.len(), 60);
}

#[test]
fn edges_are_deduplicated_in_first_seen_order() {
    let indices = vec![0u32, 1, 2, 0, 1, 3];
    let edges = triangles_to_edges(&indices);
    assert_eq!(edges, vec![0, 1, 1, 2, 0, 2, 1, 3, 0, 3]);
}

#[test]
fn trailing_partial_triangle_is_ignored() {
    let indices = vec![0u32, 1, 2, 7];
    let edges = triangles_to_edges(&indices);
    assert_eq!(edges, vec![0, 1, 1, 2, 0, 2]);
}
