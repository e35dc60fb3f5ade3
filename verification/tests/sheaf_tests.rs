use si_sheaf_gossip::sheaf::{
    constant_sheaf, constant_sheaf_ring, constant_sheaf_star, disagreement_sheaf,
    disagreement_sheaf_ring, sheaf_from_edges, stalk_dimension, total_dimension, Sheaf,
};

fn edge_list<S>(sheaf: &Sheaf<S>) -> Vec<(usize, usize)> {
    sheaf.edge_restrictions.iter().map(|(u, v, _)| (*u, *v)).collect()
}

#[test]
fn test_stalk_dimension() {
    let sheaf: Sheaf<f64> = constant_sheaf(4, 3);
    assert_eq!(stalk_dimension(&sheaf, 0), 3);
    assert_eq!(stalk_dimension(&sheaf, 3), 3);
}

#[test]
fn test_total_dimension() {
    let sheaf: Sheaf<f64> = constant_sheaf(4, 3);
    assert_eq!(total_dimension(&sheaf), 12);
}

#[test]
fn test_constant_sheaf_vertices() {
    let sheaf: Sheaf<f64> = constant_sheaf(5, 2);
    assert_eq!(sheaf.n_vertices, 5);
    assert_eq!(sheaf.stalk_dims.len(), 5);
}

#[test]
fn test_constant_sheaf_edges_complete() {
    let sheaf: Sheaf<f64> = constant_sheaf(4, 2);
    // complete graph on 4 vertices = 6 edges
    assert_eq!(sheaf.edge_restrictions.len(), 6);
}

#[test]
fn test_constant_sheaf_identity_restrictions() {
    let sheaf: Sheaf<f64> = constant_sheaf(3, 2);
    let (_, _, ref r) = sheaf.edge_restrictions[0];
    // Identity matrix
    assert!((r[0][0] - 1.0).abs() < 1e-10);
    assert!((r[0][1]).abs() < 1e-10);
    assert!((r[1][0]).abs() < 1e-10);
    assert!((r[1][1] - 1.0).abs() < 1e-10);
}

#[test]
fn test_disagreement_sheaf_1d_stalks() {
    let sheaf: Sheaf<f64> = disagreement_sheaf(5);
    for d in &sheaf.stalk_dims {
        assert_eq!(*d, 1);
    }
}

#[test]
fn test_disagreement_sheaf_edges() {
    let sheaf: Sheaf<f64> = disagreement_sheaf(3);
    assert_eq!(sheaf.edge_restrictions.len(), 3);
}

#[test]
fn test_constant_sheaf_ring() {
    let sheaf: Sheaf<f64> = constant_sheaf_ring(5, 2);
    assert_eq!(sheaf.n_vertices, 5);
    assert_eq!(sheaf.edge_restrictions.len(), 5);
}

#[test]
fn test_constant_sheaf_star() {
    let sheaf: Sheaf<f64> = constant_sheaf_star(4, 2);
    assert_eq!(sheaf.n_vertices, 5);
    assert_eq!(sheaf.edge_restrictions.len(), 4);
}

#[test]
fn test_sheaf_from_edges() {
    let edges = vec![(0, 1), (1, 2), (2, 0)];
    let sheaf: Sheaf<f64> = sheaf_from_edges(3, &edges, 3);
    assert_eq!(sheaf.n_vertices, 3);
    assert_eq!(sheaf.edge_restrictions.len(), 3);
    assert_eq!(total_dimension(&sheaf), 9);
}

#[test]
fn test_constant_sheaf_edge_order() {
    let sheaf: Sheaf<f64> = constant_sheaf(4, 1);
    assert_eq!(
        edge_list(&sheaf),
        vec![(0, 1), (0, 2), (0, 3), (1, 2), (1, 3), (2, 3)]
    );
}

#[test]
fn test_constant_sheaf_integer_identity() {
    let sheaf: Sheaf<i64> = constant_sheaf(3, 3);
    let id = vec![vec![1, 0, 0], vec![0, 1, 0], vec![0, 0, 1]];
    for (_, _, r) in &sheaf.edge_restrictions {
        assert_eq!(r, &id);
    }
    assert_eq!(sheaf.stalk_dims, vec![3, 3, 3]);
}

#[test]
fn test_ring_sheaf_small_rings() {
    let r0: Sheaf<f64> = constant_sheaf_ring(0, 1);
    assert!(r0.edge_restrictions.is_empty());
    let r1: Sheaf<f64> = constant_sheaf_ring(1, 1);
    assert_eq!(edge_list(&r1), vec![(0, 0)]);
    let r2: Sheaf<f64> = constant_sheaf_ring(2, 1);
    assert_eq!(edge_list(&r2), vec![(0, 1)]);
    let r4: Sheaf<f64> = constant_sheaf_ring(4, 1);
    assert_eq!(edge_list(&r4), vec![(0, 1), (1, 2), (2, 3), (0, 3)]);
}

#[test]
fn test_star_sheaf_edges() {
    let s: Sheaf<f64> = constant_sheaf_star(3, 2);
    assert_eq!(edge_list(&s), vec![(0, 1), (0, 2), (0, 3)]);
    assert_eq!(s.stalk_dims, vec![2, 2, 2, 2]);
    for (_, _, r) in &s.edge_restrictions {
        assert_eq!(r.len(), 2);
        assert!(r.iter().all(|row| row.len() == 2));
    }
}

#[test]
fn test_disagreement_sheaf_ring_restrictions() {
    let s: Sheaf<f64> = disagreement_sheaf_ring(3);
    assert_eq!(edge_list(&s), vec![(0, 1), (1, 2), (0, 2)]);
    for (_, _, r) in &s.edge_restrictions {
        assert_eq!(r, &vec![vec![1.0]]);
    }
}

#[test]
fn test_sheaf_from_edges_keeps_order_and_duplicates() {
    let edges = vec![(2, 0), (0, 1), (2, 0)];
    let s: Sheaf<u32> = sheaf_from_edges(3, &edges, 1);
    assert_eq!(edge_list(&s), edges);
}

#[test]
fn test_total_dimension_mixed_stalks() {
    let s: Sheaf<f64> = Sheaf {
        n_vertices: 3,
        stalk_dims: vec![2, 3, 2],
        edge_restrictions: vec![],
    };
    assert_eq!(total_dimension(&s), 7);
    assert_eq!(stalk_dimension(&s, 1), 3);
}

#[test]
fn test_total_dimension_constant_law() {
    let s: Sheaf<f64> = constant_sheaf(7, 5);
    assert_eq!(total_dimension(&s), 35);
    let e: Sheaf<f64> = constant_sheaf(0, 5);
    assert_eq!(total_dimension(&e), 0);
}

#[test]
fn test_disagreement_sheaf_matches_constant_sheaf() {
    let d: Sheaf<f64> = disagreement_sheaf(4);
    let c: Sheaf<f64> = constant_sheaf(4, 1);
    assert_eq!(d.n_vertices, c.n_vertices);
    assert_eq!(d.stalk_dims, c.stalk_dims);
    assert_eq!(d.edge_restrictions, c.edge_restrictions);
}

#[test]
fn test_constructed_sheaves_are_well_formed() {
    let sheaves: Vec<Sheaf<f64>> = vec![
        constant_sheaf(5, 3),
        constant_sheaf_ring(6, 2),
        constant_sheaf_star(4, 2),
        disagreement_sheaf_ring(5),
    ];
    for s in &sheaves {
        assert_eq!(s.stalk_dims.len(), s.n_vertices);
        for (u, v, m) in &s.edge_restrictions {
            assert!(*u < s.n_vertices && *v < s.n_vertices);
            assert_eq!(m.len(), s.stalk_dims[*v]);
            assert!(m.iter().all(|row| row.len() == s.stalk_dims[*u]));
        }
    }
}
