use si_sheaf_gossip::gossip::{
    flatten_states, generate_topology, unflatten_states, xorshift64, Topology,
};

#[test]
fn test_generate_ring_topology() {
    let edges = generate_topology(&Topology::Ring(5));
    assert_eq!(edges.len(), 5);
}

#[test]
fn test_generate_complete_topology() {
    let edges = generate_topology(&Topology::Complete(4));
    assert_eq!(edges.len(), 6);
}

#[test]
fn test_generate_star_topology() {
    let edges = generate_topology(&Topology::Star(3));
    assert_eq!(edges.len(), 3);
}

#[test]
fn test_generate_erdos_renyi() {
    // edge probability 0.5 = 32768 / 65536
    let edges = generate_topology(&Topology::ErdosRenyi(10, 32768));
    assert!(!edges.is_empty());
    assert!(edges.len() <= 45); // max for 10 vertices
}

#[test]
fn test_erdos_renyi_exact_edges() {
    let edges = generate_topology(&Topology::ErdosRenyi(4, 32768));
    assert_eq!(edges, vec![(0, 1), (0, 2), (0, 3), (1, 3), (2, 3)]);
    let edges = generate_topology(&Topology::ErdosRenyi(10, 32768));
    assert_eq!(edges.len(), 22);
    assert_eq!(edges[3], (0, 5));
}

#[test]
fn test_erdos_renyi_extreme_probabilities() {
    assert!(generate_topology(&Topology::ErdosRenyi(12, 0)).is_empty());
    assert_eq!(
        generate_topology(&Topology::ErdosRenyi(6, 65536)),
        generate_topology(&Topology::Complete(6))
    );
    assert_eq!(
        generate_topology(&Topology::ErdosRenyi(6, u32::MAX)),
        generate_topology(&Topology::Complete(6))
    );
}

#[test]
fn test_erdos_renyi_edges_are_complete_edges() {
    let complete = generate_topology(&Topology::Complete(10));
    let random = generate_topology(&Topology::ErdosRenyi(10, 20000));
    for e in &random {
        assert!(complete.contains(e));
    }
    for i in 0..random.len() {
        for j in (i + 1)..random.len() {
            assert_ne!(random[i], random[j]);
        }
    }
}

#[test]
fn test_topology_small_cases() {
    assert!(generate_topology(&Topology::Ring(0)).is_empty());
    assert_eq!(generate_topology(&Topology::Ring(1)), vec![(0, 0)]);
    assert_eq!(generate_topology(&Topology::Ring(2)), vec![(0, 1)]);
    assert_eq!(generate_topology(&Topology::Ring(3)), vec![(0, 1), (1, 2), (0, 2)]);
    assert!(generate_topology(&Topology::Complete(1)).is_empty());
    assert!(generate_topology(&Topology::Star(0)).is_empty());
    assert_eq!(generate_topology(&Topology::Star(2)), vec![(0, 1), (0, 2)]);
}

#[test]
fn test_complete_topology_count() {
    for n in 0..12usize {
        let edges = generate_topology(&Topology::Complete(n));
        assert_eq!(edges.len(), n * n.saturating_sub(1) / 2);
        assert!(edges.iter().all(|&(a, b)| a < b && b < n));
    }
}

#[test]
fn test_xorshift64_values() {
    assert_eq!(xorshift64(42), 45454805674);
    assert_eq!(xorshift64(0), 0);
    let s = xorshift64(12345);
    assert_ne!(s, 12345);
}

#[test]
fn test_flatten_states() {
    let states = vec![vec![1.0, 2.0], vec![], vec![3.0]];
    assert_eq!(flatten_states(&states), vec![1.0, 2.0, 3.0]);
}

#[test]
fn test_unflatten_states() {
    let flat = vec![1, 2, 3, 4, 5, 6, 7];
    let states = unflatten_states(&flat, &[2, 0, 3]);
    assert_eq!(states, vec![vec![1, 2], vec![], vec![3, 4, 5]]);
}

#[test]
fn test_flatten_unflatten_round_trip() {
    let states = vec![vec![0.5, 1.5, 2.5], vec![-1.0], vec![4.0, 5.0]];
    let flat = flatten_states(&states);
    assert_eq!(flat.len(), 6);
    assert_eq!(unflatten_states(&flat, &[3, 1, 2]), states);
}

#[test]
fn test_topology_edges_in_range_without_repeats() {
    let cases = vec![
        (Topology::Ring(7), 7),
        (Topology::Ring(2), 2),
        (Topology::Star(5), 6),
        (Topology::Complete(5), 5),
        (Topology::ErdosRenyi(9, 40000), 9),
    ];
    for (topo, n_vertices) in cases {
        let edges = generate_topology(&topo);
        for (i, &(a, b)) in edges.iter().enumerate() {
            assert!(a <= b && b < n_vertices);
            assert!(!edges[i + 1..].contains(&(a, b)));
        }
    }
}
