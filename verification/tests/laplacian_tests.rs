use si_sheaf_gossip::laplacian::{stalk_offsets, transpose};
use si_sheaf_gossip::sheaf::{constant_sheaf, Sheaf};

#[test]
fn test_transpose_rectangular() {
    let m = vec![vec![1, 2, 3], vec![4, 5, 6]];
    assert_eq!(transpose(&m), vec![vec![1, 4], vec![2, 5], vec![3, 6]]);
    assert_eq!(transpose(&transpose(&m)), m);
}

#[test]
fn test_transpose_edge_cases() {
    let empty: Vec<Vec<f64>> = vec![];
    assert!(transpose(&empty).is_empty());
    let no_cols: Vec<Vec<f64>> = vec![vec![], vec![]];
    assert!(transpose(&no_cols).is_empty());
    // rows longer than the first one contribute only their first entries
    let ragged = vec![vec![1.0], vec![2.0, 9.0]];
    assert_eq!(transpose(&ragged), vec![vec![1.0, 2.0]]);
}

#[test]
fn test_stalk_offsets() {
    let s: Sheaf<f64> = Sheaf {
        n_vertices: 4,
        stalk_dims: vec![2, 3, 1, 4],
        edge_restrictions: vec![],
    };
    assert_eq!(stalk_offsets(&s), vec![0, 2, 5, 6]);
    let c: Sheaf<f64> = constant_sheaf(3, 2);
    assert_eq!(stalk_offsets(&c), vec![0, 2, 4]);
    let e: Sheaf<f64> = constant_sheaf(0, 2);
    assert!(stalk_offsets(&e).is_empty());
}
