use si_sheaf_gossip::experiment::{summary, ExperimentResults};

fn sample_results() -> ExperimentResults {
    ExperimentResults {
        convergence: (
            format!("{:.6}", 6.0),
            format!("{:.6}", 15.0),
            format!("{:.6}", 0.000123),
            format!("{:.6}", 0.000123 / 15.0),
        ),
        disagreement: (
            format!("{:.6}", 1.0),
            format!("{:?}", vec![0.0, 1.0, 1.0, 3.0, 3.0, 4.0]),
        ),
        topologies: vec![
            ("Complete".to_string(), format!("{:.4}", 8.0), 25),
            ("Ring".to_string(), format!("{:.4}", 0.5858), 310),
            ("Star".to_string(), format!("{:.4}", 1.0), 150),
        ],
        gap_vs_speed: vec![
            (format!("{:.4}", 2.0), 60),
            (format!("{:.4}", 1.0), 120),
            (format!("{:.4}", 0.5858), 200),
            (format!("{:.4}", 0.382), 300),
            (format!("{:.4}", 0.2679), 400),
        ],
        stalk_dims: (1..=5).map(|d| (d, format!("{:.4}", 5.0), 25)).collect(),
    }
}

#[test]
fn test_summary_runs() {
    let s = summary(&sample_results());
    assert!(s.contains("Experimental Results"));
    assert!(s.contains("Constant Sheaf"));
    assert!(s.contains("Topology Comparison"));
}

#[test]
fn test_summary_completes() {
    let s = summary(&sample_results());
    assert!(s.len() > 100);
}

#[test]
fn test_summary_layout() {
    let s = summary(&sample_results());
    assert!(s.starts_with("=== si-sheaf-gossip: Experimental Results ===\n\n--- Experiment 1"));
    assert!(s.contains("  Spectral gap: 6.000000\n  Initial error: 15.000000\n"));
    assert!(s.contains("  Eigenvalues: [0.0, 1.0, 1.0, 3.0, 3.0, 4.0]\n"));
    assert!(s.contains("    Complete: spectral_gap=8.0000, convergence_steps=25\n"));
    assert!(s.contains("        Ring: spectral_gap=0.5858, convergence_steps=310\n"));
    assert!(s.contains("  gap=0.2679  steps=400\n"));
    assert!(s.contains("  dim=5: spectral_gap=5.0000, convergence_steps=25\n"));
    assert!(s.ends_with("  • Sheaf structure    →  which agent networks reach consensus\n"));
}

#[test]
fn test_summary_empty_rows_and_long_names() {
    let r = ExperimentResults {
        convergence: ("a".to_string(), "b".to_string(), "c".to_string(), "d".to_string()),
        disagreement: ("e".to_string(), "[]".to_string()),
        topologies: vec![("ErdosRenyiGraph".to_string(), "x".to_string(), 0)],
        gap_vs_speed: vec![],
        stalk_dims: vec![(10, "y".to_string(), 1234567)],
    };
    let s = summary(&r);
    assert!(s.contains("  ErdosRenyiGraph: spectral_gap=x, convergence_steps=0\n"));
    assert!(s.contains("--- Experiment 4: Spectral Gap vs Convergence Speed ---\n  ✅ Larger"));
    assert!(s.contains("  dim=10: spectral_gap=y, convergence_steps=1234567\n"));
}
