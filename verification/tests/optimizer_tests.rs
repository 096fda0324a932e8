use rmi_core::optimizer::RMIStatistics;
use rmi_core::optimizer::first_phase_configs;
use rmi_core::optimizer::get_branching_factors;
use rmi_core::optimizer::narrow_front;
use rmi_core::optimizer::pareto_front;
use rmi_core::optimizer::final_front;
use rmi_core::optimizer::second_phase_configs;

fn stat(models: &str, bf: u64, avg: f64, max: f64, size: u64) -> RMIStatistics {
    RMIStatistics {
        models: models.to_string(),
        branching_factor: bf,
        average_log2_error: avg.to_bits(),
        max_log2_error: max.to_bits(),
        size,
    }
}

#[test]
fn test_pareto_dominance() {
    let a = stat("linear,linear", 64, 0.5, 1.0, 100);
    let b = stat("radix,linear", 64, 0.4, 1.0, 80);
    assert!(a.dominated_by(&b));
    assert!(!b.dominated_by(&a));
    let front = pareto_front(&[a, b]);
    assert_eq!(front.len(), 1);
    assert_eq!(front[0].models, "radix,linear".to_string());
    assert_eq!(front[0].size, 80);
}

#[test]
fn test_pareto_equal_entries_not_dominated() {
    let a = stat("linear,linear", 64, 0.5, 1.0, 100);
    let b = stat("linear,linear", 64, 0.5, 1.0, 100);
    assert!(!a.dominated_by(&b));
    let front = pareto_front(&[a, b]);
    assert_eq!(front.len(), 2);
}

#[test]
fn test_pareto_front_idempotent_concrete() {
    let s = vec![
        stat("a,b", 64, 0.9, 2.0, 10),
        stat("c,d", 64, 0.5, 1.5, 50),
        stat("e,f", 64, 0.7, 1.9, 40),
        stat("g,h", 64, 0.4, 1.0, 120),
    ];
    let once = pareto_front(&s);
    let twice = pareto_front(&once);
    assert_eq!(once.len(), twice.len());
    for (x, y) in once.iter().zip(twice.iter()) {
        assert_eq!(x.models, y.models);
        assert_eq!(x.size, y.size);
        assert_eq!(x.average_log2_error, y.average_log2_error);
    }
}

#[test]
fn test_narrow_front_anchor() {
    let entries = vec![
        stat("a,a", 64, 5.0, 6.0, 10),
        stat("b,b", 64, 4.0, 5.0, 20),
        stat("c,c", 64, 3.0, 4.0, 40),
        stat("d,d", 64, 2.0, 3.0, 80),
        stat("e,e", 64, 1.0, 2.0, 160),
    ];
    let narrowed = narrow_front(&entries, 3);
    assert_eq!(narrowed.len(), 3);
    assert!(narrowed.iter().any(|x| x.size == 10));
    assert_eq!(narrowed[0].size, 10);
}

#[test]
fn test_narrow_front_small_input_kept() {
    let entries = vec![stat("a,a", 64, 1.0, 2.0, 10), stat("b,b", 64, 0.5, 1.0, 20)];
    let narrowed = narrow_front(&entries, 3);
    assert_eq!(narrowed.len(), 2);
    assert_eq!(narrowed[0].size, 10);
    assert_eq!(narrowed[1].size, 20);
}

#[test]
fn test_final_front_sorted_by_error() {
    let s = vec![
        stat("a,a", 64, 0.9, 2.0, 10),
        stat("b,b", 64, 0.5, 1.5, 50),
        stat("c,c", 64, 0.2, 1.0, 90),
    ];
    let sel = final_front(&s, 3);
    assert_eq!(sel.len(), 3);
    assert_eq!(sel[0].average_log2_error, 0.2f64.to_bits());
    assert_eq!(sel[1].average_log2_error, 0.5f64.to_bits());
    assert_eq!(sel[2].average_log2_error, 0.9f64.to_bits());
}

#[test]
fn test_branching_factors() {
    let bfs = get_branching_factors();
    assert_eq!(bfs.len(), 19);
    assert_eq!(bfs[0], 64);
    assert_eq!(bfs[5], 2048);
    assert_eq!(bfs[18], 1 << 24);
}

#[test]
fn test_first_phase_configs() {
    let configs = first_phase_configs();
    assert_eq!(configs.len(), 84);
    assert_eq!(configs[0].0, "radix,linear".to_string());
    assert_eq!(configs[0].1, 64);
    assert_eq!(configs[1].1, 2048);
    assert_eq!(configs[3].1, 2097152);
    assert_eq!(configs[4].0, "radix,cubic".to_string());
    assert_eq!(configs[12].0, "radix18,linear".to_string());
    assert_eq!(configs[83].0, "linear_spline,linear_spline".to_string());
}

#[test]
fn test_second_phase_configs() {
    let first = vec![stat("linear,linear", 64, 0.5, 1.0, 100)];
    let next = second_phase_configs(&first);
    assert_eq!(next.len(), 18);
    for (m, bf) in next.iter() {
        assert_eq!(*m, "linear,linear".to_string());
        assert_ne!(*bf, 64);
    }
    assert!(next.iter().any(|(_, bf)| *bf == 2048));
    for i in 0..next.len() {
        for j in i + 1..next.len() {
            assert!(!(next[i].0 == next[j].0 && next[i].1 == next[j].1));
        }
    }
}

#[test]
fn test_has_config() {
    let s = stat("linear,cubic", 256, 0.5, 1.0, 100);
    assert!(s.has_config(&"linear,cubic".to_string(), 256));
    assert!(!s.has_config(&"linear,cubic".to_string(), 128));
    assert!(!s.has_config(&"linear,linear".to_string(), 256));
}
