use nonogram::runs::count_runs;

#[test]
fn encode_empty_line_yields_zero() {
    let line: Vec<bool> = vec![];
    assert_eq!(count_runs(&line), vec![0]);
}

#[test]
fn encode_all_false_yields_zero() {
    let line = vec![false, false, false];
    assert_eq!(count_runs(&line), vec![0]);
}

#[test]
fn encode_mixed_line() {
    let line = vec![true, true, false, true];
    assert_eq!(count_runs(&line), vec![2, 1]);
}

#[test]
fn encode_all_true_line() {
    let line = vec![true, true, true];
    assert_eq!(count_runs(&line), vec![3]);
}

#[test]
fn encode_trailing_run_is_emitted() {
    let line = vec![false, true, true];
    assert_eq!(count_runs(&line), vec![2]);
}

#[test]
fn encode_separated_singles() {
    let line = vec![true, false, true, false, true];
    assert_eq!(count_runs(&line), vec![1, 1, 1]);
}

#[test]
fn encode_packing_feasibility_on_samples() {
    let samples: Vec<Vec<bool>> = vec![
        vec![],
        vec![false],
        vec![true],
        vec![true, false, true, true, false, true],
        vec![true, true, false, false, true],
        vec![false, false, true, true, true, false],
    ];
    for line in samples {
        let runs = count_runs(&line);
        let sum: usize = runs.iter().sum();
        assert!(sum + runs.len() - 1 <= line.len());
    }
}
