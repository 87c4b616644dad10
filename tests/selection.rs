use vibetap::selection::{parse_selections, SelectionError};

fn strings(items: &[&str]) -> Vec<String> {
    items.iter().map(|s| s.to_string()).collect()
}

#[test]
fn repeated_and_reordered_tokens_agree() {
    let a = parse_selections(&strings(&["1", "1", "2"]), 3).unwrap();
    let b = parse_selections(&strings(&["2", "1"]), 3).unwrap();
    assert_eq!(a, vec![0, 1]);
    assert_eq!(a, b);
}

#[test]
fn zero_and_too_large_are_rejected() {
    assert_eq!(
        parse_selections(&strings(&["0"]), 3),
        Err(SelectionError::NumberOutOfBounds { part: "0".to_string(), num: 0, max: 3 })
    );
    assert_eq!(
        parse_selections(&strings(&["4"]), 3),
        Err(SelectionError::NumberOutOfBounds { part: "4".to_string(), num: 4, max: 3 })
    );
}

#[test]
fn all_selects_every_index() {
    assert_eq!(parse_selections(&strings(&["all"]), 5).unwrap(), vec![0, 1, 2, 3, 4]);
    assert_eq!(parse_selections(&strings(&["1", "ALL"]), 3).unwrap(), vec![0, 1, 2]);
    assert_eq!(parse_selections(&strings(&["2, aLl"]), 2).unwrap(), vec![0, 1]);
}

#[test]
fn closed_range() {
    assert_eq!(parse_selections(&strings(&["1-3"]), 3).unwrap(), vec![0, 1, 2]);
    assert_eq!(parse_selections(&strings(&["\t2-3\t"]), 4).unwrap(), vec![1, 2]);
    assert_eq!(
        parse_selections(&strings(&[" 2 - 3 "]), 4),
        Err(SelectionError::BadRangeNumber { part: "-".to_string(), max: 4 })
    );
    assert_eq!(parse_selections(&strings(&["3-2"]), 4).unwrap(), Vec::<usize>::new());
}

#[test]
fn separators_within_one_input() {
    assert_eq!(parse_selections(&strings(&["3,1 2,,3"]), 3).unwrap(), vec![0, 1, 2]);
    assert_eq!(parse_selections(&strings(&["+2"]), 3).unwrap(), vec![1]);
    assert_eq!(parse_selections(&strings(&[""]), 3).unwrap(), Vec::<usize>::new());
    assert_eq!(parse_selections(&[], 3).unwrap(), Vec::<usize>::new());
}

#[test]
fn malformed_tokens_are_rejected() {
    let e = parse_selections(&strings(&["x"]), 3).unwrap_err();
    assert_eq!(e, SelectionError::BadSelection { part: "x".to_string(), max: 3 });
    assert_eq!(e.message(), "Invalid selection: 'x'. Use numbers, ranges (1-3), or 'all'. Choose 1-3.");
    let e = parse_selections(&strings(&["1-y"]), 3).unwrap_err();
    assert_eq!(e, SelectionError::BadRangeNumber { part: "1-y".to_string(), max: 3 });
    assert_eq!(e.message(), "Invalid number in range: 1-y. Choose 1-3.");
    let e = parse_selections(&strings(&["0-2"]), 3).unwrap_err();
    assert_eq!(e.message(), "Invalid range: 0-2. Choose 1-3.");
    let e = parse_selections(&strings(&["12"]), 3).unwrap_err();
    assert_eq!(e.message(), "Invalid number: 12. Choose 1-3.");
    let e = parse_selections(&strings(&["007"]), 3).unwrap_err();
    assert_eq!(e.message(), "Invalid number: 007. Choose 1-3.");
}

#[test]
fn first_decision_wins() {
    assert!(parse_selections(&strings(&["0", "all"]), 3).is_err());
    assert_eq!(parse_selections(&strings(&["all", "0"]), 3).unwrap(), vec![0, 1, 2]);
}
