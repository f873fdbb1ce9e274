use tudo::url::simulate_wrap;

#[test]
fn simulate_wrap_short_line_no_wrap() {
    // "hello world" at width 20 → all on row 0
    let result = simulate_wrap("hello world", 20);
    let rows: Vec<u16> = result.iter().map(|&(_, _, r)| r).collect();
    assert!(rows.iter().all(|&r| r == 0), "all chars on row 0");
}

#[test]
fn simulate_wrap_line_exactly_at_width() {
    let result = simulate_wrap("hello", 5);
    let rows: Vec<u16> = result.iter().map(|&(_, _, r)| r).collect();
    assert!(rows.iter().all(|&r| r == 0));
}

#[test]
fn simulate_wrap_wraps_at_word_boundary() {
    let result = simulate_wrap("hello world", 8);
    let hello_rows: Vec<u16> = result
        .iter()
        .filter(|&&(b, _, _)| b < 5)
        .map(|&(_, _, r)| r)
        .collect();
    let world_rows: Vec<u16> = result
        .iter()
        .filter(|&&(b, _, _)| b > 5)
        .map(|&(_, _, r)| r)
        .collect();
    assert!(hello_rows.iter().all(|&r| r == 0), "hello on row 0");
    assert!(world_rows.iter().all(|&r| r == 1), "world on row 1");
}

#[test]
fn simulate_wrap_multi_word_wraps_twice() {
    let result = simulate_wrap("aa bb cc dd", 5);
    let aa_rows: Vec<u16> = result
        .iter()
        .filter(|&&(b, _, _)| b < 2)
        .map(|&(_, _, r)| r)
        .collect();
    let bb_rows: Vec<u16> = result
        .iter()
        .filter(|&&(b, _, _)| b >= 3 && b < 5)
        .map(|&(_, _, r)| r)
        .collect();
    let cc_rows: Vec<u16> = result
        .iter()
        .filter(|&&(b, _, _)| b >= 6 && b < 8)
        .map(|&(_, _, r)| r)
        .collect();
    let dd_rows: Vec<u16> = result
        .iter()
        .filter(|&&(b, _, _)| b >= 9)
        .map(|&(_, _, r)| r)
        .collect();

    assert!(aa_rows.iter().all(|&r| r == 0), "aa on row 0");
    assert!(bb_rows.iter().all(|&r| r == 0), "bb on row 0");
    assert!(cc_rows.iter().all(|&r| r == 1), "cc on row 1");
    assert!(dd_rows.iter().all(|&r| r == 1), "dd on row 1");
}
