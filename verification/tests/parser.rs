use cpubars::parser::{parse, ParseError};
use cpubars::render::{render, ColorMode};
use cpubars::utilization::utilization;

fn dump_16cpu_idle() -> String {
    let mut s = String::new();
    s.push_str("cpu  1600 0 1600 12800 0 0 0 0 0 0\n");
    for id in 0..16u64 {
        s.push_str(&format!("cpu{} 100 0 100 800 0 0 0 0 0 0\n", id));
    }
    s.push_str("intr 12345\n");
    s
}

fn palette() -> Vec<char> {
    " \u{2581}\u{2582}\u{2583}\u{2584}\u{2585}\u{2586}\u{2587}\u{2588}".chars().collect()
}

#[test]
fn test_naive_parser() {
    let d1 = dump_16cpu_idle();
    let d2 = dump_16cpu_idle();
    let s1 = parse(d1.as_bytes()).unwrap();
    let s2 = parse(d2.as_bytes()).unwrap();
    let u = utilization(&s1, &s2).unwrap();
    let r = render(&u, &palette(), ColorMode::NoColor, 200, 800);
    let line: String = r.glyphs.iter().collect();
    assert_eq!("                ", line);
}

#[test]
fn parsing_same_text_twice_yields_identical_samples() {
    let d = "cpu  9 8 7 6 5 4 3 2 1 0\ncpu2 10 0 10 80 0 0 0 0 0 0\ncpu0 1 2 3 4 5 6 7 8 9 10\n";
    let a = parse(d.as_bytes()).unwrap();
    let b = parse(d.as_bytes()).unwrap();
    assert_eq!(a, b);
}

#[test]
fn records_are_sorted_ascending_by_id_regardless_of_input_order() {
    let d = "cpu  0 0 0 0 0 0 0 0 0 0\ncpu3 1 0 0 0 0 0 0 0 0 0\ncpu1 2 0 0 0 0 0 0 0 0 0\ncpu2 3 0 0 0 0 0 0 0 0 0\n";
    let s = parse(d.as_bytes()).unwrap();
    let ids: Vec<u64> = s.cores.iter().map(|c| c.id).collect();
    assert_eq!(ids, vec![1, 2, 3]);
    assert_eq!(s.cores[0].user, 2);
    assert_eq!(s.cores[1].user, 3);
    assert_eq!(s.cores[2].user, 1);
}

#[test]
fn one_record_per_core_line_and_section_ends_at_first_other_line() {
    let d = "cpu  0 0 0 0 0 0 0 0 0 0\ncpu0 1 2 3 4 5 6 7 8 9 10\ncpu1 0 0 0 0 0 0 0 0 0 0\nintr 5\ncpu2 0 0 0 0 0 0 0 0 0 0\n";
    let s = parse(d.as_bytes()).unwrap();
    assert_eq!(s.cores.len(), 2);
    let c = &s.cores[0];
    assert_eq!(
        (c.id, c.user, c.nice, c.system, c.idle, c.iowait),
        (0, 1, 2, 3, 4, 5)
    );
    assert_eq!(
        (c.irq, c.softirq, c.steal, c.guest, c.guest_nice),
        (6, 7, 8, 9, 10)
    );
}

#[test]
fn tolerates_runs_of_whitespace() {
    let d = "cpu   10  0 10 80 0 0 0 0 0 0\ncpu0  10   0 10 80 0 0  0 0 0 0\n";
    let s = parse(d.as_bytes()).unwrap();
    assert_eq!(s.cores.len(), 1);
    assert_eq!(s.cores[0].idle, 80);
}

#[test]
fn wrong_token_count_is_malformed() {
    let d = "cpu  0 0 0 0 0 0 0 0 0 0\ncpu0 1 2 3\n";
    assert_eq!(parse(d.as_bytes()), Err(ParseError::MalformedLine));
    let d2 = "cpu  0 0 0 0 0 0 0 0 0 0\ncpu0 1 2 3 4 5 6 7 8 9 10 11\n";
    assert_eq!(parse(d2.as_bytes()), Err(ParseError::MalformedLine));
}

#[test]
fn non_numeric_token_is_malformed() {
    let d = "cpu  0 0 0 0 0 0 0 0 0 0\ncpu0 1 2 three 4 5 6 7 8 9 10\n";
    assert_eq!(parse(d.as_bytes()), Err(ParseError::MalformedLine));
}

#[test]
fn oversized_counter_is_malformed() {
    let d = "cpu  0 0 0 0 0 0 0 0 0 0\ncpu0 99999999999999999999 0 0 0 0 0 0 0 0 0\n";
    assert_eq!(parse(d.as_bytes()), Err(ParseError::MalformedLine));
}

#[test]
fn missing_id_digits_is_malformed() {
    let d = "cpu  0 0 0 0 0 0 0 0 0 0\ncpux 1 2 3 4 5 6 7 8 9 10\n";
    assert_eq!(parse(d.as_bytes()), Err(ParseError::MalformedLine));
}

#[test]
fn missing_aggregate_line_is_rejected() {
    let d = "cpu0 1 2 3 4 5 6 7 8 9 10\ncpu1 1 2 3 4 5 6 7 8 9 10\n";
    assert_eq!(parse(d.as_bytes()), Err(ParseError::NoAggregateLine));
}

#[test]
fn empty_input_is_rejected() {
    assert_eq!(parse(b""), Err(ParseError::Empty));
    assert_eq!(parse(b"intr 5\n"), Err(ParseError::Empty));
}

#[test]
fn aggregate_without_core_lines_is_empty() {
    let d = "cpu  0 0 0 0 0 0 0 0 0 0\nintr 5\n";
    assert_eq!(parse(d.as_bytes()), Err(ParseError::Empty));
}

#[test]
fn duplicate_core_id_is_rejected() {
    let d = "cpu  0 0 0 0 0 0 0 0 0 0\ncpu0 1 0 0 0 0 0 0 0 0 0\ncpu1 1 0 0 0 0 0 0 0 0 0\ncpu0 2 0 0 0 0 0 0 0 0 0\n";
    assert_eq!(parse(d.as_bytes()), Err(ParseError::DuplicateCoreId));
}

#[test]
fn malformed_aggregate_counters_are_rejected() {
    let d = "cpu  0 0 0\ncpu0 1 2 3 4 5 6 7 8 9 10\n";
    assert_eq!(parse(d.as_bytes()), Err(ParseError::MalformedLine));
}
