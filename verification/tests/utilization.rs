use cpubars::parser::parse;
use cpubars::render::{render, ColorMode};
use cpubars::utilization::{utilization, UtilizationError};

fn palette() -> Vec<char> {
    " \u{2581}\u{2582}\u{2583}\u{2584}\u{2585}\u{2586}\u{2587}\u{2588}".chars().collect()
}

#[test]
fn full_busy_interval_renders_highest_glyph() {
    let earlier = "cpu  100 0 100 800 0 0 0 0 0 0\ncpu0 100 0 100 800 0 0 0 0 0 0\n";
    let later = "cpu  150 0 150 800 0 0 0 0 0 0\ncpu0 150 0 150 800 0 0 0 0 0 0\n";
    let s1 = parse(earlier.as_bytes()).unwrap();
    let s2 = parse(later.as_bytes()).unwrap();
    let u = utilization(&s1, &s2).unwrap();
    assert_eq!(u.cores.len(), 1);
    assert_eq!(u.cores[0].busy, 100);
    assert_eq!(u.cores[0].total, 100);
    let r = render(&u, &palette(), ColorMode::NoColor, 200, 800);
    let line: String = r.glyphs.iter().collect();
    assert_eq!("\u{2588}", line);
}

#[test]
fn identical_samples_yield_zero_ratio_and_lowest_glyph() {
    let d = "cpu  100 0 100 800 0 0 0 0 0 0\ncpu0 100 0 100 800 0 0 0 0 0 0\n";
    let s1 = parse(d.as_bytes()).unwrap();
    let s2 = parse(d.as_bytes()).unwrap();
    let u = utilization(&s1, &s2).unwrap();
    for c in &u.cores {
        assert_eq!(c.busy, 0);
        assert_eq!(c.total, 0);
    }
    let r = render(&u, &palette(), ColorMode::NoColor, 200, 800);
    let line: String = r.glyphs.iter().collect();
    assert_eq!(" ", line);
}

#[test]
fn differing_core_counts_mismatch() {
    let one = "cpu  0 0 0 0 0 0 0 0 0 0\ncpu0 1 0 0 0 0 0 0 0 0 0\n";
    let two = "cpu  0 0 0 0 0 0 0 0 0 0\ncpu0 1 0 0 0 0 0 0 0 0 0\ncpu1 1 0 0 0 0 0 0 0 0 0\n";
    let s1 = parse(one.as_bytes()).unwrap();
    let s2 = parse(two.as_bytes()).unwrap();
    assert_eq!(
        utilization(&s1, &s2),
        Err(UtilizationError::CoreSetMismatch)
    );
}

#[test]
fn differing_core_ids_mismatch_never_truncate() {
    let a = "cpu  0 0 0 0 0 0 0 0 0 0\ncpu0 1 0 0 0 0 0 0 0 0 0\ncpu2 1 0 0 0 0 0 0 0 0 0\n";
    let b = "cpu  0 0 0 0 0 0 0 0 0 0\ncpu0 1 0 0 0 0 0 0 0 0 0\ncpu1 1 0 0 0 0 0 0 0 0 0\n";
    let s1 = parse(a.as_bytes()).unwrap();
    let s2 = parse(b.as_bytes()).unwrap();
    assert_eq!(
        utilization(&s1, &s2),
        Err(UtilizationError::CoreSetMismatch)
    );
}

#[test]
fn counter_wraparound_clamps_to_zero() {
    let earlier = "cpu  900 0 0 100 0 0 0 0 0 0\ncpu0 900 0 0 100 0 0 0 0 0 0\n";
    let later = "cpu  1 0 0 1 0 0 0 0 0 0\ncpu0 1 0 0 1 0 0 0 0 0 0\n";
    let s1 = parse(earlier.as_bytes()).unwrap();
    let s2 = parse(later.as_bytes()).unwrap();
    let u = utilization(&s1, &s2).unwrap();
    assert_eq!(u.cores[0].busy, 0);
    assert_eq!(u.cores[0].total, 0);
}

#[test]
fn half_busy_interval_has_exact_ratio() {
    let earlier = "cpu  100 0 0 100 0 0 0 0 0 0\ncpu0 100 0 0 100 0 0 0 0 0 0\n";
    let later = "cpu  150 0 0 150 0 0 0 0 0 0\ncpu0 150 0 0 150 0 0 0 0 0 0\n";
    let s1 = parse(earlier.as_bytes()).unwrap();
    let s2 = parse(later.as_bytes()).unwrap();
    let u = utilization(&s1, &s2).unwrap();
    assert_eq!(u.cores[0].busy, 50);
    assert_eq!(u.cores[0].total, 100);
    let r = render(&u, &palette(), ColorMode::NoColor, 200, 800);
    let line: String = r.glyphs.iter().collect();
    assert_eq!("\u{2584}", line);
}

#[test]
fn pairing_is_by_id_in_shared_order() {
    let earlier = "cpu  0 0 0 0 0 0 0 0 0 0\ncpu4 100 0 0 100 0 0 0 0 0 0\ncpu2 100 0 0 100 0 0 0 0 0 0\n";
    let later = "cpu  0 0 0 0 0 0 0 0 0 0\ncpu2 200 0 0 100 0 0 0 0 0 0\ncpu4 100 0 0 200 0 0 0 0 0 0\n";
    let s1 = parse(earlier.as_bytes()).unwrap();
    let s2 = parse(later.as_bytes()).unwrap();
    let u = utilization(&s1, &s2).unwrap();
    assert_eq!(u.cores.len(), 2);
    assert_eq!(u.cores[0].id, 2);
    assert_eq!(u.cores[0].busy, 100);
    assert_eq!(u.cores[0].total, 100);
    assert_eq!(u.cores[1].id, 4);
    assert_eq!(u.cores[1].busy, 0);
    assert_eq!(u.cores[1].total, 100);
}
