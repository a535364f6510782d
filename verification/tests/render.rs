use cpubars::render::{
    bucket, color_mode_of_flags, render, ColorBand, ColorDirective, ColorMode, ConfigError,
};
use cpubars::utilization::{CoreUtilization, CpuUtilization};

fn palette() -> Vec<char> {
    " \u{2581}\u{2582}\u{2583}\u{2584}\u{2585}\u{2586}\u{2587}\u{2588}".chars().collect()
}

fn ratio(id: u64, busy: u128, total: u128) -> CoreUtilization {
    CoreUtilization { id, busy, total }
}

#[test]
fn bucket_stays_in_range_even_at_full_ratio() {
    for n in 2..=101usize {
        for &(busy, total) in &[(0u128, 0u128), (0, 1), (1, 2), (99, 100), (1, 1)] {
            let b = bucket(&ratio(0, busy, total), n);
            assert!(b < n);
        }
    }
}

#[test]
fn full_ratio_hits_last_glyph_of_nine() {
    assert_eq!(bucket(&ratio(0, 1, 1), 9), 8);
    assert_eq!(bucket(&ratio(0, 100, 100), 9), 8);
}

#[test]
fn zero_and_undefined_ratios_hit_first_glyph() {
    assert_eq!(bucket(&ratio(0, 0, 100), 9), 0);
    assert_eq!(bucket(&ratio(0, 0, 0), 9), 0);
}

#[test]
fn quantization_matches_twelve_percent_buckets() {
    assert_eq!(bucket(&ratio(0, 11, 100), 9), 0);
    assert_eq!(bucket(&ratio(0, 12, 100), 9), 1);
    assert_eq!(bucket(&ratio(0, 50, 100), 9), 4);
    assert_eq!(bucket(&ratio(0, 95, 100), 9), 7);
    assert_eq!(bucket(&ratio(0, 96, 100), 9), 8);
}

#[test]
fn renders_one_glyph_per_core_in_order() {
    let u = CpuUtilization {
        cores: vec![ratio(0, 0, 100), ratio(1, 50, 100), ratio(2, 100, 100)],
    };
    let r = render(&u, &palette(), ColorMode::NoColor, 200, 800);
    let line: String = r.glyphs.iter().collect();
    assert_eq!(" \u{2584}\u{2588}", line);
    assert_eq!(r.directive, ColorDirective::NoDirective);
}

#[test]
fn load_bands_follow_thresholds() {
    let low = CpuUtilization {
        cores: vec![ratio(0, 100, 100)],
    };
    let mid = CpuUtilization {
        cores: vec![ratio(0, 100, 100), ratio(1, 100, 100), ratio(2, 100, 100)],
    };
    let high = CpuUtilization {
        cores: (0..9).map(|id| ratio(id, 100, 100)).collect(),
    };
    let r_low = render(&low, &palette(), ColorMode::AnsiThreshold, 200, 800);
    assert_eq!(r_low.directive, ColorDirective::Ansi(ColorBand::Green));
    let r_mid = render(&mid, &palette(), ColorMode::AnsiThreshold, 200, 800);
    assert_eq!(r_mid.directive, ColorDirective::Ansi(ColorBand::Yellow));
    let r_high = render(&high, &palette(), ColorMode::AnsiThreshold, 200, 800);
    assert_eq!(r_high.directive, ColorDirective::Ansi(ColorBand::Red));
}

#[test]
fn tmux_mode_selects_tmux_directive() {
    let u = CpuUtilization {
        cores: vec![ratio(0, 0, 100)],
    };
    let r = render(&u, &palette(), ColorMode::TmuxThreshold, 200, 800);
    assert_eq!(r.directive, ColorDirective::Tmux(ColorBand::Green));
}

#[test]
fn conflicting_color_modes_are_rejected_before_rendering() {
    assert_eq!(
        color_mode_of_flags(true, true),
        Err(ConfigError::ConflictingColorModes)
    );
}

#[test]
fn single_color_switches_resolve() {
    assert_eq!(color_mode_of_flags(false, false), Ok(ColorMode::NoColor));
    assert_eq!(color_mode_of_flags(true, false), Ok(ColorMode::AnsiThreshold));
    assert_eq!(color_mode_of_flags(false, true), Ok(ColorMode::TmuxThreshold));
}
