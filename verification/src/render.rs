//! Renderer: quantizes utilization ratios into a bounded glyph palette
//! and selects the one color directive that wraps the rendered line.

use vstd::prelude::*;

use crate::utilization::{CoreUtilization, CpuUtilization, core_util_wf, cpu_util_wf};
use crate::utilization::MAX_TOTAL_DELTA;

verus! {

/// Which escape dialect colors the bar, if any.
#[derive(Debug, Clone, Copy, PartialEq, Eq, Structural)]
pub enum ColorMode {
    NoColor,
    AnsiThreshold,
    TmuxThreshold,
}

/// Why a configuration was rejected.
#[derive(Debug, Clone, Copy, PartialEq, Eq, Structural)]
pub enum ConfigError {
    /// Both color dialects were requested at once.
    ConflictingColorModes,
}

/// The load band the whole line is colored with.
#[derive(Debug, Clone, Copy, PartialEq, Eq, Structural)]
pub enum ColorBand {
    Green,
    Yellow,
    Red,
}

/// The single color directive around the glyph line.
#[derive(Debug, Clone, Copy, PartialEq, Eq, Structural)]
pub enum ColorDirective {
    NoDirective,
    Ansi(ColorBand),
    Tmux(ColorBand),
}

/// The rendered line: one glyph per core, in the cores' ascending-id
/// order, and the directive that wraps the whole line.
#[derive(Debug, PartialEq, Eq)]
pub struct RenderedOutput {
    pub glyphs: Vec<char>,
    pub directive: ColorDirective,
}

/// A core's utilization as a whole percentage, rounded down; zero when no
/// ticks elapsed on it.
pub open spec fn core_pct(c: CoreUtilization) -> int {
    if c.total > 0 {
        c.busy * 100 / c.total as int
    } else {
        0
    }
}

/// The palette bucket of a percentage, for an n-glyph palette: the
/// percentage divided by the bucket width `100 / (n - 1)`, clamped to the
/// last glyph.
pub open spec fn bucket_of(pct: int, n: int) -> int {
    let step = 100int / (n - 1);
    if pct / step > n - 1 {
        n - 1
    } else {
        pct / step
    }
}

/// The machine's load in hundredths of a core: the sum of the per-core
/// percentages.
pub open spec fn load_pct(cs: Seq<CoreUtilization>) -> int
    decreases cs.len(),
{
    if cs.len() == 0 {
        0
    } else {
        load_pct(cs.drop_last()) + core_pct(cs.last())
    }
}

/// The band a load falls in, against the two thresholds.
pub open spec fn band_of(load: int, green_until: int, yellow_until: int) -> ColorBand {
    if load < green_until {
        ColorBand::Green
    } else if load < yellow_until {
        ColorBand::Yellow
    } else {
        ColorBand::Red
    }
}

/// The directive a color mode and a load select.
pub open spec fn directive_of(
    mode: ColorMode,
    load: int,
    green_until: int,
    yellow_until: int,
) -> ColorDirective {
    match mode {
        ColorMode::NoColor => ColorDirective::NoDirective,
        ColorMode::AnsiThreshold => ColorDirective::Ansi(
            band_of(load, green_until, yellow_until),
        ),
        ColorMode::TmuxThreshold => ColorDirective::Tmux(
            band_of(load, green_until, yellow_until),
        ),
    }
}

/// What the two command-line color switches select.
pub open spec fn mode_of_flags(ansi: bool, tmux: bool) -> Result<ColorMode, ConfigError> {
    if ansi && tmux {
        Err(ConfigError::ConflictingColorModes)
    } else if ansi {
        Ok(ColorMode::AnsiThreshold)
    } else if tmux {
        Ok(ColorMode::TmuxThreshold)
    } else {
        Ok(ColorMode::NoColor)
    }
}

/// Resolves the two color switches into one mode. Requesting both escape
/// dialects at once is a configuration error, reported before any
/// sampling or rendering occurs.
pub fn color_mode_of_flags(ansi: bool, tmux: bool) -> (r: Result<ColorMode, ConfigError>)
    ensures
        r == mode_of_flags(ansi, tmux),
{
    if ansi && tmux {
        Err(ConfigError::ConflictingColorModes)
    } else if ansi {
        Ok(ColorMode::AnsiThreshold)
    } else if tmux {
        Ok(ColorMode::TmuxThreshold)
    } else {
        Ok(ColorMode::NoColor)
    }
}

/// A core's utilization as a whole percentage.
fn core_pct_exec(c: &CoreUtilization) -> (p: u64)
    requires
        core_util_wf(*c),
    ensures
        p == core_pct(*c),
        p <= 100,
{
    if c.total > 0 {
        proof {
            assert(c.busy <= MAX_TOTAL_DELTA);
            assert(c.busy * 100 <= c.total * 100) by (nonlinear_arith)
                requires
                    c.busy <= c.total,
            ;
            assert(c.busy * 100 / c.total as int <= c.total * 100 / c.total as int)
                by (nonlinear_arith)
                requires
                    c.total > 0,
                    c.busy * 100 <= c.total * 100,
            ;
            assert(c.total * 100 / c.total as int == 100) by (nonlinear_arith)
                requires
                    c.total > 0,
            ;
            assert(c.busy * 100 / c.total as int >= 0) by (nonlinear_arith)
                requires
                    c.total > 0,
                    c.busy >= 0,
            ;
        }
        let pct: u128 = c.busy * 100 / c.total;
        pct as u64
    } else {
        0
    }
}

/// The palette bucket of one core's ratio, for an n-glyph palette: within
/// [0, n-1] for every well-formed ratio, the full ratio 1 included.
pub fn bucket(c: &CoreUtilization, n: usize) -> (b: usize)
    requires
        core_util_wf(*c),
        2 <= n <= 101,
    ensures
        b == bucket_of(core_pct(*c), n as int),
        b < n,
{
    let pct = core_pct_exec(c);
    let step: u64 = 100 / (n as u64 - 1);
    proof {
        assert(step >= 1) by (nonlinear_arith)
            requires
                1 <= n as u64 - 1 <= 100,
                step == 100int / (n as u64 - 1) as int,
        ;
    }
    let bq: u64 = pct / step;
    proof {
        assert(bq <= pct) by (nonlinear_arith)
            requires
                step >= 1,
                pct >= 0,
                bq == pct as int / step as int,
        ;
    }
    if bq > n as u64 - 1 {
        n - 1
    } else {
        bq as usize
    }
}

/// Selects the load band against the two thresholds, in hundredths of a
/// core.
fn band_exec(load: u128, green_until: u64, yellow_until: u64) -> (b: ColorBand)
    ensures
        b == band_of(load as int, green_until as int, yellow_until as int),
{
    if load < green_until as u128 {
        ColorBand::Green
    } else if load < yellow_until as u128 {
        ColorBand::Yellow
    } else {
        ColorBand::Red
    }
}

/// Renders the utilizations as one glyph per core — each ratio quantized
/// into the palette — and the directive that the color mode and the
/// machine load select. The thresholds are in hundredths of a core, the
/// unit of `load_pct`.
pub fn render(
    u: &CpuUtilization,
    palette: &Vec<char>,
    mode: ColorMode,
    green_until: u64,
    yellow_until: u64,
) -> (r: RenderedOutput)
    requires
        cpu_util_wf(*u),
        2 <= palette@.len() <= 101,
    ensures
        r.glyphs@.len() == u.cores@.len(),
        forall|i: int|
            0 <= i < u.cores@.len() ==> r.glyphs@[i] == palette@[bucket_of(
                core_pct(u.cores@[i]),
                palette@.len() as int,
            )],
        r.directive == directive_of(
            mode,
            load_pct(u.cores@),
            green_until as int,
            yellow_until as int,
        ),
{
    let n = u.cores.len();
    let np = palette.len();
    let mut glyphs: Vec<char> = Vec::new();
    let mut load: u128 = 0;
    let mut i: usize = 0;
    while i < n
        invariant
            i <= n,
            n == u.cores@.len(),
            2 <= np <= 101,
            np == palette@.len(),
            cpu_util_wf(*u),
            glyphs@.len() == i,
            forall|j: int|
                0 <= j < i ==> glyphs@[j] == palette@[bucket_of(
                    core_pct(u.cores@[j]),
                    np as int,
                )],
            load == load_pct(u.cores@.take(i as int)),
            load <= 100 * (i as int),
        decreases n - i,
    {
        let c = u.cores[i];
        let b = bucket(&c, np);
        glyphs.push(palette[b]);
        let pct = core_pct_exec(&c);
        proof {
            assert(u.cores@.take(i + 1).drop_last() =~= u.cores@.take(i as int));
            assert(u.cores@.take(i + 1).last() == u.cores@[i as int]);
        }
        load = load + pct as u128;
        i = i + 1;
    }
    proof {
        assert(u.cores@.take(n as int) =~= u.cores@);
    }
    let directive = match mode {
        ColorMode::NoColor => ColorDirective::NoDirective,
        ColorMode::AnsiThreshold => ColorDirective::Ansi(
            band_exec(load, green_until, yellow_until),
        ),
        ColorMode::TmuxThreshold => ColorDirective::Tmux(
            band_exec(load, green_until, yellow_until),
        ),
    };
    RenderedOutput { glyphs, directive }
}

} // verus!

