//! Utilization engine: turns a pair of samples taken at two instants into
//! per-core utilization ratios over the interval between them.

use vstd::prelude::*;

use crate::model::{CoreInfo, Stat, stat_wf};

verus! {

/// Why two samples cannot be compared.
#[derive(Debug, Clone, Copy, PartialEq, Eq, Structural)]
pub enum UtilizationError {
    /// The two samples do not cover the same set of core ids, so pairing
    /// by id cannot be trusted (a core was plugged or unplugged between
    /// the readings).
    CoreSetMismatch,
}

/// The largest interval total: eight counters of full width.
pub const MAX_TOTAL_DELTA: u128 = 8 * 0xffff_ffff_ffff_ffff;

/// One core's utilization over an interval, as the exact tick ratio
/// `busy / total`. A zero `total` stands for an interval with no elapsed
/// ticks; its ratio counts as zero by policy.
#[derive(Debug, Clone, Copy, PartialEq, Eq, Structural)]
pub struct CoreUtilization {
    pub id: u64,
    pub busy: u128,
    pub total: u128,
}

/// Per-core utilizations over one interval, ascending by id.
#[derive(Debug, PartialEq, Eq)]
pub struct CpuUtilization {
    pub cores: Vec<CoreUtilization>,
}

/// The ratio is a fraction in [0, 1] whose total fits eight counters.
pub open spec fn core_util_wf(c: CoreUtilization) -> bool {
    c.busy <= c.total && c.total <= MAX_TOTAL_DELTA
}

pub open spec fn cpu_util_wf(u: CpuUtilization) -> bool {
    forall|i: int| 0 <= i < u.cores@.len() ==> core_util_wf(#[trigger] u.cores@[i])
}

/// Ticks spent in any accounted state. The guest counters stay out: their
/// ticks are already counted under user and nice.
pub open spec fn total_ticks(c: CoreInfo) -> int {
    c.user + c.nice + c.system + c.idle + c.iowait + c.irq + c.softirq + c.steal
}

/// Ticks spent idle or waiting for I/O.
pub open spec fn idle_ticks(c: CoreInfo) -> int {
    c.idle + c.iowait
}

/// Elapsed ticks on one core between the two readings; zero when the
/// counters did not advance, or ran backwards after a wraparound — a
/// recoverable anomaly, not an error.
pub open spec fn total_delta(later: CoreInfo, earlier: CoreInfo) -> int {
    if total_ticks(later) > total_ticks(earlier) {
        total_ticks(later) - total_ticks(earlier)
    } else {
        0
    }
}

/// Busy ticks on one core between the two readings: elapsed minus idle,
/// clamped into [0, total_delta] against wraparound of either counter
/// group.
pub open spec fn busy_delta(later: CoreInfo, earlier: CoreInfo) -> int {
    let dt = total_delta(later, earlier);
    let di = idle_ticks(later) - idle_ticks(earlier);
    if dt <= 0 {
        0
    } else if di < 0 {
        dt
    } else if di > dt {
        0
    } else {
        dt - di
    }
}

/// The id sequence of a record sequence.
pub open spec fn ids_of(s: Seq<CoreInfo>) -> Seq<u64> {
    s.map_values(|c: CoreInfo| c.id)
}

/// One core's utilization between two readings.
fn core_delta(later: CoreInfo, earlier: CoreInfo) -> (r: CoreUtilization)
    ensures
        r.id == later.id,
        r.busy == busy_delta(later, earlier),
        r.total == total_delta(later, earlier),
        core_util_wf(r),
{
    let ta: u128 = later.user as u128 + later.nice as u128 + later.system as u128
        + later.idle as u128 + later.iowait as u128 + later.irq as u128 + later.softirq as u128
        + later.steal as u128;
    let tb: u128 = earlier.user as u128 + earlier.nice as u128 + earlier.system as u128
        + earlier.idle as u128 + earlier.iowait as u128 + earlier.irq as u128
        + earlier.softirq as u128 + earlier.steal as u128;
    if ta <= tb {
        return CoreUtilization { id: later.id, busy: 0, total: 0 };
    }
    let dt: u128 = ta - tb;
    let ia: u128 = later.idle as u128 + later.iowait as u128;
    let ib: u128 = earlier.idle as u128 + earlier.iowait as u128;
    let busy: u128 = if ia >= ib {
        let di: u128 = ia - ib;
        if di > dt {
            0
        } else {
            dt - di
        }
    } else {
        dt
    };
    CoreUtilization { id: later.id, busy, total: dt }
}

/// Pairs the two samples by core id and computes each core's utilization
/// ratio over the interval, in the shared ascending-id order. Fails with
/// `CoreSetMismatch` — rather than mispairing or truncating — exactly when
/// the samples do not cover the same core ids.
pub fn utilization(earlier: &Stat, later: &Stat) -> (r: Result<
    CpuUtilization,
    UtilizationError,
>)
    requires
        stat_wf(*earlier),
        stat_wf(*later),
    ensures
        r matches Ok(u) ==> {
            &&& ids_of(later.cores@) == ids_of(earlier.cores@)
            &&& u.cores@.len() == later.cores@.len()
            &&& forall|i: int|
                0 <= i < u.cores@.len() ==> (#[trigger] u.cores@[i]).id == later.cores@[i].id
                    && u.cores@[i].busy == busy_delta(later.cores@[i], earlier.cores@[i])
                    && u.cores@[i].total == total_delta(later.cores@[i], earlier.cores@[i])
            &&& cpu_util_wf(u)
        },
        r matches Err(e) ==> e == UtilizationError::CoreSetMismatch && ids_of(later.cores@)
            != ids_of(earlier.cores@),
{
    let n = later.cores.len();
    if earlier.cores.len() != n {
        proof {
            assert(ids_of(later.cores@).len() != ids_of(earlier.cores@).len());
        }
        return Err(UtilizationError::CoreSetMismatch);
    }
    let mut i: usize = 0;
    while i < n
        invariant
            i <= n,
            n == later.cores@.len(),
            n == earlier.cores@.len(),
            forall|j: int| 0 <= j < i ==> later.cores@[j].id == earlier.cores@[j].id,
        decreases n - i,
    {
        if later.cores[i].id != earlier.cores[i].id {
            proof {
                assert(ids_of(later.cores@)[i as int] != ids_of(earlier.cores@)[i as int]);
            }
            return Err(UtilizationError::CoreSetMismatch);
        }
        i = i + 1;
    }
    proof {
        assert(ids_of(later.cores@) =~= ids_of(earlier.cores@));
    }
    let mut out: Vec<CoreUtilization> = Vec::new();
    let mut i: usize = 0;
    while i < n
        invariant
            i <= n,
            n == later.cores@.len(),
            n == earlier.cores@.len(),
            out@.len() == i,
            forall|j: int|
                0 <= j < i ==> (#[trigger] out@[j]).id == later.cores@[j].id && out@[j].busy
                    == busy_delta(later.cores@[j], earlier.cores@[j]) && out@[j].total
                    == total_delta(later.cores@[j], earlier.cores@[j]) && core_util_wf(out@[j]),
        decreases n - i,
    {
        let c = core_delta(later.cores[i], earlier.cores[i]);
        out.push(c);
        i = i + 1;
    }
    Ok(CpuUtilization { cores: out })
}

/// With identical earlier and later readings no ticks elapse, so every
/// core's utilization ratio is zero by the zero-elapsed-ticks policy.
pub proof fn lemma_utilization_identity(s: Stat)
    ensures
        forall|i: int|
            0 <= i < s.cores@.len() ==> #[trigger] total_delta(s.cores@[i], s.cores@[i]) == 0
                && busy_delta(s.cores@[i], s.cores@[i]) == 0,
{
}

/// Reports whether every entry is a well-formed ratio, as `render`
/// demands; `utilization` only returns such values.
pub fn cpu_util_is_wf(u: &CpuUtilization) -> (b: bool)
    ensures
        b == cpu_util_wf(*u),
{
    let n = u.cores.len();
    let mut i: usize = 0;
    while i < n
        invariant
            i <= n,
            n == u.cores@.len(),
            forall|j: int| 0 <= j < i ==> core_util_wf(#[trigger] u.cores@[j]),
        decreases n - i,
    {
        let c = u.cores[i];
        if !(c.busy <= c.total && c.total <= MAX_TOTAL_DELTA) {
            return false;
        }
        i = i + 1;
    }
    true
}

} // verus!
