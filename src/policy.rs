//! Scan policy: parallelism, progress cadence and throttling chosen from the
//! priority mode and throttle level.

use crate::filter::{build_filter_config, bounds_ok, compiled, pattern_ok, FilterConfig, FilterError, ScanFilters};
use vstd::prelude::*;

verus! {

/// How much of the machine a scan may use.
#[derive(Clone, Copy, PartialEq, Eq, Structural, Debug)]
pub enum ScanPriorityMode {
    Performance,
    Balanced,
    Low,
}

/// How often a scan pauses to leave room for other work.
#[derive(Clone, Copy, PartialEq, Eq, Structural, Debug)]
pub enum ScanThrottleLevel {
    Off,
    Low,
    Medium,
    High,
}

/// Pause for `sleep_ms` milliseconds after every `every_entries` entries.
#[derive(Clone, Copy, PartialEq, Eq, Structural, Debug)]
pub struct ThrottleConfig {
    pub every_entries: u64,
    pub sleep_ms: u64,
}

/// How directory listing is spread over threads.
#[derive(Clone, Copy, PartialEq, Eq, Structural, Debug)]
pub enum WalkParallelism {
    Serial,
    Pool(usize),
}

/// What the user submits with a scan.
pub struct ScanOptions {
    pub priority_mode: ScanPriorityMode,
    pub throttle_level: ScanThrottleLevel,
    pub filters: ScanFilters,
}

/// Everything a scan runs by; fixed for the scan's lifetime.
pub struct ScanConfig {
    pub filters: FilterConfig,
    pub emit_every: u64,
    pub emit_interval_ms: u64,
    pub throttle: Option<ThrottleConfig>,
    pub parallelism: WalkParallelism,
}

/// The number of threads a priority mode asks for, out of `available`.
pub open spec fn thread_count(mode: ScanPriorityMode, available: nat) -> nat {
    match mode {
        ScanPriorityMode::Performance => available,
        ScanPriorityMode::Balanced => (available + 1) / 2,
        ScanPriorityMode::Low => 1,
    }
}

/// The progress cadence of a priority mode: (entry count, milliseconds).
pub open spec fn cadence(mode: ScanPriorityMode) -> (u64, u64) {
    match mode {
        ScanPriorityMode::Performance => (1200, 160),
        ScanPriorityMode::Balanced => (2000, 250),
        ScanPriorityMode::Low => (3200, 360),
    }
}

/// The pause policy of a throttle level.
pub open spec fn throttle_of(level: ScanThrottleLevel) -> Option<ThrottleConfig> {
    match level {
        ScanThrottleLevel::Off => None,
        ScanThrottleLevel::Low => Some(ThrottleConfig { every_entries: 1200, sleep_ms: 1 }),
        ScanThrottleLevel::Medium => Some(ThrottleConfig { every_entries: 600, sleep_ms: 3 }),
        ScanThrottleLevel::High => Some(ThrottleConfig { every_entries: 250, sleep_ms: 6 }),
    }
}

/// Chooses the walk's parallelism; `available` is the machine's count of
/// execution units. One thread or fewer means a serial walk.
pub fn resolve_parallelism(priority_mode: ScanPriorityMode, available: usize) -> (r:
    WalkParallelism)
    ensures
        thread_count(priority_mode, available as nat) <= 1 ==> r == WalkParallelism::Serial,
        thread_count(priority_mode, available as nat) > 1 ==> r == WalkParallelism::Pool(
            thread_count(priority_mode, available as nat) as usize,
        ),
{
    let threads: usize = match priority_mode {
        ScanPriorityMode::Performance => available,
        ScanPriorityMode::Balanced => available / 2 + available % 2,
        ScanPriorityMode::Low => 1,
    };
    if threads <= 1 {
        return WalkParallelism::Serial;
    }
    WalkParallelism::Pool(threads)
}

/// The progress cadence for a priority mode.
pub fn resolve_cadence(priority_mode: ScanPriorityMode) -> (r: (u64, u64))
    ensures
        r == cadence(priority_mode),
{
    match priority_mode {
        ScanPriorityMode::Performance => (1200, 160),
        ScanPriorityMode::Balanced => (2000, 250),
        ScanPriorityMode::Low => (3200, 360),
    }
}

/// The pause policy for a throttle level.
pub fn resolve_throttle(throttle_level: ScanThrottleLevel) -> (r: Option<ThrottleConfig>)
    ensures
        r == throttle_of(throttle_level),
{
    match throttle_level {
        ScanThrottleLevel::Off => None,
        ScanThrottleLevel::Low => Some(ThrottleConfig { every_entries: 1200, sleep_ms: 1 }),
        ScanThrottleLevel::Medium => Some(ThrottleConfig { every_entries: 600, sleep_ms: 3 }),
        ScanThrottleLevel::High => Some(ThrottleConfig { every_entries: 250, sleep_ms: 6 }),
    }
}

impl ScanConfig {
    pub open spec fn wf(&self) -> bool {
        &&& self.filters.wf()
        &&& self.emit_every > 0
        &&& match self.throttle {
            Some(t) => t.every_entries > 0,
            None => true,
        }
    }
}

/// Builds the configuration of a scan from the user's options; `available`
/// is the machine's count of execution units. Fails exactly when the
/// filters do not compile.
pub fn build_scan_config(options: &ScanOptions, available: usize) -> (r: Result<
    ScanConfig,
    FilterError,
>)
    ensures
        r is Ok <==> bounds_ok(options.filters) && pattern_ok(options.filters.include_regex)
            && pattern_ok(options.filters.exclude_regex),
        !bounds_ok(options.filters) ==> r matches Err(FilterError::InvalidSizeBounds),
        bounds_ok(options.filters) && r is Err ==> r->Err_0 is InvalidPattern,
        r is Ok ==> {
            let c = r->Ok_0;
            &&& c.wf()
            &&& c.filters@ == compiled(options.filters)
            &&& (c.emit_every, c.emit_interval_ms) == cadence(options.priority_mode)
            &&& c.throttle == throttle_of(options.throttle_level)
            &&& c.parallelism == resolve_parallelism_spec(options.priority_mode, available)
        },
{
    let filters = match build_filter_config(&options.filters) {
        Ok(f) => f,
        Err(e) => return Err(e),
    };
    let parallelism = resolve_parallelism(options.priority_mode, available);
    let (emit_every, emit_interval_ms) = resolve_cadence(options.priority_mode);
    let throttle = resolve_throttle(options.throttle_level);
    Ok(ScanConfig { filters, emit_every, emit_interval_ms, throttle, parallelism })
}

/// The parallelism chosen for a priority mode and a count of execution units.
pub open spec fn resolve_parallelism_spec(mode: ScanPriorityMode, available: usize) -> WalkParallelism {
    let t = thread_count(mode, available as nat);
    if t <= 1 {
        WalkParallelism::Serial
    } else {
        WalkParallelism::Pool(t as usize)
    }
}

/// A progress snapshot is due after `processed` entries.
pub open spec fn emit_due(config: ScanConfig, processed: u64, ms_since_emit: u64) -> bool {
    processed % config.emit_every == 0 || ms_since_emit >= config.emit_interval_ms
}

/// The pause due after `processed` entries, in milliseconds; zero for none.
pub open spec fn pause_due(config: ScanConfig, processed: u64) -> u64 {
    match config.throttle {
        Some(t) => if t.sleep_ms > 0 && processed % t.every_entries == 0 {
            t.sleep_ms
        } else {
            0
        },
        None => 0,
    }
}

/// A progress snapshot is due after `processed` entries when the count is a
/// multiple of the cadence or the time since the last one has reached the interval.
pub fn should_emit_progress(processed: u64, ms_since_emit: u64, config: &ScanConfig) -> (r: bool)
    requires
        config.emit_every > 0,
    ensures
        r == emit_due(*config, processed, ms_since_emit),
{
    if processed % config.emit_every == 0 {
        return true;
    }
    ms_since_emit >= config.emit_interval_ms
}

/// The pause, in milliseconds, due after `processed` entries; zero for none.
pub fn pause_after(processed: u64, config: &ScanConfig) -> (r: u64)
    requires
        config.wf(),
    ensures
        r == pause_due(*config, processed),
{
    match config.throttle {
        Some(t) => {
            if t.sleep_ms > 0 && processed % t.every_entries == 0 {
                t.sleep_ms
            } else {
                0
            }
        },
        None => 0,
    }
}

} // verus!
