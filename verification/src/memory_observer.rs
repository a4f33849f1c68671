//! Memory pressure: the system memory limit, the heap usage against it, and the
//! pressure level used for load shedding.
use vstd::prelude::*;
use crate::memory::{opt_view, MIB};
use crate::text::{
    chars_eq, chars_of, parse_usize_chars, parse_usize_spec, trim_chars, trim_ws,
};

verus! {

/// Pressure levels for load shedding decisions.
#[derive(Debug, Clone, Copy, PartialEq, Eq)]
pub enum PressureLevel {
    /// Below high-watermark: all operations allowed.
    Normal,
    /// Above high-watermark: reject writes, allow reads.
    Elevated,
    /// Above critical threshold: reject everything except health checks.
    Critical,
}

/// Rank of a level: Normal < Elevated < Critical.
pub open spec fn level_rank(l: PressureLevel) -> int {
    match l {
        PressureLevel::Normal => 0,
        PressureLevel::Elevated => 1,
        PressureLevel::Critical => 2,
    }
}

impl PressureLevel {
    /// The level's name as shown in health reports.
    pub fn name(&self) -> (r: &'static str)
        ensures
            r@ == level_name(*self),
    {
        match self {
            PressureLevel::Normal => "normal",
            PressureLevel::Elevated => "elevated",
            PressureLevel::Critical => "critical",
        }
    }
}

/// The level's name as shown in health reports.
pub open spec fn level_name(l: PressureLevel) -> Seq<char> {
    match l {
        PressureLevel::Normal => "normal"@,
        PressureLevel::Elevated => "elevated"@,
        PressureLevel::Critical => "critical"@,
    }
}

/// Snapshot of memory metrics for the health endpoint.
#[derive(Debug, Clone)]
pub struct MemoryStats {
    pub heap_allocated_bytes: usize,
    pub system_limit_bytes: usize,
    pub limit_source: String,
    pub pressure_level: PressureLevel,
    pub allocator: &'static str,
    pub high_watermark_pct: usize,
    pub critical_pct: usize,
}

/// Observes heap usage against the system memory limit.
#[derive(Debug)]
pub struct MemoryObserver {
    high_watermark_pct: usize,
    critical_pct: usize,
    limit_bytes: usize,
    limit_source: String,
    /// Forced level: 0 = none, 1 = Normal, 2 = Elevated, 3 = Critical.
    pressure_override: u8,
}

/// The code stored for a forced level.
pub open spec fn override_code(level: Option<PressureLevel>) -> u8 {
    match level {
        None => 0,
        Some(PressureLevel::Normal) => 1,
        Some(PressureLevel::Elevated) => 2,
        Some(PressureLevel::Critical) => 3,
    }
}

/// The level for a heap usage in percent of the limit.
pub open spec fn level_for_usage(usage_pct: int, high_pct: int, critical_pct: int) -> PressureLevel {
    if usage_pct >= critical_pct {
        PressureLevel::Critical
    } else if usage_pct >= high_pct {
        PressureLevel::Elevated
    } else {
        PressureLevel::Normal
    }
}

/// A level is forced (codes 1 to 3 stand for Normal, Elevated, Critical).
pub open spec fn is_forced(code: u8) -> bool {
    1 <= code <= 3
}

/// The pressure level: a forced level when one is set, Normal when no limit is
/// known, otherwise the level of `allocated * 100 / limit` (integer division).
pub open spec fn pressure_spec(
    override_code: u8,
    limit: usize,
    allocated: usize,
    high_pct: usize,
    critical_pct: usize,
) -> PressureLevel {
    if override_code == 1 {
        PressureLevel::Normal
    } else if override_code == 2 {
        PressureLevel::Elevated
    } else if override_code == 3 {
        PressureLevel::Critical
    } else if limit == 0 {
        PressureLevel::Normal
    } else {
        level_for_usage((allocated * 100) / (limit as int), high_pct as int, critical_pct as int)
    }
}

/// The environment's megabyte limit in bytes, where it parses as a `usize`.
pub open spec fn env_limit_bytes(env_mb: Option<Seq<char>>) -> Option<int> {
    match env_mb {
        Some(t) => match parse_usize_spec(t) {
            Some(v) => Some(v * MIB),
            None => None,
        },
        None => None,
    }
}

/// A limit given in megabytes fits in a `usize` once converted to bytes.
pub open spec fn env_limit_fits(env_mb: Option<Seq<char>>) -> bool {
    match env_limit_bytes(env_mb) {
        Some(b) => b <= usize::MAX,
        None => true,
    }
}

/// The memory limit and where it came from: the environment's megabytes first,
/// then a numeric cgroup `memory.max` (anything but `max` once trimmed), then the
/// system total when it is positive, else `(0, "unknown")`.
pub open spec fn memory_limit_spec(
    env_mb: Option<Seq<char>>,
    cgroup_max: Option<Seq<char>>,
    system_total: Option<usize>,
) -> (int, Seq<char>) {
    if env_limit_bytes(env_mb) is Some {
        (env_limit_bytes(env_mb)->0, "env"@)
    } else if cgroup_max is Some && trim_ws(cgroup_max->0) != "max"@ && parse_usize_spec(
        trim_ws(cgroup_max->0),
    ) is Some {
        (parse_usize_spec(trim_ws(cgroup_max->0))->0 as int, "cgroup"@)
    } else if system_total is Some && system_total->0 > 0 {
        (system_total->0 as int, "sysinfo"@)
    } else {
        (0, "unknown"@)
    }
}

/// The megabyte limit of the environment in bytes, where the text parses.
fn env_limit(env_mb: Option<&str>) -> (r: Option<usize>)
    requires
        env_limit_fits(opt_view(env_mb)),
    ensures
        match env_limit_bytes(opt_view(env_mb)) {
            Some(b) => r == Some(b as usize),
            None => r is None,
        },
{
    match env_mb {
        Some(t) => {
            let cs = chars_of(t);
            match parse_usize_chars(cs.as_slice()) {
                Some(v) => Some(v * MIB),
                None => None,
            }
        },
        None => None,
    }
}

/// Choose the memory limit from what the environment variable, the cgroup
/// `memory.max` file and the system report.
pub fn select_memory_limit(
    env_mb: Option<&str>,
    cgroup_max: Option<&str>,
    system_total: Option<usize>,
) -> (r: (usize, String))
    requires
        env_limit_fits(opt_view(env_mb)),
    ensures
        r.0 as int == memory_limit_spec(opt_view(env_mb), opt_view(cgroup_max), system_total).0,
        r.1@ == memory_limit_spec(opt_view(env_mb), opt_view(cgroup_max), system_total).1,
{
    if let Some(bytes) = env_limit(env_mb) {
        return (bytes, String::from_str("env"));
    }
    if let Some(contents) = cgroup_max {
        let cs = chars_of(contents);
        let trimmed = trim_chars(cs.as_slice());
        let max_word = chars_of("max");
        proof {
            reveal_strlit("max");
        }
        if !chars_eq(trimmed.as_slice(), max_word.as_slice()) {
            if let Some(bytes) = parse_usize_chars(trimmed.as_slice()) {
                return (bytes, String::from_str("cgroup"));
            }
        }
    }
    if let Some(total) = system_total {
        if total > 0 {
            return (total, String::from_str("sysinfo"));
        }
    }
    (0, String::from_str("unknown"))
}

impl MemoryObserver {
    pub closed spec fn high_pct(&self) -> usize {
        self.high_watermark_pct
    }

    pub closed spec fn critical(&self) -> usize {
        self.critical_pct
    }

    pub closed spec fn limit(&self) -> usize {
        self.limit_bytes
    }

    pub closed spec fn source(&self) -> Seq<char> {
        self.limit_source@
    }

    pub closed spec fn override_code(&self) -> u8 {
        self.pressure_override
    }

    /// An observer with the watermark settings (percent texts, defaults 80 and 90)
    /// and a detected memory limit, with no forced level.
    pub fn new(
        high_watermark: Option<&str>,
        critical: Option<&str>,
        limit_bytes: usize,
        limit_source: String,
    ) -> (r: MemoryObserver)
        ensures
            r.high_pct() == crate::memory::setting_value(opt_view(high_watermark), 80),
            r.critical() == crate::memory::setting_value(opt_view(critical), 90),
            r.limit() == limit_bytes,
            r.source() == limit_source@,
            r.override_code() == 0,
    {
        MemoryObserver {
            high_watermark_pct: crate::memory::parse_setting(high_watermark, 80),
            critical_pct: crate::memory::parse_setting(critical, 90),
            limit_bytes,
            limit_source,
            pressure_override: 0,
        }
    }

    /// Detected system memory limit in bytes and its source.
    pub fn system_memory_limit(&self) -> (r: (usize, &str))
        ensures
            r.0 == self.limit(),
            r.1@ == self.source(),
    {
        (self.limit_bytes, self.limit_source.as_str())
    }

    /// The limit in force: the environment's megabytes when that text parses,
    /// else the detected limit.
    pub fn effective_limit(&self, env_mb: Option<&str>) -> (r: (usize, String))
        requires
            env_limit_fits(opt_view(env_mb)),
        ensures
            env_limit_bytes(opt_view(env_mb)) is Some ==> r.0 as int == env_limit_bytes(
                opt_view(env_mb),
            )->0 && r.1@ == "env"@,
            env_limit_bytes(opt_view(env_mb)) is None ==> r.0 == self.limit() && r.1@
                == self.source(),
    {
        match env_limit(env_mb) {
            Some(bytes) => (bytes, String::from_str("env")),
            None => (self.limit_bytes, self.limit_source.clone()),
        }
    }

    /// The pressure level for `allocated` heap bytes, with the environment's
    /// megabyte limit taking precedence over the detected one.
    pub fn pressure_level(&self, env_mb: Option<&str>, allocated: usize) -> (r: PressureLevel)
        requires
            !is_forced(self.override_code()) ==> env_limit_fits(opt_view(env_mb)),
            !is_forced(self.override_code()) ==> allocated * 100 <= usize::MAX,
        ensures
            r == pressure_spec(
                self.override_code(),
                if env_limit_bytes(opt_view(env_mb)) is Some {
                    env_limit_bytes(opt_view(env_mb))->0 as usize
                } else {
                    self.limit()
                },
                allocated,
                self.high_pct(),
                self.critical(),
            ),
    {
        if self.pressure_override == 1 {
            return PressureLevel::Normal;
        } else if self.pressure_override == 2 {
            return PressureLevel::Elevated;
        } else if self.pressure_override == 3 {
            return PressureLevel::Critical;
        }
        let (limit, _) = self.effective_limit(env_mb);
        if limit == 0 {
            return PressureLevel::Normal;
        }
        let usage_pct = (allocated * 100) / limit;
        if usage_pct >= self.critical_pct {
            PressureLevel::Critical
        } else if usage_pct >= self.high_watermark_pct {
            PressureLevel::Elevated
        } else {
            PressureLevel::Normal
        }
    }

    /// Force a pressure level, or clear the forced level with `None`.
    pub fn set_pressure_override(&mut self, level: Option<PressureLevel>)
        ensures
            final(self).override_code() == override_code(level),
            final(self).high_pct() == old(self).high_pct(),
            final(self).critical() == old(self).critical(),
            final(self).limit() == old(self).limit(),
            final(self).source() == old(self).source(),
    {
        let val: u8 = match level {
            None => 0,
            Some(PressureLevel::Normal) => 1,
            Some(PressureLevel::Elevated) => 2,
            Some(PressureLevel::Critical) => 3,
        };
        self.pressure_override = val;
    }

    /// All memory metrics at once, for `allocated` heap bytes.
    pub fn stats(&self, env_mb: Option<&str>, allocated: usize) -> (r: MemoryStats)
        requires
            env_limit_fits(opt_view(env_mb)),
            !is_forced(self.override_code()) ==> allocated * 100 <= usize::MAX,
        ensures
            r.heap_allocated_bytes == allocated,
            env_limit_bytes(opt_view(env_mb)) is Some ==> r.system_limit_bytes as int
                == env_limit_bytes(opt_view(env_mb))->0 && r.limit_source@ == "env"@,
            env_limit_bytes(opt_view(env_mb)) is None ==> r.system_limit_bytes == self.limit()
                && r.limit_source@ == self.source(),
            r.pressure_level == pressure_spec(
                self.override_code(),
                r.system_limit_bytes,
                allocated,
                self.high_pct(),
                self.critical(),
            ),
            r.allocator@ == "system"@,
            r.high_watermark_pct == self.high_pct(),
            r.critical_pct == self.critical(),
    {
        let (limit, source) = self.effective_limit(env_mb);
        MemoryStats {
            heap_allocated_bytes: allocated,
            system_limit_bytes: limit,
            limit_source: source,
            pressure_level: self.pressure_level(env_mb, allocated),
            allocator: Self::allocator_name(),
            high_watermark_pct: self.high_watermark_pct,
            critical_pct: self.critical_pct,
        }
    }

    /// Name of the allocator whose figures the observer reports.
    pub fn allocator_name() -> (r: &'static str)
        ensures
            r@ == "system"@,
    {
        "system"
    }
}

/// A forced level is what the observer reports, whatever the heap usage and limit.
pub proof fn law_forced_level_wins(
    level: PressureLevel,
    limit: usize,
    allocated: usize,
    high_pct: usize,
    critical_pct: usize,
)
    ensures
        pressure_spec(override_code(Some(level)), limit, allocated, high_pct, critical_pct)
            == level,
{
}

/// Without a forced level, more heap in use never lowers the pressure level.
pub proof fn law_pressure_monotone(
    limit: usize,
    a1: usize,
    a2: usize,
    high_pct: usize,
    critical_pct: usize,
)
    requires
        a1 <= a2,
    ensures
        level_rank(pressure_spec(0, limit, a1, high_pct, critical_pct)) <= level_rank(
            pressure_spec(0, limit, a2, high_pct, critical_pct),
        ),
{
    if limit > 0 {
        assert((a1 * 100) / (limit as int) <= (a2 * 100) / (limit as int)) by (nonlinear_arith)
            requires
                a1 <= a2,
                limit > 0,
        ;
    }
}

/// Forcing a level and clearing it again: after `set_pressure_override(Some(l))`
/// the observer's level, alone or in its stats, is `l` whatever the heap usage
/// and the limit; after `set_pressure_override(None)` it is computed from the
/// usage again; either way the limit, its source and the watermarks stay.
pub proof fn law_override_round_trip(
    before: MemoryObserver,
    after: MemoryObserver,
    level: Option<PressureLevel>,
    limit: usize,
    allocated: usize,
)
    requires
        after.override_code() == override_code(level),
        after.high_pct() == before.high_pct(),
        after.critical() == before.critical(),
        after.limit() == before.limit(),
        after.source() == before.source(),
    ensures
        level matches Some(l) ==> pressure_spec(after.override_code(), limit, allocated, after.high_pct(), after.critical())
            == l,
        level is None ==> pressure_spec(after.override_code(), limit, allocated, after.high_pct(), after.critical())
            == pressure_spec(0, limit, allocated, before.high_pct(), before.critical()),
        after.limit() == before.limit() && after.source() == before.source(),
        after.high_pct() == before.high_pct() && after.critical() == before.critical(),
{
}

} // verus!
